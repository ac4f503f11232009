use game2048::array::{level_of_value, tile_value};
use game2048::control::{
    enable_moves_focus, focus_next_impl, focus_set_target, get_first_enabled_panel_id,
    get_focused_panel_id, tab_action, ControlState, TabAction,
};
use game2048::field::{Field, Grid};
use game2048::game::Game;
use game2048::panel::{get_next_id, ButtonPanelHandle, Handle, IdCounter, RibbonPanelHandle, TextPanelHandle};
use game2048::tile::Origin::{Appear, Hold, Merged, Moved};
use game2048::tile::Side::{Down, Left, Right, Up};
use game2048::tile::{join_tiles, JoinResult, Origin, Tile};

fn values(rows: usize, cols: usize, cells: Vec<u32>) -> Grid<u32> {
    Grid { rows, cols, cells }
}

fn value_sum(g: &Grid<u32>) -> u64 {
    g.cells.iter().map(|v| *v as u64).sum()
}

#[test]
fn origin_hold_swaps_the_index() {
    assert_eq!(Origin::hold((2, 3)), Hold(3, 2));
}

#[test]
fn join_moves_into_an_empty_cell() {
    let mut dst = None;
    let mut src = Some(Tile(3, Hold(1, 2)));
    assert_eq!(join_tiles(&mut dst, &mut src), Some(JoinResult::TileMoved));
    assert_eq!(dst, Some(Tile(3, Moved(1, 2))));
    assert_eq!(src, None);
}

#[test]
fn join_merges_equal_tiles() {
    let mut dst = Some(Tile(2, Moved(0, 1)));
    let mut src = Some(Tile(2, Hold(0, 3)));
    assert_eq!(join_tiles(&mut dst, &mut src), Some(JoinResult::TileMerged));
    assert_eq!(dst, Some(Tile(3, Merged((0, 1), (0, 3)))));
    assert_eq!(src, None);
}

#[test]
fn join_keeps_different_or_merged_tiles() {
    let mut dst = Some(Tile(2, Hold(0, 0)));
    let mut src = Some(Tile(1, Hold(0, 1)));
    assert_eq!(join_tiles(&mut dst, &mut src), None);
    assert_eq!(dst, Some(Tile(2, Hold(0, 0))));
    assert_eq!(src, Some(Tile(1, Hold(0, 1))));
    let mut dst = Some(Tile(2, Merged((0, 0), (0, 1))));
    let mut src = Some(Tile(2, Hold(0, 2)));
    assert_eq!(join_tiles(&mut dst, &mut src), None);
    let mut dst = None;
    let mut src = Some(Tile(2, Appear));
    assert_eq!(join_tiles(&mut dst, &mut src), None);
    assert_eq!(dst, None);
}

#[test]
fn join_moves_a_merged_tile() {
    let mut dst = None;
    let mut src = Some(Tile(4, Merged((1, 1), (1, 2))));
    assert_eq!(join_tiles(&mut dst, &mut src), Some(JoinResult::TileMoved));
    assert_eq!(dst, Some(Tile(4, Merged((1, 1), (1, 2)))));
    assert_eq!(src, None);
}

#[test]
fn new_field_is_empty() {
    let field = Field::new(3, 2);
    assert_eq!(field.width(), 3);
    assert_eq!(field.height(), 2);
    assert_eq!(field.tiles(), Grid { rows: 2, cols: 3, cells: vec![None; 6] });
    assert_eq!(
        field.get_free_cells(),
        vec![(0, 0), (0, 1), (1, 0), (1, 1), (2, 0), (2, 1)]
    );
}

#[test]
fn free_cells_are_seen_from_below() {
    let field = Field::from_array(values(2, 2, vec![2, 0, 0, 4]));
    assert_eq!(field.get_free_cells(), vec![(0, 1), (1, 0)]);
}

#[test]
fn append_tile_fills_the_only_free_cell() {
    let mut field = Field::from_array(values(2, 2, vec![2, 0, 4, 8]));
    assert!(field.append_tile());
    let t = field.get(1, 0).unwrap();
    assert!(t.0 == 1 || t.0 == 2);
    assert_eq!(t.1, Appear);
    assert_eq!(field.get(0, 0), Some(Tile(1, Hold(0, 0))));
    assert_eq!(field.get(0, 1), Some(Tile(2, Hold(0, 1))));
    assert_eq!(field.get(1, 1), Some(Tile(3, Hold(1, 1))));
    assert!(field.get_free_cells().is_empty());
}

#[test]
fn append_tile_on_a_full_field_changes_nothing() {
    let mut field = Field::from_array(values(2, 2, vec![2, 2, 4, 8]));
    let before = field.tiles();
    assert!(!field.append_tile());
    assert_eq!(field.tiles(), before);
}

#[test]
fn append_tile_adds_one_tile() {
    let mut field = Field::new(4, 4);
    for n in 1..=16 {
        assert!(field.append_tile());
        assert_eq!(field.get_free_cells().len(), 16 - n);
    }
    assert!(!field.append_tile());
    let values = field.into_array();
    assert!(values.cells.iter().all(|v| *v == 2 || *v == 4));
}

#[test]
fn array_round_trip() {
    let array = values(3, 2, vec![0, 1, 2, 1024, 65536, 2147483648]);
    let field = Field::from_array(array.clone());
    assert_eq!(field.get(1, 2), Some(Tile(31, Hold(1, 2))));
    assert_eq!(field.into_array(), array);
}

#[test]
fn level_of_value_is_the_logarithm_of_a_power_of_two() {
    assert_eq!(level_of_value(0), None);
    assert_eq!(level_of_value(1), Some(0));
    assert_eq!(level_of_value(8), Some(3));
    assert_eq!(level_of_value(6), None);
    assert_eq!(level_of_value(2147483648), Some(31));
    assert_eq!(level_of_value(u32::MAX), None);
}

#[test]
fn swipe_keeps_the_sum_and_packs_the_lines() {
    let array = values(4, 4, vec![2, 2, 4, 0, 0, 2, 0, 2, 8, 8, 8, 8, 0, 0, 0, 4]);
    for side in [Up, Down, Left, Right] {
        let mut field = Field::from_array(array.clone());
        field.swipe(side);
        let after = field.into_array();
        assert_eq!(value_sum(&after), value_sum(&array));
        let nonzero_before = array.cells.iter().filter(|v| **v != 0).count();
        let nonzero_after = after.cells.iter().filter(|v| **v != 0).count();
        assert!(nonzero_after <= nonzero_before);
    }
    let mut field = Field::from_array(array.clone());
    field.swipe(Left);
    assert_eq!(
        field.into_array(),
        values(4, 4, vec![4, 4, 0, 0, 2, 2, 0, 0, 16, 16, 0, 0, 4, 0, 0, 0])
    );
}

#[test]
fn swipe_does_not_merge_a_tile_into_the_one_it_slid_next_to() {
    let mut field = Field::from_array(values(4, 1, vec![2, 0, 2, 2]));
    field.swipe(Up);
    assert_eq!(field.into_array(), values(4, 1, vec![2, 4, 0, 0]));
    assert_eq!(field.get(0, 0), Some(Tile(1, Hold(0, 0))));
    assert_eq!(field.get(0, 1), Some(Tile(2, Merged((0, 2), (0, 3)))));
}

#[test]
fn swipe_on_an_empty_field_keeps_it_empty() {
    let mut field = Field::new(3, 3);
    field.swipe(Right);
    assert_eq!(field.tiles(), Grid { rows: 3, cols: 3, cells: vec![None; 9] });
}

#[test]
fn swipe_marks_tiles_that_stay() {
    let mut field = Field::from_array(values(1, 3, vec![0, 2, 4]));
    field.swipe(Right);
    assert_eq!(field.get(2, 0), Some(Tile(2, Hold(0, 0))));
    assert_eq!(field.get(1, 0), Some(Tile(1, Hold(0, 1))));
}

#[test]
fn game_starts_empty_with_score_zero() {
    let game = Game::new(4, 3);
    assert_eq!(game.score(), 0);
    assert_eq!(game.field().width(), 4);
    assert_eq!(game.field().height(), 3);
    assert_eq!(game.field().get_free_cells().len(), 12);
}

#[test]
fn ids_are_handed_out_in_turn() {
    let mut ids = IdCounter::new();
    assert_eq!(get_next_id(&mut ids), 1);
    assert_eq!(get_next_id(&mut ids), 2);
    let button = ButtonPanelHandle::new(&mut ids);
    let ribbon = RibbonPanelHandle::new(&mut ids);
    assert_eq!(button.id(), 3);
    assert_eq!(ribbon.id(), 4);
    assert_eq!(TextPanelHandle::from_id(9).id(), 9);
}

fn control(id: usize, enabled: bool, focused: bool) -> ControlState {
    ControlState { id, found: true, enabled, focused }
}

#[test]
fn focus_moves_to_the_next_enabled_control() {
    let controls = vec![control(1, true, false), control(2, false, false), control(3, true, true), control(4, true, false)];
    assert_eq!(get_focused_panel_id(&controls), Some(3));
    assert_eq!(get_first_enabled_panel_id(&controls), Some(1));
    assert_eq!(focus_next_impl(&controls, 3, false), Some(3));
    assert_eq!(focus_next_impl(&controls, 4, false), Some(0));
    assert_eq!(focus_next_impl(&controls, 1, false), Some(2));
    assert_eq!(focus_next_impl(&controls, 3, true), Some(0));
    assert_eq!(focus_next_impl(&controls, 1, true), Some(3));
    assert_eq!(focus_next_impl(&controls, 7, false), Some(0));
    assert_eq!(focus_next_impl(&controls, 7, true), Some(3));
    assert_eq!(focus_set_target(&controls, 2), Some(1));
    assert_eq!(focus_set_target(&controls, 7), None);
}

#[test]
fn focus_finds_nothing_when_no_control_is_enabled() {
    let controls = vec![control(1, false, false), ControlState { id: 2, found: false, enabled: true, focused: true }];
    assert_eq!(get_focused_panel_id(&controls), None);
    assert_eq!(focus_next_impl(&controls, 1, false), None);
    assert_eq!(tab_action(&controls), TabAction::Nothing);
}

#[test]
fn tab_moves_or_sets_the_focus() {
    let focused = vec![control(5, true, false), control(6, true, true)];
    assert_eq!(tab_action(&focused), TabAction::FocusNext(6));
    let unfocused = vec![control(5, false, false), control(6, true, false)];
    assert_eq!(tab_action(&unfocused), TabAction::FocusSet(6));
}

#[test]
fn disabling_the_focused_control_moves_the_focus() {
    let controls = vec![control(1, true, true), control(2, true, false)];
    assert!(enable_moves_focus(&controls, 1, false));
    assert!(!enable_moves_focus(&controls, 1, true));
    assert!(!enable_moves_focus(&controls, 2, false));
}

#[test]
fn a_tile_shows_two_to_its_level() {
    assert_eq!(tile_value(Tile(0, Appear)), 1);
    assert_eq!(tile_value(Tile(1, Hold(0, 0))), 2);
    assert_eq!(tile_value(Tile(11, Merged((0, 0), (0, 1)))), 2048);
    assert_eq!(tile_value(Tile(31, Moved(2, 2))), 1 << 31);
}

#[test]
fn small_fields_fit_and_huge_ones_do_not() {
    assert!(Field::fits(4, 4));
    assert!(Field::fits(0, 1000));
    assert!(!Field::fits(0, usize::MAX));
    assert!(!Field::fits(usize::MAX, 0));
    assert!(!Field::fits(usize::MAX, 2));
    assert!(!Field::fits(1 << 40, 1 << 30));
}

fn tiles_of(field: &Field) -> Vec<Option<Tile>> {
    field.tiles().cells
}

#[test]
fn swipe_removes_one_tile_per_merge() {
    let array = values(4, 4, vec![2, 2, 4, 0, 0, 2, 0, 2, 8, 8, 8, 8, 0, 0, 0, 4]);
    let before = array.cells.iter().filter(|v| **v != 0).count();
    for side in [Up, Down, Left, Right] {
        let mut field = Field::from_array(array.clone());
        field.swipe(side);
        let cells = tiles_of(&field);
        let tiles = cells.iter().filter(|t| t.is_some()).count();
        let merges = cells.iter().filter(|t| matches!(t, Some(Tile(_, Merged(..))))).count();
        assert_eq!(tiles + merges, before);
        assert!(cells.iter().all(|t| !matches!(t, Some(Tile(_, Appear)))));
    }
}

#[test]
fn a_new_tile_goes_to_the_chosen_free_cell() {
    let mut field = Field::from_array(values(2, 2, vec![2, 0, 0, 4]));
    let free = field.get_free_cells();
    assert_eq!(free, vec![(0, 1), (1, 0)]);
    field.append_tile_at(1, 2);
    assert_eq!(field.into_array(), values(2, 2, vec![2, 0, 4, 4]));
    assert_eq!(field.get(0, 1), Some(Tile(2, Appear)));
    field.append_tile_at(0, 1);
    assert_eq!(field.into_array(), values(2, 2, vec![2, 2, 4, 4]));
}

#[test]
fn a_game_starts_with_two_tiles_and_each_move_adds_two() {
    let mut game = Game::start(4, 4);
    assert_eq!(game.score(), 0);
    assert_eq!(game.field().get_free_cells().len(), 14);
    game.swipe(Left);
    let free = game.field().get_free_cells().len();
    assert!(free == 12 || free == 13);
    assert_eq!(game.score(), 0);
    let mut small = Game::start(1, 1);
    assert_eq!(small.field().get_free_cells().len(), 0);
    small.swipe(Up);
    assert_eq!(small.field().get_free_cells().len(), 0);
}
