use game2048::field::{Field, Grid};
use game2048::input::{
    button_key_action, button_mouse_press, button_press_event, game_field_key_action, get_mode,
    message_box_button_event, message_box_buttons, message_box_key_answer, ButtonKeyAction,
    ButtonMode, GameFieldKeyAction, KeyCode, MessageBoxFlags,
};
use game2048::main_panel::{main_panel_action, MainPanelAction, MainPanelEvent};
use game2048::panel::{ButtonPanelEvent, GameFieldPanelEvent, MessageBoxButton};
use game2048::style::{get_button_border_color, get_tile_color, get_tile_font_size, Color};
use game2048::animation::{tile_animation, TileAnimation};
use game2048::tile::Origin::{Appear, Hold, Merged, Moved};
use game2048::tile::Side::{Down, Left, Right, Up};
use game2048::tile::Tile;

#[test]
fn arrows_swipe_and_backspace_takes_back() {
    assert_eq!(game_field_key_action(true, KeyCode::Left), GameFieldKeyAction::Swipe(Left));
    assert_eq!(game_field_key_action(true, KeyCode::Right), GameFieldKeyAction::Swipe(Right));
    assert_eq!(game_field_key_action(true, KeyCode::Up), GameFieldKeyAction::Swipe(Up));
    assert_eq!(game_field_key_action(true, KeyCode::Down), GameFieldKeyAction::Swipe(Down));
    assert_eq!(game_field_key_action(true, KeyCode::Back), GameFieldKeyAction::Undo);
    assert_eq!(game_field_key_action(true, KeyCode::Tab), GameFieldKeyAction::Ignore);
    assert_eq!(game_field_key_action(false, KeyCode::Left), GameFieldKeyAction::Ignore);
    assert_eq!(game_field_key_action(false, KeyCode::Back), GameFieldKeyAction::Ignore);
}

#[test]
fn button_mode_follows_enabled_and_focus() {
    assert_eq!(get_mode(false, true), ButtonMode::Disabled);
    assert_eq!(get_mode(false, false), ButtonMode::Disabled);
    assert_eq!(get_mode(true, true), ButtonMode::Focused);
    assert_eq!(get_mode(true, false), ButtonMode::Norm);
}

#[test]
fn focused_button_answers_escape_tab_and_return() {
    assert_eq!(button_key_action(true, true, true, KeyCode::Escape), ButtonKeyAction::ClearFocus);
    assert_eq!(button_key_action(true, true, true, KeyCode::Tab), ButtonKeyAction::FocusNext);
    assert_eq!(button_key_action(true, true, true, KeyCode::Return), ButtonKeyAction::Press);
    assert_eq!(button_key_action(true, true, true, KeyCode::Left), ButtonKeyAction::Ignore);
    assert_eq!(button_key_action(false, true, true, KeyCode::Return), ButtonKeyAction::Ignore);
    assert_eq!(button_key_action(true, false, true, KeyCode::Return), ButtonKeyAction::Ignore);
    assert_eq!(button_key_action(true, true, false, KeyCode::Return), ButtonKeyAction::Ignore);
}

#[test]
fn button_is_clicked_by_the_left_mouse_button_when_enabled() {
    assert!(button_mouse_press(true, true, true));
    assert!(!button_mouse_press(false, true, true));
    assert!(!button_mouse_press(true, false, true));
    assert!(!button_mouse_press(true, true, false));
    assert_eq!(button_press_event(true), Some(ButtonPanelEvent::Pressed));
    assert_eq!(button_press_event(false), None);
}

#[test]
fn message_box_shows_its_buttons_in_order() {
    let all = MessageBoxFlags { ok: true, cancel: true, yes: true, no: true };
    assert_eq!(
        message_box_buttons(all),
        vec![MessageBoxButton::Yes, MessageBoxButton::No, MessageBoxButton::Okay, MessageBoxButton::Cancel]
    );
    let yes_no = MessageBoxFlags { ok: false, cancel: false, yes: true, no: true };
    assert_eq!(message_box_buttons(yes_no), vec![MessageBoxButton::Yes, MessageBoxButton::No]);
    let none = MessageBoxFlags { ok: false, cancel: false, yes: false, no: false };
    assert!(message_box_buttons(none).is_empty());
}

#[test]
fn message_box_answers_escape_with_cancel() {
    assert_eq!(message_box_key_answer(KeyCode::Escape), Some(MessageBoxButton::Cancel));
    assert_eq!(message_box_key_answer(KeyCode::Return), None);
    assert_eq!(message_box_button_event(Some(MessageBoxButton::Yes)), (Some(MessageBoxButton::Yes), true));
    assert_eq!(message_box_button_event(Some(MessageBoxButton::Okay)), (Some(MessageBoxButton::Okay), false));
    assert_eq!(message_box_button_event(None), (None, true));
}

#[test]
fn main_panel_serves_buttons_then_the_question() {
    assert_eq!(main_panel_action(MainPanelEvent::UndoPressed, true), MainPanelAction::Undo);
    assert_eq!(main_panel_action(MainPanelEvent::ResetPressed, false), MainPanelAction::AskReset);
    assert_eq!(
        main_panel_action(MainPanelEvent::ResetAnswered(MessageBoxButton::Yes), true),
        MainPanelAction::CloseQuestion { reset: true }
    );
    assert_eq!(
        main_panel_action(MainPanelEvent::ResetAnswered(MessageBoxButton::No), true),
        MainPanelAction::CloseQuestion { reset: false }
    );
    assert_eq!(
        main_panel_action(MainPanelEvent::ResetAnswered(MessageBoxButton::Yes), false),
        MainPanelAction::PassToControls
    );
    assert_eq!(
        main_panel_action(MainPanelEvent::GameField(GameFieldPanelEvent::Changed), false),
        MainPanelAction::UpdateButtons
    );
    assert_eq!(
        main_panel_action(MainPanelEvent::GameField(GameFieldPanelEvent::Changed), true),
        MainPanelAction::Ignore
    );
    assert_eq!(main_panel_action(MainPanelEvent::Other, false), MainPanelAction::PassToControls);
    assert_eq!(main_panel_action(MainPanelEvent::Other, true), MainPanelAction::Ignore);
}

#[test]
fn tiles_are_coloured_by_their_number() {
    assert_eq!(get_tile_color(1), Color { a: 255, r: 128, g: 128, b: 128 });
    assert_eq!(get_tile_color(2), Color { a: 255, r: 238, g: 228, b: 218 });
    assert_eq!(get_tile_color(16), get_tile_color(8));
    assert_eq!(get_tile_color(64), Color { a: 255, r: 246, g: 124, b: 95 });
    assert_eq!(get_tile_color(2048), Color { a: 255, r: 237, g: 194, b: 46 });
    assert_eq!(get_tile_color(4096), Color { a: 255, r: 60, g: 58, b: 60 });
    assert_eq!(get_tile_color(3), Color { a: 255, r: 60, g: 58, b: 60 });
}

#[test]
fn long_numbers_get_smaller_fonts() {
    assert_eq!(get_tile_font_size(2), 256);
    assert_eq!(get_tile_font_size(999), 256);
    assert_eq!(get_tile_font_size(1000), 180);
    assert_eq!(get_tile_font_size(16384), 150);
    assert_eq!(get_tile_font_size(131072), 120);
}

#[test]
fn a_tile_of_the_highest_level_is_seen() {
    let mut cells = vec![None; 4];
    cells[2] = Some(Tile(5, Hold(0, 1)));
    let field = Field::from_tiles(Grid { rows: 2, cols: 2, cells: cells.clone() });
    assert!(field.top_level_free());
    cells[3] = Some(Tile(u32::MAX, Hold(1, 1)));
    let field = Field::from_tiles(Grid { rows: 2, cols: 2, cells });
    assert!(!field.top_level_free());
    assert!(Field::new(3, 0).top_level_free());
}

#[test]
fn a_focused_button_has_a_black_border() {
    assert_eq!(get_button_border_color(ButtonMode::Focused), Color { a: 255, r: 0, g: 0, b: 0 });
    assert_eq!(get_button_border_color(ButtonMode::Norm), Color { a: 255, r: 255, g: 255, b: 255 });
    assert_eq!(get_button_border_color(ButtonMode::Disabled), Color { a: 255, r: 255, g: 255, b: 255 });
}

#[test]
fn each_tile_is_animated_by_its_origin() {
    assert_eq!(tile_animation(Appear, 1, 2), TileAnimation::Create(1, 2));
    assert_eq!(tile_animation(Hold(3, 3), 1, 2), TileAnimation::Keep(1, 2));
    assert_eq!(tile_animation(Moved(0, 2), 1, 2), TileAnimation::Move((0, 2), (1, 2)));
    assert_eq!(
        tile_animation(Merged((0, 0), (0, 1)), 0, 3),
        TileAnimation::Merge((0, 0), (0, 1), (0, 3))
    );
}
