use vstd::prelude::*;

verus! {

// The decisions of a control manager. The manager keeps its controls in order; before it
// decides, it looks each one up among the panels and reads its state. The functions here
// take those states, in the manager's order, and say which control to act on.

/// What the manager sees of one of its controls.
#[derive(Copy, Clone, Debug, PartialEq, Eq, Structural)]
pub struct ControlState {
    /// The id of the control's panel.
    pub id: usize,
    /// The control was found among the panels.
    pub found: bool,
    /// The control is enabled.
    pub enabled: bool,
    /// The control has the focus.
    pub focused: bool,
}

/// A control that can take the focus: found and enabled.
pub open spec fn can_focus(c: ControlState) -> bool {
    c.found && c.enabled
}

/// A control that has the focus: found, enabled and focused.
pub open spec fn has_focus(c: ControlState) -> bool {
    c.found && c.enabled && c.focused
}

/// The found control with the given id.
pub open spec fn is_control(c: ControlState, id: usize) -> bool {
    c.found && c.id == id
}

/// The index of the first control from `i` on that has the focus.
pub open spec fn first_focused_from(s: Seq<ControlState>, i: int) -> Option<int>
    decreases s.len() - i,
{
    if i < 0 || i >= s.len() {
        None
    } else if has_focus(s[i]) {
        Some(i)
    } else {
        first_focused_from(s, i + 1)
    }
}

/// The index of the first control from `i` on that can take the focus.
pub open spec fn first_enabled_from(s: Seq<ControlState>, i: int) -> Option<int>
    decreases s.len() - i,
{
    if i < 0 || i >= s.len() {
        None
    } else if can_focus(s[i]) {
        Some(i)
    } else {
        first_enabled_from(s, i + 1)
    }
}

/// The index of the first found control from `i` on with the given id.
pub open spec fn first_control_from(s: Seq<ControlState>, id: usize, i: int) -> Option<int>
    decreases s.len() - i,
{
    if i < 0 || i >= s.len() {
        None
    } else if is_control(s[i], id) {
        Some(i)
    } else {
        first_control_from(s, id, i + 1)
    }
}

/// A control found by `first_enabled_from` lies at or after `i` and can take the focus.
proof fn lemma_first_enabled_from(s: Seq<ControlState>, i: int)
    ensures
        first_enabled_from(s, i) matches Some(j) ==> i <= j < s.len() && can_focus(s[j]),
    decreases s.len() - i,
{
    if 0 <= i < s.len() && !can_focus(s[i]) {
        lemma_first_enabled_from(s, i + 1);
    }
}

/// The control that takes the focus when it moves on from the control `id`: the first
/// one after it that can take the focus, else the first one that can.
pub open spec fn next_focus(s: Seq<ControlState>, id: usize) -> Option<int> {
    match first_control_from(s, id, 0) {
        Some(k) => match first_enabled_from(s, k + 1) {
            Some(i) => Some(i),
            None => first_enabled_from(s, 0),
        },
        None => first_enabled_from(s, 0),
    }
}

/// The index `i` of a sequence of length `n` counted from its end.
pub open spec fn mirror(n: int, i: int) -> int {
    n - 1 - i
}

/// The controls in reverse order.
pub open spec fn reversed(s: Seq<ControlState>) -> Seq<ControlState> {
    Seq::new(s.len(), |i: int| s[mirror(s.len() as int, i)])
}

/// The id of the first control that has the focus, if one has.
pub fn get_focused_panel_id(controls: &Vec<ControlState>) -> (r: Option<usize>)
    ensures
        r == match first_focused_from(controls@, 0) {
            Some(i) => Some(controls@[i].id),
            None => None::<usize>,
        },
{
    let mut i: usize = 0;
    while i < controls.len()
        invariant
            i <= controls.len(),
            first_focused_from(controls@, 0) == first_focused_from(controls@, i as int),
        decreases controls.len() - i,
    {
        let c = controls[i];
        if c.found && c.enabled && c.focused {
            return Some(c.id);
        }
        i += 1;
    }
    None
}

/// The id of the first control that can take the focus, if one can.
pub fn get_first_enabled_panel_id(controls: &Vec<ControlState>) -> (r: Option<usize>)
    ensures
        r == match first_enabled_from(controls@, 0) {
            Some(i) => Some(controls@[i].id),
            None => None::<usize>,
        },
{
    let mut i: usize = 0;
    while i < controls.len()
        invariant
            i <= controls.len(),
            first_enabled_from(controls@, 0) == first_enabled_from(controls@, i as int),
        decreases controls.len() - i,
    {
        let c = controls[i];
        if c.found && c.enabled {
            return Some(c.id);
        }
        i += 1;
    }
    None
}

/// The index of the first control from `start` on that can take the focus.
fn first_enabled_index(controls: &Vec<ControlState>, start: usize) -> (r: Option<usize>)
    requires
        start <= controls.len(),
    ensures
        r == match first_enabled_from(controls@, start as int) {
            Some(i) => Some(i as usize),
            None => None::<usize>,
        },
        r is Some ==> r.unwrap() < controls.len(),
{
    let mut i: usize = start;
    while i < controls.len()
        invariant
            start <= i <= controls.len(),
            first_enabled_from(controls@, start as int) == first_enabled_from(controls@, i as int),
        decreases controls.len() - i,
    {
        if controls[i].found && controls[i].enabled {
            return Some(i);
        }
        i += 1;
    }
    None
}

/// The controls of the manager in the order in which the focus moves.
fn ordered(controls: &Vec<ControlState>, reverse: bool) -> (r: Vec<ControlState>)
    ensures
        r@ == if reverse {
            reversed(controls@)
        } else {
            controls@
        },
{
    let mut r: Vec<ControlState> = Vec::new();
    let n = controls.len();
    let mut i: usize = 0;
    while i < n
        invariant
            n == controls.len(),
            i <= n,
            r@.len() == i,
            forall|j: int|
                0 <= j < i ==> r@[j] == if reverse {
                    controls@[mirror(n as int, j)]
                } else {
                    controls@[j]
                },
        decreases n - i,
    {
        if reverse {
            r.push(controls[n - 1 - i]);
        } else {
            r.push(controls[i]);
        }
        i += 1;
    }
    proof {
        if reverse {
            assert(r@ =~= reversed(controls@));
        } else {
            assert(r@ =~= controls@);
        }
    }
    r
}

/// The control that takes the focus when the focus moves on from the control `panel_id`,
/// forward through the manager's order or, with `reverse`, backward: the first control
/// after `panel_id` that can take the focus, else the first one that can. The result is
/// the index of that control in the manager's order.
pub fn focus_next_impl(controls: &Vec<ControlState>, panel_id: usize, reverse: bool) -> (r: Option<usize>)
    ensures
        r == match next_focus(
            if reverse {
                reversed(controls@)
            } else {
                controls@
            },
            panel_id,
        ) {
            Some(i) => Some(
                (if reverse {
                    mirror(controls@.len() as int, i)
                } else {
                    i
                }) as usize,
            ),
            None => None::<usize>,
        },
{
    let order = ordered(controls, reverse);
    let ghost s = order@;
    let mut k: usize = 0;
    let mut found: Option<usize> = None;
    while k < order.len() && found.is_none()
        invariant
            k <= order.len(),
            s == order@,
            found is None ==> first_control_from(s, panel_id, 0) == first_control_from(s, panel_id, k as int),
            found is Some ==> found == Some(k) && k < order.len() && first_control_from(s, panel_id, 0) == Some(k as int),
        decreases order.len() - k + if found is None { 1int } else { 0int },
    {
        if order[k].found && order[k].id == panel_id {
            found = Some(k);
        } else {
            k += 1;
        }
    }
    let target = match found {
        Some(k) => match first_enabled_index(&order, k + 1) {
            Some(i) => Some(i),
            None => first_enabled_index(&order, 0),
        },
        None => first_enabled_index(&order, 0),
    };
    proof {
        lemma_first_enabled_from(s, 0);
        if let Some(k) = found {
            lemma_first_enabled_from(s, k + 1);
        }
    }
    assert(match next_focus(s, panel_id) {
        Some(i) => target == Some(i as usize) && 0 <= i < s.len(),
        None => target is None,
    });
    match target {
        Some(i) => {
            if reverse {
                Some(controls.len() - 1 - i)
            } else {
                Some(i)
            }
        },
        None => None,
    }
}

/// The control that takes the focus when the focus is set on `panel_id`: the first found
/// control with that id. The result is its index in the manager's order.
pub fn focus_set_target(controls: &Vec<ControlState>, panel_id: usize) -> (r: Option<usize>)
    ensures
        r == match first_control_from(controls@, panel_id, 0) {
            Some(i) => Some(i as usize),
            None => None::<usize>,
        },
{
    let mut i: usize = 0;
    while i < controls.len()
        invariant
            i <= controls.len(),
            first_control_from(controls@, panel_id, 0) == first_control_from(controls@, panel_id, i as int),
        decreases controls.len() - i,
    {
        if controls[i].found && controls[i].id == panel_id {
            return Some(i);
        }
        i += 1;
    }
    None
}

/// Enabling or disabling the control `panel_id` moves the focus on from it when a found
/// control with that id has the focus and is being disabled.
pub fn enable_moves_focus(controls: &Vec<ControlState>, panel_id: usize, enable: bool) -> (r: bool)
    ensures
        r == (!enable && exists|i: int|
            0 <= i < controls@.len() && is_control(#[trigger] controls@[i], panel_id) && controls@[i].focused),
{
    let mut focus_next = false;
    let mut i: usize = 0;
    while i < controls.len()
        invariant
            i <= controls.len(),
            focus_next == (!enable && exists|j: int|
                0 <= j < i && is_control(#[trigger] controls@[j], panel_id) && controls@[j].focused),
        decreases controls.len() - i,
    {
        let c = controls[i];
        if c.found && c.id == panel_id {
            if c.focused && !enable {
                focus_next = true;
            }
        }
        i += 1;
    }
    focus_next
}

/// What the Tab key does to the focus.
#[derive(Copy, Clone, Debug, PartialEq, Eq, Structural)]
pub enum TabAction {
    /// Move the focus on from the control with this id.
    FocusNext(usize),
    /// Set the focus on the control with this id.
    FocusSet(usize),
    /// Nothing: no control can take the focus.
    Nothing,
}

/// The Tab key moves the focus on from the control that has it; when none has, it sets the
/// focus on the first control that can take it.
pub fn tab_action(controls: &Vec<ControlState>) -> (r: TabAction)
    ensures
        r == match first_focused_from(controls@, 0) {
            Some(i) => TabAction::FocusNext(controls@[i].id),
            None => match first_enabled_from(controls@, 0) {
                Some(i) => TabAction::FocusSet(controls@[i].id),
                None => TabAction::Nothing,
            },
        },
{
    if let Some(panel_id) = get_focused_panel_id(controls) {
        TabAction::FocusNext(panel_id)
    } else if let Some(panel_id) = get_first_enabled_panel_id(controls) {
        TabAction::FocusSet(panel_id)
    } else {
        TabAction::Nothing
    }
}

/// The focus only ever moves to a control that can take it, and it moves whenever some
/// control can take it.
pub proof fn law_next_focus_can_focus(s: Seq<ControlState>, id: usize)
    ensures
        next_focus(s, id) matches Some(i) ==> 0 <= i < s.len() && can_focus(s[i]),
        next_focus(s, id) is None <==> forall|i: int| 0 <= i < s.len() ==> !can_focus(#[trigger] s[i]),
{
    lemma_first_enabled_from(s, 0);
    lemma_first_enabled_none(s, 0);
    if let Some(k) = first_control_from(s, id, 0) {
        lemma_first_enabled_from(s, k + 1);
    }
}

/// `first_enabled_from` finds nothing exactly when no control from `i` on can take the
/// focus.
proof fn lemma_first_enabled_none(s: Seq<ControlState>, i: int)
    requires
        0 <= i,
    ensures
        first_enabled_from(s, i) is None <==> forall|j: int| i <= j < s.len() ==> !can_focus(#[trigger] s[j]),
    decreases s.len() - i,
{
    if i < s.len() {
        lemma_first_enabled_none(s, i + 1);
    }
}

} // verus!
