use vstd::prelude::*;

verus! {

/// The source of panel ids: each panel gets the next id in turn.
pub struct IdCounter {
    next_id: usize,
}

impl IdCounter {
    /// A fresh source of ids, whose first id is 1.
    pub fn new() -> (c: Self)
        ensures
            c.next() == 1,
    {
        IdCounter { next_id: 1 }
    }

    /// The id that the source hands out next.
    pub closed spec fn next(&self) -> usize {
        self.next_id
    }
}

/// Hands out the next panel id. Ids are handed out in turn and wrap around past
/// `usize::MAX`.
pub fn get_next_id(ids: &mut IdCounter) -> (id: usize)
    ensures
        id == old(ids).next(),
        final(ids).next() == old(ids).next().wrapping_add(1),
{
    let id = ids.next_id;
    ids.next_id = ids.next_id.wrapping_add(1);
    id
}

/// Two ids handed out one after the other differ, also where the counter wraps around.
pub proof fn law_successive_ids_differ(before: IdCounter, after: IdCounter)
    requires
        after.next() == before.next().wrapping_add(1),
    ensures
        before.next() != after.next(),
{
}

/// Something that names a panel by its id.
pub trait Handle {
    /// The id of the panel.
    fn id(&self) -> usize;
}

/// The handle of a background panel.
pub struct BackgroundPanelHandle {
    id: usize,
}

impl BackgroundPanelHandle {
    /// The handle of the background panel with the given id.
    pub fn from_id(id: usize) -> (h: Self)
        ensures
            h.spec_id() == id,
    {
        BackgroundPanelHandle { id }
    }

    /// The id of the panel.
    pub closed spec fn spec_id(&self) -> usize {
        self.id
    }
}

impl Handle for BackgroundPanelHandle {
    fn id(&self) -> (r: usize)
        ensures
            r == self.spec_id(),
    {
        self.id
    }
}

/// The handle of a button panel.
#[derive(Copy, Clone, PartialEq, Eq)]
pub struct ButtonPanelHandle(usize);

impl ButtonPanelHandle {
    /// A handle with a fresh id from `ids`.
    pub fn new(ids: &mut IdCounter) -> (h: Self)
        ensures
            h.spec_id() == old(ids).next(),
            final(ids).next() == old(ids).next().wrapping_add(1),
    {
        ButtonPanelHandle(get_next_id(ids))
    }

    /// The id of the panel.
    pub closed spec fn spec_id(&self) -> usize {
        self.0
    }
}

impl Handle for ButtonPanelHandle {
    fn id(&self) -> (r: usize)
        ensures
            r == self.spec_id(),
    {
        self.0
    }
}

/// The handle of a ribbon panel.
#[derive(Copy, Clone, PartialEq, Eq)]
pub struct RibbonPanelHandle(usize);

impl RibbonPanelHandle {
    /// A handle with a fresh id from `ids`.
    pub fn new(ids: &mut IdCounter) -> (h: Self)
        ensures
            h.spec_id() == old(ids).next(),
            final(ids).next() == old(ids).next().wrapping_add(1),
    {
        RibbonPanelHandle(get_next_id(ids))
    }

    /// The id of the panel.
    pub closed spec fn spec_id(&self) -> usize {
        self.0
    }
}

impl Handle for RibbonPanelHandle {
    fn id(&self) -> (r: usize)
        ensures
            r == self.spec_id(),
    {
        self.0
    }
}

/// The handle of a message box panel.
#[derive(Copy, Clone, PartialEq, Eq)]
pub struct MessageBoxPanelHandle(usize);

impl MessageBoxPanelHandle {
    /// The handle of the panel with the given id.
    pub fn from_id(id: usize) -> (h: Self)
        ensures
            h.spec_id() == id,
    {
        MessageBoxPanelHandle(id)
    }

    /// The id of the panel.
    pub closed spec fn spec_id(&self) -> usize {
        self.0
    }
}

impl Handle for MessageBoxPanelHandle {
    fn id(&self) -> (r: usize)
        ensures
            r == self.spec_id(),
    {
        self.0
    }
}

/// The handle of a text panel.
#[derive(Copy, Clone, PartialEq, Eq)]
pub struct TextPanelHandle {
    id: usize,
}

impl TextPanelHandle {
    /// The handle of the panel with the given id.
    pub fn from_id(id: usize) -> (h: Self)
        ensures
            h.spec_id() == id,
    {
        TextPanelHandle { id: id }
    }

    /// The id of the panel.
    pub closed spec fn spec_id(&self) -> usize {
        self.id
    }
}

impl Handle for TextPanelHandle {
    fn id(&self) -> (r: usize)
        ensures
            r == self.spec_id(),
    {
        self.id
    }
}

/// The handle of the panel that shows the game field.
#[derive(Copy, Clone, PartialEq, Eq)]
pub struct GameFieldHandle {
    id: usize,
}

impl GameFieldHandle {
    /// The handle of the panel with the given id.
    pub fn from_id(id: usize) -> (h: Self)
        ensures
            h.spec_id() == id,
    {
        GameFieldHandle { id: id }
    }

    /// The id of the panel.
    pub closed spec fn spec_id(&self) -> usize {
        self.id
    }
}

impl Handle for GameFieldHandle {
    fn id(&self) -> (r: usize)
        ensures
            r == self.spec_id(),
    {
        self.id
    }
}

/// What a button panel reports.
#[derive(Copy, Clone, Debug, PartialEq, Eq, Structural)]
pub enum ButtonPanelEvent {
    Pressed,
}

/// What a control is asked to do.
#[derive(Copy, Clone, Debug, PartialEq, Eq, Structural)]
pub enum ControlEvent {
    Enable(bool),
    FocusNext,
    FocusPrev,
    FocusSet,
    FocusClear,
}

/// The buttons of a message box.
#[derive(Copy, Clone, Debug, PartialEq, Eq, Structural)]
pub enum MessageBoxButton {
    /// The OK button.
    Okay,
    Cancel,
    Yes,
    No,
}

/// What the panel of the game field reports.
#[derive(Copy, Clone, Debug, PartialEq, Eq, Structural)]
pub enum GameFieldPanelEvent {
    Changed,
}

/// How a ribbon lays out its cells: side by side, one above the other, or stacked.
#[derive(Copy, Clone, Debug, PartialEq, Eq, Structural)]
pub enum RibbonOrientation {
    Horizontal,
    Vertical,
    Stack,
}

} // verus!
