//! What a window event does: the key bindings, the pointer gates, and when a
//! frame is the last one.

use vstd::prelude::*;
use crate::text;

verus! {

/// The keys that are bound by position rather than by what they type.
#[derive(Clone, Copy, Debug, PartialEq, Eq, Structural)]
pub enum PhysicalKey {
    Escape,
    ArrowUp,
    ArrowDown,
    Enter,
    Delete,
    Home,
    F1,
    Tab,
    Other,
}

/// What a key types under the keyboard layout in use.
pub enum LogicalKey {
    Space,
    Character(String),
    Other,
}

/// An event of the window, as far as a decision depends on it.
pub enum Event {
    CloseRequested,
    ModifiersChanged { shift: bool, ctrl: bool, alt: bool },
    CursorMoved,
    MouseInput { pressed: bool },
    MouseWheel,
    Keyboard { pressed: bool, physical: PhysicalKey, logical: LogicalKey },
    Resized { width: u32, height: u32 },
    RedrawRequested,
    Other,
}

/// What a decision reads of the panels and of the application.
#[derive(Clone, Copy, Debug)]
pub struct Desk {
    /// A panel's widget holds keyboard focus
    pub wants_keyboard: bool,
    /// The pointer is held down on a panel's widget
    pub using_pointer: bool,
    /// The panels want what the pointer does
    pub wants_pointer: bool,
    /// The pointer is over a panel
    pub pointer_over: bool,
    /// The panels consumed this event
    pub consumed: bool,
    pub shift: bool,
    pub ctrl: bool,
    /// A viewport drag is in flight
    pub dragging: bool,
    pub transform_menu: bool,
    pub pending_action: bool,
    pub save_as_open: bool,
    pub render_job_open: bool,
    pub browser_open: bool,
    /// A transform is selected
    pub selected: bool,
}

/// What the application is told to do.
#[derive(Clone, Copy, Debug, PartialEq, Eq, Structural)]
pub enum Action {
    Nothing,
    RequestQuit,
    SetModifiers { shift: bool, ctrl: bool, alt: bool },
    MoveCursor { suppress_hover: bool },
    MousePress,
    MouseRelease,
    Scroll,
    CloseTransformMenu,
    DropPendingAction,
    CloseSaveAs,
    CloseRenderJob,
    ToggleBrowser,
    ClearSelection,
    BrowserMove { down: bool },
    SelectPrev,
    SelectNext,
    ZoomIn,
    ZoomOut,
    BrowserLoad,
    ToggleSelected,
    DeleteSelected,
    FrameSelected,
    ToggleHelp,
    ToggleGizmos,
    ToggleCameraMotion,
    OpenSaveAs,
    SaveScene,
    Screenshot,
    AdjustHaze { up: bool },
    AdjustFalloff { up: bool },
    AdjustContrast { up: bool },
    NewBlankScene,
    Undo,
    Redo,
    AddPathKey,
    RemovePathKey,
    SaveView,
    AdjustPointSize { up: bool },
    AddTransform { shift: bool },
    OpenRenderJob,
    ToggleInvertPitch,
    ToggleTraces { shift: bool },
    Mutate,
    AdjustWeight { up: bool },
    AdjustColor { channel: u8, up: bool },
    CycleVariation { forward: bool },
    ToggleRenderMode,
    AdjustExposure { up: bool },
    AdjustVariationWeight { up: bool },
    Resize { width: u32, height: u32 },
    DrawFrame,
}

/// Escape cancels the outermost thing that is open, and nothing else.
pub open spec fn escape_action(d: Desk) -> Action {
    if d.transform_menu {
        Action::CloseTransformMenu
    } else if d.pending_action {
        Action::DropPendingAction
    } else if d.save_as_open {
        Action::CloseSaveAs
    } else if d.render_job_open {
        Action::CloseRenderJob
    } else if d.browser_open {
        Action::ToggleBrowser
    } else if d.selected {
        Action::ClearSelection
    } else {
        Action::Nothing
    }
}

/// What a key bound by position does; `None` where the key is not one.
pub open spec fn physical_action(d: Desk, key: PhysicalKey) -> Option<Action> {
    match key {
        PhysicalKey::Escape => Some(escape_action(d)),
        PhysicalKey::ArrowUp => Some(
            if d.browser_open {
                Action::BrowserMove { down: false }
            } else if d.selected {
                Action::SelectPrev
            } else {
                Action::ZoomIn
            },
        ),
        PhysicalKey::ArrowDown => Some(
            if d.browser_open {
                Action::BrowserMove { down: true }
            } else if d.selected {
                Action::SelectNext
            } else {
                Action::ZoomOut
            },
        ),
        PhysicalKey::Enter => Some(
            if d.browser_open {
                Action::BrowserLoad
            } else if d.selected {
                Action::ToggleSelected
            } else {
                Action::Nothing
            },
        ),
        PhysicalKey::Delete => Some(Action::DeleteSelected),
        PhysicalKey::Home => Some(Action::FrameSelected),
        PhysicalKey::F1 => Some(Action::ToggleHelp),
        PhysicalKey::Tab => Some(Action::ToggleGizmos),
        PhysicalKey::Other => None,
    }
}

/// What the lower-case letter or the sign `c` does.
pub open spec fn letter_action(c: char, shift: bool, ctrl: bool) -> Action {
    if c == 's' {
        if ctrl && shift {
            Action::OpenSaveAs
        } else if ctrl {
            Action::SaveScene
        } else {
            Action::Screenshot
        }
    } else if c == 'f' {
        Action::AdjustHaze { up: !shift }
    } else if c == 'd' {
        Action::AdjustFalloff { up: !shift }
    } else if c == 'c' {
        Action::AdjustContrast { up: shift }
    } else if c == 'g' {
        Action::ToggleGizmos
    } else if c == 'h' || c == '?' {
        Action::ToggleHelp
    } else if c == 'o' {
        if ctrl {
            Action::ToggleBrowser
        } else {
            Action::ToggleCameraMotion
        }
    } else if c == 'n' {
        if ctrl {
            Action::NewBlankScene
        } else {
            Action::Nothing
        }
    } else if c == 'q' {
        if ctrl {
            Action::RequestQuit
        } else {
            Action::Nothing
        }
    } else if c == 'z' {
        if ctrl && shift {
            Action::Redo
        } else if ctrl {
            Action::Undo
        } else {
            Action::ToggleCameraMotion
        }
    } else if c == 'y' {
        if ctrl {
            Action::Redo
        } else if shift {
            Action::RemovePathKey
        } else {
            Action::AddPathKey
        }
    } else if c == 'v' {
        Action::SaveView
    } else if c == '[' || c == ']' {
        Action::AdjustPointSize { up: c == ']' }
    } else if c == 'a' {
        Action::AddTransform { shift }
    } else if c == 'b' {
        Action::ToggleBrowser
    } else if c == 'p' {
        Action::OpenRenderJob
    } else if c == 'i' {
        Action::ToggleInvertPitch
    } else if c == 'x' {
        Action::ToggleTraces { shift }
    } else if c == 'u' {
        if shift {
            Action::Undo
        } else {
            Action::Mutate
        }
    } else if c == ',' || c == '<' {
        Action::AdjustWeight { up: false }
    } else if c == '.' || c == '>' {
        Action::AdjustWeight { up: true }
    } else if c == 'j' {
        Action::AdjustColor { channel: 0, up: !shift }
    } else if c == 'k' {
        Action::AdjustColor { channel: 1, up: !shift }
    } else if c == 'l' {
        Action::AdjustColor { channel: 2, up: !shift }
    } else if c == 'e' {
        Action::CycleVariation { forward: !shift }
    } else if c == 'r' {
        Action::ToggleRenderMode
    } else if c == 'w' {
        Action::AdjustExposure { up: !shift }
    } else if c == '-' || c == '_' {
        Action::AdjustVariationWeight { up: false }
    } else if c == '=' || c == '+' {
        Action::AdjustVariationWeight { up: true }
    } else {
        Action::Nothing
    }
}

/// What a typed key does: a single character is bound, in either case.
pub open spec fn logical_action(d: Desk, key: LogicalKey) -> Action {
    match key {
        LogicalKey::Space => Action::ToggleCameraMotion,
        LogicalKey::Character(s) => if s@.len() == 1 {
            letter_action(text::lower(s@[0]), d.shift, d.ctrl)
        } else {
            Action::Nothing
        },
        LogicalKey::Other => Action::Nothing,
    }
}

/// What an event does.
pub open spec fn action_for(d: Desk, event: Event) -> Action {
    match event {
        Event::CloseRequested => Action::RequestQuit,
        Event::ModifiersChanged { shift, ctrl, alt } => Action::SetModifiers { shift, ctrl, alt },
        Event::CursorMoved => Action::MoveCursor { suppress_hover: d.pointer_over && !d.dragging },
        Event::MouseInput { pressed } => if pressed && !(d.consumed || d.wants_pointer) {
            Action::MousePress
        } else if !pressed && (d.dragging || !(d.consumed || d.wants_pointer)) {
            Action::MouseRelease
        } else {
            Action::Nothing
        },
        Event::MouseWheel => if d.consumed || d.wants_pointer {
            Action::Nothing
        } else {
            Action::Scroll
        },
        Event::Keyboard { pressed, physical, logical } => if d.wants_keyboard || d.using_pointer
            || !pressed {
            Action::Nothing
        } else {
            match physical_action(d, physical) {
                Some(a) => a,
                None => logical_action(d, logical),
            }
        },
        Event::Resized { width, height } => Action::Resize { width, height },
        Event::RedrawRequested => Action::DrawFrame,
        Event::Other => Action::Nothing,
    }
}

fn escape(d: &Desk) -> (a: Action)
    ensures
        a == escape_action(*d),
{
    if d.transform_menu {
        Action::CloseTransformMenu
    } else if d.pending_action {
        Action::DropPendingAction
    } else if d.save_as_open {
        Action::CloseSaveAs
    } else if d.render_job_open {
        Action::CloseRenderJob
    } else if d.browser_open {
        Action::ToggleBrowser
    } else if d.selected {
        Action::ClearSelection
    } else {
        Action::Nothing
    }
}

fn physical_key(d: &Desk, key: PhysicalKey) -> (a: Option<Action>)
    ensures
        a == physical_action(*d, key),
{
    match key {
        PhysicalKey::Escape => Some(escape(d)),
        PhysicalKey::ArrowUp => {
            if d.browser_open {
                Some(Action::BrowserMove { down: false })
            } else if d.selected {
                Some(Action::SelectPrev)
            } else {
                Some(Action::ZoomIn)
            }
        },
        PhysicalKey::ArrowDown => {
            if d.browser_open {
                Some(Action::BrowserMove { down: true })
            } else if d.selected {
                Some(Action::SelectNext)
            } else {
                Some(Action::ZoomOut)
            }
        },
        PhysicalKey::Enter => {
            if d.browser_open {
                Some(Action::BrowserLoad)
            } else if d.selected {
                Some(Action::ToggleSelected)
            } else {
                Some(Action::Nothing)
            }
        },
        PhysicalKey::Delete => Some(Action::DeleteSelected),
        PhysicalKey::Home => Some(Action::FrameSelected),
        PhysicalKey::F1 => Some(Action::ToggleHelp),
        PhysicalKey::Tab => Some(Action::ToggleGizmos),
        PhysicalKey::Other => None,
    }
}

fn letter_key(c: char, shift: bool, ctrl: bool) -> (a: Action)
    ensures
        a == letter_action(text::lower(c), shift, ctrl),
{
    match c {
        's' | 'S' => {
            if ctrl && shift {
                Action::OpenSaveAs
            } else if ctrl {
                Action::SaveScene
            } else {
                Action::Screenshot
            }
        },
        'f' | 'F' => Action::AdjustHaze { up: !shift },
        'd' | 'D' => Action::AdjustFalloff { up: !shift },
        'c' | 'C' => Action::AdjustContrast { up: shift },
        'g' | 'G' => Action::ToggleGizmos,
        'h' | 'H' | '?' => Action::ToggleHelp,
        'o' | 'O' => {
            if ctrl {
                Action::ToggleBrowser
            } else {
                Action::ToggleCameraMotion
            }
        },
        'n' | 'N' => {
            if ctrl {
                Action::NewBlankScene
            } else {
                Action::Nothing
            }
        },
        'q' | 'Q' => {
            if ctrl {
                Action::RequestQuit
            } else {
                Action::Nothing
            }
        },
        'z' | 'Z' => {
            if ctrl {
                if shift {
                    Action::Redo
                } else {
                    Action::Undo
                }
            } else {
                Action::ToggleCameraMotion
            }
        },
        'y' | 'Y' => {
            if ctrl {
                Action::Redo
            } else if shift {
                Action::RemovePathKey
            } else {
                Action::AddPathKey
            }
        },
        'v' | 'V' => Action::SaveView,
        '[' => Action::AdjustPointSize { up: false },
        ']' => Action::AdjustPointSize { up: true },
        'a' | 'A' => Action::AddTransform { shift },
        'b' | 'B' => Action::ToggleBrowser,
        'p' | 'P' => Action::OpenRenderJob,
        'i' | 'I' => Action::ToggleInvertPitch,
        'x' | 'X' => Action::ToggleTraces { shift },
        'u' | 'U' => {
            if shift {
                Action::Undo
            } else {
                Action::Mutate
            }
        },
        ',' | '<' => Action::AdjustWeight { up: false },
        '.' | '>' => Action::AdjustWeight { up: true },
        'j' | 'J' => Action::AdjustColor { channel: 0, up: !shift },
        'k' | 'K' => Action::AdjustColor { channel: 1, up: !shift },
        'l' | 'L' => Action::AdjustColor { channel: 2, up: !shift },
        'e' | 'E' => Action::CycleVariation { forward: !shift },
        'r' | 'R' => Action::ToggleRenderMode,
        'w' | 'W' => Action::AdjustExposure { up: !shift },
        '-' | '_' => Action::AdjustVariationWeight { up: false },
        '=' | '+' => Action::AdjustVariationWeight { up: true },
        _ => Action::Nothing,
    }
}

fn logical_key(d: &Desk, key: &LogicalKey) -> (a: Action)
    ensures
        a == logical_action(*d, *key),
{
    match key {
        LogicalKey::Space => Action::ToggleCameraMotion,
        LogicalKey::Character(s) => {
            let v = text::chars_of(s.as_str());
            if v.len() == 1 {
                letter_key(v[0], d.shift, d.ctrl)
            } else {
                Action::Nothing
            }
        },
        LogicalKey::Other => Action::Nothing,
    }
}

/// What an event does.
pub fn window_event(d: &Desk, event: &Event) -> (a: Action)
    ensures
        a == action_for(*d, *event),
{
    match event {
        Event::CloseRequested => Action::RequestQuit,
        Event::ModifiersChanged { shift, ctrl, alt } => Action::SetModifiers {
            shift: *shift,
            ctrl: *ctrl,
            alt: *alt,
        },
        Event::CursorMoved => Action::MoveCursor { suppress_hover: d.pointer_over && !d.dragging },
        Event::MouseInput { pressed } => {
            let gated = d.consumed || d.wants_pointer;
            let is_release = !*pressed;
            if !gated || (is_release && d.dragging) {
                if *pressed {
                    Action::MousePress
                } else {
                    Action::MouseRelease
                }
            } else {
                Action::Nothing
            }
        },
        Event::MouseWheel => {
            if d.consumed || d.wants_pointer {
                Action::Nothing
            } else {
                Action::Scroll
            }
        },
        Event::Keyboard { pressed, physical, logical } => {
            if d.wants_keyboard || d.using_pointer {
                Action::Nothing
            } else if *pressed {
                match physical_key(d, *physical) {
                    Some(a) => a,
                    None => logical_key(d, logical),
                }
            } else {
                Action::Nothing
            }
        },
        Event::Resized { width, height } => Action::Resize { width: *width, height: *height },
        Event::RedrawRequested => Action::DrawFrame,
        Event::Other => Action::Nothing,
    }
}

/// Whether an event is a Tab key, pressed or released.
pub open spec fn is_tab(event: Event) -> bool {
    event is Keyboard && event->physical == PhysicalKey::Tab
}

/// Whether the panels get to see an event before the application does.
///
/// Every event goes to them but a Tab that nothing has claimed: a Tab that
/// arrives unclaimed would hand the keyboard focus to a widget.
pub fn forwards_to_panels(event: &Event, wants_keyboard: bool, using_pointer: bool) -> (b: bool)
    ensures
        b == (!is_tab(*event) || wants_keyboard || using_pointer),
{
    match event {
        Event::Keyboard { physical, .. } => {
            *physical != PhysicalKey::Tab || wants_keyboard || using_pointer
        },
        _ => true,
    }
}

/// While the panels hold the keyboard, or the pointer is held on a widget, no
/// key acts.
pub proof fn held_keyboard_binds_nothing(d: Desk, event: Event)
    requires
        d.wants_keyboard || d.using_pointer,
        event is Keyboard,
    ensures
        action_for(d, event) == Action::Nothing,
{
}

/// Only the window's close button and Ctrl+Q ask to quit; Escape never does.
pub proof fn quitting_is_asked_for(d: Desk, event: Event)
    requires
        action_for(d, event) == Action::RequestQuit,
    ensures
        event is CloseRequested || (event is Keyboard && d.ctrl && event->logical is Character
            && text::lowered(event->logical->0@) == seq!['q']),
{
    if event is Keyboard {
        match event->logical {
            LogicalKey::Character(s) => {
                assert(text::lowered(s@) =~= seq!['q']);
            },
            _ => {},
        }
    }
}

/// A button release reaches the application whenever a drag is in flight.
pub proof fn releases_end_drags(d: Desk)
    requires
        d.dragging,
    ensures
        action_for(d, (Event::MouseInput { pressed: false })) == Action::MouseRelease,
{
}

/// Letters act alike in either case.
pub proof fn letters_ignore_case(d: Desk, a: String, b: String)
    requires
        text::lowered(a@) == text::lowered(b@),
    ensures
        logical_action(d, LogicalKey::Character(a)) == logical_action(d, LogicalKey::Character(b)),
{
    assert(text::lowered(a@).len() == a@.len() && text::lowered(b@).len() == b@.len());
    if a@.len() == 1 {
        assert(text::lowered(a@)[0] == text::lower(a@[0]));
        assert(text::lowered(b@)[0] == text::lower(b@[0]));
    }
}

/// What follows a drawn frame.
#[derive(Clone, Copy, Debug, PartialEq, Eq, Structural)]
pub enum FrameEnd {
    Exit,
    Redraw,
}

/// Whether this frame is the one that a run for a single screenshot captures.
pub fn screenshot_due(screenshot: bool, frame: u32, delay: u32) -> (b: bool)
    ensures
        b == (screenshot && frame == delay),
{
    screenshot && frame == delay
}

/// Leave once the screenshot's frame has passed, or once quitting was settled;
/// ask for the next frame otherwise.
pub fn after_frame(screenshot: bool, frame: u32, delay: u32, exit_requested: bool) -> (e: FrameEnd)
    ensures
        e == FrameEnd::Exit <==> (screenshot && frame > delay) || exit_requested,
{
    if screenshot && frame > delay {
        return FrameEnd::Exit;
    }
    if exit_requested {
        FrameEnd::Exit
    } else {
        FrameEnd::Redraw
    }
}

/// Every action of a letter has its key. An adjustment goes up without shift and
/// down with it, but for contrast, which goes down without; the marks go up or
/// down by themselves.
pub proof fn actions_have_their_keys(c: char, shift: bool, ctrl: bool)
    ensures
        ({
            let a = letter_action(c, shift, ctrl);
            &&& a == (Action::AdjustHaze { up: !shift }) <==> c == 'f'
            &&& a == (Action::AdjustFalloff { up: !shift }) <==> c == 'd'
            &&& a == (Action::AdjustContrast { up: shift }) <==> c == 'c'
            &&& a == (Action::AdjustExposure { up: !shift }) <==> c == 'w'
            &&& a == (Action::AdjustColor { channel: 0, up: !shift }) <==> c == 'j'
            &&& a == (Action::AdjustColor { channel: 1, up: !shift }) <==> c == 'k'
            &&& a == (Action::AdjustColor { channel: 2, up: !shift }) <==> c == 'l'
            &&& a == (Action::CycleVariation { forward: !shift }) <==> c == 'e'
            &&& a == (Action::AdjustPointSize { up: false }) <==> c == '['
            &&& a == (Action::AdjustPointSize { up: true }) <==> c == ']'
            &&& a == (Action::AdjustWeight { up: false }) <==> c == ',' || c == '<'
            &&& a == (Action::AdjustWeight { up: true }) <==> c == '.' || c == '>'
            &&& a == (Action::AdjustVariationWeight { up: false }) <==> c == '-' || c == '_'
            &&& a == (Action::AdjustVariationWeight { up: true }) <==> c == '=' || c == '+'
            &&& a == (Action::AddTransform { shift }) <==> c == 'a'
            &&& a == (Action::ToggleTraces { shift }) <==> c == 'x'
        }),
        ({
            let a = letter_action(c, shift, ctrl);
            &&& a == Action::ToggleGizmos <==> c == 'g'
            &&& a == Action::ToggleHelp <==> c == 'h' || c == '?'
            &&& a == Action::ToggleInvertPitch <==> c == 'i'
            &&& a == Action::ToggleRenderMode <==> c == 'r'
            &&& a == Action::OpenRenderJob <==> c == 'p'
            &&& a == Action::SaveView <==> c == 'v'
            &&& a == Action::ToggleBrowser <==> c == 'b' || (c == 'o' && ctrl)
            &&& a == Action::ToggleCameraMotion <==> (c == 'o' || c == 'z') && !ctrl
            &&& a == Action::Mutate <==> c == 'u' && !shift
            &&& a == Action::Undo <==> (c == 'u' && shift) || (c == 'z' && ctrl && !shift)
            &&& a == Action::Redo <==> (c == 'y' && ctrl) || (c == 'z' && ctrl && shift)
            &&& a == Action::AddPathKey <==> c == 'y' && !ctrl && !shift
            &&& a == Action::RemovePathKey <==> c == 'y' && !ctrl && shift
            &&& a == Action::Screenshot <==> c == 's' && !ctrl
            &&& a == Action::SaveScene <==> c == 's' && ctrl && !shift
            &&& a == Action::OpenSaveAs <==> c == 's' && ctrl && shift
            &&& a == Action::NewBlankScene <==> c == 'n' && ctrl
            &&& a == Action::RequestQuit <==> c == 'q' && ctrl
        }),
{
}

/// Escape closes one thing at a time, what lies on top first, and binds nothing
/// where nothing is open.
pub proof fn escape_closes_what_is_on_top(d: Desk)
    ensures
        ({
            let a = escape_action(d);
            &&& a == Action::CloseTransformMenu <==> d.transform_menu
            &&& a == Action::DropPendingAction <==> d.pending_action && !d.transform_menu
            &&& a == Action::CloseSaveAs <==> d.save_as_open && !d.pending_action
                && !d.transform_menu
            &&& a == Action::CloseRenderJob <==> d.render_job_open && !d.save_as_open
                && !d.pending_action && !d.transform_menu
            &&& a == Action::ToggleBrowser <==> d.browser_open && !d.render_job_open
                && !d.save_as_open && !d.pending_action && !d.transform_menu
            &&& a == Action::ClearSelection ==> d.selected && !d.browser_open
            &&& a == Action::Nothing <==> !d.selected && !d.browser_open && !d.render_job_open
                && !d.save_as_open && !d.pending_action && !d.transform_menu
        }),
{
}

/// What the panels want or took of the pointer does not reach the picture, but
/// for the end of a drag, and the pointer counts as over the picture while it
/// drags.
pub proof fn panels_keep_the_pointer(d: Desk)
    ensures
        ({
            let taken = d.consumed || d.wants_pointer;
            let (down, up) = (
                action_for(d, (Event::MouseInput { pressed: true })),
                action_for(d, (Event::MouseInput { pressed: false })),
            );
            &&& down == Action::MousePress <==> !taken
            &&& down != Action::MousePress ==> down == Action::Nothing
            &&& up == Action::MouseRelease <==> !taken || d.dragging
            &&& up != Action::MouseRelease ==> up == Action::Nothing
            &&& action_for(d, Event::MouseWheel) == Action::Scroll <==> !taken
            &&& action_for(d, Event::CursorMoved) == (Action::MoveCursor {
                suppress_hover: d.pointer_over && !d.dragging,
            })
        }),
{
}

/// The arrows and the enter key go to the browser while it is open, else to the
/// selection, else to the camera.
pub proof fn arrows_go_to_what_is_open(d: Desk)
    ensures
        ({
            let (up, down, enter) = (
                physical_action(d, PhysicalKey::ArrowUp),
                physical_action(d, PhysicalKey::ArrowDown),
                physical_action(d, PhysicalKey::Enter),
            );
            &&& d.browser_open ==> up == Some(Action::BrowserMove { down: false }) && down == Some(
                Action::BrowserMove { down: true },
            ) && enter == Some(Action::BrowserLoad)
            &&& !d.browser_open && d.selected ==> up == Some(Action::SelectPrev) && down == Some(
                Action::SelectNext,
            ) && enter == Some(Action::ToggleSelected)
            &&& !d.browser_open && !d.selected ==> up == Some(Action::ZoomIn) && down == Some(
                Action::ZoomOut,
            ) && enter == Some(Action::Nothing)
        }),
        physical_action(d, PhysicalKey::Delete) == Some(Action::DeleteSelected),
        physical_action(d, PhysicalKey::Home) == Some(Action::FrameSelected),
        physical_action(d, PhysicalKey::F1) == Some(Action::ToggleHelp),
        physical_action(d, PhysicalKey::Tab) == Some(Action::ToggleGizmos),
{
}

/// A key that is known by its place does what it does there, whatever is written
/// on it; another one does what is written on it, if that is one character or the
/// space bar. Letting a key go does nothing.
pub proof fn a_key_is_known_by_its_place_first(
    d: Desk,
    physical: PhysicalKey,
    logical: LogicalKey,
    c: String,
)
    requires
        !d.wants_keyboard,
        !d.using_pointer,
    ensures
        ({
            let a = action_for(d, Event::Keyboard { pressed: true, physical, logical });
            &&& !(physical is Other) ==> Some(a) == physical_action(d, physical)
            &&& physical is Other && logical is Space ==> a == Action::ToggleCameraMotion
            &&& physical is Other && logical is Other ==> a == Action::Nothing
            &&& physical is Other && logical == LogicalKey::Character(c) && c@.len() == 1 ==> a
                == letter_action(text::lower(c@[0]), d.shift, d.ctrl)
            &&& physical is Other && logical == LogicalKey::Character(c) && c@.len() != 1 ==> a
                == Action::Nothing
        }),
        action_for(d, Event::Keyboard { pressed: false, physical, logical }) == Action::Nothing,
{
}

/// What the window says is passed on as it is.
pub proof fn the_window_is_passed_on(d: Desk, width: u32, height: u32, alt: bool)
    ensures
        action_for(d, Event::Resized { width, height }) == (Action::Resize { width, height }),
        action_for(d, Event::ModifiersChanged { shift: d.shift, ctrl: d.ctrl, alt }) == (
        Action::SetModifiers { shift: d.shift, ctrl: d.ctrl, alt }),
        action_for(d, Event::RedrawRequested) == Action::DrawFrame,
        action_for(d, Event::CloseRequested) == Action::RequestQuit,
        action_for(d, Event::Other) == Action::Nothing,
{
}

} // verus!
