use fracturize::keys::{
    after_frame, forwards_to_panels, screenshot_due, window_event, Action, Desk, Event, FrameEnd,
    LogicalKey, PhysicalKey,
};

fn desk() -> Desk {
    Desk {
        wants_keyboard: false,
        using_pointer: false,
        wants_pointer: false,
        pointer_over: false,
        consumed: false,
        shift: false,
        ctrl: false,
        dragging: false,
        transform_menu: false,
        pending_action: false,
        save_as_open: false,
        render_job_open: false,
        browser_open: false,
        selected: false,
    }
}

fn press(physical: PhysicalKey) -> Event {
    Event::Keyboard { pressed: true, physical, logical: LogicalKey::Other }
}

fn typed(s: &str) -> Event {
    let logical = LogicalKey::Character(s.to_string());
    Event::Keyboard { pressed: true, physical: PhysicalKey::Other, logical }
}

fn does(d: Desk, s: &str) -> Action {
    window_event(&d, &typed(s))
}

#[test]
fn escape_cancels_the_outermost_thing() {
    let mut d = Desk {
        transform_menu: true,
        pending_action: true,
        save_as_open: true,
        render_job_open: true,
        browser_open: true,
        selected: true,
        ..desk()
    };
    let escape = press(PhysicalKey::Escape);
    assert_eq!(window_event(&d, &escape), Action::CloseTransformMenu);
    d.transform_menu = false;
    assert_eq!(window_event(&d, &escape), Action::DropPendingAction);
    d.pending_action = false;
    assert_eq!(window_event(&d, &escape), Action::CloseSaveAs);
    d.save_as_open = false;
    assert_eq!(window_event(&d, &escape), Action::CloseRenderJob);
    d.render_job_open = false;
    assert_eq!(window_event(&d, &escape), Action::ToggleBrowser);
    d.browser_open = false;
    assert_eq!(window_event(&d, &escape), Action::ClearSelection);
    d.selected = false;
    assert_eq!(window_event(&d, &escape), Action::Nothing);
}

#[test]
fn arrows_and_enter_follow_what_is_open() {
    let plain = desk();
    let selected = Desk { selected: true, ..desk() };
    let browsing = Desk { browser_open: true, selected: true, ..desk() };
    let all = |k: PhysicalKey| {
        [
            window_event(&plain, &press(k)),
            window_event(&selected, &press(k)),
            window_event(&browsing, &press(k)),
        ]
    };
    assert_eq!(
        all(PhysicalKey::ArrowUp),
        [Action::ZoomIn, Action::SelectPrev, Action::BrowserMove { down: false }]
    );
    assert_eq!(
        all(PhysicalKey::ArrowDown),
        [Action::ZoomOut, Action::SelectNext, Action::BrowserMove { down: true }]
    );
    assert_eq!(
        all(PhysicalKey::Enter),
        [Action::Nothing, Action::ToggleSelected, Action::BrowserLoad]
    );
}

#[test]
fn the_other_placed_keys() {
    let d = desk();
    assert_eq!(window_event(&d, &press(PhysicalKey::Delete)), Action::DeleteSelected);
    assert_eq!(window_event(&d, &press(PhysicalKey::Home)), Action::FrameSelected);
    assert_eq!(window_event(&d, &press(PhysicalKey::F1)), Action::ToggleHelp);
    assert_eq!(window_event(&d, &press(PhysicalKey::Tab)), Action::ToggleGizmos);
    let space = Event::Keyboard {
        pressed: true,
        physical: PhysicalKey::Other,
        logical: LogicalKey::Space,
    };
    assert_eq!(window_event(&d, &space), Action::ToggleCameraMotion);
}

#[test]
fn letters_act_in_either_case() {
    for (lower, upper) in [("s", "S"), ("f", "F"), ("o", "O"), ("w", "W"), ("x", "X"), ("e", "E")] {
        assert_eq!(does(desk(), lower), does(desk(), upper));
    }
    assert_eq!(does(desk(), "ss"), Action::Nothing);
    assert_eq!(does(desk(), ""), Action::Nothing);
    assert_eq!(does(desk(), "7"), Action::Nothing);
}

#[test]
fn shift_and_control_pick_the_action() {
    let plain = desk();
    let shift = Desk { shift: true, ..desk() };
    let ctrl = Desk { ctrl: true, ..desk() };
    let both = Desk { shift: true, ctrl: true, ..desk() };
    assert_eq!(does(plain, "s"), Action::Screenshot);
    assert_eq!(does(ctrl, "s"), Action::SaveScene);
    assert_eq!(does(both, "S"), Action::OpenSaveAs);
    assert_eq!(does(plain, "z"), Action::ToggleCameraMotion);
    assert_eq!(does(ctrl, "z"), Action::Undo);
    assert_eq!(does(both, "Z"), Action::Redo);
    assert_eq!(does(plain, "y"), Action::AddPathKey);
    assert_eq!(does(shift, "Y"), Action::RemovePathKey);
    assert_eq!(does(ctrl, "y"), Action::Redo);
    assert_eq!(does(plain, "u"), Action::Mutate);
    assert_eq!(does(shift, "U"), Action::Undo);
    assert_eq!(does(plain, "n"), Action::Nothing);
    assert_eq!(does(ctrl, "n"), Action::NewBlankScene);
    assert_eq!(does(plain, "q"), Action::Nothing);
    assert_eq!(does(ctrl, "q"), Action::RequestQuit);
    assert_eq!(does(plain, "o"), Action::ToggleCameraMotion);
    assert_eq!(does(ctrl, "o"), Action::ToggleBrowser);
    assert_eq!(does(plain, "c"), Action::AdjustContrast { up: false });
    assert_eq!(does(shift, "C"), Action::AdjustContrast { up: true });
    assert_eq!(does(plain, "f"), Action::AdjustHaze { up: true });
    assert_eq!(does(shift, "F"), Action::AdjustHaze { up: false });
    assert_eq!(does(plain, "k"), Action::AdjustColor { channel: 1, up: true });
    assert_eq!(does(shift, "L"), Action::AdjustColor { channel: 2, up: false });
    assert_eq!(does(plain, "<"), Action::AdjustWeight { up: false });
    assert_eq!(does(plain, "."), Action::AdjustWeight { up: true });
    assert_eq!(does(plain, "]"), Action::AdjustPointSize { up: true });
    assert_eq!(does(plain, "_"), Action::AdjustVariationWeight { up: false });
    assert_eq!(does(plain, "+"), Action::AdjustVariationWeight { up: true });
}

#[test]
fn a_held_keyboard_binds_nothing() {
    let focused = Desk { wants_keyboard: true, ..desk() };
    let sliding = Desk { using_pointer: true, ..desk() };
    for d in [focused, sliding] {
        assert_eq!(does(d, "s"), Action::Nothing);
        assert_eq!(window_event(&d, &press(PhysicalKey::Escape)), Action::Nothing);
    }
    let released = Event::Keyboard {
        pressed: false,
        physical: PhysicalKey::Delete,
        logical: LogicalKey::Other,
    };
    assert_eq!(window_event(&desk(), &released), Action::Nothing);
}

#[test]
fn an_unclaimed_tab_stays_with_the_application() {
    let tab = press(PhysicalKey::Tab);
    assert!(!forwards_to_panels(&tab, false, false));
    assert!(forwards_to_panels(&tab, true, false));
    assert!(forwards_to_panels(&tab, false, true));
    assert!(forwards_to_panels(&press(PhysicalKey::Escape), false, false));
    assert!(forwards_to_panels(&Event::MouseWheel, false, false));
}

#[test]
fn panels_gate_the_pointer() {
    let (down, up) = (Event::MouseInput { pressed: true }, Event::MouseInput { pressed: false });
    let over = Desk { pointer_over: true, wants_pointer: true, ..desk() };
    let dragging = Desk { dragging: true, ..over };
    assert_eq!(window_event(&desk(), &down), Action::MousePress);
    assert_eq!(window_event(&desk(), &up), Action::MouseRelease);
    assert_eq!(window_event(&over, &down), Action::Nothing);
    assert_eq!(window_event(&over, &up), Action::Nothing);
    assert_eq!(window_event(&dragging, &down), Action::Nothing);
    assert_eq!(window_event(&dragging, &up), Action::MouseRelease);
    assert_eq!(window_event(&desk(), &Event::MouseWheel), Action::Scroll);
    assert_eq!(window_event(&over, &Event::MouseWheel), Action::Nothing);
    let moved = Event::CursorMoved;
    assert_eq!(window_event(&over, &moved), Action::MoveCursor { suppress_hover: true });
    assert_eq!(window_event(&dragging, &moved), Action::MoveCursor { suppress_hover: false });
}

#[test]
fn the_window_itself() {
    let d = Desk { wants_keyboard: true, consumed: true, ..desk() };
    assert_eq!(window_event(&d, &Event::CloseRequested), Action::RequestQuit);
    assert_eq!(
        window_event(&d, &Event::ModifiersChanged { shift: true, ctrl: false, alt: true }),
        Action::SetModifiers { shift: true, ctrl: false, alt: true }
    );
    assert_eq!(
        window_event(&d, &Event::Resized { width: 3, height: 2 }),
        Action::Resize { width: 3, height: 2 }
    );
    assert_eq!(window_event(&d, &Event::RedrawRequested), Action::DrawFrame);
    assert_eq!(window_event(&d, &Event::Other), Action::Nothing);
}

#[test]
fn a_screenshot_run_leaves_after_its_frame() {
    assert!(!screenshot_due(true, 4, 5));
    assert!(screenshot_due(true, 5, 5));
    assert!(!screenshot_due(false, 5, 5));
    assert_eq!(after_frame(true, 5, 5, false), FrameEnd::Redraw);
    assert_eq!(after_frame(true, 6, 5, false), FrameEnd::Exit);
    assert_eq!(after_frame(false, 6, 5, false), FrameEnd::Redraw);
    assert_eq!(after_frame(false, 6, 5, true), FrameEnd::Exit);
}
