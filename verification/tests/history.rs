use fracturize::history::{EditSnapshot, History, MIN_ENTRIES};

/// A scene stood in for by the weight of its one transform, in hundredths.
fn snap(weight: u32) -> EditSnapshot<u32> {
    EditSnapshot { scene: weight, transforms: 1 }
}

fn weight_of(snap: &EditSnapshot<u32>) -> u32 {
    snap.scene
}

fn label(s: &str) -> String {
    s.to_string()
}

#[test]
fn coalescing_same_key_within_window_keeps_original_before() {
    let mut h = History::new();
    h.commit(label("Weight"), Some("weight:T0"), snap(100), 0);
    h.commit(label("Weight"), Some("weight:T0"), snap(115), 200);
    h.commit(label("Weight"), Some("weight:T0"), snap(132), 400);

    assert_eq!(h.undo_len(), 1, "same-key commits within the window should coalesce into one entry");

    let (label, restored) = h.undo(snap(152)).expect("one entry to undo");
    assert_eq!(label, "Weight");
    assert_eq!(weight_of(&restored), 100, "coalesced entry must keep the ORIGINAL before-state");
}

#[test]
fn different_coalesce_key_does_not_coalesce() {
    let mut h = History::new();
    h.commit(label("Weight"), Some("weight:T0"), snap(100), 0);
    h.commit(label("Hue"), Some("color:0:T0"), snap(115), 50);
    assert_eq!(h.undo_len(), 2, "a different coalesce key must start a new entry");
}

#[test]
fn elapsed_past_window_does_not_coalesce() {
    let mut h = History::new();
    h.commit(label("Weight"), Some("weight:T0"), snap(100), 0);
    h.commit(label("Weight"), Some("weight:T0"), snap(115), 1500);
    assert_eq!(h.undo_len(), 2, "a commit more than 1s after the last must start a new entry");
}

#[test]
fn no_coalesce_key_never_coalesces() {
    let mut h = History::new();
    h.commit(label("Add transform"), None, snap(100), 0);
    h.commit(label("Add transform"), None, snap(100), 10);
    assert_eq!(h.undo_len(), 2, "commits with no coalesce key are always distinct entries");
}

#[test]
fn commit_clears_redo() {
    let mut h = History::new();
    h.commit(label("A"), None, snap(100), 0);
    let (_, restored) = h.undo(snap(115)).expect("undo A");
    assert_eq!(h.redo_len(), 1, "undo should populate redo");

    h.commit(label("B"), None, restored, 10);
    assert_eq!(h.redo_len(), 0, "a fresh commit must clear redo");
}

#[test]
fn undo_redo_round_trip() {
    let mut h = History::new();
    // Edit A: weight 1.0 -> 2.0
    h.commit(label("A"), None, snap(100), 0);
    // Edit B: weight 2.0 -> 3.0
    h.commit(label("B"), None, snap(200), 2000);

    let (l, restored) = h.undo(snap(300)).expect("undo B");
    assert_eq!(l, "B");
    assert_eq!(weight_of(&restored), 200);

    let (l, restored) = h.undo(restored).expect("undo A");
    assert_eq!(l, "A");
    assert_eq!(weight_of(&restored), 100);
    assert_eq!(h.undo_len(), 0);
    assert_eq!(h.redo_len(), 2);

    let (l, restored) = h.redo(restored).expect("redo A");
    assert_eq!(l, "A");
    assert_eq!(weight_of(&restored), 200);

    let (l, restored) = h.redo(restored).expect("redo B");
    assert_eq!(l, "B");
    assert_eq!(weight_of(&restored), 300);
    assert_eq!(h.redo_len(), 0);
    assert_eq!(h.undo_len(), 2);
}

#[test]
fn jump_undo_and_redo_multi_step() {
    let mut h = History::new();
    h.commit(label("A"), None, snap(100), 0);
    h.commit(label("B"), None, snap(200), 2000);
    h.commit(label("C"), None, snap(300), 4000);

    let restored = h.jump_undo(3, snap(400)).expect("jump back 3 steps");
    assert_eq!(weight_of(&restored), 100);
    assert_eq!(h.undo_len(), 0);
    assert_eq!(h.redo_len(), 3);

    // Asking for more steps than are available must not partially apply
    assert!(h.jump_undo(1, snap(100)).is_none());

    let restored = h.jump_redo(3, restored).expect("jump forward 3 steps");
    assert_eq!(weight_of(&restored), 400);
    assert_eq!(h.redo_len(), 0);
    assert_eq!(h.undo_len(), 3);
}

#[test]
fn entry_cap_evicts_oldest() {
    let mut h = History::with_caps(3, usize::MAX);
    for i in 0..5u32 {
        h.commit(format!("E{}", i), None, snap(i * 100), i as u64 * 2000);
    }
    assert_eq!(h.undo_len(), 3);
    assert_eq!(
        h.undo_display(),
        vec!["E4", "E3", "E2"],
        "entry cap should evict the oldest entries"
    );
}

#[test]
fn byte_cap_evicts_oldest_but_stops_at_the_floor() {
    // Each 1-transform snapshot estimates to 1*176 + 4096 = 4272 bytes, so a
    // 5000-byte cap is exceeded by the second entry and never satisfied again.
    assert_eq!(snap(0).estimated_bytes(), 4272);
    let mut h = History::with_caps(64, 5000);
    for i in 0..15u32 {
        h.commit(format!("E{}", i), None, snap(i * 100), i as u64 * 2000);
    }
    assert_eq!(h.undo_len(), MIN_ENTRIES, "the byte cap must not evict past the floor");
    assert_eq!(h.undo_display().first(), Some(&"E14"), "newest is kept");
    assert_eq!(
        h.undo_display().last(),
        Some(&"E5"),
        "and the oldest survivor is the one the floor saved",
    );
}

#[test]
fn eviction_is_counted_so_the_ui_can_say_so() {
    let mut h = History::with_caps(3, usize::MAX);
    for i in 0..7u32 {
        h.commit(format!("E{}", i), None, snap(i * 100), i as u64 * 2000);
    }
    assert_eq!(h.undo_len(), 3);
    assert_eq!(h.dropped(), 4, "four entries went, and the list should be able to say so");
    h.clear();
    assert_eq!(h.dropped(), 0, "a fresh document starts with a clean count");
}

#[test]
fn a_tiny_entry_cap_still_wins_over_the_floor() {
    // The floor guards the *byte* cap. An explicitly-asked-for entry cap
    // below it is a count, and a count can't be in tension with itself.
    let mut h = History::with_caps(2, 1);
    for i in 0..5u32 {
        h.commit(format!("E{}", i), None, snap(i * 100), i as u64 * 2000);
    }
    assert_eq!(h.undo_len(), 2);
}

#[test]
fn undoing_back_to_the_save_point_reads_as_saved() {
    let mut h = History::new();
    h.commit(label("A"), None, snap(100), 0);
    h.commit(label("B"), None, snap(200), 2000);
    // ...saved here...
    let saved = h.top_serial();
    h.commit(label("C"), None, snap(300), 4000);
    h.commit(label("D"), None, snap(400), 6000);
    assert_ne!(h.top_serial(), saved, "two edits past the save point");

    h.undo(snap(500)).unwrap();
    assert_ne!(h.top_serial(), saved, "one edit past it is still not it");
    h.undo(snap(400)).unwrap();
    assert_eq!(h.top_serial(), saved, "back at the state that was written");

    // ...and forward again, which a boolean could never report.
    h.redo(snap(300)).unwrap();
    assert_ne!(h.top_serial(), saved, "redoing past the save point is dirty again");
    h.undo(snap(400)).unwrap();
    assert_eq!(h.top_serial(), saved, "and undoing back to it is clean again");
}

#[test]
fn undoing_every_edit_reaches_the_freshly_opened_state() {
    let mut h = History::new();
    let opened = h.top_serial();
    assert_eq!(opened, None);
    h.commit(label("A"), None, snap(100), 0);
    h.commit(label("B"), None, snap(200), 2000);
    h.undo(snap(300)).unwrap();
    h.undo(snap(200)).unwrap();
    assert_eq!(h.top_serial(), opened);
}

#[test]
fn a_coalesced_commit_still_moves_off_the_save_point() {
    // Save mid-drag, then keep dragging: the commit coalesces into the
    // entry that was on top when you saved, so the *entry* is the same one
    // — but the scene has moved and the file has not.
    let mut h = History::new();
    h.commit(label("Weight"), Some("weight:T0"), snap(100), 0);
    let saved = h.top_serial();
    h.commit(label("Weight"), Some("weight:T0"), snap(115), 200);
    assert_eq!(h.undo_len(), 1, "still one entry — it coalesced");
    assert_ne!(h.top_serial(), saved, "but the document is not the saved one");
}

#[test]
fn an_evicted_save_point_never_compares_equal_again() {
    // Fails safe: if the caps take the entry you saved at, the scene stays
    // dirty rather than claiming to be a file it can no longer get back to.
    let mut h = History::with_caps(3, usize::MAX);
    h.commit(label("A"), None, snap(100), 0);
    let saved = h.top_serial();
    for i in 1..6u32 {
        h.commit(format!("E{}", i), None, snap(i * 100), i as u64 * 2000);
    }
    while h.undo_len() > 0 {
        h.undo(snap(900)).unwrap();
        assert_ne!(h.top_serial(), saved, "the evicted save point is unreachable");
    }
    assert_eq!(h.top_serial(), None);
    assert_ne!(h.top_serial(), saved);
}

#[test]
fn clear_empties_both_stacks() {
    let mut h = History::new();
    h.commit(label("A"), None, snap(100), 0);
    let (_, restored) = h.undo(snap(200)).unwrap();
    assert!(h.undo_len() == 0 && h.redo_len() == 1);
    h.clear();
    assert_eq!(h.undo_len(), 0);
    assert_eq!(h.redo_len(), 0);
    drop(restored);
}

#[test]
fn the_lists_read_in_display_order() {
    let mut h = History::new();
    h.commit(label("A"), None, snap(1), 0);
    h.commit(label("B"), None, snap(2), 2000);
    h.commit(label("C"), None, snap(3), 4000);
    h.undo(snap(4)).unwrap();
    h.undo(snap(3)).unwrap();
    assert_eq!(h.undo_display(), vec!["A"]);
    // The furthest redo leads; the next one is last.
    assert_eq!(h.redo_display(), vec!["C", "B"]);
}

#[test]
fn nothing_to_undo_is_none() {
    let mut h: History<u32> = History::new();
    assert!(h.undo(snap(1)).is_none());
    assert!(h.redo(snap(1)).is_none());
    assert!(h.jump_undo(0, snap(1)).is_none() || h.undo_len() == 0);
}

#[test]
fn a_coalesced_commit_leaves_redo_alone() {
    let mut h = History::new();
    h.commit(label("A"), Some("k"), snap(100), 0);
    h.commit(label("B"), None, snap(200), 10);
    h.undo(snap(300)).expect("undo B");
    let named = h.top_serial();
    h.commit(label("A"), Some("k"), snap(200), 20);
    assert_eq!((h.undo_len(), h.redo_len()), (1, 1));
    assert!(h.top_serial() > named, "the state has a new name");
    let (l, _) = h.redo(snap(250)).expect("redo B");
    assert_eq!(l, "B");
    assert_eq!((h.undo_len(), h.redo_len()), (2, 0));
}

#[test]
fn undo_then_redo_gives_both_stacks_back() {
    let mut h = History::new();
    for (i, name) in ["A", "B", "C"].iter().enumerate() {
        h.commit(label(name), None, snap(i as u32), i as u64);
    }
    h.undo(snap(9)).expect("undo C");
    let before = (h.undo_len(), h.redo_len(), h.top_serial());
    let (l, s) = h.undo(snap(8)).expect("undo B");
    assert_eq!((h.undo_len(), h.redo_len()), (1, 2));
    let (again, back) = h.redo(s).expect("redo B");
    assert_eq!((l.as_str(), again.as_str(), weight_of(&back)), ("B", "B", 8));
    assert_eq!((h.undo_len(), h.redo_len(), h.top_serial()), before);
}

#[test]
fn serials_are_never_used_again() {
    let mut h = History::new();
    let mut last = None;
    for i in 0..6u32 {
        h.commit(label("A"), Some("k"), snap(i), 10 * i as u64);
        assert!(h.top_serial() > last);
        last = h.top_serial();
        if i == 2 {
            h.undo(snap(i));
        }
        if i == 4 {
            h.clear();
            assert_eq!((h.undo_len(), h.redo_len(), h.dropped(), h.top_serial()), (0, 0, 0, None));
        }
    }
}
