//! Contact sheets of many scenes.

use fracturize::contact::{
    mutation_tile, sheet_step, SheetAction, SheetEvent, SheetKind, SheetState, SheetTile, Stage,
};
use fracturize::offline::Outcome;

#[test]
fn the_first_tile_is_the_scene() {
    assert_eq!(mutation_tile(0, 8, 42), SheetTile::Scene);
    assert_eq!(mutation_tile(0, 0, 42), SheetTile::Scene);
    assert_eq!(mutation_tile(3, 8, 42), SheetTile::Variant { index: 3, seed: 45 });
    assert_eq!(mutation_tile(2, 8, u64::MAX), SheetTile::Variant { index: 2, seed: 1 });
}

#[test]
fn a_seed_gives_the_same_tiles_in_a_longer_sheet() {
    for i in 0..=4 {
        assert_eq!(mutation_tile(i, 4, 9), mutation_tile(i, 40, 9));
    }
    assert_ne!(mutation_tile(1, 4, 9), mutation_tile(2, 4, 9));
}

/// Every action of a sheet, with the same answer to each but the ones named.
fn run(kind: SheetKind, total: u32, cols: u32, answers: &[(usize, SheetEvent)]) -> Vec<SheetAction> {
    let mut s = SheetState::new(kind, total, cols);
    let mut actions = vec![s.next_action()];
    loop {
        let a = *actions.last().unwrap();
        if matches!(a, SheetAction::Finish { .. } | SheetAction::GiveUp) {
            return actions;
        }
        let at = actions.len() - 1;
        let e = answers.iter().find(|x| x.0 == at).map(|x| x.1).unwrap_or(SheetEvent::Done);
        let (next, action) = sheet_step(s, e);
        s = next;
        actions.push(action);
    }
}

fn draw(index: u32, cols: u32) -> SheetAction {
    SheetAction::Draw { index, col: index % cols, row: index / cols }
}

#[test]
fn a_sweep_is_built_and_then_drawn() {
    assert_eq!(
        run(SheetKind::Sweep, 3, 2, &[]),
        vec![
            SheetAction::Build(0), SheetAction::Build(1), SheetAction::Build(2),
            SheetAction::Ask, SheetAction::Fill(0), draw(0, 2),
            SheetAction::Ask, SheetAction::Fill(1), draw(1, 2),
            SheetAction::Ask, SheetAction::Fill(2), draw(2, 2),
            SheetAction::Save, SheetAction::Finish { done: 3, outcome: Outcome::Complete },
        ]
    );
}

#[test]
fn variants_are_kept_and_the_scene_is_not() {
    assert_eq!(
        run(SheetKind::Mutations, 3, 2, &[]),
        vec![
            SheetAction::Build(0), SheetAction::Build(1), SheetAction::Build(2),
            SheetAction::Fill(0), draw(0, 2), SheetAction::Ask,
            SheetAction::Fill(1), draw(1, 2), SheetAction::Keep(1), SheetAction::Ask,
            SheetAction::Fill(2), draw(2, 2), SheetAction::Keep(2), SheetAction::Ask,
            SheetAction::Save, SheetAction::Finish { done: 3, outcome: Outcome::Complete },
        ]
    );
}

#[test]
fn one_failure_ends_a_sheet_before_anything_is_drawn() {
    let actions = run(SheetKind::Sweep, 3, 2, &[(1, SheetEvent::Failed)]);
    assert_eq!(actions, vec![SheetAction::Build(0), SheetAction::Build(1), SheetAction::GiveUp]);
    let failed = SheetState { stage: Stage::Failed, ..SheetState::new(SheetKind::Sweep, 3, 2) };
    assert_eq!(sheet_step(failed, SheetEvent::Done), (failed, SheetAction::GiveUp));
}

#[test]
fn a_stop_keeps_the_tiles_that_are_drawn() {
    // Before the second tile of a sweep: one tile is drawn.
    let actions = run(SheetKind::Sweep, 3, 2, &[(6, SheetEvent::Stop)]);
    assert_eq!(actions[6], SheetAction::Ask);
    assert_eq!(actions[7..], [SheetAction::Save, SheetAction::Finish { done: 1, outcome: Outcome::Partial }]);
    // After the second tile of a mutation sheet: two are.
    let actions = run(SheetKind::Mutations, 3, 2, &[(9, SheetEvent::Stop)]);
    assert_eq!(actions[9], SheetAction::Ask);
    assert_eq!(actions[10..], [SheetAction::Save, SheetAction::Finish { done: 2, outcome: Outcome::Partial }]);
}

#[test]
fn a_sparse_tile_makes_the_sheet_partial() {
    let actions = run(SheetKind::Sweep, 2, 2, &[(3, SheetEvent::Stop)]);
    assert_eq!(actions[3], SheetAction::Fill(0));
    assert_eq!(actions[4], draw(0, 2));
    assert_eq!(*actions.last().unwrap(), SheetAction::Finish { done: 2, outcome: Outcome::Partial });
}

#[test]
fn a_sheet_of_nothing_is_saved() {
    assert_eq!(
        run(SheetKind::Sweep, 0, 1, &[]),
        vec![SheetAction::Save, SheetAction::Finish { done: 0, outcome: Outcome::Complete }]
    );
}
