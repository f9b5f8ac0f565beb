//! Contact sheets of many scenes: the order in which a sheet of variants or of
//! a sweep is built, filled, drawn and saved, and where it may be stopped.

use crate::offline::Outcome;
use crate::variants;
use vstd::prelude::*;

verus! {

/// What a tile of a mutation sheet shows.
#[derive(Clone, Copy, Debug, PartialEq, Eq, Structural)]
pub enum SheetTile {
    /// The scene itself.
    Scene,
    /// The scene changed by what this seed rolls.
    Variant { index: u32, seed: u64 },
}

/// Tile `i` of a mutation sheet: the scene first, and then its variants, each
/// made from the scene itself by a seed of its own.
pub open spec fn tile_of(i: int, seed: int) -> SheetTile {
    if i == 0 {
        SheetTile::Scene
    } else {
        SheetTile::Variant {
            index: i as u32,
            seed: ((seed + i) % 0x1_0000_0000_0000_0000) as u64,
        }
    }
}

/// Tile `i` of a sheet of `count` variants.
pub fn mutation_tile(i: u32, count: u32, seed: u64) -> (t: SheetTile)
    requires
        i <= count,
    ensures
        t == tile_of(i as int, seed as int),
{
    if i == 0 {
        SheetTile::Scene
    } else {
        SheetTile::Variant { index: i, seed: variants::variant_seed(seed, i) }
    }
}

/// A seed gives a sheet's tiles again: what a tile shows does not depend on
/// the tiles before it, and no two tiles of a sheet show the same.
pub proof fn a_seed_gives_its_tiles_again(seed: int, again: int, i: int, j: int)
    requires
        0 <= seed < 0x1_0000_0000_0000_0000,
        again == seed,
        0 <= i <= u32::MAX,
        0 <= j <= u32::MAX,
    ensures
        tile_of(i, seed) == tile_of(i, again),
        i != j ==> tile_of(i, seed) != tile_of(j, again),
        i != j && i > 0 && j > 0 ==> tile_of(i, seed)->seed != tile_of(j, again)->seed,
{
    if 0 < i < j {
        variants::variants_have_different_seeds(seed, i, j);
    } else if 0 < j < i {
        variants::variants_have_different_seeds(seed, j, i);
    }
}

/// Which sheet is made.
#[derive(Clone, Copy, Debug, PartialEq, Eq, Structural)]
pub enum SheetKind {
    /// Variants: each is kept in a file, and a stop is looked for after a tile.
    Mutations,
    /// A swept parameter: a stop is looked for before a tile.
    Sweep,
}

/// Where a sheet stands.
#[derive(Clone, Copy, Debug, PartialEq, Eq, Structural)]
pub enum Stage {
    /// Scene `i` is to be built.
    Building(u32),
    /// Whether to stop is to be asked at tile `i`.
    Asking(u32),
    /// The points of tile `i` are to be filled.
    Filling(u32),
    /// Tile `i` is to be drawn.
    Drawing(u32),
    /// The scene of tile `i` is to be kept in its file.
    Keeping(u32),
    /// So many tiles are drawn, and the sheet is to be saved.
    Saving(u32),
    /// The sheet of so many tiles is saved.
    Saved(u32),
    /// Something failed.
    Failed,
}

/// A sheet under way.
#[derive(Clone, Copy, Debug, PartialEq, Eq, Structural)]
pub struct SheetState {
    pub kind: SheetKind,
    /// How many tiles there are.
    pub total: u32,
    /// How many tiles stand side by side.
    pub cols: u32,
    pub stage: Stage,
    /// Whether any of it was cut short.
    pub outcome: Outcome,
}

/// What came of the last action.
#[derive(Clone, Copy, Debug, PartialEq, Eq, Structural)]
pub enum SheetEvent {
    /// It was done, or nothing asks to stop.
    Done,
    /// A stop is asked for; of a fill, that it was cut short.
    Stop,
    /// It failed.
    Failed,
}

/// What is to be done next.
#[derive(Clone, Copy, Debug, PartialEq, Eq, Structural)]
pub enum SheetAction {
    /// Build the scene of a tile.
    Build(u32),
    /// Ask whether to stop.
    Ask,
    /// Fill the points of a tile.
    Fill(u32),
    /// Draw a tile into its cell, and label it.
    Draw { index: u32, col: u32, row: u32 },
    /// Write the scene of a tile to its file.
    Keep(u32),
    /// Write the sheet.
    Save,
    /// Nothing: the sheet is saved.
    Finish { done: u32, outcome: Outcome },
    /// Nothing: report the failure.
    GiveUp,
}

impl SheetState {
    /// The tile that a stage is about is one of the sheet's, and only variants
    /// are kept.
    pub open spec fn valid(self) -> bool {
        &&& 0 < self.cols
        &&& match self.stage {
            Stage::Building(i) => i < self.total,
            Stage::Asking(i) => i < self.total,
            Stage::Filling(i) => i < self.total,
            Stage::Drawing(i) => i < self.total,
            Stage::Keeping(i) => 0 < i < self.total && self.kind == SheetKind::Mutations,
            Stage::Saving(done) => done <= self.total,
            Stage::Saved(done) => done <= self.total,
            Stage::Failed => true,
        }
    }

    /// The same sheet at another stage.
    pub open spec fn at(self, stage: Stage) -> SheetState {
        SheetState { stage, ..self }
    }

    /// The same sheet, cut short.
    pub open spec fn cut(self) -> SheetState {
        SheetState { outcome: Outcome::Partial, ..self }
    }

    /// Where a tile starts: a sweep asks first.
    pub open spec fn tile_starts(self, i: u32) -> SheetState {
        match self.kind {
            SheetKind::Mutations => self.at(Stage::Filling(i)),
            SheetKind::Sweep => self.at(Stage::Asking(i)),
        }
    }

    /// What follows tile `i`.
    pub open spec fn tile_ends(self, i: u32) -> SheetState {
        if i + 1 < self.total {
            self.tile_starts((i + 1) as u32)
        } else {
            self.at(Stage::Saving(self.total))
        }
    }

    /// What follows when tile `i` is in its cell: a variant is kept, and then
    /// a mutation sheet asks.
    pub open spec fn tile_drawn(self, i: u32) -> SheetState {
        match self.kind {
            SheetKind::Mutations => if i == 0 {
                self.at(Stage::Asking(i))
            } else {
                self.at(Stage::Keeping(i))
            },
            SheetKind::Sweep => self.tile_ends(i),
        }
    }

    /// What follows when a stop is asked for at tile `i`: the tiles that are
    /// drawn are saved.
    pub open spec fn tile_stopped(self, i: u32) -> SheetState {
        match self.kind {
            SheetKind::Mutations => self.cut().at(Stage::Saving((i + 1) as u32)),
            SheetKind::Sweep => self.cut().at(Stage::Saving(i)),
        }
    }

    /// The sheet after an event.
    pub open spec fn after(self, e: SheetEvent) -> SheetState {
        match self.stage {
            Stage::Saved(_) => self,
            Stage::Failed => self,
            stage => if e == SheetEvent::Failed {
                self.at(Stage::Failed)
            } else {
                match stage {
                    Stage::Building(i) => if i + 1 < self.total {
                        self.at(Stage::Building((i + 1) as u32))
                    } else {
                        self.tile_starts(0)
                    },
                    Stage::Asking(i) => if e == SheetEvent::Stop {
                        self.tile_stopped(i)
                    } else {
                        match self.kind {
                            SheetKind::Mutations => self.tile_ends(i),
                            SheetKind::Sweep => self.at(Stage::Filling(i)),
                        }
                    },
                    Stage::Filling(i) => if e == SheetEvent::Stop {
                        self.cut().at(Stage::Drawing(i))
                    } else {
                        self.at(Stage::Drawing(i))
                    },
                    Stage::Drawing(i) => self.tile_drawn(i),
                    Stage::Keeping(i) => self.at(Stage::Asking(i)),
                    Stage::Saving(done) => self.at(Stage::Saved(done)),
                    _ => self,
                }
            },
        }
    }

    /// What a stage asks for.
    pub open spec fn action(self) -> SheetAction {
        match self.stage {
            Stage::Building(i) => SheetAction::Build(i),
            Stage::Asking(_) => SheetAction::Ask,
            Stage::Filling(i) => SheetAction::Fill(i),
            Stage::Drawing(i) => SheetAction::Draw {
                index: i,
                col: (i % self.cols) as u32,
                row: (i / self.cols) as u32,
            },
            Stage::Keeping(i) => SheetAction::Keep(i),
            Stage::Saving(_) => SheetAction::Save,
            Stage::Saved(done) => SheetAction::Finish { done, outcome: self.outcome },
            Stage::Failed => SheetAction::GiveUp,
        }
    }

    /// A sheet of which nothing is built yet.
    pub open spec fn first(kind: SheetKind, total: u32, cols: u32) -> SheetState {
        SheetState {
            kind,
            total,
            cols,
            stage: if total == 0 {
                Stage::Saving(0)
            } else {
                Stage::Building(0)
            },
            outcome: Outcome::Complete,
        }
    }

    /// A sheet of `total` tiles, of which nothing is built yet.
    pub fn new(kind: SheetKind, total: u32, cols: u32) -> (s: SheetState)
        requires
            0 < cols,
        ensures
            s == SheetState::first(kind, total, cols),
            s.valid(),
    {
        let stage = if total == 0 {
            Stage::Saving(0)
        } else {
            Stage::Building(0)
        };
        SheetState { kind, total, cols, stage, outcome: Outcome::Complete }
    }

    /// What is to be done next.
    pub fn next_action(self) -> (a: SheetAction)
        requires
            self.valid(),
        ensures
            a == self.action(),
    {
        match self.stage {
            Stage::Building(i) => SheetAction::Build(i),
            Stage::Asking(_) => SheetAction::Ask,
            Stage::Filling(i) => SheetAction::Fill(i),
            Stage::Drawing(i) => SheetAction::Draw {
                index: i,
                col: i % self.cols,
                row: i / self.cols,
            },
            Stage::Keeping(i) => SheetAction::Keep(i),
            Stage::Saving(_) => SheetAction::Save,
            Stage::Saved(done) => SheetAction::Finish { done, outcome: self.outcome },
            Stage::Failed => SheetAction::GiveUp,
        }
    }

    fn moved(self, stage: Stage) -> (s: SheetState)
        ensures
            s == self.at(stage),
    {
        SheetState { kind: self.kind, total: self.total, cols: self.cols, stage, outcome: self.outcome }
    }

    fn cut_short(self) -> (s: SheetState)
        ensures
            s == self.cut(),
    {
        SheetState {
            kind: self.kind,
            total: self.total,
            cols: self.cols,
            stage: self.stage,
            outcome: self.outcome.and(Outcome::Partial),
        }
    }

    fn start_tile(self, i: u32) -> (s: SheetState)
        ensures
            s == self.tile_starts(i),
    {
        match self.kind {
            SheetKind::Mutations => self.moved(Stage::Filling(i)),
            SheetKind::Sweep => self.moved(Stage::Asking(i)),
        }
    }

    fn end_tile(self, i: u32) -> (s: SheetState)
        requires
            i < self.total,
        ensures
            s == self.tile_ends(i),
    {
        if i + 1 < self.total {
            self.start_tile(i + 1)
        } else {
            self.moved(Stage::Saving(self.total))
        }
    }
}

/// A sheet after an event, and what it asks for then.
pub open spec fn sheet_after(s: SheetState, e: SheetEvent) -> (SheetState, SheetAction) {
    (s.after(e), s.after(e).action())
}

/// One step of a sheet: from where it stands and what came of the last action,
/// to where it stands next and the next action.
pub fn sheet_step(s: SheetState, e: SheetEvent) -> (r: (SheetState, SheetAction))
    requires
        s.valid(),
    ensures
        r == sheet_after(s, e),
        r.0.valid(),
{
    let next = match s.stage {
        Stage::Saved(_) => s,
        Stage::Failed => s,
        stage => if e == SheetEvent::Failed {
            s.moved(Stage::Failed)
        } else {
            match stage {
                Stage::Building(i) => if i + 1 < s.total {
                    s.moved(Stage::Building(i + 1))
                } else {
                    s.start_tile(0)
                },
                Stage::Asking(i) => if e == SheetEvent::Stop {
                    let done: u32 = match s.kind {
                        SheetKind::Mutations => i + 1,
                        SheetKind::Sweep => i,
                    };
                    s.cut_short().moved(Stage::Saving(done))
                } else {
                    match s.kind {
                        SheetKind::Mutations => s.end_tile(i),
                        SheetKind::Sweep => s.moved(Stage::Filling(i)),
                    }
                },
                Stage::Filling(i) => if e == SheetEvent::Stop {
                    s.cut_short().moved(Stage::Drawing(i))
                } else {
                    s.moved(Stage::Drawing(i))
                },
                Stage::Drawing(i) => match s.kind {
                    SheetKind::Mutations => if i == 0 {
                        s.moved(Stage::Asking(i))
                    } else {
                        s.moved(Stage::Keeping(i))
                    },
                    SheetKind::Sweep => s.end_tile(i),
                },
                Stage::Keeping(i) => s.moved(Stage::Asking(i)),
                Stage::Saving(done) => s.moved(Stage::Saved(done)),
                _ => s,
            }
        },
    };
    (next, next.next_action())
}

/// A sheet after a run of events.
pub open spec fn sheet_run(s: SheetState, events: Seq<SheetEvent>) -> SheetState
    decreases events.len(),
{
    if events.len() == 0 {
        s
    } else {
        sheet_run(s, events.drop_last()).after(events.last())
    }
}

/// However a sheet's events fall, it stays one of the same tiles.
pub proof fn steps_keep_valid(s: SheetState, events: Seq<SheetEvent>)
    requires
        s.valid(),
    ensures
        sheet_run(s, events).valid(),
        sheet_run(s, events).kind == s.kind,
        sheet_run(s, events).total == s.total,
        sheet_run(s, events).cols == s.cols,
    decreases events.len(),
{
    if events.len() > 0 {
        steps_keep_valid(s, events.drop_last());
    }
}

/// Every scene is built before any point is filled or tile drawn, whatever
/// happened: while one is still to be built, the sheet has done nothing but
/// build, and each event was a success.
pub proof fn nothing_is_drawn_before_all_is_built(
    kind: SheetKind,
    total: u32,
    cols: u32,
    events: Seq<SheetEvent>,
)
    requires
        0 < cols,
    ensures
        events.len() < total && !events.contains(SheetEvent::Failed) ==> sheet_run(
            SheetState::first(kind, total, cols),
            events,
        ).action() == SheetAction::Build(events.len() as u32),
        events.len() < total && events.contains(SheetEvent::Failed) ==> sheet_run(
            SheetState::first(kind, total, cols),
            events,
        ).action() == SheetAction::GiveUp,
    decreases events.len(),
{
    let s = SheetState::first(kind, total, cols);
    if events.len() > 0 && events.len() < total {
        let before = events.drop_last();
        nothing_is_drawn_before_all_is_built(kind, total, cols, before);
        assert(events =~= before.push(events.last()));
        if before.contains(SheetEvent::Failed) {
            let i = choose|i: int| 0 <= i < before.len() && before[i] == SheetEvent::Failed;
            assert(events[i] == SheetEvent::Failed);
        } else if events.last() == SheetEvent::Failed {
            assert(events[events.len() - 1] == SheetEvent::Failed);
        } else {
            assert forall|i: int| 0 <= i < events.len() implies events[i] != SheetEvent::Failed by {
                if i < before.len() {
                    assert(before[i] == events[i]);
                    assert(before.contains(before[i]));
                }
            }
            assert(sheet_run(s, before).stage == Stage::Building(before.len() as u32));
            steps_keep_valid(s, before);
        }
    }
}

/// The first failure is final: nothing that comes after it is done.
pub proof fn the_first_failure_is_final(s: SheetState, events: Seq<SheetEvent>)
    requires
        s.stage == Stage::Failed,
    ensures
        sheet_run(s, events) == s,
        sheet_run(s, events).action() == SheetAction::GiveUp,
    decreases events.len(),
{
    if events.len() > 0 {
        the_first_failure_is_final(s, events.drop_last());
    }
}

/// Any failure before the sheet is saved ends it.
pub proof fn a_failure_ends_the_sheet(s: SheetState)
    requires
        !(s.stage is Saved),
    ensures
        sheet_after(s, SheetEvent::Failed).1 == SheetAction::GiveUp,
{
}

/// How many tiles a stage has behind it in their cells.
pub open spec fn tiles_drawn(s: SheetState) -> int {
    match s.stage {
        Stage::Building(_) => 0,
        Stage::Asking(i) => match s.kind {
            SheetKind::Mutations => i + 1,
            SheetKind::Sweep => i as int,
        },
        Stage::Filling(i) => i as int,
        Stage::Drawing(i) => i as int,
        Stage::Keeping(i) => i + 1,
        Stage::Saving(done) => done as int,
        Stage::Saved(done) => done as int,
        Stage::Failed => 0,
    }
}

/// Tiles are drawn one at a time and in order: the tile that a sheet asks for
/// is the one after those that are drawn, each is filled just before, and
/// only drawing adds one.
pub proof fn tiles_are_drawn_in_order(s: SheetState, e: SheetEvent)
    requires
        s.valid(),
        e != SheetEvent::Failed,
        s.stage != Stage::Failed,
    ensures
        s.action() is Draw ==> s.action()->index == tiles_drawn(s),
        s.action() is Draw ==> tiles_drawn(s.after(e)) == tiles_drawn(s) + 1,
        !(s.action() is Draw) ==> tiles_drawn(s.after(e)) == tiles_drawn(s),
        s.action() is Fill ==> s.after(e).action() is Draw && s.after(e).action()->index
            == s.action()->Fill_0,
{
}

/// A sheet that was never stopped has every tile, and says so.
pub proof fn a_sheet_is_complete_unless_stopped(s: SheetState, events: Seq<SheetEvent>)
    requires
        s.valid(),
        s.outcome == Outcome::Complete,
        s.stage is Saving || s.stage is Saved ==> tiles_drawn(s) == s.total,
    ensures
        !events.contains(SheetEvent::Stop) ==> {
            let end = sheet_run(s, events);
            &&& end.outcome == Outcome::Complete
            &&& end.stage is Saving || end.stage is Saved ==> tiles_drawn(end) == end.total
        },
    decreases events.len(),
{
    if events.len() > 0 {
        let before = events.drop_last();
        a_sheet_is_complete_unless_stopped(s, before);
        steps_keep_valid(s, before);
        if !events.contains(SheetEvent::Stop) {
            assert forall|i: int| 0 <= i < before.len() implies before[i] != SheetEvent::Stop by {
                assert(before[i] == events[i]);
                assert(events.contains(events[i]));
            }
            assert(events.contains(events.last()));
        }
    }
}

/// A stop that is asked for where the sheet asks keeps the tiles that are
/// drawn, and the sheet is reported partial.
pub proof fn a_stop_keeps_what_is_drawn(s: SheetState)
    requires
        s.valid(),
        s.action() == SheetAction::Ask,
    ensures
        s.after(SheetEvent::Stop).action() == SheetAction::Save,
        tiles_drawn(s.after(SheetEvent::Stop)) == tiles_drawn(s),
        s.after(SheetEvent::Stop).outcome == Outcome::Partial,
{
}

/// A tile is drawn into its own cell, row by row from the left.
pub proof fn a_tile_is_drawn_into_its_cell(s: SheetState)
    requires
        s.valid(),
        s.action() is Draw,
    ensures
        s.action()->col < s.cols,
        s.action()->col + s.cols * s.action()->row == s.action()->index,
{
    let i = s.action()->index as int;
    vstd::arithmetic::div_mod::lemma_fundamental_div_mod(i, s.cols as int);
}

/// Every variant that is drawn is written to its file before anything else, and
/// the scene itself and the steps of a sweep are not.
pub proof fn every_variant_is_kept(s: SheetState, e: SheetEvent)
    requires
        s.valid(),
        s.action() is Draw,
        e != SheetEvent::Failed,
    ensures
        s.kind == SheetKind::Mutations && s.action()->index > 0 ==> s.after(e).action()
            == SheetAction::Keep(s.action()->index),
        s.kind == SheetKind::Mutations && s.action()->index == 0 ==> s.after(e).action()
            == SheetAction::Ask,
        s.kind == SheetKind::Sweep ==> !(s.after(e).action() is Keep),
{
}

/// A variant sheet asks whether to stop after every tile, and a sweep before
/// every one.
pub proof fn a_stop_is_asked_for_at_every_tile(s: SheetState)
    requires
        s.valid(),
    ensures
        s.kind == SheetKind::Mutations && s.action() is Keep ==> s.after(SheetEvent::Done).action()
            == SheetAction::Ask,
        s.kind == SheetKind::Sweep && s.action() is Draw && s.action()->index + 1 < s.total
            ==> s.after(SheetEvent::Done).action() == SheetAction::Ask,
        s.kind == SheetKind::Sweep && s.action() == SheetAction::Ask ==> s.after(
            SheetEvent::Done,
        ).action() is Fill,
        s.kind == SheetKind::Mutations && s.action() == SheetAction::Ask && s.stage->Asking_0 + 1
            < s.total ==> s.after(SheetEvent::Done).action() == SheetAction::Fill(
            (s.stage->Asking_0 + 1) as u32,
        ),
        s.kind == SheetKind::Mutations && s.action() == SheetAction::Ask && s.stage->Asking_0 + 1
            == s.total ==> s.after(SheetEvent::Done).action() == SheetAction::Save,
{
}

/// A fill that was cut short is drawn all the same, and the sheet is then a
/// partial one to its end.
pub proof fn a_cut_fill_is_drawn(s: SheetState, events: Seq<SheetEvent>)
    requires
        s.valid(),
        s.action() is Fill,
    ensures
        s.after(SheetEvent::Stop).action() is Draw,
        s.after(SheetEvent::Stop).outcome == Outcome::Partial,
        sheet_run(s.after(SheetEvent::Stop), events).outcome == Outcome::Partial,
    decreases events.len(),
{
    if events.len() > 0 {
        a_cut_fill_is_drawn(s, events.drop_last());
    }
}

/// The first tile is the scene itself, and every other one is rolled by a seed
/// of its own: the sheet's and its number.
pub proof fn a_variant_has_the_sheets_seed_and_its_number(i: int, seed: int)
    requires
        0 <= i <= u32::MAX,
        0 <= seed <= u64::MAX,
    ensures
        tile_of(0, seed) == SheetTile::Scene,
        i > 0 ==> tile_of(i, seed) is Variant && tile_of(i, seed)->index == i,
        i > 0 && seed + i <= u64::MAX ==> tile_of(i, seed)->seed == seed + i,
        i > 0 && seed + i > u64::MAX ==> tile_of(i, seed)->seed == seed + i - u64::MAX - 1,
{
}

} // verus!
