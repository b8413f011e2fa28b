//! What a copy leaves in the destination, shown on a model of the two stores:
//! all rows of the source in their order where it succeeds, and no committed
//! row where it does not.

use crate::copy::{CopyCommand, CopyPhase, CopyStep, StepOutcome};
use vstd::prelude::*;

verus! {

/// One metadata pair.
pub struct MetadataPair {
    pub name: Seq<char>,
    pub value: Seq<char>,
}

/// One stored tile.
pub struct TileRecord {
    pub zoom: int,
    pub column: int,
    pub row: int,
    pub data: Seq<u8>,
}

/// The rows of a store: its metadata pairs in stored order, and its tiles in
/// the order in which a copy fetches them, by (zoom, column, row).
pub struct StoreContents {
    pub metadata: Seq<MetadataPair>,
    pub tiles: Seq<TileRecord>,
}

impl StoreContents {
    pub open spec fn empty() -> StoreContents {
        StoreContents { metadata: Seq::empty(), tiles: Seq::empty() }
    }
}

/// The two stores while a copy runs.
pub struct CopyWorld {
    /// What the source holds.
    pub source: StoreContents,
    /// How many metadata pairs have been fetched.
    pub metadata_read: nat,
    /// How many tiles have been fetched.
    pub tiles_read: nat,
    /// A transaction is open on the destination.
    pub in_transaction: bool,
    /// The rows inserted by the open transaction.
    pub staged: StoreContents,
    /// The rows that a reader of the destination finds.
    pub committed: StoreContents,
}

/// A source holding `source`, read from its start, and a destination without
/// rows.
pub open spec fn fresh_world(source: StoreContents) -> CopyWorld {
    CopyWorld {
        source,
        metadata_read: 0,
        tiles_read: 0,
        in_transaction: false,
        staged: StoreContents::empty(),
        committed: StoreContents::empty(),
    }
}

impl CopyWorld {
    /// The stores can answer `command` with `outcome`. Any step may fail. A
    /// fetch gives a row exactly while rows are left.
    pub open spec fn allows(self, command: CopyCommand, outcome: StepOutcome) -> bool {
        match command {
            CopyCommand::Perform(CopyStep::ReadMetadata) => match outcome {
                StepOutcome::Row => self.metadata_read < self.source.metadata.len(),
                StepOutcome::NoMoreRows => self.metadata_read >= self.source.metadata.len(),
                StepOutcome::Failed => true,
                StepOutcome::Done => false,
            },
            CopyCommand::Perform(CopyStep::ReadTile) => match outcome {
                StepOutcome::Row => self.tiles_read < self.source.tiles.len(),
                StepOutcome::NoMoreRows => self.tiles_read >= self.source.tiles.len(),
                StepOutcome::Failed => true,
                StepOutcome::Done => false,
            },
            CopyCommand::Perform(_) => outcome == StepOutcome::Done || outcome
                == StepOutcome::Failed,
            CopyCommand::Rollback => outcome == StepOutcome::Done || outcome == StepOutcome::Failed,
            CopyCommand::Stop => false,
        }
    }

    /// The stores after `command` gave `outcome`. A step that failed changed
    /// nothing. An insert stages the row fetched last; a commit makes the
    /// staged rows the destination's; a rollback drops them.
    pub open spec fn after(self, command: CopyCommand, outcome: StepOutcome) -> CopyWorld {
        match (command, outcome) {
            (CopyCommand::Perform(CopyStep::BeginTransaction), StepOutcome::Done) => CopyWorld {
                in_transaction: true,
                ..self
            },
            (CopyCommand::Perform(CopyStep::ReadMetadata), StepOutcome::Row) => CopyWorld {
                metadata_read: self.metadata_read + 1,
                ..self
            },
            (CopyCommand::Perform(CopyStep::WriteMetadata), StepOutcome::Done) => CopyWorld {
                staged: StoreContents {
                    metadata: self.staged.metadata.push(
                        self.source.metadata[self.metadata_read - 1],
                    ),
                    ..self.staged
                },
                ..self
            },
            (CopyCommand::Perform(CopyStep::ReadTile), StepOutcome::Row) => CopyWorld {
                tiles_read: self.tiles_read + 1,
                ..self
            },
            (CopyCommand::Perform(CopyStep::WriteTile), StepOutcome::Done) => CopyWorld {
                staged: StoreContents {
                    tiles: self.staged.tiles.push(self.source.tiles[self.tiles_read - 1]),
                    ..self.staged
                },
                ..self
            },
            (CopyCommand::Perform(CopyStep::Commit), StepOutcome::Done) => CopyWorld {
                in_transaction: false,
                staged: StoreContents::empty(),
                committed: StoreContents {
                    metadata: self.committed.metadata + self.staged.metadata,
                    tiles: self.committed.tiles + self.staged.tiles,
                },
                ..self
            },
            (CopyCommand::Rollback, StepOutcome::Done) => CopyWorld {
                in_transaction: false,
                staged: StoreContents::empty(),
                ..self
            },
            _ => self,
        }
    }
}

/// Phase and stores after the job, begun in `phase` with the stores in
/// `world`, was told `outcomes` one after the other.
pub open spec fn run(phase: CopyPhase, world: CopyWorld, outcomes: Seq<StepOutcome>) -> (
    CopyPhase,
    CopyWorld,
)
    decreases outcomes.len(),
{
    if outcomes.len() == 0 {
        (phase, world)
    } else {
        let (before, stores) = run(phase, world, outcomes.drop_last());
        (before.next(outcomes.last()), stores.after(before.command(), outcomes.last()))
    }
}

/// Each of `outcomes` is one that the stores could give at its turn.
pub open spec fn feasible(phase: CopyPhase, world: CopyWorld, outcomes: Seq<StepOutcome>) -> bool
    decreases outcomes.len(),
{
    outcomes.len() == 0 || {
        let (before, stores) = run(phase, world, outcomes.drop_last());
        feasible(phase, world, outcomes.drop_last()) && stores.allows(
            before.command(),
            outcomes.last(),
        )
    }
}

/// The phase in which every copy begins.
pub open spec fn first_phase() -> CopyPhase {
    CopyPhase::Doing(CopyStep::CreateSchema)
}

/// What ties the phase of a copy to the stores.
pub open spec fn consistent(phase: CopyPhase, world: CopyWorld) -> bool {
    let source = world.source;
    match phase {
        CopyPhase::Doing(CopyStep::CreateSchema) | CopyPhase::Doing(CopyStep::BeginTransaction) => {
            &&& world.committed == StoreContents::empty()
            &&& world.staged == StoreContents::empty()
            &&& !world.in_transaction
            &&& world.metadata_read == 0
            &&& world.tiles_read == 0
        },
        CopyPhase::Doing(CopyStep::ReadMetadata) => {
            &&& world.committed == StoreContents::empty()
            &&& world.in_transaction
            &&& world.metadata_read <= source.metadata.len()
            &&& world.staged.metadata == source.metadata.take(world.metadata_read as int)
            &&& world.staged.tiles == Seq::<TileRecord>::empty()
            &&& world.tiles_read == 0
        },
        CopyPhase::Doing(CopyStep::WriteMetadata) => {
            &&& world.committed == StoreContents::empty()
            &&& world.in_transaction
            &&& 1 <= world.metadata_read <= source.metadata.len()
            &&& world.staged.metadata == source.metadata.take(world.metadata_read - 1)
            &&& world.staged.tiles == Seq::<TileRecord>::empty()
            &&& world.tiles_read == 0
        },
        CopyPhase::Doing(CopyStep::ReadTile) => {
            &&& world.committed == StoreContents::empty()
            &&& world.in_transaction
            &&& world.staged.metadata == source.metadata
            &&& world.tiles_read <= source.tiles.len()
            &&& world.staged.tiles == source.tiles.take(world.tiles_read as int)
        },
        CopyPhase::Doing(CopyStep::WriteTile) => {
            &&& world.committed == StoreContents::empty()
            &&& world.in_transaction
            &&& world.staged.metadata == source.metadata
            &&& 1 <= world.tiles_read <= source.tiles.len()
            &&& world.staged.tiles == source.tiles.take(world.tiles_read - 1)
        },
        CopyPhase::Doing(CopyStep::Commit) => {
            &&& world.committed == StoreContents::empty()
            &&& world.in_transaction
            &&& world.staged == source
        },
        CopyPhase::Undoing(_) => world.committed == StoreContents::empty(),
        CopyPhase::Failed(_) => world.committed == StoreContents::empty(),
        CopyPhase::Succeeded => {
            &&& world.committed == source
            &&& world.staged == StoreContents::empty()
            &&& !world.in_transaction
        },
    }
}

/// One exchange of command and outcome keeps phase and stores tied.
pub proof fn lemma_step_stays_consistent(phase: CopyPhase, world: CopyWorld, outcome: StepOutcome)
    requires
        consistent(phase, world),
        world.allows(phase.command(), outcome),
    ensures
        consistent(phase.next(outcome), world.after(phase.command(), outcome)),
{
    let source = world.source;
    let next = world.after(phase.command(), outcome);
    match phase {
        CopyPhase::Doing(CopyStep::WriteMetadata) => {
            if outcome == StepOutcome::Done {
                let n = world.metadata_read as int;
                assert(source.metadata.take(n - 1).push(source.metadata[n - 1])
                    =~= source.metadata.take(n));
            }
        },
        CopyPhase::Doing(CopyStep::WriteTile) => {
            if outcome == StepOutcome::Done {
                let n = world.tiles_read as int;
                assert(source.tiles.take(n - 1).push(source.tiles[n - 1]) =~= source.tiles.take(n));
            }
        },
        CopyPhase::Doing(CopyStep::ReadMetadata) => {
            if outcome == StepOutcome::NoMoreRows {
                assert(source.metadata.take(world.metadata_read as int) =~= source.metadata);
                assert(source.tiles.take(0) =~= Seq::<TileRecord>::empty());
            }
        },
        CopyPhase::Doing(CopyStep::ReadTile) => {
            if outcome == StepOutcome::NoMoreRows {
                assert(source.tiles.take(world.tiles_read as int) =~= source.tiles);
            }
        },
        CopyPhase::Doing(CopyStep::BeginTransaction) => {
            if outcome == StepOutcome::Done {
                assert(source.metadata.take(0) =~= Seq::<MetadataPair>::empty());
            }
        },
        CopyPhase::Doing(CopyStep::Commit) => {
            if outcome == StepOutcome::Done {
                assert(Seq::<MetadataPair>::empty() + source.metadata =~= source.metadata);
                assert(Seq::<TileRecord>::empty() + source.tiles =~= source.tiles);
            }
        },
        _ => {},
    }
}

/// However a copy into a store without rows goes, phase and stores stay tied.
pub proof fn lemma_run_stays_consistent(source: StoreContents, outcomes: Seq<StepOutcome>)
    requires
        feasible(first_phase(), fresh_world(source), outcomes),
    ensures
        consistent(
            run(first_phase(), fresh_world(source), outcomes).0,
            run(first_phase(), fresh_world(source), outcomes).1,
        ),
        run(first_phase(), fresh_world(source), outcomes).1.source == source,
    decreases outcomes.len(),
{
    if outcomes.len() > 0 {
        lemma_run_stays_consistent(source, outcomes.drop_last());
        let (before, stores) = run(first_phase(), fresh_world(source), outcomes.drop_last());
        lemma_step_stays_consistent(before, stores, outcomes.last());
    }
}

/// A copy that succeeded left in the destination the metadata pairs and the
/// tiles of the source, each in the source's order, and nothing else. This
/// holds of a source without rows too.
pub proof fn lemma_successful_copy_is_exact(source: StoreContents, outcomes: Seq<StepOutcome>)
    requires
        feasible(first_phase(), fresh_world(source), outcomes),
        run(first_phase(), fresh_world(source), outcomes).0 == CopyPhase::Succeeded,
    ensures
        run(first_phase(), fresh_world(source), outcomes).1.committed == source,
{
    lemma_run_stays_consistent(source, outcomes);
}

/// Until a copy has succeeded the destination holds no committed row:
/// whichever step fails, after however many inserts, and also while the
/// copy is still under way.
pub proof fn lemma_unfinished_copy_commits_nothing(
    source: StoreContents,
    outcomes: Seq<StepOutcome>,
)
    requires
        feasible(first_phase(), fresh_world(source), outcomes),
        run(first_phase(), fresh_world(source), outcomes).0 != CopyPhase::Succeeded,
    ensures
        run(first_phase(), fresh_world(source), outcomes).1.committed == StoreContents::empty(),
{
    lemma_run_stays_consistent(source, outcomes);
}

/// A step that does not succeed ends the copy with an error that names it:
/// at once before the transaction is open, and after one rollback, whatever
/// comes of that, once it is.
pub proof fn lemma_failure_names_its_step(step: CopyStep, outcome: StepOutcome, rollback: StepOutcome)
    requires
        step.successor(outcome) is None,
    ensures
        !step.in_transaction() ==> CopyPhase::Doing(step).next(outcome) == CopyPhase::Failed(step),
        step.in_transaction() ==> CopyPhase::Doing(step).next(outcome).command()
            == CopyCommand::Rollback,
        step.in_transaction() ==> CopyPhase::Doing(step).next(outcome).next(rollback)
            == CopyPhase::Failed(step),
{
}

/// The outcomes up to the fetch of metadata pair `n`, in a copy in which no
/// step fails: schema and transaction, then a fetch and an insert for each of
/// the first `n` pairs.
pub open spec fn faultless_metadata(n: nat) -> Seq<StepOutcome>
    decreases n,
{
    if n == 0 {
        seq![StepOutcome::Done, StepOutcome::Done]
    } else {
        faultless_metadata((n - 1) as nat).push(StepOutcome::Row).push(StepOutcome::Done)
    }
}

/// The outcomes up to the fetch of tile `n`, in a copy in which no step
/// fails and the source has `pairs` metadata pairs.
pub open spec fn faultless_tiles(pairs: nat, n: nat) -> Seq<StepOutcome>
    decreases n,
{
    if n == 0 {
        faultless_metadata(pairs).push(StepOutcome::NoMoreRows)
    } else {
        faultless_tiles(pairs, (n - 1) as nat).push(StepOutcome::Row).push(StepOutcome::Done)
    }
}

/// The outcomes of a whole copy of `source` in which no step fails.
pub open spec fn faultless_outcomes(source: StoreContents) -> Seq<StepOutcome> {
    faultless_tiles(source.metadata.len(), source.tiles.len()).push(StepOutcome::NoMoreRows).push(
        StepOutcome::Done,
    )
}

proof fn lemma_run_push(
    phase: CopyPhase,
    world: CopyWorld,
    outcomes: Seq<StepOutcome>,
    outcome: StepOutcome,
)
    ensures
        run(phase, world, outcomes.push(outcome)) == (
            run(phase, world, outcomes).0.next(outcome),
            run(phase, world, outcomes).1.after(run(phase, world, outcomes).0.command(), outcome),
        ),
        feasible(phase, world, outcomes.push(outcome)) == (feasible(phase, world, outcomes) && run(
            phase,
            world,
            outcomes,
        ).1.allows(run(phase, world, outcomes).0.command(), outcome)),
{
    assert(outcomes.push(outcome).drop_last() =~= outcomes);
}

proof fn lemma_faultless_metadata(source: StoreContents, n: nat)
    requires
        n <= source.metadata.len(),
    ensures
        feasible(first_phase(), fresh_world(source), faultless_metadata(n)),
        run(first_phase(), fresh_world(source), faultless_metadata(n)).0 == CopyPhase::Doing(
            CopyStep::ReadMetadata,
        ),
        run(first_phase(), fresh_world(source), faultless_metadata(n)).1.metadata_read == n,
    decreases n,
{
    let start = first_phase();
    let world = fresh_world(source);
    if n == 0 {
        let none = Seq::<StepOutcome>::empty();
        assert(faultless_metadata(0) =~= none.push(StepOutcome::Done).push(StepOutcome::Done));
        lemma_run_push(start, world, none, StepOutcome::Done);
        lemma_run_push(start, world, none.push(StepOutcome::Done), StepOutcome::Done);
    } else {
        let before = faultless_metadata((n - 1) as nat);
        lemma_faultless_metadata(source, (n - 1) as nat);
        lemma_run_stays_consistent(source, before);
        lemma_run_push(start, world, before, StepOutcome::Row);
        lemma_run_push(start, world, before.push(StepOutcome::Row), StepOutcome::Done);
    }
}

proof fn lemma_faultless_tiles(source: StoreContents, n: nat)
    requires
        n <= source.tiles.len(),
    ensures
        feasible(
            first_phase(),
            fresh_world(source),
            faultless_tiles(source.metadata.len(), n),
        ),
        run(first_phase(), fresh_world(source), faultless_tiles(source.metadata.len(), n)).0
            == CopyPhase::Doing(CopyStep::ReadTile),
        run(
            first_phase(),
            fresh_world(source),
            faultless_tiles(source.metadata.len(), n),
        ).1.tiles_read == n,
    decreases n,
{
    let start = first_phase();
    let world = fresh_world(source);
    let pairs = source.metadata.len();
    if n == 0 {
        lemma_faultless_metadata(source, pairs);
        lemma_run_stays_consistent(source, faultless_metadata(pairs));
        lemma_run_push(start, world, faultless_metadata(pairs), StepOutcome::NoMoreRows);
    } else {
        let before = faultless_tiles(pairs, (n - 1) as nat);
        lemma_faultless_tiles(source, (n - 1) as nat);
        lemma_run_stays_consistent(source, before);
        lemma_run_push(start, world, before, StepOutcome::Row);
        lemma_run_push(start, world, before.push(StepOutcome::Row), StepOutcome::Done);
    }
}

/// A copy in which no step fails succeeds, whatever the source holds, and
/// the destination then holds the source's rows in the source's order.
pub proof fn lemma_faultless_copy_round_trips(source: StoreContents)
    ensures
        feasible(first_phase(), fresh_world(source), faultless_outcomes(source)),
        run(first_phase(), fresh_world(source), faultless_outcomes(source)).0
            == CopyPhase::Succeeded,
        run(first_phase(), fresh_world(source), faultless_outcomes(source)).1.committed == source,
{
    let start = first_phase();
    let world = fresh_world(source);
    let fetched = faultless_tiles(source.metadata.len(), source.tiles.len());
    lemma_faultless_tiles(source, source.tiles.len());
    lemma_run_stays_consistent(source, fetched);
    lemma_run_push(start, world, fetched, StepOutcome::NoMoreRows);
    lemma_run_push(start, world, fetched.push(StepOutcome::NoMoreRows), StepOutcome::Done);
    lemma_successful_copy_is_exact(source, faultless_outcomes(source));
}

} // verus!
