//! The order of work when a tile store is copied into a fresh one.
//!
//! Reading and writing the stores is the caller's part. The caller asks the
//! job for its command, carries it out, and tells the job what came of it; the
//! job decides what is done next, and with which step a failed copy is
//! reported.

use vstd::prelude::*;

verus! {

/// One unit of work on the stores.
#[derive(Debug, Clone, Copy, PartialEq, Eq, Structural)]
pub enum CopyStep {
    /// Create the metadata table and the tile table in the destination.
    CreateSchema,
    /// Open the transaction that holds every insert.
    BeginTransaction,
    /// Fetch the next metadata pair of the source.
    ReadMetadata,
    /// Insert the pair just fetched.
    WriteMetadata,
    /// Fetch the next tile of the source, in (zoom, column, row) order.
    ReadTile,
    /// Insert the tile just fetched.
    WriteTile,
    /// Commit the transaction.
    Commit,
}

/// A copy that failed, with the step that failed.
#[derive(Debug, Clone, Copy, PartialEq, Eq, Structural)]
pub struct CopyError {
    pub step: CopyStep,
}

/// What the caller is to do next.
#[derive(Debug, Clone, Copy, PartialEq, Eq, Structural)]
pub enum CopyCommand {
    /// Carry out this step and report its outcome.
    Perform(CopyStep),
    /// Roll the transaction back and report when that is over.
    Rollback,
    /// Nothing is left to do.
    Stop,
}

/// What came of a command.
#[derive(Debug, Clone, Copy, PartialEq, Eq, Structural)]
pub enum StepOutcome {
    /// The schema was created, the transaction begun or committed, or the
    /// row inserted; or the rollback is over.
    Done,
    /// A row was fetched.
    Row,
    /// The source has no further row of this kind.
    NoMoreRows,
    /// The step failed.
    Failed,
}

/// Where a copy stands.
#[derive(Debug, Clone, Copy, PartialEq, Eq, Structural)]
pub enum CopyPhase {
    /// The outcome of this step is awaited.
    Doing(CopyStep),
    /// This step failed inside the transaction, which is being rolled back.
    Undoing(CopyStep),
    /// Every row was inserted and the transaction committed.
    Succeeded,
    /// The copy failed at this step; nothing was committed.
    Failed(CopyStep),
}

impl CopyStep {
    /// The step is done inside the transaction, so its failure calls for a
    /// rollback.
    pub open spec fn in_transaction(self) -> bool {
        self != CopyStep::CreateSchema && self != CopyStep::BeginTransaction
    }

    /// The step that follows this one when it gives `outcome`, or `None`
    /// where the outcome is a failure, or one that the step cannot have.
    pub open spec fn successor(self, outcome: StepOutcome) -> Option<CopyPhase> {
        match (self, outcome) {
            (CopyStep::CreateSchema, StepOutcome::Done) => Some(
                CopyPhase::Doing(CopyStep::BeginTransaction),
            ),
            (CopyStep::BeginTransaction, StepOutcome::Done) => Some(
                CopyPhase::Doing(CopyStep::ReadMetadata),
            ),
            (CopyStep::ReadMetadata, StepOutcome::Row) => Some(
                CopyPhase::Doing(CopyStep::WriteMetadata),
            ),
            (CopyStep::ReadMetadata, StepOutcome::NoMoreRows) => Some(
                CopyPhase::Doing(CopyStep::ReadTile),
            ),
            (CopyStep::WriteMetadata, StepOutcome::Done) => Some(
                CopyPhase::Doing(CopyStep::ReadMetadata),
            ),
            (CopyStep::ReadTile, StepOutcome::Row) => Some(CopyPhase::Doing(CopyStep::WriteTile)),
            (CopyStep::ReadTile, StepOutcome::NoMoreRows) => Some(
                CopyPhase::Doing(CopyStep::Commit),
            ),
            (CopyStep::WriteTile, StepOutcome::Done) => Some(CopyPhase::Doing(CopyStep::ReadTile)),
            (CopyStep::Commit, StepOutcome::Done) => Some(CopyPhase::Succeeded),
            _ => None,
        }
    }
}

impl CopyPhase {
    /// What the caller is to do in this phase.
    pub open spec fn command(self) -> CopyCommand {
        match self {
            CopyPhase::Doing(step) => CopyCommand::Perform(step),
            CopyPhase::Undoing(_) => CopyCommand::Rollback,
            CopyPhase::Succeeded => CopyCommand::Stop,
            CopyPhase::Failed(_) => CopyCommand::Stop,
        }
    }

    /// The phase that follows when the command of this phase gives `outcome`.
    /// A step that does not succeed ends the copy: at once where no
    /// transaction is open yet, after a rollback otherwise. Whatever comes of
    /// the rollback, the copy has then failed at the step that failed first.
    pub open spec fn next(self, outcome: StepOutcome) -> CopyPhase {
        match self {
            CopyPhase::Doing(step) => match step.successor(outcome) {
                Some(phase) => phase,
                None => if step.in_transaction() {
                    CopyPhase::Undoing(step)
                } else {
                    CopyPhase::Failed(step)
                },
            },
            CopyPhase::Undoing(step) => CopyPhase::Failed(step),
            CopyPhase::Succeeded => CopyPhase::Succeeded,
            CopyPhase::Failed(step) => CopyPhase::Failed(step),
        }
    }

    /// How the copy ended, or `None` while it is under way.
    pub open spec fn result(self) -> Option<Result<(), CopyError>> {
        match self {
            CopyPhase::Succeeded => Some(Ok(())),
            CopyPhase::Failed(step) => Some(Err(CopyError { step })),
            _ => None,
        }
    }
}

/// A copy under way.
pub struct CopyJob {
    phase: CopyPhase,
}

impl CopyJob {
    /// Where the copy stands.
    pub closed spec fn view(&self) -> CopyPhase {
        self.phase
    }

    /// A copy of which nothing is done yet: its first command is to create
    /// the schema.
    pub fn new() -> (job: CopyJob)
        ensures
            job@ == CopyPhase::Doing(CopyStep::CreateSchema),
    {
        CopyJob { phase: CopyPhase::Doing(CopyStep::CreateSchema) }
    }

    /// What the caller is to do next.
    pub fn command(&self) -> (command: CopyCommand)
        ensures
            command == self@.command(),
    {
        match self.phase {
            CopyPhase::Doing(step) => CopyCommand::Perform(step),
            CopyPhase::Undoing(_) => CopyCommand::Rollback,
            CopyPhase::Succeeded => CopyCommand::Stop,
            CopyPhase::Failed(_) => CopyCommand::Stop,
        }
    }

    /// Takes note of what came of the last command.
    pub fn advance(&mut self, outcome: StepOutcome)
        ensures
            final(self)@ == old(self)@.next(outcome),
    {
        let next = match self.phase {
            CopyPhase::Doing(step) => {
                let on_failure = match step {
                    CopyStep::CreateSchema => CopyPhase::Failed(step),
                    CopyStep::BeginTransaction => CopyPhase::Failed(step),
                    _ => CopyPhase::Undoing(step),
                };
                match step {
                    CopyStep::CreateSchema => match outcome {
                        StepOutcome::Done => CopyPhase::Doing(CopyStep::BeginTransaction),
                        _ => on_failure,
                    },
                    CopyStep::BeginTransaction => match outcome {
                        StepOutcome::Done => CopyPhase::Doing(CopyStep::ReadMetadata),
                        _ => on_failure,
                    },
                    CopyStep::ReadMetadata => match outcome {
                        StepOutcome::Row => CopyPhase::Doing(CopyStep::WriteMetadata),
                        StepOutcome::NoMoreRows => CopyPhase::Doing(CopyStep::ReadTile),
                        _ => on_failure,
                    },
                    CopyStep::WriteMetadata => match outcome {
                        StepOutcome::Done => CopyPhase::Doing(CopyStep::ReadMetadata),
                        _ => on_failure,
                    },
                    CopyStep::ReadTile => match outcome {
                        StepOutcome::Row => CopyPhase::Doing(CopyStep::WriteTile),
                        StepOutcome::NoMoreRows => CopyPhase::Doing(CopyStep::Commit),
                        _ => on_failure,
                    },
                    CopyStep::WriteTile => match outcome {
                        StepOutcome::Done => CopyPhase::Doing(CopyStep::ReadTile),
                        _ => on_failure,
                    },
                    CopyStep::Commit => match outcome {
                        StepOutcome::Done => CopyPhase::Succeeded,
                        _ => on_failure,
                    },
                }
            },
            CopyPhase::Undoing(step) => CopyPhase::Failed(step),
            CopyPhase::Succeeded => CopyPhase::Succeeded,
            CopyPhase::Failed(step) => CopyPhase::Failed(step),
        };
        self.phase = next;
    }

    /// How the copy ended: `None` while a command is outstanding, `Ok` once
    /// the transaction is committed, and otherwise the step that failed.
    pub fn result(&self) -> (result: Option<Result<(), CopyError>>)
        ensures
            result == self@.result(),
    {
        match self.phase {
            CopyPhase::Succeeded => Some(Ok(())),
            CopyPhase::Failed(step) => Some(Err(CopyError { step })),
            _ => None,
        }
    }
}

} // verus!
