//! The store coordinator's control logic: which subsystem is told what,
//! and in which order.  Commit notifications fan out to the proof manager
//! and the batch generator; shutdown is two-phase — each subsystem is
//! stopped and awaited in a fixed order, and only then is the caller
//! acknowledged.  Channels and awaiting live outside; this is the plan they
//! carry out.

use vstd::prelude::*;

verus! {

/// A batch-protocol timestamp: an epoch and a round within it.
#[derive(Clone, Copy, PartialEq, Eq, Structural, Debug)]
pub struct LogicalTime {
    pub epoch: u64,
    pub round: u64,
}

/// What the coordinator is asked to do.
pub enum CoordinatorCommand {
    /// Digests up to this time are committed.
    CommitNotification(LogicalTime, Vec<u64>),
    /// Stop every subsystem, then acknowledge.
    Shutdown,
}

/// One directive of the coordinator's plan, carried out in order; each
/// shutdown directive is awaited before the next is issued.
pub enum CoordinatorStep {
    ForwardCommitToProofManager(LogicalTime, Vec<u64>),
    ForwardCommitToBatchGenerator(LogicalTime),
    ShutdownBatchStore,
    ShutdownProofCoordinator,
    ShutdownNetworkListener(usize),
    AckShutdown,
}

/// The store coordinator: the local identity and how many network
/// listeners answer to it.
pub struct QuorumStoreCoordinator {
    pub my_peer_id: u64,
    pub num_network_listeners: usize,
}

impl QuorumStoreCoordinator {
    /// A coordinator for this validator over the given listeners.
    pub fn new(my_peer_id: u64, num_network_listeners: usize) -> (r: QuorumStoreCoordinator)
        ensures
            r.my_peer_id == my_peer_id,
            r.num_network_listeners == num_network_listeners,
    {
        QuorumStoreCoordinator { my_peer_id, num_network_listeners }
    }

    /// The plan for one command.  A commit notification is forwarded to the
    /// proof manager and then to the batch generator.  Shutdown stops the
    /// batch store, then the proof coordinator, then each network listener
    /// in turn, and acknowledges the caller last, so the acknowledgment
    /// means every subsystem has stopped.
    pub fn handle_command(&self, command: CoordinatorCommand) -> (r: Vec<CoordinatorStep>)
        ensures
            match command {
                CoordinatorCommand::CommitNotification(logical_time, digests) => {
                    &&& r@.len() == 2
                    &&& (r@[0] matches CoordinatorStep::ForwardCommitToProofManager(lt, ds) && lt
                        == logical_time && ds@ == digests@)
                    &&& r@[1] == CoordinatorStep::ForwardCommitToBatchGenerator(logical_time)
                },
                CoordinatorCommand::Shutdown => {
                    &&& r@.len() == self.num_network_listeners + 3
                    &&& r@[0] == CoordinatorStep::ShutdownBatchStore
                    &&& r@[1] == CoordinatorStep::ShutdownProofCoordinator
                    &&& forall|i: int|
                        0 <= i < self.num_network_listeners ==> #[trigger] r@[2 + i]
                            == CoordinatorStep::ShutdownNetworkListener(i as usize)
                    &&& r@[r@.len() - 1] == CoordinatorStep::AckShutdown
                },
            },
    {
        let mut steps: Vec<CoordinatorStep> = Vec::new();
        match command {
            CoordinatorCommand::CommitNotification(logical_time, digests) => {
                steps.push(CoordinatorStep::ForwardCommitToProofManager(logical_time, digests));
                steps.push(CoordinatorStep::ForwardCommitToBatchGenerator(logical_time));
            },
            CoordinatorCommand::Shutdown => {
                steps.push(CoordinatorStep::ShutdownBatchStore);
                steps.push(CoordinatorStep::ShutdownProofCoordinator);
                let n = self.num_network_listeners;
                let mut i: usize = 0;
                while i < n
                    invariant
                        i <= n,
                        steps@.len() == i + 2,
                        steps@[0] == CoordinatorStep::ShutdownBatchStore,
                        steps@[1] == CoordinatorStep::ShutdownProofCoordinator,
                        forall|j: int|
                            0 <= j < i ==> #[trigger] steps@[2 + j]
                                == CoordinatorStep::ShutdownNetworkListener(j as usize),
                    decreases n - i,
                {
                    steps.push(CoordinatorStep::ShutdownNetworkListener(i));
                    i = i + 1;
                }
                steps.push(CoordinatorStep::AckShutdown);
            },
        }
        steps
    }
}

} // verus!
