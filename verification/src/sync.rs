//! The sync controller's decision logic: a state machine that owns a
//! pipeline and drives it between idle and running as fork-choice
//! messages arrive.
//!
//! The controller itself never blocks: a driver loop performs the
//! returned action (starting or polling the pipeline future, parking the
//! task) and feeds the next event back in.

use crate::types::H256;
use vstd::prelude::*;

verus! {

/// The fork-choice targets a consensus update carries.
#[derive(Clone, Copy, Debug, PartialEq, Eq, Structural)]
pub struct ForkchoiceState {
    /// The new head block hash.
    pub head_block_hash: H256,
    /// The latest safe block hash.
    pub safe_block_hash: H256,
    /// The latest finalized block hash.
    pub finalized_block_hash: H256,
}

/// A block handed to the controller by a new-payload message.
#[derive(Clone, Copy, Debug, PartialEq, Eq, Structural)]
pub struct SealedBlock {
    /// The block's number.
    pub number: u64,
    /// The block's hash.
    pub hash: H256,
}

/// A control message for the sync controller.
#[derive(Clone, Copy, Debug, PartialEq, Eq, Structural)]
pub enum SyncControllerMessage {
    /// New head, safe and finalized targets.
    ForkchoiceUpdated(ForkchoiceState),
    /// A new payload to hand to the blockchain tree once the pipeline has
    /// nearly caught up.
    NewPayload(SealedBlock),
}

/// Whether the controller's single pipeline is idle or running. The
/// pipeline value itself lives with the driver; the controller tracks
/// only which state it is in.
#[derive(Clone, Copy, Debug, PartialEq, Eq, Structural)]
pub enum PipelineState {
    /// The pipeline is held, not running.
    Idle,
    /// The pipeline future is in flight.
    Running,
}

/// What the driver must do after one step of the state machine.
#[derive(Clone, Copy, Debug, PartialEq, Eq, Structural)]
pub enum SyncAction {
    /// Start the pipeline future (it was idle, and sync is needed).
    StartPipeline,
    /// Keep polling the running pipeline future.
    PollPipeline,
    /// Nothing to drive: park until a message arrives.
    Park,
}

/// The sync controller's state.
#[derive(Clone, Copy, Debug, PartialEq, Eq, Structural)]
pub struct SyncController {
    /// The most recent fork-choice targets, absent before the first
    /// update arrives.
    pub forkchoice_state: Option<ForkchoiceState>,
    /// Which state the pipeline is in.
    pub pipeline_state: PipelineState,
}

impl SyncController {
    /// A fresh controller: no fork-choice yet, pipeline idle.
    pub fn new() -> (r: SyncController)
        ensures
            r.forkchoice_state is None,
            r.pipeline_state == PipelineState::Idle,
    {
        SyncController { forkchoice_state: None, pipeline_state: PipelineState::Idle }
    }

    /// Record one control message. A fork-choice update replaces the
    /// targets; a new payload leaves the controller's state alone (the
    /// driver hands the block to the blockchain tree).
    pub fn on_message(&mut self, msg: SyncControllerMessage)
        ensures
            final(self).pipeline_state == old(self).pipeline_state,
            (msg matches SyncControllerMessage::ForkchoiceUpdated(st)
                ==> final(self).forkchoice_state == Some(st)),
            (msg matches SyncControllerMessage::NewPayload(_) ==> final(self).forkchoice_state
                == old(self).forkchoice_state),
    {
        match msg {
            SyncControllerMessage::ForkchoiceUpdated(st) => {
                self.forkchoice_state = Some(st);
            },
            SyncControllerMessage::NewPayload(_) => {},
        }
    }

    /// The next pipeline state, given whether a running pipeline future
    /// has completed and whether sync is still needed: an idle pipeline
    /// starts when sync is needed; a completed run re-enters running
    /// when sync is still needed, else goes idle; a pending future keeps
    /// running.
    pub fn next_pipeline_state(
        &mut self,
        pipeline_completed: bool,
        sync_needed: bool,
    ) -> (action: SyncAction)
        ensures
            final(self).forkchoice_state == old(self).forkchoice_state,
            final(self).pipeline_state == match old(self).pipeline_state {
                PipelineState::Running => if pipeline_completed {
                    if sync_needed {
                        PipelineState::Running
                    } else {
                        PipelineState::Idle
                    }
                } else {
                    PipelineState::Running
                },
                PipelineState::Idle => if sync_needed {
                    PipelineState::Running
                } else {
                    PipelineState::Idle
                },
            },
            action == match old(self).pipeline_state {
                PipelineState::Running => if pipeline_completed {
                    if sync_needed {
                        SyncAction::StartPipeline
                    } else {
                        SyncAction::Park
                    }
                } else {
                    SyncAction::PollPipeline
                },
                PipelineState::Idle => if sync_needed {
                    SyncAction::StartPipeline
                } else {
                    SyncAction::Park
                },
            },
    {
        match self.pipeline_state {
            PipelineState::Running => {
                if pipeline_completed {
                    if sync_needed {
                        self.pipeline_state = PipelineState::Running;
                        SyncAction::StartPipeline
                    } else {
                        self.pipeline_state = PipelineState::Idle;
                        SyncAction::Park
                    }
                } else {
                    SyncAction::PollPipeline
                }
            },
            PipelineState::Idle => {
                if sync_needed {
                    self.pipeline_state = PipelineState::Running;
                    SyncAction::StartPipeline
                } else {
                    SyncAction::Park
                }
            },
        }
    }

    /// One wake of the controller: drain the pending messages, then
    /// advance the pipeline state machine once. Before any fork-choice
    /// has been received the controller parks and does not start the
    /// pipeline.
    pub fn poll(
        &mut self,
        messages: &Vec<SyncControllerMessage>,
        pipeline_completed: bool,
        sync_needed: bool,
    ) -> (action: SyncAction)
        ensures
            final(self).forkchoice_state == poll_forkchoice(
                old(self).forkchoice_state,
                messages@,
            ),
            (poll_forkchoice(old(self).forkchoice_state, messages@) is None ==> action
                == SyncAction::Park && final(self).pipeline_state == old(self).pipeline_state),
            (poll_forkchoice(old(self).forkchoice_state, messages@) is Some
                ==> final(self).pipeline_state == match old(self).pipeline_state {
                PipelineState::Running => if pipeline_completed {
                    if sync_needed {
                        PipelineState::Running
                    } else {
                        PipelineState::Idle
                    }
                } else {
                    PipelineState::Running
                },
                PipelineState::Idle => if sync_needed {
                    PipelineState::Running
                } else {
                    PipelineState::Idle
                },
            }),
    {
        let n = messages.len();
        let mut i: usize = 0;
        while i < n
            invariant
                n == messages@.len(),
                i <= n,
                self.pipeline_state == old(self).pipeline_state,
                self.forkchoice_state == poll_forkchoice(
                    old(self).forkchoice_state,
                    messages@.take(i as int),
                ),
            decreases n - i,
        {
            self.on_message(messages[i]);
            proof {
                assert(messages@.take(i + 1).drop_last() =~= messages@.take(i as int));
            }
            i = i + 1;
        }
        proof {
            assert(messages@.take(n as int) =~= messages@);
        }
        let has_forkchoice = match self.forkchoice_state {
            Some(_) => true,
            None => false,
        };
        if !has_forkchoice {
            return SyncAction::Park;
        }
        self.next_pipeline_state(pipeline_completed, sync_needed)
    }
}

/// The fork-choice targets left after draining a message queue: the last
/// update wins; payloads change nothing.
pub open spec fn poll_forkchoice(
    start: Option<ForkchoiceState>,
    msgs: Seq<SyncControllerMessage>,
) -> Option<ForkchoiceState>
    decreases msgs.len(),
{
    if msgs.len() == 0 {
        start
    } else {
        match msgs.last() {
            SyncControllerMessage::ForkchoiceUpdated(st) => Some(st),
            SyncControllerMessage::NewPayload(_) => poll_forkchoice(start, msgs.drop_last()),
        }
    }
}

} // verus!
