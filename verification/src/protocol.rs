use vstd::prelude::*;
use crate::engine::{batch_alerts, evaluate};
use crate::models::{
    entries_view, rules_view, ExecMode, MasterMessage, Metrics, WorkerMessage,
};

verus! {

/// Where a worker stands in the protocol conversation.
#[derive(Clone, Copy, PartialEq, Eq, Structural, Debug)]
pub enum WorkerPhase {
    /// Nothing received yet: the rule set must arrive before any chunk.
    AwaitingRules,
    /// Rules are in hand; chunks may arrive; analysis may start.
    Ready,
    /// The analysis result has been emitted; only Shutdown is expected.
    Finished,
    /// Terminal: no further result will ever be emitted.
    ShutDown,
}

/// The worker half of the protocol, as an explicit state machine: a worker
/// must receive `Rules` before any `LogChunk`, must not evaluate before
/// `StartAnalysis`, and must not emit an `AnalysisResult` after `Shutdown`.
pub struct WorkerSm {
    pub phase: WorkerPhase,
    pub rules: Vec<crate::models::Rule>,
    pub chunks: Vec<crate::models::LogEntry>,
}

impl WorkerSm {
    pub fn new() -> (sm: WorkerSm)
        ensures
            sm.phase == WorkerPhase::AwaitingRules,
            sm.rules@.len() == 0,
            sm.chunks@.len() == 0,
    {
        WorkerSm { phase: WorkerPhase::AwaitingRules, rules: Vec::new(), chunks: Vec::new() }
    }

    /// Feeds one coordinator message to the worker and returns its reply.
    /// A message that breaks the protocol order draws an `Error` reply and
    /// leaves the state unchanged; an `AnalysisResult` is emitted exactly on
    /// `StartAnalysis` in the `Ready` phase, and never after `Shutdown`.
    pub fn handle(&mut self, msg: WorkerMessage) -> (reply: Option<MasterMessage>)
        ensures
            // What the reply may be at all:
            (match reply {
                Option::Some(MasterMessage::AnalysisResult(_)) => old(self).phase
                    == WorkerPhase::Ready && msg is StartAnalysis,
                _ => true,
            }),
            // Shutdown always lands in the terminal phase and is acknowledged
            // (unless the worker was already shut down, which draws silence).
            msg is Shutdown ==> final(self).phase == WorkerPhase::ShutDown,
            (msg is Shutdown && old(self).phase != WorkerPhase::ShutDown) ==> reply matches
                Option::Some(MasterMessage::Ack),
            // Nothing happens after the terminal phase.
            old(self).phase == WorkerPhase::ShutDown ==> *final(self) == *old(self) && reply
                is None,
            // Rules are accepted only first, and acknowledged.
            old(self).phase == WorkerPhase::AwaitingRules ==> (msg matches WorkerMessage::Rules(
                rs,
            ) ==> final(self).phase == WorkerPhase::Ready && final(self).rules == rs && final(self).chunks == old(self).chunks && reply matches Option::Some(MasterMessage::Ack)),
            // A chunk before the rules breaks the protocol.
            (old(self).phase == WorkerPhase::AwaitingRules && (msg is LogChunk
                || msg is StartAnalysis)) ==> *final(self) == *old(self) && reply matches
                Option::Some(MasterMessage::Error(_)),
            // Chunks accumulate silently while ready.
            old(self).phase == WorkerPhase::Ready ==> (msg matches WorkerMessage::LogChunk(c)
                ==> final(self).phase == WorkerPhase::Ready && final(self).rules == old(self).rules && final(self).chunks@ == old(self).chunks@ + c@ && reply is None),
            // StartAnalysis evaluates everything received, exactly as the
            // engine defines it, and reports the partial metrics.
            (old(self).phase == WorkerPhase::Ready && msg is StartAnalysis) ==> final(self).phase
                == WorkerPhase::Finished && final(self).rules == old(self).rules && final(self).chunks == old(self).chunks && (match reply {
                Option::Some(MasterMessage::AnalysisResult(m)) => m@.total_logs_processed == old(self).chunks@.len() && m@.alerts_generated == batch_alerts(
                    entries_view(old(self).chunks@),
                    rules_view(old(self).rules@),
                ),
                _ => false,
            }),
            // Out-of-order messages in later phases break the protocol.
            (old(self).phase == WorkerPhase::Ready && msg is Rules) ==> *final(self) == *old(self)
                && reply matches Option::Some(MasterMessage::Error(_)),
            (old(self).phase == WorkerPhase::Finished && !(msg is Shutdown)) ==> *final(self)
                == *old(self) && reply matches Option::Some(MasterMessage::Error(_)),
    {
        if matches!(self.phase, WorkerPhase::ShutDown) {
            return Option::None;
        }
        match msg {
            WorkerMessage::Shutdown => {
                self.phase = WorkerPhase::ShutDown;
                Option::Some(MasterMessage::Ack)
            },
            WorkerMessage::Rules(rs) => {
                if matches!(self.phase, WorkerPhase::AwaitingRules) {
                    self.rules = rs;
                    self.phase = WorkerPhase::Ready;
                    Option::Some(MasterMessage::Ack)
                } else {
                    Option::Some(
                        MasterMessage::Error(("rules were already received").to_owned()),
                    )
                }
            },
            WorkerMessage::LogChunk(mut c) => {
                if matches!(self.phase, WorkerPhase::Ready) {
                    self.chunks.append(&mut c);
                    Option::None
                } else {
                    Option::Some(
                        MasterMessage::Error(("chunk arrived out of order").to_owned()),
                    )
                }
            },
            WorkerMessage::StartAnalysis => {
                if matches!(self.phase, WorkerPhase::Ready) {
                    let (alerts, n) = evaluate(&self.chunks, &self.rules);
                    self.phase = WorkerPhase::Finished;
                    Option::Some(
                        MasterMessage::AnalysisResult(
                            Metrics {
                                total_logs_processed: n,
                                alerts_generated: alerts,
                                mode: ExecMode::Distributed,
                            },
                        ),
                    )
                } else {
                    Option::Some(
                        MasterMessage::Error(("analysis start arrived out of order").to_owned()),
                    )
                }
            },
        }
    }
}

} // verus!
