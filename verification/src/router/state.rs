//! The state of the router as a mathematical value, and how each operation changes it.
use vstd::prelude::*;

use crate::configuration::HostConfiguration;
use crate::primitives::{payload_size, InboundDownwardMessage, ParaId};
use crate::router::dispatch::{queue_of, RoundState};
use crate::sorted::{ascending, lemma_none_of_push, lemma_push_contains, none_of, with, without};
use crate::xcm::{cost_of, outcome_of, DispatchOutcome};

verus! {

/// What the router has stored.
#[verifier::ext_equal]
pub struct RouterState<BlockNumber> {
    /// The paras that are cleaned up when the next session starts.
    pub outgoing_paras: Seq<ParaId>,
    /// The messages addressed to each para.
    pub downward_message_queues: Map<ParaId, Seq<InboundDownwardMessage<BlockNumber>>>,
    /// The head of the downward message queue chain of each para.
    pub downward_message_queue_heads: Map<ParaId, crate::primitives::Hash>,
    /// The messages of each para that wait to be dispatched, the oldest first.
    pub relay_dispatch_queues: Map<ParaId, Seq<Seq<u8>>>,
    /// How many messages wait for each para, and their size.
    pub relay_dispatch_queue_size: Map<ParaId, (u32, u32)>,
    /// The paras that have messages to dispatch.
    pub needs_dispatch: Seq<ParaId>,
    /// The para that the next dispatch round starts with.
    pub next_dispatch_round_start_with: Option<ParaId>,
}

/// The entry of a para in the table of queue sizes. A para without an entry has an empty queue.
pub open spec fn size_of(sizes: Map<ParaId, (u32, u32)>, para: ParaId) -> (u32, u32) {
    if sizes.contains_key(para) {
        sizes[para]
    } else {
        (0, 0)
    }
}

/// What becomes of each message.
pub open spec fn outcomes_under(config: HostConfiguration) -> spec_fn(Seq<u8>) -> DispatchOutcome {
    |message: Seq<u8>| outcome_of(message, config.dispatchable_upward_message_critical_weight)
}

/// What each message costs a dispatch round.
pub open spec fn cost_under(config: HostConfiguration) -> spec_fn(Seq<u8>) -> nat {
    cost_of(outcomes_under(config))
}

/// The para that the next round starts with, once `para` has been cleaned up: it is reset if it is
/// `para` itself.
pub open spec fn start_after_cleanup(start: Option<ParaId>, para: ParaId) -> Option<ParaId> {
    if start == Some(para) {
        None
    } else {
        start
    }
}

/// The para that the next round starts with, once the paras in the list have been cleaned up: it
/// is reset if it is one of them.
pub open spec fn start_after_cleanups(start: Option<ParaId>, paras: Seq<ParaId>) -> Option<ParaId> {
    match start {
        Some(p) => if paras.contains(p) {
            None
        } else {
            start
        },
        None => None,
    }
}

/// A number as far as 32 bits can hold it.
pub open spec fn capped(n: nat) -> u32 {
    if n <= u32::MAX {
        n as u32
    } else {
        u32::MAX
    }
}

/// The entry for a queue in the table of sizes.
pub open spec fn size_entry(queue: Seq<Seq<u8>>) -> (u32, u32) {
    (capped(queue.len()), capped(payload_size(queue)))
}

impl<BlockNumber> RouterState<BlockNumber> {
    /// The state of a router that has stored nothing.
    pub open spec fn empty() -> Self {
        RouterState {
            outgoing_paras: Seq::empty(),
            downward_message_queues: Map::empty(),
            downward_message_queue_heads: Map::empty(),
            relay_dispatch_queues: Map::empty(),
            relay_dispatch_queue_size: Map::empty(),
            needs_dispatch: Seq::empty(),
            next_dispatch_round_start_with: None,
        }
    }

    /// Both lists of paras ascend.
    pub open spec fn wf(self) -> bool {
        &&& ascending(self.outgoing_paras)
        &&& ascending(self.needs_dispatch)
    }

    /// The messages of a para that wait to be dispatched.
    pub open spec fn queue(self, para: ParaId) -> Seq<Seq<u8>> {
        queue_of(self.relay_dispatch_queues, para)
    }

    /// How many messages of a para wait to be dispatched, as the table of sizes has it.
    pub open spec fn count(self, para: ParaId) -> nat {
        size_of(self.relay_dispatch_queue_size, para).0 as nat
    }

    /// The size of the messages of a para that wait, as the table of sizes has it.
    pub open spec fn size(self, para: ParaId) -> nat {
        size_of(self.relay_dispatch_queue_size, para).1 as nat
    }

    /// A para is marked for clean-up.
    pub open spec fn schedule_para_cleanup(self, para: ParaId) -> Self {
        RouterState { outgoing_paras: with(self.outgoing_paras, para), ..self }
    }

    /// The table of sizes can account for the messages: neither the count nor the size of the
    /// queue of the para would leave the range of a 32-bit number.
    pub open spec fn can_account(self, para: ParaId, messages: Seq<Seq<u8>>) -> bool {
        &&& self.count(para) + messages.len() <= u32::MAX
        &&& self.size(para) + payload_size(messages) <= u32::MAX
    }

    /// A candidate may send the messages: there are not too many of them, and the queue of the
    /// para stays within its limits.
    pub open spec fn accepts(
        self,
        config: HostConfiguration,
        para: ParaId,
        messages: Seq<Seq<u8>>,
    ) -> bool {
        &&& messages.len() <= config.max_upward_message_num_per_candidate
        &&& self.count(para) + messages.len() <= config.max_upward_queue_count
        &&& self.size(para) + payload_size(messages) <= config.max_upward_queue_size
    }

    /// The messages are appended to the queue of the para.
    pub open spec fn enact(self, para: ParaId, messages: Seq<Seq<u8>>) -> Self {
        if messages.len() == 0 {
            self
        } else {
            RouterState {
                relay_dispatch_queues: self.relay_dispatch_queues.insert(
                    para,
                    self.queue(para) + messages,
                ),
                relay_dispatch_queue_size: self.relay_dispatch_queue_size.insert(
                    para,
                    (
                        (self.count(para) + messages.len()) as u32,
                        (self.size(para) + payload_size(messages)) as u32,
                    ),
                ),
                needs_dispatch: with(self.needs_dispatch, para),
                ..self
            }
        }
    }

    /// The round of dispatching that this state gives rise to.
    pub open spec fn round(self) -> RoundState {
        RoundState::begin(
            self.needs_dispatch,
            self.next_dispatch_round_start_with,
            self.relay_dispatch_queues,
        )
    }

    /// How that round ends.
    pub open spec fn finished_round(self, config: HostConfiguration) -> RoundState {
        self.round().finish(
            config.preferred_dispatchable_upward_messages_step_weight as nat,
            cost_under(config),
        )
    }

    /// The queues of the given paras are put in order: a queue that is empty loses its entries, and
    /// the table of sizes has the count and the size of what is in the others. Nothing changes for
    /// other paras.
    pub open spec fn settle_queues(self, paras: Seq<ParaId>) -> Self {
        RouterState {
            relay_dispatch_queues: Map::new(
                |p: ParaId|
                    if paras.contains(p) {
                        self.queue(p).len() > 0
                    } else {
                        self.relay_dispatch_queues.contains_key(p)
                    },
                |p: ParaId| self.queue(p),
            ),
            relay_dispatch_queue_size: Map::new(
                |p: ParaId|
                    if paras.contains(p) {
                        self.queue(p).len() > 0
                    } else {
                        self.relay_dispatch_queue_size.contains_key(p)
                    },
                |p: ParaId|
                    if paras.contains(p) {
                        size_entry(self.queue(p))
                    } else {
                        self.relay_dispatch_queue_size[p]
                    },
            ),
            ..self
        }
    }

    /// A round of dispatching has taken place: the queues of the paras that had a turn hold what it
    /// left, those whose queues it emptied are off the list, and the next round starts where it
    /// stopped. Nothing changes for paras that had no turn.
    pub open spec fn dispatch(self, config: HostConfiguration) -> Self {
        let round = self.finished_round(config);
        (RouterState {
            relay_dispatch_queues: round.queues,
            needs_dispatch: round.pending,
            next_dispatch_round_start_with: round.next_start(),
            ..self
        }).settle_queues(round.taken)
    }

    /// The upward messages of a para are forgotten.
    pub open spec fn cleanup_ump(self, para: ParaId) -> Self {
        RouterState {
            relay_dispatch_queues: self.relay_dispatch_queues.remove(para),
            relay_dispatch_queue_size: self.relay_dispatch_queue_size.remove(para),
            needs_dispatch: without(self.needs_dispatch, para),
            next_dispatch_round_start_with: start_after_cleanup(
                self.next_dispatch_round_start_with,
                para,
            ),
            ..self
        }
    }

    /// Everything about a para is forgotten.
    pub open spec fn cleanup(self, para: ParaId) -> Self {
        RouterState {
            downward_message_queues: self.downward_message_queues.remove(para),
            downward_message_queue_heads: self.downward_message_queue_heads.remove(para),
            ..self.cleanup_ump(para)
        }
    }

    /// Everything about the paras in the list is forgotten.
    pub open spec fn cleanup_all(self, paras: Seq<ParaId>) -> Self {
        RouterState {
            downward_message_queues: self.downward_message_queues.remove_keys(paras.to_set()),
            downward_message_queue_heads: self.downward_message_queue_heads.remove_keys(
                paras.to_set(),
            ),
            relay_dispatch_queues: self.relay_dispatch_queues.remove_keys(paras.to_set()),
            relay_dispatch_queue_size: self.relay_dispatch_queue_size.remove_keys(paras.to_set()),
            needs_dispatch: self.needs_dispatch.filter(none_of(paras)),
            next_dispatch_round_start_with: start_after_cleanups(
                self.next_dispatch_round_start_with,
                paras,
            ),
            ..self
        }
    }

    /// A new session has started: the paras that were marked are cleaned up, and no para is
    /// marked any longer.
    pub open spec fn new_session(self) -> Self {
        RouterState { outgoing_paras: Seq::empty(), ..self.cleanup_all(self.outgoing_paras) }
    }
}

/// Putting queues in order changes none of them.
pub proof fn lemma_settled_queue<BlockNumber>(
    state: RouterState<BlockNumber>,
    paras: Seq<ParaId>,
    para: ParaId,
)
    ensures
        state.settle_queues(paras).queue(para) == state.queue(para),
{
    if paras.contains(para) && state.queue(para).len() == 0 {
        assert(state.queue(para) =~= Seq::<Seq<u8>>::empty());
    }
}

/// Cleaning up one more para comes to cleaning up the longer list.
pub proof fn lemma_cleanup_all_push<BlockNumber>(
    state: RouterState<BlockNumber>,
    paras: Seq<ParaId>,
    para: ParaId,
)
    ensures
        state.cleanup_all(paras).cleanup(para) == state.cleanup_all(paras.push(para)),
{
    let longer = paras.push(para);
    assert(longer.to_set() =~= paras.to_set().insert(para)) by {
        assert forall|p: ParaId| longer.contains(p) <==> paras.contains(p) || p == para by {
            lemma_push_contains(paras, para, p);
        }
    }
    lemma_none_of_push(state.needs_dispatch, paras, para);
    if let Some(start) = state.next_dispatch_round_start_with {
        lemma_push_contains(paras, para, start);
    }
    assert(state.cleanup_all(paras).cleanup(para) =~= state.cleanup_all(longer));
}

} // verus!
