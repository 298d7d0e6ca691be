//! The storage of the router, and the operations on it.
//!
//! The core of the messaging is checking and processing messages sent out by the candidates,
//! routing the messages at their destinations and informing the paras about the incoming
//! messages.
use sp_std::collections::vec_deque::VecDeque;
use vstd::prelude::*;

use crate::primitives::{contents, InboundDownwardMessage, ParaId, UpwardMessage};
use crate::sorted::{ascending, insert, lemma_filter_all, none_of};
use crate::storage::ParaMap;
use crate::weights::Weight;

pub mod dispatch;
pub mod state;
pub mod ump;

use crate::router::state::{lemma_cleanup_all_push, RouterState};

verus! {

/// What a runtime decides on.
pub trait Trait {
    /// The type of the numbers of relay-chain blocks.
    type BlockNumber;
}

/// The router, with everything that it has stored.
pub struct Module<T: Trait> {
    /// Paras that are to be cleaned up at the end of the session, ascending.
    pub outgoing_paras: Vec<ParaId>,
    /// The downward messages addressed for a certain para.
    pub downward_message_queues: ParaMap<Vec<InboundDownwardMessage<T::BlockNumber>>>,
    /// The head of the downward message queue chain of each para.
    ///
    /// Each link of the chain is `(prev_head, B, H(M))`: the head before it, or zero, the number
    /// of the block in which a message was appended, and the hash of that message.
    pub downward_message_queue_heads: ParaMap<crate::primitives::Hash>,
    /// Messages ready to be dispatched onto the relay chain, in the order in which they came.
    pub relay_dispatch_queues: ParaMap<VecDeque<UpwardMessage>>,
    /// The count of the messages in each dispatch queue, and the total length of their payloads in
    /// bytes.
    pub relay_dispatch_queue_size: ParaMap<(u32, u32)>,
    /// The paras that have a dispatch queue, ascending.
    pub needs_dispatch: Vec<ParaId>,
    /// The para that gets dispatched first in the next dispatch round.
    pub next_dispatch_round_start_with: Option<ParaId>,
}

/// The contents of a queue of messages.
pub open spec fn queue_contents(queue: VecDeque<UpwardMessage>) -> Seq<Seq<u8>> {
    contents(queue@)
}

/// The contents of the queue of each para.
pub open spec fn queues_contents(queues: Map<ParaId, VecDeque<UpwardMessage>>) -> Map<
    ParaId,
    Seq<Seq<u8>>,
> {
    queues.map_values(|queue: VecDeque<UpwardMessage>| queue_contents(queue))
}

impl<T: Trait> View for Module<T> {
    type V = RouterState<T::BlockNumber>;

    open spec fn view(&self) -> RouterState<T::BlockNumber> {
        RouterState {
            outgoing_paras: self.outgoing_paras@,
            downward_message_queues: self.downward_message_queues@.map_values(
                |queue: Vec<InboundDownwardMessage<T::BlockNumber>>| queue@,
            ),
            downward_message_queue_heads: self.downward_message_queue_heads@,
            relay_dispatch_queues: queues_contents(self.relay_dispatch_queues@),
            relay_dispatch_queue_size: self.relay_dispatch_queue_size@,
            needs_dispatch: self.needs_dispatch@,
            next_dispatch_round_start_with: self.next_dispatch_round_start_with,
        }
    }
}

impl<T: Trait> Module<T> {
    /// A router that has stored nothing.
    pub fn new() -> (router: Self)
        ensures
            router@ == RouterState::<T::BlockNumber>::empty(),
            router@.wf(),
    {
        let router = Module::<T> {
            outgoing_paras: Vec::new(),
            downward_message_queues: ParaMap::new(),
            downward_message_queue_heads: ParaMap::new(),
            relay_dispatch_queues: ParaMap::new(),
            relay_dispatch_queue_size: ParaMap::new(),
            needs_dispatch: Vec::new(),
            next_dispatch_round_start_with: None,
        };
        assert(router@ =~= RouterState::<T::BlockNumber>::empty());
        router
    }

    /// Block initialization logic.
    pub fn initializer_initialize(&mut self, _now: T::BlockNumber) -> (weight: Weight)
        ensures
            weight == 0,
            *final(self) == *old(self),
    {
        0
    }

    /// Block finalization logic.
    pub fn initializer_finalize(&mut self)
        ensures
            *final(self) == *old(self),
    {
    }

    /// Notes that a new session has started: cleans up the paras that were scheduled for it.
    pub fn initializer_on_new_session(&mut self)
        requires
            old(self)@.wf(),
        ensures
            final(self)@ == old(self)@.new_session(),
            final(self)@.wf(),
    {
        let ghost before = self@;
        let mut outgoing: Vec<ParaId> = Vec::new();
        core::mem::swap(&mut outgoing, &mut self.outgoing_paras);
        let ghost start = RouterState { outgoing_paras: Seq::empty(), ..before };
        assert(outgoing@.take(0) =~= Seq::<ParaId>::empty());
        proof {
            lemma_filter_all(start.needs_dispatch, none_of(outgoing@.take(0)));
        }
        assert(self@ =~= start.cleanup_all(outgoing@.take(0)));
        let mut i: usize = 0;
        while i < outgoing.len()
            invariant
                i <= outgoing@.len(),
                ascending(outgoing@),
                self@ == start.cleanup_all(outgoing@.take(i as int)),
                self@.wf(),
            decreases outgoing@.len() - i,
        {
            let outgoing_para = outgoing[i];
            let ghost reached = self@;
            let _ = self.downward_message_queues.remove(outgoing_para);
            let _ = self.downward_message_queue_heads.remove(outgoing_para);
            self.outgoing_para_cleanup_ump(outgoing_para);
            assert(self@ =~= reached.cleanup(outgoing_para));
            proof {
                assert(outgoing@.take(i + 1) =~= outgoing@.take(i as int).push(outgoing_para));
                lemma_cleanup_all_push(start, outgoing@.take(i as int), outgoing_para);
            }
            i = i + 1;
        }
        assert(outgoing@.take(outgoing@.len() as int) =~= outgoing@);
    }

    /// Schedule a para to be cleaned up at the start of the next session.
    pub fn schedule_para_cleanup(&mut self, id: ParaId)
        requires
            old(self)@.wf(),
        ensures
            final(self)@ == old(self)@.schedule_para_cleanup(id),
            final(self)@.wf(),
            final(self).downward_message_queues == old(self).downward_message_queues,
            final(self).downward_message_queue_heads == old(self).downward_message_queue_heads,
            final(self).relay_dispatch_queues == old(self).relay_dispatch_queues,
            final(self).relay_dispatch_queue_size == old(self).relay_dispatch_queue_size,
            final(self).needs_dispatch == old(self).needs_dispatch,
            final(self).next_dispatch_round_start_with == old(self).next_dispatch_round_start_with,
    {
        insert(&mut self.outgoing_paras, id);
        assert(self@ =~= old(self)@.schedule_para_cleanup(id));
    }
}

} // verus!
