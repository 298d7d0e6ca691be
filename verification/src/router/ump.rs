//! Upward message passing: from the paras to the relay chain.
use sp_std::collections::vec_deque::VecDeque;
use vstd::prelude::*;

use crate::configuration::HostConfiguration;
use crate::primitives::{contents, lemma_payload_size_add, payload_size, ParaId, UpwardMessage};
use crate::router::dispatch::{backlog, lemma_turn_decreases, queue_of, rest_of, DispatchRound, RoundState};
use crate::router::state::{capped, lemma_settled_queue, outcomes_under, size_entry, size_of};
use crate::router::{queue_contents, queues_contents, Module, Trait};
use crate::sorted::{ascending, insert, lemma_push_contains, remove};
use crate::storage::ParaMap;
use crate::weights::{RuntimeDbWeight, Weight};
use crate::xcm::{cost_of, dispatch, outcome_of, DispatchOutcome};

verus! {

impl<T: Trait> Module<T> {
    /// Forgets the upward messages of a para that leaves.
    pub fn outgoing_para_cleanup_ump(&mut self, outgoing_para: ParaId)
        requires
            old(self)@.wf(),
        ensures
            final(self)@ == old(self)@.cleanup_ump(outgoing_para),
            final(self)@.wf(),
            final(self).outgoing_paras == old(self).outgoing_paras,
            final(self).downward_message_queues == old(self).downward_message_queues,
            final(self).downward_message_queue_heads == old(self).downward_message_queue_heads,
    {
        let _ = self.relay_dispatch_queue_size.remove(outgoing_para);
        let _ = self.relay_dispatch_queues.remove(outgoing_para);
        remove(&mut self.needs_dispatch, outgoing_para);
        self.next_dispatch_round_start_with = match self.next_dispatch_round_start_with {
            Some(para) => if para == outgoing_para {
                None
            } else {
                Some(para)
            },
            None => None,
        };
        assert(self@ =~= old(self)@.cleanup_ump(outgoing_para));
    }

    /// Check that all the upward messages sent by a candidate pass the acceptance criteria. Returns
    /// false, if any of the messages doesn't pass.
    pub fn check_upward_messages(
        &self,
        config: &HostConfiguration,
        para: ParaId,
        upward_messages: &[UpwardMessage],
    ) -> (accepted: bool)
        ensures
            accepted == self@.accepts(*config, para, contents(upward_messages@)),
            accepted ==> upward_messages@.len() <= config.max_upward_message_num_per_candidate,
    {
        if upward_messages.len() as u64 > config.max_upward_message_num_per_candidate as u64 {
            return false;
        }
        let (count, size) = self.queue_size(para);
        // make sure that the queue is not overfilled.
        // we do it here only once since returning false invalidates the whole relay-chain block.
        match measure(count, size, upward_messages) {
            Some((para_queue_count, para_queue_size)) => {
                para_queue_count <= config.max_upward_queue_count && para_queue_size
                    <= config.max_upward_queue_size
            },
            None => false,
        }
    }

    /// Tells whether the count and the size that the queue of the para would have with the messages
    /// are 32-bit numbers, which [`Module::enact_upward_messages`] relies on.
    pub fn can_enact(&self, para: ParaId, upward_messages: &[UpwardMessage]) -> (r: bool)
        ensures
            r == self@.can_account(para, contents(upward_messages@)),
    {
        let (count, size) = self.queue_size(para);
        measure(count, size, upward_messages).is_some()
    }

    /// Enacts all the upward messages sent by a candidate.
    ///
    /// Returns the weight of the three database reads and writes that this takes, of which the
    /// weights of one each are given as `db_weight`.
    pub fn enact_upward_messages(
        &mut self,
        db_weight: RuntimeDbWeight,
        para: ParaId,
        upward_messages: &[UpwardMessage],
    ) -> (weight: Weight)
        requires
            old(self)@.wf(),
            upward_messages@.len() > 0 ==> old(self)@.can_account(para, contents(upward_messages@)),
        ensures
            final(self)@ == old(self)@.enact(para, contents(upward_messages@)),
            final(self)@.wf(),
            weight == if upward_messages@.len() == 0 {
                0
            } else {
                db_weight.weight_of(3, 3)
            },
            upward_messages@.len() > 0 && 3 * db_weight.read + 3 * db_weight.write <= u64::MAX
                ==> weight == 3 * db_weight.read + 3 * db_weight.write,
            upward_messages@.len() > 0 && 3 * db_weight.read + 3 * db_weight.write > u64::MAX
                ==> weight == u64::MAX,
            upward_messages@.len() == 0 ==> *final(self) == *old(self),
            final(self).outgoing_paras == old(self).outgoing_paras,
            final(self).downward_message_queues == old(self).downward_message_queues,
            final(self).downward_message_queue_heads == old(self).downward_message_queue_heads,
            final(self).next_dispatch_round_start_with == old(self).next_dispatch_round_start_with,
    {
        let mut weight: Weight = 0;
        if upward_messages.len() != 0 {
            let ghost before = self@;
            let (count, size) = self.queue_size(para);
            if let Some(new_size) = measure(count, size, upward_messages) {
                self.relay_dispatch_queue_size.insert(para, new_size);
            }
            let mut queue = match self.relay_dispatch_queues.remove(para) {
                Some(queue) => queue,
                None => VecDeque::new(),
            };
            assert(queue_contents(queue) =~= before.queue(para));
            extend(&mut queue, upward_messages);
            self.relay_dispatch_queues.insert(para, queue);

            insert(&mut self.needs_dispatch, para);

            weight = weight + db_weight.reads_writes(3, 3);
            assert(self@.relay_dispatch_queues =~= before.enact(
                para,
                contents(upward_messages@),
            ).relay_dispatch_queues);
            assert(self@ =~= before.enact(para, contents(upward_messages@)));
        }
        weight
    }

    /// Devote some time into dispatching pending upward messages.
    ///
    /// Returns the messages that were handled, in the order in which they were.
    pub fn process_pending_upward_messages(&mut self, config: &HostConfiguration) -> (handled: Vec<
        HandledMessage,
    >)
        requires
            old(self)@.wf(),
        ensures
            final(self)@ == old(self)@.dispatch(*config),
            final(self)@.wf(),
            handled_contents(handled@) == old(self)@.finished_round(*config).handled,
            forall|i: int|
                0 <= i < handled@.len() ==> (#[trigger] handled@[i]).outcome == outcome_of(
                    handled@[i].message@,
                    config.dispatchable_upward_message_critical_weight,
                ),
            forall|p: ParaId| #[trigger]
                final(self)@.queue(p) == queue_of(
                    old(self)@.finished_round(*config).queues,
                    p,
                ),
            final(self).outgoing_paras == old(self).outgoing_paras,
            final(self).downward_message_queues == old(self).downward_message_queues,
            final(self).downward_message_queue_heads == old(self).downward_message_queue_heads,
    {
        let ghost before = self@;
        let ghost outcomes = outcomes_under(*config);
        let critical_weight = config.dispatchable_upward_message_critical_weight;
        let mut needs_dispatch: Vec<ParaId> = Vec::new();
        core::mem::swap(&mut needs_dispatch, &mut self.needs_dispatch);
        let round = DispatchRound::begin(needs_dispatch, self.next_dispatch_round_start_with);
        let handle = |message: &[u8]| -> (outcome: DispatchOutcome)
            ensures
                outcome == outcome_of(message@, critical_weight),
            { dispatch(message, critical_weight) };
        let ended = run_round(
            &mut self.relay_dispatch_queues,
            round,
            config.preferred_dispatchable_upward_messages_step_weight,
            handle,
            Ghost(outcomes),
        );
        let (needs_dispatch, next_one) = ended.round.finish();
        self.next_dispatch_round_start_with = next_one;
        self.needs_dispatch = needs_dispatch;
        self.settle_queues(&ended.taken);
        assert(self@ =~= before.dispatch(*config));
        ended.handled
    }

    /// Puts the queues of the given paras in order.
    fn settle_queues(&mut self, paras: &Vec<ParaId>)
        ensures
            final(self)@ == old(self)@.settle_queues(paras@),
            final(self).outgoing_paras == old(self).outgoing_paras,
            final(self).downward_message_queues == old(self).downward_message_queues,
            final(self).downward_message_queue_heads == old(self).downward_message_queue_heads,
    {
        let ghost before = self@;
        let ghost start = *self;
        let mut i: usize = 0;
        assert(self@ =~= before.settle_queues(paras@.take(0)));
        while i < paras.len()
            invariant
                i <= paras@.len(),
                self@ == before.settle_queues(paras@.take(i as int)),
                self.outgoing_paras == start.outgoing_paras,
                self.downward_message_queues == start.downward_message_queues,
                self.downward_message_queue_heads == start.downward_message_queue_heads,
            decreases paras@.len() - i,
        {
            let para = paras[i];
            let ghost reached = self@;
            proof {
                lemma_settled_queue(before, paras@.take(i as int), para);
            }
            let queue = match self.relay_dispatch_queues.remove(para) {
                Some(queue) => queue,
                None => VecDeque::new(),
            };
            let ghost kept = queue_contents(queue);
            assert(kept =~= before.queue(para));
            if queue.len() == 0 {
                let _ = self.relay_dispatch_queue_size.remove(para);
            } else {
                self.relay_dispatch_queue_size.insert(para, tally(&queue));
                self.relay_dispatch_queues.insert(para, queue);
            }
            proof {
                assert(paras@.take(i + 1) =~= paras@.take(i as int).push(para));
                let goal = before.settle_queues(paras@.take(i + 1));
                assert forall|p: ParaId| paras@.take(i + 1).contains(p) <==> paras@.take(
                    i as int,
                ).contains(p) || p == para by {
                    lemma_push_contains(paras@.take(i as int), para, p);
                }
                assert(reached.relay_dispatch_queues.remove(para)
                    =~= goal.relay_dispatch_queues.remove(para));
                if kept.len() == 0 {
                    assert(self@.relay_dispatch_queues =~= reached.relay_dispatch_queues.remove(para));
                } else {
                    assert(self@.relay_dispatch_queues =~= reached.relay_dispatch_queues.remove(
                        para,
                    ).insert(para, kept));
                }
                assert(self@.relay_dispatch_queues =~= goal.relay_dispatch_queues);
                assert(self@.relay_dispatch_queue_size =~= goal.relay_dispatch_queue_size);
                assert(self@ =~= goal);
            }
            i = i + 1;
        }
        assert(paras@.take(paras@.len() as int) =~= paras@);
    }

    /// The count and the size that the table of sizes has for the queue of a para.
    fn queue_size(&self, para: ParaId) -> (r: (u32, u32))
        ensures
            r == size_of(self@.relay_dispatch_queue_size, para),
    {
        match self.relay_dispatch_queue_size.get(para) {
            Some(entry) => *entry,
            None => (0, 0),
        }
    }
}

/// A message that a dispatch round has handled.
pub struct HandledMessage {
    /// The para that sent it.
    pub para: ParaId,
    /// The message.
    pub message: UpwardMessage,
    /// What became of it.
    pub outcome: DispatchOutcome,
}

/// The messages that a round has handled, each with its para.
pub open spec fn handled_contents(handled: Seq<HandledMessage>) -> Seq<(ParaId, Seq<u8>)> {
    handled.map_values(|h: HandledMessage| (h.para, h.message@))
}

/// What a round comes to.
struct EndedRound {
    round: DispatchRound,
    handled: Vec<HandledMessage>,
    taken: Vec<ParaId>,
}

/// Runs a round: takes messages from the queues, para by para in turns, and hands each of them to
/// `handle`.
///
/// `outcomes` says what becomes of each message. No message may use up so much weight that it could
/// not be added to the preferred weight.
fn run_round<H: Fn(&[u8]) -> DispatchOutcome>(
    queues: &mut ParaMap<VecDeque<UpwardMessage>>,
    round: DispatchRound,
    preferred_weight: Weight,
    handle: H,
    Ghost(outcomes): Ghost<spec_fn(Seq<u8>) -> DispatchOutcome>,
) -> (ended: EndedRound)
    requires
        round.wf(),
        forall|message: &[u8]| call_requires(handle, (message,)),
        forall|message: &[u8], outcome: DispatchOutcome|
            call_ensures(handle, (message,), outcome) ==> outcome == outcomes(message@),
        forall|message: Seq<u8>|
            preferred_weight + (#[trigger] outcomes(message)).used_up() <= u64::MAX,
    ensures
        ({
            let end = (RoundState {
                pending: round.pending(),
                cursor: round.cursor(),
                weight: round.weight() as nat,
                queues: queues_contents(old(queues)@),
                handled: Seq::empty(),
                taken: Seq::empty(),
            }).finish(preferred_weight as nat, cost_of(outcomes));
            &&& ended.round.wf()
            &&& ended.round.pending() == end.pending
            &&& ended.round.cursor() == end.cursor
            &&& ended.round.weight() == end.weight
            &&& queues_contents(final(queues)@) == end.queues
            &&& handled_contents(ended.handled@) == end.handled
            &&& ended.taken@ == end.taken
        }),
        forall|i: int|
            0 <= i < ended.handled@.len() ==> (#[trigger] ended.handled@[i]).outcome == outcomes(
                ended.handled@[i].message@,
            ),
{
    let ghost cost = cost_of(outcomes);
    let ghost preferred = preferred_weight as nat;
    let ghost mut model = RoundState {
        pending: round.pending(),
        cursor: round.cursor(),
        weight: round.weight() as nat,
        queues: queues_contents(queues@),
        handled: Seq::empty(),
        taken: Seq::empty(),
    };
    let ghost end = model.finish(preferred, cost);
    let mut round = round;
    let mut handled: Vec<HandledMessage> = Vec::new();
    let mut taken: Vec<ParaId> = Vec::new();
    assert(handled_contents(handled@) =~= model.handled);
    loop
        invariant_except_break
            model.pending == round.pending(),
            model.cursor == round.cursor(),
            model.weight == round.weight(),
            queues_contents(queues@) == model.queues,
            handled_contents(handled@) == model.handled,
            taken@ == model.taken,
            model.finish(preferred, cost) == end,
        invariant
            round.wf(),
            ascending(taken@),
            cost == cost_of(outcomes),
            preferred == preferred_weight,
            forall|message: &[u8]| call_requires(handle, (message,)),
            forall|message: &[u8], outcome: DispatchOutcome|
                call_ensures(handle, (message,), outcome) ==> outcome == outcomes(message@),
            forall|message: Seq<u8>|
                preferred_weight + (#[trigger] outcomes(message)).used_up() <= u64::MAX,
            forall|i: int|
                0 <= i < handled@.len() ==> (#[trigger] handled@[i]).outcome == outcomes(
                    handled@[i].message@,
                ),
        ensures
            round.pending() == end.pending,
            round.cursor() == end.cursor,
            round.weight() == end.weight,
            queues_contents(queues@) == end.queues,
            handled_contents(handled@) == end.handled,
            taken@ == end.taken,
        decreases model.pending.len() + backlog(model.pending, model.queues),
    {
        let dispatchee = match round.next_dispatchee(preferred_weight) {
            Some(para) => para,
            None => {
                break;
            },
        };
        insert(&mut taken, dispatchee);
        let mut queue = match queues.remove(dispatchee) {
            Some(queue) => queue,
            None => VecDeque::new(),
        };
        assert(queue_contents(queue) =~= model.front_queue());
        let mut spent: Weight = 0;
        match queue.pop_front() {
            Some(message) => {
                let outcome = handle(message.as_slice());
                spent = outcome.weight();
                handled.push(HandledMessage { para: dispatchee, message, outcome });
            },
            None => {},
        }
        assert(queue_contents(queue) =~= rest_of(model.front_queue()));
        let drained = queue.len() == 0;
        queues.insert(dispatchee, queue);
        round.settle(dispatchee, spent, drained);
        proof {
            let after = model.turn(cost);
            assert(queues_contents(queues@) =~= after.queues);
            assert(handled_contents(handled@) =~= after.handled);
            assert(model.pending.contains(dispatchee));
            let i = model.pending.index_of(dispatchee);
            assert(model.pending[i] == dispatchee);
            assert(i == model.cursor);
            lemma_turn_decreases(model, cost);
            model = after;
        }
    }
    EndedRound { round, handled, taken }
}

/// Adds messages to a count and their lengths to a size. There is no result if one of the two would
/// not be a 32-bit number.
fn measure(count: u32, size: u32, messages: &[UpwardMessage]) -> (r: Option<(u32, u32)>)
    ensures
        match r {
            Some((new_count, new_size)) => {
                &&& new_count == count + messages@.len()
                &&& new_size == size + payload_size(contents(messages@))
            },
            None => {
                ||| count + messages@.len() > u32::MAX
                ||| size + payload_size(contents(messages@)) > u32::MAX
            },
        },
{
    let mut new_count: u32 = count;
    let mut new_size: u32 = size;
    let mut i: usize = 0;
    let ghost all = contents(messages@);
    while i < messages.len()
        invariant
            i <= messages@.len(),
            all == contents(messages@),
            new_count == count + i,
            new_size == size + payload_size(all.take(i as int)),
        decreases messages@.len() - i,
    {
        proof {
            assert(all.take(i + 1).drop_last() =~= all.take(i as int));
            assert(all =~= all.take(i + 1) + all.skip(i + 1));
            lemma_payload_size_add(all.take(i + 1), all.skip(i + 1));
        }
        let len: u64 = messages[i].len() as u64;
        if new_count == u32::MAX || len > (u32::MAX - new_size) as u64 {
            return None;
        }
        new_count = new_count + 1;
        new_size = new_size + len as u32;
        i = i + 1;
    }
    assert(all.take(messages@.len() as int) =~= all);
    Some((new_count, new_size))
}

/// The entry for a queue in the table of sizes.
fn tally(queue: &VecDeque<UpwardMessage>) -> (r: (u32, u32))
    ensures
        r == size_entry(queue_contents(*queue)),
{
    let mut size: u32 = 0;
    let mut i: usize = 0;
    let ghost all = queue_contents(*queue);
    while i < queue.len()
        invariant
            i <= queue@.len(),
            all == queue_contents(*queue),
            size == capped(payload_size(all.take(i as int))),
        decreases queue@.len() - i,
    {
        assert(all.take(i + 1).drop_last() =~= all.take(i as int));
        let len: u64 = queue[i].len() as u64;
        size = if len > (u32::MAX - size) as u64 {
            u32::MAX
        } else {
            size + len as u32
        };
        i = i + 1;
    }
    assert(all.take(queue@.len() as int) =~= all);
    let count: u32 = if queue.len() as u64 > u32::MAX as u64 {
        u32::MAX
    } else {
        queue.len() as u32
    };
    (count, size)
}

/// Copies a message.
fn copy(message: &UpwardMessage) -> (r: UpwardMessage)
    ensures
        r@ == message@,
{
    let r = message.clone();
    assert(r@ =~= message@);
    r
}

/// Appends messages to a queue.
fn extend(queue: &mut VecDeque<UpwardMessage>, messages: &[UpwardMessage])
    ensures
        queue_contents(*final(queue)) == queue_contents(*old(queue)) + contents(messages@),
{
    let ghost before = queue_contents(*queue);
    let ghost all = contents(messages@);
    let mut i: usize = 0;
    assert(before + all.take(0) =~= before);
    while i < messages.len()
        invariant
            i <= messages@.len(),
            all == contents(messages@),
            queue_contents(*queue) == before + all.take(i as int),
        decreases messages@.len() - i,
    {
        let ghost reached = queue_contents(*queue);
        let message = copy(&messages[i]);
        queue.push_back(message);
        assert(queue_contents(*queue) =~= reached.push(all[i as int]));
        assert(before + all.take(i + 1) =~= reached.push(all[i as int]));
        i = i + 1;
    }
    assert(all.take(messages@.len() as int) =~= all);
}

} // verus!
