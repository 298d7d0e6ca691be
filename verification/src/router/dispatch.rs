//! One round of dispatching: whose turn it is, and when the round is over.
use vstd::prelude::*;

use crate::primitives::ParaId;
use crate::sorted::{
    ascending,
    binary_search,
    lemma_filter_ascending,
    lemma_without_absent,
    lemma_without_at,
    other_than,
    with,
    without,
};
use crate::weights::Weight;

verus! {

/// The messages that wait for a para. A para without an entry has none.
pub open spec fn queue_of(queues: Map<ParaId, Seq<Seq<u8>>>, para: ParaId) -> Seq<Seq<u8>> {
    if queues.contains_key(para) {
        queues[para]
    } else {
        Seq::empty()
    }
}

/// A queue after its first message has been taken, if it had one.
pub open spec fn rest_of(queue: Seq<Seq<u8>>) -> Seq<Seq<u8>> {
    if queue.len() == 0 {
        queue
    } else {
        queue.drop_first()
    }
}

/// How many messages wait for the paras in the list.
pub open spec fn backlog(paras: Seq<ParaId>, queues: Map<ParaId, Seq<Seq<u8>>>) -> nat
    decreases paras.len(),
{
    if paras.len() == 0 {
        0
    } else {
        backlog(paras.drop_last(), queues) + queue_of(queues, paras.last()).len()
    }
}

/// Where a round stands.
#[verifier::ext_equal]
pub struct RoundState {
    /// The paras that still have messages, ascending.
    pub pending: Seq<ParaId>,
    /// The position in `pending` of the para whose turn it is.
    pub cursor: nat,
    /// The weight used up so far.
    pub weight: nat,
    /// The messages that still wait for each para.
    pub queues: Map<ParaId, Seq<Seq<u8>>>,
    /// The messages handled so far, each with its para, in the order in which they were handled.
    pub handled: Seq<(ParaId, Seq<u8>)>,
    /// The paras that have had a turn, ascending.
    pub taken: Seq<ParaId>,
}

/// Where a round starts: at the para that the last round left off at, if it still waits, and at
/// the first one otherwise.
pub open spec fn start_position(pending: Seq<ParaId>, start_with: Option<ParaId>) -> nat {
    match start_with {
        Some(para) => if pending.contains(para) {
            pending.index_of(para) as nat
        } else {
            0
        },
        None => 0,
    }
}

/// The position of the para that followed the one at position `i`, when that one has been taken
/// out and `left` is what is left of the list.
pub open spec fn position_after_removal(left: Seq<ParaId>, i: nat) -> nat {
    if left.len() == 0 {
        0
    } else {
        i % left.len()
    }
}

impl RoundState {
    /// The state in which a round begins.
    pub open spec fn begin(
        pending: Seq<ParaId>,
        start_with: Option<ParaId>,
        queues: Map<ParaId, Seq<Seq<u8>>>,
    ) -> RoundState {
        RoundState {
            pending,
            cursor: start_position(pending, start_with),
            weight: 0,
            queues,
            handled: Seq::empty(),
            taken: Seq::empty(),
        }
    }

    /// The para whose turn it is.
    pub open spec fn dispatchee(self) -> ParaId {
        self.pending[self.cursor as int]
    }

    /// The messages that wait for the para whose turn it is.
    pub open spec fn front_queue(self) -> Seq<Seq<u8>> {
        queue_of(self.queues, self.dispatchee())
    }

    /// The position of the para behind the one whose turn it is.
    pub open spec fn next_position(self) -> nat {
        (self.cursor + 1) as nat % self.pending.len()
    }

    /// One turn: the first message of the para is handled, the para leaves the list when nothing
    /// waits for it any longer, and the turn goes to the para behind it, or to the first one if it
    /// was the last.
    pub open spec fn turn(self, cost: spec_fn(Seq<u8>) -> nat) -> RoundState {
        let para = self.dispatchee();
        let queue = self.front_queue();
        let rest = rest_of(queue);
        RoundState {
            pending: if rest.len() == 0 {
                without(self.pending, para)
            } else {
                self.pending
            },
            cursor: if rest.len() == 0 {
                position_after_removal(without(self.pending, para), self.cursor)
            } else {
                self.next_position()
            },
            weight: if queue.len() == 0 {
                self.weight
            } else {
                self.weight + cost(queue[0])
            },
            queues: self.queues.insert(para, rest),
            handled: if queue.len() == 0 {
                self.handled
            } else {
                self.handled.push((para, queue[0]))
            },
            taken: with(self.taken, para),
        }
    }

    /// How the round goes on from here: turn after turn, until no para is left or the weight used
    /// up has reached the preferred weight. In the latter case the para whose turn it was is passed
    /// over.
    pub open spec fn finish(self, preferred_weight: nat, cost: spec_fn(Seq<u8>) -> nat) -> RoundState
        decreases self.pending.len() + backlog(self.pending, self.queues),
    {
        if self.cursor >= self.pending.len() {
            self
        } else if self.weight >= preferred_weight {
            RoundState { cursor: self.next_position(), ..self }
        } else {
            proof {
                lemma_turn_decreases(self, cost);
            }
            self.turn(cost).finish(preferred_weight, cost)
        }
    }

    /// The para at the cursor, if there is one: the next round starts with it.
    pub open spec fn next_start(self) -> Option<ParaId> {
        if self.cursor < self.pending.len() {
            Some(self.dispatchee())
        } else {
            None
        }
    }
}

/// A backlog does not grow when no queue grows, and shrinks when that of one listed para does.
pub proof fn lemma_backlog_shrinks(
    paras: Seq<ParaId>,
    before: Map<ParaId, Seq<Seq<u8>>>,
    after: Map<ParaId, Seq<Seq<u8>>>,
)
    requires
        forall|p: ParaId|
            (#[trigger] queue_of(after, p)).len() <= queue_of(before, p).len(),
    ensures
        backlog(paras, after) <= backlog(paras, before),
        forall|i: int|
            0 <= i < paras.len() && queue_of(after, #[trigger] paras[i]).len() < queue_of(
                before,
                paras[i],
            ).len() ==> backlog(paras, after) < backlog(paras, before),
    decreases paras.len(),
{
    if paras.len() > 0 {
        let init = paras.drop_last();
        lemma_backlog_shrinks(init, before, after);
        assert(queue_of(after, paras.last()).len() <= queue_of(before, paras.last()).len());
        assert forall|i: int|
            0 <= i < paras.len() && queue_of(after, #[trigger] paras[i]).len() < queue_of(
                before,
                paras[i],
            ).len() implies backlog(paras, after) < backlog(paras, before) by {
            if i < init.len() {
                assert(init[i] == paras[i]);
            }
        }
    }
}

/// The backlog of a part of the list is no more than that of the list, and a filter that does
/// not pass every para shortens the list.
pub proof fn lemma_backlog_filter(
    paras: Seq<ParaId>,
    keep: spec_fn(ParaId) -> bool,
    queues: Map<ParaId, Seq<Seq<u8>>>,
)
    ensures
        backlog(paras.filter(keep), queues) <= backlog(paras, queues),
        paras.filter(keep).len() <= paras.len(),
        forall|i: int|
            0 <= i < paras.len() && !keep(#[trigger] paras[i]) ==> paras.filter(keep).len()
                < paras.len(),
    decreases paras.len(),
{
    reveal(Seq::filter);
    if paras.len() > 0 {
        let init = paras.drop_last();
        lemma_backlog_filter(init, keep, queues);
        let kept = init.filter(keep);
        if keep(paras.last()) {
            assert(kept.push(paras.last()).drop_last() =~= kept);
        }
        assert forall|i: int| 0 <= i < paras.len() && !keep(#[trigger] paras[i]) implies paras.filter(
            keep,
        ).len() < paras.len() by {
            if i < init.len() {
                assert(init[i] == paras[i]);
            }
        }
    }
}

/// Every turn handles a message or takes a para off the list, so a round comes to an end.
pub proof fn lemma_turn_decreases(state: RoundState, cost: spec_fn(Seq<u8>) -> nat)
    requires
        state.cursor < state.pending.len(),
    ensures
        state.turn(cost).pending.len() + backlog(state.turn(cost).pending, state.turn(cost).queues)
            < state.pending.len() + backlog(state.pending, state.queues),
{
    let para = state.dispatchee();
    let queue = state.front_queue();
    let after = state.turn(cost);
    assert forall|p: ParaId|
        (#[trigger] queue_of(after.queues, p)).len() <= queue_of(state.queues, p).len() by {
        if p != para {
            assert(queue_of(after.queues, p) == queue_of(state.queues, p));
        }
    }
    lemma_backlog_shrinks(state.pending, state.queues, after.queues);
    assert(state.pending[state.cursor as int] == para);
    if rest_of(queue).len() == 0 {
        lemma_backlog_filter(state.pending, other_than(para), after.queues);
        assert(!other_than(para)(state.pending[state.cursor as int]));
    } else {
        assert(queue_of(after.queues, para).len() < queue_of(state.queues, para).len());
    }
}

/// A round of dispatching, without the messages: the paras that take turns, whose turn it is, and
/// the weight used up.
pub struct DispatchRound {
    needs_dispatch: Vec<ParaId>,
    idx: usize,
    weight: Weight,
}

impl DispatchRound {
    /// The paras that still have messages.
    pub closed spec fn pending(self) -> Seq<ParaId> {
        self.needs_dispatch@
    }

    /// The position of the para whose turn it is.
    pub closed spec fn cursor(self) -> nat {
        self.idx as nat
    }

    /// The weight used up so far.
    pub closed spec fn weight(self) -> Weight {
        self.weight
    }

    /// The paras are in ascending order.
    pub open spec fn wf(self) -> bool {
        ascending(self.pending())
    }

    /// Begins a round with the paras that need dispatching, at the para `start_with` if it is
    /// among them, and at the first otherwise.
    pub fn begin(needs_dispatch: Vec<ParaId>, start_with: Option<ParaId>) -> (round: DispatchRound)
        requires
            ascending(needs_dispatch@),
        ensures
            round.wf(),
            round.pending() == needs_dispatch@,
            round.cursor() == start_position(needs_dispatch@, start_with),
            round.weight() == 0,
    {
        let idx: usize = match start_with {
            Some(para) => match binary_search(&needs_dispatch, para) {
                Ok(found_idx) => {
                    proof {
                        assert(needs_dispatch@[found_idx as int] == para);
                        let i = needs_dispatch@.index_of(para);
                        assert(needs_dispatch@[i] == para);
                    }
                    found_idx
                },
                // The para that the last round left off at needs no dispatching any longer: the
                // first one is a safe choice.
                Err(_) => 0,
            },
            None => 0,
        };
        DispatchRound { needs_dispatch, idx, weight: 0 }
    }

    /// Gives the para whose turn it is, and passes the turn on.
    ///
    /// There is none when no para is left, and none either when the weight used up has reached
    /// `preferred_weight`; in the latter case the turn is passed on all the same.
    pub fn next_dispatchee(&mut self, preferred_weight: Weight) -> (dispatchee: Option<ParaId>)
        requires
            old(self).wf(),
        ensures
            final(self).wf(),
            final(self).pending() == old(self).pending(),
            final(self).weight() == old(self).weight(),
            final(self).cursor() == if old(self).cursor() < old(self).pending().len() {
                (old(self).cursor() + 1) as nat % old(self).pending().len()
            } else {
                old(self).cursor()
            },
            dispatchee == if old(self).cursor() < old(self).pending().len() && old(self).weight()
                < preferred_weight {
                Some(old(self).pending()[old(self).cursor() as int])
            } else {
                None
            },
    {
        if self.idx >= self.needs_dispatch.len() {
            return None;
        }
        let para = self.needs_dispatch[self.idx];
        self.idx = (self.idx + 1) % self.needs_dispatch.len();
        if self.weight >= preferred_weight {
            return None;
        }
        Some(para)
    }

    /// Books the turn of a para: the weight that it used up, and whether its queue is empty now. If
    /// it is, the para takes no further turns, and the next turn is that of the para behind it.
    pub fn settle(&mut self, dispatchee: ParaId, spent: Weight, drained: bool)
        requires
            old(self).wf(),
            old(self).weight() + spent <= u64::MAX,
        ensures
            final(self).wf(),
            final(self).cursor() == if drained && old(self).pending().contains(dispatchee) {
                position_after_removal(
                    without(old(self).pending(), dispatchee),
                    old(self).pending().index_of(dispatchee) as nat,
                )
            } else {
                old(self).cursor()
            },
            final(self).weight() == old(self).weight() + spent,
            final(self).pending() == if drained {
                without(old(self).pending(), dispatchee)
            } else {
                old(self).pending()
            },
    {
        self.weight = self.weight + spent;
        if drained {
            proof {
                lemma_filter_ascending(self.needs_dispatch@, other_than(dispatchee));
            }
            match binary_search(&self.needs_dispatch, dispatchee) {
                Ok(i) => {
                    proof {
                        lemma_without_at(self.needs_dispatch@, i as int);
                        assert(self.needs_dispatch@[i as int] == dispatchee);
                        let j = self.needs_dispatch@.index_of(dispatchee);
                        assert(self.needs_dispatch@[j] == dispatchee);
                        assert(j == i);
                    }
                    let _ = self.needs_dispatch.remove(i);
                    self.idx = if self.needs_dispatch.len() == 0 {
                        0
                    } else {
                        i % self.needs_dispatch.len()
                    };
                },
                Err(_) => {
                    proof {
                        lemma_without_absent(self.needs_dispatch@, dispatchee);
                    }
                },
            }
        }
    }

    /// Ends the round. Gives the paras that still need dispatching, and the para at the cursor, if
    /// there is one.
    pub fn finish(self) -> (r: (Vec<ParaId>, Option<ParaId>))
        ensures
            r.0@ == self.pending(),
            r.1 == if self.cursor() < self.pending().len() {
                Some(self.pending()[self.cursor() as int])
            } else {
                None
            },
    {
        let next_one = if self.idx < self.needs_dispatch.len() {
            Some(self.needs_dispatch[self.idx])
        } else {
            None
        };
        (self.needs_dispatch, next_one)
    }
}

} // verus!
