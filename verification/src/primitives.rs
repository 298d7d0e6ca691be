//! Identifiers and messages.
use vstd::prelude::*;

verus! {

/// The identifier of a para.
#[derive(Clone, Copy, Debug, PartialEq, Eq, PartialOrd, Ord, Hash, Structural)]
pub struct ParaId(pub u32);

/// A message that a para sends to the relay chain.
pub type UpwardMessage = Vec<u8>;

/// A message that the relay chain sends to a para.
pub type DownwardMessage = Vec<u8>;

/// The hash that heads a message queue chain.
pub type Hash = [u8; 32];

/// A downward message with the relay-chain block at which it was sent.
pub struct InboundDownwardMessage<BlockNumber> {
    /// The block number at which this message was put into the queue.
    pub sent_at: BlockNumber,
    /// The message itself.
    pub msg: DownwardMessage,
}

/// The contents of a run of messages.
pub open spec fn contents(messages: Seq<UpwardMessage>) -> Seq<Seq<u8>> {
    messages.map_values(|message: UpwardMessage| message@)
}

/// The size of a run of messages: the length of their payloads in bytes.
pub open spec fn payload_size(messages: Seq<Seq<u8>>) -> nat
    decreases messages.len(),
{
    if messages.len() == 0 {
        0
    } else {
        payload_size(messages.drop_last()) + messages.last().len()
    }
}

/// The size of two runs of messages, one behind the other, is the sum of their sizes.
pub proof fn lemma_payload_size_add(a: Seq<Seq<u8>>, b: Seq<Seq<u8>>)
    ensures
        payload_size(a + b) == payload_size(a) + payload_size(b),
    decreases b.len(),
{
    if b.len() == 0 {
        assert(a + b =~= a);
    } else {
        assert((a + b).drop_last() =~= a + b.drop_last());
        lemma_payload_size_add(a, b.drop_last());
    }
}

} // verus!
