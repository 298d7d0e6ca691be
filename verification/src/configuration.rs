//! The limits that the chain is configured with.
use vstd::prelude::*;

use crate::weights::Weight;

verus! {

/// What the router reads of the configuration of the relay chain.
#[derive(Clone, Copy, Debug, PartialEq, Eq, Structural)]
pub struct HostConfiguration {
    /// How many upward messages one candidate may send.
    pub max_upward_message_num_per_candidate: u32,
    /// How many messages the dispatch queue of one para may hold.
    pub max_upward_queue_count: u32,
    /// How many bytes the messages in the dispatch queue of one para may have in all.
    pub max_upward_queue_size: u32,
    /// The weight that a dispatch round may use up before it takes no further message.
    pub preferred_dispatchable_upward_messages_step_weight: Weight,
    /// The largest estimated weight with which a message is executed.
    pub dispatchable_upward_message_critical_weight: Weight,
}

impl Default for HostConfiguration {
    fn default() -> (config: Self)
        ensures
            config == (HostConfiguration {
                max_upward_message_num_per_candidate: 0,
                max_upward_queue_count: 0,
                max_upward_queue_size: 0,
                preferred_dispatchable_upward_messages_step_weight: 0,
                dispatchable_upward_message_critical_weight: 0,
            }),
    {
        HostConfiguration {
            max_upward_message_num_per_candidate: 0,
            max_upward_queue_count: 0,
            max_upward_queue_size: 0,
            preferred_dispatchable_upward_messages_step_weight: 0,
            dispatchable_upward_message_critical_weight: 0,
        }
    }
}

} // verus!
