//! Display settings supplied by the user interface.
use std::collections::HashMap;
use vstd::prelude::*;

verus! {

/// Per-command display settings. Both maps may be partial.
pub struct CommandConfig {
    /// Colour of each command as six hex digits, with or without a
    /// leading `#`.
    pub colors: HashMap<u8, String>,
    /// Duration of each command, as the bit pattern of an IEEE-754
    /// single-precision value.
    pub clock_periods: HashMap<u8, u32>,
}

/// Shape of the simulated memory system, as the user described it.
#[derive(Debug, Clone, Copy, PartialEq, Eq, Structural)]
pub struct MemoryLayout {
    pub num_channels: u8,
    pub num_bankgroups: u8,
    pub num_banks: u8,
}

impl CommandConfig {
    /// A configuration with no colours and no durations.
    pub fn new() -> (r: CommandConfig)
        ensures
            r.colors@ == Map::<u8, String>::empty(),
            r.clock_periods@ == Map::<u8, u32>::empty(),
    {
        CommandConfig { colors: HashMap::new(), clock_periods: HashMap::new() }
    }
}

} // verus!
