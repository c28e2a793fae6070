//! The verbs a command may carry.

use vstd::prelude::*;

verus! {

/// "get" command string
pub const COMMAND_GET: &'static str = "get";

/// "set" command string
pub const COMMAND_SET: &'static str = "set";

/// "increment" command string
pub const COMMAND_INCREMENT: &'static str = "increment";

/// "decrement" command string
pub const COMMAND_DECREMENT: &'static str = "decrement";

/// "toggle" command string
pub const COMMAND_TOGGLE: &'static str = "toggle";

/// "subscribe" command string
pub const COMMAND_SUBSCRIBE: &'static str = "subscribe";

/// "unsubscribe" command string
pub const COMMAND_UNSUBSCRIBE: &'static str = "unsubscribe";

} // verus!
