//! The one classifier of base suspension sources: the may-block intrinsics and the
//! suspending conduit (channel / task-handle) methods.
use vstd::prelude::*;

use crate::text::str_eq;

verus! {

/// The may-block intrinsics: `sleep` and the internal `__testFallibleAsync`.
pub open spec fn spec_is_base_suspension_intrinsic(name: Seq<char>) -> bool {
    name == "sleep"@ || name == "__testFallibleAsync"@
}

/// Is `name` a may-block intrinsic?
pub fn is_base_suspension_intrinsic(name: &str) -> (b: bool)
    ensures
        b == spec_is_base_suspension_intrinsic(name@),
{
    str_eq(name, "sleep") || str_eq(name, "__testFallibleAsync")
}

/// `send` and `receive` suspend when called on a channel or task-handle binding.
pub open spec fn spec_channel_method_suspends(receiver_is_conduit: bool, method: Seq<char>) -> bool {
    receiver_is_conduit && (method == "send"@ || method == "receive"@)
}

/// Does calling `method` on a receiver suspend?
pub fn channel_method_suspends(receiver_is_conduit: bool, method: &str) -> (b: bool)
    ensures
        b == spec_channel_method_suspends(receiver_is_conduit, method@),
{
    receiver_is_conduit && (str_eq(method, "send") || str_eq(method, "receive"))
}

} // verus!
