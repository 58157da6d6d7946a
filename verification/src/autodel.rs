//! The decision core of the auto-delete toggle command: the new flag and
//! the reply announcing it.

use vstd::prelude::*;

verus! {

/// The reply when auto-deletion was just switched on.
pub open spec fn will_auto_delete_text() -> Seq<char> {
    "Bot will auto delete message."@
}

/// The reply when auto-deletion was just switched off.
pub open spec fn wont_auto_delete_text() -> Seq<char> {
    "Bot won't auto delete message."@
}

/// Flips the auto-delete flag and chooses the reply that announces the
/// new state.
pub fn auto_delete_toggle(current: bool) -> (r: (bool, String))
    ensures
        r.0 == !current,
        !current ==> r.1@ == will_auto_delete_text(),
        current ==> r.1@ == wont_auto_delete_text(),
{
    if !current {
        (true, "Bot will auto delete message.".to_owned())
    } else {
        (false, "Bot won't auto delete message.".to_owned())
    }
}

} // verus!
