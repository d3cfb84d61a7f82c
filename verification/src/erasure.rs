//! Bulk erasure: a confirmation-gated operation that removes one user from
//! every item's want-set. Only an explicit confirmation touches the
//! registry; declining, silence and malformed responses all leave it alone.

use vstd::prelude::*;
use crate::registry::Database;
use crate::strcmp::str_eq;

verus! {

/// The response to the confirmation prompt.
#[derive(Clone, PartialEq, Eq, Debug)]
pub enum EraseEvent {
    Confirm,
    Decline,
    Timeout,
    Malformed,
}

/// How the erasure flow ends; the three non-confirmed outcomes differ only
/// in what is reported back.
#[derive(Clone, PartialEq, Eq, Debug)]
pub enum EraseOutcome {
    Confirmed,
    Declined,
    TimedOut,
    Aborted,
}

/// Resolves the confirmation prompt: only a confirmation erases the user
/// from every want-set; every other response leaves the registry untouched
/// and merely names its outcome.
pub fn erase_step(db: &mut Database, user: &str, event: EraseEvent) -> (r: EraseOutcome)
    requires
        old(db).wf(),
    ensures
        final(db).wf(),
        final(db).same_catalog(*old(db)),
        match event {
            EraseEvent::Confirm => r == EraseOutcome::Confirmed && forall|item: Seq<char>| #[trigger]
                final(db).want_set(item) == old(db).want_set(item).remove(user@),
            EraseEvent::Decline => r == EraseOutcome::Declined && forall|item: Seq<char>| #[trigger]
                final(db).want_set(item) == old(db).want_set(item),
            EraseEvent::Timeout => r == EraseOutcome::TimedOut && forall|item: Seq<char>| #[trigger]
                final(db).want_set(item) == old(db).want_set(item),
            EraseEvent::Malformed => r == EraseOutcome::Aborted && forall|item: Seq<char>| #[trigger]
                final(db).want_set(item) == old(db).want_set(item),
        },
{
    match event {
        EraseEvent::Confirm => {
            db.forget(user);
            EraseOutcome::Confirmed
        },
        EraseEvent::Decline => EraseOutcome::Declined,
        EraseEvent::Timeout => EraseOutcome::TimedOut,
        EraseEvent::Malformed => EraseOutcome::Aborted,
    }
}

/// Decodes a confirmation button press: the affirmative control confirms,
/// the negative declines, anything else is malformed.
pub fn parse_erase_button(id: &str) -> (r: EraseEvent)
    ensures
        id@ == "yes"@ ==> r == EraseEvent::Confirm,
        id@ == "no"@ ==> r == EraseEvent::Decline,
        id@ != "yes"@ && id@ != "no"@ ==> r == EraseEvent::Malformed,
{
    proof {
        reveal_strlit("yes");
        reveal_strlit("no");
        assert("yes"@.len() == 3 && "no"@.len() == 2);
    }
    if str_eq(id, "yes") {
        EraseEvent::Confirm
    } else if str_eq(id, "no") {
        EraseEvent::Decline
    } else {
        EraseEvent::Malformed
    }
}

} // verus!
