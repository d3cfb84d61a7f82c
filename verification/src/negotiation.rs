//! The claim negotiation: a finder announces a found item, the users who
//! want it are notified, and a time-boxed loop takes one event at a time —
//! the finder may cancel, anyone may claim, and anyone may report already
//! having the item — until a terminal outcome.

use vstd::prelude::*;
use crate::registry::Database;
use crate::strcmp::str_eq;
use crate::text::{distinct_entries, entry_views};

verus! {

/// One negotiation: who announced, what was found, and the want-set snapshot
/// taken at announcement time.
pub struct ClaimSession {
    pub finder: String,
    pub item: String,
    pub notified: Vec<String>,
}

/// One interactive event during the negotiation window.
#[derive(Clone, PartialEq, Eq, Debug)]
pub enum ClaimEvent {
    Cancel(String),
    Claim(String),
    AlreadyHave(String),
    Timeout,
    Malformed,
}

/// How a negotiation ends.
#[derive(Clone, PartialEq, Eq, Debug)]
pub enum ClaimOutcome {
    Claimed(String),
    Cancelled,
    TimedOut,
    Aborted,
}

/// The effect of one event: wait for the next event, wait after privately
/// telling an unauthorized canceller off, or end the negotiation.
#[derive(Clone, PartialEq, Eq, Debug)]
pub enum ClaimStep {
    Continue,
    Unauthorized(String),
    Finished(ClaimOutcome),
}

/// The spec-level image of an event: who did what, by text.
pub enum ClaimEventLabel {
    CancelBy(Seq<char>),
    ClaimBy(Seq<char>),
    AlreadyHaveBy(Seq<char>),
    NoResponse,
    Malformed,
}

pub enum ClaimOutcomeLabel {
    ClaimedBy(Seq<char>),
    CancelledEnd,
    TimedOutEnd,
    AbortedEnd,
}

pub enum ClaimStepLabel {
    KeepWaiting,
    RejectCancel(Seq<char>),
    Ended(ClaimOutcomeLabel),
}

impl ClaimEvent {
    pub open spec fn label(self) -> ClaimEventLabel {
        match self {
            ClaimEvent::Cancel(u) => ClaimEventLabel::CancelBy(u@),
            ClaimEvent::Claim(u) => ClaimEventLabel::ClaimBy(u@),
            ClaimEvent::AlreadyHave(u) => ClaimEventLabel::AlreadyHaveBy(u@),
            ClaimEvent::Timeout => ClaimEventLabel::NoResponse,
            ClaimEvent::Malformed => ClaimEventLabel::Malformed,
        }
    }
}

impl ClaimStep {
    pub open spec fn label(self) -> ClaimStepLabel {
        match self {
            ClaimStep::Continue => ClaimStepLabel::KeepWaiting,
            ClaimStep::Unauthorized(u) => ClaimStepLabel::RejectCancel(u@),
            ClaimStep::Finished(ClaimOutcome::Claimed(u)) => ClaimStepLabel::Ended(
                ClaimOutcomeLabel::ClaimedBy(u@),
            ),
            ClaimStep::Finished(ClaimOutcome::Cancelled) => ClaimStepLabel::Ended(
                ClaimOutcomeLabel::CancelledEnd,
            ),
            ClaimStep::Finished(ClaimOutcome::TimedOut) => ClaimStepLabel::Ended(
                ClaimOutcomeLabel::TimedOutEnd,
            ),
            ClaimStep::Finished(ClaimOutcome::Aborted) => ClaimStepLabel::Ended(
                ClaimOutcomeLabel::AbortedEnd,
            ),
        }
    }
}

/// What one event does to the found item's want-set and to the negotiation:
/// only the finder's cancel ends it cancelled; any claim ends it with the
/// claimant, touching nothing; an already-have removes just that user and
/// keeps the window open; silence times it out; a malformed response aborts
/// it. Nothing but an already-have changes the want-set.
pub open spec fn negotiation_step(
    wants: Set<Seq<char>>,
    finder: Seq<char>,
    event: ClaimEventLabel,
) -> (Set<Seq<char>>, ClaimStepLabel) {
    match event {
        ClaimEventLabel::CancelBy(u) => if u == finder {
            (wants, ClaimStepLabel::Ended(ClaimOutcomeLabel::CancelledEnd))
        } else {
            (wants, ClaimStepLabel::RejectCancel(u))
        },
        ClaimEventLabel::ClaimBy(u) => (
            wants,
            ClaimStepLabel::Ended(ClaimOutcomeLabel::ClaimedBy(u)),
        ),
        ClaimEventLabel::AlreadyHaveBy(u) => (wants.remove(u), ClaimStepLabel::KeepWaiting),
        ClaimEventLabel::NoResponse => (
            wants,
            ClaimStepLabel::Ended(ClaimOutcomeLabel::TimedOutEnd),
        ),
        ClaimEventLabel::Malformed => (
            wants,
            ClaimStepLabel::Ended(ClaimOutcomeLabel::AbortedEnd),
        ),
    }
}

/// Opens a negotiation for a found item: the notified users are exactly the
/// item's want-set as of this moment.
pub fn begin_claim(db: &Database, finder: String, item: String) -> (s: ClaimSession)
    requires
        db.wf(),
    ensures
        s.finder@ == finder@,
        s.item@ == item@,
        entry_views(s.notified@).to_set() == db.want_set(item@),
        distinct_entries(entry_views(s.notified@)),
{
    let notified = db.who_needs(item.as_str());
    ClaimSession { finder, item, notified }
}

/// Applies one event of the negotiation window: the registry and the answer
/// follow `negotiation_step` on the found item's want-set, and no other
/// item's want-set nor the catalog is touched.
pub fn claim_step(db: &mut Database, session: &ClaimSession, event: ClaimEvent) -> (r: ClaimStep)
    requires
        old(db).wf(),
    ensures
        final(db).wf(),
        (final(db).want_set(session.item@), r.label()) == negotiation_step(
            old(db).want_set(session.item@),
            session.finder@,
            event.label(),
        ),
        forall|other: Seq<char>|
            other != session.item@ ==> final(db).want_set(other) == old(db).want_set(other),
        final(db).same_catalog(*old(db)),
{
    match event {
        ClaimEvent::Cancel(user) => {
            if str_eq(user.as_str(), session.finder.as_str()) {
                ClaimStep::Finished(ClaimOutcome::Cancelled)
            } else {
                ClaimStep::Unauthorized(user)
            }
        },
        ClaimEvent::Claim(user) => ClaimStep::Finished(ClaimOutcome::Claimed(user)),
        ClaimEvent::AlreadyHave(user) => {
            db.remove(session.item.as_str(), user.as_str());
            ClaimStep::Continue
        },
        ClaimEvent::Timeout => ClaimStep::Finished(ClaimOutcome::TimedOut),
        ClaimEvent::Malformed => ClaimStep::Finished(ClaimOutcome::Aborted),
    }
}

/// Decodes a negotiation button press into its event: the claim, cancel and
/// already-have controls map to their events, anything else is malformed.
pub fn parse_claim_button(id: &str, user: String) -> (r: ClaimEvent)
    ensures
        id@ == "cancel"@ ==> r == ClaimEvent::Cancel(user),
        id@ == "claim"@ ==> r == ClaimEvent::Claim(user),
        id@ == "have"@ ==> r == ClaimEvent::AlreadyHave(user),
        id@ != "cancel"@ && id@ != "claim"@ && id@ != "have"@ ==> r == ClaimEvent::Malformed,
{
    proof {
        reveal_strlit("cancel");
        reveal_strlit("claim");
        reveal_strlit("have");
        assert("cancel"@.len() == 6 && "claim"@.len() == 5 && "have"@.len() == 4);
    }
    if str_eq(id, "cancel") {
        ClaimEvent::Cancel(user)
    } else if str_eq(id, "claim") {
        ClaimEvent::Claim(user)
    } else if str_eq(id, "have") {
        ClaimEvent::AlreadyHave(user)
    } else {
        ClaimEvent::Malformed
    }
}

/// If one wanter reports already having the item and another then claims it,
/// the negotiation ends claimed by the second: the first no longer wants the
/// item, and the claim itself changes nobody's want-set — the second user's
/// membership is exactly what it was after the report.
pub proof fn lemma_already_have_then_claim(
    wants: Set<Seq<char>>,
    finder: Seq<char>,
    a: Seq<char>,
    b: Seq<char>,
)
    requires
        a != b,
    ensures
        ({
            let (w1, s1) = negotiation_step(wants, finder, ClaimEventLabel::AlreadyHaveBy(a));
            let (w2, s2) = negotiation_step(w1, finder, ClaimEventLabel::ClaimBy(b));
            &&& s1 == ClaimStepLabel::KeepWaiting
            &&& s2 == ClaimStepLabel::Ended(ClaimOutcomeLabel::ClaimedBy(b))
            &&& !w2.contains(a)
            &&& w2.contains(b) == wants.contains(b)
            &&& w2 == w1
        }),
{
}

/// Only the finder's cancel ends the negotiation: any other user's cancel is
/// rejected with a private notice, changes nothing, and the window stays
/// open.
pub proof fn lemma_only_finder_cancels(wants: Set<Seq<char>>, finder: Seq<char>, u: Seq<char>)
    ensures
        u != finder ==> negotiation_step(wants, finder, ClaimEventLabel::CancelBy(u)) == (
            wants,
            ClaimStepLabel::RejectCancel(u),
        ),
        negotiation_step(wants, finder, ClaimEventLabel::CancelBy(finder)) == (
            wants,
            ClaimStepLabel::Ended(ClaimOutcomeLabel::CancelledEnd),
        ),
{
}

/// Silence ends the negotiation timed out and leaves the want-set exactly as
/// it stood — any already-have events handled earlier included, nothing
/// else.
pub proof fn lemma_timeout_leaves_registry(wants: Set<Seq<char>>, finder: Seq<char>)
    ensures
        negotiation_step(wants, finder, ClaimEventLabel::NoResponse) == (
            wants,
            ClaimStepLabel::Ended(ClaimOutcomeLabel::TimedOutEnd),
        ),
{
}

} // verus!
