//! The paginated fetch session.
//!
//! One search is a session: issue a request, look at what came back,
//! decide, repeat. The session itself performs no transport; the caller
//! fetches a page, reports it as an event, and is told what to do next.
//! An empty page means the upstream is still materializing its
//! continuation token: the same request is retried after a delay, at
//! most as many times as the retry budget allows. A rejected credential
//! aborts the whole session at once, discarding everything accumulated.

use vstd::prelude::*;
use crate::places::GeoPoint;
use crate::places::RawPlace;
use crate::places::ResultSet;
use crate::places::merged_map;

verus! {

/// Why a session aborted.
#[derive(Clone, Copy, PartialEq, Eq, Structural, Debug)]
pub enum FetchError {
    /// The upstream rejected the credential; fatal for the whole run.
    Auth,
    /// Any other non-success response or malformed payload.
    Transport,
    /// The upstream kept answering with empty pages until the retry
    /// budget ran out.
    RetriesExhausted,
}

/// What one round of the protocol brought back.
pub enum PageEvent {
    /// A well-formed page: its places and an optional continuation
    /// token.
    Page { places: Vec<RawPlace>, token: Option<String> },
    /// The upstream rejected the credential.
    Unauthorized,
    /// Any other non-success response or a payload that would not
    /// parse.
    Failure,
}

/// What the caller must do next.
pub enum Action {
    /// Reissue the same request, after a delay.
    Retry,
    /// Request the next page with this token, echoed verbatim.
    Advance(String),
    /// The session is finished; take the results.
    Complete,
    /// The session is dead; nothing is returned.
    Abort(FetchError),
}

/// Where a session stands.
#[derive(Clone, Copy, PartialEq, Eq, Structural, Debug)]
pub enum Phase {
    Active,
    Finished,
    Aborted,
}

/// A paginated search session: the places accumulated so far, the
/// number of empty-page retries still allowed, and where it stands.
pub struct FetchSession {
    pub results: ResultSet,
    pub retries_left: u64,
    pub phase: Phase,
}

impl FetchSession {
    /// Open a session for a search from the given origin, allowing the
    /// given number of retries on empty pages.
    pub fn begin(origin: GeoPoint, retry_budget: u64) -> (s: FetchSession)
        ensures
            s.phase is Active,
            s.results.wf(),
            s.results.as_map() == Map::<Seq<char>, (bool, GeoPoint)>::empty(),
            s.results.origin == origin,
            s.results.entries@.len() == 0,
            s.retries_left == retry_budget,
    {
        FetchSession {
            results: ResultSet::new(origin),
            retries_left: retry_budget,
            phase: Phase::Active,
        }
    }

    /// Take one step of the protocol. A rejected credential or a
    /// failure aborts; an empty page leaves the results untouched and
    /// asks for the same request again while the retry budget lasts; a
    /// page with places is folded in, and its token decides whether the
    /// session advances or completes.
    pub fn on_event(&mut self, event: PageEvent) -> (a: Action)
        requires
            old(self).phase is Active,
            old(self).results.wf(),
        ensures
            final(self).results.wf(),
            final(self).results.origin == old(self).results.origin,
            event is Unauthorized ==> a == Action::Abort(FetchError::Auth)
                && final(self).phase is Aborted,
            event is Failure ==> a == Action::Abort(FetchError::Transport)
                && final(self).phase is Aborted,
            event matches PageEvent::Page { places, token } ==> ((places@.len() == 0
                && old(self).retries_left > 0 ==> a == Action::Retry
                && final(self).phase is Active
                && final(self).results == old(self).results
                && final(self).retries_left == old(self).retries_left - 1) && (
            places@.len() == 0 && old(self).retries_left == 0 ==> a == Action::Abort(
                FetchError::RetriesExhausted,
            ) && final(self).phase is Aborted) && (places@.len() > 0
                ==> final(self).results.as_map() == merged_map(old(self).results.as_map(), places@)
                && final(self).retries_left == old(self).retries_left && (match token {
                Option::Some(t) => a == Action::Advance(t) && final(self).phase is Active,
                Option::None => a == Action::Complete && final(self).phase is Finished,
            }))),
    {
        match event {
            PageEvent::Unauthorized => {
                self.phase = Phase::Aborted;
                Action::Abort(FetchError::Auth)
            },
            PageEvent::Failure => {
                self.phase = Phase::Aborted;
                Action::Abort(FetchError::Transport)
            },
            PageEvent::Page { places, token } => {
                if places.len() == 0 {
                    if self.retries_left > 0 {
                        self.retries_left = self.retries_left - 1;
                        Action::Retry
                    } else {
                        self.phase = Phase::Aborted;
                        Action::Abort(FetchError::RetriesExhausted)
                    }
                } else {
                    self.results.merge_page(&places);
                    match token {
                        Option::Some(t) => Action::Advance(t),
                        Option::None => {
                            self.phase = Phase::Finished;
                            Action::Complete
                        },
                    }
                }
            },
        }
    }

    /// Close a finished session and hand its results over. An aborted
    /// session never reaches this point: whatever it had accumulated is
    /// discarded with it.
    pub fn into_results(self) -> (r: ResultSet)
        requires
            self.phase is Finished,
        ensures
            r == self.results,
    {
        self.results
    }
}

/// How the upstream answered, read off its status code: 200 carries a
/// page, 401 means the credential was rejected, and anything else is a
/// failure.
#[derive(Clone, Copy, PartialEq, Eq, Structural, Debug)]
pub enum StatusClass {
    Success,
    Unauthorized,
    Failure,
}

/// Classify an upstream status code as the session protocol reads it.
pub fn classify_status(code: u16) -> (c: StatusClass)
    ensures
        c is Success <==> code == 200,
        c is Unauthorized <==> code == 401,
        c is Failure <==> (code != 200 && code != 401),
{
    if code == 200 {
        StatusClass::Success
    } else if code == 401 {
        StatusClass::Unauthorized
    } else {
        StatusClass::Failure
    }
}

} // verus!
