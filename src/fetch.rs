use vstd::prelude::*;
use crate::package::{AurPackage, packages_view};
use crate::results::ResultState;
use crate::sorting::{SortMode, sorted_by, sort_packages};
use crate::package::PackageView;

verus! {

/// What the result area shows.
#[derive(Clone, Copy, PartialEq, Eq, Structural)]
pub enum FetchPhase {
    Loading,
    Populated,
    Empty,
    Failed,
}

/// Which request a fetch makes.
#[derive(Clone, Copy, PartialEq, Eq, Structural)]
pub enum FetchKind {
    /// The most recently modified packages: the first load and every retry.
    Recent,
    /// The packages that match a search term.
    Search,
}

/// What came back from the metadata service.
pub enum FetchOutcome {
    Loaded(Vec<AurPackage>),
    Failed,
}

/// How many packages the first load and a retry ask for.
pub const RECENT_COUNT: usize = 50;

/// Tracks the one fetch whose response may still be applied. Every fetch
/// gets a ticket, the generation at which it was started; a response that
/// carries an older ticket has been superseded and is dropped.
pub struct FetchTracker {
    pub generation: u64,
    pub kind: FetchKind,
    pub phase: FetchPhase,
}

/// The phase that a response moves to.
pub open spec fn phase_after(kind: FetchKind, outcome: FetchOutcome) -> FetchPhase {
    match outcome {
        FetchOutcome::Failed => FetchPhase::Failed,
        FetchOutcome::Loaded(v) => if kind == FetchKind::Search && v@.len() == 0 {
            FetchPhase::Empty
        } else {
            FetchPhase::Populated
        },
    }
}

impl FetchTracker {
    /// Nothing started yet; the result area shows the loading view until
    /// the first load answers.
    pub fn new() -> (r: FetchTracker)
        ensures
            r.generation == 0,
            r.kind == FetchKind::Recent,
            r.phase == FetchPhase::Loading,
    {
        FetchTracker { generation: 0, kind: FetchKind::Recent, phase: FetchPhase::Loading }
    }

    /// Starts a fetch of `kind`, superseding any that is in flight, and
    /// returns its ticket.
    pub fn begin(&mut self, kind: FetchKind) -> (ticket: u64)
        requires
            old(self).generation < u64::MAX,
        ensures
            ticket == old(self).generation + 1,
            final(self).generation == ticket,
            final(self).kind == kind,
            final(self).phase == FetchPhase::Loading,
    {
        self.generation = self.generation + 1;
        self.kind = kind;
        self.phase = FetchPhase::Loading;
        self.generation
    }

    /// Whether a response with `ticket` would be applied: it belongs to the
    /// latest fetch, and that fetch has not been answered yet.
    pub fn is_current(&self, ticket: u64) -> (r: bool)
        ensures
            r == (ticket == self.generation && self.phase == FetchPhase::Loading),
    {
        ticket == self.generation && self.phase == FetchPhase::Loading
    }

    /// Applies the response to the fetch with `ticket`, or drops it when a
    /// later fetch has started since. An applied list replaces the results;
    /// an applied failure leaves them as they were. Bookmarks never change.
    pub fn finish(&mut self, ticket: u64, outcome: FetchOutcome, state: &mut ResultState) -> (applied: bool)
        ensures
            applied == (ticket == old(self).generation && old(self).phase == FetchPhase::Loading),
            final(self).generation == old(self).generation,
            final(self).kind == old(self).kind,
            final(state).marks() == old(state).marks(),
            !applied ==> final(self).phase == old(self).phase && final(state).results_view() == old(state).results_view(),
            applied ==> final(self).phase == phase_after(old(self).kind, outcome),
            applied ==> match outcome {
                FetchOutcome::Loaded(v) => final(state).results_view() == packages_view(v@),
                FetchOutcome::Failed => final(state).results_view() == old(state).results_view(),
            },
    {
        if !self.is_current(ticket) {
            return false;
        }
        match outcome {
            FetchOutcome::Loaded(v) => {
                if self.kind == FetchKind::Search && v.len() == 0 {
                    self.phase = FetchPhase::Empty;
                } else {
                    self.phase = FetchPhase::Populated;
                }
                state.replace_results(v);
            },
            FetchOutcome::Failed => {
                self.phase = FetchPhase::Failed;
            },
        }
        true
    }
}

/// The `count` most recently modified packages of a listing, newest first;
/// packages modified at the same time keep their listing order.
pub fn select_recent(packages: Vec<AurPackage>, count: usize) -> (r: Vec<AurPackage>)
    ensures
        exists|s: Seq<PackageView>| {
            &&& sorted_by(SortMode::LastModified, packages_view(packages@), s)
            &&& packages_view(r@) == s.take(if count < s.len() { count as int } else { s.len() as int })
        },
{
    let mut v = packages;
    sort_packages(&mut v, SortMode::LastModified);
    let ghost s = packages_view(v@);
    v.truncate(count);
    assert(packages_view(v@) =~= s.take(if count < s.len() { count as int } else { s.len() as int }));
    v
}

/// The first package of a listing, if there is one.
pub fn first_result(packages: Vec<AurPackage>) -> (r: Option<AurPackage>)
    ensures
        packages@.len() == 0 <==> r is None,
        r matches Some(p) ==> p@ == packages@[0]@,
{
    let mut v = packages;
    if v.len() == 0 {
        None
    } else {
        Some(v.remove(0))
    }
}

} // verus!
