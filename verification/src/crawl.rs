//! The decisions of a run over many usernames: which account comes next, how long
//! to wait before it, the time estimate shown, and which results are kept.
use vstd::prelude::*;
use crate::output::CrawlResult;
use crate::scrape::{outcome_of, ScrapeError, ScrapeErrorView, ScrapeOutcome};
use crate::text::texts;

verus! {

/// What to do next in a run.
#[derive(Debug)]
pub enum Step {
    /// Wait `wait_secs` seconds, report about `eta_minutes` minutes left, then
    /// fetch the profile of `username` (the `index`-th requested) and hand the
    /// outcome to [`Crawl::record`].
    Fetch { index: usize, username: String, wait_secs: u64, eta_minutes: u64 },
    /// Every username has been handled.
    Done,
}

/// The counts of each success among `outcomes`, in order; failures are skipped.
pub open spec fn successes(outcomes: Seq<ScrapeOutcome>) -> Seq<(Seq<char>, u64, u64)>
    decreases outcomes.len(),
{
    if outcomes.len() == 0 {
        Seq::empty()
    } else {
        let earlier = successes(outcomes.drop_last());
        match outcomes.last() {
            Ok(c) => earlier.push(c),
            Err(_) => earlier,
        }
    }
}

proof fn lemma_successes_len(outcomes: Seq<ScrapeOutcome>)
    ensures
        successes(outcomes).len() <= outcomes.len(),
    decreases outcomes.len(),
{
    if outcomes.len() > 0 {
        lemma_successes_len(outcomes.drop_last());
    }
}

/// The positions of the successes among `outcomes`, in increasing order.
pub open spec fn success_indices(outcomes: Seq<ScrapeOutcome>) -> Seq<int>
    decreases outcomes.len(),
{
    if outcomes.len() == 0 {
        Seq::empty()
    } else {
        let earlier = success_indices(outcomes.drop_last());
        match outcomes.last() {
            Ok(_) => earlier.push(outcomes.len() - 1),
            Err(_) => earlier,
        }
    }
}

/// Every success among `outcomes` is for the username handled at its position.
pub open spec fn successes_match(outcomes: Seq<ScrapeOutcome>, usernames: Seq<Seq<char>>) -> bool {
    forall|i: int|
        0 <= i < outcomes.len() ==> (#[trigger] outcomes[i] matches Ok(c) ==> c.0 == usernames[i])
}

proof fn lemma_success_indices(outcomes: Seq<ScrapeOutcome>)
    ensures
        success_indices(outcomes).len() == successes(outcomes).len(),
        forall|j: int|
            0 <= j < success_indices(outcomes).len() ==> {
                let i = #[trigger] success_indices(outcomes)[j];
                &&& 0 <= i < outcomes.len()
                &&& outcomes[i] == Ok::<(Seq<char>, u64, u64), ScrapeErrorView>(
                    successes(outcomes)[j],
                )
            },
        forall|j: int, k: int|
            0 <= j < k < success_indices(outcomes).len() ==> success_indices(outcomes)[j]
                < success_indices(outcomes)[k],
    decreases outcomes.len(),
{
    if outcomes.len() > 0 {
        let o = outcomes.drop_last();
        lemma_success_indices(o);
        assert forall|j: int| 0 <= j < success_indices(o).len() implies #[trigger] outcomes[success_indices(o)[j]] == o[success_indices(o)[j]] by {}
    }
}

/// The counts that a result holds.
pub open spec fn result_view(r: CrawlResult) -> (Seq<char>, u64, u64) {
    (r.username@, r.followers, r.following)
}

/// The minutes a run is estimated to still take with `remaining` usernames left
/// and `delay` seconds between them, counting one second per fetch.
pub open spec fn eta_minutes_spec(remaining: nat, delay: u64) -> int {
    (remaining * (delay + 1)) / 60
}

/// The state of a run.
pub struct Crawl {
    usernames: Vec<String>,
    delay: u64,
    next: usize,
    results: Vec<CrawlResult>,
    outcomes: Ghost<Seq<ScrapeOutcome>>,
}

/// A run seen as plain values.
pub struct CrawlView {
    /// The usernames requested, in order.
    pub usernames: Seq<Seq<char>>,
    /// Seconds to wait between two usernames.
    pub delay: u64,
    /// How many usernames have been handled.
    pub next: nat,
    /// The outcome of each handled username, in order.
    pub outcomes: Seq<ScrapeOutcome>,
    /// The results kept so far.
    pub results: Seq<(Seq<char>, u64, u64)>,
}

impl View for Crawl {
    type V = CrawlView;

    closed spec fn view(&self) -> CrawlView {
        CrawlView {
            usernames: texts(self.usernames@),
            delay: self.delay,
            next: self.next as nat,
            outcomes: self.outcomes@,
            results: self.results@.map_values(|r: CrawlResult| result_view(r)),
        }
    }
}

impl Crawl {
    /// The run's invariant: handled at most every username, one outcome recorded
    /// per handled username, each success for the username it was recorded for,
    /// the results being exactly the successes, and every time estimate fitting
    /// in 64 bits.
    pub closed spec fn wf(&self) -> bool {
        &&& self.next <= self.usernames.len()
        &&& self.outcomes@.len() == self.next
        &&& successes_match(self.outcomes@, texts(self.usernames@))
        &&& self.results@.map_values(|r: CrawlResult| result_view(r)) == successes(self.outcomes@)
        &&& self.usernames.len() * (self.delay + 1) <= u64::MAX
    }

    /// A run over `usernames`, waiting `delay` seconds between two of them.
    pub fn new(usernames: Vec<String>, delay: u64) -> (c: Crawl)
        requires
            usernames.len() * (delay + 1) <= u64::MAX,
        ensures
            c.wf(),
            c@.usernames == texts(usernames@),
            c@.delay == delay,
            c@.next == 0,
            c@.outcomes == Seq::<ScrapeOutcome>::empty(),
            c@.results == Seq::<(Seq<char>, u64, u64)>::empty(),
    {
        let c = Crawl { usernames, delay, next: 0, results: Vec::new(), outcomes: Ghost(Seq::empty()) };
        assert(c.results@.map_values(|r: CrawlResult| result_view(r)) =~= successes(c.outcomes@));
        c
    }

    /// What to do next: fetch the next username (waiting `delay` seconds before
    /// every fetch but the first), or stop when all are handled.
    pub fn next_step(&self) -> (s: Step)
        requires
            self.wf(),
        ensures
            self@.next == self@.usernames.len() ==> s is Done,
            self@.next < self@.usernames.len() ==> ({
                &&& s matches Step::Fetch { index, username, wait_secs, eta_minutes }
                &&& index == self@.next
                &&& username@ == self@.usernames[index as int]
                &&& wait_secs == (if self@.next == 0 { 0 } else { self@.delay })
                &&& eta_minutes == eta_minutes_spec(
                    (self@.usernames.len() - self@.next) as nat,
                    self@.delay,
                )
            }),
    {
        if self.next == self.usernames.len() {
            return Step::Done;
        }
        let remaining = (self.usernames.len() - self.next) as u64;
        proof {
            assert(self.delay + 1 <= remaining * (self.delay + 1) <= self.usernames.len() * (
            self.delay + 1)) by (nonlinear_arith)
                requires
                    1 <= remaining <= self.usernames.len(),
            ;
        }
        let eta = remaining * (self.delay + 1) / 60;
        let wait = if self.next == 0 { 0 } else { self.delay };
        assert(texts(self.usernames@)[self.next as int] == self.usernames@[self.next as int]@);
        Step::Fetch {
            index: self.next,
            username: self.usernames[self.next].clone(),
            wait_secs: wait,
            eta_minutes: eta,
        }
    }

    /// Records the outcome for the username just fetched: a success (which is for
    /// that username) is kept as a result, a failure is skipped.
    pub fn record(&mut self, outcome: Result<CrawlResult, ScrapeError>)
        requires
            old(self).wf(),
            old(self)@.next < old(self)@.usernames.len(),
            outcome matches Ok(c) ==> c.username@ == old(self)@.usernames[old(self)@.next as int],
        ensures
            final(self).wf(),
            final(self)@.usernames == old(self)@.usernames,
            final(self)@.delay == old(self)@.delay,
            final(self)@.next == old(self)@.next + 1,
            final(self)@.outcomes == old(self)@.outcomes.push(outcome_of(outcome)),
            final(self)@.results == match outcome {
                Ok(c) => old(self)@.results.push(result_view(c)),
                Err(_) => old(self)@.results,
            },
    {
        let ghost before = self.outcomes@;
        let ghost after = before.push(outcome_of(outcome));
        assert(after.drop_last() == before);
        match outcome {
            Ok(c) => {
                self.results.push(c);
            },
            Err(_) => {},
        }
        self.next = self.next + 1;
        self.outcomes = Ghost(after);
        assert forall|i: int| 0 <= i < after.len() implies (#[trigger] after[i] matches Ok(c) ==> c.0
            == texts(self.usernames@)[i]) by {
            if i < before.len() {
                assert(after[i] == before[i]);
            }
        }
        assert(self.results@.map_values(|r: CrawlResult| result_view(r)) =~= successes(after));
    }

    /// The results kept so far.
    pub fn results(&self) -> (r: &Vec<CrawlResult>)
        ensures
            r@.map_values(|x: CrawlResult| result_view(x)) == self@.results,
    {
        &self.results
    }

    /// When the run ended with fewer results than usernames requested: how many
    /// were requested and how many results there are.
    pub fn shortfall(&self) -> (r: Option<(usize, usize)>)
        requires
            self.wf(),
        ensures
            r is Some <==> self@.results.len() != self@.usernames.len(),
            r matches Some((requested, got)) ==> requested == self@.usernames.len() && got
                == self@.results.len(),
    {
        if self.results.len() != self.usernames.len() {
            Some((self.usernames.len(), self.results.len()))
        } else {
            None
        }
    }
}

/// Run law: at every point of a run the results are exactly the successful
/// outcomes so far, in the order the usernames were handled, so there are never
/// more results than usernames handled, nor more usernames handled than requested;
/// the `j`-th result is for the username requested at position
/// `success_indices(outcomes)[j]`, and those positions increase.
pub proof fn lemma_run_results(c: Crawl)
    requires
        c.wf(),
    ensures
        c@.results == successes(c@.outcomes),
        c@.outcomes.len() == c@.next,
        c@.results.len() <= c@.next <= c@.usernames.len(),
        success_indices(c@.outcomes).len() == c@.results.len(),
        forall|j: int|
            0 <= j < c@.results.len() ==> {
                let i = #[trigger] success_indices(c@.outcomes)[j];
                &&& 0 <= i < c@.next
                &&& c@.outcomes[i] is Ok
                &&& c@.results[j].0 == c@.usernames[i]
            },
        forall|j: int, k: int|
            0 <= j < k < c@.results.len() ==> success_indices(c@.outcomes)[j] < success_indices(
                c@.outcomes,
            )[k],
{
    lemma_successes_len(c.outcomes@);
    lemma_success_indices(c.outcomes@);
}

} // verus!
