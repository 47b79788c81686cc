//! Downloading page contents round by round until no download fails.
//!
//! The downloader attempts nothing itself. It names the entry to attempt,
//! takes the outcome, and after every entry of a round was attempted starts
//! the next round on those that failed.

use vstd::prelude::*;
use crate::tree::{page_views, section_views, PageVO, PageView, SectionVO, SectionView};

verus! {

/// A page whose content is to be downloaded: its id and where its content
/// lies.
#[derive(Debug, PartialEq, Eq)]
pub struct Leaf {
    pub id: String,
    pub content_url: String,
}

/// A [`Leaf`] as a mathematical value.
pub struct LeafView {
    pub id: Seq<char>,
    pub content_url: Seq<char>,
}

impl View for Leaf {
    type V = LeafView;

    open spec fn view(&self) -> LeafView {
        LeafView { id: self.id@, content_url: self.content_url@ }
    }
}

impl Clone for Leaf {
    fn clone(&self) -> (r: Self)
        ensures
            r@ == self@,
    {
        Leaf { id: self.id.clone(), content_url: self.content_url.clone() }
    }
}

/// The views of a sequence of leaves, one for one.
pub open spec fn leaf_views(s: Seq<Leaf>) -> Seq<LeafView> {
    s.map_values(|l: Leaf| l@)
}

/// Whether no id occurs twice in `s`.
pub open spec fn distinct_ids(s: Seq<LeafView>) -> bool {
    forall|i: int, j: int| 0 <= i < j < s.len() ==> (#[trigger] s[i]).id != (#[trigger] s[j]).id
}

/// Where `id` occurs in `s`; `None` where it does not.
pub open spec fn position_of(s: Seq<LeafView>, id: Seq<char>) -> Option<int>
    decreases s.len(),
{
    if s.len() == 0 {
        None
    } else if s[0].id == id {
        Some(0)
    } else {
        match position_of(s.drop_first(), id) {
            Some(i) => Some(i + 1),
            None => None,
        }
    }
}

/// What `position_of` finds: the first entry with that id, and `None` only
/// where there is none.
pub proof fn lemma_position_of(s: Seq<LeafView>, id: Seq<char>)
    ensures
        match position_of(s, id) {
            Some(i) => 0 <= i < s.len() && s[i].id == id && forall|j: int|
                0 <= j < i ==> (#[trigger] s[j]).id != id,
            None => forall|j: int| 0 <= j < s.len() ==> (#[trigger] s[j]).id != id,
        },
    decreases s.len(),
{
    if s.len() > 0 && s[0].id != id {
        let rest = s.drop_first();
        lemma_position_of(rest, id);
        match position_of(rest, id) {
            Some(i) => {
                assert forall|j: int| 0 <= j < i + 1 implies (#[trigger] s[j]).id != id by {
                    if j > 0 {
                        assert(rest[j - 1] == s[j]);
                    }
                }
            },
            None => {
                assert forall|j: int| 0 <= j < s.len() implies (#[trigger] s[j]).id != id by {
                    if j > 0 {
                        assert(rest[j - 1] == s[j]);
                    }
                }
            },
        }
    }
}

/// The pages whose content is still to be had: a mapping from page id to
/// content location that keeps the order in which the ids came.
pub struct PendingDownloads {
    entries: Vec<Leaf>,
}

impl View for PendingDownloads {
    type V = Seq<LeafView>;

    closed spec fn view(&self) -> Seq<LeafView> {
        leaf_views(self.entries@)
    }
}

impl PendingDownloads {
    /// An empty mapping.
    pub fn new() -> (r: Self)
        ensures
            r@ == Seq::<LeafView>::empty(),
    {
        let r = PendingDownloads { entries: Vec::new() };
        assert(r@ =~= Seq::<LeafView>::empty());
        r
    }

    /// The number of entries.
    pub fn len(&self) -> (n: usize)
        ensures
            n == self@.len(),
    {
        self.entries.len()
    }

    /// Whether there is no entry.
    pub fn is_empty(&self) -> (b: bool)
        ensures
            b == (self@.len() == 0),
    {
        self.entries.len() == 0
    }

    /// The content location recorded for `id`.
    #[verifier::loop_isolation(false)]
    pub fn get(&self, id: &str) -> (r: Option<&String>)
        ensures
            match r {
                Some(url) => position_of(self@, id@) matches Some(i) && self@[i].content_url
                    == url@,
                None => position_of(self@, id@) is None,
            },
    {
        proof {
            lemma_position_of(self@, id@);
        }
        let key = id.to_owned();
        let mut at: usize = 0;
        while at < self.entries.len()
            invariant
                at <= self.entries.len(),
                key@ == id@,
                forall|j: int| 0 <= j < at ==> (#[trigger] self@[j]).id != id@,
            decreases self.entries.len() - at,
        {
            if self.entries[at].id == key {
                assert(self@[at as int].id == id@);
                return Some(&self.entries[at].content_url);
            }
            assert(self@[at as int].id != id@);
            at = at + 1;
        }
        None
    }

    /// Records `content_url` for `id`. A new id is added after the others
    /// and `None` is returned; a known id keeps its place, takes the new
    /// location, and the old one is returned.
    #[verifier::loop_isolation(false)]
    pub fn insert(&mut self, id: String, content_url: String) -> (r: Option<String>)
        ensures
            match position_of(old(self)@, id@) {
                Some(i) => r matches Some(prev) && prev@ == old(self)@[i].content_url
                    && final(self)@ == old(self)@.update(
                    i,
                    LeafView { id: id@, content_url: content_url@ },
                ),
                None => r is None && final(self)@ == old(self)@.push(
                    LeafView { id: id@, content_url: content_url@ },
                ),
            },
            distinct_ids(old(self)@) ==> distinct_ids(final(self)@),
    {
        proof {
            lemma_position_of(self@, id@);
        }
        let ghost before = self@;
        let ghost entry = LeafView { id: id@, content_url: content_url@ };
        let mut at: usize = 0;
        while at < self.entries.len()
            invariant
                at <= self.entries.len(),
                self@ == before,
                forall|j: int| 0 <= j < at ==> (#[trigger] before[j]).id != id@,
            decreases self.entries.len() - at,
        {
            if self.entries[at].id == id {
                assert(before[at as int].id == id@);
                let prev = self.entries[at].content_url.clone();
                self.entries.set(at, Leaf { id, content_url });
                assert(self@ =~= before.update(at as int, entry));
                return Some(prev);
            }
            assert(before[at as int].id != id@);
            at = at + 1;
        }
        self.entries.push(Leaf { id, content_url });
        assert(self@ =~= before.push(entry));
        None
    }
}

impl PendingDownloads {
    /// Gives up the mapping for its entries, in their order.
    pub fn into_entries(self) -> (r: Vec<Leaf>)
        ensures
            leaf_views(r@) == self@,
    {
        self.entries
    }
}

/// The mapping `s` after `entry` was recorded: in the place of the entry of
/// the same id where there is one, after the others where there is none.
pub open spec fn recorded_in(s: Seq<LeafView>, entry: LeafView) -> Seq<LeafView> {
    match position_of(s, entry.id) {
        Some(i) => s.update(i, entry),
        None => s.push(entry),
    }
}

/// The mapping `base` after the id and content location of each of `pages`
/// were recorded, in their order.
pub open spec fn with_pages_recorded(base: Seq<LeafView>, pages: Seq<PageView>) -> Seq<LeafView>
    decreases pages.len(),
{
    if pages.len() == 0 {
        base
    } else {
        recorded_in(
            with_pages_recorded(base, pages.drop_last()),
            LeafView { id: pages.last().id, content_url: pages.last().content_url },
        )
    }
}

/// The mapping `base` after the pages of each of `sections` were recorded,
/// section after section.
pub open spec fn with_sections_recorded(
    base: Seq<LeafView>,
    sections: Seq<SectionView>,
) -> Seq<LeafView>
    decreases sections.len(),
{
    if sections.len() == 0 {
        base
    } else {
        with_pages_recorded(
            with_sections_recorded(base, sections.drop_last()),
            sections.last().pages,
        )
    }
}

impl PendingDownloads {
    /// Records the id and content location of each of `pages`, in their
    /// order.
    pub fn record_pages(&mut self, pages: &Vec<PageVO>)
        ensures
            final(self)@ == with_pages_recorded(old(self)@, page_views(pages@)),
            distinct_ids(old(self)@) ==> distinct_ids(final(self)@),
    {
        let ghost views = page_views(pages@);
        let mut at: usize = 0;
        while at < pages.len()
            invariant
                at <= pages.len(),
                views == page_views(pages@),
                self@ == with_pages_recorded(old(self)@, views.take(at as int)),
                distinct_ids(old(self)@) ==> distinct_ids(self@),
            decreases pages.len() - at,
        {
            let page = &pages[at];
            self.insert(page.id.clone(), page.content_url.clone());
            at = at + 1;
            proof {
                assert(views.take(at as int).drop_last() =~= views.take(at - 1));
                assert(views.take(at as int).last() == pages@[at - 1]@);
            }
        }
        assert(views.take(at as int) =~= views);
    }

    /// The mapping of every page of `sections` to its content location,
    /// section after section. No id occurs twice in it: of two pages with
    /// one id, the place is that of the first and the location that of the
    /// second.
    pub fn of_sections(sections: &Vec<SectionVO>) -> (r: Self)
        ensures
            r@ == with_sections_recorded(Seq::empty(), section_views(sections@)),
            distinct_ids(r@),
    {
        let ghost views = section_views(sections@);
        let mut pending = PendingDownloads::new();
        let mut at: usize = 0;
        while at < sections.len()
            invariant
                at <= sections.len(),
                views == section_views(sections@),
                pending@ == with_sections_recorded(Seq::empty(), views.take(at as int)),
                distinct_ids(pending@),
            decreases sections.len() - at,
        {
            pending.record_pages(&sections[at].pages);
            at = at + 1;
            proof {
                assert(views.take(at as int).drop_last() =~= views.take(at - 1));
                assert(views.take(at as int).last() == sections@[at - 1]@);
            }
        }
        assert(views.take(at as int) =~= views);
        pending
    }
}

/// What the downloader asks for next.
pub enum Attempt {
    /// Download this entry and report how it went.
    Entry(LeafView),
    /// Every entry was downloaded.
    Finished,
    /// The last round that the limit allows has left failures behind.
    GaveUp,
}

/// The downloader as a mathematical value.
pub struct RoundState {
    /// The entries of the round under way, in the order of their attempts.
    pub pending: Seq<LeafView>,
    /// How many of them were attempted.
    pub cursor: nat,
    /// Those of the attempted whose download failed, in that order.
    pub failed: Seq<LeafView>,
    /// The number of the round under way, from 1.
    pub round: nat,
    /// The number of rounds after which the downloader gives up.
    pub limit: nat,
}

impl RoundState {
    /// The first round over `pending`, before any attempt.
    pub open spec fn start(pending: Seq<LeafView>, limit: nat) -> Self {
        RoundState { pending, cursor: 0, failed: Seq::empty(), round: 1, limit }
    }

    /// Whether every entry of the round was attempted.
    pub open spec fn round_over(self) -> bool {
        self.cursor >= self.pending.len()
    }

    /// Whether the round is over, has left failures, and another is allowed.
    pub open spec fn retries(self) -> bool {
        self.round_over() && self.failed.len() > 0 && self.round < self.limit
    }

    /// The state in which the next attempt is made: where the round is over
    /// and another follows, its failures are the entries of the next round;
    /// otherwise the state as it is.
    pub open spec fn turned(self) -> Self {
        if self.retries() {
            RoundState {
                pending: self.failed,
                cursor: 0,
                failed: Seq::empty(),
                round: self.round + 1,
                limit: self.limit,
            }
        } else {
            self
        }
    }

    /// What is asked for next: the next entry of the round; after a round
    /// without failures, nothing more; after one with failures, its first
    /// failure again, unless the limit is reached.
    pub open spec fn action(self) -> Attempt {
        if !self.round_over() {
            Attempt::Entry(self.pending[self.cursor as int])
        } else if self.failed.len() == 0 {
            Attempt::Finished
        } else if self.round >= self.limit {
            Attempt::GaveUp
        } else {
            Attempt::Entry(self.failed[0])
        }
    }

    /// The state after the outcome of the attempt asked for: the cursor moves
    /// on, and a failed entry joins the failures. Without an attempt asked
    /// for, nothing changes.
    pub open spec fn record(self, succeeded: bool) -> Self {
        if self.round_over() {
            self
        } else {
            RoundState {
                cursor: self.cursor + 1,
                failed: if succeeded {
                    self.failed
                } else {
                    self.failed.push(self.pending[self.cursor as int])
                },
                ..self
            }
        }
    }

    /// The state after the outcomes of several attempts in a row.
    pub open spec fn recorded(self, outcomes: Seq<bool>) -> Self
        decreases outcomes.len(),
    {
        if outcomes.len() == 0 {
            self
        } else {
            self.recorded(outcomes.drop_last()).record(outcomes.last())
        }
    }
}

/// Those of the first `k` entries of `pending` whose outcome in `outcomes`
/// is a failure, in their order.
pub open spec fn failed_among(pending: Seq<LeafView>, outcomes: Seq<bool>, k: nat) -> Seq<LeafView>
    decreases k,
{
    if k == 0 {
        Seq::empty()
    } else {
        let before = failed_among(pending, outcomes, (k - 1) as nat);
        if k <= pending.len() && k <= outcomes.len() && !outcomes[k - 1] {
            before.push(pending[k - 1])
        } else {
            before
        }
    }
}

/// What the downloader hands out: the entry to attempt, or how it ended.
#[derive(Debug)]
pub enum DownloadAction<'a> {
    /// Download this entry, then call `record` with the outcome.
    Attempt(&'a Leaf),
    /// Every entry was downloaded.
    Finished,
    /// The limit of rounds is reached; `failed` lists what is missing.
    GaveUp,
}

impl<'a> View for DownloadAction<'a> {
    type V = Attempt;

    open spec fn view(&self) -> Attempt {
        match self {
            DownloadAction::Attempt(leaf) => Attempt::Entry(leaf@),
            DownloadAction::Finished => Attempt::Finished,
            DownloadAction::GaveUp => Attempt::GaveUp,
        }
    }
}

/// Attempts every pending entry once per round, and the failures of a round
/// again in the next, until a round leaves no failure.
pub struct Downloader {
    pending: Vec<Leaf>,
    cursor: usize,
    failed: Vec<Leaf>,
    round: usize,
    limit: usize,
}

impl View for Downloader {
    type V = RoundState;

    closed spec fn view(&self) -> RoundState {
        RoundState {
            pending: leaf_views(self.pending@),
            cursor: self.cursor as nat,
            failed: leaf_views(self.failed@),
            round: self.round as nat,
            limit: self.limit as nat,
        }
    }
}

impl Downloader {
    /// A downloader over `pending` that retries for as long as a download
    /// fails: its limit is the largest number of rounds that can be counted.
    pub fn new(pending: PendingDownloads) -> (r: Self)
        ensures
            r@ == RoundState::start(pending@, usize::MAX as nat),
    {
        Self::with_limit(pending, usize::MAX)
    }

    /// A downloader over `pending` that gives up after `max_rounds` rounds.
    /// The first round is always made.
    pub fn with_limit(pending: PendingDownloads, max_rounds: usize) -> (r: Self)
        ensures
            r@ == RoundState::start(pending@, max_rounds as nat),
    {
        let r = Downloader {
            pending: pending.into_entries(),
            cursor: 0,
            failed: Vec::new(),
            round: 1,
            limit: max_rounds,
        };
        assert(r@.failed =~= Seq::<LeafView>::empty());
        r
    }

    /// The number of the round under way, from 1.
    pub fn rounds(&self) -> (n: usize)
        ensures
            n == self@.round,
    {
        self.round
    }

    /// The entries of the round under way whose download has failed.
    pub fn failed(&self) -> (r: &Vec<Leaf>)
        ensures
            leaf_views(r@) == self@.failed,
    {
        &self.failed
    }

    /// What to do next. Where a round is over with failures and another is
    /// allowed, this begins it.
    pub fn next_action(&mut self) -> (r: DownloadAction<'_>)
        ensures
            r@ == old(self)@.action(),
            final(self)@ == old(self)@.turned(),
    {
        if self.cursor < self.pending.len() {
            return DownloadAction::Attempt(&self.pending[self.cursor]);
        }
        if self.failed.len() == 0 {
            return DownloadAction::Finished;
        }
        if self.round >= self.limit {
            return DownloadAction::GaveUp;
        }
        let mut next: Vec<Leaf> = Vec::new();
        std::mem::swap(&mut self.failed, &mut next);
        self.pending = next;
        self.cursor = 0;
        self.round = self.round + 1;
        assert(self@.failed =~= Seq::<LeafView>::empty());
        DownloadAction::Attempt(&self.pending[0])
    }

    /// Takes the outcome of the attempt that `next_action` asked for.
    /// Without such an attempt nothing changes.
    pub fn record(&mut self, succeeded: bool)
        ensures
            final(self)@ == old(self)@.record(succeeded),
    {
        if self.cursor < self.pending.len() {
            if !succeeded {
                let ghost before = self@.failed;
                let entry = self.pending[self.cursor].clone();
                self.failed.push(entry);
                assert(self@.failed =~= before.push(entry@));
            }
            self.cursor = self.cursor + 1;
        }
    }
}

/// After the outcomes of the first `outcomes.len()` attempts of a round, the
/// failures are exactly the entries whose attempt failed, in the order of the
/// attempts; the entries of the round, its number and the limit are as they
/// were.
pub proof fn lemma_round_failures(s: RoundState, outcomes: Seq<bool>)
    requires
        s.cursor == 0,
        s.failed.len() == 0,
        outcomes.len() <= s.pending.len(),
    ensures
        s.recorded(outcomes).failed == failed_among(s.pending, outcomes, outcomes.len()),
        s.recorded(outcomes).cursor == outcomes.len(),
        s.recorded(outcomes).pending == s.pending,
        s.recorded(outcomes).round == s.round,
        s.recorded(outcomes).limit == s.limit,
    decreases outcomes.len(),
{
    if outcomes.len() == 0 {
        assert(s.failed =~= Seq::<LeafView>::empty());
    } else {
        let init = outcomes.drop_last();
        lemma_round_failures(s, init);
        lemma_failed_among_prefix(s.pending, outcomes, init, init.len());
    }
}

/// The failures among the first `k` entries depend on the first `k` outcomes
/// alone.
proof fn lemma_failed_among_prefix(
    pending: Seq<LeafView>,
    a: Seq<bool>,
    b: Seq<bool>,
    k: nat,
)
    requires
        k <= a.len(),
        k <= b.len(),
        forall|i: int| 0 <= i < k ==> a[i] == b[i],
    ensures
        failed_among(pending, a, k) == failed_among(pending, b, k),
    decreases k,
{
    if k > 0 {
        lemma_failed_among_prefix(pending, a, b, (k - 1) as nat);
    }
}

/// The failures of a round are the entries of the next. After every entry
/// of a round was attempted and one or more have failed, and while the
/// limit allows another round, the next attempt begins the round that
/// follows: its entries are exactly the failures, in their order, none of
/// them is attempted yet or has failed yet, and the first of them is asked
/// for.
pub proof fn lemma_failures_make_the_next_round(s: RoundState, outcomes: Seq<bool>)
    requires
        s.cursor == 0,
        s.failed.len() == 0,
        outcomes.len() == s.pending.len(),
        failed_among(s.pending, outcomes, outcomes.len()).len() > 0,
        s.round < s.limit,
    ensures
        s.recorded(outcomes).turned() == (RoundState {
            pending: failed_among(s.pending, outcomes, outcomes.len()),
            cursor: 0,
            failed: Seq::empty(),
            round: s.round + 1,
            limit: s.limit,
        }),
        s.recorded(outcomes).action() == Attempt::Entry(
            failed_among(s.pending, outcomes, outcomes.len())[0],
        ),
{
    lemma_round_failures(s, outcomes);
}

/// A round in which every download succeeds leaves no failure, and the
/// downloader finishes.
pub proof fn lemma_clean_round_finishes(s: RoundState, outcomes: Seq<bool>)
    requires
        s.cursor == 0,
        s.failed.len() == 0,
        outcomes.len() == s.pending.len(),
        forall|i: int| 0 <= i < outcomes.len() ==> outcomes[i],
    ensures
        s.recorded(outcomes).action() is Finished,
{
    lemma_round_failures(s, outcomes);
    lemma_no_failure_among(s.pending, outcomes, outcomes.len());
}

/// Where the first `k` outcomes are successes, none of the first `k` entries
/// has failed.
proof fn lemma_no_failure_among(pending: Seq<LeafView>, outcomes: Seq<bool>, k: nat)
    requires
        k <= outcomes.len(),
        forall|i: int| 0 <= i < k ==> outcomes[i],
    ensures
        failed_among(pending, outcomes, k).len() == 0,
    decreases k,
{
    if k > 0 {
        lemma_no_failure_among(pending, outcomes, (k - 1) as nat);
    }
}

/// Among the first `k` attempts there are at most `k` failures, each
/// failure is one of the entries attempted, the `i`-th of them at place `i`
/// or later, and where no id occurs twice among the entries none occurs twice
/// among the failures.
pub proof fn lemma_failures_are_entries(pending: Seq<LeafView>, outcomes: Seq<bool>, k: nat)
    requires
        k <= pending.len(),
    ensures
        failed_among(pending, outcomes, k).len() <= k,
        forall|i: int|
            #![trigger failed_among(pending, outcomes, k)[i]]
            0 <= i < failed_among(pending, outcomes, k).len() ==> exists|j: int|
                i <= j < k && #[trigger] pending[j] == failed_among(pending, outcomes, k)[i],
        distinct_ids(pending) ==> distinct_ids(failed_among(pending, outcomes, k)),
    decreases k,
{
    if k > 0 {
        let before = failed_among(pending, outcomes, (k - 1) as nat);
        let now = failed_among(pending, outcomes, k);
        lemma_failures_are_entries(pending, outcomes, (k - 1) as nat);
        assert forall|i: int| #![trigger now[i]] 0 <= i < now.len() implies exists|j: int|
            i <= j < k && #[trigger] pending[j] == now[i] by {
            if i < before.len() {
                let j = choose|j: int| i <= j < k - 1 && #[trigger] pending[j] == before[i];
                assert(pending[j] == now[i]);
            } else {
                assert(pending[k - 1] == now[i]);
            }
        }
        if distinct_ids(pending) {
            assert forall|a: int, b: int| 0 <= a < b < now.len() implies (#[trigger] now[a]).id != (
            #[trigger] now[b]).id by {
                if b < before.len() {
                } else {
                    let j = choose|j: int| a <= j < k - 1 && #[trigger] pending[j] == before[a];
                    assert(now[a] == pending[j]);
                    assert(now[b] == pending[k - 1]);
                }
            }
        }
    }
}

/// Takes the location of a page's content and does nothing with it. The
/// download itself is the caller's: a [`Downloader`] says what to attempt.
pub fn download(_content_url: &str) {
}

/// The name of the file that holds the content of the page of this id: the
/// id followed by `.html`.
pub fn content_file_name(id: &str) -> (r: String)
    ensures
        r@ == id@ + ".html"@,
{
    String::from_str(id).concat(".html")
}

} // verus!
