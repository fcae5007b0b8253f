//! Assembling a complete listing from a paginated endpoint whose total count
//! may change while the pages are being fetched.
//!
//! The fetch proceeds one page at a time from page 1, recording the total
//! count the first page reports. A later page reporting a different count
//! means the remote collection changed mid-fetch: the attempt is thrown away
//! and the fetch restarts, up to a hard ceiling. The caller performs the
//! transport; this module holds the whole decision logic as a step function,
//! fed one page response at a time.

use vstd::prelude::*;

verus! {

/// The upper bound on restarts after an inconsistent listing.
pub const MAX_RESTARTS: usize = 32;

/// The upper bound on pages fetched within one attempt.
pub const MAX_PAGES: usize = 100000;

/// One page as the endpoint answered it: the count of the whole collection,
/// and this page's items.
pub struct PageResponse<T> {
    pub total_count: usize,
    pub items: Vec<T>,
}

/// The mathematical state of a fetch in progress.
pub ghost struct FetchState<T> {
    /// The total count recorded from the first page of this attempt.
    pub expected: Option<int>,
    /// The items accumulated in this attempt.
    pub items: Seq<T>,
    /// How many pages this attempt has consumed.
    pub pages: int,
    /// How many restarts have happened so far.
    pub restarts: int,
}

impl<T> FetchState<T> {
    /// The state a fetch starts in, and returns to after a restart.
    pub open spec fn fresh(restarts: int) -> FetchState<T> {
        FetchState { expected: None, items: Seq::empty(), pages: 0, restarts }
    }
}

/// Why a fetch was abandoned; either ceiling points at a misbehaving
/// endpoint, not at a normal condition.
#[derive(Clone, Copy, Debug, PartialEq, Eq, Structural)]
pub enum FetchError {
    TooManyRestarts,
    TooManyPages,
}

/// What one consumed page leads to.
pub ghost enum StepModel<T> {
    /// The fetch goes on; the next page to request is `pages + 1`.
    Continue(FetchState<T>),
    /// The listing is complete.
    Done(Seq<T>),
    /// A ceiling was hit.
    Fail(FetchError),
}

/// The decision taken on one page response: restart on an inconsistent
/// count, finish when the accumulated items reach the recorded count,
/// otherwise keep fetching.
pub open spec fn step_model<T>(s: FetchState<T>, total: int, page_items: Seq<T>) -> StepModel<T> {
    if s.expected matches Some(c) && total != c {
        if s.restarts >= MAX_RESTARTS {
            StepModel::Fail(FetchError::TooManyRestarts)
        } else {
            StepModel::Continue(FetchState::fresh(s.restarts + 1))
        }
    } else {
        let items2 = s.items + page_items;
        if items2.len() == total {
            StepModel::Done(items2)
        } else if s.pages + 1 >= MAX_PAGES {
            StepModel::Fail(FetchError::TooManyPages)
        } else {
            StepModel::Continue(
                FetchState { expected: Some(total), items: items2, pages: s.pages + 1, restarts: s.restarts },
            )
        }
    }
}

/// A fetch in progress, fed one page response at a time.
pub struct PageProgress<T> {
    expected: Option<usize>,
    items: Vec<T>,
    pages: usize,
    restarts: usize,
}

/// What `feed` returned.
pub enum FeedResult<T> {
    /// Fetch the page `progress.next_page()` and feed it back.
    Continue(PageProgress<T>),
    /// The complete listing, as long as the recorded total count.
    Done(Vec<T>),
    /// A ceiling was hit; the fetch failed.
    Fail(FetchError),
}

impl<T> View for PageProgress<T> {
    type V = FetchState<T>;

    closed spec fn view(&self) -> FetchState<T> {
        FetchState {
            expected: match self.expected {
                Some(c) => Some(c as int),
                None => None,
            },
            items: self.items@,
            pages: self.pages as int,
            restarts: self.restarts as int,
        }
    }
}

impl<T> PageProgress<T> {
    /// Both ceilings are respected, and a fresh attempt holds nothing yet.
    pub open spec fn wf(&self) -> bool {
        self@.pages < MAX_PAGES && self@.restarts <= MAX_RESTARTS
            && (self@.expected is None ==> self@.items.len() == 0 && self@.pages == 0)
    }

    pub fn new() -> (r: PageProgress<T>)
        ensures
            r@ == FetchState::<T>::fresh(0),
            r.wf(),
    {
        PageProgress { expected: None, items: Vec::new(), pages: 0, restarts: 0 }
    }

    /// The page to request next, starting at 1.
    pub fn next_page(&self) -> (r: usize)
        requires
            self.wf(),
        ensures
            r == self@.pages + 1,
    {
        self.pages + 1
    }

    /// Consumes one page response and decides how the fetch goes on.
    pub fn feed(self, resp: PageResponse<T>) -> (r: FeedResult<T>)
        requires
            self.wf(),
        ensures
            match r {
                FeedResult::Continue(p) => p.wf()
                    && step_model(self@, resp.total_count as int, resp.items@)
                        == StepModel::Continue(p@),
                FeedResult::Done(v) => step_model(self@, resp.total_count as int, resp.items@)
                    == StepModel::Done(v@),
                FeedResult::Fail(e) => step_model(self@, resp.total_count as int, resp.items@)
                    == StepModel::<T>::Fail(e),
            },
    {
        let PageProgress { expected, mut items, pages, restarts } = self;
        let inconsistent = match expected {
            Some(c) => c != resp.total_count,
            None => false,
        };
        if inconsistent {
            if restarts >= MAX_RESTARTS {
                FeedResult::Fail(FetchError::TooManyRestarts)
            } else {
                FeedResult::Continue(
                    PageProgress { expected: None, items: Vec::new(), pages: 0, restarts: restarts + 1 },
                )
            }
        } else {
            let mut page_items = resp.items;
            items.append(&mut page_items);
            if items.len() == resp.total_count {
                FeedResult::Done(items)
            } else if pages + 1 >= MAX_PAGES {
                FeedResult::Fail(FetchError::TooManyPages)
            } else {
                FeedResult::Continue(
                    PageProgress { expected: Some(resp.total_count), items, pages: pages + 1, restarts },
                )
            }
        }
    }
}

/// A page of the endpoint's answer script.
pub ghost struct ScriptPage<T> {
    pub total: int,
    pub items: Seq<T>,
}

/// Where a fetch ends when the endpoint answers along `script`.
pub ghost enum RunOutcome<T> {
    Done(Seq<T>),
    Fail(FetchError),
    /// The script ran out with the fetch still in progress.
    ScriptOver(FetchState<T>),
}

/// Runs the step function over a whole script of page responses, in the
/// order the endpoint gives them.
pub open spec fn run_model<T>(s: FetchState<T>, script: Seq<ScriptPage<T>>) -> RunOutcome<T>
    decreases script.len(),
{
    if script.len() <= 0 {
        RunOutcome::ScriptOver(s)
    } else {
        match step_model(s, script[0].total, script[0].items) {
            StepModel::Continue(s2) => run_model(s2, script.drop_first()),
            StepModel::Done(v) => RunOutcome::Done(v),
            StepModel::Fail(e) => RunOutcome::Fail(e),
        }
    }
}

/// Every page of `script` reports the count `c`.
pub open spec fn consistent_script<T>(script: Seq<ScriptPage<T>>, c: int) -> bool {
    forall|i: int| 0 <= i < script.len() ==> (#[trigger] script[i]).total == c
}

/// How many items `script` carries in all.
pub open spec fn items_total<T>(script: Seq<ScriptPage<T>>) -> int
    decreases script.len(),
{
    if script.len() <= 0 {
        0
    } else {
        script[0].items.len() + items_total(script.drop_first())
    }
}

/// The concatenation of the items of `script`, in order.
pub open spec fn concat_items<T>(script: Seq<ScriptPage<T>>) -> Seq<T>
    decreases script.len(),
{
    if script.len() <= 0 {
        Seq::empty()
    } else {
        script[0].items + concat_items(script.drop_first())
    }
}

/// A script that completes an attempt: every page reports `c`, the items sum
/// to `c` exactly at the last page, and no earlier page reaches it.
pub open spec fn completing_script<T>(s: FetchState<T>, script: Seq<ScriptPage<T>>, c: int) -> bool {
    &&& script.len() > 0
    &&& consistent_script(script, c)
    &&& s.items.len() + items_total(script) == c
    &&& forall|k: int| 1 <= k < script.len()
        ==> s.items.len() + items_total(#[trigger] script.take(k)) < c
}

/// `concat_items` and `items_total` agree.
pub proof fn lemma_items_total_is_concat_len<T>(script: Seq<ScriptPage<T>>)
    ensures
        concat_items(script).len() == items_total(script),
    decreases script.len(),
{
    if script.len() > 0 {
        lemma_items_total_is_concat_len(script.drop_first());
    }
}

/// Splitting a script after its first page splits its item count.
pub proof fn lemma_items_total_take<T>(script: Seq<ScriptPage<T>>, k: int)
    requires
        1 <= k <= script.len(),
    ensures
        items_total(script.take(k)) == script[0].items.len()
            + items_total(script.drop_first().take(k - 1)),
    decreases k,
{
    let t = script.take(k);
    assert(t[0] == script[0]);
    assert(t.drop_first() =~= script.drop_first().take(k - 1));
}

/// Convergence within one attempt: against a consistent, completing script
/// the fetch finishes with every item of the script, in order, and the
/// listing's length equals the reported count.
pub proof fn lemma_run_completes<T>(s: FetchState<T>, script: Seq<ScriptPage<T>>, c: int)
    requires
        s.expected matches Some(e) ==> e == c,
        s.expected is None ==> s.items.len() == 0 && s.pages == 0,
        completing_script(s, script, c),
        s.pages + script.len() <= MAX_PAGES,
    ensures
        run_model(s, script) == RunOutcome::Done(s.items + concat_items(script)),
    decreases script.len(),
{
    let first = script[0];
    let items2 = s.items + first.items;
    lemma_items_total_is_concat_len(script);
    if script.len() == 1 {
        assert(items_total(script.drop_first()) == 0);
        assert(items2.len() == c);
        assert(step_model(s, first.total, first.items) == StepModel::Done(items2));
        assert(s.items + concat_items(script) =~= items2);
    } else {
        assert(s.items.len() + items_total(script.take(1)) < c);
        assert(script.take(1).drop_first() =~= Seq::<ScriptPage<T>>::empty());
        assert(script.take(1)[0] == script[0]);
        assert(items_total(script.take(1).drop_first()) == 0);
        assert(items_total(script.take(1)) == first.items.len());
        assert(items2.len() < c);
        assert(items2.len() != first.total);
        let s2 = FetchState { expected: Some(c), items: items2, pages: s.pages + 1, restarts: s.restarts };
        assert(step_model(s, first.total, first.items) == StepModel::Continue(s2));
        let rest = script.drop_first();
        assert forall|k: int| 1 <= k < rest.len()
            implies s2.items.len() + items_total(#[trigger] rest.take(k)) < c by {
            lemma_items_total_take(script, k + 1);
            assert(s.items.len() + items_total(script.take(k + 1)) < c);
        }
        assert(consistent_script(rest, c)) by {
            assert forall|i: int| 0 <= i < rest.len()
                implies (#[trigger] rest[i]).total == c by {
                assert(rest[i] == script.subrange(1, script.len() as int)[i]);
                assert(rest[i] == script[i + 1]);
            }
        }
        lemma_run_completes(s2, rest, c);
        assert(s.items + concat_items(script) =~= s2.items + concat_items(rest));
    }
}

/// An inconsistent count throws the attempt away: the fetch restarts fresh
/// on the rest of the script, with one more restart on the clock.
pub proof fn lemma_run_restarts<T>(s: FetchState<T>, script: Seq<ScriptPage<T>>)
    requires
        script.len() > 0,
        s.expected matches Some(c0) && script[0].total != c0,
        s.restarts < MAX_RESTARTS,
    ensures
        run_model(s, script) == run_model(FetchState::<T>::fresh(s.restarts + 1), script.drop_first()),
{
}

/// Pagination convergence: if the count changes once mid-fetch and the
/// endpoint then answers a stable, completing script, the fetch restarts and
/// returns exactly the stable script's items, whose length is the final
/// count.
pub proof fn lemma_pagination_convergence<T>(s: FetchState<T>, script: Seq<ScriptPage<T>>, c: int)
    requires
        script.len() > 1,
        s.expected matches Some(c0) && script[0].total != c0,
        s.restarts < MAX_RESTARTS,
        completing_script(FetchState::<T>::fresh(s.restarts + 1), script.drop_first(), c),
        script.len() - 1 <= MAX_PAGES,
    ensures
        run_model(s, script) == RunOutcome::Done(concat_items(script.drop_first())),
        concat_items(script.drop_first()).len() == c,
{
    lemma_run_restarts(s, script);
    let fresh = FetchState::<T>::fresh(s.restarts + 1);
    lemma_run_completes(fresh, script.drop_first(), c);
    assert(fresh.items + concat_items(script.drop_first()) =~= concat_items(script.drop_first()));
    lemma_items_total_is_concat_len(script.drop_first());
}

} // verus!
