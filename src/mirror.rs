//! Recursive mirroring of a source subtree into a writable destination, as
//! a machine of steps: the caller performs each browse or copy it asks for
//! and reports the outcome. Failures are counted, never propagated.
use vstd::prelude::*;
use vstd::string::StringExecFns;
use crate::gopher::{ItemType, MenuItem, MenuItemView, item_views};
use crate::text::{trim_start, trim_end, trim_start_char, trim_end_char};

verus! {

/// The counts of one mirror run.
#[derive(Debug, Clone, Copy, PartialEq, Eq, Structural)]
pub struct DumpResult {
    pub published: u32,
    pub skipped: u32,
}

/// The address of the item that a listing line points at:
/// `host/selector`, with the selector's leading slashes dropped.
pub open spec fn item_address(host: Seq<char>, selector: Seq<char>) -> Seq<char> {
    host + seq!['/'] + trim_start(selector, '/')
}

/// The destination of a child: the parent's destination without trailing
/// slashes, then `/` and the child's display text.
pub open spec fn child_destination(dest: Seq<char>, display: Seq<char>) -> Seq<char> {
    trim_end(dest, '/') + seq!['/'] + display
}

/// `host/selector` for an item.
pub fn item_address_of(host: &str, selector: &str) -> (r: String)
    ensures
        r@ == item_address(host@, selector@),
{
    let tail = trim_start_char(selector, '/');
    let mut r = String::from_str(host);
    r.append("/");
    r.append(tail.as_str());
    proof {
        reveal_strlit("/");
    }
    r
}

/// Where a child with `display` text goes under `dest`.
pub fn child_destination_of(dest: &str, display: &str) -> (r: String)
    ensures
        r@ == child_destination(dest@, display@),
{
    let mut r = trim_end_char(dest, '/');
    r.append("/");
    r.append(display);
    proof {
        reveal_strlit("/");
    }
    r
}

/// One pending piece of work.
pub enum Job {
    /// Browse `source` at `depth` listing levels below the start, mirroring
    /// it under `dest`.
    Visit { source: String, dest: String, depth: u32 },
    /// Fetch the document at `from` and publish it at `to`.
    Copy { from: String, to: String },
}

pub enum JobView {
    Visit { source: Seq<char>, dest: Seq<char>, depth: u32 },
    Copy { from: Seq<char>, to: Seq<char> },
}

impl View for Job {
    type V = JobView;

    open spec fn view(&self) -> JobView {
        match self {
            Job::Visit { source, dest, depth } => JobView::Visit {
                source: source@,
                dest: dest@,
                depth: *depth,
            },
            Job::Copy { from, to } => JobView::Copy { from: from@, to: to@ },
        }
    }
}

/// What the caller is asked to do next.
#[derive(Debug)]
pub enum MirrorAction {
    /// Browse this address and report the listing, or its failure.
    Browse(String),
    /// Fetch the document at `from`, publish it at `to`, and report whether
    /// both succeeded.
    Copy { from: String, to: String },
    /// The run is over.
    Done,
}

/// The job that a listing item under `dest` at `depth` gives, if any: a
/// listing within the depth bound is visited, a document or web page is
/// copied, and anything else gives none.
pub open spec fn item_job(item: MenuItemView, dest: Seq<char>, depth: u32, max_depth: u32) -> Option<
    JobView,
> {
    let from = item_address(item.host, item.selector);
    let to = child_destination(dest, item.display);
    if item.itype == ItemType::Menu {
        if depth < max_depth {
            Some(JobView::Visit { source: from, dest: to, depth: (depth + 1) as u32 })
        } else {
            None
        }
    } else if item.itype == ItemType::TextFile || item.itype == ItemType::Html {
        Some(JobView::Copy { from, to })
    } else {
        None
    }
}

/// Whether an item is counted as skipped when its listing is read.
pub open spec fn skipped_on_browse(item: MenuItemView, depth: u32, max_depth: u32) -> bool {
    item_job(item, seq![], depth, max_depth) is None
}

/// The jobs of a listing's items as they are stacked: the first item's job
/// ends on top.
pub open spec fn stacked_jobs(items: Seq<MenuItemView>, dest: Seq<char>, depth: u32, max_depth: u32) -> Seq<
    JobView,
>
    decreases items.len(),
{
    if items.len() == 0 {
        seq![]
    } else {
        stacked_jobs(items.drop_first(), dest, depth, max_depth) + match item_job(
            items[0],
            dest,
            depth,
            max_depth,
        ) {
            Some(j) => seq![j],
            None => seq![],
        }
    }
}

/// How many items of a listing are skipped when it is read.
pub open spec fn skip_count(items: Seq<MenuItemView>, depth: u32, max_depth: u32) -> nat
    decreases items.len(),
{
    if items.len() == 0 {
        0
    } else {
        skip_count(items.drop_first(), depth, max_depth) + if skipped_on_browse(
            items[0],
            depth,
            max_depth,
        ) {
            1nat
        } else {
            0nat
        }
    }
}

/// `x + k`, held at `u32::MAX`.
pub open spec fn sat_add(x: nat, k: nat) -> nat {
    if x + k > u32::MAX {
        u32::MAX as nat
    } else {
        x + k
    }
}

fn increment(x: u32) -> (r: u32)
    ensures
        r == sat_add(x as nat, 1),
{
    if x < u32::MAX {
        x + 1
    } else {
        x
    }
}

/// The state of a mirror run.
pub struct Mirror {
    jobs: Vec<Job>,
    max_depth: u32,
    pub result: DumpResult,
}

pub struct MirrorView {
    /// Pending jobs; the last is the next one.
    pub jobs: Seq<JobView>,
    pub max_depth: u32,
    pub published: u32,
    pub skipped: u32,
}

impl View for Mirror {
    type V = MirrorView;

    closed spec fn view(&self) -> MirrorView {
        MirrorView {
            jobs: Seq::new(self.jobs@.len(), |i: int| self.jobs@[i]@),
            max_depth: self.max_depth,
            published: self.result.published,
            skipped: self.result.skipped,
        }
    }
}

/// No pending visit lies beyond the depth bound.
pub open spec fn within_depth(m: MirrorView) -> bool {
    forall|i: int|
        0 <= i < m.jobs.len() ==> match #[trigger] m.jobs[i] {
            JobView::Visit { depth, .. } => depth <= m.max_depth,
            _ => true,
        }
}

/// How many pending visits are at depth `d`.
pub open spec fn visits_at(jobs: Seq<JobView>, d: int) -> nat
    decreases jobs.len(),
{
    if jobs.len() == 0 {
        0
    } else {
        visits_at(jobs.drop_last(), d) + match jobs.last() {
            JobView::Visit { depth, .. } => if depth == d {
                1nat
            } else {
                0nat
            },
            _ => 0nat,
        }
    }
}

/// How many copies are pending.
pub open spec fn copies_pending(jobs: Seq<JobView>) -> nat
    decreases jobs.len(),
{
    if jobs.len() == 0 {
        0
    } else {
        copies_pending(jobs.drop_last()) + if jobs.last() is Copy {
            1nat
        } else {
            0nat
        }
    }
}

/// The pending work of a run, level by level: the visits at each depth up
/// to the bound, shallowest first, then the copies.
pub open spec fn measure_of(jobs: Seq<JobView>, max_depth: u32) -> Seq<nat> {
    Seq::new(
        (max_depth + 2) as nat,
        |i: int|
            if i <= max_depth {
                visits_at(jobs, i)
            } else {
                copies_pending(jobs)
            },
    )
}

pub open spec fn mirror_measure(m: MirrorView) -> Seq<nat> {
    measure_of(m.jobs, m.max_depth)
}

/// Lexicographic order on sequences of the same length; on sequences of a
/// fixed length it has no infinite descending chain.
pub open spec fn lex_less(a: Seq<nat>, b: Seq<nat>) -> bool {
    a.len() == b.len() && exists|i: int|
        0 <= i < a.len() && a[i] < b[i] && forall|j: int| 0 <= j < i ==> a[j] == b[j]
}

proof fn lemma_counts_concat(a: Seq<JobView>, b: Seq<JobView>)
    ensures
        forall|d: int| #[trigger] visits_at(a + b, d) == visits_at(a, d) + visits_at(b, d),
        copies_pending(a + b) == copies_pending(a) + copies_pending(b),
    decreases b.len(),
{
    if b.len() == 0 {
        assert(a + b =~= a);
    } else {
        lemma_counts_concat(a, b.drop_last());
        assert((a + b).drop_last() =~= a + b.drop_last());
        assert((a + b).last() == b.last());
        assert forall|d: int| #[trigger] visits_at(a + b, d) == visits_at(a, d) + visits_at(b, d) by {
            assert(visits_at(a + b.drop_last(), d) == visits_at(a, d) + visits_at(b.drop_last(), d));
        };
    }
}

proof fn lemma_stacked_visits_deeper(
    items: Seq<MenuItemView>,
    dest: Seq<char>,
    depth: u32,
    max_depth: u32,
)
    ensures
        forall|e: int| 0 <= e <= depth ==> #[trigger] visits_at(stacked_jobs(items, dest, depth, max_depth), e)
            == 0,
    decreases items.len(),
{
    if items.len() > 0 {
        lemma_stacked_visits_deeper(items.drop_first(), dest, depth, max_depth);
        let rest = stacked_jobs(items.drop_first(), dest, depth, max_depth);
        let one: Seq<JobView> = match item_job(items[0], dest, depth, max_depth) {
            Some(j) => seq![j],
            None => seq![],
        };
        lemma_counts_concat(rest, one);
        assert(stacked_jobs(items, dest, depth, max_depth) == rest + one);
        assert forall|e: int| 0 <= e <= depth implies #[trigger] visits_at(one, e) == 0 by {
            if one.len() == 1 {
                assert(one.drop_last() =~= Seq::<JobView>::empty());
                assert(visits_at(one.drop_last(), e) == 0);
                let j = item_job(items[0], dest, depth, max_depth)->0;
                assert(one.last() == j);
                match j {
                    JobView::Visit { depth: d2, .. } => {
                        assert(items[0].itype == ItemType::Menu && depth < max_depth);
                        assert(d2 == depth + 1);
                    },
                    _ => {},
                }
            }
        };
        assert forall|e: int| 0 <= e <= depth implies #[trigger] visits_at(
            stacked_jobs(items, dest, depth, max_depth),
            e,
        ) == 0 by {
            assert(visits_at(rest, e) == 0);
            assert(visits_at(one, e) == 0);
        };
    }
}

proof fn lemma_visit_step(jobs: Seq<JobView>, extra: Seq<JobView>, depth: u32, max_depth: u32)
    requires
        jobs.len() > 0,
        jobs.last() matches JobView::Visit { depth: d, .. } && d == depth,
        depth <= max_depth,
        forall|e: int| 0 <= e <= depth ==> #[trigger] visits_at(extra, e) == 0,
    ensures
        lex_less(measure_of(jobs.drop_last() + extra, max_depth), measure_of(jobs, max_depth)),
{
    lemma_counts_concat(jobs.drop_last(), extra);
    let a = measure_of(jobs.drop_last() + extra, max_depth);
    let b = measure_of(jobs, max_depth);
    assert(a[depth as int] < b[depth as int]);
    assert forall|j: int| 0 <= j < depth implies a[j] == b[j] by {
        assert(visits_at(extra, j) == 0);
    };
}

proof fn lemma_copy_step(jobs: Seq<JobView>, max_depth: u32)
    requires
        jobs.len() > 0,
        jobs.last() is Copy,
    ensures
        lex_less(measure_of(jobs.drop_last(), max_depth), measure_of(jobs, max_depth)),
{
    let a = measure_of(jobs.drop_last(), max_depth);
    let b = measure_of(jobs, max_depth);
    let i = max_depth + 1;
    assert(a[i] < b[i]);
    assert forall|j: int| 0 <= j < i implies a[j] == b[j] by {};
}

impl Mirror {
    /// A run that mirrors `source` into `destination`, following listings
    /// at most `max_depth` levels down.
    pub fn new(source: &str, destination: &str, max_depth: u32) -> (r: Mirror)
        ensures
            r@.jobs == seq![JobView::Visit { source: source@, dest: destination@, depth: 0 }],
            r@.max_depth == max_depth,
            r@.published == 0,
            r@.skipped == 0,
            within_depth(r@),
    {
        let mut jobs: Vec<Job> = Vec::new();
        jobs.push(
            Job::Visit { source: String::from_str(source), dest: String::from_str(destination), depth: 0 },
        );
        let r = Mirror { jobs, max_depth, result: DumpResult { published: 0, skipped: 0 } };
        assert(r@.jobs =~= seq![JobView::Visit { source: source@, dest: destination@, depth: 0 }]);
        r
    }

    /// The counts so far.
    pub fn result(&self) -> (r: DumpResult)
        ensures
            r.published == self@.published,
            r.skipped == self@.skipped,
    {
        self.result
    }

    /// The next thing to do: the top job, or `Done` when none is left.
    pub fn next_action(&self) -> (r: MirrorAction)
        ensures
            self@.jobs.len() == 0 ==> r is Done,
            self@.jobs.len() > 0 ==> match self@.jobs.last() {
                JobView::Visit { source, .. } => r matches MirrorAction::Browse(s) && s@ == source,
                JobView::Copy { from, to } => r matches MirrorAction::Copy { from: f, to: t } && f@
                    == from && t@ == to,
            },
    {
        let n = self.jobs.len();
        if n == 0 {
            return MirrorAction::Done;
        }
        match &self.jobs[n - 1] {
            Job::Visit { source, .. } => MirrorAction::Browse(source.clone()),
            Job::Copy { from, to } => MirrorAction::Copy { from: from.clone(), to: to.clone() },
        }
    }

    /// Reports the outcome of the browse that the top job asked for: a
    /// failed browse counts the listing as skipped; a listing's items are
    /// stacked as jobs, and those that give none are counted as skipped.
    /// Where the top job is no visit, nothing changes.
    pub fn on_browse(&mut self, outcome: Option<Vec<MenuItem>>)
        requires
            within_depth(old(self)@),
        ensures
            within_depth(final(self)@),
            final(self)@.max_depth == old(self)@.max_depth,
            final(self)@.published == old(self)@.published,
            old(self)@.jobs.len() > 0 && old(self)@.jobs.last() is Visit ==> ({
                let (dest, depth) = match old(self)@.jobs.last() {
                    JobView::Visit { dest, depth, .. } => (dest, depth),
                    _ => (seq![], 0u32),
                };
                match outcome {
                    None => final(self)@.jobs == old(self)@.jobs.drop_last() && final(self)@.skipped
                        == sat_add(old(self)@.skipped as nat, 1),
                    Some(items) => final(self)@.jobs == old(self)@.jobs.drop_last() + stacked_jobs(
                        item_views(items@),
                        dest,
                        depth,
                        old(self)@.max_depth,
                    ) && final(self)@.skipped == sat_add(
                        old(self)@.skipped as nat,
                        skip_count(item_views(items@), depth, old(self)@.max_depth),
                    ),
                }
            }),
            !(old(self)@.jobs.len() > 0 && old(self)@.jobs.last() is Visit) ==> final(self)@
                == old(self)@,
            old(self)@.jobs.len() > 0 && old(self)@.jobs.last() is Visit ==> lex_less(
                mirror_measure(final(self)@),
                mirror_measure(old(self)@),
            ),
    {
        let n = self.jobs.len();
        if n == 0 {
            return ;
        }
        let is_visit = match &self.jobs[n - 1] {
            Job::Visit { .. } => true,
            _ => false,
        };
        if !is_visit {
            return ;
        }
        let ghost old_view = self@;
        let top = self.jobs.pop().unwrap();
        assert(self@.jobs =~= old_view.jobs.drop_last());
        let (dest, depth) = match top {
            Job::Visit { dest, depth, .. } => (dest, depth),
            Job::Copy { .. } => (String::new(), 0),
        };
        assert(old_view.jobs[old_view.jobs.len() - 1] == old_view.jobs.last());
        assert(depth <= self.max_depth);
        match outcome {
            None => {
                self.result.skipped = increment(self.result.skipped);
                proof {
                    let none: Seq<JobView> = seq![];
                    assert(old_view.jobs.drop_last() + none =~= old_view.jobs.drop_last());
                    lemma_visit_step(old_view.jobs, none, depth, self.max_depth);
                }
            },
            Some(items) => {
                let ghost iv = item_views(items@);
                let ghost base = self@.jobs;
                let ghost base_skipped = self.result.skipped as nat;
                let mut i: usize = items.len();
                assert(iv.skip(i as int) =~= Seq::<MenuItemView>::empty());
                while i > 0
                    invariant
                        i <= items@.len(),
                        iv == item_views(items@),
                        self.max_depth == old_view.max_depth,
                        self.result.published == old_view.published,
                        depth <= self.max_depth,
                        self@.jobs == base + stacked_jobs(iv.skip(i as int), dest@, depth, self.max_depth),
                        self.result.skipped == sat_add(
                            base_skipped,
                            skip_count(iv.skip(i as int), depth, self.max_depth),
                        ),
                        within_depth(self@),
                    decreases i,
                {
                    let item = &items[i - 1];
                    let ghost it = iv[i - 1];
                    assert(iv.skip(i - 1).drop_first() =~= iv.skip(i as int));
                    assert(iv.skip(i - 1)[0] == it);
                    let ghost before = self@.jobs;
                    let is_menu = match item.itype {
                        ItemType::Menu => true,
                        _ => false,
                    };
                    let is_doc = match item.itype {
                        ItemType::TextFile | ItemType::Html => true,
                        _ => false,
                    };
                    if is_menu && depth < self.max_depth {
                        let source = item_address_of(item.host.as_str(), item.selector.as_str());
                        let to = child_destination_of(dest.as_str(), item.display.as_str());
                        self.jobs.push(Job::Visit { source, dest: to, depth: depth + 1 });
                        assert(self@.jobs =~= before.push(item_job(it, dest@, depth, self.max_depth)->0));
                    } else if is_doc {
                        let from = item_address_of(item.host.as_str(), item.selector.as_str());
                        let to = child_destination_of(dest.as_str(), item.display.as_str());
                        self.jobs.push(Job::Copy { from, to });
                        assert(self@.jobs =~= before.push(item_job(it, dest@, depth, self.max_depth)->0));
                    } else {
                        assert(item_job(it, dest@, depth, self.max_depth) is None);
                        self.result.skipped = increment(self.result.skipped);
                    }
                    i = i - 1;
                }
                assert(iv.skip(0) =~= iv);
                proof {
                    lemma_stacked_visits_deeper(iv, dest@, depth, self.max_depth);
                    lemma_visit_step(old_view.jobs, stacked_jobs(iv, dest@, depth, self.max_depth), depth, self.max_depth);
                }
            },
        }
    }

    /// Reports the outcome of the copy that the top job asked for: a success
    /// counts as published, a failure as skipped. Where the top job is no
    /// copy, nothing changes.
    pub fn on_copy(&mut self, succeeded: bool)
        requires
            within_depth(old(self)@),
        ensures
            within_depth(final(self)@),
            old(self)@.jobs.len() > 0 && old(self)@.jobs.last() is Copy ==> final(self)@ == copy_step(
                old(self)@,
                succeeded,
            ),
            !(old(self)@.jobs.len() > 0 && old(self)@.jobs.last() is Copy) ==> final(self)@
                == old(self)@,
            old(self)@.jobs.len() > 0 && old(self)@.jobs.last() is Copy ==> lex_less(
                mirror_measure(final(self)@),
                mirror_measure(old(self)@),
            ),
    {
        let n = self.jobs.len();
        if n == 0 {
            return ;
        }
        let is_copy = match &self.jobs[n - 1] {
            Job::Copy { .. } => true,
            _ => false,
        };
        if !is_copy {
            return ;
        }
        let ghost old_view = self@;
        self.jobs.pop();
        assert(self@.jobs =~= old_view.jobs.drop_last());
        proof {
            lemma_copy_step(old_view.jobs, old_view.max_depth);
        }
        if succeeded {
            self.result.published = increment(self.result.published);
        } else {
            self.result.skipped = increment(self.result.skipped);
        }
    }
}

/// The state after the copy on top of the stack succeeded or failed.
pub open spec fn copy_step(m: MirrorView, succeeded: bool) -> MirrorView {
    MirrorView {
        jobs: m.jobs.drop_last(),
        max_depth: m.max_depth,
        published: if succeeded {
            sat_add(m.published as nat, 1) as u32
        } else {
            m.published
        },
        skipped: if succeeded {
            m.skipped
        } else {
            sat_add(m.skipped as nat, 1) as u32
        },
    }
}


/// How many items are neither documents nor web pages.
pub open spec fn non_document_count(items: Seq<MenuItemView>) -> nat
    decreases items.len(),
{
    if items.len() == 0 {
        0
    } else {
        non_document_count(items.drop_first()) + if items[0].itype == ItemType::TextFile
            || items[0].itype == ItemType::Html {
            0nat
        } else {
            1nat
        }
    }
}

/// A listing read at the depth bound stacks no visit: every listing in it,
/// like every other item that is no document, is counted as skipped.
pub proof fn lemma_depth_bound(items: Seq<MenuItemView>, dest: Seq<char>, depth: u32, max_depth: u32)
    requires
        depth >= max_depth,
    ensures
        forall|j: int|
            0 <= j < stacked_jobs(items, dest, depth, max_depth).len() ==> #[trigger] stacked_jobs(
                items,
                dest,
                depth,
                max_depth,
            )[j] is Copy,
        skip_count(items, depth, max_depth) == non_document_count(items),
    decreases items.len(),
{
    if items.len() > 0 {
        lemma_depth_bound(items.drop_first(), dest, depth, max_depth);
        let rest = stacked_jobs(items.drop_first(), dest, depth, max_depth);
        let all = stacked_jobs(items, dest, depth, max_depth);
        assert forall|j: int| 0 <= j < all.len() implies #[trigger] all[j] is Copy by {
            if j >= rest.len() {
                assert(item_job(items[0], dest, depth, max_depth) is Some);
            } else {
                assert(all[j] == rest[j]);
            }
        };
    }
}

/// The state after a run of copy outcomes, the first reported first.
pub open spec fn copy_steps(m: MirrorView, outcomes: Seq<bool>) -> MirrorView
    decreases outcomes.len(),
{
    if outcomes.len() == 0 {
        m
    } else {
        copy_step(copy_steps(m, outcomes.drop_last()), outcomes.last())
    }
}

/// How many outcomes are `b`.
pub open spec fn count_of(outcomes: Seq<bool>, b: bool) -> nat
    decreases outcomes.len(),
{
    if outcomes.len() == 0 {
        0
    } else {
        count_of(outcomes.drop_last(), b) + if outcomes.last() == b {
            1nat
        } else {
            0nat
        }
    }
}

proof fn lemma_copy_counts(m: MirrorView, outcomes: Seq<bool>)
    requires
        m.jobs.len() >= outcomes.len(),
    ensures
        copy_steps(m, outcomes).published == sat_add(m.published as nat, count_of(outcomes, true)),
        copy_steps(m, outcomes).skipped == sat_add(m.skipped as nat, count_of(outcomes, false)),
        copy_steps(m, outcomes).jobs.len() == m.jobs.len() - outcomes.len(),
    decreases outcomes.len(),
{
    if outcomes.len() > 0 {
        lemma_copy_counts(m, outcomes.drop_last());
    }
}

/// Copies fail one at a time without ending the run: when one of `n` sibling
/// documents fails and the others are copied, `n - 1` are published and one
/// is skipped, and every copy was carried out.
pub proof fn lemma_partial_failure(m: MirrorView, outcomes: Seq<bool>, failed: int)
    requires
        m.published == 0,
        m.skipped == 0,
        m.jobs.len() >= outcomes.len(),
        outcomes.len() <= u32::MAX,
        0 <= failed < outcomes.len(),
        !outcomes[failed],
        forall|k: int| 0 <= k < outcomes.len() && k != failed ==> outcomes[k],
    ensures
        copy_steps(m, outcomes).published == outcomes.len() - 1,
        copy_steps(m, outcomes).skipped == 1,
        copy_steps(m, outcomes).jobs.len() == m.jobs.len() - outcomes.len(),
{
    lemma_copy_counts(m, outcomes);
    lemma_count_one_failure(outcomes, failed);
}

proof fn lemma_count_one_failure(outcomes: Seq<bool>, failed: int)
    requires
        0 <= failed < outcomes.len(),
        !outcomes[failed],
        forall|k: int| 0 <= k < outcomes.len() && k != failed ==> outcomes[k],
    ensures
        count_of(outcomes, true) == outcomes.len() - 1,
        count_of(outcomes, false) == 1,
    decreases outcomes.len(),
{
    if failed < outcomes.len() - 1 {
        lemma_count_one_failure(outcomes.drop_last(), failed);
    } else {
        lemma_count_all(outcomes.drop_last());
    }
}

proof fn lemma_count_all(outcomes: Seq<bool>)
    requires
        forall|k: int| 0 <= k < outcomes.len() ==> outcomes[k],
    ensures
        count_of(outcomes, true) == outcomes.len(),
        count_of(outcomes, false) == 0,
    decreases outcomes.len(),
{
    if outcomes.len() > 0 {
        lemma_count_all(outcomes.drop_last());
    }
}

} // verus!
