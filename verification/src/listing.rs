use vstd::prelude::*;

use crate::artifacts::{EnvironmentSummary, WorkflowSummary};
use crate::domain::trace::{RunReport, RunStatus};
use crate::map::{lemma_seq_lt_irreflexive, lemma_seq_lt_total, lemma_seq_lt_transitive};
use crate::text::{chars_of, seq_less, seq_lt};

verus! {

// ---------------------------------------------------------------------------------------
// Listing order
// ---------------------------------------------------------------------------------------

/// Items that a listing puts in order: `comes_before` is a strict weak order (irreflexive,
/// transitive, and whatever lies between two items in order is after the first or before
/// the second).
pub trait Listed: Sized {
    /// Whether this item is listed before `other`.
    spec fn comes_before(&self, other: &Self) -> bool;

    /// Whether this item is listed before `other`.
    fn is_before(&self, other: &Self) -> (r: bool)
        ensures
            r == self.comes_before(other),
    ;

    proof fn lemma_listing_order(a: &Self, b: &Self, c: &Self)
        ensures
            !a.comes_before(a),
            a.comes_before(b) && b.comes_before(c) ==> a.comes_before(c),
            a.comes_before(c) ==> a.comes_before(b) || b.comes_before(c),
    ;
}

/// Whether two items are listed at the same place: neither comes before the other.
pub open spec fn same_place<T: Listed>(a: T, b: T) -> bool {
    !a.comes_before(&b) && !b.comes_before(&a)
}

/// The test for items listed at the same place as `e`.
pub open spec fn at_place_of<T: Listed>(e: T) -> spec_fn(T) -> bool {
    |y: T| same_place(y, e)
}

/// Whether no item of the sequence comes before one that precedes it.
pub open spec fn in_listing_order<T: Listed>(s: Seq<T>) -> bool {
    forall|i: int, j: int|
        #![trigger s[i], s[j]]
        0 <= i < j < s.len() ==> !s[j].comes_before(&s[i])
}

/// Whether each group of items listed at the same place is in `out` what it is in `input`:
/// the same items in the same order.
pub open spec fn keeps_ties<T: Listed>(out: Seq<T>, input: Seq<T>) -> bool {
    forall|e: T|
        #[trigger] out.filter(at_place_of(e)) == input.filter(at_place_of(e))
}

proof fn lemma_filter_none<T>(s: Seq<T>, p: spec_fn(T) -> bool)
    requires
        forall|i: int| 0 <= i < s.len() ==> !p(#[trigger] s[i]),
    ensures
        s.filter(p) == Seq::<T>::empty(),
    decreases s.len(),
{
    reveal(Seq::filter);
    if s.len() > 0 {
        lemma_filter_none(s.drop_last(), p);
    }
}

proof fn lemma_filter_one<T>(x: T, p: spec_fn(T) -> bool)
    ensures
        seq![x].filter(p) == (if p(x) {
            seq![x]
        } else {
            Seq::<T>::empty()
        }),
{
    reveal_with_fuel(Seq::filter, 2);
    assert(seq![x].drop_last() =~= Seq::<T>::empty());
}

/// Puts `item`, which precedes all of `out` in the input, into its place in `out`.
proof fn lemma_insert_in_place<T: Listed>(out: Seq<T>, done: Seq<T>, item: T, j: int)
    requires
        in_listing_order(out),
        keeps_ties(out, done),
        0 <= j <= out.len(),
        forall|m: int| 0 <= m < j ==> (#[trigger] out[m]).comes_before(&item),
        j < out.len() ==> !out[j].comes_before(&item),
    ensures
        in_listing_order(out.insert(j, item)),
        keeps_ties(out.insert(j, item), seq![item] + done),
{
    let next = out.insert(j, item);
    assert forall|m: int| j <= m < out.len() implies !(#[trigger] out[m]).comes_before(&item) by {
        T::lemma_listing_order(&out[m], &out[j], &item);
    }
    assert forall|a: int, b: int|
        #![trigger next[a], next[b]]
        0 <= a < b < next.len() implies !next[b].comes_before(&next[a]) by {
        if a < j && b == j {
            T::lemma_listing_order(&next[a], &item, &next[a]);
            T::lemma_listing_order(&item, &next[a], &item);
        } else if a == j {
            assert(next[b] == out[b - 1]);
        } else if a < j && b < j {
            assert(next[a] == out[a] && next[b] == out[b]);
        } else if a < j {
            assert(next[a] == out[a] && next[b] == out[b - 1]);
        } else {
            assert(next[a] == out[a - 1] && next[b] == out[b - 1]);
        }
    }
    assert(next =~= out.take(j) + seq![item] + out.skip(j));
    assert(out =~= out.take(j) + out.skip(j));
    assert forall|e: T| #[trigger] next.filter(at_place_of(e)) == (seq![item] + done).filter(
        at_place_of(e),
    ) by {
        let p = at_place_of(e);
        Seq::filter_distributes_over_add(out.take(j) + seq![item], out.skip(j), p);
        Seq::filter_distributes_over_add(out.take(j), seq![item], p);
        Seq::filter_distributes_over_add(out.take(j), out.skip(j), p);
        Seq::filter_distributes_over_add(seq![item], done, p);
        lemma_filter_one(item, p);
        assert(out.filter(p) == done.filter(p));
        if same_place(item, e) {
            let front = out.take(j);
            assert forall|m: int| 0 <= m < front.len() implies !at_place_of(e)(
                #[trigger] front[m],
            ) by {
                assert(front[m] == out[m]);
                assert(out[m].comes_before(&item));
                T::lemma_listing_order(&out[m], &e, &item);
            }
            lemma_filter_none(front, p);
        }
    }
}

/// The items in listing order; items listed at the same place keep their input order.
pub fn list_in_order<T: Listed>(items: Vec<T>) -> (r: Vec<T>)
    ensures
        r@.len() == items@.len(),
        in_listing_order(r@),
        keeps_ties(r@, items@),
{
    let ghost all = items@;
    let mut rest = items;
    let mut out: Vec<T> = Vec::new();
    assert(all.skip(all.len() as int) =~= Seq::<T>::empty());
    assert(rest@ =~= all.take(all.len() as int));
    while rest.len() > 0
        invariant
            rest@.len() <= all.len(),
            rest@ == all.take(rest@.len() as int),
            out@.len() + rest@.len() == all.len(),
            in_listing_order(out@),
            keeps_ties(out@, all.skip(rest@.len() as int)),
        decreases rest.len(),
    {
        let ghost k = rest@.len() as int;
        let item = match rest.pop() {
            Some(item) => item,
            None => {
                return out;
            },
        };
        assert(item == all[k - 1]);
        assert(rest@ =~= all.take(k - 1));
        let mut j: usize = 0;
        while j < out.len() && out[j].is_before(&item)
            invariant
                j <= out@.len(),
                forall|m: int| 0 <= m < j ==> (#[trigger] out@[m]).comes_before(&item),
            decreases out.len() - j,
        {
            j = j + 1;
        }
        proof {
            lemma_insert_in_place(out@, all.skip(k), item, j as int);
            assert(all.skip(k - 1) =~= seq![item] + all.skip(k));
        }
        out.insert(j, item);
    }
    assert(all.skip(0) =~= all);
    out
}

// ---------------------------------------------------------------------------------------
// Workflow and environment listings, by name
// ---------------------------------------------------------------------------------------

proof fn lemma_name_order(a: Seq<char>, b: Seq<char>, c: Seq<char>)
    ensures
        !seq_lt(a, a),
        seq_lt(a, b) && seq_lt(b, c) ==> seq_lt(a, c),
        seq_lt(a, c) ==> seq_lt(a, b) || seq_lt(b, c),
{
    lemma_seq_lt_irreflexive(a);
    if seq_lt(a, b) && seq_lt(b, c) {
        lemma_seq_lt_transitive(a, b, c);
    }
    if seq_lt(a, c) && !seq_lt(a, b) {
        lemma_seq_lt_total(a, b);
        if seq_lt(b, a) {
            lemma_seq_lt_transitive(b, a, c);
        }
    }
}

impl Listed for WorkflowSummary {
    /// Workflows are listed by name.
    open spec fn comes_before(&self, other: &Self) -> bool {
        seq_lt(self.name@, other.name@)
    }

    fn is_before(&self, other: &Self) -> (r: bool) {
        seq_less(&chars_of(self.name.as_str()), &chars_of(other.name.as_str()))
    }

    proof fn lemma_listing_order(a: &Self, b: &Self, c: &Self) {
        lemma_name_order(a.name@, b.name@, c.name@);
    }
}

impl Listed for EnvironmentSummary {
    /// Environments are listed by name.
    open spec fn comes_before(&self, other: &Self) -> bool {
        seq_lt(self.name@, other.name@)
    }

    fn is_before(&self, other: &Self) -> (r: bool) {
        seq_less(&chars_of(self.name.as_str()), &chars_of(other.name.as_str()))
    }

    proof fn lemma_listing_order(a: &Self, b: &Self, c: &Self) {
        lemma_name_order(a.name@, b.name@, c.name@);
    }
}

// ---------------------------------------------------------------------------------------
// Run history
// ---------------------------------------------------------------------------------------

/// What a list of past runs shows of one of them.
#[derive(Debug, Clone)]
pub struct RunSummary {
    pub run_id: String,
    pub workflow_name: String,
    pub status: RunStatus,
    pub trace_entry_count: usize,
    pub modified_at_unix_ms: u128,
}

impl Listed for RunSummary {
    /// Runs are listed newest first.
    open spec fn comes_before(&self, other: &Self) -> bool {
        self.modified_at_unix_ms > other.modified_at_unix_ms
    }

    fn is_before(&self, other: &Self) -> (r: bool) {
        self.modified_at_unix_ms > other.modified_at_unix_ms
    }

    proof fn lemma_listing_order(a: &Self, b: &Self, c: &Self) {
    }
}

/// The most runs a history shows.
pub const RUN_HISTORY_LIMIT: usize = 20;

/// The summary of a run's report, written at the given time.
pub fn run_summary(report: &RunReport, modified_at_unix_ms: u128) -> (s: RunSummary)
    ensures
        s.run_id@ == report.run_id@,
        s.workflow_name@ == report.workflow_name@,
        s.status == report.status,
        s.trace_entry_count == report.trace@.len(),
        s.modified_at_unix_ms == modified_at_unix_ms,
{
    RunSummary {
        run_id: report.run_id.clone(),
        workflow_name: report.workflow_name.clone(),
        status: report.status,
        trace_entry_count: report.trace.len(),
        modified_at_unix_ms,
    }
}

/// The newest runs, newest first, at most `RUN_HISTORY_LIMIT` of them; runs written at the
/// same time keep their order.
pub fn newest_runs(runs: Vec<RunSummary>) -> (r: Vec<RunSummary>)
    ensures
        exists|all: Seq<RunSummary>|
            #![trigger keeps_ties(all, runs@)]
            all.len() == runs@.len() && in_listing_order(all) && keeps_ties(all, runs@)
                && r@ == all.take(
                if all.len() < RUN_HISTORY_LIMIT {
                    all.len() as int
                } else {
                    RUN_HISTORY_LIMIT as int
                },
            ),
{
    let mut listed = list_in_order(runs);
    let ghost all = listed@;
    while listed.len() > RUN_HISTORY_LIMIT
        invariant
            all.len() >= listed@.len(),
            listed@.len() >= RUN_HISTORY_LIMIT ==> listed@ == all.take(listed@.len() as int),
            listed@.len() < RUN_HISTORY_LIMIT ==> listed@ == all,
        decreases listed.len(),
    {
        listed.pop();
    }
    assert(listed@ == all.take(
        if all.len() < RUN_HISTORY_LIMIT {
            all.len() as int
        } else {
            RUN_HISTORY_LIMIT as int
        },
    ));
    listed
}

/// Whether a file name is that of a run's trace: it ends with `.trace.json`.
pub fn is_trace_file_name(name: &str) -> (r: bool)
    ensures
        r == (name@.len() >= 11 && name@.subrange(name@.len() - 11, name@.len() as int)
            =~= seq!['.', 't', 'r', 'a', 'c', 'e', '.', 'j', 's', 'o', 'n']),
{
    let cs = chars_of(name);
    let suffix = vec!['.', 't', 'r', 'a', 'c', 'e', '.', 'j', 's', 'o', 'n'];
    if cs.len() < suffix.len() {
        return false;
    }
    let n = cs.len();
    let start = n - suffix.len();
    let mut i: usize = 0;
    while i < suffix.len()
        invariant
            cs@ == name@,
            n == cs@.len(),
            start + suffix@.len() == cs@.len(),
            suffix@ == seq!['.', 't', 'r', 'a', 'c', 'e', '.', 'j', 's', 'o', 'n'],
            i <= suffix@.len(),
            forall|m: int| 0 <= m < i ==> cs@[start + m] == suffix@[m],
        decreases suffix.len() - i,
    {
        let at: usize = start + i;
        if cs[at] != suffix[i] {
            assert(cs@.subrange(start as int, cs@.len() as int)[i as int] != suffix@[i as int]);
            return false;
        }
        i = i + 1;
    }
    assert(cs@.subrange(start as int, cs@.len() as int) =~= suffix@);
    true
}

/// Whether a run id can name a trace file: it is not empty and holds only ASCII letters,
/// digits and `-`.
pub open spec fn valid_run_id(id: Seq<char>) -> bool {
    id.len() > 0 && forall|i: int|
        0 <= i < id.len() ==> {
            let c = #[trigger] id[i];
            ('a' <= c <= 'z') || ('A' <= c <= 'Z') || ('0' <= c <= '9') || c == '-'
        }
}

/// Whether a run id can name a trace file.
pub fn is_valid_run_id(run_id: &str) -> (r: bool)
    ensures
        r == valid_run_id(run_id@),
{
    let cs = chars_of(run_id);
    if cs.len() == 0 {
        return false;
    }
    let mut i: usize = 0;
    while i < cs.len()
        invariant
            i <= cs@.len(),
            cs@ == run_id@,
            forall|m: int|
                0 <= m < i ==> {
                    let c = #[trigger] cs@[m];
                    ('a' <= c <= 'z') || ('A' <= c <= 'Z') || ('0' <= c <= '9') || c == '-'
                },
        decreases cs.len() - i,
    {
        let c = cs[i];
        if !(('a' <= c && c <= 'z') || ('A' <= c && c <= 'Z') || ('0' <= c && c <= '9') || c == '-') {
            return false;
        }
        i = i + 1;
    }
    true
}

} // verus!
