//! The stable timestamp sort behind the combined view: records are ordered
//! by their timestamp text in lexicographic code-point order, and records
//! with equal timestamps keep the order they arrived in.

use vstd::prelude::*;

use vstd::multiset::Multiset;

use crate::parser::LogEntry;
use crate::strutil::lemma_lex_total;
use crate::strutil::lemma_lex_trans;
use crate::strutil::lex_leq;
use crate::strutil::lex_leq_str;

verus! {

/// The sort key of a record: its timestamp text.
pub open spec fn ts_of(row: Seq<Seq<char>>) -> Seq<char> {
    row[1]
}

/// Rows stand in ascending lexicographic timestamp order.
pub open spec fn sorted_by_ts(rows: Seq<Seq<Seq<char>>>) -> bool {
    forall|i: int, j: int|
        0 <= i < j < rows.len() ==> lex_leq(ts_of(#[trigger] rows[i]), ts_of(#[trigger] rows[j]))
}

/// Every row of `rows` has exactly the four record columns.
pub open spec fn all_rows_wf(rows: Seq<Seq<Seq<char>>>) -> bool {
    forall|k: int| 0 <= k < rows.len() ==> (#[trigger] rows[k]).len() == 4
}

/// `x` placed into `s` just before the first row whose timestamp is not
/// smaller: a row arriving after all of `s` would instead pass every equal
/// timestamp, so inserting the earliest row first keeps arrival order.
pub open spec fn spec_insert_row(x: Seq<Seq<char>>, s: Seq<Seq<Seq<char>>>) -> Seq<Seq<Seq<char>>>
    decreases s.len(),
{
    if s.len() == 0 {
        seq![x]
    } else if lex_leq(ts_of(x), ts_of(s[0])) {
        seq![x] + s
    } else {
        seq![s[0]] + spec_insert_row(x, s.skip(1))
    }
}

/// The stable sort of `rows` by timestamp: each row inserted, first to
/// last, into the sorted rows that follow it.
pub open spec fn spec_sort_rows(rows: Seq<Seq<Seq<char>>>) -> Seq<Seq<Seq<char>>>
    decreases rows.len(),
{
    if rows.len() == 0 {
        rows
    } else {
        spec_insert_row(rows[0], spec_sort_rows(rows.skip(1)))
    }
}

proof fn lemma_insert_len(x: Seq<Seq<char>>, s: Seq<Seq<Seq<char>>>)
    ensures
        spec_insert_row(x, s).len() == s.len() + 1,
    decreases s.len(),
{
    if s.len() != 0 && !lex_leq(ts_of(x), ts_of(s[0])) {
        lemma_insert_len(x, s.skip(1));
    }
}

proof fn lemma_insert_sorted(x: Seq<Seq<char>>, s: Seq<Seq<Seq<char>>>)
    requires
        sorted_by_ts(s),
    ensures
        sorted_by_ts(spec_insert_row(x, s)),
    decreases s.len(),
{
    lemma_insert_len(x, s);
    if s.len() == 0 {
    } else if lex_leq(ts_of(x), ts_of(s[0])) {
        let out = seq![x] + s;
        assert forall|i: int, j: int| 0 <= i < j < out.len() implies lex_leq(
            ts_of(#[trigger] out[i]),
            ts_of(#[trigger] out[j]),
        ) by {
            if i == 0 {
                assert(out[j] == s[j - 1]);
                if j > 1 {
                    lemma_lex_trans(ts_of(x), ts_of(s[0]), ts_of(s[j - 1]));
                }
            } else {
                assert(out[i] == s[i - 1]);
                assert(out[j] == s[j - 1]);
            }
        }
    } else {
        assert forall|i: int, j: int| 0 <= i < j < s.skip(1).len() implies lex_leq(
            ts_of(#[trigger] s.skip(1)[i]),
            ts_of(#[trigger] s.skip(1)[j]),
        ) by {
            assert(s.skip(1)[i] == s[i + 1]);
            assert(s.skip(1)[j] == s[j + 1]);
        }
        lemma_insert_sorted(x, s.skip(1));
        let rest = spec_insert_row(x, s.skip(1));
        let out = seq![s[0]] + rest;
        lemma_lex_total(ts_of(x), ts_of(s[0]));
        lemma_insert_head_bound(x, s.skip(1), ts_of(s[0]));
        assert forall|i: int, j: int| 0 <= i < j < out.len() implies lex_leq(
            ts_of(#[trigger] out[i]),
            ts_of(#[trigger] out[j]),
        ) by {
            if i > 0 {
                assert(out[i] == rest[i - 1]);
                assert(out[j] == rest[j - 1]);
            } else {
                assert(out[j] == rest[j - 1]);
            }
        }
    }
}

/// Every key of `s` at least `b`, and `b` at most `x`'s key, bounds every
/// key of the insertion from below by `b`.
proof fn lemma_insert_head_bound(x: Seq<Seq<char>>, s: Seq<Seq<Seq<char>>>, b: Seq<char>)
    requires
        lex_leq(b, ts_of(x)),
        forall|k: int| 0 <= k < s.len() ==> lex_leq(b, ts_of(#[trigger] s[k])),
    ensures
        forall|k: int|
            0 <= k < spec_insert_row(x, s).len() ==> lex_leq(
                b,
                ts_of(#[trigger] spec_insert_row(x, s)[k]),
            ),
    decreases s.len(),
{
    lemma_insert_len(x, s);
    if s.len() == 0 {
    } else if lex_leq(ts_of(x), ts_of(s[0])) {
        let out = seq![x] + s;
        assert forall|k: int| 0 <= k < out.len() implies lex_leq(b, ts_of(#[trigger] out[k])) by {
            if k > 0 {
                assert(out[k] == s[k - 1]);
            }
        }
    } else {
        assert forall|k: int| 0 <= k < s.skip(1).len() implies lex_leq(
            b,
            ts_of(#[trigger] s.skip(1)[k]),
        ) by {
            assert(s.skip(1)[k] == s[k + 1]);
        }
        lemma_insert_head_bound(x, s.skip(1), b);
        let rest = spec_insert_row(x, s.skip(1));
        let out = seq![s[0]] + rest;
        assert forall|k: int| 0 <= k < out.len() implies lex_leq(b, ts_of(#[trigger] out[k])) by {
            if k > 0 {
                assert(out[k] == rest[k - 1]);
            }
        }
    }
}

/// The sort leaves rows ordered by timestamp.
pub proof fn lemma_sort_sorted(rows: Seq<Seq<Seq<char>>>)
    ensures
        sorted_by_ts(spec_sort_rows(rows)),
    decreases rows.len(),
{
    if rows.len() != 0 {
        lemma_sort_sorted(rows.skip(1));
        lemma_insert_sorted(rows[0], spec_sort_rows(rows.skip(1)));
    }
}

/// The sort neither loses nor invents rows: the result holds the same rows
/// with the same multiplicities.
pub proof fn lemma_sort_permutes(rows: Seq<Seq<Seq<char>>>)
    ensures
        spec_sort_rows(rows).to_multiset() == rows.to_multiset(),
        spec_sort_rows(rows).len() == rows.len(),
    decreases rows.len(),
{
    broadcast use vstd::seq_lib::group_to_multiset_ensures;

    if rows.len() == 0 {
    } else {
        lemma_sort_permutes(rows.skip(1));
        lemma_insert_multiset(rows[0], spec_sort_rows(rows.skip(1)));
        lemma_insert_len(rows[0], spec_sort_rows(rows.skip(1)));
        assert(rows =~= seq![rows[0]] + rows.skip(1));
        vstd::seq_lib::lemma_multiset_commutative(seq![rows[0]], rows.skip(1));
        assert(seq![rows[0]].to_multiset() =~= Multiset::<Seq<Seq<char>>>::empty().insert(
            rows[0],
        ));
    }
}

proof fn lemma_insert_multiset(x: Seq<Seq<char>>, s: Seq<Seq<Seq<char>>>)
    ensures
        spec_insert_row(x, s).to_multiset() == s.to_multiset().insert(x),
    decreases s.len(),
{
    broadcast use vstd::seq_lib::group_to_multiset_ensures;

    if s.len() == 0 {
        assert(seq![x] =~= Seq::<Seq<Seq<char>>>::empty().push(x));
    } else if lex_leq(ts_of(x), ts_of(s[0])) {
        vstd::seq_lib::lemma_multiset_commutative(seq![x], s);
        assert(seq![x].to_multiset() =~= Multiset::<Seq<Seq<char>>>::empty().insert(x));
        assert((seq![x] + s).to_multiset() =~= s.to_multiset().insert(x));
    } else {
        lemma_insert_multiset(x, s.skip(1));
        vstd::seq_lib::lemma_multiset_commutative(seq![s[0]], spec_insert_row(x, s.skip(1)));
        assert(seq![s[0]].to_multiset() =~= Multiset::<Seq<Seq<char>>>::empty().insert(s[0]));
        assert(s =~= seq![s[0]] + s.skip(1));
        vstd::seq_lib::lemma_multiset_commutative(seq![s[0]], s.skip(1));
        assert(spec_insert_row(x, s).to_multiset() =~= s.to_multiset().insert(x));
    }
}

/// The sort is stable: for any timestamp, the rows carrying it come out in
/// exactly the order they went in.
pub proof fn lemma_sort_stable(rows: Seq<Seq<Seq<char>>>, t: Seq<char>)
    ensures
        spec_sort_rows(rows).filter(|r: Seq<Seq<char>>| ts_of(r) == t) == rows.filter(
            |r: Seq<Seq<char>>| ts_of(r) == t,
        ),
    decreases rows.len(),
{
    let pred = |r: Seq<Seq<char>>| ts_of(r) == t;
    if rows.len() == 0 {
    } else {
        lemma_sort_stable(rows.skip(1), t);
        lemma_insert_filter(rows[0], spec_sort_rows(rows.skip(1)), t);
        assert(rows =~= seq![rows[0]] + rows.skip(1));
        Seq::filter_distributes_over_add(seq![rows[0]], rows.skip(1), pred);
        lemma_filter_singleton(rows[0], pred);
        if pred(rows[0]) {
            assert(seq![rows[0]] + rows.skip(1).filter(pred) =~= seq![rows[0]].filter(pred)
                + rows.skip(1).filter(pred));
        }
    }
}

proof fn lemma_filter_singleton<A>(x: A, pred: spec_fn(A) -> bool)
    ensures
        seq![x].filter(pred) == if pred(x) {
            seq![x]
        } else {
            Seq::<A>::empty()
        },
{
    reveal(Seq::filter);
    assert(seq![x].drop_last() =~= Seq::<A>::empty());
    assert(Seq::<A>::empty().filter(pred) =~= Seq::<A>::empty());
    if pred(x) {
        assert(Seq::<A>::empty().push(x) =~= seq![x]);
    }
}

/// Rows with smaller timestamps than `x` never carry `x`'s timestamp, so
/// inserting `x` prepends it to the matching rows when its key is `t`, and
/// leaves them alone otherwise.
proof fn lemma_insert_filter(x: Seq<Seq<char>>, s: Seq<Seq<Seq<char>>>, t: Seq<char>)
    ensures
        spec_insert_row(x, s).filter(|r: Seq<Seq<char>>| ts_of(r) == t) == if ts_of(x) == t {
            seq![x] + s.filter(|r: Seq<Seq<char>>| ts_of(r) == t)
        } else {
            s.filter(|r: Seq<Seq<char>>| ts_of(r) == t)
        },
    decreases s.len(),
{
    let pred = |r: Seq<Seq<char>>| ts_of(r) == t;
    if s.len() == 0 {
        lemma_filter_singleton(x, pred);
        if pred(x) {
            assert(seq![x] + Seq::<Seq<Seq<char>>>::empty().filter(pred) =~= seq![x]);
        }
        crate::seq_util::lemma_filter_empty(pred);
    } else if lex_leq(ts_of(x), ts_of(s[0])) {
        Seq::filter_distributes_over_add(seq![x], s, pred);
        lemma_filter_singleton(x, pred);
        if pred(x) {
            assert(seq![x].filter(pred) + s.filter(pred) =~= seq![x] + s.filter(pred));
        } else {
            assert(seq![x].filter(pred) + s.filter(pred) =~= s.filter(pred));
        }
    } else {
        lemma_insert_filter(x, s.skip(1), t);
        let rest = spec_insert_row(x, s.skip(1));
        Seq::filter_distributes_over_add(seq![s[0]], rest, pred);
        lemma_filter_singleton(s[0], pred);
        assert(s =~= seq![s[0]] + s.skip(1));
        Seq::filter_distributes_over_add(seq![s[0]], s.skip(1), pred);
        if ts_of(x) == t {
            // s[0]'s key is strictly below x's, so s[0] does not carry t.
            lemma_lex_total(ts_of(x), ts_of(s[0]));
            assert(!pred(s[0]));
            assert(seq![s[0]].filter(pred) + rest.filter(pred) =~= rest.filter(pred));
            assert(seq![s[0]].filter(pred) + s.skip(1).filter(pred) =~= s.skip(1).filter(pred));
        } else {
            assert(spec_insert_row(x, s).filter(pred) =~= s.filter(pred));
        }
    }
}

/// The sort keeps every row at its four columns.
pub proof fn lemma_sort_rows_wf(rows: Seq<Seq<Seq<char>>>)
    requires
        all_rows_wf(rows),
    ensures
        all_rows_wf(spec_sort_rows(rows)),
    decreases rows.len(),
{
    if rows.len() != 0 {
        assert forall|k: int| 0 <= k < rows.skip(1).len() implies (#[trigger] rows.skip(
            1,
        )[k]).len() == 4 by {
            assert(rows.skip(1)[k] == rows[k + 1]);
        }
        lemma_sort_rows_wf(rows.skip(1));
        lemma_insert_wf(rows[0], spec_sort_rows(rows.skip(1)));
    }
}

proof fn lemma_insert_wf(x: Seq<Seq<char>>, s: Seq<Seq<Seq<char>>>)
    requires
        x.len() == 4,
        all_rows_wf(s),
    ensures
        all_rows_wf(spec_insert_row(x, s)),
    decreases s.len(),
{
    if s.len() == 0 {
    } else if lex_leq(ts_of(x), ts_of(s[0])) {
        let out = seq![x] + s;
        assert forall|k: int| 0 <= k < out.len() implies (#[trigger] out[k]).len() == 4 by {
            if k > 0 {
                assert(out[k] == s[k - 1]);
            }
        }
    } else {
        assert forall|k: int| 0 <= k < s.skip(1).len() implies (#[trigger] s.skip(1)[k]).len()
            == 4 by {
            assert(s.skip(1)[k] == s[k + 1]);
        }
        lemma_insert_wf(x, s.skip(1));
        let rest = spec_insert_row(x, s.skip(1));
        let out = seq![s[0]] + rest;
        assert forall|k: int| 0 <= k < out.len() implies (#[trigger] out[k]).len() == 4 by {
            if k > 0 {
                assert(out[k] == rest[k - 1]);
            }
        }
    }
}

/// Inserting at the first position whose key is not below `x`'s key is the
/// same as the recursive insertion.
proof fn lemma_insert_at_position(x: Seq<Seq<char>>, s: Seq<Seq<Seq<char>>>, p: int)
    requires
        0 <= p <= s.len(),
        forall|j: int| 0 <= j < p ==> !lex_leq(ts_of(x), ts_of(#[trigger] s[j])),
        p < s.len() ==> lex_leq(ts_of(x), ts_of(s[p])),
    ensures
        spec_insert_row(x, s) == s.insert(p, x),
    decreases s.len(),
{
    if s.len() == 0 {
        assert(spec_insert_row(x, s) =~= s.insert(0, x));
    } else if p == 0 {
        assert(spec_insert_row(x, s) =~= s.insert(0, x));
    } else {
        assert(!lex_leq(ts_of(x), ts_of(s[0])));
        assert forall|j: int| 0 <= j < p - 1 implies !lex_leq(
            ts_of(x),
            ts_of(#[trigger] s.skip(1)[j]),
        ) by {
            assert(s.skip(1)[j] == s[j + 1]);
        }
        lemma_insert_at_position(x, s.skip(1), p - 1);
        assert(spec_insert_row(x, s) =~= s.insert(p, x));
    }
}

/// Inserts one record into an already collected prefix, keeping the
/// insertion-sort shape `spec_insert_row` describes.
fn insert_by_timestamp(x: LogEntry, v: Vec<LogEntry>) -> (r: Vec<LogEntry>)
    requires
        x.deep_view().len() == 4,
        all_rows_wf(v.deep_view()),
    ensures
        r.deep_view() == spec_insert_row(x.deep_view(), v.deep_view()),
        all_rows_wf(r.deep_view()),
{
    let mut v = v;
    let n = v.len();
    let mut p: usize = 0;
    proof {
        assert(v.deep_view().len() == v@.len());
        assert(x.deep_view().len() == x@.len());
        assert(x.deep_view()[1] == x@[1]@);
    }
    loop
        invariant
            0 <= p <= n,
            n == v.len(),
            x@.len() == 4,
            x.deep_view().len() == 4,
            all_rows_wf(v.deep_view()),
            x.deep_view()[1] == x@[1]@,
            forall|j: int|
                0 <= j < p ==> !lex_leq(ts_of(x.deep_view()), ts_of(#[trigger] v.deep_view()[j])),
        ensures
            0 <= p <= n,
            forall|j: int|
                0 <= j < p ==> !lex_leq(ts_of(x.deep_view()), ts_of(#[trigger] v.deep_view()[j])),
            p < n ==> lex_leq(ts_of(x.deep_view()), ts_of(v.deep_view()[p as int])),
        decreases n - p,
    {
        if p >= n {
            break ;
        }
        proof {
            assert(v.deep_view()[p as int] == v@[p as int].deep_view());
            assert(v@[p as int].deep_view()[1] == v@[p as int]@[1]@);
        }
        if lex_leq_str(x[1].as_str(), v[p][1].as_str()) {
            break ;
        }
        p = p + 1;
    }
    proof {
        lemma_insert_at_position(x.deep_view(), v.deep_view(), p as int);
        lemma_insert_wf(x.deep_view(), v.deep_view());
    }
    let ghost oldv = v.deep_view();
    v.insert(p, x);
    proof {
        assert(v.deep_view() =~= oldv.insert(p as int, x.deep_view()));
    }
    v
}

/// Sorts records ascending by their timestamp text, stably: the result is
/// exactly `spec_sort_rows` of the input.
pub fn sort_by_timestamp(rows: Vec<LogEntry>) -> (r: Vec<LogEntry>)
    requires
        all_rows_wf(rows.deep_view()),
    ensures
        r.deep_view() == spec_sort_rows(rows.deep_view()),
        all_rows_wf(r.deep_view()),
{
    let ghost orig = rows.deep_view();
    let mut rows = rows;
    let mut r: Vec<LogEntry> = Vec::new();
    proof {
        assert(orig.skip(rows@.len() as int) =~= Seq::<Seq<Seq<char>>>::empty());
        assert(r.deep_view() =~= spec_sort_rows(orig.skip(rows@.len() as int)));
    }
    while rows.len() > 0
        invariant
            rows.deep_view() == orig.take(rows@.len() as int),
            r.deep_view() == spec_sort_rows(orig.skip(rows@.len() as int)),
            rows@.len() <= orig.len(),
            all_rows_wf(orig),
            all_rows_wf(r.deep_view()),
        decreases rows.len(),
    {
        let ghost k = rows@.len() as int;
        proof {
            assert(rows.deep_view()[k - 1] == rows@[k - 1].deep_view());
            assert(rows.deep_view()[k - 1] == orig.take(k)[k - 1]);
            assert(orig.skip(k - 1)[0] == orig[k - 1]);
            assert(orig.skip(k - 1).skip(1) =~= orig.skip(k));
            assert(all_rows_wf(rows.deep_view()) == all_rows_wf(orig.take(k))) by {
                assert forall|j: int| 0 <= j < k implies #[trigger] orig.take(k)[j] == orig[j] by {}
            }
            assert forall|j: int| 0 <= j < rows.deep_view().len() implies (#[trigger] rows.deep_view()[j]).len() == 4 by {
                assert(rows.deep_view()[j] == orig.take(k)[j]);
                assert(orig.take(k)[j] == orig[j]);
            }
        }
        let x = rows.pop().unwrap();
        proof {
            assert(rows.deep_view() =~= orig.take(k - 1));
            assert(x.deep_view() == orig[k - 1]);
            assert(spec_sort_rows(orig.skip(k - 1)) == spec_insert_row(
                orig[k - 1],
                spec_sort_rows(orig.skip(k)),
            ));
        }
        r = insert_by_timestamp(x, r);
    }
    proof {
        assert(orig.skip(0) =~= orig);
    }
    r
}

} // verus!
