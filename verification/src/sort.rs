//! Putting the totals in order: by language, or by one of the counters.

use crate::detail::Detail;
use crate::text::same_text;
use std::str::FromStr;
use vstd::prelude::*;
use vstd::string::StrSliceExecFns;

verus! {

/// The column a report is ordered by.
#[derive(Debug, Clone, Copy, PartialEq, Eq)]
pub enum Sort {
    Language,
    Code,
    Comment,
    Blank,
    File,
    Size,
}

/// Place of a language name in the listing: that of its first letter among
/// the capitals `A` to `Z`, counted from zero, and zero for every other
/// name.
pub open spec fn rank(name: Seq<char>) -> nat {
    if name.len() > 0 && 'A' <= name[0] <= 'Z' {
        (name[0] as u32 - 'A' as u32) as nat
    } else {
        0
    }
}

/// Place of the language name `s` in the listing.
pub fn position(s: &str) -> (place: usize)
    ensures
        place == rank(s@),
{
    if s.is_empty() {
        return 0;
    }
    let first = s.get_char(0);
    if 'A' <= first && first <= 'Z' {
        (first as u32 - 'A' as u32) as usize
    } else {
        0
    }
}

impl Sort {
    /// The column that goes by the name `value`.
    pub open spec fn named(value: Seq<char>) -> Option<Sort> {
        if value == "language"@ {
            Some(Sort::Language)
        } else if value == "code"@ {
            Some(Sort::Code)
        } else if value == "comment"@ {
            Some(Sort::Comment)
        } else if value == "blank"@ {
            Some(Sort::Blank)
        } else if value == "file"@ {
            Some(Sort::File)
        } else if value == "size"@ {
            Some(Sort::Size)
        } else {
            None
        }
    }

    /// The column that goes by the name `value`: `language`, `code`,
    /// `comment`, `blank`, `file` or `size`.
    pub fn from_name(value: &str) -> (r: Result<Sort, ()>)
        ensures
            r == match Sort::named(value@) {
                Some(sort) => Ok::<Sort, ()>(sort),
                None => Err::<Sort, ()>(()),
            },
    {
        if same_text(value, "language") {
            Ok(Sort::Language)
        } else if same_text(value, "code") {
            Ok(Sort::Code)
        } else if same_text(value, "comment") {
            Ok(Sort::Comment)
        } else if same_text(value, "blank") {
            Ok(Sort::Blank)
        } else if same_text(value, "file") {
            Ok(Sort::File)
        } else if same_text(value, "size") {
            Ok(Sort::Size)
        } else {
            Err(())
        }
    }

    /// Whether `a` belongs behind `b` in a report ordered by this column:
    /// languages go by their place in the listing, the earlier first;
    /// counters go by their value, the larger first.
    pub open spec fn behind(self, a: Detail, b: Detail) -> bool {
        match self {
            Sort::Language => rank(a.language@) > rank(b.language@),
            Sort::Code => a.code < b.code,
            Sort::Comment => a.comment < b.comment,
            Sort::Blank => a.blank < b.blank,
            Sort::File => a.file < b.file,
            Sort::Size => a.size < b.size,
        }
    }

    /// [`Sort::behind`] as a relation.
    pub open spec fn order(self) -> spec_fn(Detail, Detail) -> bool {
        |a: Detail, b: Detail| self.behind(a, b)
    }
}

impl FromStr for Sort {
    type Err = ();

    /// The column that goes by the name `value`, as [`Sort::from_name`]
    /// finds it.
    fn from_str(value: &str) -> (r: Result<Self, Self::Err>)
        ensures
            r == match Sort::named(value@) {
                Some(sort) => Ok::<Sort, ()>(sort),
                None => Err::<Sort, ()>(()),
            },
    {
        Sort::from_name(value)
    }
}

impl Default for Sort {
    fn default() -> (sort: Sort)
        ensures
            sort == Sort::Language,
    {
        Sort::Language
    }
}

/// Whether `call` answers as `behind` does, whatever two items it is asked
/// about.
pub open spec fn answers<T, F: Fn(&T, &T) -> bool>(call: F, behind: spec_fn(T, T) -> bool) -> bool {
    forall|a: T, b: T, r: bool| #[trigger] call.ensures((&a, &b), r) ==> r == behind(a, b)
}

/// Whether `behind` ranks items: never both ways between two of them, and
/// where neither `a` is behind `b` nor `b` behind `c`, `a` is not behind `c`.
pub open spec fn ranks<T>(behind: spec_fn(T, T) -> bool) -> bool {
    &&& forall|a: T, b: T| #[trigger] behind(a, b) ==> !behind(b, a)
    &&& forall|a: T, b: T, c: T|
        #![trigger behind(a, b), behind(b, c)]
        !behind(a, b) && !behind(b, c) ==> !behind(a, c)
}

/// Whether no item of `s` stands before one that it belongs behind.
pub open spec fn ordered<T>(s: Seq<T>, behind: spec_fn(T, T) -> bool) -> bool {
    forall|i: int, j: int| 0 <= i < j < s.len() ==> !behind(#[trigger] s[i], #[trigger] s[j])
}

/// The items that rank with `e`: neither behind it nor before it.
pub open spec fn level<T>(behind: spec_fn(T, T) -> bool, e: T) -> spec_fn(T) -> bool {
    |x: T| !behind(x, e) && !behind(e, x)
}

/// Whether `to` keeps the items of `from` that rank alike in the order they
/// have in `from`.
pub open spec fn steady<T>(from: Seq<T>, to: Seq<T>, behind: spec_fn(T, T) -> bool) -> bool {
    forall|e: T| #[trigger] to.filter(level(behind, e)) == from.filter(level(behind, e))
}

/// A sequence none of whose items passes a filter is filtered to nothing.
proof fn lemma_filter_none<T>(s: Seq<T>, pred: spec_fn(T) -> bool)
    requires
        forall|i: int| 0 <= i < s.len() ==> !pred(#[trigger] s[i]),
    ensures
        s.filter(pred) == Seq::<T>::empty(),
    decreases s.len(),
{
    reveal(Seq::filter);
    if s.len() > 0 {
        lemma_filter_none(s.drop_last(), pred);
    }
}

/// Moving the item at `i` forward to `p`, past items that it does not rank
/// with, changes no selection of items that rank alike.
proof fn lemma_move_keeps_level<T>(s: Seq<T>, p: int, i: int, behind: spec_fn(T, T) -> bool, e: T)
    requires
        0 <= p <= i < s.len(),
        ranks(behind),
        forall|k: int| p <= k < i ==> behind(#[trigger] s[k], s[i]),
    ensures
        s.remove(i).insert(p, s[i]).filter(level(behind, e)) == s.filter(level(behind, e)),
{
    let pred = level(behind, e);
    let t = s[i];
    let a = s.subrange(0, p);
    let b = s.subrange(p, i);
    let c = s.subrange(i + 1, s.len() as int);
    let one = seq![t];
    assert(s =~= a + b + one + c);
    assert(s.remove(i).insert(p, t) =~= a + one + b + c);
    Seq::filter_distributes_over_add(a + b + one, c, pred);
    Seq::filter_distributes_over_add(a + b, one, pred);
    Seq::filter_distributes_over_add(a, b, pred);
    Seq::filter_distributes_over_add(a + one + b, c, pred);
    Seq::filter_distributes_over_add(a + one, b, pred);
    Seq::filter_distributes_over_add(a, one, pred);
    if pred(t) {
        assert forall|k: int| 0 <= k < b.len() implies !pred(#[trigger] b[k]) by {
            assert(b[k] == s[p + k]);
            assert(behind(s[p + k], t));
            if pred(b[k]) {
                // b[k] and t would both rank with e, and so with each other.
                assert(!behind(b[k], e) && !behind(e, t));
            }
        }
        lemma_filter_none(b, pred);
        assert(a.filter(pred) + b.filter(pred) + one.filter(pred) =~= a.filter(pred) + one.filter(
            pred,
        ) + b.filter(pred));
    } else {
        assert forall|k: int| 0 <= k < one.len() implies !pred(#[trigger] one[k]) by {}
        lemma_filter_none(one, pred);
        assert(a.filter(pred) + b.filter(pred) + one.filter(pred) =~= a.filter(pred) + one.filter(
            pred,
        ) + b.filter(pred));
    }
}

/// Moving the item at `i` forward to `p`, past the items that belong behind
/// it and no further, extends the ordered part by that item.
proof fn lemma_move_orders<T>(s: Seq<T>, p: int, i: int, behind: spec_fn(T, T) -> bool)
    requires
        0 <= p <= i < s.len(),
        ranks(behind),
        ordered(s.take(i), behind),
        forall|k: int| p <= k < i ==> behind(#[trigger] s[k], s[i]),
        p > 0 ==> !behind(s[p - 1], s[i]),
    ensures
        ordered(s.remove(i).insert(p, s[i]).take(i + 1), behind),
{
    let t = s[i];
    let front = s.take(i);
    let next = s.remove(i).insert(p, t).take(i + 1);
    assert forall|x: int, y: int| 0 <= x < y < next.len() implies !behind(
        #[trigger] next[x],
        #[trigger] next[y],
    ) by {
        if y < p {
            assert(next[x] == front[x] && next[y] == front[y]);
        } else if y == p {
            assert(next[x] == front[x]);
            assert(next[y] == t);
            assert(!behind(front[x], front[p - 1]));
            assert(!behind(front[p - 1], t));
        } else if x < p {
            assert(next[x] == front[x] && next[y] == front[y - 1]);
        } else if x == p {
            assert(next[x] == t);
            assert(next[y] == s[y - 1]);
            assert(behind(s[y - 1], t));
        } else {
            assert(next[x] == front[x - 1] && next[y] == front[y - 1]);
        }
    }
}

/// Sequences with the same items, each as often, are as long as each other,
/// and every item of the one is an item of the other.
proof fn lemma_same_items<T>(from: Seq<T>, to: Seq<T>)
    requires
        to.to_multiset() == from.to_multiset(),
    ensures
        to.len() == from.len(),
        forall|i: int| 0 <= i < to.len() ==> from.contains(#[trigger] to[i]),
{
    vstd::seq_lib::to_multiset_len(from);
    vstd::seq_lib::to_multiset_len(to);
    assert forall|i: int| 0 <= i < to.len() implies from.contains(#[trigger] to[i]) by {
        assert(to.contains(to[i]));
        vstd::seq_lib::to_multiset_contains(to, to[i]);
        vstd::seq_lib::to_multiset_contains(from, to[i]);
    }
}

/// Puts `vec` in the order that `call` asks for, where `call(a, b)` says
/// that `a` belongs behind `b`.
///
/// The result holds the items of `vec` and no others. Where `call` ranks the
/// items, none stands before one that it belongs behind, and items that rank
/// alike keep the order they came in.
pub fn bubble_sort<T, F: Fn(&T, &T) -> bool>(vec: Vec<T>, call: F) -> (sorted: Vec<T>)
    requires
        forall|a: T, b: T| call.requires((&a, &b)),
    ensures
        sorted@.to_multiset() == vec@.to_multiset(),
        sorted@.len() == vec@.len(),
        forall|i: int| 0 <= i < sorted@.len() ==> vec@.contains(#[trigger] sorted@[i]),
        forall|behind: spec_fn(T, T) -> bool|
            #[trigger] answers(call, behind) && ranks(behind) ==> ordered(sorted@, behind)
                && steady(vec@, sorted@, behind),
{
    broadcast use vstd::seq_lib::group_to_multiset_ensures;

    let mut v = vec;
    let n = v.len();
    let mut i: usize = 0;
    while i < n
        invariant
            i <= n,
            v@.len() == n,
            forall|a: T, b: T| call.requires((&a, &b)),
            v@.to_multiset() == vec@.to_multiset(),
            forall|behind: spec_fn(T, T) -> bool|
                #[trigger] answers(call, behind) && ranks(behind) ==> ordered(
                    v@.take(i as int),
                    behind,
                ) && steady(vec@, v@, behind),
        decreases n - i,
    {
        let mut p: usize = i;
        let mut stop = false;
        while p > 0 && !stop
            invariant
                p <= i < n,
                v@.len() == n,
                forall|a: T, b: T| call.requires((&a, &b)),
                forall|k: int| p <= k < i ==> call.ensures((&#[trigger] v@[k], &v@[i as int]), true),
                stop ==> p > 0 && call.ensures((&v@[p - 1], &v@[i as int]), false),
            decreases p + (if stop { 0int } else { 1int }),
        {
            if call(&v[p - 1], &v[i]) {
                p -= 1;
            } else {
                stop = true;
            }
        }
        let ghost s = v@;
        if p < i {
            let item = v.remove(i);
            v.insert(p, item);
        } else {
            assert(s.remove(i as int).insert(p as int, s[i as int]) =~= s);
        }
        proof {
            assert(v@ == s.remove(i as int).insert(p as int, s[i as int]));
            assert(v@.to_multiset() =~= s.to_multiset()) by {
                broadcast use vstd::multiset::group_multiset_axioms;

                vstd::seq_lib::to_multiset_remove(s, i as int);
                vstd::seq_lib::to_multiset_insert(s.remove(i as int), p as int, s[i as int]);
                assert(s.contains(s[i as int]));
                vstd::seq_lib::to_multiset_contains(s, s[i as int]);
            }
            assert forall|behind: spec_fn(T, T) -> bool| #[trigger]
                answers(call, behind) && ranks(behind) implies ordered(v@.take(i + 1), behind)
                && steady(vec@, v@, behind) by {
                assert forall|k: int| p <= k < i implies behind(#[trigger] s[k], s[i as int]) by {
                    assert(call.ensures((&s[k], &s[i as int]), true));
                }
                lemma_move_orders(s, p as int, i as int, behind);
                assert forall|e: T| #[trigger]
                    v@.filter(level(behind, e)) == vec@.filter(level(behind, e)) by {
                    lemma_move_keeps_level(s, p as int, i as int, behind, e);
                    assert(s.filter(level(behind, e)) == vec@.filter(level(behind, e)));
                }
            }
        }
        i += 1;
    }
    proof {
        assert(v@.take(i as int) == v@);
        lemma_same_items(vec@, v@);
    }
    v
}

/// The last item that a filter lets through is the last of the sequence
/// that passes it.
proof fn lemma_filter_last<T>(s: Seq<T>, pred: spec_fn(T) -> bool)
    requires
        s.filter(pred).len() > 0,
    ensures
        exists|k: int|
            {
                &&& 0 <= k < s.len()
                &&& #[trigger] s[k] == s.filter(pred).last()
                &&& pred(s[k])
                &&& forall|j: int| k < j < s.len() ==> !pred(#[trigger] s[j])
            },
    decreases s.len(),
{
    reveal(Seq::filter);
    if s.len() > 0 {
        let front = s.drop_last();
        if pred(s.last()) {
            let k = s.len() - 1;
            assert(s[k] == s.filter(pred).last());
        } else {
            lemma_filter_last(front, pred);
            let k = choose|k: int|
                {
                    &&& 0 <= k < front.len()
                    &&& #[trigger] front[k] == front.filter(pred).last()
                    &&& pred(front[k])
                    &&& forall|j: int| k < j < front.len() ==> !pred(#[trigger] front[j])
                };
            assert(s[k] == front[k]);
            assert forall|j: int| k < j < s.len() implies !pred(#[trigger] s[j]) by {
                if j < front.len() {
                    assert(s[j] == front[j]);
                }
            }
        }
    }
}

/// Two sequences that are both in order, and in which the items that rank
/// alike stand in the same order, are the same sequence.
proof fn lemma_one_order<T>(a: Seq<T>, b: Seq<T>, behind: spec_fn(T, T) -> bool)
    requires
        ranks(behind),
        a.len() == b.len(),
        ordered(a, behind),
        ordered(b, behind),
        steady(a, b, behind),
    ensures
        a == b,
    decreases a.len(),
{
    reveal(Seq::filter);
    if a.len() == 0 {
        assert(a =~= b);
    } else {
        let n = a.len() as int;
        let x = a.last();
        let y = b.last();
        let p = level(behind, x);
        let q = level(behind, y);
        assert(p(x) && q(y));
        assert(b.filter(p) == a.filter(p));
        assert(b.filter(q) == a.filter(q));
        assert(a.filter(p).last() == x);
        assert(b.filter(q).last() == y);
        lemma_filter_last(b, p);
        let k = choose|k: int|
            {
                &&& 0 <= k < b.len()
                &&& #[trigger] b[k] == b.filter(p).last()
                &&& p(b[k])
                &&& forall|j: int| k < j < b.len() ==> !p(#[trigger] b[j])
            };
        lemma_filter_last(a, q);
        let m = choose|m: int|
            {
                &&& 0 <= m < a.len()
                &&& #[trigger] a[m] == a.filter(q).last()
                &&& q(a[m])
                &&& forall|j: int| m < j < a.len() ==> !q(#[trigger] a[j])
            };
        if k < n - 1 {
            // The last of `b` does not rank with `x`, yet is not before it.
            assert(!p(b[n - 1]));
            assert(!behind(b[k], b[n - 1]));
            assert(behind(y, x));
            if m < n - 1 {
                assert(!behind(a[m], a[n - 1]));
            }
            assert(false);
        }
        assert(y == x);
        let front = a.drop_last();
        let other = b.drop_last();
        assert forall|i: int, j: int| 0 <= i < j < front.len() implies !behind(
            #[trigger] front[i],
            #[trigger] front[j],
        ) by {
            assert(front[i] == a[i] && front[j] == a[j]);
        }
        assert forall|i: int, j: int| 0 <= i < j < other.len() implies !behind(
            #[trigger] other[i],
            #[trigger] other[j],
        ) by {
            assert(other[i] == b[i] && other[j] == b[j]);
        }
        assert forall|e: T| #[trigger]
            other.filter(level(behind, e)) == front.filter(level(behind, e)) by {
            let r = level(behind, e);
            assert(b.filter(r) == a.filter(r));
            if r(x) {
                assert(front.filter(r).push(x).drop_last() =~= front.filter(r));
                assert(other.filter(r).push(x).drop_last() =~= other.filter(r));
            }
        }
        lemma_one_order(front, other, behind);
        assert(a =~= front.push(x));
        assert(b =~= other.push(x));
    }
}

/// The order is settled: however the items of `from` are put in order, if
/// those that rank alike keep the order they have in `from`, the outcome is
/// the same.
pub proof fn lemma_order_is_settled<T>(
    from: Seq<T>,
    a: Seq<T>,
    b: Seq<T>,
    behind: spec_fn(T, T) -> bool,
)
    requires
        ranks(behind),
        a.len() == b.len(),
        ordered(a, behind),
        ordered(b, behind),
        steady(from, a, behind),
        steady(from, b, behind),
    ensures
        a == b,
{
    assert forall|e: T| #[trigger] b.filter(level(behind, e)) == a.filter(level(behind, e)) by {
        assert(a.filter(level(behind, e)) == from.filter(level(behind, e)));
    }
    lemma_one_order(a, b, behind);
}

/// Puts the totals in the order of the column `sort`: by language, those
/// earlier in the listing first, or by a counter, the larger values first.
/// Totals that rank alike keep the order they came in.
pub fn arrange(total: Vec<Detail>, sort: Sort) -> (sorted: Vec<Detail>)
    ensures
        sorted@.to_multiset() == total@.to_multiset(),
        sorted@.len() == total@.len(),
        forall|i: int| 0 <= i < sorted@.len() ==> total@.contains(#[trigger] sorted@[i]),
        ordered(sorted@, sort.order()),
        steady(total@, sorted@, sort.order()),
{
    let ghost behind = sort.order();
    assert(ranks(behind));
    match sort {
        Sort::Language => {
            let call = |a: &Detail, b: &Detail| -> (r: bool)
                ensures
                    r == (rank(a.language@) > rank(b.language@)),
                { position(a.language) > position(b.language) };
            assert(answers(call, behind));
            bubble_sort(total, call)
        },
        Sort::Code => {
            let call = |a: &Detail, b: &Detail| -> (r: bool)
                ensures
                    r == (a.code < b.code),
                { a.code < b.code };
            assert(answers(call, behind));
            bubble_sort(total, call)
        },
        Sort::Comment => {
            let call = |a: &Detail, b: &Detail| -> (r: bool)
                ensures
                    r == (a.comment < b.comment),
                { a.comment < b.comment };
            assert(answers(call, behind));
            bubble_sort(total, call)
        },
        Sort::Blank => {
            let call = |a: &Detail, b: &Detail| -> (r: bool)
                ensures
                    r == (a.blank < b.blank),
                { a.blank < b.blank };
            assert(answers(call, behind));
            bubble_sort(total, call)
        },
        Sort::File => {
            let call = |a: &Detail, b: &Detail| -> (r: bool)
                ensures
                    r == (a.file < b.file),
                { a.file < b.file };
            assert(answers(call, behind));
            bubble_sort(total, call)
        },
        Sort::Size => {
            let call = |a: &Detail, b: &Detail| -> (r: bool)
                ensures
                    r == (a.size < b.size),
                { a.size < b.size };
            assert(answers(call, behind));
            bubble_sort(total, call)
        },
    }
}

} // verus!
