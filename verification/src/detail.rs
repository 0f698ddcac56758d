//! Per-language totals, and the aggregator that adds per-file counts up
//! into them.

use crate::count::{add_capped, add_capped_size, capped, capped_size};
use crate::parse::Data;
use crate::text::same_text;
use vstd::prelude::*;
use vstd::seq_lib::{commutative_foldl, lemma_fold_left_permutation};

verus! {

/// The totals of one language.
#[derive(Debug, Clone, Copy, PartialEq, Eq)]
pub struct Detail {
    /// Name of the language.
    pub language: &'static str,
    pub blank: i32,
    pub comment: i32,
    pub code: i32,
    /// Bytes in the files counted.
    pub size: u64,
    /// Number of files counted.
    pub file: i32,
}

/// Exact sums over files, before any counter's width comes into play.
pub struct Sums {
    pub blank: int,
    pub comment: int,
    pub code: int,
    pub size: int,
    pub file: int,
}

impl Sums {
    /// Sums over no file.
    pub open spec fn zero() -> Sums {
        Sums { blank: 0, comment: 0, code: 0, size: 0, file: 0 }
    }

    /// These sums and one file more.
    pub open spec fn plus(self, data: Data) -> Sums {
        Sums {
            blank: self.blank + data.blank,
            comment: self.comment + data.comment,
            code: self.code + data.code,
            size: self.size + data.size,
            file: self.file + 1,
        }
    }

    /// The sums as counters hold them.
    pub open spec fn capped(self) -> Sums {
        Sums {
            blank: capped(self.blank),
            comment: capped(self.comment),
            code: capped(self.code),
            size: capped_size(self.size),
            file: capped(self.file),
        }
    }

    /// No sum is negative.
    pub open spec fn wf(self) -> bool {
        self.blank >= 0 && self.comment >= 0 && self.code >= 0 && self.size >= 0 && self.file >= 0
    }
}

impl Data {
    /// No counter is negative.
    pub open spec fn wf(&self) -> bool {
        self.blank >= 0 && self.comment >= 0 && self.code >= 0
    }

    /// The totals of a language of which this file is the only one.
    pub open spec fn detail(self) -> Detail {
        Detail {
            language: self.language,
            blank: self.blank,
            comment: self.comment,
            code: self.code,
            size: self.size,
            file: 1,
        }
    }

    /// Starts the totals of a language with this file.
    pub fn into_detail(self) -> (detail: Detail)
        ensures
            detail == self.detail(),
    {
        Detail {
            language: self.language,
            blank: self.blank,
            comment: self.comment,
            code: self.code,
            size: self.size,
            file: 1,
        }
    }
}

impl Detail {
    /// No counter is negative.
    pub open spec fn wf(&self) -> bool {
        self.blank >= 0 && self.comment >= 0 && self.code >= 0 && self.file >= 0
    }

    /// The counters as integers.
    pub open spec fn sums(&self) -> Sums {
        Sums {
            blank: self.blank as int,
            comment: self.comment as int,
            code: self.code as int,
            size: self.size as int,
            file: self.file as int,
        }
    }

    /// These totals with the file `data` counted in.
    pub open spec fn with(self, data: Data) -> Detail {
        let sums = self.sums().plus(data).capped();
        Detail {
            language: self.language,
            blank: sums.blank as i32,
            comment: sums.comment as i32,
            code: sums.code as i32,
            size: sums.size as u64,
            file: sums.file as i32,
        }
    }

    /// Counts the file `data` in: its lines and bytes are added, and the
    /// number of files grows by one. No counter ever shrinks, and none wraps
    /// around: one that has reached its largest value stays there.
    pub fn add(&mut self, data: Data)
        requires
            old(self).wf(),
            data.wf(),
        ensures
            *final(self) == old(self).with(data),
            final(self).wf(),
            final(self).sums() == old(self).sums().plus(data).capped(),
            final(self).blank >= old(self).blank,
            final(self).comment >= old(self).comment,
            final(self).code >= old(self).code,
            final(self).size >= old(self).size,
            final(self).file >= old(self).file,
    {
        self.comment = add_capped(self.comment, data.comment);
        self.blank = add_capped(self.blank, data.blank);
        self.code = add_capped(self.code, data.code);
        self.size = add_capped_size(self.size, data.size);
        self.file = add_capped(self.file, 1);
    }
}

/// Exact sums over the files of `items` that are in the language `name`.
pub open spec fn sums_of(items: Seq<Data>, name: Seq<char>) -> Sums
    decreases items.len(),
{
    if items.len() == 0 {
        Sums::zero()
    } else if items.last().language@ == name {
        sums_of(items.drop_last(), name).plus(items.last())
    } else {
        sums_of(items.drop_last(), name)
    }
}

/// Whether a file of `items` is in the language `name`.
pub open spec fn occurs(items: Seq<Data>, name: Seq<char>) -> bool {
    exists|i: int| 0 <= i < items.len() && (#[trigger] items[i]).language@ == name
}

/// The names of the languages of `items`, each once, in the order in which
/// they are first met.
pub open spec fn names_of(items: Seq<Data>) -> Seq<Seq<char>>
    decreases items.len(),
{
    if items.len() == 0 {
        Seq::empty()
    } else {
        let before = names_of(items.drop_last());
        if before.contains(items.last().language@) {
            before
        } else {
            before.push(items.last().language@)
        }
    }
}

/// Whether `total` holds the totals of `items`: one entry for each language
/// met, in the order of first meeting, with the sums over that language's
/// files as counters hold them.
pub open spec fn totals_of(total: Seq<Detail>, items: Seq<Data>) -> bool {
    &&& total.len() == names_of(items).len()
    &&& forall|k: int|
        0 <= k < total.len() ==> {
            &&& (#[trigger] total[k]).language@ == names_of(items)[k]
            &&& total[k].sums() == sums_of(items, names_of(items)[k]).capped()
        }
}

/// The totals as a table from language name to counters. Where a name
/// stands twice, its first entry counts.
pub open spec fn table(total: Seq<Detail>) -> Map<Seq<char>, Sums> {
    Map::new(
        |name: Seq<char>| listed(total, name) is Some,
        |name: Seq<char>| total[listed(total, name).unwrap()].sums(),
    )
}

/// Index of the first entry of `total` for the language `name`.
pub open spec fn listed(total: Seq<Detail>, name: Seq<char>) -> Option<int>
    decreases total.len(),
{
    if total.len() == 0 {
        None
    } else {
        match listed(total.drop_last(), name) {
            Some(k) => Some(k),
            None => if total.last().language@ == name {
                Some(total.len() - 1)
            } else {
                None
            },
        }
    }
}

/// `total` after the file `data` has been merged in: counted into the entry
/// of its language, or into a new entry at the end where it has none yet.
pub open spec fn merged(total: Seq<Detail>, data: Data) -> Seq<Detail> {
    match listed(total, data.language@) {
        Some(k) => total.update(k, total[k].with(data)),
        None => total.push(data.detail()),
    }
}

/// The files of all `lists`, one list after the other.
pub open spec fn flat(lists: Seq<Vec<Data>>) -> Seq<Data>
    decreases lists.len(),
{
    if lists.len() == 0 {
        Seq::empty()
    } else {
        flat(lists.drop_last()) + lists.last()@
    }
}

/// What [`listed`] finds is the first entry with the name, and it finds
/// nothing only where no entry has it.
pub proof fn lemma_listed(total: Seq<Detail>, name: Seq<char>)
    ensures
        match listed(total, name) {
            Some(k) => 0 <= k < total.len() && total[k].language@ == name && forall|j: int|
                0 <= j < k ==> (#[trigger] total[j]).language@ != name,
            None => forall|j: int| 0 <= j < total.len() ==> (#[trigger] total[j]).language@ != name,
        },
    decreases total.len(),
{
    if total.len() > 0 {
        let front = total.drop_last();
        lemma_listed(front, name);
        assert forall|j: int| 0 <= j < front.len() implies front[j] == total[j] by {}
        match listed(front, name) {
            Some(k) => {
                assert forall|j: int| 0 <= j < k implies (#[trigger] total[j]).language@
                    != name by {
                    assert(front[j] == total[j]);
                }
            },
            None => {
                assert forall|j: int| 0 <= j < front.len() implies (#[trigger] total[j]).language@
                    != name by {
                    assert(front[j] == total[j]);
                }
            },
        }
    }
}

/// Index of the first entry of `total` for the language `name`.
pub fn find(total: &Vec<Detail>, name: &str) -> (found: Option<usize>)
    ensures
        match found {
            Some(k) => listed(total@, name@) == Some(k as int) && k < total@.len(),
            None => listed(total@, name@) is None,
        },
{
    let mut i: usize = 0;
    while i < total.len()
        invariant
            i <= total@.len(),
            forall|j: int| 0 <= j < i ==> (#[trigger] total@[j]).language@ != name@,
        decreases total@.len() - i,
    {
        if same_text(total[i].language, name) {
            proof {
                lemma_listed(total@, name@);
            }
            return Some(i);
        }
        i += 1;
    }
    proof {
        lemma_listed(total@, name@);
    }
    None
}

/// Merges the file `data` into `total`: it is counted into the entry of its
/// language, or starts a new entry at the end where there is none.
pub fn merge(total: &mut Vec<Detail>, data: Data)
    requires
        forall|i: int| 0 <= i < old(total)@.len() ==> (#[trigger] old(total)@[i]).wf(),
        data.wf(),
    ensures
        final(total)@ == merged(old(total)@, data),
        forall|i: int| 0 <= i < final(total)@.len() ==> (#[trigger] final(total)@[i]).wf(),
{
    match find(total, data.language) {
        Some(k) => {
            let mut detail = total[k];
            detail.add(data);
            total.set(k, detail);
        },
        None => {
            total.push(data.into_detail());
        },
    }
}

/// The totals of `items` as a table from language name to counters: an
/// entry for each language met, with the sums over its files as counters
/// hold them.
pub open spec fn totals(items: Seq<Data>) -> Map<Seq<char>, Sums> {
    Map::new(
        |name: Seq<char>| occurs(items, name),
        |name: Seq<char>| sums_of(items, name).capped(),
    )
}

/// The names listed are those of the languages met, each once.
pub proof fn lemma_names_of(items: Seq<Data>)
    ensures
        names_of(items).no_duplicates(),
        forall|name: Seq<char>| names_of(items).contains(name) <==> occurs(items, name),
    decreases items.len(),
{
    if items.len() == 0 {
    } else {
        let front = items.drop_last();
        let last = items.last().language@;
        let before = names_of(front);
        lemma_names_of(front);
        assert forall|name: Seq<char>| names_of(items).contains(name) <==> occurs(
            items,
            name,
        ) by {
            if occurs(items, name) {
                let i = choose|i: int| 0 <= i < items.len() && (#[trigger] items[i]).language@ == name;
                if i < front.len() {
                    assert(front[i] == items[i]);
                    assert(occurs(front, name));
                    assert(before.contains(name));
                    if !before.contains(last) {
                        let k = choose|k: int| 0 <= k < before.len() && before[k] == name;
                        assert(before.push(last)[k] == name);
                    }
                } else {
                    assert(name == last);
                    if !before.contains(last) {
                        assert(before.push(last)[before.len() as int] == last);
                    }
                }
            }
            if names_of(items).contains(name) {
                let k = choose|k: int| 0 <= k < names_of(items).len() && names_of(items)[k] == name;
                if k < before.len() {
                    assert(names_of(items)[k] == before[k]);
                    assert(before.contains(name));
                    assert(occurs(front, name));
                    let i = choose|i: int|
                        0 <= i < front.len() && (#[trigger] front[i]).language@ == name;
                    assert(items[i] == front[i]);
                } else {
                    assert(name == last);
                    assert(items[items.len() - 1].language@ == name);
                }
            }
        }
    }
}

/// A language that no file is in has empty sums.
pub proof fn lemma_sums_absent(items: Seq<Data>, name: Seq<char>)
    requires
        !occurs(items, name),
    ensures
        sums_of(items, name) == Sums::zero(),
    decreases items.len(),
{
    if items.len() > 0 {
        let front = items.drop_last();
        assert(items[items.len() - 1].language@ != name);
        assert forall|i: int| 0 <= i < front.len() implies (#[trigger] front[i]).language@
            != name by {
            assert(front[i] == items[i]);
        }
        lemma_sums_absent(front, name);
    }
}

/// Sums over files with counters that are not negative are not negative,
/// and the number of files is that of the files in the language.
pub proof fn lemma_sums_wf(items: Seq<Data>, name: Seq<char>)
    requires
        forall|i: int| 0 <= i < items.len() ==> (#[trigger] items[i]).wf(),
    ensures
        sums_of(items, name).wf(),
        sums_of(items, name).file == items.filter(|d: Data| d.language@ == name).len(),
    decreases items.len(),
{
    let pred = |d: Data| d.language@ == name;
    if items.len() > 0 {
        let front = items.drop_last();
        assert forall|i: int| 0 <= i < front.len() implies (#[trigger] front[i]).wf() by {
            assert(front[i] == items[i]);
        }
        lemma_sums_wf(front, name);
        assert(items == front.push(items.last()));
        Seq::lemma_filter_push(front, items.last(), pred);
    }
}

/// Merging one more file keeps the totals those of the files merged so far.
pub proof fn lemma_merged(total: Seq<Detail>, items: Seq<Data>, data: Data)
    requires
        totals_of(total, items),
        forall|i: int| 0 <= i < items.len() ==> (#[trigger] items[i]).wf(),
        data.wf(),
    ensures
        totals_of(merged(total, data), items.push(data)),
{
    let name = data.language@;
    let next = items.push(data);
    let names = names_of(items);
    assert(next.drop_last() == items);
    assert(next.last() == data);
    lemma_names_of(items);
    lemma_listed(total, name);
    let after = merged(total, data);
    assert forall|k: int| 0 <= k < names.len() && names[k] != name implies sums_of(next, names[k])
        == sums_of(items, names[k]) by {}
    match listed(total, name) {
        Some(k) => {
            assert(names[k] == name);
            assert(names.contains(name));
            assert(names_of(next) == names);
            lemma_sums_wf(items, name);
            assert forall|j: int| 0 <= j < after.len() implies {
                &&& (#[trigger] after[j]).language@ == names_of(next)[j]
                &&& after[j].sums() == sums_of(next, names_of(next)[j]).capped()
            } by {
                if j == k {
                    assert(total[k].sums() == sums_of(items, name).capped());
                    assert(sums_of(next, name) == sums_of(items, name).plus(data));
                } else {
                    assert(total[j].language@ == names[j]);
                    assert(names[j] != names[k]);
                }
            }
        },
        None => {
            assert(!names.contains(name)) by {
                if names.contains(name) {
                    let j = choose|j: int| 0 <= j < names.len() && names[j] == name;
                    assert(total[j].language@ == name);
                }
            }
            assert(names_of(next) == names.push(name));
            assert(!occurs(items, name));
            lemma_sums_absent(items, name);
            assert forall|j: int| 0 <= j < after.len() implies {
                &&& (#[trigger] after[j]).language@ == names_of(next)[j]
                &&& after[j].sums() == sums_of(next, names_of(next)[j]).capped()
            } by {
                if j < total.len() {
                    assert(total[j].language@ == names[j]);
                    assert(names[j] != name);
                } else {
                    assert(sums_of(next, name) == Sums::zero().plus(data));
                }
            }
        },
    }
}

/// Totals that are those of `items` form the table of `items`.
pub proof fn lemma_table(total: Seq<Detail>, items: Seq<Data>)
    requires
        totals_of(total, items),
    ensures
        table(total) == totals(items),
{
    lemma_names_of(items);
    let names = names_of(items);
    assert forall|name: Seq<char>| (listed(total, name) is Some) == occurs(items, name) by {
        lemma_listed(total, name);
        if occurs(items, name) {
            assert(names.contains(name));
            let k = choose|k: int| 0 <= k < names.len() && names[k] == name;
            assert(total[k].language@ == name);
        }
        if let Some(k) = listed(total, name) {
            assert(names[k] == name);
            assert(names.contains(name));
        }
    }
    assert forall|name: Seq<char>| listed(total, name) is Some implies total[listed(
        total,
        name,
    ).unwrap()].sums() == sums_of(items, name).capped() by {
        lemma_listed(total, name);
    }
    assert(table(total) =~= totals(items));
}

/// The totals of the files of all `lists`: one entry for each language met,
/// in the order of first meeting, list after list.
pub fn aggregate(lists: Vec<Vec<Data>>) -> (total: Vec<Detail>)
    requires
        forall|i: int, j: int|
            0 <= i < lists@.len() && 0 <= j < lists@[i]@.len() ==> (#[trigger] lists@[i]@[j]).wf(),
    ensures
        totals_of(total@, flat(lists@)),
        table(total@) == totals(flat(lists@)),
        forall|k: int| 0 <= k < total@.len() ==> (#[trigger] total@[k]).wf(),
{
    let mut total: Vec<Detail> = Vec::new();
    let mut i: usize = 0;
    while i < lists.len()
        invariant
            i <= lists@.len(),
            totals_of(total@, flat(lists@.take(i as int))),
            forall|k: int| 0 <= k < total@.len() ==> (#[trigger] total@[k]).wf(),
            forall|k: int|
                0 <= k < flat(lists@.take(i as int)).len() ==> (#[trigger] flat(
                    lists@.take(i as int),
                )[k]).wf(),
            forall|i: int, j: int|
                0 <= i < lists@.len() && 0 <= j < lists@[i]@.len() ==> (#[trigger] lists@[i]@[j]).wf(),
        decreases lists@.len() - i,
    {
        let list = &lists[i];
        let ghost before = flat(lists@.take(i as int));
        let mut j: usize = 0;
        while j < list.len()
            invariant
                j <= list@.len(),
                i < lists@.len(),
                *list == lists@[i as int],
                before == flat(lists@.take(i as int)),
                totals_of(total@, before + list@.take(j as int)),
                forall|k: int| 0 <= k < total@.len() ==> (#[trigger] total@[k]).wf(),
                forall|k: int| 0 <= k < before.len() ==> (#[trigger] before[k]).wf(),
                forall|k: int| 0 <= k < list@.len() ==> (#[trigger] list@[k]).wf(),
            decreases list@.len() - j,
        {
            let data = list[j];
            proof {
                let seen = before + list@.take(j as int);
                assert(seen.push(data) == before + list@.take(j + 1));
                lemma_merged(total@, seen, data);
            }
            merge(&mut total, data);
            j += 1;
        }
        proof {
            assert(list@.take(j as int) == list@);
            assert(lists@.take(i + 1).drop_last() == lists@.take(i as int));
            assert(lists@.take(i + 1).last() == lists@[i as int]);
        }
        i += 1;
    }
    proof {
        assert(lists@.take(i as int) == lists@);
        lemma_table(total@, flat(lists@));
    }
    total
}

/// Files merged in another order give the same totals, language by
/// language.
pub proof fn lemma_order_independent(a: Seq<Data>, b: Seq<Data>)
    requires
        a.to_multiset() == b.to_multiset(),
    ensures
        totals(a) == totals(b),
{
    assert forall|name: Seq<char>| occurs(a, name) == occurs(b, name) && sums_of(a, name)
        == sums_of(b, name) by {
        lemma_sums_permuted(a, b, name);
        if occurs(a, name) {
            lemma_occurs_permuted(a, b, name);
        }
        if occurs(b, name) {
            lemma_occurs_permuted(b, a, name);
        }
    }
    assert(totals(a) =~= totals(b));
}

/// A language met in `a` is met in every rearrangement of `a`.
proof fn lemma_occurs_permuted(a: Seq<Data>, b: Seq<Data>, name: Seq<char>)
    requires
        a.to_multiset() == b.to_multiset(),
        occurs(a, name),
    ensures
        occurs(b, name),
{
    broadcast use vstd::seq_lib::group_to_multiset_ensures;

    let i = choose|i: int| 0 <= i < a.len() && (#[trigger] a[i]).language@ == name;
    assert(a.contains(a[i]));
    assert(a.to_multiset().count(a[i]) > 0);
    assert(b.contains(a[i]));
    let j = choose|j: int| 0 <= j < b.len() && b[j] == a[i];
    assert(b[j].language@ == name);
}

/// The step of the sums: a file counts for its own language only.
pub open spec fn counting(name: Seq<char>) -> spec_fn(Sums, Data) -> Sums {
    |sums: Sums, data: Data|
        if data.language@ == name {
            sums.plus(data)
        } else {
            sums
        }
}

proof fn lemma_sums_fold(items: Seq<Data>, name: Seq<char>)
    ensures
        sums_of(items, name) == items.fold_left(Sums::zero(), counting(name)),
    decreases items.len(),
{
    if items.len() > 0 {
        lemma_sums_fold(items.drop_last(), name);
    }
}

/// The sums of a language are the same in every rearrangement of the files.
pub proof fn lemma_sums_permuted(a: Seq<Data>, b: Seq<Data>, name: Seq<char>)
    requires
        a.to_multiset() == b.to_multiset(),
    ensures
        sums_of(a, name) == sums_of(b, name),
{
    lemma_sums_fold(a, name);
    lemma_sums_fold(b, name);
    let f = counting(name);
    assert(commutative_foldl(f)) by {
        assert forall|x: Data, y: Data, v: Sums| #[trigger] f(f(v, x), y) == f(f(v, y), x) by {}
    }
    lemma_fold_left_permutation(a, b, f, Sums::zero());
}

} // verus!
