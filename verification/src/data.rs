//! The key/value data a submission carries and criteria are tested
//! against, with its deterministic CSV serialization: entries are sorted
//! before they are written, so the output never depends on insertion order.

use vstd::prelude::*;
use vstd::relations::{sorted_by, total_ordering};
use vstd::seq_lib::*;
use vstd::seq_lib::{to_multiset_build, to_multiset_insert};
use crate::results_file::AsCsv;
use crate::text::{
    escape_commas, join_strings, join_with, lemma_lex_le_antisym, lemma_lex_le_connected,
    lemma_lex_le_refl, lemma_lex_le_trans, lex_le, replace_commas,
};

verus! {

/// One key/value entry as mathematical sequences.
pub type EntryView = (Seq<char>, Seq<char>);

/// The views of a sequence of owned entries.
pub open spec fn pair_views(s: Seq<(String, String)>) -> Seq<EntryView> {
    s.map_values(|p: (String, String)| (p.0@, p.1@))
}

/// Entries ordered by key, ties broken by value: a total order.
pub open spec fn entry_le(a: EntryView, b: EntryView) -> bool {
    if a.0 != b.0 {
        lex_le(a.0, b.0)
    } else {
        lex_le(a.1, b.1)
    }
}

/// `entry_le` as a first-class order, for the sorting library.
pub open spec fn entry_order() -> spec_fn(EntryView, EntryView) -> bool {
    |a: EntryView, b: EntryView| entry_le(a, b)
}

pub proof fn lemma_entry_order_total()
    ensures
        total_ordering(entry_order()),
{
    let leq = entry_order();
    assert forall|a: EntryView| #[trigger] leq(a, a) by {
        lemma_lex_le_refl(a.1);
    }
    assert forall|a: EntryView, b: EntryView| #[trigger] leq(a, b) && #[trigger] leq(b, a)
        implies a == b by {
        if a.0 != b.0 {
            lemma_lex_le_antisym(a.0, b.0);
        } else {
            lemma_lex_le_antisym(a.1, b.1);
        }
    }
    assert forall|a: EntryView, b: EntryView, c: EntryView|
        #[trigger] leq(a, b) && #[trigger] leq(b, c) implies leq(a, c) by {
        lemma_entry_le_transitive(a, b, c);
    }
    assert forall|a: EntryView, b: EntryView| #[trigger] leq(a, b) || #[trigger] leq(b, a) by {
        lemma_entry_le_connected(a, b);
    }
}

pub proof fn lemma_entry_le_connected(a: EntryView, b: EntryView)
    ensures
        entry_le(a, b) || entry_le(b, a),
{
    if a.0 != b.0 {
        lemma_lex_le_connected(a.0, b.0);
    } else {
        lemma_lex_le_connected(a.1, b.1);
    }
}

pub proof fn lemma_entry_le_transitive(a: EntryView, b: EntryView, c: EntryView)
    requires
        entry_le(a, b),
        entry_le(b, c),
    ensures
        entry_le(a, c),
{
    if a.0 != b.0 && b.0 != c.0 {
        lemma_lex_le_trans(a.0, b.0, c.0);
        if a.0 == c.0 {
            lemma_lex_le_antisym(a.0, b.0);
        }
    } else if a.0 == b.0 && b.0 == c.0 {
        lemma_lex_le_trans(a.1, b.1, c.1);
    }
}

/// The entries in canonical order: sorted by key, ties by value.
pub open spec fn sorted_entries(s: Seq<EntryView>) -> Seq<EntryView> {
    s.sort_by(entry_order())
}

/// The CSV line of a data map: values in canonical entry order, commas
/// inside a value turned into semicolons.
pub open spec fn data_csv_line(s: Seq<EntryView>) -> Seq<char> {
    join_with(sorted_entries(s).map_values(|p: EntryView| escape_commas(p.1)), seq![','])
}

/// The CSV header of a data map: keys in canonical entry order.
pub open spec fn data_header_line(s: Seq<EntryView>) -> Seq<char> {
    join_with(sorted_entries(s).map_values(|p: EntryView| p.0), seq![','])
}

/// Serialization ignores the order entries were added in: data maps that
/// hold the same entries serialize to the same line and the same header.
pub proof fn lemma_csv_independent_of_insertion_order(a: Seq<EntryView>, b: Seq<EntryView>)
    requires
        a.to_multiset() == b.to_multiset(),
    ensures
        data_csv_line(a) == data_csv_line(b),
        data_header_line(a) == data_header_line(b),
{
    lemma_entry_order_total();
    a.lemma_sort_by_ensures(entry_order());
    b.lemma_sort_by_ensures(entry_order());
    lemma_sorted_unique(sorted_entries(a), sorted_entries(b), entry_order());
    assert(sorted_entries(a) == sorted_entries(b));
}

/// Decides equality of two strings.
pub fn str_eq(a: &str, b: &str) -> (r: bool)
    ensures
        r == (a@ == b@),
{
    let le = crate::text::str_lex_le(a, b);
    let ge = crate::text::str_lex_le(b, a);
    proof {
        if lex_le(a@, b@) && lex_le(b@, a@) {
            lemma_lex_le_antisym(a@, b@);
        }
        if a@ == b@ {
            lemma_lex_le_refl(a@);
        }
    }
    le && ge
}

fn entry_le_exec(a: &(String, String), b: &(String, String)) -> (r: bool)
    ensures
        r == entry_le((a.0@, a.1@), (b.0@, b.1@)),
{
    if str_eq(a.0.as_str(), b.0.as_str()) {
        crate::text::str_lex_le(a.1.as_str(), b.1.as_str())
    } else {
        crate::text::str_lex_le(a.0.as_str(), b.0.as_str())
    }
}

fn copy_pair(p: &(String, String)) -> (r: (String, String))
    ensures
        r.0@ == p.0@,
        r.1@ == p.1@,
{
    (p.0.as_str().to_owned(), p.1.as_str().to_owned())
}

/// Copies the entries into canonical order.
fn sort_pairs(v: &Vec<(String, String)>) -> (out: Vec<(String, String)>)
    ensures
        pair_views(out@) == sorted_entries(pair_views(v@)),
{
    broadcast use vstd::seq_lib::group_to_multiset_ensures;
    broadcast use vstd::seq_lib::to_multiset_insert;

    let ghost orig = pair_views(v@);
    let mut out: Vec<(String, String)> = Vec::new();
    let mut i: usize = 0;
    while i < v.len()
        invariant
            0 <= i <= v@.len(),
            orig == pair_views(v@),
            sorted_by(pair_views(out@), entry_order()),
            pair_views(out@).to_multiset() == orig.take(i as int).to_multiset(),
        decreases v@.len() - i,
    {
        let p = copy_pair(&v[i]);
        let ghost pv = (p.0@, p.1@);
        let ghost out0 = pair_views(out@);
        let mut j: usize = 0;
        loop
            invariant
                0 <= j <= out.len(),
                pv == (p.0@, p.1@),
                out0 == pair_views(out@),
                sorted_by(out0, entry_order()),
                forall|k: int| 0 <= k < j ==> entry_le(#[trigger] out0[k], pv),
            ensures
                0 <= j <= out.len(),
                out0 == pair_views(out@),
                sorted_by(out0, entry_order()),
                forall|k: int| 0 <= k < j ==> entry_le(#[trigger] out0[k], pv),
                forall|k: int| j <= k < out0.len() ==> entry_le(pv, #[trigger] out0[k]),
            decreases out.len() - j,
        {
            if j == out.len() {
                break;
            }
            if !entry_le_exec(&out[j], &p) {
                proof {
                    assert(out0[j as int] == (out@[j as int].0@, out@[j as int].1@));
                    lemma_entry_le_connected(out0[j as int], pv);
                    assert(entry_le(pv, out0[j as int]));
                    assert forall|k: int| j <= k < out0.len() implies entry_le(
                        pv,
                        #[trigger] out0[k],
                    ) by {
                        if k > j {
                            assert(entry_order()(out0[j as int], out0[k]));
                            lemma_entry_le_transitive(pv, out0[j as int], out0[k]);
                        }
                    }
                }
                break;
            }
            proof {
                assert(out0[j as int] == (out@[j as int].0@, out@[j as int].1@));
            }
            j = j + 1;
        }
        out.insert(j, p);
        proof {
            assert(pair_views(out@) =~= out0.insert(j as int, pv));
            to_multiset_insert(out0, j as int, pv);
            to_multiset_build(orig.take(i as int), pv);
            assert forall|x: int, y: int|
                0 <= x < y < pair_views(out@).len() implies entry_order()(
                pair_views(out@)[x],
                pair_views(out@)[y],
            ) by {
                let s = pair_views(out@);
                if y < j {
                } else if x > j {
                } else if x == j {
                    assert(entry_le(pv, out0[y - 1]));
                } else if y == j {
                    assert(entry_le(out0[x], pv));
                }
            }
            assert(sorted_by(pair_views(out@), entry_order()));
            assert(orig.take(i + 1 as int).drop_last() =~= orig.take(i as int));
            assert(orig.take(i + 1 as int) =~= orig.take(i as int).push(pv));
        }
        i = i + 1;
    }
    proof {
        assert(orig.take(orig.len() as int) =~= orig);
        lemma_entry_order_total();
        orig.lemma_sort_by_ensures(entry_order());
        lemma_sorted_unique(pair_views(out@), sorted_entries(orig), entry_order());
    }
    out
}

/// A bag of key/value data: what a student hands in, and what criterion
/// checks inspect. Insertion keeps the first position of a key; looking a
/// key up finds its first entry.
#[derive(Debug, PartialEq, Eq)]
pub struct TestData {
    entries: Vec<(String, String)>,
}

impl View for TestData {
    type V = Seq<EntryView>;

    closed spec fn view(&self) -> Seq<EntryView> {
        pair_views(self.entries@)
    }
}

/// `i` is the first position of `key` in `s`.
pub open spec fn key_first_at(s: Seq<EntryView>, key: Seq<char>, i: int) -> bool {
    &&& 0 <= i < s.len()
    &&& s[i].0 == key
    &&& forall|j: int| 0 <= j < i ==> (#[trigger] s[j]).0 != key
}

impl TestData {
    /// An empty data map.
    pub fn new() -> (d: TestData)
        ensures
            d@ == Seq::<EntryView>::empty(),
    {
        let d = TestData { entries: Vec::new() };
        proof {
            assert(d@ =~= Seq::<EntryView>::empty());
        }
        d
    }

    /// The number of entries.
    pub fn len(&self) -> (n: usize)
        ensures
            n == self@.len(),
    {
        self.entries.len()
    }

    /// Adds `value` under `key`: replaces the value at the key's first
    /// entry if the key is present, appends a new entry otherwise.
    pub fn insert(&mut self, key: String, value: String)
        ensures
            forall|i: int|
                key_first_at(old(self)@, key@, i) ==> final(self)@ == old(self)@.update(
                    i,
                    (key@, value@),
                ),
            (forall|i: int| 0 <= i < old(self)@.len() ==> (#[trigger] old(self)@[i]).0 != key@)
                ==> final(self)@ == old(self)@.push((key@, value@)),
    {
        let ghost o = self@;
        let ghost kv = key@;
        let ghost vv = value@;
        let n = self.entries.len();
        let mut i: usize = 0;
        while i < n
            invariant
                0 <= i <= n,
                n == self.entries@.len(),
                self@ == o,
                o == old(self)@,
                kv == key@,
                vv == value@,
                forall|j: int| 0 <= j < i ==> (#[trigger] o[j]).0 != kv,
            decreases n - i,
        {
            if str_eq(self.entries[i].0.as_str(), key.as_str()) {
                proof {
                    assert(o[i as int] == (self.entries@[i as int].0@, self.entries@[i as int].1@));
                    assert(o[i as int].0 == kv);
                }
                let e = vstd::std_specs::vec::vec_index_mut(&mut self.entries, i);
                *e = (key, value);
                proof {
                    assert(self@ =~= o.update(i as int, (kv, vv)));
                    assert forall|i2: int| key_first_at(o, kv, i2) implies i2 == i as int by {
                        if i2 < i as int {
                            assert(o[i2].0 != kv);
                        } else if i2 > i as int {
                            assert((#[trigger] o[i as int]).0 != kv);
                        }
                    }
                    assert(o[i as int].0 == kv);
                }
                return;
            }
            i = i + 1;
        }
        self.entries.push((key, value));
        proof {
            assert(self@ =~= o.push((kv, vv)));
            assert forall|i2: int| key_first_at(o, kv, i2) implies false by {
                assert((#[trigger] o[i2]).0 != kv);
            }
        }
    }

    /// Looks a key up, returning the value at its first entry.
    pub fn get(&self, key: &str) -> (r: Option<&String>)
        ensures
            match r {
                Some(v) => exists|i: int| key_first_at(self@, key@, i) && (#[trigger] self@[i]).1
                    == v@,
                None => forall|i: int| 0 <= i < self@.len() ==> (#[trigger] self@[i]).0 != key@,
            },
    {
        let n = self.entries.len();
        let mut i: usize = 0;
        while i < n
            invariant
                0 <= i <= n,
                n == self@.len(),
                self@ == pair_views(self.entries@),
                forall|j: int| 0 <= j < i ==> (#[trigger] self@[j]).0 != key@,
            decreases n - i,
        {
            if str_eq(self.entries[i].0.as_str(), key) {
                proof {
                    assert(self@[i as int] == (
                        self.entries@[i as int].0@,
                        self.entries@[i as int].1@,
                    ));
                    assert(key_first_at(self@, key@, i as int));
                }
                return Some(&self.entries[i].1);
            }
            i = i + 1;
        }
        None
    }

    /// The entries, in insertion order.
    pub fn entries(&self) -> (r: &Vec<(String, String)>)
        ensures
            pair_views(r@) == self@,
    {
        &self.entries
    }

    /// The CSV values of the entries, in canonical order.
    pub fn csv_values(&self) -> (r: String)
        ensures
            r@ == data_csv_line(self@),
    {
        let sorted = sort_pairs(&self.entries);
        let ghost sv = pair_views(sorted@);
        let mut values: Vec<String> = Vec::new();
        let mut i: usize = 0;
        while i < sorted.len()
            invariant
                0 <= i <= sorted@.len(),
                sv == pair_views(sorted@),
                values@.len() == i,
                forall|j: int|
                    0 <= j < i ==> (#[trigger] values@[j])@ == escape_commas(sv[j].1),
            decreases sorted@.len() - i,
        {
            values.push(replace_commas(sorted[i].1.as_str()));
            i = i + 1;
        }
        let r = join_strings(&values, ",");
        proof {
            reveal_strlit(",");
            assert(","@ =~= seq![',']);
            assert(crate::text::str_views(values@) =~= sv.map_values(
                |p: EntryView| escape_commas(p.1),
            ));
        }
        r
    }

    /// The CSV header of the entries: the keys, in canonical order.
    pub fn csv_header(&self) -> (r: String)
        ensures
            r@ == data_header_line(self@),
    {
        let sorted = sort_pairs(&self.entries);
        let ghost sv = pair_views(sorted@);
        let mut keys: Vec<String> = Vec::new();
        let mut i: usize = 0;
        while i < sorted.len()
            invariant
                0 <= i <= sorted@.len(),
                sv == pair_views(sorted@),
                keys@.len() == i,
                forall|j: int| 0 <= j < i ==> (#[trigger] keys@[j])@ == sv[j].0,
            decreases sorted@.len() - i,
        {
            keys.push(sorted[i].0.as_str().to_owned());
            i = i + 1;
        }
        let r = join_strings(&keys, ",");
        proof {
            reveal_strlit(",");
            assert(","@ =~= seq![',']);
            assert(crate::text::str_views(keys@) =~= sv.map_values(|p: EntryView| p.0));
        }
        r
    }
}

impl AsCsv for TestData {
    /// The entry values, sorted by key, commas escaped to semicolons.
    fn as_csv(&self) -> (r: String)
        ensures
            r@ == data_csv_line(self@),
    {
        self.csv_values()
    }

    /// Where a bare data map would be written; data is normally written as
    /// part of a submission instead.
    fn filename(&self) -> (r: String)
        ensures
            r@ == "submission_data.csv"@,
    {
        "submission_data.csv".to_owned()
    }

    /// The entry keys, sorted, matching the column order of `as_csv`.
    fn header(&self) -> (r: String)
        ensures
            r@ == data_header_line(self@),
    {
        self.csv_header()
    }
}

} // verus!
