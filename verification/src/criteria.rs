//! An ordered collection of criteria: lookup by identifier, check
//! attachment, scoring, and the stable sort by index that fixes the
//! grading order.

use vstd::prelude::*;
use vstd::relations::sorted_by;
use vstd::seq_lib::to_multiset_build;
use crate::criterion::{same_but_status, same_but_test, Check, Criterion, Status};
use crate::data::str_eq;

verus! {

/// The grading order: ascending sort index.
pub open spec fn index_order() -> spec_fn(Criterion, Criterion) -> bool {
    |a: Criterion, b: Criterion| a.index <= b.index
}

/// `c` placed into `s` after every element whose index is not above
/// `c.index`: the insertion step of a stable sort.
pub open spec fn insert_stable(s: Seq<Criterion>, c: Criterion) -> Seq<Criterion>
    decreases s.len(),
{
    if s.len() == 0 {
        seq![c]
    } else if s.last().index <= c.index {
        s.push(c)
    } else {
        insert_stable(s.drop_last(), c).push(s.last())
    }
}

/// The criteria stably sorted by ascending index: elements that share an
/// index keep their relative order.
pub open spec fn sort_by_index(s: Seq<Criterion>) -> Seq<Criterion>
    decreases s.len(),
{
    if s.len() == 0 {
        s
    } else {
        insert_stable(sort_by_index(s.drop_last()), s.last())
    }
}

pub proof fn lemma_insert_stable_len(s: Seq<Criterion>, c: Criterion)
    ensures
        insert_stable(s, c).len() == s.len() + 1,
    decreases s.len(),
{
    if s.len() > 0 && s.last().index > c.index {
        lemma_insert_stable_len(s.drop_last(), c);
    }
}

pub proof fn lemma_sort_by_index_len(s: Seq<Criterion>)
    ensures
        sort_by_index(s).len() == s.len(),
    decreases s.len(),
{
    if s.len() > 0 {
        lemma_sort_by_index_len(s.drop_last());
        lemma_insert_stable_len(sort_by_index(s.drop_last()), s.last());
    }
}

pub proof fn lemma_insert_stable_multiset(s: Seq<Criterion>, c: Criterion)
    ensures
        insert_stable(s, c).to_multiset() == s.to_multiset().insert(c),
    decreases s.len(),
{
    broadcast use vstd::seq_lib::group_to_multiset_ensures;

    if s.len() == 0 {
        assert(seq![c] =~= Seq::<Criterion>::empty().push(c));
        assert(Seq::<Criterion>::empty().push(c).to_multiset() =~= Seq::<
            Criterion,
        >::empty().to_multiset().insert(c));
    } else if s.last().index <= c.index {
        to_multiset_build(s, c);
    } else {
        lemma_insert_stable_multiset(s.drop_last(), c);
        to_multiset_build(insert_stable(s.drop_last(), c), s.last());
        to_multiset_build(s.drop_last(), s.last());
        assert(s.drop_last().push(s.last()) =~= s);
        assert(insert_stable(s, c).to_multiset() =~= s.to_multiset().insert(c));
    }
}

pub proof fn lemma_sort_by_index_multiset(s: Seq<Criterion>)
    ensures
        sort_by_index(s).to_multiset() == s.to_multiset(),
    decreases s.len(),
{
    broadcast use vstd::seq_lib::group_to_multiset_ensures;

    if s.len() > 0 {
        lemma_sort_by_index_multiset(s.drop_last());
        lemma_insert_stable_multiset(sort_by_index(s.drop_last()), s.last());
        to_multiset_build(s.drop_last(), s.last());
        assert(s.drop_last().push(s.last()) =~= s);
    }
}

/// Inserting below a bound keeps the bound.
proof fn lemma_insert_stable_bound(s: Seq<Criterion>, c: Criterion, m: i64)
    requires
        forall|i: int| 0 <= i < s.len() ==> (#[trigger] s[i]).index <= m,
        c.index <= m,
    ensures
        forall|i: int|
            0 <= i < insert_stable(s, c).len() ==> (#[trigger] insert_stable(s, c)[i]).index <= m,
    decreases s.len(),
{
    if s.len() == 0 {
    } else if s.last().index <= c.index {
    } else {
        assert forall|i: int| 0 <= i < s.drop_last().len() implies (#[trigger] s.drop_last()[i]).index
            <= m by {
            assert(s.drop_last()[i] == s[i]);
        }
        lemma_insert_stable_bound(s.drop_last(), c, m);
    }
}

pub proof fn lemma_insert_stable_sorted(s: Seq<Criterion>, c: Criterion)
    requires
        sorted_by(s, index_order()),
    ensures
        sorted_by(insert_stable(s, c), index_order()),
    decreases s.len(),
{
    let leq = index_order();
    if s.len() == 0 {
    } else if s.last().index <= c.index {
        let r = s.push(c);
        assert forall|i: int, j: int| 0 <= i < j < r.len() implies #[trigger] leq(r[i], r[j]) by {
            if j < r.len() - 1 {
                assert(leq(s[i], s[j]));
            } else if i < s.len() - 1 {
                assert(leq(s[i], s[s.len() - 1]));
            }
        }
    } else {
        assert forall|i: int, j: int|
            0 <= i < j < s.drop_last().len() implies #[trigger] leq(
            s.drop_last()[i],
            s.drop_last()[j],
        ) by {
            assert(leq(s[i], s[j]));
        }
        lemma_insert_stable_sorted(s.drop_last(), c);
        let r0 = insert_stable(s.drop_last(), c);
        assert forall|i: int| 0 <= i < s.drop_last().len() implies (
        #[trigger] s.drop_last()[i]).index <= s.last().index by {
            assert(leq(s[i], s[s.len() - 1]));
        }
        lemma_insert_stable_bound(s.drop_last(), c, s.last().index);
        let r = r0.push(s.last());
        assert forall|i: int, j: int| 0 <= i < j < r.len() implies #[trigger] leq(r[i], r[j]) by {
            if j < r.len() - 1 {
                assert(leq(r0[i], r0[j]));
            } else {
                assert(r0[i].index <= s.last().index);
            }
        }
    }
}

/// The sort's output is ascending in index.
pub proof fn lemma_sort_by_index_sorted(s: Seq<Criterion>)
    ensures
        sorted_by(sort_by_index(s), index_order()),
    decreases s.len(),
{
    if s.len() > 0 {
        lemma_sort_by_index_sorted(s.drop_last());
        lemma_insert_stable_sorted(sort_by_index(s.drop_last()), s.last());
    }
}

proof fn lemma_insert_stable_filter(s: Seq<Criterion>, c: Criterion, k: i64)
    ensures
        c.index == k ==> insert_stable(s, c).filter(|x: Criterion| x.index == k) == s.filter(
            |x: Criterion| x.index == k,
        ).push(c),
        c.index != k ==> insert_stable(s, c).filter(|x: Criterion| x.index == k) == s.filter(
            |x: Criterion| x.index == k,
        ),
    decreases s.len(),
{
    reveal_with_fuel(Seq::filter, 2);
    let pk = |x: Criterion| x.index == k;
    if s.len() == 0 {
        assert(seq![c].drop_last() =~= Seq::<Criterion>::empty());
    } else if s.last().index <= c.index {
        let r = s.push(c);
        assert(r.drop_last() =~= s);
        assert(r.last() == c);
    } else {
        lemma_insert_stable_filter(s.drop_last(), c, k);
        let r0 = insert_stable(s.drop_last(), c);
        let r = r0.push(s.last());
        assert(r.drop_last() =~= r0);
        assert(r.last() == s.last());
    }
}

/// Stability: for each index value, the elements carrying it appear in
/// the sort's output in the order they appear in the input.
pub proof fn lemma_sort_by_index_stable(s: Seq<Criterion>, k: i64)
    ensures
        sort_by_index(s).filter(|x: Criterion| x.index == k) == s.filter(
            |x: Criterion| x.index == k,
        ),
    decreases s.len(),
{
    reveal_with_fuel(Seq::filter, 2);
    let pk = |x: Criterion| x.index == k;
    if s.len() > 0 {
        lemma_sort_by_index_stable(s.drop_last(), k);
        lemma_insert_stable_filter(sort_by_index(s.drop_last()), s.last(), k);
    }
}

/// Where the exec scan stops is where `insert_stable` puts the element.
proof fn lemma_insert_stable_at(s: Seq<Criterion>, c: Criterion, j: int)
    requires
        0 <= j <= s.len(),
        forall|k: int| j <= k < s.len() ==> (#[trigger] s[k]).index > c.index,
        j > 0 ==> s[j - 1].index <= c.index,
    ensures
        insert_stable(s, c) == s.take(j) + seq![c] + s.skip(j),
    decreases s.len(),
{
    if j == s.len() {
        assert(insert_stable(s, c) =~= s.take(j) + seq![c] + s.skip(j));
    } else {
        assert(s[s.len() - 1].index > c.index);
        assert forall|k: int| j <= k < s.drop_last().len() implies (#[trigger] s.drop_last()[k]).index
            > c.index by {
            assert(s.drop_last()[k] == s[k]);
        }
        lemma_insert_stable_at(s.drop_last(), c, j);
        assert(insert_stable(s, c) =~= (s.drop_last().take(j) + seq![c] + s.drop_last().skip(
            j,
        )).push(s.last()));
        assert(s.drop_last().take(j) =~= s.take(j));
        assert(s.drop_last().skip(j).push(s.last()) =~= s.skip(j));
        assert((s.take(j) + seq![c] + s.drop_last().skip(j)).push(s.last()) =~= s.take(j) + seq![c]
            + s.skip(j));
    }
}

/// Sorts the criteria in place, stably, by ascending index.
pub fn sort_criteria(v: &mut Vec<Criterion>)
    ensures
        final(v)@ == sort_by_index(old(v)@),
{
    let ghost orig = old(v)@;
    if v.len() == 0 {
        return;
    }
    let mut i: usize = 1;
    proof {
        assert(orig.take(1).drop_last() =~= Seq::<Criterion>::empty());
        assert(insert_stable(sort_by_index(Seq::<Criterion>::empty()), orig.take(1).last())
            =~= orig.take(1));
        assert(v@.take(1 as int) =~= sort_by_index(orig.take(1 as int)));
        assert(v@.skip(1 as int) =~= orig.skip(1 as int));
    }
    while i < v.len()
        invariant
            1 <= i <= v@.len(),
            v@.len() == orig.len(),
            orig == old(v)@,
            v@.take(i as int) == sort_by_index(orig.take(i as int)),
            v@.skip(i as int) == orig.skip(i as int),
        decreases v@.len() - i,
    {
        let ghost whole = v@;
        let c = v.remove(i);
        proof {
            assert(whole.skip(i as int)[0] == whole[i as int]);
            assert(orig.skip(i as int)[0] == orig[i as int]);
            assert(c == orig[i as int]);
            assert(v@ =~= whole.take(i as int) + whole.skip(i + 1 as int));
        }
        let ghost pre = whole.take(i as int);
        let mut j: usize = i;
        while j > 0 && v[j - 1].index > c.index
            invariant
                0 <= j <= i,
                i < orig.len(),
                v@.len() == orig.len() - 1,
                pre == v@.take(i as int),
                forall|k: int| j <= k < i ==> (#[trigger] pre[k]).index > c.index,
            decreases j,
        {
            proof {
                assert(pre[j - 1 as int] == v@[j - 1 as int]);
            }
            j = j - 1;
        }
        proof {
            if j > 0 {
                assert(pre[j - 1 as int] == v@[j - 1 as int]);
            }
            lemma_insert_stable_at(pre, c, j as int);
        }
        v.insert(j, c);
        proof {
            let t = orig.take(i + 1 as int);
            assert(t.drop_last() =~= orig.take(i as int));
            assert(t.last() == orig[i as int]);
            assert(v@.take(i + 1 as int) =~= pre.take(j as int) + seq![c] + pre.skip(j as int));
            assert(v@.take(i + 1 as int) == sort_by_index(t));
            assert forall|k: int| i + 1 <= k < v@.len() implies v@[k] == orig[k] by {
                assert(v@[k] == whole[k]);
                assert(whole.skip(i as int)[k - i] == whole[k]);
                assert(orig.skip(i as int)[k - i] == orig[k]);
            }
            assert(v@.skip(i + 1 as int) =~= orig.skip(i + 1 as int));
        }
        i = i + 1;
    }
    proof {
        assert(v@.take(i as int) =~= v@);
        assert(orig.take(i as int) =~= orig);
    }
}

/// The sum of all worths, whatever the statuses.
pub open spec fn sum_worth(s: Seq<Criterion>) -> int
    decreases s.len(),
{
    if s.len() == 0 {
        0
    } else {
        sum_worth(s.drop_last()) + s.last().worth
    }
}

/// The sum of the worths of the criteria that passed.
pub open spec fn sum_passed(s: Seq<Criterion>) -> int
    decreases s.len(),
{
    if s.len() == 0 {
        0
    } else {
        sum_passed(s.drop_last()) + if s.last().status == Status::Passed {
            s.last().worth as int
        } else {
            0
        }
    }
}

/// Every partial sum of worths stays within `isize`, so a left-to-right
/// summation cannot overflow.
pub open spec fn worth_sums_in_range(s: Seq<Criterion>) -> bool {
    forall|i: int| 0 <= i <= s.len() ==> isize::MIN <= sum_worth(#[trigger] s.take(i)) <= isize::MAX
}

/// Every partial sum of passed worths stays within `isize`.
pub open spec fn passed_sums_in_range(s: Seq<Criterion>) -> bool {
    forall|i: int|
        0 <= i <= s.len() ==> isize::MIN <= sum_passed(#[trigger] s.take(i)) <= isize::MAX
}

/// A rubric nobody graded yet earns nothing: all statuses untested means
/// zero points.
pub proof fn lemma_untested_points_zero(s: Seq<Criterion>)
    requires
        forall|i: int| 0 <= i < s.len() ==> (#[trigger] s[i]).status == Status::Untested,
    ensures
        sum_passed(s) == 0,
    decreases s.len(),
{
    if s.len() > 0 {
        assert forall|i: int| 0 <= i < s.drop_last().len() implies (#[trigger] s.drop_last()[i]).status
            == Status::Untested by {
            assert(s.drop_last()[i] == s[i]);
        }
        lemma_untested_points_zero(s.drop_last());
        assert(s[s.len() - 1].status == Status::Untested);
    }
}

/// The total worth never depends on grading state: statuses may differ,
/// the sum of worths is the same.
pub proof fn lemma_total_ignores_status(a: Seq<Criterion>, b: Seq<Criterion>)
    requires
        a.len() == b.len(),
        forall|i: int| 0 <= i < a.len() ==> same_but_status(#[trigger] a[i], #[trigger] b[i]),
    ensures
        sum_worth(a) == sum_worth(b),
    decreases a.len(),
{
    if a.len() > 0 {
        assert forall|i: int|
            0 <= i < a.drop_last().len() implies same_but_status(
            #[trigger] a.drop_last()[i],
            #[trigger] b.drop_last()[i],
        ) by {
            assert(a.drop_last()[i] == a[i]);
            assert(b.drop_last()[i] == b[i]);
        }
        lemma_total_ignores_status(a.drop_last(), b.drop_last());
        assert(same_but_status(a[a.len() - 1], b[b.len() - 1]));
    }
}

/// `i` is the first position whose criterion has the identifier `func`.
pub open spec fn func_first_at(s: Seq<Criterion>, func: Seq<char>, i: int) -> bool {
    &&& 0 <= i < s.len()
    &&& s[i].func@ == func
    &&& forall|j: int| 0 <= j < i ==> (#[trigger] s[j]).func@ != func
}

/// Finds the first criterion with the given identifier, for mutation;
/// `None` if no criterion has it.
pub fn find_criterion<'a>(v: &'a mut Vec<Criterion>, stub: &str) -> (r: Option<&'a mut Criterion>)
    ensures
        match r {
            Some(c) => exists|i: int|
                #![trigger old(v)@[i]]
                {
                    &&& func_first_at(old(v)@, stub@, i)
                    &&& *c == old(v)@[i]
                    &&& final(v)@ == old(v)@.update(i, *final(c))
                },
            None => {
                &&& final(v)@ == old(v)@
                &&& forall|i: int| 0 <= i < old(v)@.len() ==> (#[trigger] old(v)@[i]).func@ != stub@
            },
        },
{
    let n = v.len();
    let mut i: usize = 0;
    while i < n
        invariant
            0 <= i <= n,
            n == v@.len(),
            v@ == old(v)@,
            forall|j: int| 0 <= j < i ==> (#[trigger] v@[j]).func@ != stub@,
        decreases n - i,
    {
        if str_eq(v[i].func.as_str(), stub) {
            proof {
                assert(func_first_at(v@, stub@, i as int));
            }
            return Some(vstd::std_specs::vec::vec_index_mut(v, i));
        }
        i = i + 1;
    }
    None
}

/// An ordered collection of criteria.
pub struct Criteria(pub Vec<Criterion>);

impl Criteria {
    /// An empty collection.
    pub fn new() -> (r: Criteria)
        ensures
            r.0@ == Seq::<Criterion>::empty(),
    {
        Criteria(Vec::new())
    }

    /// Wraps a vector of criteria, keeping its order.
    pub fn from(criteria: Vec<Criterion>) -> (r: Self)
        ensures
            r.0@ == criteria@,
    {
        Criteria(criteria)
    }

    /// Appends a criterion; no uniqueness check is made.
    pub fn add(&mut self, criterion: Criterion)
        ensures
            final(self).0@ == old(self).0@.push(criterion),
    {
        self.0.push(criterion);
    }

    /// The number of criteria.
    pub fn len(&self) -> (n: usize)
        ensures
            n == self.0@.len(),
    {
        self.0.len()
    }

    /// Finds the first criterion with the given identifier, for mutation;
    /// `None` if no criterion has it.
    pub fn get(&mut self, stub: &str) -> (r: Option<&mut Criterion>)
        ensures
            match r {
                Some(c) => exists|i: int|
                    #![trigger old(self).0@[i]]
                    {
                        &&& func_first_at(old(self).0@, stub@, i)
                        &&& *c == old(self).0@[i]
                        &&& final(self).0@ == old(self).0@.update(i, *final(c))
                    },
                None => {
                    &&& final(self).0@ == old(self).0@
                    &&& forall|i: int|
                        0 <= i < old(self).0@.len() ==> (#[trigger] old(self).0@[i]).func@ != stub@
                },
            },
    {
        find_criterion(&mut self.0, stub)
    }

    /// Replaces the check of the first criterion carrying this
    /// identifier. Attaching to an identifier no criterion has is a
    /// wiring error between the declared rubric and the checks, so a
    /// caller must ensure the identifier exists.
    pub fn attach(&mut self, stub: &str, func: Box<dyn Check>)
        requires
            exists|i: int| 0 <= i < old(self).0@.len() && (#[trigger] old(self).0@[i]).func@
                == stub@,
        ensures
            forall|i: int|
                func_first_at(old(self).0@, stub@, i) ==> {
                    &&& final(self).0@.len() == old(self).0@.len()
                    &&& same_but_test(old(self).0@[i], #[trigger] final(self).0@[i])
                    &&& forall|j: int|
                        0 <= j < old(self).0@.len() && j != i ==> final(self).0@[j] == #[trigger] old(
                            self,
                        ).0@[j]
                },
    {
        let r = self.get(stub);
        match r {
            Some(crit) => {
                crit.attach(func);
            },
            None => {
                proof {
                    assert(false);
                }
            },
        }
        proof {
            assert forall|i2: int, i3: int|
                func_first_at(old(self).0@, stub@, i2) && func_first_at(old(self).0@, stub@, i3)
                implies i2 == i3 by {
                if i2 < i3 {
                    assert((#[trigger] old(self).0@[i2]).func@ == stub@);
                } else if i3 < i2 {
                    assert((#[trigger] old(self).0@[i3]).func@ == stub@);
                }
            }
        }
    }

    /// The total worth of all criteria: the maximum possible score,
    /// whatever their statuses.
    pub fn total_points(&self) -> (total: isize)
        requires
            worth_sums_in_range(self.0@),
        ensures
            total == sum_worth(self.0@),
    {
        total_of(&self.0)
    }

    /// The points earned: the worths of the criteria that passed.
    pub fn points(&self) -> (total: isize)
        requires
            passed_sums_in_range(self.0@),
        ensures
            total == sum_passed(self.0@),
    {
        points_of(&self.0)
    }

    /// Sorts the criteria in place by ascending index — stable, so
    /// criteria sharing an index keep their relative order — and hands
    /// the sorted vector back.
    pub fn sorted(&mut self) -> (r: &mut Vec<Criterion>)
        ensures
            (*r)@ == sort_by_index(old(self).0@),
            final(self).0@ == final(r)@,
    {
        sort_criteria(&mut self.0);
        &mut self.0
    }
}

/// Sums the worths of all criteria.
pub fn total_of(v: &Vec<Criterion>) -> (total: isize)
    requires
        worth_sums_in_range(v@),
    ensures
        total == sum_worth(v@),
{
    let mut total: isize = 0;
    let mut i: usize = 0;
    while i < v.len()
        invariant
            0 <= i <= v@.len(),
            worth_sums_in_range(v@),
            total == sum_worth(v@.take(i as int)),
        decreases v@.len() - i,
    {
        proof {
            assert(v@.take(i + 1 as int).drop_last() =~= v@.take(i as int));
            assert(v@.take(i + 1 as int).last() == v@[i as int]);
            assert(isize::MIN <= sum_worth(v@.take(i + 1 as int)) <= isize::MAX);
        }
        total = total + v[i].worth;
        i = i + 1;
    }
    proof {
        assert(v@.take(i as int) =~= v@);
    }
    total
}

/// Sums the worths of the criteria that passed.
pub fn points_of(v: &Vec<Criterion>) -> (total: isize)
    requires
        passed_sums_in_range(v@),
    ensures
        total == sum_passed(v@),
{
    let mut total: isize = 0;
    let mut i: usize = 0;
    while i < v.len()
        invariant
            0 <= i <= v@.len(),
            passed_sums_in_range(v@),
            total == sum_passed(v@.take(i as int)),
        decreases v@.len() - i,
    {
        proof {
            assert(v@.take(i + 1 as int).drop_last() =~= v@.take(i as int));
            assert(v@.take(i + 1 as int).last() == v@[i as int]);
            assert(isize::MIN <= sum_passed(v@.take(i + 1 as int)) <= isize::MAX);
        }
        if matches!(v[i].status, Status::Passed) {
            total = total + v[i].worth;
        }
        i = i + 1;
    }
    proof {
        assert(v@.take(i as int) =~= v@);
    }
    total
}

} // verus!
verus! {

/// The sum of the positive worths: the most a grading pass can add.
pub open spec fn sum_pos(s: Seq<Criterion>) -> int
    decreases s.len(),
{
    if s.len() == 0 {
        0
    } else {
        sum_pos(s.drop_last()) + if s.last().worth > 0 {
            s.last().worth as int
        } else {
            0
        }
    }
}

/// The sum of the negative worths: the most a grading pass can subtract.
pub open spec fn sum_neg(s: Seq<Criterion>) -> int
    decreases s.len(),
{
    if s.len() == 0 {
        0
    } else {
        sum_neg(s.drop_last()) + if s.last().worth < 0 {
            s.last().worth as int
        } else {
            0
        }
    }
}

/// From a starting grade, no prefix of outcomes over these criteria can
/// leave `isize`: the machine-level room a grading pass needs.
pub open spec fn grade_bounds_ok(g0: int, cs: Seq<Criterion>) -> bool {
    forall|i: int|
        0 <= i <= cs.len() ==> isize::MIN <= g0 + sum_neg(#[trigger] cs.take(i)) && g0 + sum_pos(
            cs.take(i),
        ) <= isize::MAX
}

/// Whatever the outcomes, the passed sum lies between the negative and
/// the positive worth sums.
pub proof fn lemma_sum_passed_bounds(graded: Seq<Criterion>, base: Seq<Criterion>)
    requires
        graded.len() == base.len(),
        forall|i: int| 0 <= i < graded.len() ==> (#[trigger] graded[i]).worth == base[i].worth,
    ensures
        sum_neg(base) <= sum_passed(graded) <= sum_pos(base),
    decreases graded.len(),
{
    if graded.len() > 0 {
        assert forall|i: int|
            0 <= i < graded.drop_last().len() implies (#[trigger] graded.drop_last()[i]).worth
            == base.drop_last()[i].worth by {
            assert(graded.drop_last()[i] == graded[i]);
            assert(base.drop_last()[i] == base[i]);
        }
        lemma_sum_passed_bounds(graded.drop_last(), base.drop_last());
        assert(graded[graded.len() - 1].worth == base[base.len() - 1].worth);
    }
}

} // verus!
