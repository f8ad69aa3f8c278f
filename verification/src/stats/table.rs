use super::category::{lemma_domain_no_duplicates, EnumerableCategory};
use std::marker::PhantomData;
use vstd::prelude::*;

verus! {

/// The sum of what `count` gives for each of `groups`.
pub open spec fn sum_counts<C>(count: spec_fn(C) -> nat, groups: Seq<C>) -> nat
    decreases groups.len(),
{
    if groups.len() == 0 {
        0
    } else {
        sum_counts(count, groups.drop_last()) + count(groups.last())
    }
}

/// A sum of counts only grows as more groups are counted in.
pub proof fn lemma_sum_counts_grows<C>(count: spec_fn(C) -> nat, groups: Seq<C>, n: int)
    requires
        0 <= n <= groups.len(),
    ensures
        sum_counts(count, groups.take(n)) <= sum_counts(count, groups),
    decreases groups.len() - n,
{
    if n == groups.len() {
        assert(groups.take(n) =~= groups);
    } else {
        lemma_sum_counts_grows(count, groups, n + 1);
        assert(groups.take(n + 1).drop_last() =~= groups.take(n));
    }
}

/// The sum of a row of counts.
pub open spec fn sum_all(counts: Seq<u64>) -> nat
    decreases counts.len(),
{
    if counts.len() == 0 {
        0
    } else {
        sum_all(counts.drop_last()) + counts.last() as nat
    }
}

/// No count of a row is above the sum of the row.
pub proof fn lemma_sum_all_covers(counts: Seq<u64>, place: int)
    requires
        0 <= place < counts.len(),
    ensures
        counts[place] <= sum_all(counts),
    decreases counts.len(),
{
    if place < counts.len() - 1 {
        lemma_sum_all_covers(counts.drop_last(), place);
    }
}

/// Changing one count of a row changes the sum of the row by as much.
pub proof fn lemma_sum_all_update(counts: Seq<u64>, place: int, count: u64)
    requires
        0 <= place < counts.len(),
    ensures
        sum_all(counts.update(place, count)) == sum_all(counts) - counts[place] + count,
    decreases counts.len(),
{
    let changed = counts.update(place, count);
    if place < counts.len() - 1 {
        lemma_sum_all_update(counts.drop_last(), place, count);
        assert(changed.drop_last() =~= counts.drop_last().update(place, count));
    } else {
        assert(changed.drop_last() =~= counts.drop_last());
    }
}

/// A row of zeros sums to zero.
pub proof fn lemma_sum_all_zeros(len: nat)
    ensures
        sum_all(Seq::new(len, |i: int| 0u64)) == 0,
    decreases len,
{
    if len > 0 {
        lemma_sum_all_zeros((len - 1) as nat);
        assert(Seq::new(len, |i: int| 0u64).drop_last() =~= Seq::new(
            (len - 1) as nat,
            |i: int| 0u64,
        ));
    }
}

/// A contingency table says how often each group of a category was observed.
///
/// Most tables count observations as they come; where the numbers are known
/// beforehand, as for a fair coin, a table may simply hold them.
pub trait ContingencyTable<C: EnumerableCategory>: Sized {
    /// How often `group` was observed. A table says here what it counts;
    /// one that says nothing leaves its counts unknown.
    open spec fn count(&self, group: C) -> nat {
        arbitrary()
    }

    /// The groups that are the columns of the table, each of them once. A
    /// table says here which they are; one that says nothing leaves them
    /// unknown.
    open spec fn columns(&self) -> Seq<C> {
        arbitrary()
    }

    /// The number of observations of the group `cat`.
    fn group_count(&self, cat: &C) -> (count: u64)
        ensures
            count == self.count(*cat),
    ;

    /// The groups that are the columns of the table.
    fn groups(&self) -> (groups: Vec<C>)
        ensures
            groups@ == self.columns(),
            groups@.no_duplicates(),
    ;

    /// The number of observations made in all: the sum of the counts of all
    /// groups, which has to fit the result.
    fn total_count(&self) -> (total: u64)
        requires
            sum_counts(|group: C| self.count(group), self.columns()) <= u64::MAX,
        ensures
            total == sum_counts(|group: C| self.count(group), self.columns()),
    {
        let groups = self.groups();
        let ghost count = |group: C| self.count(group);
        let mut total: u64 = 0;
        for i in 0..groups.len()
            invariant
                groups@ == self.columns(),
                count == (|group: C| self.count(group)),
                total == sum_counts(count, groups@.take(i as int)),
                sum_counts(count, groups@) <= u64::MAX,
        {
            let next = self.group_count(&groups[i]);
            proof {
                lemma_sum_counts_grows(count, groups@, i + 1);
                assert(groups@.take(i + 1).drop_last() =~= groups@.take(i as int));
                assert(count(groups@[i as int]) == next);
            }
            total = total + next;
        }
        proof {
            assert(groups@.take(groups.len() as int) =~= groups@);
        }
        total
    }
}

/// The degrees of freedom of a table: the number of its groups less one.
/// A table of fewer than two groups has none.
pub fn degrees_of_freedom<C: EnumerableCategory, T: ContingencyTable<C>>(table: &T) -> (freedom:
    u64)
    requires
        table.columns().len() >= 2,
    ensures
        freedom == table.columns().len() - 1,
        freedom >= 1,
{
    let groups = table.groups();
    (groups.len() - 1) as u64
}

/// A table over all the groups of a category whose counts are set from
/// outside, for frequencies that are known ahead of time.
pub struct FixedContingencyTable<C: EnumerableCategory> {
    counts: Vec<u64>,
    category: PhantomData<C>,
}

impl<C: EnumerableCategory> View for FixedContingencyTable<C> {
    type V = Seq<u64>;

    /// The counts of the groups, in the order of the domain.
    closed spec fn view(&self) -> Seq<u64> {
        self.counts@
    }
}

impl<C: EnumerableCategory> FixedContingencyTable<C> {
    #[verifier::type_invariant]
    spec fn covers_domain(self) -> bool {
        self.counts@.len() == C::domain().len()
    }

    /// A table in which no group has been observed yet.
    pub fn new() -> (table: Self)
        ensures
            table@ == Seq::new(C::domain().len(), |i: int| 0u64),
    {
        let groups = C::groups();
        let mut counts: Vec<u64> = Vec::new();
        for i in 0..groups.len()
            invariant
                counts@ == Seq::new(i as nat, |i: int| 0u64),
        {
            counts.push(0);
            assert(counts@ =~= Seq::new((i + 1) as nat, |i: int| 0u64));
        }
        FixedContingencyTable { counts, category: PhantomData }
    }

    /// Sets the count of the group `cat` to `count`.
    pub fn set_group_count(&mut self, cat: C, count: u64)
        ensures
            final(self)@ == old(self)@.update(cat.rank() as int, count),
    {
        proof {
            use_type_invariant(&*self);
            C::domain_is_enumerated();
        }
        let place = cat.ordinal();
        self.counts[place] = count;
    }

    /// The number of observations of the group `cat`.
    pub fn group_count(&self, cat: &C) -> (count: u64)
        ensures
            count == self@[cat.rank() as int],
    {
        proof {
            use_type_invariant(self);
            C::domain_is_enumerated();
        }
        self.counts[cat.ordinal()]
    }
}

/// How many observations a table holds: the sum of the counts of its columns.
pub open spec fn total<C: EnumerableCategory, T: ContingencyTable<C>>(table: &T) -> nat {
    sum_counts(|group: C| table.count(group), table.columns())
}

impl<C: EnumerableCategory> ContingencyTable<C> for FixedContingencyTable<C> {
    open spec fn count(&self, group: C) -> nat {
        self@[group.rank() as int] as nat
    }

    open spec fn columns(&self) -> Seq<C> {
        C::domain()
    }

    fn group_count(&self, cat: &C) -> (count: u64) {
        FixedContingencyTable::group_count(self, cat)
    }

    fn groups(&self) -> (groups: Vec<C>) {
        proof {
            lemma_domain_no_duplicates::<C>();
        }
        C::groups()
    }
}

} // verus!

verus! {

/// A table over all the groups of a category holds as many observations as
/// its row of counts sums to.
pub proof fn lemma_total_is_sum_all<C: EnumerableCategory>(table: &FixedContingencyTable<C>)
    requires
        table@.len() == C::domain().len(),
    ensures
        total(table) == sum_all(table@),
{
    lemma_total_over_prefix(table, C::domain().len() as int);
    assert(C::domain().take(C::domain().len() as int) =~= C::domain());
    assert(table@.take(table@.len() as int) =~= table@);
}

proof fn lemma_total_over_prefix<C: EnumerableCategory>(table: &FixedContingencyTable<C>, n: int)
    requires
        table@.len() == C::domain().len(),
        0 <= n <= C::domain().len(),
    ensures
        sum_counts(|group: C| table.count(group), C::domain().take(n)) == sum_all(table@.take(n)),
    decreases n,
{
    if n > 0 {
        C::domain_is_enumerated();
        lemma_total_over_prefix(table, n - 1);
        assert(C::domain().take(n).drop_last() =~= C::domain().take(n - 1));
        assert(table@.take(n).drop_last() =~= table@.take(n - 1));
        assert(C::domain().take(n).last() == C::domain()[n - 1]);
        assert(C::domain()[n - 1].rank() == n - 1);
    }
}

} // verus!
