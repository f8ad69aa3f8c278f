use super::category::EnumerableCategory;
use super::table::{degrees_of_freedom, ContingencyTable};
use crate::ratio::{lemma_product_fits, Ratio};
use vstd::prelude::*;

verus! {

/// What one group adds to a chi-square statistic: the squared difference of
/// its observed and its expected count, over its expected count.
#[derive(Clone, Copy, Debug, PartialEq, Eq, Structural)]
pub struct Term {
    /// The squared difference of the observed and the expected count.
    pub squared_error: u128,
    /// The expected count, which is not zero.
    pub expected: u64,
}

impl Term {
    /// The number that the term stands for.
    pub open spec fn value(&self) -> real {
        (self.squared_error as real) / (self.expected as real)
    }
}

/// A chi-square statistic, kept exact.
///
/// A group that was never expected and never observed adds nothing. A group
/// that was never expected and yet observed makes the statistic unbounded:
/// no finite number measures a divergence from "never".
#[derive(Debug)]
pub enum Statistic {
    /// The statistic is the sum of these terms.
    Finite(Vec<Term>),
    /// Some group was observed that was never expected.
    Unbounded,
}

/// Why a chi-square test was refused.
#[derive(Clone, Copy, Debug, PartialEq, Eq, Structural)]
pub enum ChiSquareError {
    /// The cutoff is one or more, so that every divergence would be significant.
    AlphaOutOfRange,
    /// The two tables do not have the same degrees of freedom.
    DegreesOfFreedomMismatch,
}

/// The squared difference of two counts.
pub open spec fn squared_error(observed: nat, expected: nat) -> nat {
    ((observed - expected) * (observed - expected)) as nat
}

/// What a group with these counts adds to the statistic, where that is finite.
pub open spec fn share(observed: nat, expected: nat) -> real {
    if expected == 0 {
        0real
    } else {
        (squared_error(observed, expected) as real) / (expected as real)
    }
}

/// The chi-square statistic of `observed` against `expected` over `groups`:
/// the sum, over the groups, of the squared difference of the two counts
/// over the expected count.
pub open spec fn chi_square<C: EnumerableCategory, O: ContingencyTable<C>, E: ContingencyTable<C>>(
    observed: &O,
    expected: &E,
    groups: Seq<C>,
) -> real
    decreases groups.len(),
{
    if groups.len() == 0 {
        0real
    } else {
        chi_square(observed, expected, groups.drop_last()) + share(
            observed.count(groups.last()),
            expected.count(groups.last()),
        )
    }
}

/// Whether one of `groups` was observed though it was never expected.
pub open spec fn degenerate<C: EnumerableCategory, O: ContingencyTable<C>, E: ContingencyTable<C>>(
    observed: &O,
    expected: &E,
    groups: Seq<C>,
) -> bool {
    exists|i: int|
        0 <= i < groups.len() && expected.count(#[trigger] groups[i]) == 0 && observed.count(
            groups[i],
        ) > 0
}

/// The terms of the statistic of `observed` against `expected`, one for each
/// of `groups` that was expected at all, in the order of `groups`.
pub open spec fn terms<C: EnumerableCategory, O: ContingencyTable<C>, E: ContingencyTable<C>>(
    observed: &O,
    expected: &E,
    groups: Seq<C>,
) -> Seq<Term>
    decreases groups.len(),
{
    if groups.len() == 0 {
        Seq::empty()
    } else {
        let before = terms(observed, expected, groups.drop_last());
        let o = observed.count(groups.last());
        let e = expected.count(groups.last());
        if e == 0 {
            before
        } else {
            before.push(Term { squared_error: squared_error(o, e) as u128, expected: e as u64 })
        }
    }
}

/// The sum of the numbers that `terms` stand for.
pub open spec fn sum_terms(terms: Seq<Term>) -> real
    decreases terms.len(),
{
    if terms.len() == 0 {
        0real
    } else {
        sum_terms(terms.drop_last()) + terms.last().value()
    }
}

/// `groups` without the repeats: of each group the first occurrence is kept.
pub open spec fn distinct<C>(groups: Seq<C>) -> Seq<C>
    decreases groups.len(),
{
    if groups.len() == 0 {
        Seq::empty()
    } else {
        let before = distinct(groups.drop_last());
        if before.contains(groups.last()) {
            before
        } else {
            before.push(groups.last())
        }
    }
}

/// The groups that either of two tables has for a column, each once: those
/// of the first table, then those that only the second one has.
pub open spec fn merged_columns<
    C: EnumerableCategory,
    A: ContingencyTable<C>,
    B: ContingencyTable<C>,
>(first: &A, second: &B) -> Seq<C> {
    distinct(first.columns() + second.columns())
}

/// The chi-square statistic of the `experimental` table against the
/// `control` table, over every group that either of them has for a column.
///
/// The counts of the control table are the expected ones. The statistic is
/// unbounded where a group that the control table never saw was observed in
/// the experimental one. Otherwise it is the sum of the terms that are
/// returned, one for each group that the control table saw.
pub fn test_statistic<C: EnumerableCategory, A: ContingencyTable<C>, B: ContingencyTable<C>>(
    control: &A,
    experimental: &B,
) -> (statistic: Statistic)
    ensures
        statistic is Unbounded <==> degenerate(
            experimental,
            control,
            merged_columns(control, experimental),
        ),
        statistic matches Statistic::Finite(found) ==> {
            &&& found@ == terms(experimental, control, merged_columns(control, experimental))
            &&& forall|i: int| 0 <= i < found@.len() ==> (#[trigger] found@[i]).expected > 0
            &&& sum_terms(found@) == chi_square(
                experimental,
                control,
                merged_columns(control, experimental),
            )
        },
{
    let size = C::groups().len();
    let mut seen: Vec<bool> = Vec::new();
    for n in 0..size
        invariant
            seen@.len() == n,
            forall|r: int| 0 <= r < n ==> !seen@[r],
    {
        seen.push(false);
    }
    let mut merged = control.groups();
    let mut rest = experimental.groups();
    merged.append(&mut rest);
    let mut found: Vec<Term> = Vec::new();
    let mut unbounded = false;
    let ghost mut kept: Seq<C> = Seq::empty();
    proof {
        C::domain_is_enumerated();
    }
    for i in 0..merged.len()
        invariant
            seen@.len() == C::domain().len(),
            merged@ == control.columns() + experimental.columns(),
            kept == distinct(merged@.take(i as int)),
            forall|r: int| 0 <= r < seen@.len() ==> (seen@[r] <==> kept.contains(C::domain()[r])),
            found@ == terms(experimental, control, kept),
            forall|j: int| 0 <= j < found@.len() ==> (#[trigger] found@[j]).expected > 0,
            unbounded <==> degenerate(experimental, control, kept),
            forall|j: int|
                0 <= j < kept.len() ==> experimental.count(#[trigger] kept[j]) <= u64::MAX
                    && control.count(kept[j]) <= u64::MAX,
    {
        let group = &merged[i];
        let place = group.ordinal();
        proof {
            C::domain_is_enumerated();
            assert(merged@.take(i + 1).drop_last() =~= merged@.take(i as int));
            assert(merged@.take(i + 1).last() == *group);
        }
        if !seen[place] {
            let ghost kept_before = kept;
            seen.set(place, true);
            let e = control.group_count(group);
            let o = experimental.group_count(group);
            proof {
                kept = kept_before.push(*group);
                assert(kept.drop_last() =~= kept_before);
                assert(kept.last() == *group);
                assert forall|r: int| 0 <= r < seen@.len() implies (seen@[r] <==> kept.contains(
                    C::domain()[r],
                )) by {
                    if r == place {
                        assert(kept[kept.len() - 1] == C::domain()[r]);
                    } else {
                        assert(C::domain()[r].rank() == r);
                        if kept_before.contains(C::domain()[r]) {
                            let j = choose|j: int|
                                0 <= j < kept_before.len() && kept_before[j] == C::domain()[r];
                            assert(kept[j] == C::domain()[r]);
                        }
                        if kept.contains(C::domain()[r]) {
                            let j = choose|j: int|
                                0 <= j < kept.len() && kept[j] == C::domain()[r];
                            assert(j < kept_before.len());
                            assert(kept_before[j] == C::domain()[r]);
                        }
                    }
                }
                if degenerate(experimental, control, kept_before) {
                    let j = choose|j: int|
                        0 <= j < kept_before.len() && control.count(#[trigger] kept_before[j]) == 0
                            && experimental.count(kept_before[j]) > 0;
                    assert(kept[j] == kept_before[j]);
                }
                if degenerate(experimental, control, kept) {
                    let j = choose|j: int|
                        0 <= j < kept.len() && control.count(#[trigger] kept[j]) == 0
                            && experimental.count(kept[j]) > 0;
                    if j < kept_before.len() {
                        assert(kept_before[j] == kept[j]);
                    }
                }
            }
            if e == 0 {
                if o > 0 {
                    unbounded = true;
                    proof {
                        assert(kept[kept.len() - 1] == *group);
                    }
                }
            } else {
                let gap = if o >= e {
                    o - e
                } else {
                    e - o
                };
                proof {
                    lemma_product_fits(gap, gap);
                    assert(gap * gap == (o - e) * (o - e)) by (nonlinear_arith)
                        requires
                            gap == o - e || gap == e - o,
                    ;
                }
                found.push(Term { squared_error: (gap as u128) * (gap as u128), expected: e });
            }
        }
    }
    proof {
        assert(merged@.take(merged@.len() as int) =~= merged@);
        lemma_terms_sum_to_chi_square(experimental, control, kept);
    }
    if unbounded {
        Statistic::Unbounded
    } else {
        Statistic::Finite(found)
    }
}

/// What a tail function is asked: at least one degree of freedom, and terms
/// that all have an expected count.
pub open spec fn well_posed(freedom: u64, found: Seq<Term>) -> bool {
    freedom >= 1 && forall|i: int| 0 <= i < found.len() ==> (#[trigger] found[i]).expected > 0
}

/// Whether `tail` takes every question that is well posed.
pub open spec fn takes_every_question<F: Fn(u64, Vec<Term>) -> Ratio>(tail: &F) -> bool {
    forall|freedom: u64, found: Vec<Term>|
        well_posed(freedom, found@) ==> #[trigger] call_requires(tail, (freedom, found))
}

/// The p-value of a statistic: the probability that a chi-square
/// distribution of so many degrees of freedom puts on values above it.
///
/// The distribution is not this library's to compute: `tail` is asked for
/// the probability above a finite statistic, and its answer is returned as
/// it is. Above an unbounded statistic there is nothing, so there the
/// p-value is zero and `tail` is not asked.
pub fn p_value<F: Fn(u64, Vec<Term>) -> Ratio>(
    test_statistic: Statistic,
    degrees_of_freedom: u64,
    tail: &F,
) -> (p: Ratio)
    requires
        test_statistic matches Statistic::Finite(found) ==> call_requires(
            tail,
            (degrees_of_freedom, found),
        ),
    ensures
        match test_statistic {
            Statistic::Finite(found) => call_ensures(tail, (degrees_of_freedom, found), p),
            Statistic::Unbounded => p.value() == 0real,
        },
{
    match test_statistic {
        Statistic::Finite(found) => tail(degrees_of_freedom, found),
        Statistic::Unbounded => {
            let zero = Ratio::new(0, 1).unwrap();
            assert(zero.value() == 0real) by (nonlinear_arith)
                requires
                    zero.value() == (0 as real) / (1 as real),
            ;
            zero
        },
    }
}

/// Whether the `observed` table diverges from the `expected` one by more
/// than chance explains: whether the p-value of their chi-square statistic
/// is below the cutoff `alpha`.
///
/// A cutoff of one or more is refused, and so are two tables whose degrees
/// of freedom differ. Both tables have two groups or more.
pub fn chi_square_test<
    C: EnumerableCategory,
    O: ContingencyTable<C>,
    E: ContingencyTable<C>,
    F: Fn(u64, Vec<Term>) -> Ratio,
>(observed: &O, expected: &E, alpha: Ratio, tail: &F) -> (verdict: Result<bool, ChiSquareError>)
    requires
        observed.columns().len() >= 2,
        expected.columns().len() >= 2,
        takes_every_question(tail),
    ensures
        alpha.value() >= 1real ==> verdict == Err::<bool, ChiSquareError>(
            ChiSquareError::AlphaOutOfRange,
        ),
        alpha.value() < 1real && observed.columns().len() != expected.columns().len() ==> verdict
            == Err::<bool, ChiSquareError>(ChiSquareError::DegreesOfFreedomMismatch),
        alpha.value() < 1real && observed.columns().len() == expected.columns().len() ==> {
            &&& verdict matches Ok(significant)
            &&& tested(observed, expected, alpha, tail, significant)
        },
{
    if alpha.is_one_or_more() {
        return Err(ChiSquareError::AlphaOutOfRange);
    }
    let freedom = degrees_of_freedom(observed);
    if freedom != degrees_of_freedom(expected) {
        return Err(ChiSquareError::DegreesOfFreedomMismatch);
    }
    Ok(significant_divergence(observed, expected, freedom, &alpha, tail))
}

/// The test itself, for two tables of the same `freedom`.
pub(crate) fn significant_divergence<
    C: EnumerableCategory,
    O: ContingencyTable<C>,
    E: ContingencyTable<C>,
    F: Fn(u64, Vec<Term>) -> Ratio,
>(observed: &O, expected: &E, freedom: u64, alpha: &Ratio, tail: &F) -> (significant: bool)
    requires
        freedom >= 1,
        freedom == observed.columns().len() - 1,
        takes_every_question(tail),
    ensures
        tested(observed, expected, *alpha, tail, significant),
{
    let statistic = test_statistic(expected, observed);
    let ghost asked = statistic;
    proof {
        if let Statistic::Finite(found) = asked {
            assert(well_posed(freedom, found@));
        }
    }
    let p = p_value(statistic, freedom, tail);
    proof {
        if let Statistic::Finite(found) = asked {
            assert(call_ensures(tail, ((observed.columns().len() - 1) as u64, found), p));
        }
    }
    p.less_than(alpha)
}

/// What the verdict `significant` of a test that was not refused rests on.
///
/// Where the statistic is unbounded, the p-value is zero, and the divergence
/// is significant under any cutoff above zero. Otherwise `tail` was asked
/// for the p-value, with the degrees of freedom of the tables and the terms
/// of the statistic, and the divergence is significant if what it answered
/// is below the cutoff.
pub open spec fn tested<
    C: EnumerableCategory,
    O: ContingencyTable<C>,
    E: ContingencyTable<C>,
    F: Fn(u64, Vec<Term>) -> Ratio,
>(observed: &O, expected: &E, alpha: Ratio, tail: &F, significant: bool) -> bool {
    let groups = merged_columns(expected, observed);
    if degenerate(observed, expected, groups) {
        significant == (0real < alpha.value())
    } else {
        exists|found: Vec<Term>, p: Ratio|
            {
                &&& found@ == terms(observed, expected, groups)
                &&& #[trigger] call_ensures(
                    tail,
                    ((observed.columns().len() - 1) as u64, found),
                    p,
                )
                &&& significant == (p.value() < alpha.value())
            }
    }
}

/// What has no repeats loses nothing when the repeats are dropped.
pub proof fn lemma_distinct_of_distinct<C>(groups: Seq<C>)
    requires
        groups.no_duplicates(),
    ensures
        distinct(groups) == groups,
    decreases groups.len(),
{
    if groups.len() > 0 {
        let init = groups.drop_last();
        lemma_distinct_of_distinct(init);
        if init.contains(groups.last()) {
            let i = choose|i: int| 0 <= i < init.len() && init[i] == groups.last();
            assert(groups[i] == groups[groups.len() - 1]);
        }
        assert(init.push(groups.last()) =~= groups);
    }
}

/// Two tables over all the groups of a category have, between them, the
/// groups of the category for columns, in the order of the domain.
pub proof fn lemma_merged_domain<C: EnumerableCategory>()
    ensures
        distinct(C::domain() + C::domain()) == C::domain(),
{
    super::category::lemma_domain_no_duplicates::<C>();
    lemma_distinct_of_distinct(C::domain());
    lemma_distinct_append_known(C::domain(), C::domain(), C::domain().len() as int);
    assert(C::domain().take(C::domain().len() as int) =~= C::domain());
}

/// Groups that are appended to a sequence which holds them already are
/// all dropped as repeats.
proof fn lemma_distinct_append_known<C>(groups: Seq<C>, more: Seq<C>, n: int)
    requires
        0 <= n <= more.len(),
        forall|i: int| 0 <= i < more.len() ==> groups.contains(#[trigger] more[i]),
    ensures
        distinct(groups + more.take(n)) == distinct(groups),
    decreases n,
{
    if n == 0 {
        assert(groups + more.take(0) =~= groups);
    } else {
        lemma_distinct_append_known(groups, more, n - 1);
        let all = groups + more.take(n);
        assert(all.drop_last() =~= groups + more.take(n - 1));
        assert(all.last() == more[n - 1]);
        lemma_distinct(groups);
        assert(groups.contains(more[n - 1]));
    }
}

/// Dropping the repeats neither loses a group nor invents one, and leaves
/// no repeat behind.
pub proof fn lemma_distinct<C>(groups: Seq<C>)
    ensures
        distinct(groups).no_duplicates(),
        forall|group: C| distinct(groups).contains(group) <==> groups.contains(group),
    decreases groups.len(),
{
    if groups.len() > 0 {
        let init = groups.drop_last();
        let last = groups.last();
        lemma_distinct(init);
        assert forall|group: C| distinct(groups).contains(group) <==> groups.contains(
            group,
        ) by {
            if groups.contains(group) {
                let i = choose|i: int| 0 <= i < groups.len() && groups[i] == group;
                if i < init.len() {
                    assert(init[i] == group);
                    assert(init.contains(group));
                    if !distinct(init).contains(last) {
                        let j = choose|j: int|
                            0 <= j < distinct(init).len() && distinct(init)[j] == group;
                        assert(distinct(init).push(last)[j] == group);
                    }
                } else {
                    assert(group == last);
                    if !distinct(init).contains(last) {
                        assert(distinct(init).push(last)[distinct(init).len() as int] == last);
                    }
                }
            }
            if distinct(groups).contains(group) {
                let j = choose|j: int|
                    0 <= j < distinct(groups).len() && distinct(groups)[j] == group;
                if j < distinct(init).len() {
                    assert(distinct(init)[j] == group);
                    assert(init.contains(group));
                    let i = choose|i: int| 0 <= i < init.len() && init[i] == group;
                    assert(groups[i] == group);
                } else {
                    assert(group == last);
                    assert(groups[groups.len() - 1] == group);
                }
            }
        }
    }
}

/// The terms of a statistic add up to the statistic.
pub proof fn lemma_terms_sum_to_chi_square<
    C: EnumerableCategory,
    O: ContingencyTable<C>,
    E: ContingencyTable<C>,
>(observed: &O, expected: &E, groups: Seq<C>)
    requires
        forall|i: int|
            0 <= i < groups.len() ==> observed.count(#[trigger] groups[i]) <= u64::MAX
                && expected.count(groups[i]) <= u64::MAX,
    ensures
        sum_terms(terms(observed, expected, groups)) == chi_square(observed, expected, groups),
    decreases groups.len(),
{
    if groups.len() > 0 {
        lemma_terms_sum_to_chi_square(observed, expected, groups.drop_last());
        let before = terms(observed, expected, groups.drop_last());
        let o = observed.count(groups.last());
        let e = expected.count(groups.last());
        if e != 0 {
            lemma_squared_error_fits(o, e);
            let term = Term { squared_error: squared_error(o, e) as u128, expected: e as u64 };
            assert(before.push(term).drop_last() =~= before);
        }
    }
}

/// The squared difference does not say which of the two counts is the
/// larger one.
pub proof fn lemma_squared_error_ignores_sign(observed: nat, expected: nat)
    ensures
        squared_error(observed, expected) == squared_error(expected, observed),
{
    assert((observed - expected) * (observed - expected) == (expected - observed) * (expected
        - observed)) by (nonlinear_arith);
}

/// The squared difference of two 64-bit counts fits in 128 bits.
pub proof fn lemma_squared_error_fits(observed: nat, expected: nat)
    requires
        observed <= u64::MAX,
        expected <= u64::MAX,
    ensures
        squared_error(observed, expected) <= u128::MAX,
{
    let d = observed - expected;
    assert(0 <= d * d <= 0xffff_ffff_ffff_ffff * 0xffff_ffff_ffff_ffff) by (nonlinear_arith)
        requires
            -0xffff_ffff_ffff_ffff <= d <= 0xffff_ffff_ffff_ffff,
    ;
    assert(0xffff_ffff_ffff_ffff * 0xffff_ffff_ffff_ffff <= 0xffff_ffff_ffff_ffff_ffff_ffff_ffff_ffff)
        by (nonlinear_arith);
}

} // verus!
