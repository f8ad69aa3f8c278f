use std::collections::HashSet;
use std::num::NonZeroU64;

use canary::metrics::ResponseStatusCode;
use canary::ratio::Ratio;
use canary::stats::{
    chi_square_test, degrees_of_freedom, p_value, test_statistic, ChiSquareError,
    ContingencyTable, EnumerableCategory, FixedContingencyTable, Statistic, Term,
};
use statrs::distribution::{ChiSquared, ContinuousCDF};

/// The sum that the terms stand for, in floating point.
fn sum(found: &[Term]) -> f64 {
    found.iter().fold(0.0, |sum, term| sum + (term.squared_error as f64) / (term.expected as f64))
}

/// The probability that a chi-square distribution puts above a statistic,
/// rounded down to a whole number of parts in 10^18.
fn tail(freedom: u64, found: Vec<Term>) -> Ratio {
    let distribution = ChiSquared::new(freedom as f64).expect("Degrees of freedom must be >= 0");
    let probability = 1.0 - distribution.cdf(sum(&found));
    Ratio::new((probability * 1e18) as u64, 1_000_000_000_000_000_000).unwrap()
}

fn as_float(ratio: Ratio) -> f64 {
    ratio.numerator() as f64 / ratio.denominator() as f64
}

fn coin(heads: u64, tails: u64) -> FixedContingencyTable<bool> {
    let mut table = FixedContingencyTable::new();
    table.set_group_count(true, heads);
    table.set_group_count(false, tails);
    table
}

/// This simple smoke test demonstrates that we can enumerable
/// simple categories, like booleans.
#[test]
fn categories_enumerable() {
    let observed: HashSet<bool> = bool::groups().into_iter().collect();
    let expected = HashSet::from([true, false]);
    assert_eq!(expected, observed);
}

/// This simple smoke test shows that the FixedFrequencyTable
/// can have its frequencies set and accessed.
#[test]
fn enumerable_table() {
    let mut table = FixedContingencyTable::new();
    let groups = [(true, 30u64), (false, 70u64)];
    // Put the values into the table.
    for (group, freq) in groups {
        table.set_group_count(group, freq);
    }
    // Retreive the values from the table.
    for (group, freq) in groups {
        let expected = freq;
        let observed = table.group_count(&group);
        assert_eq!(expected, observed);
    }
    // Demonstrate the number of degrees of freedom matches expectations.
    assert_eq!(degrees_of_freedom(&table), NonZeroU64::new(1).unwrap().get());
}

/// Scenario: You flip a coin 50 times, and get 21 Heads and 29 Tails.
/// You want to determine if the coin is fair. Output the test statistic.
/// Let True represent Heads and False represent Tails.
#[test]
fn calc_test_statistic() {
    let mut control_group = FixedContingencyTable::new();
    control_group.set_group_count(true, 25);
    control_group.set_group_count(false, 25);
    let mut experimental_group = FixedContingencyTable::new();
    experimental_group.set_group_count(true, 21);
    experimental_group.set_group_count(false, 29);
    assert_eq!(degrees_of_freedom(&control_group), NonZeroU64::new(1).unwrap().get());
    assert_eq!(degrees_of_freedom(&experimental_group), NonZeroU64::new(1).unwrap().get());
    let found = match test_statistic(&control_group, &experimental_group) {
        Statistic::Finite(found) => found,
        Statistic::Unbounded => panic!("every group was expected"),
    };
    let stat = sum(&found);
    // Round the statistic to two decimal places.
    let observed = (stat * 100.0).round() / 100.0;
    let expected = 1.28;
    assert_eq!(observed, expected);
    // Now, calculate the p-value using the test statistic.
    let pval = as_float(p_value(
        Statistic::Finite(found),
        degrees_of_freedom(&control_group),
        &tail,
    ));
    assert!(0.25 < pval && pval < 0.30);
}

#[test]
fn statistic_terms_are_exact() {
    let found = match test_statistic(&coin(25, 25), &coin(21, 29)) {
        Statistic::Finite(found) => found,
        Statistic::Unbounded => panic!("every group was expected"),
    };
    assert_eq!(
        found,
        vec![
            Term { squared_error: 16, expected: 25 },
            Term { squared_error: 16, expected: 25 },
        ]
    );
}

#[test]
fn statistic_squares_the_difference_whatever_its_sign() {
    let more = test_statistic(&coin(10, 10), &coin(13, 10));
    let less = test_statistic(&coin(10, 10), &coin(7, 10));
    let expected = vec![
        Term { squared_error: 9, expected: 10 },
        Term { squared_error: 0, expected: 10 },
    ];
    assert!(matches!(more, Statistic::Finite(found) if found == expected));
    assert!(matches!(less, Statistic::Finite(found) if found == expected));
}

#[test]
fn statistic_of_largest_counts_does_not_overflow() {
    let found = match test_statistic(&coin(1, u64::MAX), &coin(u64::MAX, 1)) {
        Statistic::Finite(found) => found,
        Statistic::Unbounded => panic!("every group was expected"),
    };
    let gap = (u64::MAX - 1) as u128;
    assert_eq!(
        found,
        vec![
            Term { squared_error: gap * gap, expected: 1 },
            Term { squared_error: gap * gap, expected: u64::MAX },
        ]
    );
}

#[test]
fn group_never_expected_and_never_observed_adds_nothing() {
    let found = match test_statistic(&coin(50, 0), &coin(40, 0)) {
        Statistic::Finite(found) => found,
        Statistic::Unbounded => panic!("nothing was observed that was not expected"),
    };
    assert_eq!(found, vec![Term { squared_error: 100, expected: 50 }]);
}

#[test]
fn group_observed_but_never_expected_makes_the_statistic_unbounded() {
    let statistic = test_statistic(&coin(50, 0), &coin(49, 1));
    assert!(matches!(statistic, Statistic::Unbounded));
}

#[test]
fn unbounded_statistic_has_p_value_zero_and_asks_nobody() {
    let nobody = |_: u64, _: Vec<Term>| -> Ratio { panic!("the tail function was asked") };
    let p = p_value(Statistic::Unbounded, 1, &nobody);
    assert_eq!(p.numerator(), 0);
}

#[test]
fn unbounded_statistic_is_significant_under_any_positive_cutoff() {
    let nobody = |_: u64, _: Vec<Term>| -> Ratio { panic!("the tail function was asked") };
    let tiny = Ratio::new(1, u64::MAX).unwrap();
    assert_eq!(chi_square_test(&coin(49, 1), &coin(50, 0), tiny, &nobody), Ok(true));
    let zero = Ratio::new(0, 1).unwrap();
    assert_eq!(chi_square_test(&coin(49, 1), &coin(50, 0), zero, &nobody), Ok(false));
}

#[test]
fn p_value_is_what_the_tail_function_answers() {
    let found = vec![Term { squared_error: 16, expected: 25 }];
    let seen = std::cell::RefCell::new(Vec::new());
    let answer = |freedom: u64, found: Vec<Term>| {
        seen.borrow_mut().push((freedom, found));
        Ratio::new(3, 7).unwrap()
    };
    let p = p_value(Statistic::Finite(found.clone()), 4, &answer);
    assert_eq!((p.numerator(), p.denominator()), (3, 7));
    assert_eq!(seen.into_inner(), vec![(4, found)]);
}

#[test]
fn fair_coin_is_not_found_unfair() {
    let alpha = Ratio::new(5, 100).unwrap();
    assert_eq!(chi_square_test(&coin(21, 29), &coin(25, 25), alpha, &tail), Ok(false));
}

#[test]
fn loaded_coin_is_found_unfair() {
    let alpha = Ratio::new(5, 100).unwrap();
    assert_eq!(chi_square_test(&coin(40, 10), &coin(25, 25), alpha, &tail), Ok(true));
}

#[test]
fn test_is_significant_exactly_below_the_cutoff() {
    let quarter = |_: u64, _: Vec<Term>| Ratio::new(1, 4).unwrap();
    let below = Ratio::new(24, 100).unwrap();
    let equal = Ratio::new(25, 100).unwrap();
    let above = Ratio::new(26, 100).unwrap();
    assert_eq!(chi_square_test(&coin(21, 29), &coin(25, 25), below, &quarter), Ok(false));
    assert_eq!(chi_square_test(&coin(21, 29), &coin(25, 25), equal, &quarter), Ok(false));
    assert_eq!(chi_square_test(&coin(21, 29), &coin(25, 25), above, &quarter), Ok(true));
}

#[test]
fn test_asks_with_the_degrees_of_freedom_and_the_terms() {
    let seen = std::cell::RefCell::new(Vec::new());
    let answer = |freedom: u64, found: Vec<Term>| {
        seen.borrow_mut().push((freedom, found));
        Ratio::new(1, 2).unwrap()
    };
    let alpha = Ratio::new(5, 100).unwrap();
    assert_eq!(chi_square_test(&coin(21, 29), &coin(25, 25), alpha, &answer), Ok(false));
    assert_eq!(
        seen.into_inner(),
        vec![(
            1,
            vec![
                Term { squared_error: 16, expected: 25 },
                Term { squared_error: 16, expected: 25 },
            ]
        )]
    );
}

#[test]
fn cutoff_of_one_or_more_is_refused() {
    let one = Ratio::new(1, 1).unwrap();
    let more = Ratio::new(3, 2).unwrap();
    assert_eq!(
        chi_square_test(&coin(21, 29), &coin(25, 25), one, &tail),
        Err(ChiSquareError::AlphaOutOfRange)
    );
    assert_eq!(
        chi_square_test(&coin(21, 29), &coin(25, 25), more, &tail),
        Err(ChiSquareError::AlphaOutOfRange)
    );
}

/// A table that has a column for the successes, the client errors and the
/// server errors only.
struct Failures {
    ok: u64,
    client: u64,
    server: u64,
}

impl ContingencyTable<ResponseStatusCode> for Failures {
    fn group_count(&self, cat: &ResponseStatusCode) -> u64 {
        match cat {
            ResponseStatusCode::_2XX => self.ok,
            ResponseStatusCode::_4XX => self.client,
            ResponseStatusCode::_5XX => self.server,
            _ => 0,
        }
    }

    fn groups(&self) -> Vec<ResponseStatusCode> {
        vec![ResponseStatusCode::_5XX, ResponseStatusCode::_2XX, ResponseStatusCode::_4XX]
    }
}

#[test]
fn tables_of_different_degrees_of_freedom_are_refused() {
    let expected: FixedContingencyTable<ResponseStatusCode> = FixedContingencyTable::new();
    let observed = Failures { ok: 90, client: 8, server: 2 };
    let alpha = Ratio::new(5, 100).unwrap();
    assert_eq!(degrees_of_freedom(&observed), 2);
    assert_eq!(degrees_of_freedom(&expected), 4);
    assert_eq!(
        chi_square_test(&observed, &expected, alpha, &tail),
        Err(ChiSquareError::DegreesOfFreedomMismatch)
    );
    let out_of_range = Ratio::new(1, 1).unwrap();
    assert_eq!(
        chi_square_test(&observed, &expected, out_of_range, &tail),
        Err(ChiSquareError::AlphaOutOfRange)
    );
}

#[test]
fn statistic_runs_over_the_groups_of_both_tables_each_once() {
    let mut control: FixedContingencyTable<ResponseStatusCode> = FixedContingencyTable::new();
    control.set_group_count(ResponseStatusCode::_1XX, 1);
    control.set_group_count(ResponseStatusCode::_2XX, 80);
    control.set_group_count(ResponseStatusCode::_3XX, 5);
    control.set_group_count(ResponseStatusCode::_4XX, 10);
    control.set_group_count(ResponseStatusCode::_5XX, 4);
    let experimental = Failures { ok: 90, client: 8, server: 2 };
    // The groups of the first table come first, in its order; those of the
    // second are all among them.
    let from_control = match test_statistic(&control, &experimental) {
        Statistic::Finite(found) => found,
        Statistic::Unbounded => panic!("every group was expected"),
    };
    assert_eq!(
        from_control,
        vec![
            Term { squared_error: 1, expected: 1 },
            Term { squared_error: 100, expected: 80 },
            Term { squared_error: 25, expected: 5 },
            Term { squared_error: 4, expected: 10 },
            Term { squared_error: 4, expected: 4 },
        ]
    );
    // The other way round the groups of the smaller table come first, and
    // those that only the larger one has were never expected.
    let from_failures = test_statistic(&experimental, &control);
    assert!(matches!(from_failures, Statistic::Unbounded));
}

#[test]
fn total_count_is_the_sum_of_the_group_counts() {
    let table = coin(30, 70);
    assert_eq!(table.total_count(), 100);
    let empty: FixedContingencyTable<ResponseStatusCode> = FixedContingencyTable::new();
    assert_eq!(empty.total_count(), 0);
    let failures = Failures { ok: 90, client: 8, server: 2 };
    assert_eq!(failures.total_count(), 100);
}

#[test]
fn new_table_counts_nothing() {
    let table: FixedContingencyTable<ResponseStatusCode> = FixedContingencyTable::new();
    for group in ResponseStatusCode::groups() {
        assert_eq!(table.group_count(&group), 0);
    }
}

#[test]
fn setting_one_count_leaves_the_others() {
    let mut table: FixedContingencyTable<ResponseStatusCode> = FixedContingencyTable::new();
    table.set_group_count(ResponseStatusCode::_3XX, 7);
    table.set_group_count(ResponseStatusCode::_5XX, 9);
    table.set_group_count(ResponseStatusCode::_3XX, 8);
    let counts: Vec<u64> =
        ResponseStatusCode::groups().iter().map(|group| table.group_count(group)).collect();
    assert_eq!(counts, vec![0, 0, 8, 0, 9]);
}

#[test]
fn degrees_of_freedom_are_the_groups_less_one() {
    let coin: FixedContingencyTable<bool> = FixedContingencyTable::new();
    let status: FixedContingencyTable<ResponseStatusCode> = FixedContingencyTable::new();
    assert_eq!(degrees_of_freedom(&coin), 1);
    assert_eq!(degrees_of_freedom(&status), 4);
}

#[test]
fn groups_come_in_the_order_of_their_ordinals() {
    assert_eq!(bool::groups(), vec![true, false]);
    for (place, group) in bool::groups().iter().enumerate() {
        assert_eq!(group.ordinal(), place);
    }
    assert_eq!(
        ResponseStatusCode::groups(),
        vec![
            ResponseStatusCode::_1XX,
            ResponseStatusCode::_2XX,
            ResponseStatusCode::_3XX,
            ResponseStatusCode::_4XX,
            ResponseStatusCode::_5XX,
        ]
    );
    for (place, group) in ResponseStatusCode::groups().iter().enumerate() {
        assert_eq!(group.ordinal(), place);
    }
}
