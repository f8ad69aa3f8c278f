use super::category::EnumerableCategory;
use super::chi::{
    significant_divergence, takes_every_question, test_statistic, tested, ChiSquareError,
    Statistic, Term,
};
use super::table::{
    degrees_of_freedom, lemma_sum_all_covers, lemma_sum_all_update, lemma_sum_all_zeros,
    lemma_total_is_sum_all, sum_all, total, FixedContingencyTable,
};
use super::{Group, Observation};
use crate::adapters::engines::{fed, Action, DecisionEngine};
use crate::ratio::Ratio;
use vstd::prelude::*;

verus! {

/// What a chi-square engine is set up with. Nothing that the engine decides
/// by is fixed anywhere else.
#[derive(Clone, Copy, Debug)]
pub struct EngineConfig {
    /// The cutoff below which a p-value counts as significant.
    pub alpha: Ratio,
    /// The number of observations that each cohort needs before the engine
    /// judges at all.
    pub minimum_samples: u64,
    /// The action that the engine answers with when the canary diverges
    /// significantly from the control.
    pub on_significant: Action,
}

/// The cutoff of one in twenty: a divergence counts where chance alone
/// would bring it about less than once in twenty times.
pub fn default_alpha_cutoff() -> (alpha: Ratio)
    ensures
        alpha.spec_numerator() == 1,
        alpha.spec_denominator() == 20,
{
    Ratio::new(1, 20).unwrap()
}

/// A row of counts after one more observation of the group at `place`.
pub open spec fn recorded(counts: Seq<u64>, place: int) -> Seq<u64> {
    counts.update(place, (counts[place] + 1) as u64)
}

/// The number of observations of `group` among `observations`.
pub open spec fn routed<C>(observations: Seq<Observation<C>>, group: Group) -> nat
    decreases observations.len(),
{
    if observations.len() == 0 {
        0
    } else {
        let before = routed(observations.drop_last(), group);
        if observations.last().group == group {
            before + 1
        } else {
            before
        }
    }
}

/// The engine that judges a canary by the chi-square test: it tallies the
/// outcomes of the control and of the experimental cohort, and finds the
/// canary to diverge where the test finds the two tallies to.
///
/// The tallies only grow. Asking the engine leaves them as they are.
pub struct ChiSquareEngine<C: EnumerableCategory, F: Fn(u64, Vec<Term>) -> Ratio> {
    control: FixedContingencyTable<C>,
    experimental: FixedContingencyTable<C>,
    total_control_count: u64,
    total_experimental_count: u64,
    config: EngineConfig,
    tail: F,
}

impl<C: EnumerableCategory, F: Fn(u64, Vec<Term>) -> Ratio> ChiSquareEngine<C, F> {
    /// The tally of a cohort.
    pub closed spec fn table(&self, group: Group) -> FixedContingencyTable<C> {
        match group {
            Group::Control => self.control,
            Group::Experimental => self.experimental,
        }
    }

    /// The number of observations that a cohort is known by.
    pub closed spec fn total(&self, group: Group) -> u64 {
        match group {
            Group::Control => self.total_control_count,
            Group::Experimental => self.total_experimental_count,
        }
    }

    /// What the engine was set up with.
    pub closed spec fn settings(&self) -> EngineConfig {
        self.config
    }

    /// The function that the engine asks for p-values.
    pub closed spec fn tail_function(&self) -> F {
        self.tail
    }

    /// Each tally has a column for every group, each total is the sum of
    /// its tally, the cutoff is below one, and the tail function takes
    /// every question.
    pub open spec fn sound(&self) -> bool {
        &&& self.table(Group::Control)@.len() == C::domain().len()
        &&& self.table(Group::Experimental)@.len() == C::domain().len()
        &&& self.total(Group::Control) == sum_all(self.table(Group::Control)@)
        &&& self.total(Group::Experimental) == sum_all(self.table(Group::Experimental)@)
        &&& self.settings().alpha.value() < 1real
        &&& takes_every_question(&self.tail_function())
    }

    /// Whether a cohort is empty or short of the samples that the engine
    /// was told to wait for.
    pub open spec fn lacks_evidence(&self) -> bool {
        ||| self.total(Group::Control) == 0
        ||| self.total(Group::Experimental) == 0
        ||| self.total(Group::Control) < self.settings().minimum_samples
        ||| self.total(Group::Experimental) < self.settings().minimum_samples
    }

    /// `next` is this engine after it took in `observation`: the tally of
    /// the cohort that was observed counts the outcome once more, the
    /// total of that cohort is one higher, and nothing else has changed.
    ///
    /// A cohort whose total is the largest count there is takes no more:
    /// an observation of it changes nothing at all.
    pub open spec fn records(&self, observation: Observation<C>, next: &Self) -> bool {
        let group = observation.group;
        let other = match group {
            Group::Control => Group::Experimental,
            Group::Experimental => Group::Control,
        };
        &&& if self.total(group) < u64::MAX {
            &&& next.table(group)@ == recorded(
                self.table(group)@,
                observation.outcome.rank() as int,
            )
            &&& next.total(group) == self.total(group) + 1
        } else {
            &&& next.table(group)@ == self.table(group)@
            &&& next.total(group) == self.total(group)
        }
        &&& next.table(other) == self.table(other)
        &&& next.total(other) == self.total(other)
        &&& next.settings() == self.settings()
        &&& next.tail_function() == self.tail_function()
    }

    /// The answer of the engine to a verdict of the chi-square test.
    pub open spec fn answer(&self, significant: bool) -> Option<Action> {
        if significant {
            Some(self.settings().on_significant)
        } else {
            None
        }
    }

    /// `action` is what this engine answers when asked, and `next` is the
    /// engine after that: the same.
    ///
    /// An engine that lacks evidence answers with no action. Any other
    /// puts its experimental tally to the chi-square test against its
    /// control tally, and answers as the verdict has it.
    pub open spec fn decides(&self, action: Option<Action>, next: &Self) -> bool {
        &&& *next == *self
        &&& if self.lacks_evidence() {
            action is None
        } else {
            exists|significant: bool|
                #[trigger] tested(
                    &self.table(Group::Experimental),
                    &self.table(Group::Control),
                    self.settings().alpha,
                    &self.tail_function(),
                    significant,
                ) && action == self.answer(significant)
        }
    }

    /// An engine that has observed nothing, set up with `config` and with
    /// the function `tail` to ask for p-values. A cutoff of one or more is
    /// refused.
    pub fn new(config: EngineConfig, tail: F) -> (engine: Result<Self, ChiSquareError>)
        requires
            takes_every_question(&tail),
        ensures
            config.alpha.value() >= 1real ==> engine is Err && engine->Err_0
                == ChiSquareError::AlphaOutOfRange,
            config.alpha.value() < 1real ==> {
                &&& engine matches Ok(fresh)
                &&& fresh.sound()
                &&& fresh.table(Group::Control)@ == Seq::new(C::domain().len(), |i: int| 0u64)
                &&& fresh.table(Group::Experimental)@ == Seq::new(
                    C::domain().len(),
                    |i: int| 0u64,
                )
                &&& fresh.total(Group::Control) == 0
                &&& fresh.total(Group::Experimental) == 0
                &&& fresh.settings() == config
                &&& fresh.tail_function() == tail
            },
    {
        if config.alpha.is_one_or_more() {
            return Err(ChiSquareError::AlphaOutOfRange);
        }
        proof {
            lemma_sum_all_zeros(C::domain().len());
        }
        Ok(
            ChiSquareEngine {
                control: FixedContingencyTable::new(),
                experimental: FixedContingencyTable::new(),
                total_control_count: 0,
                total_experimental_count: 0,
                config,
                tail,
            },
        )
    }

    /// Takes in one observation: counts its outcome in the tally of its cohort.
    pub fn add_observation(&mut self, obs: Observation<C>)
        requires
            old(self).sound(),
        ensures
            final(self).sound(),
            old(self).records(obs, final(self)),
    {
        proof {
            C::domain_is_enumerated();
        }
        let ghost place = obs.outcome.rank() as int;
        match obs.group {
            Group::Control => {
                if self.total_control_count < u64::MAX {
                    let count = self.control.group_count(&obs.outcome);
                    proof {
                        lemma_sum_all_covers(self.control@, place);
                        lemma_sum_all_update(self.control@, place, (count + 1) as u64);
                    }
                    self.control.set_group_count(obs.outcome, count + 1);
                    self.total_control_count = self.total_control_count + 1;
                }
            },
            Group::Experimental => {
                if self.total_experimental_count < u64::MAX {
                    let count = self.experimental.group_count(&obs.outcome);
                    proof {
                        lemma_sum_all_covers(self.experimental@, place);
                        lemma_sum_all_update(self.experimental@, place, (count + 1) as u64);
                    }
                    self.experimental.set_group_count(obs.outcome, count + 1);
                    self.total_experimental_count = self.total_experimental_count + 1;
                }
            },
        }
    }

    /// Judges all that the engine has taken in, and answers with the action
    /// to take, if there is one. The tallies are not reset.
    pub fn compute(&mut self) -> (action: Option<Action>)
        requires
            old(self).sound(),
        ensures
            final(self).sound(),
            old(self).decides(action, final(self)),
    {
        if self.total_control_count == 0 || self.total_experimental_count == 0
            || self.total_control_count < self.config.minimum_samples
            || self.total_experimental_count < self.config.minimum_samples {
            return None;
        }
        proof {
            C::domain_is_enumerated();
        }
        let freedom = degrees_of_freedom(&self.experimental);
        let significant = significant_divergence(
            &self.experimental,
            &self.control,
            freedom,
            &self.config.alpha,
            &self.tail,
        );
        self.verdict(significant)
    }

    /// The answer of the engine to a verdict of the chi-square test: the
    /// action that it was set up with where the divergence is significant,
    /// and none where it is not.
    pub fn verdict(&self, significant: bool) -> (action: Option<Action>)
        ensures
            action == self.answer(significant),
    {
        if significant {
            Some(self.config.on_significant)
        } else {
            None
        }
    }

    /// The chi-square statistic of the experimental tally against the
    /// control tally.
    pub fn calc_test_statistic(&self) -> (statistic: Statistic)
        ensures
            statistic is Unbounded <==> super::chi::degenerate(
                &self.table(Group::Experimental),
                &self.table(Group::Control),
                C::domain(),
            ),
            statistic matches Statistic::Finite(found) ==> {
                &&& found@ == super::chi::terms(
                    &self.table(Group::Experimental),
                    &self.table(Group::Control),
                    C::domain(),
                )
                &&& super::chi::sum_terms(found@) == super::chi::chi_square(
                    &self.table(Group::Experimental),
                    &self.table(Group::Control),
                    C::domain(),
                )
            },
    {
        proof {
            super::chi::lemma_merged_domain::<C>();
        }
        test_statistic(&self.control, &self.experimental)
    }

    /// The number of observations of the control cohort.
    pub fn total_control_count(&self) -> (total: u64)
        ensures
            total == self.total(Group::Control),
    {
        self.total_control_count
    }

    /// The number of observations of the experimental cohort.
    pub fn total_experimental_count(&self) -> (total: u64)
        ensures
            total == self.total(Group::Experimental),
    {
        self.total_experimental_count
    }

    /// The tally of the control cohort.
    pub fn control(&self) -> (table: &FixedContingencyTable<C>)
        ensures
            *table == self.table(Group::Control),
    {
        &self.control
    }

    /// The tally of the experimental cohort.
    pub fn experimental(&self) -> (table: &FixedContingencyTable<C>)
        ensures
            *table == self.table(Group::Experimental),
    {
        &self.experimental
    }

    /// What the engine was set up with.
    pub fn config(&self) -> (config: &EngineConfig)
        ensures
            *config == self.settings(),
    {
        &self.config
    }
}

impl<C: EnumerableCategory, F: Fn(u64, Vec<Term>) -> Ratio> DecisionEngine<C> for ChiSquareEngine<
    C,
    F,
> {
    open spec fn well_formed(&self) -> bool {
        self.sound()
    }

    open spec fn observed(&self, observation: Observation<C>, next: &Self) -> bool {
        self.records(observation, next)
    }

    open spec fn computed(&self, action: Option<Action>, next: &Self) -> bool {
        self.decides(action, next)
    }

    fn add_observation(&mut self, observation: Observation<C>) {
        ChiSquareEngine::add_observation(self, observation)
    }

    fn compute(&mut self) -> (action: Option<Action>) {
        ChiSquareEngine::compute(self)
    }
}

/// The smaller of a number and the largest count.
pub open spec fn capped(n: int) -> int {
    if n <= u64::MAX {
        n
    } else {
        u64::MAX as int
    }
}

/// Whatever observations an engine takes in, the total of each cohort has
/// grown by the number of them that were of that cohort, up to the largest
/// count; and it is the number of observations that the tally of the
/// cohort holds.
pub proof fn lemma_totals_count_the_routed<C: EnumerableCategory, F: Fn(u64, Vec<Term>) -> Ratio>(
    before: ChiSquareEngine<C, F>,
    observations: Seq<Observation<C>>,
    after: ChiSquareEngine<C, F>,
    group: Group,
)
    requires
        before.sound(),
        fed(before, observations, after),
    ensures
        after.sound(),
        after.total(group) == capped(before.total(group) + routed(observations, group)),
        after.total(group) == total(&after.table(group)),
    decreases observations.len(),
{
    if observations.len() == 0 {
        lemma_total_is_sum_all(&after.table(group));
    } else {
        let last = observations.last();
        let mid = choose|mid: ChiSquareEngine<C, F>|
            fed(before, observations.drop_last(), mid) && #[trigger] mid.observed(last, &after);
        lemma_totals_count_the_routed(before, observations.drop_last(), mid, group);
        lemma_totals_count_the_routed(before, observations.drop_last(), mid, last.group);
        C::domain_is_enumerated();
        let row = mid.table(last.group)@;
        let place = last.outcome.rank() as int;
        if mid.total(last.group) < u64::MAX {
            lemma_sum_all_covers(row, place);
            lemma_sum_all_update(row, place, (row[place] + 1) as u64);
        }
        lemma_total_is_sum_all(&after.table(group));
    }
}

/// In an engine that has taken in `observations` and nothing else, the
/// total of each cohort is the number of them that were of that cohort, up
/// to the largest count.
pub proof fn lemma_fresh_totals_count_the_routed<
    C: EnumerableCategory,
    F: Fn(u64, Vec<Term>) -> Ratio,
>(
    fresh: ChiSquareEngine<C, F>,
    observations: Seq<Observation<C>>,
    after: ChiSquareEngine<C, F>,
    group: Group,
)
    requires
        fresh.sound(),
        fresh.total(Group::Control) == 0,
        fresh.total(Group::Experimental) == 0,
        fed(fresh, observations, after),
    ensures
        after.total(group) == capped(routed(observations, group) as int),
        total(&after.table(group)) == capped(routed(observations, group) as int),
{
    lemma_totals_count_the_routed(fresh, observations, after, group);
}

/// An engine that has observed nothing answers with no action, whatever it
/// was set up with.
pub proof fn lemma_no_action_before_observations<
    C: EnumerableCategory,
    F: Fn(u64, Vec<Term>) -> Ratio,
>(engine: ChiSquareEngine<C, F>, action: Option<Action>, next: ChiSquareEngine<C, F>)
    requires
        engine.total(Group::Control) == 0 || engine.total(Group::Experimental) == 0,
        engine.decides(action, &next),
    ensures
        action is None,
        next == engine,
{
}

} // verus!
