use super::{Action, DecisionEngine};
use crate::stats::{EnumerableCategory, Observation};
use vstd::prelude::*;

verus! {

/// Where a controller stands in its life.
#[derive(Clone, Copy, Debug, PartialEq, Eq, Structural, Hash)]
pub enum ControllerState {
    /// Events are served as they come.
    Running,
    /// The source of observations has closed; one last evaluation is owed.
    Draining,
    /// Nothing is served any more.
    Terminated,
}

/// What can happen to a controller. The timer and the source of observations
/// race; whichever event comes is served alone.
pub enum Event<C> {
    /// The timer fired.
    Tick,
    /// A batch of observations arrived.
    Batch(Vec<Observation<C>>),
    /// The source of observations closed.
    Closed,
    /// The consumer of the actions is gone.
    SinkClosed,
}

/// Whether a controller in `state` asks its engine when `event` comes: a
/// running controller does, on every tick and once more when the source closes.
pub open spec fn asks<C>(state: ControllerState, event: Event<C>) -> bool {
    state == ControllerState::Running && (event is Tick || event is Closed)
}

/// The state that `event` leaves a controller in that was in `state`.
///
/// The closing of the source takes a running controller through `Draining`,
/// in which it asks its engine for the last time, to `Terminated`.
pub open spec fn state_after<C>(state: ControllerState, event: Event<C>) -> ControllerState {
    match (state, event) {
        (_, Event::SinkClosed) => ControllerState::Terminated,
        (ControllerState::Running, Event::Closed) => ControllerState::Terminated,
        (_, _) => state,
    }
}

/// `after` is what `before` becomes by taking in `items` one by one, in order.
pub open spec fn fed<C: EnumerableCategory, E: DecisionEngine<C>>(
    before: E,
    items: Seq<Observation<C>>,
    after: E,
) -> bool
    decreases items.len(),
{
    if items.len() == 0 {
        after == before
    } else {
        exists|mid: E|
            fed(before, items.drop_last(), mid) && #[trigger] mid.observed(items.last(), &after)
    }
}

/// One event, served: the controller goes from `state` to `next_state`, its
/// engine from `engine` to `next_engine`, and `emitted` goes out.
///
/// A running controller asks its engine on a tick, feeds it on a batch, and
/// asks it one last time when the source closes. What the engine answers is
/// what goes out. A controller that is not running leaves its engine alone.
pub open spec fn stepped<C: EnumerableCategory, E: DecisionEngine<C>>(
    state: ControllerState,
    engine: E,
    event: Event<C>,
    next_state: ControllerState,
    next_engine: E,
    emitted: Option<Action>,
) -> bool {
    &&& next_state == state_after(state, event)
    &&& if asks(state, event) {
        engine.computed(emitted, &next_engine)
    } else if state == ControllerState::Running && event is Batch {
        fed(engine, event->Batch_0@, next_engine) && emitted is None
    } else {
        next_engine == engine && emitted is None
    }
}

/// A whole sequence of events, served in order, from `state` and `engine` to
/// `next_state` and `next_engine`. `answers` holds what the engine answered
/// each time that it was asked.
pub open spec fn ran<C: EnumerableCategory, E: DecisionEngine<C>>(
    state: ControllerState,
    engine: E,
    events: Seq<Event<C>>,
    next_state: ControllerState,
    next_engine: E,
    answers: Seq<Option<Action>>,
) -> bool
    decreases events.len(),
{
    if events.len() == 0 {
        next_state == state && next_engine == engine && answers == Seq::<Option<Action>>::empty()
    } else {
        exists|mid_state: ControllerState, mid_engine: E, emitted: Option<Action>|
            {
                &&& #[trigger] stepped(
                    mid_state,
                    mid_engine,
                    events.last(),
                    next_state,
                    next_engine,
                    emitted,
                )
                &&& if asks(mid_state, events.last()) {
                    &&& answers.len() > 0
                    &&& answers.last() == emitted
                    &&& ran(state, engine, events.drop_last(), mid_state, mid_engine, answers.drop_last())
                } else {
                    ran(state, engine, events.drop_last(), mid_state, mid_engine, answers)
                }
            }
    }
}

/// The actions that a sequence of answers puts out: each answer that names
/// an action, in order and as often as it was given.
pub open spec fn emitted_by(answers: Seq<Option<Action>>) -> Seq<Action>
    decreases answers.len(),
{
    if answers.len() == 0 {
        Seq::empty()
    } else {
        match answers.last() {
            Some(action) => emitted_by(answers.drop_last()).push(action),
            None => emitted_by(answers.drop_last()),
        }
    }
}

/// A controller decides how and when a [`DecisionEngine`] is called: it feeds
/// the engine what is observed, asks it on a schedule, and passes on the
/// actions that it answers.
pub struct EngineController {
    maximum_duration_millis: u64,
    state: ControllerState,
}

impl EngineController {
    /// The state that the controller is in.
    pub closed spec fn spec_state(&self) -> ControllerState {
        self.state
    }

    /// The longest time, in milliseconds, that the engine goes unasked.
    pub closed spec fn spec_maximum_duration_millis(&self) -> u64 {
        self.maximum_duration_millis
    }

    /// A running controller whose engine is asked every
    /// `maximum_duration_millis` milliseconds.
    pub fn new(maximum_duration_millis: u64) -> (controller: EngineController)
        ensures
            controller.spec_state() == ControllerState::Running,
            controller.spec_maximum_duration_millis() == maximum_duration_millis,
    {
        EngineController { maximum_duration_millis, state: ControllerState::Running }
    }

    /// The state that the controller is in.
    pub fn state(&self) -> (state: ControllerState)
        ensures
            state == self.spec_state(),
    {
        self.state
    }

    /// The longest time, in milliseconds, that the engine goes unasked: the
    /// period of the timer whose ticks the controller is to be given.
    pub fn maximum_duration_millis(&self) -> (millis: u64)
        ensures
            millis == self.spec_maximum_duration_millis(),
    {
        self.maximum_duration_millis
    }

    /// Serves one event, and returns the action to pass on, if there is one.
    pub fn step<C: EnumerableCategory, E: DecisionEngine<C>>(
        &mut self,
        engine: &mut E,
        event: Event<C>,
    ) -> (emitted: Option<Action>)
        requires
            old(engine).well_formed(),
        ensures
            final(engine).well_formed(),
            final(self).spec_maximum_duration_millis() == old(self).spec_maximum_duration_millis(),
            stepped(
                old(self).spec_state(),
                *old(engine),
                event,
                final(self).spec_state(),
                *final(engine),
                emitted,
            ),
    {
        match self.state {
            ControllerState::Running => match event {
                Event::Tick => engine.compute(),
                Event::Batch(items) => {
                    feed(engine, items);
                    None
                },
                Event::Closed => {
                    self.state = ControllerState::Draining;
                    let last = engine.compute();
                    self.state = ControllerState::Terminated;
                    last
                },
                Event::SinkClosed => {
                    self.state = ControllerState::Terminated;
                    None
                },
            },
            _ => match event {
                Event::SinkClosed => {
                    self.state = ControllerState::Terminated;
                    None
                },
                _ => None,
            },
        }
    }

    /// Serves a whole sequence of events, one after the other, and returns
    /// the actions that went out, oldest first.
    pub fn run<C: EnumerableCategory, E: DecisionEngine<C>>(
        self,
        engine: E,
        events: Vec<Event<C>>,
    ) -> (actions: Vec<Action>)
        requires
            engine.well_formed(),
        ensures
            exists|next_state: ControllerState, next_engine: E, answers: Seq<Option<Action>>|
                #[trigger] ran(
                    self.spec_state(),
                    engine,
                    events@,
                    next_state,
                    next_engine,
                    answers,
                ) && actions@ == emitted_by(answers),
    {
        let mut controller = self;
        let mut engine = engine;
        let mut actions: Vec<Action> = Vec::new();
        let ghost all = events@;
        let ghost first_state = self.spec_state();
        let ghost first_engine = engine;
        let ghost mut answers: Seq<Option<Action>> = Seq::empty();
        for event in it: events.into_iter()
            invariant
                engine.well_formed(),
                it.seq() == all,
                ran(
                    first_state,
                    first_engine,
                    all.take(it.index() as int),
                    controller.spec_state(),
                    engine,
                    answers,
                ),
                actions@ == emitted_by(answers),
        {
            let ghost done = it.index() as int;
            let ghost mid_state = controller.spec_state();
            let ghost mid_engine = engine;
            let emitted = controller.step(&mut engine, event);
            proof {
                let served = all.take(done + 1);
                assert(served.drop_last() =~= all.take(done));
                assert(served.last() == event);
                if asks(mid_state, event) {
                    let before = answers;
                    answers = answers.push(emitted);
                    assert(answers.drop_last() =~= before);
                }
                assert(stepped(
                    mid_state,
                    mid_engine,
                    served.last(),
                    controller.spec_state(),
                    engine,
                    emitted,
                ));
            }
            if let Some(action) = emitted {
                actions.push(action);
            }
        }
        proof {
            assert(all.take(all.len() as int) =~= all);
        }
        actions
    }
}

/// The state of a controller that was in `state` and has served `events`.
pub open spec fn state_after_all<C>(state: ControllerState, events: Seq<Event<C>>) -> ControllerState
    decreases events.len(),
{
    if events.len() == 0 {
        state
    } else {
        state_after(state_after_all(state, events.drop_last()), events.last())
    }
}

/// How often a controller that was in `state` asks its engine while it
/// serves `events`.
pub open spec fn evaluations<C>(state: ControllerState, events: Seq<Event<C>>) -> nat
    decreases events.len(),
{
    if events.len() == 0 {
        0
    } else {
        let before = evaluations(state, events.drop_last());
        if asks(state_after_all(state, events.drop_last()), events.last()) {
            before + 1
        } else {
            before
        }
    }
}

/// The events alone decide where a controller ends up and how often it asks
/// its engine, whatever the engine is and answers.
pub proof fn lemma_events_decide_the_course<C: EnumerableCategory, E: DecisionEngine<C>>(
    state: ControllerState,
    engine: E,
    events: Seq<Event<C>>,
    next_state: ControllerState,
    next_engine: E,
    answers: Seq<Option<Action>>,
)
    requires
        ran(state, engine, events, next_state, next_engine, answers),
    ensures
        next_state == state_after_all(state, events),
        answers.len() == evaluations(state, events),
    decreases events.len(),
{
    if events.len() > 0 {
        let (mid_state, mid_engine, emitted): (ControllerState, E, Option<Action>) = choose|
            mid_state: ControllerState,
            mid_engine: E,
            emitted: Option<Action>,
        |
            {
                &&& #[trigger] stepped(
                    mid_state,
                    mid_engine,
                    events.last(),
                    next_state,
                    next_engine,
                    emitted,
                )
                &&& if asks(mid_state, events.last()) {
                    &&& answers.len() > 0
                    &&& answers.last() == emitted
                    &&& ran(state, engine, events.drop_last(), mid_state, mid_engine, answers.drop_last())
                } else {
                    ran(state, engine, events.drop_last(), mid_state, mid_engine, answers)
                }
            };
        if asks(mid_state, events.last()) {
            lemma_events_decide_the_course(
                state,
                engine,
                events.drop_last(),
                mid_state,
                mid_engine,
                answers.drop_last(),
            );
        } else {
            lemma_events_decide_the_course(
                state,
                engine,
                events.drop_last(),
                mid_state,
                mid_engine,
                answers,
            );
        }
    }
}

/// Whether an engine of the kind `E` can give `answer` when it is asked.
pub open spec fn can_answer<C: EnumerableCategory, E: DecisionEngine<C>>(
    answer: Option<Action>,
) -> bool {
    exists|asked: E, left: E| #[trigger] asked.computed(answer, &left)
}

/// Every answer of a run is one that the engine gave: the controller makes
/// up none.
pub proof fn lemma_answers_are_the_engines<C: EnumerableCategory, E: DecisionEngine<C>>(
    state: ControllerState,
    engine: E,
    events: Seq<Event<C>>,
    next_state: ControllerState,
    next_engine: E,
    answers: Seq<Option<Action>>,
)
    requires
        ran(state, engine, events, next_state, next_engine, answers),
    ensures
        forall|i: int| 0 <= i < answers.len() ==> can_answer::<C, E>(#[trigger] answers[i]),
    decreases events.len(),
{
    if events.len() > 0 {
        let (mid_state, mid_engine, emitted): (ControllerState, E, Option<Action>) = choose|
            mid_state: ControllerState,
            mid_engine: E,
            emitted: Option<Action>,
        |
            {
                &&& #[trigger] stepped(
                    mid_state,
                    mid_engine,
                    events.last(),
                    next_state,
                    next_engine,
                    emitted,
                )
                &&& if asks(mid_state, events.last()) {
                    &&& answers.len() > 0
                    &&& answers.last() == emitted
                    &&& ran(state, engine, events.drop_last(), mid_state, mid_engine, answers.drop_last())
                } else {
                    ran(state, engine, events.drop_last(), mid_state, mid_engine, answers)
                }
            };
        if asks(mid_state, events.last()) {
            lemma_answers_are_the_engines(
                state,
                engine,
                events.drop_last(),
                mid_state,
                mid_engine,
                answers.drop_last(),
            );
            assert(mid_engine.computed(emitted, &next_engine));
            assert(can_answer::<C, E>(answers.last()));
            assert forall|i: int| 0 <= i < answers.len() implies can_answer::<C, E>(
                #[trigger] answers[i],
            ) by {
                if i < answers.len() - 1 {
                    assert(answers[i] == answers.drop_last()[i]);
                }
            }
        } else {
            lemma_answers_are_the_engines(
                state,
                engine,
                events.drop_last(),
                mid_state,
                mid_engine,
                answers,
            );
        }
    }
}

/// While only batches arrive, a running controller keeps running and never
/// asks its engine.
pub proof fn lemma_batches_ask_nothing<C>(batches: Seq<Event<C>>)
    requires
        forall|i: int| 0 <= i < batches.len() ==> batches[i] is Batch,
    ensures
        state_after_all(ControllerState::Running, batches) == ControllerState::Running,
        evaluations(ControllerState::Running, batches) == 0,
    decreases batches.len(),
{
    if batches.len() > 0 {
        lemma_batches_ask_nothing(batches.drop_last());
    }
}

/// While only the timer fires, a running controller keeps running and asks
/// its engine once for every tick.
pub proof fn lemma_ticks_ask_each_time<C>(ticks: Seq<Event<C>>)
    requires
        forall|i: int| 0 <= i < ticks.len() ==> ticks[i] is Tick,
    ensures
        state_after_all(ControllerState::Running, ticks) == ControllerState::Running,
        evaluations(ControllerState::Running, ticks) == ticks.len(),
    decreases ticks.len(),
{
    if ticks.len() > 0 {
        lemma_ticks_ask_each_time(ticks.drop_last());
    }
}

/// Answers that all name an action all go out, in order: none is held back
/// for repeating the one before.
pub proof fn lemma_actions_are_not_suppressed(answers: Seq<Option<Action>>)
    requires
        forall|i: int| 0 <= i < answers.len() ==> answers[i] is Some,
    ensures
        emitted_by(answers).len() == answers.len(),
        forall|i: int| 0 <= i < answers.len() ==> answers[i] == Some(#[trigger] emitted_by(answers)[i]),
    decreases answers.len(),
{
    if answers.len() > 0 {
        lemma_actions_are_not_suppressed(answers.drop_last());
    }
}

/// When the source closes after any number of batches, and no tick came in
/// between, the controller asks its engine exactly once and has terminated.
pub proof fn lemma_closing_asks_once<C: EnumerableCategory, E: DecisionEngine<C>>(
    engine: E,
    batches: Seq<Event<C>>,
    next_state: ControllerState,
    next_engine: E,
    answers: Seq<Option<Action>>,
)
    requires
        forall|i: int| 0 <= i < batches.len() ==> batches[i] is Batch,
        ran(
            ControllerState::Running,
            engine,
            batches.push(Event::Closed),
            next_state,
            next_engine,
            answers,
        ),
    ensures
        next_state == ControllerState::Terminated,
        answers.len() == 1,
        emitted_by(answers) == emission(answers[0]),
{
    let events = batches.push(Event::Closed);
    lemma_events_decide_the_course(
        ControllerState::Running,
        engine,
        events,
        next_state,
        next_engine,
        answers,
    );
    assert(events.drop_last() =~= batches);
    lemma_batches_ask_nothing(batches);
    assert(answers.drop_last() =~= Seq::<Option<Action>>::empty());
    assert(emitted_by(answers.drop_last()) =~= Seq::<Action>::empty());
    assert(emitted_by(answers) =~= emission(answers[0]));
}

/// When the engine answers each of K ticks with an action, the controller
/// puts out exactly those K actions, and keeps running.
pub proof fn lemma_persistent_answers_all_go_out<C: EnumerableCategory, E: DecisionEngine<C>>(
    engine: E,
    ticks: Seq<Event<C>>,
    next_state: ControllerState,
    next_engine: E,
    answers: Seq<Option<Action>>,
)
    requires
        forall|i: int| 0 <= i < ticks.len() ==> ticks[i] is Tick,
        ran(ControllerState::Running, engine, ticks, next_state, next_engine, answers),
        forall|i: int| 0 <= i < answers.len() ==> answers[i] is Some,
    ensures
        next_state == ControllerState::Running,
        answers.len() == ticks.len(),
        emitted_by(answers).len() == ticks.len(),
        forall|i: int| 0 <= i < ticks.len() ==> answers[i] == Some(#[trigger] emitted_by(answers)[i]),
{
    lemma_events_decide_the_course(
        ControllerState::Running,
        engine,
        ticks,
        next_state,
        next_engine,
        answers,
    );
    lemma_ticks_ask_each_time(ticks);
    lemma_actions_are_not_suppressed(answers);
}

/// A controller that has terminated stays terminated and asks nothing more.
pub proof fn lemma_terminated_serves_nothing<C>(events: Seq<Event<C>>)
    ensures
        state_after_all(ControllerState::Terminated, events) == ControllerState::Terminated,
        evaluations(ControllerState::Terminated, events) == 0,
    decreases events.len(),
{
    if events.len() > 0 {
        lemma_terminated_serves_nothing(events.drop_last());
    }
}

/// The actions that one answer of an engine puts out: itself, or nothing.
pub open spec fn emission(answer: Option<Action>) -> Seq<Action> {
    match answer {
        Some(action) => seq![action],
        None => Seq::empty(),
    }
}

/// Hands every observation of a batch to the engine, in the order of the batch.
fn feed<C: EnumerableCategory, E: DecisionEngine<C>>(engine: &mut E, items: Vec<Observation<C>>)
    requires
        old(engine).well_formed(),
    ensures
        final(engine).well_formed(),
        fed(*old(engine), items@, *final(engine)),
{
    let ghost all = items@;
    let ghost start = *engine;
    for item in it: items.into_iter()
        invariant
            engine.well_formed(),
            it.seq() == all,
            fed(start, all.take(it.index() as int), *engine),
    {
        let ghost mid = *engine;
        let ghost done = it.index() as int;
        engine.add_observation(item);
        proof {
            let next = all.take(done + 1);
            assert(next.drop_last() =~= all.take(done));
            assert(next.last() == item);
            assert(mid.observed(next.last(), &*engine));
        }
    }
    proof {
        assert(all.take(all.len() as int) =~= all);
    }
}

} // verus!
