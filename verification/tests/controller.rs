use canary::adapters::engines::{ControllerState, Event};
use canary::adapters::{Action, AlwaysPromote, DecisionEngine, EngineController};
use canary::metrics::ResponseStatusCode;
use canary::stats::{Group, Observation};
use std::cell::RefCell;
use std::rc::Rc;

/// What an engine was called with, call by call.
#[derive(Debug, PartialEq, Clone, Copy)]
enum Call {
    Observed(Group, ResponseStatusCode),
    Asked,
}

/// An engine that writes down every call and answers from a script.
struct Scripted {
    calls: Rc<RefCell<Vec<Call>>>,
    answers: Vec<Option<Action>>,
}

impl Scripted {
    fn new(answers: Vec<Option<Action>>) -> (Self, Rc<RefCell<Vec<Call>>>) {
        let calls = Rc::new(RefCell::new(Vec::new()));
        let mut answers = answers;
        answers.reverse();
        (Scripted { calls: calls.clone(), answers }, calls)
    }
}

impl DecisionEngine<ResponseStatusCode> for Scripted {
    fn add_observation(&mut self, observation: Observation<ResponseStatusCode>) {
        self.calls.borrow_mut().push(Call::Observed(observation.group, observation.outcome));
    }

    fn compute(&mut self) -> Option<Action> {
        self.calls.borrow_mut().push(Call::Asked);
        self.answers.pop().unwrap_or(None)
    }
}

fn batch(outcomes: &[(Group, ResponseStatusCode)]) -> Event<ResponseStatusCode> {
    Event::Batch(outcomes.iter().map(|&(group, outcome)| Observation { group, outcome }).collect())
}

fn asked(calls: &Rc<RefCell<Vec<Call>>>) -> usize {
    calls.borrow().iter().filter(|call| **call == Call::Asked).count()
}

#[test]
fn new_controller_runs() {
    let controller = EngineController::new(250);
    assert_eq!(controller.state(), ControllerState::Running);
    assert_eq!(controller.maximum_duration_millis(), 250);
}

#[test]
fn closing_after_batches_asks_once_and_terminates() {
    for batches in 0..4 {
        let (mut engine, calls) = Scripted::new(vec![Some(Action::Yank)]);
        let mut controller = EngineController::new(1000);
        for _ in 0..batches {
            let emitted = controller.step(
                &mut engine,
                batch(&[
                    (Group::Control, ResponseStatusCode::_2XX),
                    (Group::Experimental, ResponseStatusCode::_5XX),
                ]),
            );
            assert_eq!(emitted, None);
            assert_eq!(controller.state(), ControllerState::Running);
        }
        assert_eq!(asked(&calls), 0);
        let last = controller.step(&mut engine, Event::Closed);
        assert_eq!(last, Some(Action::Yank));
        assert_eq!(controller.state(), ControllerState::Terminated);
        assert_eq!(asked(&calls), 1);
        assert_eq!(calls.borrow().len(), 2 * batches + 1);
        assert_eq!(calls.borrow().last(), Some(&Call::Asked));
    }
}

#[test]
fn closing_without_a_decision_emits_nothing() {
    let (engine, calls) = Scripted::new(vec![None]);
    let actions = EngineController::new(1000).run(
        engine,
        vec![batch(&[(Group::Control, ResponseStatusCode::_2XX)]), Event::Closed],
    );
    assert_eq!(actions, vec![]);
    assert_eq!(asked(&calls), 1);
}

#[test]
fn persistent_answer_goes_out_on_every_tick() {
    for ticks in [0usize, 1, 2, 7] {
        let events: Vec<Event<ResponseStatusCode>> = (0..ticks).map(|_| Event::Tick).collect();
        let actions = EngineController::new(1000).run(AlwaysPromote, events);
        assert_eq!(actions, vec![Action::Promote; ticks]);
    }
}

#[test]
fn ticks_keep_the_controller_running() {
    let mut controller = EngineController::new(1000);
    let mut engine = AlwaysPromote;
    for _ in 0..5 {
        let emitted = controller.step(&mut engine, Event::<ResponseStatusCode>::Tick);
        assert_eq!(emitted, Some(Action::Promote));
        assert_eq!(controller.state(), ControllerState::Running);
    }
}

#[test]
fn answers_go_out_in_order_and_silence_is_skipped() {
    let (engine, calls) = Scripted::new(vec![
        Some(Action::RampUp),
        None,
        Some(Action::RampUp),
        Some(Action::RampDown),
        Some(Action::Promote),
    ]);
    let actions = EngineController::new(1000).run(
        engine,
        vec![
            Event::Tick,
            Event::Tick,
            batch(&[(Group::Experimental, ResponseStatusCode::_2XX)]),
            Event::Tick,
            Event::Tick,
            Event::Closed,
        ],
    );
    assert_eq!(
        actions,
        vec![Action::RampUp, Action::RampUp, Action::RampDown, Action::Promote]
    );
    assert_eq!(asked(&calls), 5);
}

#[test]
fn batch_is_fed_item_by_item_in_order_and_nothing_is_asked() {
    let (mut engine, calls) = Scripted::new(vec![Some(Action::Yank)]);
    let mut controller = EngineController::new(1000);
    let emitted = controller.step(
        &mut engine,
        batch(&[
            (Group::Control, ResponseStatusCode::_2XX),
            (Group::Experimental, ResponseStatusCode::_5XX),
            (Group::Control, ResponseStatusCode::_4XX),
        ]),
    );
    assert_eq!(emitted, None);
    assert_eq!(
        *calls.borrow(),
        vec![
            Call::Observed(Group::Control, ResponseStatusCode::_2XX),
            Call::Observed(Group::Experimental, ResponseStatusCode::_5XX),
            Call::Observed(Group::Control, ResponseStatusCode::_4XX),
        ]
    );
    let emitted = controller.step(&mut engine, batch(&[]));
    assert_eq!(emitted, None);
    assert_eq!(calls.borrow().len(), 3);
}

#[test]
fn terminated_controller_serves_nothing() {
    let (mut engine, calls) = Scripted::new(vec![None, Some(Action::Yank), Some(Action::Yank)]);
    let mut controller = EngineController::new(1000);
    assert_eq!(controller.step(&mut engine, Event::Closed), None);
    assert_eq!(controller.state(), ControllerState::Terminated);
    assert_eq!(calls.borrow().len(), 1);
    for event in [
        Event::Tick,
        batch(&[(Group::Control, ResponseStatusCode::_2XX)]),
        Event::Closed,
        Event::SinkClosed,
    ] {
        assert_eq!(controller.step(&mut engine, event), None);
        assert_eq!(controller.state(), ControllerState::Terminated);
    }
    assert_eq!(calls.borrow().len(), 1);
}

#[test]
fn events_after_the_close_are_ignored_by_a_run() {
    let (engine, calls) = Scripted::new(vec![Some(Action::Promote), Some(Action::Yank)]);
    let actions = EngineController::new(1000).run(
        engine,
        vec![
            Event::Closed,
            Event::Tick,
            batch(&[(Group::Control, ResponseStatusCode::_2XX)]),
        ],
    );
    assert_eq!(actions, vec![Action::Promote]);
    assert_eq!(*calls.borrow(), vec![Call::Asked]);
}

#[test]
fn lost_sink_terminates_without_asking() {
    let (mut engine, calls) = Scripted::new(vec![Some(Action::Yank)]);
    let mut controller = EngineController::new(1000);
    assert_eq!(controller.step(&mut engine, Event::SinkClosed), None);
    assert_eq!(controller.state(), ControllerState::Terminated);
    assert_eq!(controller.step(&mut engine, Event::Tick), None);
    assert!(calls.borrow().is_empty());
}

#[test]
fn run_of_no_events_emits_nothing() {
    let events: Vec<Event<ResponseStatusCode>> = Vec::new();
    assert_eq!(EngineController::new(1000).run(AlwaysPromote, events), vec![]);
}

#[test]
fn always_promote_discards_what_it_observes() {
    let mut engine = AlwaysPromote;
    assert_eq!(DecisionEngine::<ResponseStatusCode>::compute(&mut engine), Some(Action::Promote));
    engine.add_observation(Observation {
        group: Group::Experimental,
        outcome: ResponseStatusCode::_5XX,
    });
    assert_eq!(DecisionEngine::<ResponseStatusCode>::compute(&mut engine), Some(Action::Promote));
}
