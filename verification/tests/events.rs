use kirk::data::Test;
use kirk::events::{join_failure, Dispatch, EventArgs, EventPayload, EventRegistry, Phase, Step};

const CATCHER: u64 = 900;

/// Run the loop until it has nothing to do; gives what ran.
fn pump(registry: &mut EventRegistry) -> Vec<Dispatch> {
    let mut ran = Vec::new();
    let mut phase = Phase::Running;
    loop {
        let (step, next) = registry.start(phase);
        phase = next;
        match step {
            Step::Run(dispatch) => ran.push(dispatch),
            Step::Wait | Step::End => return ran,
        }
    }
}

/// Handlers in the order in which they ran.
fn handlers(ran: &[Dispatch]) -> Vec<u64> {
    ran.iter().flat_map(|d| d.handlers.clone()).collect()
}

#[test]
fn register_and_reset() {
    let mut registry = EventRegistry::new();
    assert!(registry.register("myevent", 1, false).is_ok());
    assert!(matches!(registry.is_registered("myevent"), Ok(true)));

    registry.reset();
    assert!(matches!(registry.is_registered("myevent"), Ok(false)));
}

#[test]
fn empty_names_are_rejected() {
    let mut registry = EventRegistry::new();
    assert!(registry.register("", 1, false).is_err());
    assert!(registry.is_registered("").is_err());
    assert!(registry.unregister("", None).is_err());
    assert!(registry.fire("", None).is_err());
}

#[test]
fn unregister_single_handler() {
    let mut registry = EventRegistry::new();
    let (first, second, unknown) = (1, 2, 3);
    assert!(!matches!(registry.is_registered("myevent"), Ok(true)));
    assert!(registry.register("myevent", first, false).is_ok());
    assert!(matches!(registry.is_registered("myevent"), Ok(true)));
    assert!(registry.register("myevent", second, false).is_ok());

    // Removing a handler that was never registered is a no-op.
    assert!(registry.unregister("myevent", Some(unknown)).is_ok());
    assert!(matches!(registry.is_registered("myevent"), Ok(true)));

    assert!(registry.unregister("myevent", Some(first)).is_ok());
    assert!(matches!(registry.is_registered("myevent"), Ok(true)));

    assert!(registry.fire("myevent", None).is_ok());
    assert_eq!(handlers(&pump(&mut registry)), vec![second]);
}

#[test]
fn unregister_entire_event_and_missing_name_noop() {
    let mut registry = EventRegistry::new();
    assert!(registry.register("myevent", 1, false).is_ok());
    assert!(matches!(registry.is_registered("myevent"), Ok(true)));

    assert!(registry.unregister("myevent", None).is_ok());
    assert!(matches!(registry.is_registered("myevent"), Ok(false)));

    // Removing an unknown event is a no-op success.
    assert!(registry.unregister("not_registered", None).is_ok());
    assert!(registry.unregister("not_registered", Some(1)).is_ok());

    // Firing an unknown event is a silent no-op.
    assert!(registry.fire("not_registered", None).is_ok());
    assert!(pump(&mut registry).is_empty());
}

#[test]
fn fire_fanout_delivers_every_payload() {
    const TIMES: usize = 100;
    let mut registry = EventRegistry::new();
    assert!(registry.register("myevent", 1, false).is_ok());
    assert!(matches!(registry.is_registered("myevent"), Ok(true)));
    for i in 0..TIMES {
        assert!(registry.fire("myevent", Some(i.to_string())).is_ok());
    }
    let called: Vec<usize> = pump(&mut registry)
        .iter()
        .map(|d| d.args.message().unwrap_or("").parse().unwrap())
        .collect();
    assert_eq!(called.len(), TIMES);
    for (index, value) in called.iter().enumerate() {
        assert_eq!(*value, index);
    }
}

#[test]
fn ordered_handlers_run_serially_in_registration_order() {
    let mut registry = EventRegistry::new();
    for index in 0..3 {
        assert!(registry.register("ordered_evt", index, true).is_ok());
    }
    assert!(registry.fire("ordered_evt", None).is_ok());
    let ran = pump(&mut registry);
    assert_eq!(ran.len(), 1);
    assert!(ran[0].ordered);
    assert_eq!(ran[0].handlers, vec![0, 1, 2]);
}

fn caught(error: &str) -> Dispatch {
    let mut registry = EventRegistry::new();
    assert!(registry.register("bad_event", 1, false).is_ok());
    assert!(registry.register("internal_error", CATCHER, false).is_ok());
    assert!(registry.fire("bad_event", None).is_ok());
    let ran = pump(&mut registry);
    assert_eq!(handlers(&ran), vec![1]);
    registry.report_error(&ran[0].event, error).expect("catcher runs")
}

#[test]
fn handler_error_reaches_internal_error() {
    let report = caught("test error");
    assert_eq!(report.handlers, vec![CATCHER]);
    assert_eq!(report.args.event, "bad_event");
    assert_eq!(report.args.message(), Some("test error"));
}

#[test]
fn handler_panic_reaches_internal_error() {
    let report = caught(&join_failure(true, Some("boom")));
    assert_eq!(report.args.event, "bad_event");
    assert_eq!(report.args.message(), Some("boom"));
    assert_eq!(join_failure(true, None), "event handler panicked");
    assert_eq!(join_failure(false, Some("x")), "event handler was cancelled");
}

#[test]
fn errors_of_the_catcher_end_there() {
    let mut registry = EventRegistry::new();
    assert!(registry.report_error("bad_event", "x").is_none());
    assert!(registry.register("internal_error", CATCHER, false).is_ok());
    assert!(registry.report_error("internal_error", "x").is_none());
}

#[test]
fn stop_runs_what_was_fired() {
    let mut registry = EventRegistry::new();
    registry.register("evt", 1, false).unwrap();
    registry.fire("evt", Some("a".to_owned())).unwrap();
    registry.stop();
    registry.fire("evt", Some("b".to_owned())).unwrap();
    let mut messages = Vec::new();
    let mut phase = Phase::Running;
    loop {
        let (step, next) = registry.start(phase);
        phase = next;
        match step {
            Step::Run(d) => messages.push(d.args.message().unwrap().to_owned()),
            Step::Wait => panic!("a stopped loop does not wait"),
            Step::End => break,
        }
    }
    assert_eq!(messages, ["a", "b"]);
    assert!(matches!(registry.start(phase), (Step::End, Phase::Ended)));
}

#[test]
fn stop_behind_a_dispatch_is_not_lost() {
    let mut registry = EventRegistry::new();
    registry.register("evt", 1, true).unwrap();
    registry.fire("evt", None).unwrap();
    registry.stop();
    let (step, phase) = registry.start(Phase::Running);
    assert!(matches!(step, Step::Run(_)));
    let (step, phase) = registry.start(phase);
    assert!(matches!((step, phase), (Step::End, Phase::Ended)));

    let mut registry = EventRegistry::new();
    assert!(matches!(registry.start(Phase::Running), (Step::Wait, Phase::Running)));
    registry.stop();
    assert!(matches!(registry.start(Phase::Running), (Step::End, Phase::Ended)));
}

#[test]
fn payloads_reach_their_handlers() {
    let mut registry = EventRegistry::new();
    registry.register("test_started", 4, true).unwrap();
    let test = Test::new("t", "ls").unwrap();
    registry
        .fire_payload("test_started", EventPayload::Test(test.clone()))
        .unwrap();
    let ran = pump(&mut registry);
    assert!(matches!(&ran[0].args.payload, EventPayload::Test(t) if *t == test));
    assert_eq!(ran[0].args.message(), None);
    assert_eq!(EventPayload::Text("x".to_owned()).as_text(), Some("x"));
    assert_eq!(EventPayload::Empty.as_text(), None);
    let args = EventArgs { event: "e".to_owned(), payload: EventPayload::Text("m".to_owned()) };
    assert_eq!(args.message(), Some("m"));
}
