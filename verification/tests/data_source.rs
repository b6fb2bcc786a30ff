use city_info::data_fetchers::{
    CityDataError, CityDataRequest, CityDataSourceTask, SourceAction, SourceEvent,
};
use city_info::reply::ReplySlot;

fn request(id: u64, city: &str) -> SourceEvent {
    SourceEvent::Request(CityDataRequest {
        id,
        city: String::from(city),
    })
}

#[test]
fn test_city_data_source_task() {
    let mut task = CityDataSourceTask::new();

    // A request is accepted and its fetch begins.
    let action = task.step(request(1, "Module Test Hamlet"));
    assert_eq!(
        action,
        Some(SourceAction::StartFetch(
            1,
            String::from("Module Test Hamlet")
        ))
    );

    // The fetch completes, as the test data source computes it.
    let fetched = format!("Test result for {}", "Module Test Hamlet");
    let action = task.step(SourceEvent::FetchDone(1, Ok(fetched)));
    match action {
        Some(SourceAction::Reply(id, result)) => {
            assert_eq!(id, 1);
            let response = result.expect("Expected response not to be an error");
            assert_eq!(response, String::from("Test result for Module Test Hamlet"));
        }
        other => panic!("expected a reply, got {other:?}"),
    }

    // The actor is still running: a further request is accepted.
    let action = task.step(request(2, "Elsewhere"));
    assert_eq!(
        action,
        Some(SourceAction::StartFetch(2, String::from("Elsewhere")))
    );

    // Cancelling the shared token shuts the task down.
    let action = task.step(SourceEvent::Cancelled);
    assert_eq!(action, Some(SourceAction::Exit));
}

#[test]
fn fetch_failure_still_resolves_the_caller() {
    let mut task = CityDataSourceTask::new();
    task.step(request(1, "Nowhere"));
    let action = task.step(SourceEvent::FetchDone(
        1,
        Err(CityDataError::FetchError(String::from("no city found"))),
    ));
    assert_eq!(
        action,
        Some(SourceAction::Reply(
            1,
            Err(CityDataError::FetchError(String::from("no city found")))
        ))
    );
}

#[test]
fn completions_resolve_each_request_once() {
    let mut task = CityDataSourceTask::new();
    task.step(request(1, "A"));
    task.step(request(2, "B"));

    // Completions may arrive in any order; each resolves only its own slot.
    let action = task.step(SourceEvent::FetchDone(2, Ok(String::from("b"))));
    assert_eq!(action, Some(SourceAction::Reply(2, Ok(String::from("b")))));

    // A second completion for an already-resolved request does nothing.
    let action = task.step(SourceEvent::FetchDone(2, Ok(String::from("b again"))));
    assert_eq!(action, None);

    let action = task.step(SourceEvent::FetchDone(1, Ok(String::from("a"))));
    assert_eq!(action, Some(SourceAction::Reply(1, Ok(String::from("a")))));
}

#[test]
fn shutdown_then_request_gets_no_reply() {
    let mut task = CityDataSourceTask::new();

    // The whole loop, as a script: the shutdown signal arrives, then a
    // request is submitted. The run ends at the shutdown and the late request
    // produces neither a fetch nor a reply.
    let actions = task.run(vec![SourceEvent::Cancelled, request(1, "Late City")]);
    assert_eq!(actions, vec![SourceAction::Exit]);

    // The late caller's slot was never written: it observes abandonment, not
    // a hang.
    let mut slot: ReplySlot<String> = ReplySlot::new();
    assert_eq!(slot.take(), None);
}

#[test]
fn closed_inbound_channel_stops_the_loop() {
    let mut task = CityDataSourceTask::new();
    let actions = task.run(vec![request(1, "A"), SourceEvent::InboundClosed]);
    assert_eq!(
        actions,
        vec![
            SourceAction::StartFetch(1, String::from("A")),
            SourceAction::Exit
        ]
    );
}

#[test]
fn reply_slot_is_written_at_most_once() {
    let mut slot: ReplySlot<String> = ReplySlot::new();
    assert!(!slot.is_written());

    // The first write fills the slot; the second is refused.
    assert!(slot.send(String::from("first")));
    assert!(slot.is_written());
    assert!(!slot.send(String::from("second")));

    // The reader sees the first value, exactly once.
    assert_eq!(slot.take(), Some(String::from("first")));
    assert_eq!(slot.take(), None);

    // Even after the read, no further write lands.
    assert!(!slot.send(String::from("third")));
}

#[test]
fn city_data_error_messages() {
    assert_eq!(
        CityDataError::FetchError(String::from("boom")).describe(),
        String::from("Data fetch failed with error: boom")
    );
    assert_eq!(
        CityDataError::HandleSendError.describe(),
        String::from("Handle send failed, mpsc dropped unexpectedly?")
    );
    assert_eq!(
        CityDataError::HandleRecvError.describe(),
        String::from("Handle recv failed, oneshot dropped unexpectedly?")
    );
    assert_eq!(
        CityDataError::TaskSendError.describe(),
        String::from("Task response send failed, oneshot dropped unexpectedly?")
    );
}
