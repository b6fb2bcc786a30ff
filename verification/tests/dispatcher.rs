use city_info::data_fetchers::{CityDataError, CityDataResult};
use city_info::dispatcher::{
    aggregate_responses, DispatcherAction, DispatcherError, DispatcherEvent, DispatcherRequest,
    DispatcherTask,
};
use city_info::rest_api::response_for_outcome;

fn request(id: u64, city: &str) -> DispatcherEvent {
    DispatcherEvent::Request(DispatcherRequest {
        id,
        city_name: String::from(city),
    })
}

#[test]
fn test_handle_request() {
    // One configured data source, as in a dispatcher with a single fetcher.
    let mut task = DispatcherTask::new(1);

    // The request reaches the fetcher...
    let action = task.step(request(1, "Unit Test City"));
    assert_eq!(
        action,
        Some(DispatcherAction::CallSource(
            1,
            0,
            String::from("Unit Test City")
        ))
    );

    // ... and its answer becomes the aggregated reply.
    let action = task.step(DispatcherEvent::SourceOutcome(
        1,
        Ok(String::from("test data for Unit Test City")),
    ));
    assert_eq!(
        action,
        Some(DispatcherAction::Respond(
            1,
            String::from("test data for Unit Test City\n")
        ))
    );

    // A request whose fetcher has gone away gets the failure reply.
    let action = task.step(request(2, "Broken Test Town"));
    assert_eq!(
        action,
        Some(DispatcherAction::CallSource(
            2,
            0,
            String::from("Broken Test Town")
        ))
    );
    let action = task.step(DispatcherEvent::SourceOutcome(
        2,
        Err(CityDataError::HandleRecvError),
    ));
    assert_eq!(
        action,
        Some(DispatcherAction::Respond(2, String::from("Request failed")))
    );
}

#[test]
fn two_sources_aggregate_in_order() {
    // Two mock sources, both answering "line": the reply is one line each.
    let mut task = DispatcherTask::new(2);

    let action = task.step(request(7, "X"));
    assert_eq!(
        action,
        Some(DispatcherAction::CallSource(7, 0, String::from("X")))
    );
    let action = task.step(DispatcherEvent::SourceOutcome(7, Ok(String::from("line"))));
    assert_eq!(
        action,
        Some(DispatcherAction::CallSource(7, 1, String::from("X")))
    );
    let action = task.step(DispatcherEvent::SourceOutcome(7, Ok(String::from("line"))));
    assert_eq!(
        action,
        Some(DispatcherAction::Respond(7, String::from("line\nline\n")))
    );
}

#[test]
fn failing_second_source_discards_partial_output() {
    // Two mock sources; the second fails: the reply is the sentinel, with no
    // trace of the first source's output.
    let mut task = DispatcherTask::new(2);

    task.step(request(9, "Y"));
    let action = task.step(DispatcherEvent::SourceOutcome(
        9,
        Ok(String::from("first source output")),
    ));
    assert_eq!(
        action,
        Some(DispatcherAction::CallSource(9, 1, String::from("Y")))
    );
    let action = task.step(DispatcherEvent::SourceOutcome(
        9,
        Err(CityDataError::FetchError(String::from("boom"))),
    ));
    assert_eq!(
        action,
        Some(DispatcherAction::Respond(9, String::from("Request failed")))
    );
}

#[test]
fn concurrent_requests_resolve_independently() {
    // "CityTwo" resolves even though "CityOne" is still waiting on its source.
    let mut task = DispatcherTask::new(1);

    let action = task.step(request(1, "CityOne"));
    assert_eq!(
        action,
        Some(DispatcherAction::CallSource(1, 0, String::from("CityOne")))
    );
    let action = task.step(request(2, "CityTwo"));
    assert_eq!(
        action,
        Some(DispatcherAction::CallSource(2, 0, String::from("CityTwo")))
    );

    // The second request's outcome arrives first and is answered at once.
    let action = task.step(DispatcherEvent::SourceOutcome(2, Ok(String::from("two"))));
    assert_eq!(
        action,
        Some(DispatcherAction::Respond(2, String::from("two\n")))
    );

    // The first still completes on its own outcome.
    let action = task.step(DispatcherEvent::SourceOutcome(1, Ok(String::from("one"))));
    assert_eq!(
        action,
        Some(DispatcherAction::Respond(1, String::from("one\n")))
    );
}

#[test]
fn shutdown_then_request_is_rejected() {
    let mut task = DispatcherTask::new(2);

    let action = task.step(DispatcherEvent::Cancelled);
    assert_eq!(action, Some(DispatcherAction::Exit));

    // A request submitted after the shutdown signal is never served.
    let action = task.step(request(3, "Late City"));
    assert_eq!(action, Some(DispatcherAction::Rejected(3)));
}

#[test]
fn run_stops_at_shutdown_and_ignores_later_requests() {
    let mut task = DispatcherTask::new(2);
    let actions = task.run(vec![
        DispatcherEvent::Cancelled,
        request(4, "Never Served"),
    ]);
    assert_eq!(actions, vec![DispatcherAction::Exit]);
}

#[test]
fn duplicate_request_ids_are_rejected() {
    let mut task = DispatcherTask::new(2);
    task.step(request(5, "A"));
    let action = task.step(request(5, "A"));
    assert_eq!(action, Some(DispatcherAction::Rejected(5)));
}

#[test]
fn stale_source_outcomes_are_dropped() {
    let mut task = DispatcherTask::new(1);
    let action = task.step(DispatcherEvent::SourceOutcome(42, Ok(String::from("late"))));
    assert_eq!(action, None);
}

#[test]
fn aggregate_responses_concatenates_lines() {
    assert_eq!(
        aggregate_responses(vec![
            Ok(String::from("line")),
            Ok(String::from("line"))
        ] as Vec<CityDataResult<String>>),
        String::from("line\nline\n")
    );
    assert_eq!(
        aggregate_responses(Vec::new() as Vec<CityDataResult<String>>),
        String::from("")
    );
}

#[test]
fn aggregate_responses_fails_fast() {
    assert_eq!(
        aggregate_responses(vec![
            Ok(String::from("kept so far")),
            Err(CityDataError::HandleSendError)
        ]),
        String::from("Request failed")
    );
    assert_eq!(
        aggregate_responses(vec![
            Err(CityDataError::HandleRecvError),
            Ok(String::from("never consulted"))
        ]),
        String::from("Request failed")
    );
}

#[test]
fn dispatcher_error_messages() {
    assert_eq!(
        DispatcherError::MpscSendFailed.describe(),
        String::from("Failed to send request on mpsc, dropped unexpectedly?")
    );
    assert_eq!(
        DispatcherError::OneshotResponseFailed.describe(),
        String::from("Failed to send response on oneshot, dropped unexpectedly?")
    );
}

#[test]
fn rest_response_mapping() {
    let (status, body) = response_for_outcome(Some(Ok(String::from("all good\n"))));
    assert_eq!(status, 200);
    assert_eq!(body, String::from("all good\n"));

    let (status, body) = response_for_outcome(Some(Err(DispatcherError::OneshotResponseFailed)));
    assert_eq!(status, 500);
    assert_eq!(
        body,
        String::from("Failed to send response on oneshot, dropped unexpectedly?")
    );

    let (status, body) = response_for_outcome(None);
    assert_eq!(status, 408);
    assert_eq!(body, String::from("request timed out"));
}
