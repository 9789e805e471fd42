use logtail::cursor::TailState;
use logtail::dispatch::format_message;
use logtail::dispatch::process_chunk;
use logtail::matcher::classify;
use logtail::matcher::Event;

#[test]
fn join_line_yields_one_join_event() {
    let events = classify(b"[Server thread/INFO]: Alice joined the game");
    assert_eq!(
        events,
        vec![Event::Joined { actor_name: b"Alice".to_vec() }]
    );
}

#[test]
fn leave_line_yields_one_leave_event() {
    let events = classify(b"[Server thread/INFO]: Bob left the game");
    assert_eq!(events, vec![Event::Left { actor_name: b"Bob".to_vec() }]);
}

#[test]
fn unrelated_line_yields_nothing() {
    let events = classify(b"[Server thread/INFO]: some unrelated message");
    assert_eq!(events, Vec::<Event>::new());
}

#[test]
fn missing_prefix_yields_nothing() {
    let events = classify(b"Alice joined the game");
    assert_eq!(events, Vec::<Event>::new());
}

#[test]
fn empty_actor_name_is_still_an_event() {
    let events = classify(b"[Server thread/INFO]:  joined the game");
    assert_eq!(events, vec![Event::Joined { actor_name: b"".to_vec() }]);
}

#[test]
fn greedy_capture_runs_to_the_last_marker() {
    let events = classify(b"[Server thread/INFO]: A joined the game joined the game");
    assert_eq!(
        events,
        vec![Event::Joined { actor_name: b"A joined the game".to_vec() }]
    );
}

#[test]
fn one_line_can_yield_both_events() {
    let events = classify(b"[Server thread/INFO]: X joined the game left the game");
    assert_eq!(
        events,
        vec![
            Event::Joined { actor_name: b"X".to_vec() },
            Event::Left { actor_name: b"X joined the game".to_vec() },
        ]
    );
}

#[test]
fn messages_are_fixed_sentences() {
    let joined = format_message(&Event::Joined { actor_name: b"Alice".to_vec() });
    assert_eq!(joined, b"Player joined: Alice".to_vec());
    let left = format_message(&Event::Left { actor_name: b"Bob".to_vec() });
    assert_eq!(left, b"Player left: Bob".to_vec());
}

#[test]
fn chunk_processing_builds_one_request_per_event() {
    let mut state = TailState::new(0);
    let bytes: &[u8] =
        b"[Server thread/INFO]: Alice joined the game\n[Server thread/INFO]: Bob left the game\nrest";
    let reqs = process_chunk(&mut state, bytes, b"chat42");
    assert_eq!(reqs.len(), 2);
    assert_eq!(reqs[0].destination, b"chat42".to_vec());
    assert_eq!(reqs[0].text, b"Player joined: Alice".to_vec());
    assert_eq!(reqs[1].destination, b"chat42".to_vec());
    assert_eq!(reqs[1].text, b"Player left: Bob".to_vec());
    assert_eq!(state.offset, (bytes.len() - 4) as u64);
}

#[test]
fn failed_delivery_does_not_stop_later_deliveries() {
    let mut state = TailState::new(0);
    let bytes: &[u8] =
        b"[Server thread/INFO]: A joined the game\n[Server thread/INFO]: B joined the game\n";
    let reqs = process_chunk(&mut state, bytes, b"chat42");
    assert_eq!(reqs.len(), 2);
    // Delivery is attempted per request; the first one failing changes
    // nothing about the requests that follow.
    let mut attempted: Vec<Vec<u8>> = Vec::new();
    let mut failures: usize = 0;
    for (k, req) in reqs.iter().enumerate() {
        let outcome: Result<(), ()> = if k == 0 { Err(()) } else { Ok(()) };
        attempted.push(req.text.clone());
        if outcome.is_err() {
            failures += 1;
        }
    }
    assert_eq!(failures, 1);
    assert_eq!(
        attempted,
        vec![
            b"Player joined: A".to_vec(),
            b"Player joined: B".to_vec(),
        ]
    );
    // Later reads keep working after a failure as well.
    let more = process_chunk(&mut state, b"[Server thread/INFO]: C left the game\n", b"chat42");
    assert_eq!(more.len(), 1);
    assert_eq!(more[0].text, b"Player left: C".to_vec());
}
