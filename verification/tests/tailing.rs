use ftail::tail_step;
use ftail::Exclude;
use ftail::Include;
use ftail::JsonReader;
use ftail::ReadError;
use ftail::Reader;
use ftail::Source;
use ftail::SourceType;
use ftail::TailEffect;
use ftail::TailEvent;
use ftail::TailState;

fn json_reader() -> JsonReader {
    JsonReader::new(
        Source::new(SourceType::File("app.log".to_string())),
        Exclude::ExcludeMany(Vec::new()),
        Include::IncludeMany(Vec::new()),
    )
}

#[test]
fn follow_mode_suspends_resumes_and_delivers_only_new_lines() {
    let mut reader = json_reader();
    let mut state = TailState::Draining;
    let mut delivered: Vec<String> = Vec::new();
    let follow = true;
    let is_stdin = false;

    // drain the file as it stands
    let before = "{\"n\":1}\n{\"n\":2}\n";
    loop {
        assert!(matches!(state, TailState::Draining));
        let event = match reader.read_fields(Some(before)) {
            Ok(rec) => TailEvent::Fields(rec),
            Err(e) => TailEvent::ReadFailed(e),
        };
        let (next, effect) = tail_step(state, event, follow, is_stdin);
        state = next;
        match effect {
            TailEffect::Emit(rec) => delivered.push(rec.get("n").unwrap().value.clone()),
            TailEffect::Quiet => break,
            _ => panic!("unexpected effect while draining"),
        }
    }
    assert_eq!(vec!["1".to_string(), "2".to_string()], delivered);
    // end-of-stream in follow mode suspends the loop
    assert!(matches!(state, TailState::Waiting));

    // a line is appended and the watcher signals a change
    let after = "{\"n\":1}\n{\"n\":2}\n{\"n\":3}\n";
    let (next, effect) = tail_step(state, TailEvent::Notified, follow, is_stdin);
    state = next;
    assert!(matches!(state, TailState::Draining));
    assert!(matches!(effect, TailEffect::Quiet));

    // the resumed drain delivers exactly the appended line, no re-delivery
    let rec = reader.read_fields(Some(after)).unwrap();
    let (next, effect) = tail_step(state, TailEvent::Fields(rec), follow, is_stdin);
    state = next;
    match effect {
        TailEffect::Emit(rec) => delivered.push(rec.get("n").unwrap().value.clone()),
        _ => panic!("expected a record"),
    }
    assert_eq!(vec!["1".to_string(), "2".to_string(), "3".to_string()], delivered);

    // and is caught up again
    let e = reader.read_fields(Some(after)).unwrap_err();
    let (next, _) = tail_step(state, TailEvent::ReadFailed(e), follow, is_stdin);
    assert!(matches!(next, TailState::Waiting));
}

#[test]
fn without_follow_mode_end_of_stream_terminates() {
    let (next, effect) = tail_step(
        TailState::Draining,
        TailEvent::ReadFailed(ReadError::Eof),
        false,
        false,
    );
    assert!(matches!(next, TailState::Terminated));
    assert!(matches!(effect, TailEffect::Quiet));
}

#[test]
fn stdin_terminates_at_end_of_stream_even_in_follow_mode() {
    let (next, _) = tail_step(
        TailState::Draining,
        TailEvent::ReadFailed(ReadError::Eof),
        true,
        true,
    );
    assert!(matches!(next, TailState::Terminated));
}

#[test]
fn parse_failures_are_reported_and_draining_goes_on() {
    let (next, effect) = tail_step(
        TailState::Draining,
        TailEvent::ReadFailed(ReadError::ParseFail("bad line".to_string())),
        true,
        false,
    );
    assert!(matches!(next, TailState::Draining));
    match effect {
        TailEffect::Report(e) => assert!(e == ReadError::ParseFail("bad line".to_string())),
        _ => panic!("expected a report"),
    }
}

#[test]
fn watch_failures_are_reported_and_waiting_goes_on() {
    let (next, effect) = tail_step(
        TailState::Waiting,
        TailEvent::WatchFailed("watch broke".to_string()),
        true,
        false,
    );
    assert!(matches!(next, TailState::Waiting));
    match effect {
        TailEffect::ReportWatch(msg) => assert_eq!("watch broke", msg),
        _ => panic!("expected a watch report"),
    }
}

#[test]
fn closed_watch_channel_falls_back_to_draining() {
    let (next, effect) = tail_step(TailState::Waiting, TailEvent::WatchClosed, true, false);
    assert!(matches!(next, TailState::Draining));
    assert!(matches!(effect, TailEffect::Quiet));
}

#[test]
fn terminated_stays_terminated() {
    let (next, effect) = tail_step(TailState::Terminated, TailEvent::Notified, true, false);
    assert!(matches!(next, TailState::Terminated));
    assert!(matches!(effect, TailEffect::Quiet));
}
