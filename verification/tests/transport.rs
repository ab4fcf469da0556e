use ssbt::errors::EncodeError;
use ssbt::pipeline::{combine_results, consumer_step, producer_step, ConduitMessage,
    ConsumerAction, ConsumerEvent, ConsumerState, ProducerAction, ProducerEvent, ProducerState};
use ssbt::timeutil::{dos_datetime, get_modification_time};

#[test]
fn write_failure_aborts_and_stays_terminal() {
    // A chunk arrives and is written.
    let (s, a) = consumer_step(
        ConsumerState::Draining,
        ConsumerEvent::Received(ConduitMessage::Chunk(vec![1, 2, 3])),
    );
    assert_eq!(s, ConsumerState::Draining);
    assert!(matches!(a, ConsumerAction::Write(b) if b == vec![1, 2, 3]));
    // The destination rejects the write: the run reports SinkWriteError.
    let (s, a) = consumer_step(s, ConsumerEvent::WriteFailed);
    assert_eq!(s, ConsumerState::Failed(EncodeError::SinkWriteError));
    assert!(matches!(a, ConsumerAction::Abort(EncodeError::SinkWriteError)));
    // From the failed state nothing is ever written again.
    let events = [
        ConsumerEvent::Received(ConduitMessage::Chunk(vec![9])),
        ConsumerEvent::WriteOk,
        ConsumerEvent::Closed,
    ];
    let mut cur = s;
    for e in events {
        let (next, act) = consumer_step(cur, e);
        assert_eq!(next, ConsumerState::Failed(EncodeError::SinkWriteError));
        assert!(!matches!(act, ConsumerAction::Write(_)));
        cur = next;
    }
}

#[test]
fn producer_stops_after_refused_send() {
    let (s, a) = producer_step(ProducerState::Producing, ProducerEvent::SendFailed);
    assert_eq!(s, ProducerState::Stopped(EncodeError::ChannelClosed));
    assert!(matches!(a, ProducerAction::CloseConduit));
    // No chunk is issued from a stopped producer.
    let (s2, a2) = producer_step(s, ProducerEvent::ChunkReady(vec![1]));
    assert_eq!(s2, ProducerState::Stopped(EncodeError::ChannelClosed));
    assert!(!matches!(a2, ProducerAction::Send(_)));
}

#[test]
fn producer_reports_source_failure_once() {
    let (s, a) = producer_step(
        ProducerState::Producing,
        ProducerEvent::SourceFailed(EncodeError::ReadError),
    );
    assert_eq!(s, ProducerState::Stopped(EncodeError::ReadError));
    assert!(matches!(a, ProducerAction::Send(ConduitMessage::Failure(EncodeError::ReadError))));
    // And nothing further afterwards.
    let (_, a2) = producer_step(s, ProducerEvent::SendOk);
    assert!(matches!(a2, ProducerAction::CloseConduit));
}

#[test]
fn clean_stream_finishes() {
    let (s, a) = consumer_step(ConsumerState::Draining, ConsumerEvent::WriteOk);
    assert_eq!(s, ConsumerState::Draining);
    assert!(matches!(a, ConsumerAction::Receive));
    let (s, a) = consumer_step(s, ConsumerEvent::Closed);
    assert_eq!(s, ConsumerState::Done);
    assert!(matches!(a, ConsumerAction::Finish));
    let (s, a) = producer_step(ProducerState::Producing, ProducerEvent::EntriesDone);
    assert_eq!(s, ProducerState::Completed);
    assert!(matches!(a, ProducerAction::CloseConduit));
}

#[test]
fn one_terminal_result() {
    assert!(combine_results(Ok(()), Ok(())).is_ok());
    assert_eq!(combine_results(Err(EncodeError::ReadError), Ok(())), Err(EncodeError::ReadError));
    assert_eq!(
        combine_results(Ok(()), Err(EncodeError::SinkWriteError)),
        Err(EncodeError::SinkWriteError)
    );
    assert_eq!(
        combine_results(
            Err(EncodeError::ChannelClosed),
            Err(EncodeError::SinkWriteError),
        ),
        Err(EncodeError::ChannelClosed)
    );
}

#[test]
fn error_categories_are_distinct() {
    let all = [
        EncodeError::SourceNotFound,
        EncodeError::SourceNotRegularFile,
        EncodeError::ReadError,
        EncodeError::Encode,
        EncodeError::ChannelClosed,
        EncodeError::SinkWriteError,
        EncodeError::UploadError(503),
    ];
    let mut codes: Vec<i32> = all.iter().map(|e| e.exit_code()).collect();
    codes.sort();
    codes.dedup();
    assert_eq!(codes.len(), all.len());
    for e in all {
        assert!(!e.describe().is_empty());
    }
}

#[test]
fn bounded_conduit_refuses_excess() {
    // Capacity 1, and a consuming side that never reads: one chunk is held,
    // the next is refused rather than buffered -- the producing side cannot
    // accumulate unread chunks.
    let (tx, rx) = tokio::sync::mpsc::channel::<Vec<u8>>(1);
    assert!(tx.try_send(vec![0u8; 4096]).is_ok());
    for _ in 0..16 {
        assert!(tx.try_send(vec![0u8; 4096]).is_err());
    }
    drop(rx);
    // Once the consuming side is gone, sending fails outright.
    assert!(tx.try_send(vec![1]).is_err());
}

#[test]
fn dos_stamp_encoding() {
    // 2024-06-15 12:30:45 UTC.
    let (t, d) = dos_datetime(2024, 6, 15, 12, 30, 45);
    assert_eq!(d, ((2024 - 1980) << 9 | 6 << 5 | 15) as u16);
    assert_eq!(t, (12 << 11 | 30 << 5 | 45 / 2) as u16);
    // Years outside the window clamp.
    assert_eq!(dos_datetime(1970, 1, 1, 0, 0, 0), (0, 33));
    let (t, d) = dos_datetime(3000, 1, 1, 0, 0, 0);
    assert_eq!(d, (127 << 9 | 12 << 5 | 31) as u16);
    assert_eq!(t, (23 << 11 | 59 << 5 | 29) as u16);
}

#[test]
fn civil_time_of_timestamps() {
    // A pre-window stamp clamps to the format's first day.
    assert_eq!(get_modification_time(0), (0, 33));
    // 2024-06-15 12:30:45 UTC: the calendar conversion feeds the encoding.
    let (t, d) = get_modification_time(1718454645);
    assert_eq!(d, ((2024 - 1980) << 9 | 6 << 5 | 15) as u16);
    assert_eq!(t, (12 << 11 | 30 << 5 | 45 / 2) as u16);
    // Far beyond the window clamps to the format's last moment.
    let (t, d) = get_modification_time(100_000_000_000);
    assert_eq!(d, (127 << 9 | 12 << 5 | 31) as u16);
    assert_eq!(t, (23 << 11 | 59 << 5 | 29) as u16);
}

#[test]
fn skip_patterns_filter_paths() {
    let pats = ssbt::exclude::compile_patterns(&vec!["*.log".to_string(), "tmp/*".to_string()])
        .unwrap();
    assert!(ssbt::exclude::is_skipped(&"debug.log".to_string(), &pats));
    assert!(ssbt::exclude::is_skipped(&"tmp/x".to_string(), &pats));
    assert!(!ssbt::exclude::is_skipped(&"src/main.rs".to_string(), &pats));
    let kept = ssbt::exclude::filter_skipped(
        vec!["a.log".to_string(), "keep.txt".to_string(), "tmp/b".to_string()],
        &pats,
    );
    assert_eq!(kept, vec!["keep.txt".to_string()]);
    // A malformed pattern refuses the whole list.
    assert!(ssbt::exclude::compile_patterns(&vec!["[".to_string()]).is_none());
}

#[test]
fn command_words() {
    let words = ssbt::shell::split_command_words(b"sh -c  echo");
    let views: Vec<&[u8]> = words.iter().map(|w| w.as_slice()).collect();
    assert_eq!(views, vec![b"sh".as_slice(), b"-c".as_slice(), b"echo".as_slice()]);
    assert_eq!(ssbt::shell::split_command_words(b"  ").len(), 0);
    assert_eq!(ssbt::shell::split_command_words(b"one").len(), 1);
}
