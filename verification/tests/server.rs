use besked::errors::FromCallError;
use besked::errors::MessageError;
use besked::server::accept_connection;
use besked::server::classify_ingest;
use besked::ConnectionWorker;
use besked::Identifier;
use besked::IdentifierAllocator;
use besked::IngestAction;
use besked::Message;
use besked::MessageLog;
use besked::Nickname;
use besked::StartupOption;

#[test]
fn identifiers_are_issued_in_order_and_never_zero() {
    let mut alloc = IdentifierAllocator::new();
    let first = alloc.allocate();
    let second = alloc.allocate();
    let third = alloc.allocate();
    assert_eq!(first.value(), 1);
    assert_eq!(second.value(), 2);
    assert_eq!(third.value(), 3);
    assert!(!first.is_unset());
}

#[test]
fn accepting_a_connection_frames_a_welcome() {
    let mut alloc = IdentifierAllocator::new();
    let (id, welcome) = accept_connection(&mut alloc);
    assert_eq!(id.value(), 1);
    assert_eq!(welcome.get_identifier().value(), 1);
    assert_eq!(welcome.get_content(), "");
    let (next, _) = accept_connection(&mut alloc);
    assert_eq!(next.value(), 2);
}

#[test]
fn ingest_outcomes_are_classified() {
    let ok = Ok(Message::empty());
    assert_eq!(classify_ingest(&ok), IngestAction::Append);
    let not_ready: Result<Message, MessageError> = Err(MessageError::TooShort(3));
    assert_eq!(classify_ingest(&not_ready), IngestAction::NotReady);
    let fatal: Result<Message, MessageError> = Err(MessageError::InvalidTimestamp);
    assert_eq!(classify_ingest(&fatal), IngestAction::Fatal);
    let closed: Result<Message, MessageError> = Err(MessageError::ConnectionClosed);
    assert_eq!(classify_ingest(&closed), IngestAction::Fatal);
    let dropped: Result<Message, MessageError> = Err(MessageError::ConnectionInterrupted);
    assert_eq!(classify_ingest(&dropped), IngestAction::Fatal);
    let late: Result<Message, MessageError> = Err(MessageError::Timeout);
    assert_eq!(classify_ingest(&late), IngestAction::Fatal);
}

#[test]
fn a_failed_send_desynchronizes_for_good() {
    let mut log = MessageLog::new();
    log.append(Message::empty());
    log.append(Message::empty());
    let mut worker = ConnectionWorker::new();
    assert!(worker.has_unseen(&log));
    assert!(worker.next_unsent(&log).is_some());
    worker.record_send(false);
    assert!(!worker.has_unseen(&log));
    assert!(worker.next_unsent(&log).is_none());
    worker.record_send(true);
    // Ingest may still grow the log; broadcast stays frozen.
    log.append(Message::empty());
    assert!(!worker.has_unseen(&log));
}

#[test]
fn two_workers_observe_one_order() {
    let ts = 1_000_000i64;
    let mut alloc = IdentifierAllocator::new();
    let mut log = MessageLog::new();
    let texts = ["first", "second", "third"];
    for text in texts.iter() {
        let (id, _welcome) = accept_connection(&mut alloc);
        let m = Message::empty()
            .identifier(id)
            .nickname(Nickname::from_str("peer").unwrap())
            .content(text);
        let bytes = m.to_bytes(ts).unwrap();
        let parsed = Message::from_bytes(&bytes).unwrap();
        assert_eq!(classify_ingest(&Ok(parsed)), IngestAction::Append);
        log.append(Message::from_bytes(&bytes).unwrap());
    }
    let mut fast = ConnectionWorker::new();
    let mut slow = ConnectionWorker::new();
    let mut fast_seen: Vec<String> = Vec::new();
    let mut slow_seen: Vec<String> = Vec::new();
    while let Some(m) = fast.next_unsent(&log) {
        fast_seen.push(m.get_content().to_string());
        fast.record_send(true);
    }
    while let Some(m) = slow.next_unsent(&log) {
        slow_seen.push(m.get_content().to_string());
        if slow_seen.len() == 2 {
            break;
        }
        slow.record_send(true);
    }
    assert_eq!(fast_seen, vec!["first", "second", "third"]);
    // The slower observer saw a prefix of the same order.
    assert_eq!(slow_seen, vec!["first", "second"]);
}

#[test]
fn a_welcomed_client_relays_the_log_verbatim() {
    let ts = 1_431_648_000i64;
    let mut alloc = IdentifierAllocator::new();
    let mut log = MessageLog::new();
    // Client A connects and is issued identifier 1.
    let (id_a, welcome_a) = accept_connection(&mut alloc);
    assert_eq!(id_a.value(), 1);
    assert_eq!(welcome_a.get_identifier().value(), 1);
    // A sends nickname "Ann" with content "hi"; the server ingests it.
    let sent = Message::empty()
        .identifier(id_a)
        .nickname(Nickname::from_str("Ann").unwrap())
        .content("hi");
    let wire = sent.to_bytes(ts).unwrap();
    let ingested = Message::from_bytes(&wire).unwrap();
    assert_eq!(classify_ingest(&Ok(ingested)), IngestAction::Append);
    log.append(Message::from_bytes(&wire).unwrap());
    // Client B connects and is issued identifier 2.
    let (id_b, _welcome_b) = accept_connection(&mut alloc);
    assert_eq!(id_b.value(), 2);
    // On B's next poll its worker sees log length 1 over cursor 0 and
    // re-serializes A's message for B's socket.
    let mut worker_b = ConnectionWorker::new();
    assert!(worker_b.has_unseen(&log));
    let unseen = worker_b.next_unsent(&log).unwrap();
    let relayed = unseen.to_bytes(unseen.get_written_on()).unwrap();
    worker_b.record_send(true);
    assert!(!worker_b.has_unseen(&log));
    let got = Message::from_bytes(&relayed).unwrap();
    assert_eq!(got.get_nickname().to_text(), "Ann");
    assert_eq!(got.get_content(), "hi");
    assert_eq!(got.get_identifier().value(), 1);
}

#[test]
fn startup_options_read_their_tokens() {
    assert_eq!(StartupOption::new(), StartupOption::Client);
    assert!(StartupOption::Server.as_server());
    assert!(!StartupOption::Server.as_client());
    assert!(StartupOption::Client.as_client());
    assert!(!StartupOption::Client.as_server());
    assert_eq!(StartupOption::from_flag("server"), Ok(StartupOption::Server));
    assert_eq!(StartupOption::from_flag("s"), Ok(StartupOption::Server));
    assert_eq!(StartupOption::from_flag("client"), Ok(StartupOption::Client));
    assert_eq!(StartupOption::from_flag("x"), Err(FromCallError::NotFound));
    assert_eq!(StartupOption::from_flag(""), Err(FromCallError::NotFound));
}

#[test]
fn allocator_feeds_distinct_identifiers_to_frames() {
    let mut alloc = IdentifierAllocator::new();
    let a = alloc.allocate();
    let b = alloc.allocate();
    assert_ne!(a.value(), b.value());
    let header_a = besked::Header::from_component(a);
    let decoded: Identifier = header_a.to_component(a.as_bytes().as_slice()).unwrap();
    assert_eq!(decoded.value(), a.value());
}
