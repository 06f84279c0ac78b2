use sunday::sunday_server::{ConnAction, Connection, ReadEvent, Registry};

fn data(bytes: &str) -> ReadEvent {
    ReadEvent::Data(bytes.as_bytes().to_vec())
}

#[test]
fn a_complete_line_is_parsed_dispatched_and_answered() {
    let mut c = Connection::new(2);
    let act = c.read(data("PASS foobar\n"));
    assert_eq!(act, ConnAction::Respond("OK: 0\n".as_bytes().to_vec()));
    assert!(c.dispatcher.authed);
    assert!(c.buffer.is_empty());
}

#[test]
fn partial_lines_accumulate_until_the_terminator() {
    let mut c = Connection::new(2);
    assert_eq!(c.read(data("PASS fo")), ConnAction::Rearm);
    assert_eq!(c.buffer, "PASS fo".as_bytes().to_vec());
    assert!(!c.dispatcher.authed);
    let act = c.read(data("obar\n"));
    assert_eq!(act, ConnAction::Respond("OK: 0\n".as_bytes().to_vec()));
    assert!(c.dispatcher.authed);
    assert!(c.buffer.is_empty());
}

#[test]
fn eof_and_errors_close_the_connection() {
    let mut c = Connection::new(2);
    assert_eq!(c.read(ReadEvent::Eof), ConnAction::Closed);
    assert!(c.closed);

    let mut c2 = Connection::new(3);
    assert_eq!(c2.read(ReadEvent::ReadError), ConnAction::Closed);
    assert!(c2.closed);
}

#[test]
fn would_block_is_nothing_to_do_yet() {
    let mut c = Connection::new(2);
    c.read(data("PAS"));
    assert_eq!(c.read(ReadEvent::WouldBlock), ConnAction::Rearm);
    assert_eq!(c.buffer, "PAS".as_bytes().to_vec());
}

#[test]
fn a_chunk_of_several_lines_is_one_parse_attempt() {
    // Only the trailing boundary of the buffer is checked, so both lines
    // arrive in a single parse attempt over the whole buffer; the grammar
    // recognizes the command at its start.
    let mut c = Connection::new(2);
    let act = c.read(data("USER a\nUSER b\n"));
    assert_eq!(act, ConnAction::Respond("OK:\n".as_bytes().to_vec()));
    assert_eq!(c.dispatcher.user, "a");
}

#[test]
fn unparseable_lines_draw_the_generic_error_and_keep_the_connection() {
    let mut c = Connection::new(2);
    let act = c.read(data("NONSENSE\n"));
    assert_eq!(act, ConnAction::Respond("ERR 415 Invalid command\n".as_bytes().to_vec()));
    assert!(!c.closed);
}

#[test]
fn tokens_start_at_two_and_count_up() {
    let mut reg = Registry::new();
    assert_eq!(reg.insert(), Some(2));
    assert_eq!(reg.insert(), Some(3));
    assert_eq!(reg.insert(), Some(4));
}

#[test]
fn a_closed_connection_is_removed_and_never_read_again() {
    let mut reg = Registry::new();
    let token = reg.insert().unwrap();
    assert!(reg.get(token).is_some());

    assert_eq!(reg.ready(token, ReadEvent::Eof), ConnAction::Closed);
    assert!(reg.get(token).is_none());

    // The entry left the registry exactly once; a second removal is a no-op.
    assert!(!reg.remove(token));

    // No further read reaches a session: the token draws no action at all.
    assert_eq!(reg.ready(token, data("PASS foobar\n")), ConnAction::Closed);
    assert!(reg.get(token).is_none());
}

#[test]
fn removal_frees_the_token_for_reuse() {
    let mut reg = Registry::new();
    let t1 = reg.insert().unwrap();
    let t2 = reg.insert().unwrap();
    assert!(reg.remove(t1));
    assert_eq!(reg.insert(), Some(t1));
    assert!(reg.get(t2).is_some());
}

#[test]
fn sessions_on_two_connections_are_independent() {
    let mut reg = Registry::new();
    let t1 = reg.insert().unwrap();
    let t2 = reg.insert().unwrap();

    let act = reg.ready(t1, data("PASS foobar\n"));
    assert_eq!(act, ConnAction::Respond("OK: 0\n".as_bytes().to_vec()));

    assert!(reg.get(t1).unwrap().dispatcher.authed);
    assert!(!reg.get(t2).unwrap().dispatcher.authed);

    let act = reg.ready(t2, data("USER someone\n"));
    assert_eq!(act, ConnAction::Respond("OK:\n".as_bytes().to_vec()));
    assert_eq!(reg.get(t2).unwrap().dispatcher.user, "someone");
    assert_eq!(reg.get(t1).unwrap().dispatcher.user, "");
}

#[test]
fn a_session_over_one_connection() {
    let mut reg = Registry::new();
    let token = reg.insert().unwrap();
    assert_eq!(
        reg.ready(token, data("USER rossdylan\n")),
        ConnAction::Respond("OK:\n".as_bytes().to_vec())
    );
    assert_eq!(
        reg.ready(token, data("PASS foobar\n")),
        ConnAction::Respond("OK: 0\n".as_bytes().to_vec())
    );
    assert_eq!(
        reg.ready(token, data("MACHINE ld\n")),
        ConnAction::Respond("OK: Welcome to LittleDrink\n".as_bytes().to_vec())
    );
    assert_eq!(
        reg.ready(token, data("DROP 3 5\n")),
        ConnAction::Respond("ERR 420 Unimplemented\n".as_bytes().to_vec())
    );
    let c = reg.get(token).unwrap();
    assert_eq!(c.dispatcher.user, "rossdylan");
    assert!(c.dispatcher.authed);
}
