use std::io::{BufRead, Cursor};

use blackbird::comms::{client_input_step, ConsoleStep};

/// Feeds console input through the client's decisions, as its input loop does,
/// and collects what would be sent to the server.
fn sent_to_server(input: &[u8]) -> String {
    let mut stdin = Cursor::new(input);
    let mut sent = String::new();
    let mut line = String::new();
    loop {
        line.clear();
        let bytes_read = stdin.read_line(&mut line).expect("read line");
        match client_input_step(bytes_read, &line) {
            ConsoleStep::Quit => break,
            ConsoleStep::Send(text) => sent.push_str(&text),
        }
    }
    sent
}

#[test]
fn run_chat_session_sends_lines_until_exit() {
    let received = sent_to_server(b"hello\nexit\n");
    assert_eq!(received, "hello\n");
}

#[test]
fn input_loop_stops_at_end_of_input() {
    assert_eq!(sent_to_server(b"one\ntwo"), "one\ntwo");
    assert_eq!(sent_to_server(b""), "");
    assert_eq!(sent_to_server(b"a\n  EXIT  \nb\n"), "a\n");
}
