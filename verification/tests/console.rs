//! The two directions of a console.
use blinools::sandbox::console::queue::{DrainStep, FilteredQueue, WriteOutcome};
use blinools::sandbox::console::{
    pollfd, Console, ConsoleAction, ConsoleEvent, ConsoleExit, ConsoleFailure, PollOutcome,
    PollRequest, ReadOutcome, Ready, CONSOLE_BUFFER_LIMIT,
};

fn ready(stdin: bool, guest_output: bool, guest_input: bool, stdout: bool) -> ConsoleEvent {
    ConsoleEvent::Polled(PollOutcome::Ready(Ready { stdin, guest_output, guest_input, stdout }))
}

fn quiet() -> ConsoleEvent {
    ConsoleEvent::Signals { terminated: false, window_resized: false }
}

fn read(bytes: &[u8]) -> ReadOutcome {
    ReadOutcome::Read(bytes.to_vec())
}

#[test]
fn guest_output_is_filtered_on_its_way_to_the_terminal() {
    let mut console = Console::new();
    assert_eq!(console.read_until_terminated(ConsoleEvent::Started), ConsoleAction::CheckSignals);
    assert_eq!(
        console.read_until_terminated(quiet()),
        ConsoleAction::Poll(PollRequest {
            stdin: true,
            guest_output: true,
            guest_input: false,
            stdout: false,
        })
    );
    assert_eq!(
        console.read_until_terminated(ready(false, true, false, false)),
        ConsoleAction::ReadGuest
    );
    assert_eq!(
        console.read_until_terminated(ConsoleEvent::GuestRead(read(b"a\x1b]0;t\x07b"))),
        ConsoleAction::CheckSignals
    );
    assert_eq!(console.to_terminal.pending(), b"ab");
    assert_eq!(
        console.read_until_terminated(quiet()),
        ConsoleAction::Poll(PollRequest {
            stdin: true,
            guest_output: true,
            guest_input: false,
            stdout: true,
        })
    );
    assert_eq!(
        console.read_until_terminated(ready(false, false, false, true)),
        ConsoleAction::WriteStdout
    );
    assert_eq!(
        console.read_until_terminated(ConsoleEvent::StdoutWritten(WriteOutcome::Wrote(1))),
        ConsoleAction::WriteStdout
    );
    assert_eq!(console.to_terminal.pending(), b"b");
    assert_eq!(
        console.read_until_terminated(ConsoleEvent::StdoutWritten(WriteOutcome::Interrupted)),
        ConsoleAction::WriteStdout
    );
    assert_eq!(
        console.read_until_terminated(ConsoleEvent::StdoutWritten(WriteOutcome::Wrote(1))),
        ConsoleAction::CheckSignals
    );
}

#[test]
fn what_the_user_types_goes_to_the_guest_as_it_is() {
    let mut console = Console::new();
    assert_eq!(
        console.read_until_terminated(ready(true, false, true, false)),
        ConsoleAction::ReadStdin
    );
    assert_eq!(
        console.read_until_terminated(ConsoleEvent::StdinRead(read(b"\x1b]0;t\x07"))),
        ConsoleAction::WriteGuest
    );
    assert_eq!(console.to_guest.pending(), b"\x1b]0;t\x07");
    assert_eq!(
        console.read_until_terminated(ConsoleEvent::GuestWritten(WriteOutcome::WouldBlock)),
        ConsoleAction::CheckSignals
    );
    assert_eq!(console.to_guest.len(), 6);
}

#[test]
fn the_console_closes_when_the_guest_is_gone_and_all_is_shown() {
    let mut console = Console::new();
    console.read_until_terminated(ready(false, true, false, false));
    console.read_until_terminated(ConsoleEvent::GuestRead(read(b"bye")));
    console.read_until_terminated(ready(false, true, false, false));
    console.read_until_terminated(ConsoleEvent::GuestRead(read(b"")));
    assert!(console.guest_gone);
    assert_eq!(
        console.read_until_terminated(quiet()),
        ConsoleAction::Poll(PollRequest {
            stdin: true,
            guest_output: false,
            guest_input: false,
            stdout: true,
        })
    );
    console.read_until_terminated(ready(false, false, false, true));
    console.read_until_terminated(ConsoleEvent::StdoutWritten(WriteOutcome::Wrote(3)));
    assert_eq!(
        console.read_until_terminated(ConsoleEvent::WindowRefreshed),
        ConsoleAction::Exit(ConsoleExit::GuestGone)
    );
}

#[test]
fn signals_come_first() {
    let mut console = Console::new();
    assert_eq!(
        console.read_until_terminated(ConsoleEvent::Signals {
            terminated: true,
            window_resized: true,
        }),
        ConsoleAction::Exit(ConsoleExit::Terminated)
    );
    assert_eq!(
        console.read_until_terminated(ConsoleEvent::Signals {
            terminated: false,
            window_resized: true,
        }),
        ConsoleAction::RefreshWindow
    );
    assert_eq!(
        console.read_until_terminated(ConsoleEvent::Polled(PollOutcome::Interrupted)),
        ConsoleAction::CheckSignals
    );
}

#[test]
fn closed_input_is_not_read_again() {
    let mut console = Console::new();
    console.read_until_terminated(ready(true, false, false, false));
    console.read_until_terminated(ConsoleEvent::StdinRead(ReadOutcome::Failed));
    assert!(!console.stdin_open);
    assert_eq!(
        console.read_until_terminated(quiet()),
        ConsoleAction::Poll(PollRequest {
            stdin: false,
            guest_output: true,
            guest_input: false,
            stdout: false,
        })
    );
}

#[test]
fn a_full_queue_stops_its_source() {
    let mut console = Console::new();
    console.read_until_terminated(ready(true, true, false, false));
    console.read_until_terminated(ConsoleEvent::StdinRead(ReadOutcome::Read(vec![
        b'x';
        CONSOLE_BUFFER_LIMIT
    ])));
    console.read_until_terminated(ConsoleEvent::GuestRead(ReadOutcome::Read(vec![
        b'x';
        CONSOLE_BUFFER_LIMIT
    ])));
    assert_eq!(
        console.read_until_terminated(quiet()),
        ConsoleAction::Poll(PollRequest {
            stdin: false,
            guest_output: false,
            guest_input: true,
            stdout: true,
        })
    );
}

#[test]
fn each_failure_ends_the_console() {
    let mut console = Console::new();
    assert_eq!(
        console.read_until_terminated(ConsoleEvent::Polled(PollOutcome::Failed)),
        ConsoleAction::Fail(ConsoleFailure::Waiting)
    );
    assert_eq!(
        console.read_until_terminated(ConsoleEvent::GuestWritten(WriteOutcome::Failed)),
        ConsoleAction::Fail(ConsoleFailure::ForwardingInput)
    );
    assert_eq!(
        console.read_until_terminated(ConsoleEvent::StdoutWritten(WriteOutcome::Failed)),
        ConsoleAction::Fail(ConsoleFailure::WritingOutput)
    );
    assert_eq!(ConsoleFailure::Waiting.as_str(), "waiting for guest console activity");
    assert_eq!(ConsoleFailure::ForwardingInput.as_str(), "forwarding input to the guest console");
    assert_eq!(ConsoleFailure::WritingOutput.as_str(), "writing guest console output");
}

#[test]
fn the_slave_is_handed_out_once() {
    let mut console = Console::new();
    assert!(console.take_slave().is_ok());
    assert_eq!(console.take_slave().unwrap_err(), "guest console was already handed out");
}

#[test]
fn descriptors_that_nothing_is_wanted_of_are_skipped() {
    assert_eq!(pollfd(7, true), 7);
    assert_eq!(pollfd(7, false), -1);
}

#[test]
fn a_queue_gives_bytes_back_in_order() {
    let mut queue = FilteredQueue::unfiltered();
    assert_eq!(queue.begin_drain(), DrainStep::Done);
    queue.push(b"abc");
    assert_eq!(queue.begin_drain(), DrainStep::Write);
    assert_eq!(queue.drain_into(WriteOutcome::Wrote(2)), DrainStep::Write);
    queue.push(b"d");
    assert_eq!(queue.pending(), b"cd");
    assert_eq!(queue.drain_into(WriteOutcome::WouldBlock), DrainStep::Done);
    assert_eq!(queue.drain_into(WriteOutcome::Failed), DrainStep::Fail);
    assert_eq!(queue.drain_into(WriteOutcome::Wrote(2)), DrainStep::Done);
    assert!(queue.is_empty());
}

#[test]
fn an_unfiltered_queue_filters_nothing() {
    let mut queue = FilteredQueue::unfiltered();
    queue.filter_in(b"\x1b]0;t\x07");
    assert_eq!(queue.pending(), b"\x1b]0;t\x07");
    let mut queue = FilteredQueue::filtered();
    queue.filter_in(b"\x1b]0;t\x07");
    queue.compact();
    assert_eq!(queue.len(), 0);
}

#[test]
fn the_terminal_gets_all_that_the_filter_lets_through_before_the_end() {
    let mut console = Console::new();
    let mut shown = Vec::new();
    let mut pieces: Vec<&[u8]> = vec![b"a\xc2", b"\x9db\x1b]0;t", b"\x07c", b""];
    let mut event = ConsoleEvent::Started;
    loop {
        event = match console.read_until_terminated(event) {
            ConsoleAction::CheckSignals => quiet(),
            ConsoleAction::Poll(request) => {
                ready(false, request.guest_output, request.guest_input, request.stdout)
            }
            ConsoleAction::ReadGuest => ConsoleEvent::GuestRead(read(pieces.remove(0))),
            ConsoleAction::WriteStdout => {
                shown.push(console.to_terminal.pending()[0]);
                ConsoleEvent::StdoutWritten(WriteOutcome::Wrote(1))
            }
            ConsoleAction::Exit(exit) => {
                assert_eq!(exit, ConsoleExit::GuestGone);
                break;
            }
            action => panic!("{action:?}"),
        };
    }
    assert_eq!(shown, b"abc");
}
