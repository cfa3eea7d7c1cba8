//! The console of a sandbox.
//!
//! The guest gets the slave side of a pseudo terminal. What it writes comes out of the master
//! side and goes to the terminal through a filter, what the user types goes the other way.
//! Here is decided what to do next; doing it is up to the caller, who reports back what came
//! of it.
pub mod filter;
pub mod queue;
pub mod terminal;

use vstd::prelude::*;

use crate::sandbox::console::queue::{DrainStep, FilteredQueue, WriteOutcome};
use crate::text;

verus! {

/// A source is not read as long as this much of what it wrote is queued for the other side.
pub const CONSOLE_BUFFER_LIMIT: usize = 262144;

/// Why the console is closed.
#[derive(Clone, Copy, Debug, PartialEq, Eq, Structural)]
pub enum ConsoleExit {
    /// The guest is gone, and all that it wrote has reached the terminal.
    GuestGone,
    /// A signal asked to end.
    Terminated,
}

/// What to wait for.
#[derive(Clone, Copy, Debug, PartialEq, Eq, Structural)]
pub struct PollRequest {
    /// Input from the user.
    pub stdin: bool,
    /// Output from the guest.
    pub guest_output: bool,
    /// Room for input to the guest.
    pub guest_input: bool,
    /// Room for output to the terminal.
    pub stdout: bool,
}

/// What is ready.
#[derive(Clone, Copy, Debug, PartialEq, Eq, Structural)]
pub struct Ready {
    pub stdin: bool,
    pub guest_output: bool,
    pub guest_input: bool,
    pub stdout: bool,
}

/// What waiting came to.
#[derive(Clone, Copy, Debug, PartialEq, Eq, Structural)]
pub enum PollOutcome {
    Ready(Ready),
    /// A signal came in between.
    Interrupted,
    Failed,
}

/// What an attempt to read came to. Reading nothing means that the other side is gone.
pub enum ReadOutcome {
    Read(Vec<u8>),
    Failed,
}

/// What failed.
#[derive(Clone, Copy, Debug, PartialEq, Eq, Structural)]
pub enum ConsoleFailure {
    Waiting,
    ForwardingInput,
    WritingOutput,
}

impl ConsoleFailure {
    /// What was being done, in words.
    pub open spec fn text(&self) -> Seq<char> {
        match self {
            ConsoleFailure::Waiting => "waiting for guest console activity"@,
            ConsoleFailure::ForwardingInput => "forwarding input to the guest console"@,
            ConsoleFailure::WritingOutput => "writing guest console output"@,
        }
    }

    /// What was being done, in words.
    pub fn as_str(&self) -> (text: &str)
        ensures
            text@ == self.text(),
    {
        match self {
            ConsoleFailure::Waiting => "waiting for guest console activity",
            ConsoleFailure::ForwardingInput => "forwarding input to the guest console",
            ConsoleFailure::WritingOutput => "writing guest console output",
        }
    }
}

/// What happened.
pub enum ConsoleEvent {
    /// The console was opened.
    Started,
    /// Which signals have come in.
    Signals { terminated: bool, window_resized: bool },
    /// The guest was told the size of the window.
    WindowRefreshed,
    Polled(PollOutcome),
    StdinRead(ReadOutcome),
    GuestWritten(WriteOutcome),
    GuestRead(ReadOutcome),
    StdoutWritten(WriteOutcome),
}

/// What to do next.
#[derive(Clone, Copy, Debug, PartialEq, Eq, Structural)]
pub enum ConsoleAction {
    /// Look which signals have come in.
    CheckSignals,
    /// Tell the guest the size of the window.
    RefreshWindow,
    Poll(PollRequest),
    ReadStdin,
    /// Write what is queued for the guest.
    WriteGuest,
    ReadGuest,
    /// Write what is queued for the terminal.
    WriteStdout,
    Exit(ConsoleExit),
    Fail(ConsoleFailure),
}

/// The two directions of a console.
pub struct Console {
    pub to_terminal: FilteredQueue,
    pub to_guest: FilteredQueue,
    pub stdin_open: bool,
    pub guest_gone: bool,
    /// What is ready and was not dealt with yet.
    pub todo: Ready,
    /// Whether the guest's side was not handed out yet.
    pub has_slave: bool,
    /// All that the terminal has taken.
    pub shown: Ghost<Seq<u8>>,
    /// All that the guest has taken.
    pub delivered: Ghost<Seq<u8>>,
}

/// The mathematical value of a console.
pub struct ConsoleView {
    /// What is queued for the terminal.
    pub to_terminal: Seq<u8>,
    /// What is queued for the guest.
    pub to_guest: Seq<u8>,
    /// What the filter has read since it last started anew.
    pub chunks: Seq<Seq<u8>>,
    /// How many bytes the filter has read since it last wrote something.
    pub silence: nat,
    pub stdin_open: bool,
    pub guest_gone: bool,
    pub todo: Ready,
    pub has_slave: bool,
    /// All that the terminal has taken.
    pub shown: Seq<u8>,
    /// All that the guest has taken.
    pub delivered: Seq<u8>,
}

impl View for Console {
    type V = ConsoleView;

    open spec fn view(&self) -> ConsoleView {
        ConsoleView {
            to_terminal: self.to_terminal.pending_bytes(),
            to_guest: self.to_guest.pending_bytes(),
            chunks: self.to_terminal.entrance().unwrap().chunks(),
            silence: self.to_terminal.entrance().unwrap().silence(),
            stdin_open: self.stdin_open,
            guest_gone: self.guest_gone,
            todo: self.todo,
            has_slave: self.has_slave,
            shown: self.shown@,
            delivered: self.delivered@,
        }
    }
}

/// What to wait for: input as long as it is wanted and there is not too much of it already,
/// and room wherever something is queued.
pub open spec fn poll_request(console: ConsoleView) -> PollRequest {
    PollRequest {
        stdin: console.stdin_open && console.to_guest.len() < CONSOLE_BUFFER_LIMIT,
        guest_output: !console.guest_gone && console.to_terminal.len() < CONSOLE_BUFFER_LIMIT,
        guest_input: console.to_guest.len() > 0,
        stdout: console.to_terminal.len() > 0,
    }
}

/// What a new turn begins with.
pub open spec fn turn(console: ConsoleView) -> ConsoleAction {
    if console.guest_gone && console.to_terminal.len() == 0 {
        ConsoleAction::Exit(ConsoleExit::GuestGone)
    } else {
        ConsoleAction::Poll(poll_request(console))
    }
}

/// What to do next about that which is ready.
pub open spec fn next(console: ConsoleView) -> ConsoleAction {
    if console.todo.stdin {
        ConsoleAction::ReadStdin
    } else if console.todo.guest_input && console.to_guest.len() > 0 {
        ConsoleAction::WriteGuest
    } else if console.todo.guest_output {
        ConsoleAction::ReadGuest
    } else if console.todo.stdout && console.to_terminal.len() > 0 {
        ConsoleAction::WriteStdout
    } else {
        ConsoleAction::CheckSignals
    }
}

/// What is left of a queue after an attempt to write it.
pub open spec fn left_over(queue: Seq<u8>, outcome: WriteOutcome) -> Seq<u8> {
    match outcome {
        WriteOutcome::Wrote(count) => queue.skip(count as int),
        _ => queue,
    }
}

/// What an attempt to write a queue has taken of it.
pub open spec fn taken(queue: Seq<u8>, outcome: WriteOutcome) -> Seq<u8> {
    match outcome {
        WriteOutcome::Wrote(count) => queue.take(count as int),
        _ => Seq::empty(),
    }
}

/// Whether to go on writing a queue after an attempt.
pub open spec fn goes_on(queue: Seq<u8>, outcome: WriteOutcome) -> bool {
    outcome != WriteOutcome::WouldBlock && left_over(queue, outcome).len() > 0
}

/// The bytes that were read, if the other side is still there.
pub open spec fn bytes_read(outcome: ReadOutcome) -> Option<Seq<u8>> {
    match outcome {
        ReadOutcome::Read(bytes) => if bytes@.len() > 0 {
            Some(bytes@)
        } else {
            None
        },
        ReadOutcome::Failed => None,
    }
}

/// The console after input from the user was read.
pub open spec fn after_stdin(console: ConsoleView, outcome: ReadOutcome) -> ConsoleView {
    let todo = Ready { stdin: false, ..console.todo };
    match bytes_read(outcome) {
        Some(bytes) => ConsoleView { to_guest: console.to_guest + bytes, todo, ..console },
        None => ConsoleView { stdin_open: false, todo, ..console },
    }
}

/// The console after output of the guest was read. It goes through the filter.
pub open spec fn after_guest(console: ConsoleView, outcome: ReadOutcome) -> ConsoleView {
    let todo = Ready { guest_output: false, ..console.todo };
    match bytes_read(outcome) {
        Some(bytes) => ConsoleView {
            to_terminal: console.to_terminal + filter::filtered(console.chunks, bytes),
            chunks: filter::next_chunks(console.chunks, console.silence, bytes),
            silence: filter::next_silence(console.chunks, console.silence, bytes),
            todo,
            ..console
        },
        None => ConsoleView { guest_gone: true, todo, ..console },
    }
}

/// The console after an attempt to write to the guest.
pub open spec fn after_guest_write(console: ConsoleView, outcome: WriteOutcome) -> ConsoleView {
    ConsoleView {
        to_guest: left_over(console.to_guest, outcome),
        todo: Ready { guest_input: goes_on(console.to_guest, outcome), ..console.todo },
        delivered: console.delivered + taken(console.to_guest, outcome),
        ..console
    }
}

/// The console after an attempt to write to the terminal.
pub open spec fn after_stdout_write(console: ConsoleView, outcome: WriteOutcome) -> ConsoleView {
    ConsoleView {
        to_terminal: left_over(console.to_terminal, outcome),
        todo: Ready { stdout: goes_on(console.to_terminal, outcome), ..console.todo },
        shown: console.shown + taken(console.to_terminal, outcome),
        ..console
    }
}

/// The console after an event, and what to do next.
pub open spec fn step(console: ConsoleView, event: ConsoleEvent) -> (ConsoleView, ConsoleAction) {
    match event {
        ConsoleEvent::Started => (console, ConsoleAction::CheckSignals),
        ConsoleEvent::Signals { terminated, window_resized } => if terminated {
            (console, ConsoleAction::Exit(ConsoleExit::Terminated))
        } else if window_resized {
            (console, ConsoleAction::RefreshWindow)
        } else {
            (console, turn(console))
        },
        ConsoleEvent::WindowRefreshed => (console, turn(console)),
        ConsoleEvent::Polled(outcome) => match outcome {
            PollOutcome::Ready(todo) => {
                let console = ConsoleView { todo, ..console };
                (console, next(console))
            },
            PollOutcome::Interrupted => (console, ConsoleAction::CheckSignals),
            PollOutcome::Failed => (console, ConsoleAction::Fail(ConsoleFailure::Waiting)),
        },
        ConsoleEvent::StdinRead(outcome) => {
            let console = after_stdin(console, outcome);
            (console, next(console))
        },
        ConsoleEvent::GuestRead(outcome) => {
            let console = after_guest(console, outcome);
            (console, next(console))
        },
        ConsoleEvent::GuestWritten(outcome) => if outcome == WriteOutcome::Failed {
            (console, ConsoleAction::Fail(ConsoleFailure::ForwardingInput))
        } else {
            let console = after_guest_write(console, outcome);
            (console, next(console))
        },
        ConsoleEvent::StdoutWritten(outcome) => if outcome == WriteOutcome::Failed {
            (console, ConsoleAction::Fail(ConsoleFailure::WritingOutput))
        } else {
            let console = after_stdout_write(console, outcome);
            (console, next(console))
        },
    }
}

/// Whether an event can happen: no more is written than was queued.
pub open spec fn can_happen(console: ConsoleView, event: ConsoleEvent) -> bool {
    match event {
        ConsoleEvent::GuestWritten(WriteOutcome::Wrote(count)) => count <= console.to_guest.len(),
        ConsoleEvent::StdoutWritten(WriteOutcome::Wrote(count)) => count
            <= console.to_terminal.len(),
        _ => true,
    }
}

impl Console {
    /// Whether the console is in order: what goes to the terminal is filtered, what goes to
    /// the guest is not. All that the terminal has taken and will take of what is queued is
    /// harmless.
    pub open spec fn wf(&self) -> bool {
        &&& self.to_terminal.wf()
        &&& self.to_terminal.entrance() is Some
        &&& self.to_guest.wf()
        &&& self.to_guest.entrance() is None
        &&& filter::is_harmless(self.shown@ + self.to_terminal.pending_bytes())
    }

    /// A console on which nothing has happened.
    pub fn new() -> (console: Self)
        ensures
            console.wf(),
            console@.to_terminal == Seq::<u8>::empty(),
            console@.to_guest == Seq::<u8>::empty(),
            console@.chunks == Seq::<Seq<u8>>::empty(),
            console@.silence == 0,
            console@.stdin_open,
            !console@.guest_gone,
            console@.todo == (Ready {
                stdin: false,
                guest_output: false,
                guest_input: false,
                stdout: false,
            }),
            console@.has_slave,
            console@.shown == Seq::<u8>::empty(),
            console@.delivered == Seq::<u8>::empty(),
    {
        proof {
            filter::lemma_nothing_is_harmless();
            assert(Seq::<u8>::empty() + Seq::<u8>::empty() =~= Seq::<u8>::empty());
        }
        Console {
            to_terminal: FilteredQueue::filtered(),
            to_guest: FilteredQueue::unfiltered(),
            stdin_open: true,
            guest_gone: false,
            todo: Ready {
                stdin: false,
                guest_output: false,
                guest_input: false,
                stdout: false,
            },
            has_slave: true,
            shown: Ghost(Seq::empty()),
            delivered: Ghost(Seq::empty()),
        }
    }

    /// Hands the guest's side out, once.
    pub fn take_slave(&mut self) -> (result: Result<(), String>)
        requires
            old(self).wf(),
        ensures
            final(self).wf(),
            final(self)@ == (ConsoleView { has_slave: false, ..old(self)@ }),
            match result {
                Ok(()) => old(self)@.has_slave,
                Err(message) => !old(self)@.has_slave && message@
                    == "guest console was already handed out"@,
            },
    {
        if !self.has_slave {
            return Err("guest console was already handed out".to_owned());
        }
        self.has_slave = false;
        Ok(())
    }

    /// Takes an event in and tells what to do next, until the console is closed.
    pub fn read_until_terminated(&mut self, event: ConsoleEvent) -> (action: ConsoleAction)
        requires
            old(self).wf(),
            can_happen(old(self)@, event),
        ensures
            final(self).wf(),
            (final(self)@, action) == step(old(self)@, event),
    {
        match event {
            ConsoleEvent::Started => ConsoleAction::CheckSignals,
            ConsoleEvent::Signals { terminated, window_resized } => if terminated {
                ConsoleAction::Exit(ConsoleExit::Terminated)
            } else if window_resized {
                ConsoleAction::RefreshWindow
            } else {
                self.begin_turn()
            },
            ConsoleEvent::WindowRefreshed => self.begin_turn(),
            ConsoleEvent::Polled(outcome) => match outcome {
                PollOutcome::Ready(todo) => {
                    self.todo = todo;
                    self.next_action()
                },
                PollOutcome::Interrupted => ConsoleAction::CheckSignals,
                PollOutcome::Failed => ConsoleAction::Fail(ConsoleFailure::Waiting),
            },
            ConsoleEvent::StdinRead(outcome) => self.stdin_read(outcome),
            ConsoleEvent::GuestRead(outcome) => self.guest_read(outcome),
            ConsoleEvent::GuestWritten(outcome) => self.guest_written(outcome),
            ConsoleEvent::StdoutWritten(outcome) => self.stdout_written(outcome),
        }
    }

    /// Queues what the user typed for the guest.
    fn stdin_read(&mut self, outcome: ReadOutcome) -> (action: ConsoleAction)
        requires
            old(self).wf(),
        ensures
            final(self).wf(),
            final(self)@ == after_stdin(old(self)@, outcome),
            action == next(final(self)@),
    {
        self.todo.stdin = false;
        match outcome {
            ReadOutcome::Read(bytes) => if bytes.len() > 0 {
                self.to_guest.push(bytes.as_slice());
            } else {
                self.stdin_open = false;
            },
            ReadOutcome::Failed => {
                self.stdin_open = false;
            },
        }
        self.next_action()
    }

    /// Queues what the filter lets through of what the guest wrote.
    fn guest_read(&mut self, outcome: ReadOutcome) -> (action: ConsoleAction)
        requires
            old(self).wf(),
        ensures
            final(self).wf(),
            final(self)@ == after_guest(old(self)@, outcome),
            action == next(final(self)@),
    {
        self.todo.guest_output = false;
        match outcome {
            ReadOutcome::Read(bytes) => if bytes.len() > 0 {
                let ghost before = self.to_terminal.pending_bytes();
                let ghost chunks = self.to_terminal.entrance().unwrap().chunks();
                self.to_terminal.filter_in(bytes.as_slice());
                proof {
                    let added = filter::filtered(chunks, bytes@);
                    filter::lemma_harmless_concat(self.shown@ + before, added);
                    text::lemma_concat_associative(self.shown@, before, added);
                }
            } else {
                self.guest_gone = true;
            },
            ReadOutcome::Failed => {
                self.guest_gone = true;
            },
        }
        self.next_action()
    }

    /// Takes an attempt to write to the guest in.
    fn guest_written(&mut self, outcome: WriteOutcome) -> (action: ConsoleAction)
        requires
            old(self).wf(),
            can_happen(old(self)@, ConsoleEvent::GuestWritten(outcome)),
        ensures
            final(self).wf(),
            (final(self)@, action) == step(old(self)@, ConsoleEvent::GuestWritten(outcome)),
    {
        let ghost queue = self.to_guest.pending_bytes();
        match self.to_guest.drain_into(outcome) {
            DrainStep::Write => {
                self.todo.guest_input = true;
            },
            DrainStep::Done => {
                self.todo.guest_input = false;
            },
            DrainStep::Fail => {
                return ConsoleAction::Fail(ConsoleFailure::ForwardingInput);
            },
        }
        proof {
            self.delivered@ = self.delivered@ + taken(queue, outcome);
        }
        self.next_action()
    }

    /// Takes an attempt to write to the terminal in.
    fn stdout_written(&mut self, outcome: WriteOutcome) -> (action: ConsoleAction)
        requires
            old(self).wf(),
            can_happen(old(self)@, ConsoleEvent::StdoutWritten(outcome)),
        ensures
            final(self).wf(),
            (final(self)@, action) == step(old(self)@, ConsoleEvent::StdoutWritten(outcome)),
    {
        let ghost queue = self.to_terminal.pending_bytes();
        match self.to_terminal.drain_into(outcome) {
            DrainStep::Write => {
                self.todo.stdout = true;
            },
            DrainStep::Done => {
                self.todo.stdout = false;
            },
            DrainStep::Fail => {
                return ConsoleAction::Fail(ConsoleFailure::WritingOutput);
            },
        }
        proof {
            lemma_taken_and_left(queue, outcome);
            text::lemma_concat_associative(
                self.shown@,
                taken(queue, outcome),
                left_over(queue, outcome),
            );
            self.shown@ = self.shown@ + taken(queue, outcome);
        }
        self.next_action()
    }

    /// Decides what a new turn begins with.
    fn begin_turn(&self) -> (action: ConsoleAction)
        requires
            self.wf(),
        ensures
            action == turn(self@),
    {
        if self.guest_gone && self.to_terminal.is_empty() {
            return ConsoleAction::Exit(ConsoleExit::GuestGone);
        }
        ConsoleAction::Poll(
            PollRequest {
                stdin: self.stdin_open && self.to_guest.len() < CONSOLE_BUFFER_LIMIT,
                guest_output: !self.guest_gone && self.to_terminal.len() < CONSOLE_BUFFER_LIMIT,
                guest_input: !self.to_guest.is_empty(),
                stdout: !self.to_terminal.is_empty(),
            },
        )
    }

    /// Decides what to do next about that which is ready.
    fn next_action(&self) -> (action: ConsoleAction)
        requires
            self.wf(),
        ensures
            action == next(self@),
    {
        if self.todo.stdin {
            ConsoleAction::ReadStdin
        } else if self.todo.guest_input && !self.to_guest.is_empty() {
            ConsoleAction::WriteGuest
        } else if self.todo.guest_output {
            ConsoleAction::ReadGuest
        } else if self.todo.stdout && !self.to_terminal.is_empty() {
            ConsoleAction::WriteStdout
        } else {
            ConsoleAction::CheckSignals
        }
    }
}

/// The descriptor to poll. One that nothing is wanted of is skipped, which poll does with
/// negative ones.
pub fn pollfd(descriptor: i32, wanted: bool) -> (polled: i32)
    ensures
        polled == (if wanted { descriptor as int } else { -1 }),
{
    if wanted {
        descriptor
    } else {
        -1
    }
}

/// What was taken and what is left make up the queue.
proof fn lemma_taken_and_left(queue: Seq<u8>, outcome: WriteOutcome)
    requires
        outcome matches WriteOutcome::Wrote(count) ==> count <= queue.len(),
    ensures
        taken(queue, outcome) + left_over(queue, outcome) == queue,
{
    assert(taken(queue, outcome) + left_over(queue, outcome) =~= queue);
}

/// Nothing is lost, repeated or put in another order: what the terminal has taken, followed
/// by what is queued for it, grows by what the filter lets through of what was read from the
/// guest, and what the guest has taken, followed by what is queued for it, grows by what was
/// read from the user.
pub proof fn lemma_nothing_is_lost(console: ConsoleView, event: ConsoleEvent)
    requires
        can_happen(console, event),
    ensures
        ({
            let after = step(console, event).0;
            let output = match event {
                ConsoleEvent::GuestRead(outcome) => match bytes_read(outcome) {
                    Some(bytes) => filter::filtered(console.chunks, bytes),
                    None => Seq::empty(),
                },
                _ => Seq::empty(),
            };
            let input = match event {
                ConsoleEvent::StdinRead(outcome) => match bytes_read(outcome) {
                    Some(bytes) => bytes,
                    None => Seq::empty(),
                },
                _ => Seq::empty(),
            };
            &&& after.shown + after.to_terminal == console.shown + console.to_terminal + output
            &&& after.delivered + after.to_guest == console.delivered + console.to_guest + input
        }),
{
    let after = step(console, event).0;
    match event {
        ConsoleEvent::GuestRead(outcome) => {
            if let Some(bytes) = bytes_read(outcome) {
                text::lemma_concat_associative(
                    console.shown,
                    console.to_terminal,
                    filter::filtered(console.chunks, bytes),
                );
            }
        },
        ConsoleEvent::StdinRead(outcome) => {
            if let Some(bytes) = bytes_read(outcome) {
                text::lemma_concat_associative(console.delivered, console.to_guest, bytes);
            }
        },
        ConsoleEvent::GuestWritten(outcome) => {
            lemma_taken_and_left(console.to_guest, outcome);
            text::lemma_concat_associative(
                console.delivered,
                taken(console.to_guest, outcome),
                left_over(console.to_guest, outcome),
            );
        },
        ConsoleEvent::StdoutWritten(outcome) => {
            lemma_taken_and_left(console.to_terminal, outcome);
            text::lemma_concat_associative(
                console.shown,
                taken(console.to_terminal, outcome),
                left_over(console.to_terminal, outcome),
            );
        },
        _ => {},
    }
    assert(console.shown + console.to_terminal + Seq::<u8>::empty() =~= console.shown
        + console.to_terminal);
    assert(console.delivered + console.to_guest + Seq::<u8>::empty() =~= console.delivered
        + console.to_guest);
}

/// The console after a run of events.
pub open spec fn after_all(console: ConsoleView, events: Seq<ConsoleEvent>) -> ConsoleView
    decreases events.len(),
{
    if events.len() == 0 {
        console
    } else {
        step(after_all(console, events.drop_last()), events.last()).0
    }
}

/// Whether each of the events can happen after the ones before it.
pub open spec fn can_all_happen(console: ConsoleView, events: Seq<ConsoleEvent>) -> bool
    decreases events.len(),
{
    events.len() > 0 ==> can_all_happen(console, events.drop_last()) && can_happen(
        after_all(console, events.drop_last()),
        events.last(),
    )
}

/// What was read from the guest, piece by piece.
pub open spec fn guest_pieces(events: Seq<ConsoleEvent>) -> Seq<Seq<u8>>
    decreases events.len(),
{
    if events.len() == 0 {
        Seq::empty()
    } else {
        let before = guest_pieces(events.drop_last());
        match events.last() {
            ConsoleEvent::GuestRead(outcome) => match bytes_read(outcome) {
                Some(bytes) => before.push(bytes),
                None => before,
            },
            _ => before,
        }
    }
}

/// All that was read from the user.
pub open spec fn typed(events: Seq<ConsoleEvent>) -> Seq<u8>
    decreases events.len(),
{
    if events.len() == 0 {
        Seq::empty()
    } else {
        let before = typed(events.drop_last());
        match events.last() {
            ConsoleEvent::StdinRead(outcome) => match bytes_read(outcome) {
                Some(bytes) => before + bytes,
                None => before,
            },
            _ => before,
        }
    }
}

/// In a whole run nothing is lost, repeated or put in another order: what the terminal has
/// taken, followed by what is queued for it, is what the filter lets through of all that was
/// read from the guest, and what the guest has taken, followed by what is queued for it, is
/// all that was read from the user. So when the console is closed because the guest is gone,
/// the terminal has taken all that the filter let through.
pub proof fn lemma_a_run_loses_nothing(
    console: ConsoleView,
    events: Seq<ConsoleEvent>,
    last: ConsoleEvent,
)
    requires
        can_all_happen(console, events),
    ensures
        ({
            let after = after_all(console, events);
            let output = filter::filtered_in_pieces(
                console.chunks,
                console.silence,
                guest_pieces(events),
            );
            &&& after.shown + after.to_terminal == console.shown + console.to_terminal + output
            &&& after.delivered + after.to_guest == console.delivered + console.to_guest + typed(
                events,
            )
            &&& (after.chunks, after.silence) == filter::state_after(
                console.chunks,
                console.silence,
                guest_pieces(events),
            )
            &&& step(after, last).1 == ConsoleAction::Exit(ConsoleExit::GuestGone)
                ==> after.guest_gone && after.shown == console.shown + console.to_terminal + output
        }),
    decreases events.len(),
{
    let after = after_all(console, events);
    let pieces = guest_pieces(events);
    let output = filter::filtered_in_pieces(console.chunks, console.silence, pieces);
    if events.len() == 0 {
        assert(console.shown + console.to_terminal + Seq::<u8>::empty() =~= console.shown
            + console.to_terminal);
        assert(console.delivered + console.to_guest + Seq::<u8>::empty() =~= console.delivered
            + console.to_guest);
    } else {
        let earlier = events.drop_last();
        let before = after_all(console, earlier);
        let event = events.last();
        lemma_a_run_loses_nothing(console, earlier, last);
        lemma_nothing_is_lost(before, event);
        let seen = filter::filtered_in_pieces(
            console.chunks,
            console.silence,
            guest_pieces(earlier),
        );
        let start = console.shown + console.to_terminal;
        let handed = console.delivered + console.to_guest;
        assert(start + seen + Seq::<u8>::empty() =~= start + seen);
        assert(handed + typed(earlier) + Seq::<u8>::empty() =~= handed + typed(earlier));
        match event {
            ConsoleEvent::GuestRead(outcome) => {
                if let Some(bytes) = bytes_read(outcome) {
                    filter::lemma_one_more_piece(
                        console.chunks,
                        console.silence,
                        guest_pieces(earlier),
                        bytes,
                    );
                    text::lemma_concat_associative(
                        start,
                        seen,
                        filter::filtered(before.chunks, bytes),
                    );
                }
            },
            ConsoleEvent::StdinRead(outcome) => {
                if let Some(bytes) = bytes_read(outcome) {
                    text::lemma_concat_associative(handed, typed(earlier), bytes);
                }
            },
            _ => {},
        }
    }
    lemma_console_ends_and_waits(after, last);
    if after.to_terminal.len() == 0 {
        assert(after.shown + after.to_terminal =~= after.shown);
    }
}

/// Whether what is ready was asked for. A guest that hangs up is noticed also where only room
/// for its input was asked for.
pub open spec fn was_asked_for(ready: Ready, request: PollRequest) -> bool {
    &&& ready.stdin ==> request.stdin
    &&& ready.guest_output ==> request.guest_output || request.guest_input
    &&& ready.guest_input ==> request.guest_input
    &&& ready.stdout ==> request.stdout
}

/// If nothing is ready but what was asked for, the user's input is read only as long as it is
/// open and less than the limit is queued for the guest, and nothing is written but what is
/// queued.
pub proof fn lemma_only_what_was_asked_for(console: ConsoleView, ready: Ready)
    requires
        was_asked_for(ready, poll_request(console)),
    ensures
        ({
            let action = step(console, ConsoleEvent::Polled(PollOutcome::Ready(ready))).1;
            &&& action == ConsoleAction::ReadStdin ==> console.stdin_open
                && console.to_guest.len() < CONSOLE_BUFFER_LIMIT
            &&& action == ConsoleAction::ReadGuest ==> !console.guest_gone
                || console.to_guest.len() > 0
            &&& action == ConsoleAction::WriteGuest ==> console.to_guest.len() > 0
            &&& action == ConsoleAction::WriteStdout ==> console.to_terminal.len() > 0
        }),
{
}

/// The console is closed for the guest's sake only when the guest is gone and all that it
/// wrote has reached the terminal, and a source is read only as long as less than the limit
/// is queued of what it wrote.
pub proof fn lemma_console_ends_and_waits(console: ConsoleView, event: ConsoleEvent)
    ensures
        step(console, event).1 == ConsoleAction::Exit(ConsoleExit::GuestGone)
            ==> console.guest_gone && console.to_terminal.len() == 0,
        step(console, event).1 matches ConsoleAction::Poll(request) ==> {
            &&& request.stdin ==> console.to_guest.len() < CONSOLE_BUFFER_LIMIT
            &&& request.guest_output ==> console.to_terminal.len() < CONSOLE_BUFFER_LIMIT
            &&& request.stdin || request.guest_output || request.guest_input || request.stdout
                || !console.stdin_open
        },
{
}

/// Whether an event lets a new turn begin: there was no signal to act on, or the window was
/// refreshed.
pub open spec fn begins_turn(event: ConsoleEvent) -> bool {
    event == ConsoleEvent::WindowRefreshed || event == (ConsoleEvent::Signals {
        terminated: false,
        window_resized: false,
    })
}

/// When the console is closed, when it fails, and when it looks after signals and the window. It
/// is closed at once when a signal asks for that, and else at the first turn at which the guest
/// is gone and nothing is queued for the terminal.
pub proof fn lemma_course_of_console(console: ConsoleView, event: ConsoleEvent)
    ensures
        ({
            let action = step(console, event).1;
            let all_shown = console.guest_gone && console.to_terminal.len() == 0;
            &&& action == ConsoleAction::Exit(ConsoleExit::Terminated) <==> (event
                matches ConsoleEvent::Signals { terminated, .. } && terminated)
            &&& action == ConsoleAction::RefreshWindow <==> event == (ConsoleEvent::Signals {
                terminated: false,
                window_resized: true,
            })
            &&& action == ConsoleAction::Exit(ConsoleExit::GuestGone) <==> begins_turn(event)
                && all_shown
            &&& action is Poll <==> begins_turn(event) && !all_shown
            &&& event == ConsoleEvent::Started || event == ConsoleEvent::Polled(
                PollOutcome::Interrupted,
            ) ==> action == ConsoleAction::CheckSignals
            &&& action == ConsoleAction::Fail(ConsoleFailure::Waiting) <==> event
                == ConsoleEvent::Polled(PollOutcome::Failed)
            &&& action == ConsoleAction::Fail(ConsoleFailure::ForwardingInput) <==> event
                == ConsoleEvent::GuestWritten(WriteOutcome::Failed)
            &&& action == ConsoleAction::Fail(ConsoleFailure::WritingOutput) <==> event
                == ConsoleEvent::StdoutWritten(WriteOutcome::Failed)
        }),
{
}

/// What is waited for at each turn. Input is wanted as long as its source is there and less
/// than 256 kilobytes of it are queued, and room exactly where something is queued.
pub proof fn lemma_what_is_waited_for(console: ConsoleView, event: ConsoleEvent)
    ensures
        step(console, event).1 matches ConsoleAction::Poll(request) ==> {
            &&& request.stdin <==> console.stdin_open && console.to_guest.len() < 262144
            &&& request.guest_output <==> !console.guest_gone && console.to_terminal.len()
                < 262144
            &&& request.guest_input <==> console.to_guest.len() > 0
            &&& request.stdout <==> console.to_terminal.len() > 0
        },
{
}

/// What is ready is dealt with in this order: the user's input, room for it at the guest, the
/// guest's output, room for it at the terminal. When nothing is left a new turn begins with the
/// signals.
pub proof fn lemma_order_of_turn(console: ConsoleView, event: ConsoleEvent)
    requires
        (event matches ConsoleEvent::Polled(outcome) && outcome is Ready) || event is StdinRead
            || event is GuestRead || (event is GuestWritten && event != ConsoleEvent::GuestWritten(
            WriteOutcome::Failed,
        )) || (event is StdoutWritten && event != ConsoleEvent::StdoutWritten(
            WriteOutcome::Failed,
        )),
    ensures
        ({
            let (after, action) = step(console, event);
            let writes_guest = after.todo.guest_input && after.to_guest.len() > 0;
            let writes_stdout = after.todo.stdout && after.to_terminal.len() > 0;
            &&& action == ConsoleAction::ReadStdin <==> after.todo.stdin
            &&& action == ConsoleAction::WriteGuest <==> !after.todo.stdin && writes_guest
            &&& action == ConsoleAction::ReadGuest <==> !after.todo.stdin && !writes_guest
                && after.todo.guest_output
            &&& action == ConsoleAction::WriteStdout <==> !after.todo.stdin && !writes_guest
                && !after.todo.guest_output && writes_stdout
            &&& action == ConsoleAction::CheckSignals <==> !after.todo.stdin && !writes_guest
                && !after.todo.guest_output && !writes_stdout
        }),
{
}

/// What is ready is told by waiting alone, and is dealt with once. Only a queue that was
/// written in part, and could take more, is written on.
pub proof fn lemma_what_is_left_to_do(console: ConsoleView, event: ConsoleEvent)
    ensures
        ({
            let after = step(console, event).0;
            &&& event matches ConsoleEvent::Polled(PollOutcome::Ready(ready)) ==> after.todo
                == ready
            &&& event is StdinRead ==> !after.todo.stdin && after.todo.guest_output
                == console.todo.guest_output && after.todo.guest_input == console.todo.guest_input
                && after.todo.stdout == console.todo.stdout
            &&& event is GuestRead ==> !after.todo.guest_output && after.todo.stdin
                == console.todo.stdin && after.todo.guest_input == console.todo.guest_input
                && after.todo.stdout == console.todo.stdout
            &&& event matches ConsoleEvent::GuestWritten(outcome) ==> outcome
                != WriteOutcome::Failed ==> {
                &&& after.todo.guest_input <==> outcome != WriteOutcome::WouldBlock
                    && after.to_guest.len() > 0
                &&& after.todo.stdin == console.todo.stdin && after.todo.guest_output
                    == console.todo.guest_output && after.todo.stdout == console.todo.stdout
            }
            &&& event matches ConsoleEvent::StdoutWritten(outcome) ==> outcome
                != WriteOutcome::Failed ==> {
                &&& after.todo.stdout <==> outcome != WriteOutcome::WouldBlock
                    && after.to_terminal.len() > 0
                &&& after.todo.stdin == console.todo.stdin && after.todo.guest_output
                    == console.todo.guest_output && after.todo.guest_input
                    == console.todo.guest_input
            }
            &&& event is Started || event is Signals || event is WindowRefreshed ==> after
                == console
        }),
{
}

/// A source that gives nothing is gone for good, and nothing else makes it go. What it gives is
/// queued for the other side at once, through the filter if it comes from the guest.
pub proof fn lemma_sources_of_console(console: ConsoleView, event: ConsoleEvent)
    ensures
        ({
            let after = step(console, event).0;
            &&& after.stdin_open <==> console.stdin_open && !(event matches ConsoleEvent::StdinRead(
                outcome,
            ) && (outcome is Failed || outcome->Read_0@.len() == 0))
            &&& after.guest_gone <==> console.guest_gone || (event
                matches ConsoleEvent::GuestRead(outcome) && (outcome is Failed
                || outcome->Read_0@.len() == 0))
            &&& event matches ConsoleEvent::StdinRead(ReadOutcome::Read(bytes)) ==> after.to_guest
                == console.to_guest + bytes@
            &&& event matches ConsoleEvent::GuestRead(ReadOutcome::Read(bytes)) ==> bytes@.len()
                > 0 ==> after.to_terminal == console.to_terminal + filter::filtered(
                console.chunks,
                bytes@,
            )
            &&& after.has_slave == console.has_slave
        }),
{
    if let ConsoleEvent::StdinRead(ReadOutcome::Read(bytes)) = event {
        if bytes@.len() == 0 {
            assert(console.to_guest + bytes@ =~= console.to_guest);
        }
    }
}

/// What was written is taken off the front of its queue, no more and no less.
pub proof fn lemma_queues_of_console(console: ConsoleView, event: ConsoleEvent, count: usize)
    ensures
        ({
            let after = step(console, event).0;
            &&& event == ConsoleEvent::GuestWritten(WriteOutcome::Wrote(count)) && count
                <= console.to_guest.len() ==> console.to_guest == console.to_guest.take(
                count as int,
            ) + after.to_guest && after.delivered == console.delivered + console.to_guest.take(
                count as int,
            ) && after.to_terminal == console.to_terminal
            &&& event == ConsoleEvent::StdoutWritten(WriteOutcome::Wrote(count)) && count
                <= console.to_terminal.len() ==> console.to_terminal == console.to_terminal.take(
                count as int,
            ) + after.to_terminal && after.shown == console.shown + console.to_terminal.take(
                count as int,
            ) && after.to_guest == console.to_guest
            &&& event == ConsoleEvent::GuestWritten(WriteOutcome::Interrupted) || event
                == ConsoleEvent::GuestWritten(WriteOutcome::WouldBlock) || event
                == ConsoleEvent::StdoutWritten(WriteOutcome::Interrupted) || event
                == ConsoleEvent::StdoutWritten(WriteOutcome::WouldBlock) ==> after.to_guest
                == console.to_guest && after.to_terminal == console.to_terminal && after.shown
                == console.shown && after.delivered == console.delivered
        }),
{
    let after = step(console, event).0;
    if event == ConsoleEvent::GuestWritten(WriteOutcome::Wrote(count)) && count
        <= console.to_guest.len() {
        assert(console.to_guest =~= console.to_guest.take(count as int) + after.to_guest);
    }
    if event == ConsoleEvent::StdoutWritten(WriteOutcome::Wrote(count)) && count
        <= console.to_terminal.len() {
        assert(console.to_terminal =~= console.to_terminal.take(count as int) + after.to_terminal);
    }
    assert(console.shown + Seq::<u8>::empty() =~= console.shown);
    assert(console.delivered + Seq::<u8>::empty() =~= console.delivered);
}

/// What was being done when the console failed, in words.
pub proof fn lemma_words_of_failure(failure: &ConsoleFailure, text: &str)
    requires
        call_ensures(ConsoleFailure::as_str, (failure,), text),
    ensures
        *failure == ConsoleFailure::Waiting ==> text@ == "waiting for guest console activity"@,
        *failure == ConsoleFailure::ForwardingInput ==> text@
            == "forwarding input to the guest console"@,
        *failure == ConsoleFailure::WritingOutput ==> text@ == "writing guest console output"@,
{
}

/// The guest's side is handed out once.
pub proof fn lemma_handing_out(console: &mut Console, result: Result<(), String>)
    requires
        call_ensures(Console::take_slave, (console,), result),
    ensures
        result is Ok <==> old(console)@.has_slave,
        !final(console)@.has_slave,
        result matches Err(message) ==> message@ == "guest console was already handed out"@,
{
}

/// A descriptor that nothing is wanted of is not polled, and any other is.
pub proof fn lemma_polled_descriptor(descriptor: i32, wanted: bool, polled: i32)
    requires
        call_ensures(pollfd, (descriptor, wanted), polled),
    ensures
        wanted ==> polled == descriptor,
        !wanted ==> polled < 0,
{
}

} // verus!
