//! Helper processes.
use vstd::prelude::*;
use vstd::string::*;

verus! {

/// How long to sleep before looking for a socket again, in milliseconds.
pub const SOCKET_POLL_INTERVAL_MS: u64 = 10;

/// How long a process has to end after it was asked to, in milliseconds.
pub const TERMINATION_GRACE_MS: u64 = 3000;

/// What is known of a helper process.
pub enum ChildState {
    Running,
    /// It has ended, with this status.
    Exited(String),
    /// It could not be looked at.
    Failed,
}

/// How waiting for a socket goes on.
pub enum WaitStep {
    /// The socket is there.
    Ready,
    /// Sleep for so many milliseconds and look again.
    Sleep(u64),
    Failed(String),
}

/// Why waiting for a socket is over without it.
pub open spec fn wait_error(
    socket_path: Seq<char>,
    expired: bool,
    socket_exists: bool,
    child: ChildState,
) -> Option<Seq<char>> {
    if expired {
        Some("timed out waiting for "@ + socket_path + " to appear"@)
    } else if socket_exists {
        None
    } else {
        match child {
            ChildState::Running => None,
            ChildState::Exited(status) => Some(
                "helper process exited with "@ + status@ + " before creating "@ + socket_path,
            ),
            ChildState::Failed => Some("checking on a helper process"@),
        }
    }
}

/// Decides how waiting for the socket of a helper goes on.
pub fn wait_for_socket(
    socket_path: &str,
    expired: bool,
    socket_exists: bool,
    child: ChildState,
) -> (step: WaitStep)
    ensures
        match step {
            WaitStep::Failed(message) => wait_error(
                socket_path@,
                expired,
                socket_exists,
                child,
            ) == Some(message@),
            WaitStep::Ready => !expired && socket_exists,
            WaitStep::Sleep(milliseconds) => !expired && !socket_exists && child is Running
                && milliseconds == SOCKET_POLL_INTERVAL_MS,
        },
{
    if expired {
        let mut message: String = "timed out waiting for ".to_owned();
        message.append(socket_path);
        message.append(" to appear");
        return WaitStep::Failed(message);
    }
    if socket_exists {
        return WaitStep::Ready;
    }
    match child {
        ChildState::Running => WaitStep::Sleep(SOCKET_POLL_INTERVAL_MS),
        ChildState::Exited(status) => {
            let mut message: String = "helper process exited with ".to_owned();
            message.append(status.as_str());
            message.append(" before creating ");
            message.append(socket_path);
            WaitStep::Failed(message)
        },
        ChildState::Failed => WaitStep::Failed("checking on a helper process".to_owned()),
    }
}

/// What happened to a process that has to end.
#[derive(Clone, Copy, Debug, PartialEq, Eq, Structural)]
pub enum EndEvent {
    /// It was looked at. It has ended, or it has not as far as is known.
    Checked { ended: bool },
    /// It was asked to end and given time.
    Waited { ended: bool },
    /// It was killed and waited for.
    Killed,
}

/// How to end a process.
#[derive(Clone, Copy, Debug, PartialEq, Eq, Structural)]
pub enum EndStep {
    /// Ask it to end and wait for at most so many milliseconds.
    Terminate(u64),
    /// Kill it and wait for it.
    Kill,
    /// Remove its files.
    RemoveFiles,
}

/// Decides how to end a process. It is asked first and killed if it does not listen, and its
/// files are removed in any case.
pub fn kill_child_and_cleanup(event: EndEvent) -> (step: EndStep)
    ensures
        step == (match event {
            EndEvent::Checked { ended } => if ended {
                EndStep::RemoveFiles
            } else {
                EndStep::Terminate(TERMINATION_GRACE_MS)
            },
            EndEvent::Waited { ended } => if ended {
                EndStep::RemoveFiles
            } else {
                EndStep::Kill
            },
            EndEvent::Killed => EndStep::RemoveFiles,
        }),
{
    match event {
        EndEvent::Checked { ended } => if ended {
            EndStep::RemoveFiles
        } else {
            EndStep::Terminate(TERMINATION_GRACE_MS)
        },
        EndEvent::Waited { ended } => if ended {
            EndStep::RemoveFiles
        } else {
            EndStep::Kill
        },
        EndEvent::Killed => EndStep::RemoveFiles,
    }
}

/// A socket is waited for, in steps of ten milliseconds, as long as there is time and the
/// helper runs. It counts only if it is there in time.
pub proof fn lemma_waiting(
    socket_path: &str,
    expired: bool,
    socket_exists: bool,
    child: ChildState,
    step: WaitStep,
)
    requires
        call_ensures(wait_for_socket, (socket_path, expired, socket_exists, child), step),
    ensures
        step is Ready <==> socket_exists && !expired,
        step is Sleep <==> !socket_exists && !expired && child is Running,
        step matches WaitStep::Sleep(milliseconds) ==> milliseconds == 10,
        expired ==> (step matches WaitStep::Failed(message) && message@
            == "timed out waiting for "@ + socket_path@ + " to appear"@),
        !expired && !socket_exists ==> (child matches ChildState::Exited(status) ==> (step
            matches WaitStep::Failed(message) && message@ == "helper process exited with "@
            + status@ + " before creating "@ + socket_path@)),
        !expired && !socket_exists && child is Failed ==> (step matches WaitStep::Failed(message)
            && message@ == "checking on a helper process"@),
{
}

/// A process is asked to end before it is killed, it is killed only if it did not listen within
/// three seconds, and its files are removed when it is gone and not before.
pub proof fn lemma_ending(event: EndEvent, step: EndStep)
    requires
        call_ensures(kill_child_and_cleanup, (event,), step),
    ensures
        step is Terminate <==> event == (EndEvent::Checked { ended: false }),
        step matches EndStep::Terminate(milliseconds) ==> milliseconds == 3000,
        step == EndStep::Kill <==> event == (EndEvent::Waited { ended: false }),
        step == EndStep::RemoveFiles <==> event == (EndEvent::Checked { ended: true }) || event
            == (EndEvent::Waited { ended: true }) || event == EndEvent::Killed,
{
}

} // verus!
