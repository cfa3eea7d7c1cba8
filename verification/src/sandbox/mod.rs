//! Sandboxes: microVMs that run apart from the host.
pub mod cgroup;
pub mod cloud_hypervisor;
pub mod config;
pub mod console;
pub mod create;
pub mod fs;
pub mod hypervisor;
pub mod lock;
pub mod name;
pub mod passt;
pub mod process;
pub mod table;
pub mod validation;

use vstd::prelude::*;
use vstd::string::*;

use crate::paths;
use crate::sandbox::config::{Config, FsShare};
use crate::sandbox::hypervisor::{Hypervisor, State};
use crate::sandbox::lock::LockAttempt;
use crate::sandbox::name::Name;
use crate::text;

verus! {

/// The longest path of a socket, in bytes.
pub const MAX_SOCKET_PATH_LENGTH: usize = 107;

/// What the user wants.
#[allow(inconsistent_fields)]
pub enum Command {
    /// List all sandboxes.
    Ps,
    /// Create and start a sandbox.
    Create {
        shares: Vec<FsShare>,
        name: Option<Name>,
        /// Whether to start with a clean disk.
        recreate: bool,
        /// Whether to delete the sandbox once it is shut down.
        delete_after_shutdown: bool,
    },
    /// Shut a sandbox down.
    Shutdown { name: Name },
    /// Delete a sandbox.
    Delete { name: Name, force: bool },
    /// Delete all stopped sandboxes.
    Prune,
}

/// What is done for the user.
#[allow(inconsistent_fields)]
pub enum Task {
    List,
    Create {
        config: Config,
        shares: Vec<FsShare>,
        name: Option<Name>,
        recreate: bool,
        delete_after_shutdown: bool,
    },
    /// Shut the sandbox down that has this runtime directory.
    Shutdown { sandbox_runtime_dir: String },
    Delete { name: Name, force: bool },
    Prune,
}

/// A task, and the hypervisor to do it with.
pub struct Plan {
    pub hypervisor: Hypervisor,
    pub task: Task,
}

/// What is done for a command. Only creating a sandbox takes the configuration with it.
pub open spec fn is_task_for(
    task: Task,
    command: Command,
    config: Config,
    runtime_dir: Seq<char>,
) -> bool {
    match command {
        Command::Ps => task is List,
        Command::Create { shares, name, recreate, delete_after_shutdown } => task == (Task::Create {
            config,
            shares,
            name,
            recreate,
            delete_after_shutdown,
        }),
        Command::Shutdown { name } => task matches Task::Shutdown { sandbox_runtime_dir }
            && sandbox_runtime_dir@ == paths::join(runtime_dir, name@),
        Command::Delete { name, force } => task == (Task::Delete { name, force }),
        Command::Prune => task is Prune,
    }
}

/// Decides what to do for a command. Every command needs a configuration of sandboxes.
pub fn handle(command: Command, config: Option<Config>, runtime_dir: &str) -> (result: Result<
    Plan,
    String,
>)
    ensures
        match (result, config) {
            (Ok(plan), Some(config)) => {
                &&& is_task_for(plan.task, command, config, runtime_dir@)
                &&& hypervisor::is_hypervisor(
                    plan.hypervisor,
                    config.hypervisor,
                    Some(&config),
                )
            },
            (Err(message), None) => message@ == "the configuration has no `sandbox` section"@,
            _ => false,
        },
{
    let config: Config = match config {
        Some(config) => config,
        None => {
            return Err("the configuration has no `sandbox` section".to_owned());
        },
    };
    let hypervisor: Hypervisor = hypervisor::new(Some(&config));
    let task: Task = match command {
        Command::Ps => Task::List,
        Command::Create { shares, name, recreate, delete_after_shutdown } => Task::Create {
            config,
            shares,
            name,
            recreate,
            delete_after_shutdown,
        },
        Command::Shutdown { name } => Task::Shutdown {
            sandbox_runtime_dir: paths::joined_path(runtime_dir, name.as_str()),
        },
        Command::Delete { name, force } => Task::Delete { name, force },
        Command::Prune => Task::Prune,
    };
    Ok(Plan { hypervisor, task })
}

/// Checks that no sandbox of the same name runs.
pub fn ensure_unique_name(is_running: bool) -> (result: Result<(), String>)
    ensures
        match result {
            Ok(()) => !is_running,
            Err(message) => is_running && message@
                == "a sandbox with the same name already exists"@,
        },
{
    if is_running {
        return Err("a sandbox with the same name already exists".to_owned());
    }
    Ok(())
}

/// The directories of a sandbox, which are removed with it.
pub struct SandboxDirs {
    pub runtime: String,
    pub state: String,
}

/// The directories of a sandbox.
pub fn sandbox_dirs(runtime_dir: &str, state_dir: &str, name: &Name) -> (dirs: SandboxDirs)
    ensures
        dirs.runtime@ == paths::join(runtime_dir@, name@),
        dirs.state@ == paths::join(state_dir@, name@),
{
    SandboxDirs {
        runtime: paths::joined_path(runtime_dir, name.as_str()),
        state: paths::joined_path(state_dir, name.as_str()),
    }
}

/// What happened while a sandbox was deleted.
#[derive(Clone, Copy, Debug, PartialEq, Eq, Structural)]
pub enum DeleteEvent {
    Started,
    LockTried(LockAttempt),
    /// It was looked whether the sandbox runs.
    RunningChecked { is_running: bool },
    ShutDown { done: bool },
    RuntimeDirChecked { exists: bool },
    RuntimeDirRemoved { done: bool },
    StateDirChecked { exists: bool },
    StateDirRemoved { done: bool },
}

/// Why a sandbox is not deleted.
#[derive(Clone, Copy, Debug, PartialEq, Eq, Structural)]
pub enum DeleteFailure {
    NoStateDir,
    Running,
    RuntimeDir,
    StateDir,
    /// What was done last has its own reason.
    Outside,
}

/// What to do next.
#[derive(Clone, Copy, Debug, PartialEq, Eq, Structural)]
pub enum DeleteAction {
    AcquireLock,
    CheckRunning,
    /// Shut the sandbox down, by force or not.
    Shutdown { force: bool },
    CheckRuntimeDir,
    RemoveRuntimeDir,
    CheckStateDir,
    RemoveStateDir,
    Finish,
    Fail(DeleteFailure),
}

/// What to do next after an event. A sandbox that is being worked on, or that runs, is only
/// deleted by force.
pub open spec fn next_deletion(
    force: bool,
    has_state_dir: bool,
    event: DeleteEvent,
) -> DeleteAction {
    match event {
        DeleteEvent::Started => if has_state_dir {
            DeleteAction::AcquireLock
        } else {
            DeleteAction::Fail(DeleteFailure::NoStateDir)
        },
        DeleteEvent::LockTried(attempt) => if attempt != LockAttempt::Locked && attempt
            != LockAttempt::WouldBlock {
            DeleteAction::Fail(DeleteFailure::Outside)
        } else if force {
            DeleteAction::Shutdown { force }
        } else if attempt == LockAttempt::Locked {
            DeleteAction::CheckRunning
        } else {
            DeleteAction::Fail(DeleteFailure::Running)
        },
        DeleteEvent::RunningChecked { is_running } => if is_running && !force {
            DeleteAction::Fail(DeleteFailure::Running)
        } else {
            DeleteAction::Shutdown { force }
        },
        DeleteEvent::ShutDown { done } => if done {
            DeleteAction::CheckRuntimeDir
        } else {
            DeleteAction::Fail(DeleteFailure::Outside)
        },
        DeleteEvent::RuntimeDirChecked { exists } => if exists {
            DeleteAction::RemoveRuntimeDir
        } else {
            DeleteAction::CheckStateDir
        },
        DeleteEvent::RuntimeDirRemoved { done } => if done {
            DeleteAction::CheckStateDir
        } else {
            DeleteAction::Fail(DeleteFailure::RuntimeDir)
        },
        DeleteEvent::StateDirChecked { exists } => if exists {
            DeleteAction::RemoveStateDir
        } else {
            DeleteAction::Finish
        },
        DeleteEvent::StateDirRemoved { done } => if done {
            DeleteAction::Finish
        } else {
            DeleteAction::Fail(DeleteFailure::StateDir)
        },
    }
}

/// Decides how deleting a sandbox goes on.
pub fn delete_sandbox(force: bool, has_state_dir: bool, event: DeleteEvent) -> (action:
    DeleteAction)
    ensures
        action == next_deletion(force, has_state_dir, event),
{
    match event {
        DeleteEvent::Started => if has_state_dir {
            DeleteAction::AcquireLock
        } else {
            DeleteAction::Fail(DeleteFailure::NoStateDir)
        },
        DeleteEvent::LockTried(attempt) => match attempt {
            LockAttempt::Locked => if force {
                DeleteAction::Shutdown { force }
            } else {
                DeleteAction::CheckRunning
            },
            LockAttempt::WouldBlock => if force {
                DeleteAction::Shutdown { force }
            } else {
                DeleteAction::Fail(DeleteFailure::Running)
            },
            _ => DeleteAction::Fail(DeleteFailure::Outside),
        },
        DeleteEvent::RunningChecked { is_running } => if is_running && !force {
            DeleteAction::Fail(DeleteFailure::Running)
        } else {
            DeleteAction::Shutdown { force }
        },
        DeleteEvent::ShutDown { done } => if done {
            DeleteAction::CheckRuntimeDir
        } else {
            DeleteAction::Fail(DeleteFailure::Outside)
        },
        DeleteEvent::RuntimeDirChecked { exists } => if exists {
            DeleteAction::RemoveRuntimeDir
        } else {
            DeleteAction::CheckStateDir
        },
        DeleteEvent::RuntimeDirRemoved { done } => if done {
            DeleteAction::CheckStateDir
        } else {
            DeleteAction::Fail(DeleteFailure::RuntimeDir)
        },
        DeleteEvent::StateDirChecked { exists } => if exists {
            DeleteAction::RemoveStateDir
        } else {
            DeleteAction::Finish
        },
        DeleteEvent::StateDirRemoved { done } => if done {
            DeleteAction::Finish
        } else {
            DeleteAction::Fail(DeleteFailure::StateDir)
        },
    }
}

impl DeleteFailure {
    /// What went wrong, in words, where it is not what was done last that says so.
    pub open spec fn text(&self) -> Option<Seq<char>> {
        match self {
            DeleteFailure::NoStateDir => Some(
                "locating state directory with XDG_STATE_HOME or HOME/.local/state"@,
            ),
            DeleteFailure::Running => Some(
                "can't delete a running sandbox, either use --force or shut the sandbox down and then try again"@,
            ),
            DeleteFailure::RuntimeDir => Some("cleaning up sandbox runtime directory"@),
            DeleteFailure::StateDir => Some("cleaning up sandbox state directory"@),
            DeleteFailure::Outside => None,
        }
    }

    /// What went wrong, in words, where it is not what was done last that says so.
    pub fn message(&self) -> (message: Option<String>)
        ensures
            match message {
                Some(message) => self.text() == Some(message@),
                None => self.text() is None,
            },
    {
        match self {
            DeleteFailure::NoStateDir => Some(
                "locating state directory with XDG_STATE_HOME or HOME/.local/state".to_owned(),
            ),
            DeleteFailure::Running => Some(
                "can't delete a running sandbox, either use --force or shut the sandbox down and then try again".to_owned(),
            ),
            DeleteFailure::RuntimeDir => Some("cleaning up sandbox runtime directory".to_owned()),
            DeleteFailure::StateDir => Some("cleaning up sandbox state directory".to_owned()),
            DeleteFailure::Outside => None,
        }
    }
}

/// Without force a sandbox is touched only when its lock is held and it does not run, and
/// nothing of it is removed before it was shut down.
pub proof fn lemma_running_sandboxes_are_kept(has_state_dir: bool, event: DeleteEvent)
    ensures
        next_deletion(false, has_state_dir, event) == (DeleteAction::Shutdown { force: false })
            <==> event == (DeleteEvent::RunningChecked { is_running: false }),
        next_deletion(false, has_state_dir, event) == DeleteAction::CheckRunning <==> event
            == DeleteEvent::LockTried(LockAttempt::Locked),
        forall|force: bool|
            #[trigger] next_deletion(force, has_state_dir, event) == DeleteAction::CheckRuntimeDir
                <==> event == (DeleteEvent::ShutDown { done: true }),
        forall|force: bool|
            #[trigger] next_deletion(force, has_state_dir, event) == DeleteAction::RemoveRuntimeDir
                <==> event == (DeleteEvent::RuntimeDirChecked { exists: true }),
{
}

/// What is listed of a sandbox.
pub struct SandboxInfo {
    pub name: String,
    pub state: String,
}

/// A sandbox, and what is known of its microVM.
pub struct ListedSandbox {
    pub name: String,
    pub state: State,
}

/// The names and states of sandboxes.
pub open spec fn listed_view(sandboxes: Seq<ListedSandbox>) -> Seq<(Seq<char>, Seq<char>)> {
    sandboxes.map_values(|sandbox: ListedSandbox| (sandbox.name@, sandbox.state.text()))
}

/// Lists the sandboxes as a table.
pub fn list_sandboxes(sandboxes: &Vec<ListedSandbox>) -> (drawn: String)
    ensures
        drawn@ == table::table_text(table::sandbox_records(listed_view(sandboxes@))),
{
    let ghost all = listed_view(sandboxes@);
    let mut infos: Vec<SandboxInfo> = Vec::new();
    assert(table::infos_view(infos@) =~= all.take(0));
    for i in 0..sandboxes.len()
        invariant
            all == listed_view(sandboxes@),
            table::infos_view(infos@) == all.take(i as int),
    {
        let ghost before = table::infos_view(infos@);
        infos.push(
            SandboxInfo {
                name: sandboxes[i].name.clone(),
                state: sandboxes[i].state.to_text(),
            },
        );
        assert(table::infos_view(infos@) =~= before.push(all[i as int]));
        assert(table::infos_view(infos@) =~= all.take(i + 1));
    }
    assert(all.take(all.len() as int) =~= all);
    table::sandbox_table(&infos)
}

/// Whether an answer means yes. Anything but a `y` means no.
pub open spec fn is_yes(input: Seq<char>) -> bool {
    text::trimmed(input) == "y"@ || text::trimmed(input) == "Y"@
}

/// Decides which sandboxes are looked at for pruning: all of them, if the user agrees.
pub fn prune_sandboxes(input: &str, sandboxes: &Vec<String>) -> (found: Vec<String>)
    ensures
        text::texts(found@) == (if is_yes(input@) {
            text::texts(sandboxes@)
        } else {
            Seq::empty()
        }),
{
    let answer: String = text::trim(input);
    if text::same(answer.as_str(), "y") || text::same(answer.as_str(), "Y") {
        return text::copies(sandboxes);
    }
    let none: Vec<String> = Vec::new();
    assert(text::texts(none@) =~= Seq::<Seq<char>>::empty());
    none
}

/// What is done about a sandbox that is looked at for pruning.
pub enum PruneStep {
    /// Delete the sandbox of this name, but not by force.
    Delete(Name),
    /// Leave it, with this warning.
    Keep(String),
}

/// Whether a sandbox that is looked at is pruned: if a name can be made of that of its
/// directory, and it does not run.
pub open spec fn is_pruned(sandbox: Seq<char>, is_running: bool) -> bool {
    name::sanitized(sandbox).len() > 0 && !is_running
}

/// Decides whether to prune the sandbox with this directory.
pub fn prune_sandbox(sandbox: &str, is_running: bool) -> (step: PruneStep)
    ensures
        match step {
            PruneStep::Delete(name) => is_pruned(sandbox@, is_running) && name@
                == name::sanitized(sandbox@),
            PruneStep::Keep(message) => !is_pruned(sandbox@, is_running) && message@
                == "unexpected invalid sandbox name: "@ + sandbox@,
        },
{
    if let Some(name) = Name::sanitize(sandbox) {
        if !is_running {
            return PruneStep::Delete(name);
        }
    }
    PruneStep::Keep(text::concatenated("unexpected invalid sandbox name: ", sandbox))
}

/// An entry of a directory.
pub struct DirEntry {
    /// The name, if it is a text.
    pub name: Option<String>,
    pub is_dir: bool,
}

/// Whether an entry is a sandbox of this name.
pub open spec fn is_sandbox(entry: DirEntry, name: Seq<char>) -> bool {
    entry.is_dir && entry.name is Some && entry.name.unwrap()@ == name
}

/// Whether there is a sandbox of this name among the entries.
pub open spec fn has_sandbox(entries: Seq<DirEntry>, name: Seq<char>) -> bool {
    exists|i: int| 0 <= i < entries.len() && is_sandbox(#[trigger] entries[i], name)
}

/// Adds the names of sandboxes to a list.
fn add_names(names: &mut Vec<String>, entries: &Vec<DirEntry>)
    requires
        text::is_sorted(text::texts(old(names)@)),
    ensures
        text::is_sorted(text::texts(final(names)@)),
        forall|name: Seq<char>|
            #[trigger] text::texts(final(names)@).contains(name) <==> text::texts(
                old(names)@,
            ).contains(name) || has_sandbox(entries@, name),
{
    let ghost before = text::texts(names@);
    for i in 0..entries.len()
        invariant
            text::is_sorted(text::texts(names@)),
            forall|name: Seq<char>|
                #[trigger] text::texts(names@).contains(name) <==> before.contains(name)
                    || has_sandbox(entries@.take(i as int), name),
    {
        let ghost so_far = text::texts(names@);
        if entries[i].is_dir {
            if let Some(name) = &entries[i].name {
                text::insert_sorted(names, name.as_str());
            }
        }
        assert forall|name: Seq<char>|
            #[trigger] text::texts(names@).contains(name) <==> before.contains(name)
                || has_sandbox(entries@.take(i + 1), name) by {
            assert(so_far.contains(name) <==> before.contains(name) || has_sandbox(
                entries@.take(i as int),
                name,
            ));
            if has_sandbox(entries@.take(i as int), name) {
                let k = choose|k: int|
                    0 <= k < i && is_sandbox(#[trigger] entries@.take(i as int)[k], name);
                assert(is_sandbox(entries@.take(i + 1)[k], name));
            }
            if has_sandbox(entries@.take(i + 1), name) {
                let k = choose|k: int|
                    0 <= k < i + 1 && is_sandbox(#[trigger] entries@.take(i + 1)[k], name);
                if k < i {
                    assert(is_sandbox(entries@.take(i as int)[k], name));
                }
            }
            if is_sandbox(entries@[i as int], name) {
                assert(is_sandbox(entries@.take(i + 1)[i as int], name));
            }
        }
    }
    assert(entries@.take(entries@.len() as int) =~= entries@);
}

/// The names of the sandboxes that have left something in the runtime directory or the state
/// directory, in order and each once. A directory that cannot be read counts as empty.
pub fn existing_sandbox_names(
    runtime_entries: Option<&Vec<DirEntry>>,
    state_entries: Option<&Vec<DirEntry>>,
) -> (names: Vec<String>)
    ensures
        text::is_sorted(text::texts(names@)),
        forall|name: Seq<char>|
            #[trigger] text::texts(names@).contains(name) <==> (runtime_entries is Some
                && has_sandbox(runtime_entries.unwrap()@, name)) || (state_entries is Some
                && has_sandbox(state_entries.unwrap()@, name)),
{
    let mut names: Vec<String> = Vec::new();
    if let Some(entries) = runtime_entries {
        add_names(&mut names, entries);
    }
    if let Some(entries) = state_entries {
        add_names(&mut names, entries);
    }
    names
}

/// The names that begin with what was typed.
pub open spec fn completions(names: Seq<Seq<char>>, current: Seq<char>) -> Seq<Seq<char>> {
    names.filter(|name: Seq<char>| current.is_prefix_of(name))
}

/// Completes the name of a sandbox. What was typed may be no text, and then there is nothing
/// to complete it to.
pub fn complete_sandbox_name(current: Option<&str>, names: &Vec<String>) -> (candidates: Vec<
    String,
>)
    ensures
        text::texts(candidates@) == (match current {
            Some(current) => completions(text::texts(names@), current@),
            None => Seq::empty(),
        }),
{
    let mut candidates: Vec<String> = Vec::new();
    assert(text::texts(candidates@) =~= Seq::<Seq<char>>::empty());
    let current: &str = match current {
        Some(current) => current,
        None => {
            return candidates;
        },
    };
    let ghost all = text::texts(names@);
    let ghost kept = |name: Seq<char>| current@.is_prefix_of(name);
    for i in 0..names.len()
        invariant
            all == text::texts(names@),
            kept == (|name: Seq<char>| current@.is_prefix_of(name)),
            text::texts(candidates@) == all.take(i as int).filter(kept),
    {
        proof {
            assert(all.take(i + 1) =~= all.take(i as int).push(all[i as int]));
            all.take(i as int).lemma_filter_push(all[i as int], kept);
            assert(all[i as int] == names@[i as int]@);
        }
        if text::begins_with(names[i].as_str(), current) {
            text::push_text(&mut candidates, names[i].as_str());
        }
    }
    assert(all.take(all.len() as int) =~= all);
    candidates
}

/// The path of a socket in the runtime directory of a sandbox.
pub open spec fn socket_in(sandbox_runtime_dir: Seq<char>, socket: Seq<char>) -> Seq<char> {
    paths::join(sandbox_runtime_dir, socket + ".sock"@)
}

/// The path of a socket in the runtime directory of a sandbox.
pub fn socket_path_in(sandbox_runtime_dir: &str, socket: &str) -> (path: String)
    ensures
        path@ == socket_in(sandbox_runtime_dir@, socket@),
{
    let file: String = text::concatenated(socket, ".sock");
    paths::joined_path(sandbox_runtime_dir, file.as_str())
}

/// The path of a socket of a sandbox.
pub fn socket_path(runtime_dir: &str, sandbox_name: &Name, socket: &str) -> (path: String)
    ensures
        path@ == socket_in(paths::join(runtime_dir@, sandbox_name@), socket@),
{
    let sandbox_runtime_dir: String = paths::joined_path(runtime_dir, sandbox_name.as_str());
    socket_path_in(sandbox_runtime_dir.as_str(), socket)
}

/// The names of the sockets of a sandbox.
pub open spec fn socket_names(shares: Seq<Seq<char>>) -> Seq<Seq<char>> {
    seq![
        hypervisor::cloud_hypervisor::SOCKET_NAME@,
        hypervisor::qemu::SOCKET_NAME@,
        passt::SOCKET_NAME@,
    ] + shares.map_values(|share: Seq<char>| fs::share_socket(share))
}

/// Whether the path of a socket is too long.
pub open spec fn is_too_long(path: Seq<char>) -> bool {
    vstd::utf8::encode_utf8(path).len() > MAX_SOCKET_PATH_LENGTH
}

/// The message for a socket whose path is too long.
pub open spec fn length_message(path: Seq<char>) -> Seq<char> {
    "socket path `"@ + path + "` is "@ + text::decimal(vstd::utf8::encode_utf8(path).len())
        + " bytes, which is over the "@ + text::decimal(MAX_SOCKET_PATH_LENGTH as nat)
        + " byte limit for unix sockets, use a shorter sandbox or share name"@
}

/// What is wrong with the first of the sockets whose path is too long.
pub open spec fn length_error(dir: Seq<char>, sockets: Seq<Seq<char>>) -> Option<Seq<char>>
    decreases sockets.len(),
{
    if sockets.len() == 0 {
        None
    } else if is_too_long(socket_in(dir, sockets[0])) {
        Some(length_message(socket_in(dir, sockets[0])))
    } else {
        length_error(dir, sockets.drop_first())
    }
}

/// The names of shares.
pub open spec fn share_names(shares: Seq<FsShare>) -> Seq<Seq<char>> {
    shares.map_values(|share: FsShare| share.name@)
}

/// Lists the names of the sockets of a sandbox.
fn socket_name_list(shares: &Vec<FsShare>) -> (sockets: Vec<String>)
    ensures
        text::texts(sockets@) == socket_names(share_names(shares@)),
{
    let ghost names = share_names(shares@);
    let ghost all = socket_names(names);
    let mut sockets: Vec<String> = hypervisor::socket_paths_to_validate();
    text::push_text(&mut sockets, passt::SOCKET_NAME);
    assert(text::texts(sockets@) =~= all.take(3));
    for i in 0..shares.len()
        invariant
            names == share_names(shares@),
            all == socket_names(names),
            text::texts(sockets@) == all.take(i + 3),
    {
        assert(all[i + 3] == fs::share_socket(shares@[i as int].name@));
        let socket: String = text::concatenated("vfsd-", shares[i].name.as_str());
        text::push_text(&mut sockets, socket.as_str());
        assert(text::texts(sockets@) =~= all.take(i + 4));
    }
    assert(all.take(all.len() as int) =~= all);
    sockets
}

/// Checks that the path of no socket of a sandbox is too long.
pub fn validate_socket_path_lengths(
    runtime_dir: &str,
    name: &Name,
    shares: &Vec<FsShare>,
) -> (result: Result<(), String>)
    ensures
        match result {
            Ok(()) => length_error(
                paths::join(runtime_dir@, name@),
                socket_names(share_names(shares@)),
            ) is None,
            Err(message) => length_error(
                paths::join(runtime_dir@, name@),
                socket_names(share_names(shares@)),
            ) == Some(message@),
        },
{
    let ghost dir = paths::join(runtime_dir@, name@);
    let ghost all = socket_names(share_names(shares@));
    let sockets: Vec<String> = socket_name_list(shares);
    assert(all.skip(0) =~= all);
    for i in 0..sockets.len()
        invariant
            dir == paths::join(runtime_dir@, name@),
            text::texts(sockets@) == all,
            all == socket_names(share_names(shares@)),
            length_error(dir, all) == length_error(dir, all.skip(i as int)),
    {
        assert(all[i as int] == sockets@[i as int]@);
        assert(all.skip(i as int).drop_first() =~= all.skip(i + 1));
        let path: String = socket_path(runtime_dir, name, sockets[i].as_str());
        let length: usize = path.as_str().as_bytes().len();
        if length > MAX_SOCKET_PATH_LENGTH {
            let mut message: String = "socket path `".to_owned();
            message.append(path.as_str());
            message.append("` is ");
            let bytes: String = text::decimal_string(length as u64);
            message.append(bytes.as_str());
            message.append(" bytes, which is over the ");
            let limit: String = text::decimal_string(MAX_SOCKET_PATH_LENGTH as u64);
            message.append(limit.as_str());
            message.append(
                " byte limit for unix sockets, use a shorter sandbox or share name",
            );
            return Err(message);
        }
    }
    Ok(())
}

/// When the lengths are accepted, each socket of the sandbox fits.
pub proof fn lemma_accepted_sockets_fit(dir: Seq<char>, sockets: Seq<Seq<char>>)
    requires
        length_error(dir, sockets) is None,
    ensures
        forall|i: int| 0 <= i < sockets.len() ==> !is_too_long(socket_in(dir, #[trigger] sockets[i])),
    decreases sockets.len(),
{
    if sockets.len() > 0 {
        lemma_accepted_sockets_fit(dir, sockets.drop_first());
        assert forall|i: int| 0 <= i < sockets.len() implies !is_too_long(
            socket_in(dir, #[trigger] sockets[i]),
        ) by {
            if i > 0 {
                assert(sockets.drop_first()[i - 1] == sockets[i]);
            }
        }
    }
}

/// When each step of deleting a sandbox comes. By force or not, a directory is removed exactly
/// if it is there, and all is done when the state directory is gone or was never there.
pub proof fn lemma_course_of_deletion(
    force: bool,
    has_state_dir: bool,
    event: DeleteEvent,
    action: DeleteAction,
)
    requires
        call_ensures(delete_sandbox, (force, has_state_dir, event), action),
    ensures
        action == DeleteAction::AcquireLock <==> event == DeleteEvent::Started && has_state_dir,
        action == DeleteAction::CheckRunning <==> event == DeleteEvent::LockTried(
            LockAttempt::Locked,
        ) && !force,
        action == (DeleteAction::Shutdown { force }) <==> (force && (event
            == DeleteEvent::LockTried(LockAttempt::Locked) || event == DeleteEvent::LockTried(
            LockAttempt::WouldBlock,
        ) || event is RunningChecked)) || event == (DeleteEvent::RunningChecked {
            is_running: false,
        }),
        action != (DeleteAction::Shutdown { force: !force }),
        action == DeleteAction::CheckRuntimeDir <==> event == (DeleteEvent::ShutDown {
            done: true,
        }),
        action == DeleteAction::RemoveRuntimeDir <==> event == (DeleteEvent::RuntimeDirChecked {
            exists: true,
        }),
        action == DeleteAction::CheckStateDir <==> event == (DeleteEvent::RuntimeDirChecked {
            exists: false,
        }) || event == (DeleteEvent::RuntimeDirRemoved { done: true }),
        action == DeleteAction::RemoveStateDir <==> event == (DeleteEvent::StateDirChecked {
            exists: true,
        }),
        action == DeleteAction::Finish <==> event == (DeleteEvent::StateDirChecked {
            exists: false,
        }) || event == (DeleteEvent::StateDirRemoved { done: true }),
{
}

/// Each failure comes where something failed that must not, and nowhere else.
pub proof fn lemma_failures_of_deletion(
    force: bool,
    has_state_dir: bool,
    event: DeleteEvent,
    action: DeleteAction,
)
    requires
        call_ensures(delete_sandbox, (force, has_state_dir, event), action),
    ensures
        action == DeleteAction::Fail(DeleteFailure::NoStateDir) <==> event == DeleteEvent::Started
            && !has_state_dir,
        action == DeleteAction::Fail(DeleteFailure::Running) <==> !force && (event
            == DeleteEvent::LockTried(LockAttempt::WouldBlock) || event
            == (DeleteEvent::RunningChecked { is_running: true })),
        action == DeleteAction::Fail(DeleteFailure::RuntimeDir) <==> event
            == (DeleteEvent::RuntimeDirRemoved { done: false }),
        action == DeleteAction::Fail(DeleteFailure::StateDir) <==> event
            == (DeleteEvent::StateDirRemoved { done: false }),
        action == DeleteAction::Fail(DeleteFailure::Outside) <==> event == (DeleteEvent::ShutDown {
            done: false,
        }) || (event matches DeleteEvent::LockTried(attempt) && attempt != LockAttempt::Locked
            && attempt != LockAttempt::WouldBlock),
{
}

/// Why a sandbox is not deleted, in words.
pub proof fn lemma_words_of_deletion(failure: &DeleteFailure, message: Option<String>)
    requires
        call_ensures(DeleteFailure::message, (failure,), message),
    ensures
        message is None <==> *failure == DeleteFailure::Outside,
        *failure == DeleteFailure::NoStateDir ==> message.unwrap()@
            == "locating state directory with XDG_STATE_HOME or HOME/.local/state"@,
        *failure == DeleteFailure::Running ==> message.unwrap()@
            == "can't delete a running sandbox, either use --force or shut the sandbox down and then try again"@,
        *failure == DeleteFailure::RuntimeDir ==> message.unwrap()@
            == "cleaning up sandbox runtime directory"@,
        *failure == DeleteFailure::StateDir ==> message.unwrap()@
            == "cleaning up sandbox state directory"@,
{
}

/// Each command is carried out as it was given. Only creating a sandbox takes anything from
/// the configuration but the hypervisor, and no command is carried out without one.
pub proof fn lemma_task_of_each_command(
    command: Command,
    config: Option<Config>,
    runtime_dir: &str,
    result: Result<Plan, String>,
)
    requires
        call_ensures(handle, (command, config, runtime_dir), result),
    ensures
        result is Ok <==> config is Some,
        result matches Err(message) ==> message@ == "the configuration has no `sandbox` section"@,
        result matches Ok(plan) ==> {
            &&& command is Ps <==> plan.task is List
            &&& command is Prune <==> plan.task is Prune
            &&& command matches Command::Create {
                shares,
                name,
                recreate,
                delete_after_shutdown,
            } ==> (plan.task matches Task::Create {
                config: used,
                shares: asked,
                name: wanted,
                recreate: anew,
                delete_after_shutdown: delete,
            } && used == config.unwrap() && asked == shares && wanted == name && anew == recreate
                && delete == delete_after_shutdown)
            &&& command matches Command::Shutdown { name } ==> (plan.task matches Task::Shutdown {
                sandbox_runtime_dir,
            } && sandbox_runtime_dir@ == paths::join(runtime_dir@, name@))
            &&& command matches Command::Delete { name, force } ==> (plan.task
                matches Task::Delete { name: doomed, force: forced } && doomed == name && forced
                == force)
            &&& plan.hypervisor is Qemu <==> config.unwrap().hypervisor
                == config::HypervisorType::Qemu
        },
{
}

/// Pruning goes ahead if the answer is a `y`, small or large, with any white space around it,
/// and then for all sandboxes in their order.
pub proof fn lemma_answer_to_pruning(
    input: &str,
    sandboxes: &Vec<String>,
    found: Vec<String>,
    before: Seq<char>,
    answer: char,
    after: Seq<char>,
)
    requires
        call_ensures(prune_sandboxes, (input, sandboxes), found),
        text::is_blank(before),
        text::is_blank(after),
    ensures
        input@ == before + seq![answer] + after && (answer == 'y' || answer == 'Y')
            ==> text::texts(found@) == text::texts(sandboxes@),
        found@.len() > 0 ==> exists|start: Seq<char>, end: Seq<char>, letter: char|
            {
                &&& input@ == #[trigger] (start + seq![letter] + end)
                &&& text::is_blank(start) && text::is_blank(end)
                &&& letter == 'y' || letter == 'Y'
            },
{
    reveal_strlit("y");
    reveal_strlit("Y");
    let rest = text::trimmed(input@);
    text::lemma_trimmed(input@);
    let (start, end) = choose|start: Seq<char>, end: Seq<char>|
        input@ == #[trigger] (start + rest + end) && text::is_blank(start) && text::is_blank(end);
    assert("y"@ =~= seq!['y'] && "Y"@ =~= seq!['Y']);
    if input@ == before + seq![answer] + after && (answer == 'y' || answer == 'Y') {
        let at = before.len() as int;
        assert(!text::is_space(answer));
        assert(input@[at] == answer);
        assert(input@.len() == before.len() + 1 + after.len());
        assert forall|i: int| 0 <= i < input@.len() && i != at implies text::is_space(
            #[trigger] input@[i],
        ) by {
            if i < at {
                assert(input@[i] == before[i]);
            } else {
                assert(input@[i] == after[i - at - 1]);
            }
        }
        if rest.len() == 0 {
            if at < start.len() {
                assert(input@[at] == start[at]);
            } else {
                assert(input@[at] == end[at - start.len()]);
            }
        }
        assert(input@[start.len() as int] == rest[0]);
        assert(input@[start.len() + rest.len() - 1] == rest.last());
        assert(rest =~= seq![answer]);
        assert(is_yes(input@));
    }
    if found@.len() > 0 {
        assert(text::texts(found@).len() == found@.len());
        assert(is_yes(input@));
        let letter = rest[0];
        assert(rest =~= seq![letter]);
        assert(input@ == start + seq![letter] + end);
    }
}

/// A sandbox that does not run is pruned under the name of its directory, if that is one which
/// does not end in a dash. One that runs is kept, whatever its name.
pub proof fn lemma_which_sandbox_is_pruned(sandbox: &str, is_running: bool, step: PruneStep)
    requires
        call_ensures(prune_sandbox, (sandbox, is_running), step),
    ensures
        is_running ==> step is Keep,
        step matches PruneStep::Keep(message) ==> message@ == "unexpected invalid sandbox name: "@
            + sandbox@,
        !is_running && name::is_name(sandbox@) && sandbox@.last() != '-' ==> (step
            matches PruneStep::Delete(name) && name@ == sandbox@),
{
    if name::is_name(sandbox@) && sandbox@.last() != '-' {
        name::lemma_sanitizing_keeps_names(sandbox@);
    }
}

/// Whether one of the entries is a directory of this name.
pub open spec fn is_directory_in(entries: Seq<DirEntry>, name: Seq<char>) -> bool {
    exists|i: int|
        0 <= i < entries.len() && (#[trigger] entries[i]).is_dir && entries[i].name is Some
            && entries[i].name.unwrap()@ == name
}

/// A sandbox is known exactly if there is a directory of its name in the runtime directory or
/// in the state directory. The names come in order.
pub proof fn lemma_known_sandboxes(
    runtime_entries: &Vec<DirEntry>,
    state_entries: &Vec<DirEntry>,
    names: Vec<String>,
)
    requires
        call_ensures(
            existing_sandbox_names,
            (Some(runtime_entries), Some(state_entries)),
            names,
        ),
    ensures
        forall|i: int|
            0 <= i < runtime_entries@.len() && (#[trigger] runtime_entries@[i]).is_dir
                && runtime_entries@[i].name is Some ==> text::texts(names@).contains(
                runtime_entries@[i].name.unwrap()@,
            ),
        forall|i: int|
            0 <= i < state_entries@.len() && (#[trigger] state_entries@[i]).is_dir
                && state_entries@[i].name is Some ==> text::texts(names@).contains(
                state_entries@[i].name.unwrap()@,
            ),
        forall|k: int|
            0 <= k < names@.len() ==> is_directory_in(runtime_entries@, (#[trigger] names@[k])@)
                || is_directory_in(state_entries@, names@[k]@),
        forall|i: int, k: int|
            0 <= i < k < names@.len() ==> text::is_before(
                (#[trigger] names@[i])@,
                (#[trigger] names@[k])@,
            ),
{
    let all = text::texts(names@);
    assert forall|i: int|
        0 <= i < runtime_entries@.len() && (#[trigger] runtime_entries@[i]).is_dir
            && runtime_entries@[i].name is Some implies all.contains(
        runtime_entries@[i].name.unwrap()@,
    ) by {
        assert(is_sandbox(runtime_entries@[i], runtime_entries@[i].name.unwrap()@));
    }
    assert forall|i: int|
        0 <= i < state_entries@.len() && (#[trigger] state_entries@[i]).is_dir
            && state_entries@[i].name is Some implies all.contains(
        state_entries@[i].name.unwrap()@,
    ) by {
        assert(is_sandbox(state_entries@[i], state_entries@[i].name.unwrap()@));
    }
    assert forall|k: int| 0 <= k < names@.len() implies is_directory_in(
        runtime_entries@,
        (#[trigger] names@[k])@,
    ) || is_directory_in(state_entries@, names@[k]@) by {
        assert(all[k] == names@[k]@);
        assert(all.contains(names@[k]@));
        if has_sandbox(runtime_entries@, names@[k]@) {
            let i = choose|i: int|
                0 <= i < runtime_entries@.len() && is_sandbox(
                    #[trigger] runtime_entries@[i],
                    names@[k]@,
                );
            assert(runtime_entries@[i].is_dir);
        } else {
            let i = choose|i: int|
                0 <= i < state_entries@.len() && is_sandbox(
                    #[trigger] state_entries@[i],
                    names@[k]@,
                );
            assert(state_entries@[i].is_dir);
        }
    }
    assert forall|i: int, k: int| 0 <= i < k < names@.len() implies text::is_before(
        (#[trigger] names@[i])@,
        (#[trigger] names@[k])@,
    ) by {
        assert(text::is_before(all[i], all[k]));
    }
}

/// What was typed is completed to each name that it is a start of, and to no other.
pub proof fn lemma_completed_names(
    current: &str,
    names: &Vec<String>,
    candidates: Vec<String>,
    rest: Seq<char>,
)
    requires
        call_ensures(complete_sandbox_name, (Some(current), names), candidates),
    ensures
        text::texts(names@).contains(current@ + rest) ==> text::texts(candidates@).contains(
            current@ + rest,
        ),
        forall|i: int|
            0 <= i < candidates@.len() ==> text::texts(names@).contains(
                (#[trigger] candidates@[i])@,
            ) && candidates@[i]@ == current@ + candidates@[i]@.skip(current@.len() as int),
{
    let all = text::texts(names@);
    let found = text::texts(candidates@);
    let kept = |name: Seq<char>| current@.is_prefix_of(name);
    assert(found == all.filter(kept));
    if all.contains(current@ + rest) {
        assert(kept(current@ + rest));
        let at = choose|at: int| 0 <= at < all.len() && all[at] == current@ + rest;
        all.lemma_filter_contains(kept, at);
    }
    assert forall|i: int| 0 <= i < candidates@.len() implies all.contains(
        (#[trigger] candidates@[i])@,
    ) && candidates@[i]@ == current@ + candidates@[i]@.skip(current@.len() as int) by {
        assert(found[i] == candidates@[i]@);
        assert(found.contains(found[i]));
        all.lemma_filter_contains_rev(kept, found[i]);
        assert(kept(found[i]));
        assert(found[i] =~= current@ + found[i].skip(current@.len() as int));
    }
}

/// Whether a socket of a sandbox has a path of at most 107 bytes.
pub open spec fn fits(runtime_dir: Seq<char>, name: Seq<char>, socket: Seq<char>) -> bool {
    vstd::utf8::encode_utf8(paths::join(paths::join(runtime_dir, name), socket + ".sock"@)).len()
        <= 107
}

/// The paths of the sockets are accepted exactly if each of them fits: that of either
/// hypervisor, that of the network and that of each share. The message tells of one that does
/// not.
pub proof fn lemma_accepted_lengths(
    runtime_dir: &str,
    name: &Name,
    shares: &Vec<FsShare>,
    result: Result<(), String>,
)
    requires
        call_ensures(validate_socket_path_lengths, (runtime_dir, name, shares), result),
    ensures
        result is Ok <==> {
            &&& fits(runtime_dir@, name@, "cloud-hypervisor"@)
            &&& fits(runtime_dir@, name@, "qemu-qmp"@)
            &&& fits(runtime_dir@, name@, "passt"@)
            &&& forall|i: int|
                0 <= i < shares@.len() ==> fits(
                    runtime_dir@,
                    name@,
                    "vfsd-"@ + (#[trigger] shares@[i]).name@,
                )
        },
        result matches Err(message) ==> exists|path: Seq<char>|
            {
                &&& vstd::utf8::encode_utf8(path).len() > 107
                &&& message@ == "socket path `"@ + path + "` is "@ + text::decimal(
                    (#[trigger] vstd::utf8::encode_utf8(path)).len(),
                ) + " bytes, which is over the "@ + text::decimal(107)
                    + " byte limit for unix sockets, use a shorter sandbox or share name"@
            },
{
    let dir = paths::join(runtime_dir@, name@);
    let all = socket_names(share_names(shares@));
    lemma_length_error(dir, all);
    assert(all[0] == "cloud-hypervisor"@ && all[1] == "qemu-qmp"@ && all[2] == "passt"@);
    assert(all.len() == shares@.len() + 3);
    assert forall|i: int| 0 <= i < shares@.len() implies all[i + 3] == "vfsd-"@ + (
    #[trigger] shares@[i]).name@ by {}
    if result is Ok {
        assert(!is_too_long(socket_in(dir, all[0])));
        assert(!is_too_long(socket_in(dir, all[1])));
        assert(!is_too_long(socket_in(dir, all[2])));
        assert forall|i: int| 0 <= i < shares@.len() implies fits(
            runtime_dir@,
            name@,
            "vfsd-"@ + (#[trigger] shares@[i]).name@,
        ) by {
            assert(!is_too_long(socket_in(dir, all[i + 3])));
        }
    } else {
        let k = choose|k: int|
            0 <= k < all.len() && is_too_long(socket_in(dir, #[trigger] all[k])) && length_error(
                dir,
                all,
            ) == Some(length_message(socket_in(dir, all[k])));
        let path = socket_in(dir, all[k]);
        assert(vstd::utf8::encode_utf8(path).len() > 107);
        if k >= 3 {
            assert(all[k] == "vfsd-"@ + shares@[k - 3].name@);
            assert(!fits(runtime_dir@, name@, "vfsd-"@ + shares@[k - 3].name@));
        }
    }
}

/// There is an error exactly if one of the paths is too long, and it is about one that is.
proof fn lemma_length_error(dir: Seq<char>, sockets: Seq<Seq<char>>)
    ensures
        length_error(dir, sockets) is None <==> forall|i: int|
            0 <= i < sockets.len() ==> !is_too_long(socket_in(dir, #[trigger] sockets[i])),
        length_error(dir, sockets) is Some ==> exists|i: int|
            0 <= i < sockets.len() && is_too_long(socket_in(dir, #[trigger] sockets[i]))
                && length_error(dir, sockets) == Some(length_message(socket_in(dir, sockets[i]))),
    decreases sockets.len(),
{
    if sockets.len() > 0 {
        let rest = sockets.drop_first();
        lemma_length_error(dir, rest);
        if is_too_long(socket_in(dir, sockets[0])) {
        } else if length_error(dir, rest) is Some {
            let i = choose|i: int|
                0 <= i < rest.len() && is_too_long(socket_in(dir, #[trigger] rest[i]))
                    && length_error(dir, rest) == Some(length_message(socket_in(dir, rest[i])));
            assert(sockets[i + 1] == rest[i]);
        } else {
            assert forall|i: int| 0 <= i < sockets.len() implies !is_too_long(
                socket_in(dir, #[trigger] sockets[i]),
            ) by {
                if i > 0 {
                    assert(rest[i - 1] == sockets[i]);
                }
            }
        }
    }
}

/// The list of sandboxes has a head and a row for each of them, in their order, with its name
/// before its state: what the hypervisor says, or that it is stopped or unknown.
pub proof fn lemma_listed_sandboxes(sandboxes: &Vec<ListedSandbox>, drawn: String)
    requires
        call_ensures(list_sandboxes, (sandboxes,), drawn),
    ensures
        exists|rows: Seq<Seq<Seq<char>>>|
            {
                &&& drawn@ == #[trigger] table::table_text(rows)
                &&& rows.len() == sandboxes@.len() + 1
                &&& rows[0].len() == 2 && rows[0][0] == "name"@ && rows[0][1] == "state"@
                &&& forall|i: int|
                    0 <= i < sandboxes@.len() ==> rows[i + 1].len() == 2 && rows[i + 1][0] == (
                    #[trigger] sandboxes@[i]).name@ && rows[i + 1][1] == (
                    match sandboxes@[i].state {
                        State::Running(state) => state@,
                        State::Stopped => "Stopped"@,
                        State::Unknown => "Unknown"@,
                    })
            },
{
    let view = listed_view(sandboxes@);
    let rows = table::sandbox_records(view);
    assert(drawn@ == table::table_text(rows));
    assert(rows[0] == table::record("name"@, "state"@));
    assert forall|i: int| 0 <= i < sandboxes@.len() implies rows[i + 1].len() == 2 && rows[i + 1][0]
        == (#[trigger] sandboxes@[i]).name@ && rows[i + 1][1] == (match sandboxes@[i].state {
        State::Running(state) => state@,
        State::Stopped => "Stopped"@,
        State::Unknown => "Unknown"@,
    }) by {
        assert(view[i] == (sandboxes@[i].name@, sandboxes@[i].state.text()));
        assert(rows[i + 1] == table::record(view[i].0, view[i].1));
    }
}

/// Each sandbox has a directory of its own name for what lives as long as it runs, and one for
/// what stays, and its sockets lie in the former.
pub proof fn lemma_places_of_sandbox(
    runtime_dir: &str,
    state_dir: &str,
    name: &Name,
    socket: &str,
    dirs: SandboxDirs,
    path: String,
)
    requires
        call_ensures(sandbox_dirs, (runtime_dir, state_dir, name), dirs),
        call_ensures(socket_path, (runtime_dir, name, socket), path),
    ensures
        dirs.runtime@ == paths::join(runtime_dir@, name@),
        dirs.state@ == paths::join(state_dir@, name@),
        path@ == paths::join(dirs.runtime@, socket@ + ".sock"@),
{
}

/// A name is unique exactly if no sandbox runs under it.
pub proof fn lemma_unique_name(is_running: bool, result: Result<(), String>)
    requires
        call_ensures(ensure_unique_name, (is_running,), result),
    ensures
        result is Err <==> is_running,
        result matches Err(message) ==> message@ == "a sandbox with the same name already exists"@,
{
}

} // verus!
