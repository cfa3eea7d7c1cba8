//! Creating a sandbox.
//!
//! A name is taken, directories are made, the helpers are started, and then the microVM runs
//! until its console is closed. Here is decided what comes next; doing it is up to the caller.
use vstd::prelude::*;
use vstd::string::*;

use crate::paths;
use crate::sandbox;
use crate::sandbox::config;
use crate::sandbox::config::{Config, FsShare, FsShareView, Network};
use crate::sandbox::console::ConsoleExit;
use crate::sandbox::fs;
use crate::sandbox::fs::{FsMount, FsMountView, Launch};
use crate::sandbox::hypervisor::VmConfig;
use crate::sandbox::lock::LockAttempt;
use crate::sandbox::name::Name;
use crate::sandbox::passt;
use crate::sandbox::passt::PasstNetwork;
use crate::text;

verus! {

/// How starting a helper went.
#[derive(Clone, Copy, Debug, PartialEq, Eq, Structural)]
pub enum HelperStart {
    Ready,
    /// Its process could not be started.
    NotSpawned,
    /// Its process was started, but its socket did not appear.
    NotReady,
}

/// What happened while a sandbox was created.
#[derive(Clone, Copy, Debug, PartialEq, Eq, Structural)]
pub enum CreateEvent {
    Started,
    /// It was looked whether a sandbox of the same name runs.
    NameChecked { is_running: bool },
    LockTried(LockAttempt),
    RuntimeDirCreated { done: bool },
    StateDirCreated { done: bool },
    NetworkStarted(HelperStart),
    ShareStarted(HelperStart),
    ConsoleOpened { done: bool },
    Booted { done: bool },
    /// The console was closed, or failed.
    ConsoleClosed(Option<ConsoleExit>),
    /// The microVM was waited for.
    VmWaited { done: bool },
    VmTerminated,
    LockReleased,
    Deleted { done: bool },
}

/// Why a sandbox is not created.
#[derive(Clone, Copy, Debug, PartialEq, Eq, Structural)]
pub enum CreateFailure {
    NameTaken,
    /// The lock could not be tried.
    Locking,
    LockBusy,
    RuntimeDir,
    NoStateDir,
    StateDir,
    /// The path of a socket is too long.
    SocketPath,
    NetworkSpawn,
    Network,
    ShareSpawn,
    /// The share with this number could not be served.
    Share(usize),
    Waiting,
    /// What was done last has its own reason.
    Outside,
}

/// What to do next.
#[derive(Clone, Copy, Debug, PartialEq, Eq, Structural)]
pub enum CreateAction {
    CheckName,
    AcquireLock,
    CreateRuntimeDir,
    CreateStateDir,
    StartNetwork,
    /// Serve the share with this number.
    StartShare(usize),
    OpenConsole,
    Boot,
    RunConsole,
    /// Wait until the microVM has ended.
    WaitForVm,
    TerminateVm,
    /// Stop the helpers and give the name free.
    ReleaseLock,
    /// Delete the sandbox by force.
    Delete,
    Finish,
    Fail(CreateFailure),
}

/// A sandbox that is being created.
pub struct Creation {
    pub config: Config,
    pub shares: Vec<FsShare>,
    pub recreate: bool,
    pub delete_after_shutdown: bool,
    pub runtime_dir: String,
    pub state_dir: Option<String>,
    /// The shares that are served.
    pub mounts: Vec<FsMount>,
    /// The socket of the network, once that is up.
    pub network_socket: Option<String>,
    /// What was to be done last.
    pub pending: Option<CreateAction>,
}

/// What decides how creating a sandbox goes on.
pub struct CreationView {
    pub wants_network: bool,
    pub has_network: bool,
    pub shares: nat,
    pub mounts: nat,
    pub has_state_dir: bool,
    pub sockets_fit: bool,
    pub delete_after_shutdown: bool,
}

/// The sandbox's part of the runtime directory.
pub open spec fn sandbox_dir(creation: &Creation) -> Seq<char> {
    paths::join(creation.runtime_dir@, creation.config.name@)
}

/// The mount that a share becomes.
pub open spec fn mount_of(dir: Seq<char>, share: FsShareView) -> FsMountView {
    FsMountView {
        tag: share.name,
        socket_path: sandbox::socket_in(dir, fs::share_socket(share.name)),
        read_only: share.read_only,
    }
}

/// Why the paths of the sockets are too long.
pub open spec fn socket_error(creation: &Creation) -> Option<Seq<char>> {
    sandbox::length_error(
        sandbox_dir(creation),
        sandbox::socket_names(sandbox::share_names(creation.shares@)),
    )
}

impl View for Creation {
    type V = CreationView;

    open spec fn view(&self) -> CreationView {
        CreationView {
            wants_network: self.config.network == Network::Lan,
            has_network: self.network_socket is Some,
            shares: self.shares@.len(),
            mounts: self.mounts@.len(),
            has_state_dir: self.state_dir is Some,
            sockets_fit: socket_error(self) is None,
            delete_after_shutdown: self.delete_after_shutdown,
        }
    }
}

/// Whether an event is the outcome of what was to be done.
pub open spec fn fits(event: CreateEvent, pending: Option<CreateAction>) -> bool {
    match event {
        CreateEvent::Started => pending is None,
        CreateEvent::NameChecked { .. } => pending == Some(CreateAction::CheckName),
        CreateEvent::LockTried(_) => pending == Some(CreateAction::AcquireLock),
        CreateEvent::RuntimeDirCreated { .. } => pending == Some(CreateAction::CreateRuntimeDir),
        CreateEvent::StateDirCreated { .. } => pending == Some(CreateAction::CreateStateDir),
        CreateEvent::NetworkStarted(_) => pending == Some(CreateAction::StartNetwork),
        CreateEvent::ShareStarted(_) => pending matches Some(CreateAction::StartShare(_)),
        CreateEvent::ConsoleOpened { .. } => pending == Some(CreateAction::OpenConsole),
        CreateEvent::Booted { .. } => pending == Some(CreateAction::Boot),
        CreateEvent::ConsoleClosed(_) => pending == Some(CreateAction::RunConsole),
        CreateEvent::VmWaited { .. } => pending == Some(CreateAction::WaitForVm),
        CreateEvent::VmTerminated => pending == Some(CreateAction::TerminateVm),
        CreateEvent::LockReleased => pending == Some(CreateAction::ReleaseLock),
        CreateEvent::Deleted { .. } => pending == Some(CreateAction::Delete),
    }
}

/// Serves the next share, or goes on when all of them are served.
pub open spec fn next_share(creation: CreationView) -> CreateAction {
    if creation.mounts < creation.shares {
        CreateAction::StartShare(creation.mounts as usize)
    } else {
        CreateAction::OpenConsole
    }
}

/// Goes on, or fails.
pub open spec fn either(done: bool, next: CreateAction, failure: CreateFailure) -> CreateAction {
    if done {
        next
    } else {
        CreateAction::Fail(failure)
    }
}

/// The sandbox after an event.
pub open spec fn after(creation: CreationView, event: CreateEvent) -> CreationView {
    match event {
        CreateEvent::NetworkStarted(HelperStart::Ready) => CreationView {
            has_network: true,
            ..creation
        },
        CreateEvent::ShareStarted(HelperStart::Ready) => CreationView {
            mounts: creation.mounts + 1,
            ..creation
        },
        _ => creation,
    }
}

/// What to do next after an event.
pub open spec fn next(creation: CreationView, event: CreateEvent) -> CreateAction {
    match event {
        CreateEvent::Started => CreateAction::CheckName,
        CreateEvent::NameChecked { is_running } => either(
            !is_running,
            CreateAction::AcquireLock,
            CreateFailure::NameTaken,
        ),
        CreateEvent::LockTried(attempt) => match attempt {
            LockAttempt::Locked => CreateAction::CreateRuntimeDir,
            LockAttempt::WouldBlock => CreateAction::Fail(CreateFailure::LockBusy),
            _ => CreateAction::Fail(CreateFailure::Locking),
        },
        CreateEvent::RuntimeDirCreated { done } => if !done {
            CreateAction::Fail(CreateFailure::RuntimeDir)
        } else {
            either(
                creation.has_state_dir,
                CreateAction::CreateStateDir,
                CreateFailure::NoStateDir,
            )
        },
        CreateEvent::StateDirCreated { done } => if !done {
            CreateAction::Fail(CreateFailure::StateDir)
        } else if !creation.sockets_fit {
            CreateAction::Fail(CreateFailure::SocketPath)
        } else if creation.wants_network {
            CreateAction::StartNetwork
        } else {
            next_share(creation)
        },
        CreateEvent::NetworkStarted(start) => match start {
            HelperStart::Ready => next_share(creation),
            HelperStart::NotSpawned => CreateAction::Fail(CreateFailure::NetworkSpawn),
            HelperStart::NotReady => CreateAction::Fail(CreateFailure::Network),
        },
        CreateEvent::ShareStarted(start) => match start {
            HelperStart::Ready => next_share(after(creation, event)),
            HelperStart::NotSpawned => CreateAction::Fail(CreateFailure::ShareSpawn),
            HelperStart::NotReady => CreateAction::Fail(
                CreateFailure::Share(creation.mounts as usize),
            ),
        },
        CreateEvent::ConsoleOpened { done } => either(
            done,
            CreateAction::Boot,
            CreateFailure::Outside,
        ),
        CreateEvent::Booted { done } => either(
            done,
            CreateAction::RunConsole,
            CreateFailure::Outside,
        ),
        CreateEvent::ConsoleClosed(exit) => match exit {
            Some(ConsoleExit::GuestGone) => CreateAction::WaitForVm,
            Some(ConsoleExit::Terminated) => CreateAction::TerminateVm,
            None => CreateAction::Fail(CreateFailure::Outside),
        },
        CreateEvent::VmWaited { done } => either(
            done,
            CreateAction::ReleaseLock,
            CreateFailure::Waiting,
        ),
        CreateEvent::VmTerminated => CreateAction::ReleaseLock,
        CreateEvent::LockReleased => if creation.delete_after_shutdown {
            CreateAction::Delete
        } else {
            CreateAction::Finish
        },
        CreateEvent::Deleted { done } => either(done, CreateAction::Finish, CreateFailure::Outside),
    }
}

/// Whether an action comes when everything is up that the microVM needs.
pub open spec fn needs_helpers(action: CreateAction) -> bool {
    match action {
        CreateAction::OpenConsole => true,
        CreateAction::Boot => true,
        CreateAction::RunConsole => true,
        CreateAction::WaitForVm => true,
        CreateAction::TerminateVm => true,
        _ => false,
    }
}

impl Creation {
    /// Whether all is in order. Each share that is served has become a mount, the network is
    /// up exactly if it is wanted as soon as shares are served, and the microVM does not run
    /// before all of them are.
    pub open spec fn wf(&self) -> bool {
        &&& self.mounts@.len() <= self.shares@.len()
        &&& forall|i: int|
            0 <= i < self.mounts@.len() ==> (#[trigger] self.mounts@[i])@ == mount_of(
                sandbox_dir(self),
                self.shares@[i]@,
            )
        &&& self.network_socket matches Some(socket) ==> self@.wants_network && socket@
            == sandbox::socket_in(sandbox_dir(self), passt::SOCKET_NAME@)
        &&& match self.pending {
            None => self.mounts@.len() == 0,
            Some(CreateAction::CheckName) => self.mounts@.len() == 0,
            Some(CreateAction::AcquireLock) => self.mounts@.len() == 0,
            Some(CreateAction::CreateRuntimeDir) => self.mounts@.len() == 0,
            Some(CreateAction::CreateStateDir) => self.mounts@.len() == 0,
            Some(CreateAction::StartNetwork) => self.mounts@.len() == 0 && self@.wants_network
                && self@.sockets_fit,
            Some(CreateAction::StartShare(number)) => number == self.mounts@.len() && number
                < self.shares@.len() && (self@.wants_network ==> self@.has_network)
                && self@.sockets_fit,
            Some(action) => needs_helpers(action) ==> self.mounts@.len() == self.shares@.len()
                && (self@.wants_network ==> self@.has_network) && self@.sockets_fit,
        }
    }

    /// Begins to create a sandbox. The given name and shares come before the configured ones.
    pub fn create_sandbox(
        config: Config,
        shares: Vec<FsShare>,
        name: Option<Name>,
        recreate: bool,
        delete_after_shutdown: bool,
        runtime_dir: &str,
        state_dir: Option<String>,
    ) -> (creation: Self)
        ensures
            creation.wf(),
            creation.config == (Config {
                name: match name {
                    Some(name) => name,
                    None => config.name,
                },
                ..config
            }),
            config::is_merge_of(
                config::shares_view(creation.shares@),
                config::layered(
                    match config.shares {
                        Some(shares) => Some(&shares),
                        None => None,
                    },
                    config::shares_view(shares@),
                ),
            ),
            creation.recreate == recreate,
            creation.delete_after_shutdown == delete_after_shutdown,
            creation.runtime_dir@ == runtime_dir@,
            creation.state_dir == state_dir,
            creation.mounts@.len() == 0,
            creation.network_socket is None,
            creation.pending is None,
    {
        let shares: Vec<FsShare> = config::merge_by_name(config.shares.as_ref(), shares);
        let mut config: Config = config;
        if let Some(name) = name {
            config.name = name;
        }
        Creation {
            config,
            shares,
            recreate,
            delete_after_shutdown,
            runtime_dir: runtime_dir.to_owned(),
            state_dir,
            mounts: Vec::new(),
            network_socket: None,
            pending: None,
        }
    }

    /// Serves the next share, or goes on when all of them are served.
    fn start_next_share(&self) -> (action: CreateAction)
        requires
            self.mounts@.len() <= self.shares@.len(),
        ensures
            action == next_share(self@),
            action matches CreateAction::StartShare(number) ==> number == self.mounts@.len(),
    {
        if self.mounts.len() < self.shares.len() {
            CreateAction::StartShare(self.mounts.len())
        } else {
            CreateAction::OpenConsole
        }
    }

    /// The helper for the network.
    pub fn network_launch(&self) -> (launch: Launch)
        ensures
            launch.program@ == fs::program_path(self.config.passt, "passt"@),
            launch.socket_path@ == sandbox::socket_in(sandbox_dir(self), passt::SOCKET_NAME@),
            text::texts(launch.arguments@) == passt::passt_arguments(
                launch.socket_path@,
                match self.config.dns {
                    Some(servers) => Some(text::texts(servers@)),
                    None => None,
                },
            ),
    {
        PasstNetwork::new(&self.config, self.runtime_dir.as_str()).launch
    }

    /// The helper for the share with this number.
    pub fn share_launch(&self, number: usize) -> (launch: Launch)
        requires
            number < self.shares@.len(),
        ensures
            launch.program@ == fs::program_path(self.config.virtiofsd, "virtiofsd"@),
            launch.socket_path@ == sandbox::socket_in(
                sandbox_dir(self),
                fs::share_socket(self.shares@[number as int].name@),
            ),
            text::texts(launch.arguments@) == fs::virtiofsd_arguments(
                launch.socket_path@,
                self.shares@[number as int]@,
                self.config.guest_uid,
                self.config.guest_gid,
            ),
    {
        FsMount::spawn(&self.config, &self.shares[number], self.runtime_dir.as_str())
    }

    /// What the microVM is made of.
    pub fn vm_config(&self) -> (vm: VmConfig<'_>)
        ensures
            vm.name@ == self.config.name@,
            vm.kernel@ == self.config.kernel@,
            vm.rootfs@ == self.config.rootfs@,
            vm.rootfs_type == self.config.rootfs_type,
            vm.reset_overlay == self.recreate,
            match (vm.network_socket, self.network_socket) {
                (Some(socket), Some(path)) => socket@ == path@,
                (None, None) => true,
                _ => false,
            },
            vm.cmdline@ == self.config.kernel_cmdline@,
            vm.memory_mb == self.config.memory_mb,
            vm.cpus == self.config.cpus,
            *vm.mounts == self.mounts,
    {
        let network_socket: Option<&str> = match &self.network_socket {
            Some(path) => Some(path.as_str()),
            None => None,
        };
        VmConfig {
            name: &self.config.name,
            kernel: self.config.kernel.as_str(),
            rootfs: self.config.rootfs.as_str(),
            rootfs_type: self.config.rootfs_type,
            reset_overlay: self.recreate,
            network_socket,
            cmdline: self.config.kernel_cmdline.as_str(),
            memory_mb: self.config.memory_mb,
            cpus: self.config.cpus,
            mounts: &self.mounts,
        }
    }

    /// Takes an event in and tells what to do next.
    pub fn advance(&mut self, event: CreateEvent) -> (action: CreateAction)
        requires
            old(self).wf(),
            fits(event, old(self).pending),
        ensures
            final(self).wf(),
            action == next(old(self)@, event),
            final(self)@ == after(old(self)@, event),
            final(self).pending == Some(action),
            final(self).config == old(self).config,
            final(self).shares == old(self).shares,
            final(self).recreate == old(self).recreate,
            final(self).runtime_dir == old(self).runtime_dir,
            final(self).state_dir == old(self).state_dir,
    {
        let action: CreateAction = match event {
            CreateEvent::Started => CreateAction::CheckName,
            CreateEvent::NameChecked { is_running } => if is_running {
                CreateAction::Fail(CreateFailure::NameTaken)
            } else {
                CreateAction::AcquireLock
            },
            CreateEvent::LockTried(attempt) => match attempt {
                LockAttempt::Locked => CreateAction::CreateRuntimeDir,
                LockAttempt::WouldBlock => CreateAction::Fail(CreateFailure::LockBusy),
                _ => CreateAction::Fail(CreateFailure::Locking),
            },
            CreateEvent::RuntimeDirCreated { done } => if !done {
                CreateAction::Fail(CreateFailure::RuntimeDir)
            } else if self.state_dir.is_none() {
                CreateAction::Fail(CreateFailure::NoStateDir)
            } else {
                CreateAction::CreateStateDir
            },
            CreateEvent::StateDirCreated { done } => if !done {
                CreateAction::Fail(CreateFailure::StateDir)
            } else if self.socket_failure().is_some() {
                CreateAction::Fail(CreateFailure::SocketPath)
            } else if self.config.network == Network::Lan {
                CreateAction::StartNetwork
            } else {
                self.start_next_share()
            },
            CreateEvent::NetworkStarted(start) => match start {
                HelperStart::Ready => {
                    let launch: Launch = self.network_launch();
                    self.network_socket = Some(launch.socket_path);
                    self.start_next_share()
                },
                HelperStart::NotSpawned => CreateAction::Fail(CreateFailure::NetworkSpawn),
                HelperStart::NotReady => CreateAction::Fail(CreateFailure::Network),
            },
            CreateEvent::ShareStarted(start) => match start {
                HelperStart::Ready => {
                    let number: usize = self.mounts.len();
                    let launch: Launch = self.share_launch(number);
                    let mount: FsMount = FsMount::mounted(
                        &self.shares[number],
                        launch.socket_path,
                    );
                    self.mounts.push(mount);
                    self.start_next_share()
                },
                HelperStart::NotSpawned => CreateAction::Fail(CreateFailure::ShareSpawn),
                HelperStart::NotReady => CreateAction::Fail(
                    CreateFailure::Share(self.mounts.len()),
                ),
            },
            CreateEvent::ConsoleOpened { done } => if done {
                CreateAction::Boot
            } else {
                CreateAction::Fail(CreateFailure::Outside)
            },
            CreateEvent::Booted { done } => if done {
                CreateAction::RunConsole
            } else {
                CreateAction::Fail(CreateFailure::Outside)
            },
            CreateEvent::ConsoleClosed(exit) => match exit {
                Some(ConsoleExit::GuestGone) => CreateAction::WaitForVm,
                Some(ConsoleExit::Terminated) => CreateAction::TerminateVm,
                None => CreateAction::Fail(CreateFailure::Outside),
            },
            CreateEvent::VmWaited { done } => if done {
                CreateAction::ReleaseLock
            } else {
                CreateAction::Fail(CreateFailure::Waiting)
            },
            CreateEvent::VmTerminated => CreateAction::ReleaseLock,
            CreateEvent::LockReleased => if self.delete_after_shutdown {
                CreateAction::Delete
            } else {
                CreateAction::Finish
            },
            CreateEvent::Deleted { done } => if done {
                CreateAction::Finish
            } else {
                CreateAction::Fail(CreateFailure::Outside)
            },
        };
        self.pending = Some(action);
        action
    }

    /// Why the paths of the sockets are too long.
    fn socket_failure(&self) -> (message: Option<String>)
        ensures
            match message {
                Some(message) => socket_error(self) == Some(message@),
                None => socket_error(self) is None,
            },
    {
        match sandbox::validate_socket_path_lengths(
            self.runtime_dir.as_str(),
            &self.config.name,
            &self.shares,
        ) {
            Ok(()) => None,
            Err(message) => Some(message),
        }
    }

    /// What went wrong, in words, where it is not what was done last that says so.
    pub open spec fn failure_text(&self, failure: CreateFailure) -> Option<Seq<char>> {
        match failure {
            CreateFailure::NameTaken => Some("a sandbox with the same name already exists"@),
            CreateFailure::LockBusy => Some(
                "failed to acquire lock, a sandbox with the same name is already running"@,
            ),
            CreateFailure::RuntimeDir => Some("creating runtime directory for sandbox"@),
            CreateFailure::NoStateDir => Some(
                "locating state directory with XDG_STATE_HOME or HOME/.local/state"@,
            ),
            CreateFailure::StateDir => Some("creating state directory for sandbox"@),
            CreateFailure::SocketPath => socket_error(self),
            CreateFailure::NetworkSpawn => Some("spawing passt"@),
            CreateFailure::Network => Some("starting the sandbox network"@),
            CreateFailure::ShareSpawn => Some("spawning virtiofsd"@),
            CreateFailure::Share(number) => if number < self.shares@.len() {
                Some("sharing `"@ + self.shares@[number as int].host_dir@ + "`"@)
            } else {
                None
            },
            CreateFailure::Waiting => Some("waiting for sandbox to exit"@),
            CreateFailure::Locking => None,
            CreateFailure::Outside => None,
        }
    }

    /// What went wrong, in words, where it is not what was done last that says so.
    pub fn failure_message(&self, failure: CreateFailure) -> (message: Option<String>)
        ensures
            match message {
                Some(message) => self.failure_text(failure) == Some(message@),
                None => self.failure_text(failure) is None,
            },
    {
        match failure {
            CreateFailure::NameTaken => match sandbox::ensure_unique_name(true) {
                Ok(()) => None,
                Err(message) => Some(message),
            },
            CreateFailure::LockBusy => Some(
                "failed to acquire lock, a sandbox with the same name is already running".to_owned(),
            ),
            CreateFailure::RuntimeDir => Some("creating runtime directory for sandbox".to_owned()),
            CreateFailure::NoStateDir => Some(
                "locating state directory with XDG_STATE_HOME or HOME/.local/state".to_owned(),
            ),
            CreateFailure::StateDir => Some("creating state directory for sandbox".to_owned()),
            CreateFailure::SocketPath => self.socket_failure(),
            CreateFailure::NetworkSpawn => Some("spawing passt".to_owned()),
            CreateFailure::Network => Some("starting the sandbox network".to_owned()),
            CreateFailure::ShareSpawn => Some("spawning virtiofsd".to_owned()),
            CreateFailure::Share(number) => if number < self.shares.len() {
                let mut message: String = "sharing `".to_owned();
                message.append(self.shares[number].host_dir.as_str());
                message.append("`");
                Some(message)
            } else {
                None
            },
            CreateFailure::Waiting => Some("waiting for sandbox to exit".to_owned()),
            CreateFailure::Locking => None,
            CreateFailure::Outside => None,
        }
    }
}

/// The microVM is booted only when the console is open and all helpers run, and the sandbox
/// is deleted only after its lock was given free, and only if that was asked for.
pub proof fn lemma_order_of_creation(creation: CreationView, event: CreateEvent)
    ensures
        next(creation, event) == CreateAction::Boot <==> event == (CreateEvent::ConsoleOpened {
            done: true,
        }),
        next(creation, event) == CreateAction::OpenConsole ==> after(creation, event).mounts
            >= creation.shares,
        next(creation, event) == CreateAction::Delete <==> event == CreateEvent::LockReleased
            && creation.delete_after_shutdown,
        next(creation, event) == CreateAction::CreateRuntimeDir <==> event
            == CreateEvent::LockTried(LockAttempt::Locked),
{
}

/// When each action comes. The console is opened as soon as the directories are there, the
/// sockets fit, the network is up if it is wanted, and all shares are served, however many
/// there are. It is all over when the lock was given free, or when the sandbox was deleted
/// after that if that was asked for, and never before.
pub proof fn lemma_course_of_creation(creation: &Creation, event: CreateEvent)
    requires
        creation.mounts@.len() <= creation.shares@.len(),
    ensures
        ({
            let action = next(creation@, event);
            let served = creation.mounts@.len();
            let wanted = creation.shares@.len();
            let lan = creation.config.network == Network::Lan;
            let dirs_made = event == (CreateEvent::StateDirCreated { done: true });
            let sockets_fit = socket_error(creation) is None;
            let helpers_started = dirs_made && sockets_fit && !lan || event
                == CreateEvent::NetworkStarted(HelperStart::Ready);
            let share_started = event == CreateEvent::ShareStarted(HelperStart::Ready);
            &&& action == CreateAction::CheckName <==> event == CreateEvent::Started
            &&& action == CreateAction::AcquireLock <==> event == (CreateEvent::NameChecked {
                is_running: false,
            })
            &&& action == CreateAction::CreateRuntimeDir <==> event == CreateEvent::LockTried(
                LockAttempt::Locked,
            )
            &&& action == CreateAction::CreateStateDir <==> event
                == (CreateEvent::RuntimeDirCreated { done: true }) && creation.state_dir is Some
            &&& action == CreateAction::StartNetwork <==> dirs_made && sockets_fit && lan
            &&& action is StartShare <==> (helpers_started && served < wanted) || (share_started
                && served + 1 < wanted)
            &&& action matches CreateAction::StartShare(number) ==> number == (if share_started {
                served + 1
            } else {
                served
            })
            &&& action == CreateAction::OpenConsole <==> (helpers_started && served == wanted) || (
            share_started && served + 1 >= wanted)
            &&& action == CreateAction::Boot <==> event == (CreateEvent::ConsoleOpened {
                done: true,
            })
            &&& action == CreateAction::RunConsole <==> event == (CreateEvent::Booted {
                done: true,
            })
            &&& action == CreateAction::WaitForVm <==> event == CreateEvent::ConsoleClosed(
                Some(ConsoleExit::GuestGone),
            )
            &&& action == CreateAction::TerminateVm <==> event == CreateEvent::ConsoleClosed(
                Some(ConsoleExit::Terminated),
            )
            &&& action == CreateAction::ReleaseLock <==> event == (CreateEvent::VmWaited {
                done: true,
            }) || event == CreateEvent::VmTerminated
            &&& action == CreateAction::Delete <==> event == CreateEvent::LockReleased
                && creation.delete_after_shutdown
            &&& action == CreateAction::Finish <==> (event == CreateEvent::LockReleased
                && !creation.delete_after_shutdown) || event == (CreateEvent::Deleted {
                done: true,
            })
        }),
{
    assert(creation.mounts@.len() == creation.mounts.len());
    assert(creation.shares@.len() == creation.shares.len());
}

/// Each failure comes where something failed that must not, and nowhere else.
pub proof fn lemma_failures_of_creation(creation: &Creation, event: CreateEvent)
    ensures
        ({
            let action = next(creation@, event);
            let dirs_made = event == (CreateEvent::StateDirCreated { done: true });
            &&& action == CreateAction::Fail(CreateFailure::NameTaken) <==> event
                == (CreateEvent::NameChecked { is_running: true })
            &&& action == CreateAction::Fail(CreateFailure::LockBusy) <==> event
                == CreateEvent::LockTried(LockAttempt::WouldBlock)
            &&& action == CreateAction::Fail(CreateFailure::Locking) <==> (event
                matches CreateEvent::LockTried(attempt) && attempt != LockAttempt::Locked && attempt
                != LockAttempt::WouldBlock)
            &&& action == CreateAction::Fail(CreateFailure::RuntimeDir) <==> event
                == (CreateEvent::RuntimeDirCreated { done: false })
            &&& action == CreateAction::Fail(CreateFailure::NoStateDir) <==> event
                == (CreateEvent::RuntimeDirCreated { done: true }) && creation.state_dir is None
            &&& action == CreateAction::Fail(CreateFailure::StateDir) <==> event
                == (CreateEvent::StateDirCreated { done: false })
            &&& action == CreateAction::Fail(CreateFailure::SocketPath) <==> dirs_made
                && socket_error(creation) is Some
            &&& action == CreateAction::Fail(CreateFailure::NetworkSpawn) <==> event
                == CreateEvent::NetworkStarted(HelperStart::NotSpawned)
            &&& action == CreateAction::Fail(CreateFailure::Network) <==> event
                == CreateEvent::NetworkStarted(HelperStart::NotReady)
            &&& action == CreateAction::Fail(CreateFailure::ShareSpawn) <==> event
                == CreateEvent::ShareStarted(HelperStart::NotSpawned)
            &&& (action matches CreateAction::Fail(failure) && failure is Share) <==> event
                == CreateEvent::ShareStarted(HelperStart::NotReady)
            &&& action matches CreateAction::Fail(CreateFailure::Share(number)) ==> number
                == creation.mounts@.len()
            &&& action == CreateAction::Fail(CreateFailure::Waiting) <==> event
                == (CreateEvent::VmWaited { done: false })
            &&& action == CreateAction::Fail(CreateFailure::Outside) <==> event
                == (CreateEvent::ConsoleOpened { done: false }) || event == (CreateEvent::Booted {
                done: false,
            }) || event == CreateEvent::ConsoleClosed(None) || event == (CreateEvent::Deleted {
                done: false,
            })
        }),
{
    assert(creation.mounts@.len() == creation.mounts.len());
}

/// Nothing but a helper that came up changes how far creating a sandbox has come, and that by
/// one network or one share.
pub proof fn lemma_progress_of_creation(creation: CreationView, event: CreateEvent)
    ensures
        ({
            let later = after(creation, event);
            &&& later.wants_network == creation.wants_network
            &&& later.shares == creation.shares
            &&& later.has_state_dir == creation.has_state_dir
            &&& later.sockets_fit == creation.sockets_fit
            &&& later.delete_after_shutdown == creation.delete_after_shutdown
            &&& later.has_network <==> creation.has_network || event == CreateEvent::NetworkStarted(
                HelperStart::Ready,
            )
            &&& later.mounts == creation.mounts + (if event == CreateEvent::ShareStarted(
                HelperStart::Ready,
            ) {
                1nat
            } else {
                0nat
            })
        }),
{
}

/// A share is mounted under its own name, from the socket of its own helper, and can be written
/// exactly if the share can.
pub proof fn lemma_mount_of_share(dir: Seq<char>, share: FsShareView)
    ensures
        mount_of(dir, share).tag == share.name,
        mount_of(dir, share).read_only == share.read_only,
        mount_of(dir, share).socket_path == paths::join(dir, "vfsd-"@ + share.name + ".sock"@),
{
}

/// Why a sandbox is not created, in words.
pub proof fn lemma_words_of_creation(
    creation: &Creation,
    failure: CreateFailure,
    message: Option<String>,
)
    requires
        call_ensures(Creation::failure_message, (creation, failure), message),
    ensures
        failure == CreateFailure::Locking || failure == CreateFailure::Outside ==> message is None,
        failure == CreateFailure::NameTaken ==> message.unwrap()@
            == "a sandbox with the same name already exists"@ && message is Some,
        failure == CreateFailure::LockBusy ==> message is Some && message.unwrap()@
            == "failed to acquire lock, a sandbox with the same name is already running"@,
        failure == CreateFailure::RuntimeDir ==> message is Some && message.unwrap()@
            == "creating runtime directory for sandbox"@,
        failure == CreateFailure::NoStateDir ==> message is Some && message.unwrap()@
            == "locating state directory with XDG_STATE_HOME or HOME/.local/state"@,
        failure == CreateFailure::StateDir ==> message is Some && message.unwrap()@
            == "creating state directory for sandbox"@,
        failure == CreateFailure::NetworkSpawn ==> message is Some && message.unwrap()@
            == "spawing passt"@,
        failure == CreateFailure::Network ==> message is Some && message.unwrap()@
            == "starting the sandbox network"@,
        failure == CreateFailure::ShareSpawn ==> message is Some && message.unwrap()@
            == "spawning virtiofsd"@,
        failure == CreateFailure::Waiting ==> message is Some && message.unwrap()@
            == "waiting for sandbox to exit"@,
        failure matches CreateFailure::Share(number) ==> number < creation.shares@.len()
            ==> message is Some && message.unwrap()@ == "sharing `"@
            + creation.shares@[number as int].host_dir@ + "`"@,
        failure matches CreateFailure::Share(number) ==> number >= creation.shares@.len()
            ==> message is None,
{
}

/// Whether there is a socket whose path is too long is told by the names of the sandbox and of
/// its shares, and by nothing else.
pub proof fn lemma_when_sockets_fit(
    creation: &Creation,
    runtime_dir: &str,
    name: &Name,
    shares: &Vec<FsShare>,
    result: Result<(), String>,
)
    requires
        call_ensures(sandbox::validate_socket_path_lengths, (runtime_dir, name, shares), result),
        creation.runtime_dir@ == runtime_dir@,
        creation.config.name@ == name@,
        creation.shares@ == shares@,
    ensures
        creation@.sockets_fit <==> result is Ok,
        result matches Err(message) ==> socket_error(creation) == Some(message@),
{
}

/// The microVM gets all that was configured, the shares that are served, and the network if it
/// is up.
pub proof fn lemma_vm_as_configured(creation: &Creation, vm: VmConfig)
    requires
        call_ensures(Creation::vm_config, (creation,), vm),
    ensures
        vm.name@ == creation.config.name@,
        vm.kernel@ == creation.config.kernel@,
        vm.rootfs@ == creation.config.rootfs@,
        vm.rootfs_type == creation.config.rootfs_type,
        vm.cmdline@ == creation.config.kernel_cmdline@,
        vm.memory_mb == creation.config.memory_mb,
        vm.cpus == creation.config.cpus,
        vm.reset_overlay == creation.recreate,
        vm.mounts@ == creation.mounts@,
        vm.network_socket is Some <==> creation.network_socket is Some,
        vm.network_socket matches Some(socket) ==> socket@ == creation.network_socket.unwrap()@,
{
}

/// The name that was given comes before the configured one. All else is as configured, and
/// nothing is up yet.
pub proof fn lemma_beginning_of_creation(
    config: Config,
    shares: Vec<FsShare>,
    name: Option<Name>,
    recreate: bool,
    delete_after_shutdown: bool,
    runtime_dir: &str,
    state_dir: Option<String>,
    creation: Creation,
)
    requires
        call_ensures(
            Creation::create_sandbox,
            (config, shares, name, recreate, delete_after_shutdown, runtime_dir, state_dir),
            creation,
        ),
    ensures
        name matches Some(given) ==> creation.config.name@ == given@,
        name is None ==> creation.config.name@ == config.name@,
        creation.config.kernel@ == config.kernel@,
        creation.config.rootfs@ == config.rootfs@,
        creation.config.kernel_cmdline@ == config.kernel_cmdline@,
        creation.config.memory_mb == config.memory_mb,
        creation.config.cpus == config.cpus,
        creation.config.network == config.network,
        creation.config.dns == config.dns,
        creation.recreate == recreate,
        creation.delete_after_shutdown == delete_after_shutdown,
        creation.runtime_dir@ == runtime_dir@,
        creation.state_dir == state_dir,
        creation.mounts@.len() == 0 && creation.network_socket is None && creation.pending is None,
        forall|i: int|
            0 <= i < shares@.len() && (forall|k: int|
                i < k < shares@.len() ==> (#[trigger] shares@[k]).name@ != shares@[i].name@)
                ==> config::shares_view(creation.shares@).contains((#[trigger] shares@[i])@),
        config.shares is None ==> forall|i: int|
            0 <= i < creation.shares@.len() ==> config::shares_view(shares@).contains(
                (#[trigger] creation.shares@[i])@,
            ),
{
    let given = config::shares_view(shares@);
    let found = config::shares_view(creation.shares@);
    let base = match config.shares {
        Some(list) => config::shares_view(list@),
        None => Seq::empty(),
    };
    if config.shares is None {
        assert(base + given =~= given);
    }
    config::lemma_merged_shares(found, base, given);
    assert forall|i: int|
        0 <= i < shares@.len() && (forall|k: int|
            i < k < shares@.len() ==> (#[trigger] shares@[k]).name@ != shares@[i].name@)
            implies found.contains((#[trigger] shares@[i])@) by {
        assert(given[i] == shares@[i]@);
        assert forall|k: int| i < k < given.len() implies (#[trigger] given[k]).name
            != given[i].name by {
            assert(given[k] == shares@[k]@);
            assert(shares@[k].name@ != shares@[i].name@);
        }
    }
    if config.shares is None {
        assert forall|i: int| 0 <= i < creation.shares@.len() implies given.contains(
            (#[trigger] creation.shares@[i])@,
        ) by {
            assert(found[i] == creation.shares@[i]@);
        }
    }
}

/// What an event changes of a sandbox that is being created: a network that came up, or one
/// more share that is served, and nothing else.
pub proof fn lemma_what_advancing_changes(
    creation: &mut Creation,
    event: CreateEvent,
    action: CreateAction,
)
    requires
        call_ensures(Creation::advance, (creation, event), action),
        old(creation).wf(),
        fits(event, old(creation).pending),
    ensures
        final(creation).pending == Some(action),
        final(creation).network_socket is Some <==> old(creation).network_socket is Some || event
            == CreateEvent::NetworkStarted(HelperStart::Ready),
        final(creation).mounts@.len() == old(creation).mounts@.len() + (if event
            == CreateEvent::ShareStarted(HelperStart::Ready) {
            1int
        } else {
            0
        }),
        forall|i: int|
            0 <= i < final(creation).mounts@.len() ==> (#[trigger] final(creation).mounts@[i]).tag@
                == old(creation).shares@[i].name@ && final(creation).mounts@[i].read_only == old(creation).shares@[i].read_only && final(creation).mounts@[i].socket_path@ == paths::join(
                paths::join(old(creation).runtime_dir@, old(creation).config.name@),
                "vfsd-"@ + old(creation).shares@[i].name@ + ".sock"@,
            ),
        action == CreateAction::OpenConsole ==> final(creation).mounts@.len() == old(creation).shares@.len() && (old(creation).config.network == Network::Lan ==> final(creation).network_socket is Some),
        final(creation).shares@ == old(creation).shares@,
        final(creation).config == old(creation).config,
{
    assert(final(creation)@ == after(old(creation)@, event));
    assert(final(creation)@.mounts == final(creation).mounts@.len());
    assert(old(creation)@.mounts == old(creation).mounts@.len());
    assert forall|i: int| 0 <= i < final(creation).mounts@.len() implies (
    #[trigger] final(creation).mounts@[i]).tag@ == old(creation).shares@[i].name@ && final(creation).mounts@[i].read_only == old(creation).shares@[i].read_only && final(creation).mounts@[i].socket_path@ == paths::join(
        paths::join(old(creation).runtime_dir@, old(creation).config.name@),
        "vfsd-"@ + old(creation).shares@[i].name@ + ".sock"@,
    ) by {
        assert(final(creation).mounts@[i]@ == mount_of(
            sandbox_dir(final(creation)),
            final(creation).shares@[i]@,
        ));
    }
}

/// The console is opened by the event with which all is up, and creating is over with the event
/// by which nothing is left to do.
pub proof fn lemma_when_advancing_opens_and_ends(
    creation: &mut Creation,
    event: CreateEvent,
    action: CreateAction,
)
    requires
        call_ensures(Creation::advance, (creation, event), action),
        old(creation).mounts@.len() <= old(creation).shares@.len(),
    ensures
        ({
            let served = old(creation).mounts@.len();
            let wanted = old(creation).shares@.len();
            let lan = old(creation).config.network == Network::Lan;
            &&& action == CreateAction::OpenConsole <==> {
                ||| event == (CreateEvent::StateDirCreated { done: true }) && socket_error(
                    old(creation),
                ) is None && !lan && served == wanted
                ||| event == CreateEvent::NetworkStarted(HelperStart::Ready) && served == wanted
                ||| event == CreateEvent::ShareStarted(HelperStart::Ready) && served + 1 >= wanted
            }
            &&& action == CreateAction::Finish <==> {
                ||| event == CreateEvent::LockReleased && !old(creation).delete_after_shutdown
                ||| event == (CreateEvent::Deleted { done: true })
            }
        }),
{
    assert(old(creation).mounts@.len() == old(creation).mounts.len());
    assert(old(creation).shares@.len() == old(creation).shares.len());
}

/// The helpers of a sandbox are those that its configuration asks for: the one for its network,
/// and for each share the one that serves this share.
pub proof fn lemma_helpers_of_sandbox(
    creation: &Creation,
    number: usize,
    network: Launch,
    share: Launch,
    planned: PasstNetwork,
    spawned: Launch,
    runtime_dir: &str,
)
    requires
        number < creation.shares@.len(),
        runtime_dir@ == creation.runtime_dir@,
        call_ensures(Creation::network_launch, (creation,), network),
        call_ensures(Creation::share_launch, (creation, number), share),
        call_ensures(PasstNetwork::new, (&creation.config, runtime_dir), planned),
        call_ensures(
            FsMount::spawn,
            (&creation.config, &creation.shares@[number as int], runtime_dir),
            spawned,
        ),
    ensures
        network.program@ == planned.launch.program@,
        network.socket_path@ == planned.launch.socket_path@,
        text::texts(network.arguments@) == text::texts(planned.launch.arguments@),
        share.program@ == spawned.program@,
        share.socket_path@ == spawned.socket_path@,
        text::texts(share.arguments@) == text::texts(spawned.arguments@),
{
}

} // verus!
