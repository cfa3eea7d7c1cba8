//! Cloud Hypervisor.
use vstd::prelude::*;
use vstd::string::*;

use crate::paths;
use crate::sandbox;
use crate::sandbox::config::Config;
use crate::sandbox::fs;
use crate::sandbox::fs::{FsMount, FsMountView};
use crate::sandbox::hypervisor;
use crate::sandbox::hypervisor::http::ApiResponse;
use crate::sandbox::hypervisor::{Boot, State, Verbosity, VmConfig};
use crate::text;

verus! {

/// How long the hypervisor has to answer, in milliseconds.
pub const API_TIMEOUT_MS: u64 = 5000;

/// How long an answer may be.
pub const MAX_API_RESPONSE_LENGTH: usize = 65536;

/// The name of the socket.
pub const SOCKET_NAME: &'static str = "cloud-hypervisor";

/// Cloud Hypervisor, wherever it is.
#[derive(Debug)]
pub struct CloudHypervisor {
    pub binary: String,
}

/// What the hypervisor says of a microVM.
#[derive(Debug)]
pub struct ChInfo {
    pub state: String,
}

/// The arguments for each of the shares.
pub open spec fn mount_arguments(mounts: Seq<FsMountView>) -> Seq<Seq<char>>
    decreases mounts.len(),
{
    if mounts.len() == 0 {
        Seq::empty()
    } else {
        mount_arguments(mounts.drop_last()).push("--fs"@).push(
            "tag="@ + mounts.last().tag + ",socket="@ + mounts.last().socket_path
                + ",num_queues=1,queue_size=512"@,
        )
    }
}

/// The arguments that come with a network.
pub open spec fn network_arguments(socket: Option<&str>) -> Seq<Seq<char>> {
    match socket {
        Some(socket) => seq!["--net"@, "vhost_user=true,socket="@ + socket@],
        None => Seq::empty(),
    }
}

/// The arguments that make the hypervisor talkative.
pub open spec fn verbosity_arguments(verbosity: Verbosity) -> Seq<Seq<char>> {
    match verbosity {
        Verbosity::Trace => seq!["-vvv"@],
        Verbosity::Debug => seq!["-vv"@],
        Verbosity::Info => seq!["-v"@],
        Verbosity::Quiet => Seq::empty(),
    }
}

/// Where things are in the runtime directory of a sandbox.
pub open spec fn file_in(sandbox_runtime_dir: Seq<char>, extension: Seq<char>) -> Seq<char> {
    paths::join(sandbox_runtime_dir, SOCKET_NAME@ + extension)
}

/// The arguments of the hypervisor before those for the shares. It may read the root file
/// system and nothing else that the overlay refers to.
pub open spec fn disk_arguments(
    config: &VmConfig,
    sandbox_runtime_dir: Seq<char>,
    overlay: Seq<char>,
) -> Seq<Seq<char>> {
    seq![
        "--api-socket"@,
        sandbox::socket_in(sandbox_runtime_dir, SOCKET_NAME@),
        "--log-file"@,
        file_in(sandbox_runtime_dir, ".log"@),
        "--kernel"@,
        config.kernel@,
        "--landlock"@,
        "--landlock-rules"@,
        "path="@ + config.rootfs@ + ",access=r"@,
        "--disk"@,
        "path="@ + overlay + ",image_type=qcow2,backing_files=on"@,
    ]
}

/// The arguments of the hypervisor after those for the shares.
pub open spec fn machine_arguments(config: &VmConfig) -> Seq<Seq<char>> {
    seq![
        "--cmdline"@,
        hypervisor::cmdline_text(config.name@, config.cmdline@, fs::mounts_view(config.mounts@)),
        "--cpus"@,
        "boot="@ + text::decimal(config.cpus as nat),
        "--memory"@,
        "size="@ + text::decimal(config.memory_mb as nat) + "M,shared=on"@,
        "--serial"@,
        "off"@,
        "--console"@,
        "tty"@,
    ]
}

/// Writes the arguments for each of the shares.
pub fn share_arguments(mounts: &Vec<FsMount>) -> (arguments: Vec<String>)
    ensures
        text::texts(arguments@) == mount_arguments(fs::mounts_view(mounts@)),
{
    let ghost all = fs::mounts_view(mounts@);
    let mut arguments: Vec<String> = Vec::new();
    assert(text::texts(arguments@) =~= mount_arguments(all.take(0)));
    for i in 0..mounts.len()
        invariant
            all == fs::mounts_view(mounts@),
            text::texts(arguments@) == mount_arguments(all.take(i as int)),
    {
        assert(all.take(i + 1).drop_last() =~= all.take(i as int));
        assert(all[i as int] == mounts@[i as int]@);
        let mut argument: String = "tag=".to_owned();
        argument.append(mounts[i].tag.as_str());
        argument.append(",socket=");
        argument.append(mounts[i].socket_path.as_str());
        argument.append(",num_queues=1,queue_size=512");
        text::push_text(&mut arguments, "--fs");
        text::push_text(&mut arguments, argument.as_str());
    }
    assert(all.take(all.len() as int) =~= all);
    arguments
}

/// Writes an argument that is a value between two texts.
pub fn argument_of(before: &str, value: &str, after: &str) -> (argument: String)
    ensures
        argument@ == before@ + value@ + after@,
{
    let mut argument: String = before.to_owned();
    argument.append(value);
    argument.append(after);
    argument
}

/// Writes the arguments that come before those for the shares.
fn disk_argument_list(config: &VmConfig, sandbox_runtime_dir: &str, overlay: &str) -> (arguments:
    Vec<String>)
    ensures
        text::texts(arguments@) == disk_arguments(config, sandbox_runtime_dir@, overlay@),
{
    let socket: String = sandbox::socket_path_in(sandbox_runtime_dir, SOCKET_NAME);
    let log_name: String = text::concatenated(SOCKET_NAME, ".log");
    let log: String = paths::joined_path(sandbox_runtime_dir, log_name.as_str());
    let rules: String = argument_of("path=", config.rootfs, ",access=r");
    let disk: String = argument_of("path=", overlay, ",image_type=qcow2,backing_files=on");
    let mut arguments: Vec<String> = Vec::new();
    text::push_text(&mut arguments, "--api-socket");
    text::push_text(&mut arguments, socket.as_str());
    text::push_text(&mut arguments, "--log-file");
    text::push_text(&mut arguments, log.as_str());
    text::push_text(&mut arguments, "--kernel");
    text::push_text(&mut arguments, config.kernel);
    text::push_text(&mut arguments, "--landlock");
    text::push_text(&mut arguments, "--landlock-rules");
    text::push_text(&mut arguments, rules.as_str());
    text::push_text(&mut arguments, "--disk");
    text::push_text(&mut arguments, disk.as_str());
    assert(text::texts(arguments@) =~= disk_arguments(config, sandbox_runtime_dir@, overlay@));
    arguments
}

/// Writes the arguments that come after those for the shares.
pub fn machine_argument_list(config: &VmConfig) -> (arguments: Vec<String>)
    ensures
        text::texts(arguments@) == machine_arguments(config),
{
    let cmdline: String = hypervisor::guest_cmdline(config);
    let cpus: String = text::decimal_string(config.cpus as u64);
    let boot: String = text::concatenated("boot=", cpus.as_str());
    let megabytes: String = text::decimal_string(config.memory_mb);
    let memory: String = argument_of("size=", megabytes.as_str(), "M,shared=on");
    let mut arguments: Vec<String> = Vec::new();
    text::push_text(&mut arguments, "--cmdline");
    text::push_text(&mut arguments, cmdline.as_str());
    text::push_text(&mut arguments, "--cpus");
    text::push_text(&mut arguments, boot.as_str());
    text::push_text(&mut arguments, "--memory");
    text::push_text(&mut arguments, memory.as_str());
    text::push_text(&mut arguments, "--serial");
    text::push_text(&mut arguments, "off");
    text::push_text(&mut arguments, "--console");
    text::push_text(&mut arguments, "tty");
    assert(text::texts(arguments@) =~= machine_arguments(config));
    arguments
}

/// The files of the hypervisor in the runtime directory of a sandbox.
pub open spec fn socket_files(sandbox_runtime_dir: Seq<char>) -> Seq<Seq<char>> {
    seq![
        sandbox::socket_in(sandbox_runtime_dir, SOCKET_NAME@),
        sandbox::socket_in(sandbox_runtime_dir, SOCKET_NAME@) + ".lock"@,
    ]
}

/// Lists the files of the hypervisor in the runtime directory of a sandbox.
fn socket_file_list(socket: &str) -> (files: Vec<String>)
    ensures
        text::texts(files@) == seq![socket@, socket@ + ".lock"@],
{
    let lock: String = text::concatenated(socket, ".lock");
    let mut files: Vec<String> = Vec::new();
    text::push_text(&mut files, socket);
    text::push_text(&mut files, lock.as_str());
    assert(text::texts(files@) =~= seq![socket@, socket@ + ".lock"@]);
    files
}

impl CloudHypervisor {
    /// The hypervisor at the configured place.
    pub fn new(config: Option<&Config>) -> (hypervisor: Self)
        ensures
            hypervisor.binary@ == hypervisor::cloud_hypervisor_path(config),
    {
        match config {
            Some(config) => CloudHypervisor {
                binary: fs::program(&config.cloud_hypervisor, "cloud-hypervisor"),
            },
            None => CloudHypervisor { binary: "cloud-hypervisor".to_owned() },
        }
    }

    /// Plans how a microVM is started. `overlay` is the disk image.
    pub fn boot(
        &self,
        config: &VmConfig,
        sandbox_runtime_dir: &str,
        overlay: &str,
        verbosity: Verbosity,
    ) -> (boot: Boot)
        ensures
            boot.program@ == self.binary@,
            boot.socket_path@ == sandbox::socket_in(sandbox_runtime_dir@, SOCKET_NAME@),
            text::texts(boot.arguments@) == disk_arguments(
                config,
                sandbox_runtime_dir@,
                overlay@,
            ) + mount_arguments(fs::mounts_view(config.mounts@)) + machine_arguments(config)
                + network_arguments(config.network_socket) + verbosity_arguments(verbosity),
            text::texts(boot.stale_files@) == socket_files(sandbox_runtime_dir@),
            text::texts(boot.runtime_files@) == socket_files(sandbox_runtime_dir@),
    {
        let mut arguments: Vec<String> = disk_argument_list(config, sandbox_runtime_dir, overlay);
        let shares: Vec<String> = share_arguments(config.mounts);
        text::push_texts(&mut arguments, &shares);
        let machine: Vec<String> = machine_argument_list(config);
        text::push_texts(&mut arguments, &machine);
        let ghost before = text::texts(arguments@);
        if let Some(socket) = config.network_socket {
            let network: String = text::concatenated("vhost_user=true,socket=", socket);
            text::push_text(&mut arguments, "--net");
            text::push_text(&mut arguments, network.as_str());
        }
        assert(text::texts(arguments@) =~= before + network_arguments(config.network_socket));
        let ghost before = text::texts(arguments@);
        match verbosity {
            Verbosity::Trace => text::push_text(&mut arguments, "-vvv"),
            Verbosity::Debug => text::push_text(&mut arguments, "-vv"),
            Verbosity::Info => text::push_text(&mut arguments, "-v"),
            Verbosity::Quiet => {},
        }
        assert(text::texts(arguments@) =~= before + verbosity_arguments(verbosity));
        let socket_path: String = sandbox::socket_path_in(sandbox_runtime_dir, SOCKET_NAME);
        let stale_files: Vec<String> = socket_file_list(socket_path.as_str());
        let runtime_files: Vec<String> = socket_file_list(socket_path.as_str());
        Boot { program: self.binary.clone(), arguments, socket_path, stale_files, runtime_files }
    }

    /// Tells what state a microVM is in. `response` is what the hypervisor answered when it
    /// was asked for information, and `info` what its body says.
    pub fn state(
        &self,
        connected: bool,
        response: Option<&ApiResponse>,
        info: Option<&ChInfo>,
    ) -> (state: State)
        ensures
            !connected ==> state is Stopped,
            connected ==> if response is Some && 200 <= response.unwrap().status_code < 300
                && info is Some {
                state matches State::Running(text) && text@ == info.unwrap().state@
            } else {
                state is Unknown
            },
    {
        if !connected {
            return State::Stopped;
        }
        if let Some(response) = response {
            if response.success() {
                if let Some(info) = info {
                    return State::Running(info.state.clone());
                }
            }
        }
        State::Unknown
    }
}

/// How far shutting a sandbox down has come.
pub enum ShutdownEvent {
    /// It was looked whether the hypervisor answers at all.
    Checked { connected: bool },
    /// The microVM was asked to shut down. There is no response if asking failed.
    VmAsked(Option<ApiResponse>),
    /// The hypervisor was asked to shut down.
    VmmAsked(Option<ApiResponse>),
}

/// How shutting a sandbox down goes on.
#[derive(Clone, Copy, Debug, PartialEq, Eq, Structural)]
pub enum ShutdownStep {
    /// Send the request to shut the microVM down.
    AskVm,
    /// Send the request to shut the hypervisor down.
    AskVmm,
    Done,
    /// The hypervisor could not be asked.
    NotAsked,
    /// The hypervisor refused.
    Refused,
}

/// Whether a request was granted.
pub open spec fn granted(response: ApiResponse) -> bool {
    200 <= response.status_code < 300
}

/// How shutting a sandbox down goes on. If it is forced it does not matter whether the
/// microVM wants to shut down.
pub open spec fn shutdown_step(event: ShutdownEvent, force: bool) -> ShutdownStep {
    match event {
        ShutdownEvent::Checked { connected } => if connected {
            ShutdownStep::AskVm
        } else {
            ShutdownStep::Done
        },
        ShutdownEvent::VmAsked(None) => ShutdownStep::NotAsked,
        ShutdownEvent::VmAsked(Some(response)) => if force || granted(response) {
            ShutdownStep::AskVmm
        } else {
            ShutdownStep::Refused
        },
        ShutdownEvent::VmmAsked(None) => ShutdownStep::NotAsked,
        ShutdownEvent::VmmAsked(Some(response)) => if granted(response) {
            ShutdownStep::Done
        } else {
            ShutdownStep::Refused
        },
    }
}

impl CloudHypervisor {
    /// Decides how shutting a sandbox down goes on.
    pub fn shutdown(&self, event: ShutdownEvent, force: bool) -> (step: ShutdownStep)
        ensures
            step == shutdown_step(event, force),
    {
        match event {
            ShutdownEvent::Checked { connected } => if connected {
                ShutdownStep::AskVm
            } else {
                ShutdownStep::Done
            },
            ShutdownEvent::VmAsked(response) => match response {
                Some(response) => if force || response.success() {
                    ShutdownStep::AskVmm
                } else {
                    ShutdownStep::Refused
                },
                None => ShutdownStep::NotAsked,
            },
            ShutdownEvent::VmmAsked(response) => match response {
                Some(response) => if response.success() {
                    ShutdownStep::Done
                } else {
                    ShutdownStep::Refused
                },
                None => ShutdownStep::NotAsked,
            },
        }
    }
}

impl ShutdownStep {
    /// The request that a step sends, as its method and path.
    pub open spec fn request_parts(&self) -> Option<(Seq<char>, Seq<char>)> {
        match self {
            ShutdownStep::AskVm => Some(("PUT"@, "vm.shutdown"@)),
            ShutdownStep::AskVmm => Some(("PUT"@, "vmm.shutdown"@)),
            _ => None,
        }
    }

    /// The request that a step sends, as its method and path.
    pub fn request(&self) -> (request: Option<(String, String)>)
        ensures
            match request {
                Some((method, path)) => self.request_parts() == Some((method@, path@)),
                None => self.request_parts() is None,
            },
    {
        match self {
            ShutdownStep::AskVm => Some(("PUT".to_owned(), "vm.shutdown".to_owned())),
            ShutdownStep::AskVmm => Some(("PUT".to_owned(), "vmm.shutdown".to_owned())),
            _ => None,
        }
    }

    /// What went wrong, in words.
    pub open spec fn error_text(&self) -> Option<Seq<char>> {
        match self {
            ShutdownStep::NotAsked => Some(
                "requesting cloud hypervisor to shut down the sandbox"@,
            ),
            ShutdownStep::Refused => Some("shutting down the sandbox was not successful"@),
            _ => None,
        }
    }

    /// What went wrong, in words.
    pub fn error(&self) -> (message: Option<String>)
        ensures
            match message {
                Some(message) => self.error_text() == Some(message@),
                None => self.error_text() is None,
            },
    {
        match self {
            ShutdownStep::NotAsked => Some(
                "requesting cloud hypervisor to shut down the sandbox".to_owned(),
            ),
            ShutdownStep::Refused => Some(
                "shutting down the sandbox was not successful".to_owned(),
            ),
            _ => None,
        }
    }
}

/// A sandbox that does not run is not asked anything, and one that runs counts as shut down
/// only when the hypervisor granted the request to shut itself down.
pub proof fn lemma_shutdown_is_granted(event: ShutdownEvent, force: bool)
    ensures
        shutdown_step(event, force) == ShutdownStep::Done <==> (event matches ShutdownEvent::Checked {
            connected,
        } && !connected) || (event matches ShutdownEvent::VmmAsked(Some(response)) && granted(
            response,
        )),
{
}

/// Each share has two arguments of its own, `--fs` and what it is, in the order of the shares.
pub proof fn lemma_arguments_of_each_share(mounts: &Vec<FsMount>, arguments: Vec<String>)
    requires
        call_ensures(share_arguments, (mounts,), arguments),
    ensures
        arguments@.len() == 2 * mounts@.len(),
        forall|i: int|
            0 <= i < mounts@.len() ==> arguments@[2 * i + 1]@ == "tag="@ + (
            #[trigger] mounts@[i]).tag@ + ",socket="@ + mounts@[i].socket_path@
                + ",num_queues=1,queue_size=512"@ && arguments@[2 * i]@ == "--fs"@,
{
    let all = fs::mounts_view(mounts@);
    lemma_mount_arguments(all);
    let found = text::texts(arguments@);
    assert(found.len() == arguments@.len());
    assert forall|i: int| 0 <= i < mounts@.len() implies arguments@[2 * i + 1]@ == "tag="@ + (
    #[trigger] mounts@[i]).tag@ + ",socket="@ + mounts@[i].socket_path@
        + ",num_queues=1,queue_size=512"@ && arguments@[2 * i]@ == "--fs"@ by {
        assert(all[i] == mounts@[i]@);
        assert(found[2 * i] == arguments@[2 * i]@);
        assert(found[2 * i + 1] == arguments@[2 * i + 1]@);
    }
}

/// Each share has two arguments.
pub proof fn lemma_mount_arguments(mounts: Seq<FsMountView>)
    ensures
        mount_arguments(mounts).len() == 2 * mounts.len(),
        forall|i: int|
            0 <= i < mounts.len() ==> mount_arguments(mounts)[2 * i + 1] == "tag="@ + (
            #[trigger] mounts[i]).tag + ",socket="@ + mounts[i].socket_path
                + ",num_queues=1,queue_size=512"@ && mount_arguments(mounts)[2 * i] == "--fs"@,
    decreases mounts.len(),
{
    if mounts.len() > 0 {
        let rest = mounts.drop_last();
        lemma_mount_arguments(rest);
        assert forall|i: int| 0 <= i < mounts.len() implies mount_arguments(mounts)[2 * i + 1]
            == "tag="@ + (#[trigger] mounts[i]).tag + ",socket="@ + mounts[i].socket_path
            + ",num_queues=1,queue_size=512"@ && mount_arguments(mounts)[2 * i] == "--fs"@ by {
            if i < rest.len() {
                assert(rest[i] == mounts[i]);
            }
        }
    }
}

/// What a microVM is started with, argument by argument. Each option is followed by what it is
/// set to, and behind those for the disk come two for each share.
pub proof fn lemma_boot_arguments(
    hypervisor: &CloudHypervisor,
    config: &VmConfig,
    dir: &str,
    overlay: &str,
    verbosity: Verbosity,
    boot: Boot,
)
    requires
        call_ensures(
            CloudHypervisor::boot,
            (hypervisor, config, dir, overlay, verbosity),
            boot,
        ),
    ensures
        ({
            let found = boot.arguments@;
            let shares: int = config.mounts@.len() as int;
            let rest: int = 11 + 2 * shares;
            let network: int = if config.network_socket is Some {
                2
            } else {
                0
            };
            let talk: int = if verbosity == Verbosity::Quiet {
                0
            } else {
                1
            };
            &&& boot.program@ == hypervisor.binary@
            &&& found.len() == rest + 10 + network + talk
            &&& found[0]@ == "--api-socket"@ && found[1]@ == paths::join(
                dir@,
                "cloud-hypervisor"@ + ".sock"@,
            )
            &&& found[2]@ == "--log-file"@ && found[3]@ == paths::join(
                dir@,
                "cloud-hypervisor"@ + ".log"@,
            )
            &&& found[4]@ == "--kernel"@ && found[5]@ == config.kernel@
            &&& found[6]@ == "--landlock"@ && found[7]@ == "--landlock-rules"@ && found[8]@
                == "path="@ + config.rootfs@ + ",access=r"@
            &&& found[9]@ == "--disk"@ && found[10]@ == "path="@ + overlay@
                + ",image_type=qcow2,backing_files=on"@
            &&& forall|i: int|
                0 <= i < shares ==> found[12 + 2 * i]@ == "tag="@ + (
                #[trigger] config.mounts@[i]).tag@ + ",socket="@ + config.mounts@[i].socket_path@
                    + ",num_queues=1,queue_size=512"@ && found[11 + 2 * i]@ == "--fs"@
            &&& found[rest]@ == "--cmdline"@ && found[rest + 1]@ == hypervisor::cmdline_text(
                config.name@,
                config.cmdline@,
                fs::mounts_view(config.mounts@),
            )
            &&& found[rest + 2]@ == "--cpus"@ && found[rest + 3]@ == "boot="@ + text::decimal(
                config.cpus as nat,
            )
            &&& found[rest + 4]@ == "--memory"@ && found[rest + 5]@ == "size="@ + text::decimal(
                config.memory_mb as nat,
            ) + "M,shared=on"@
            &&& found[rest + 6]@ == "--serial"@ && found[rest + 7]@ == "off"@
            &&& found[rest + 8]@ == "--console"@ && found[rest + 9]@ == "tty"@
            &&& config.network_socket matches Some(socket) ==> found[rest + 10]@ == "--net"@
                && found[rest + 11]@ == "vhost_user=true,socket="@ + socket@
            &&& verbosity == Verbosity::Info ==> found.last()@ == "-v"@
            &&& verbosity == Verbosity::Debug ==> found.last()@ == "-vv"@
            &&& verbosity == Verbosity::Trace ==> found.last()@ == "-vvv"@
        }),
{
    let found = text::texts(boot.arguments@);
    let all = fs::mounts_view(config.mounts@);
    lemma_mount_arguments(all);
    let disk = disk_arguments(config, dir@, overlay@);
    let shares = mount_arguments(all);
    let machine = machine_arguments(config);
    let network = network_arguments(config.network_socket);
    assert(disk.len() == 11 && machine.len() == 10);
    assert forall|i: int| 0 <= i < found.len() implies boot.arguments@[i]@ == #[trigger] found[i] by {}
    assert forall|i: int| 0 <= i < 11 implies boot.arguments@[i]@ == #[trigger] disk[i] by {
        assert(found[i] == disk[i]);
    }
    let rest: int = 11 + 2 * all.len() as int;
    assert forall|i: int| 0 <= i < 10 implies boot.arguments@[rest + i]@ == #[trigger] machine[i] by {
        assert(found[rest + i] == machine[i]);
    }
    assert forall|i: int| 0 <= i < config.mounts@.len() implies boot.arguments@[12 + 2 * i]@
        == "tag="@ + (#[trigger] config.mounts@[i]).tag@ + ",socket="@
        + config.mounts@[i].socket_path@ + ",num_queues=1,queue_size=512"@
        && boot.arguments@[11 + 2 * i]@ == "--fs"@ by {
        assert(all[i] == config.mounts@[i]@);
        assert(found[11 + 2 * i] == shares[2 * i]);
        assert(found[12 + 2 * i] == shares[2 * i + 1]);
    }
    assert(machine[0] == "--cmdline"@);
    assert(boot.arguments@[rest + 0]@ == machine[0]);
    if config.network_socket is Some {
        assert(found[rest + 10] == network[0]);
        assert(found[rest + 11] == network[1]);
    }
    let last = verbosity_arguments(verbosity);
    if verbosity != Verbosity::Quiet {
        assert(found.last() == last[0]);
    }
}

/// What may be left of an earlier run, and what is removed afterwards, is the socket that the
/// hypervisor listens on and the lock beside it.
pub proof fn lemma_boot_files(
    hypervisor: &CloudHypervisor,
    config: &VmConfig,
    dir: &str,
    overlay: &str,
    verbosity: Verbosity,
    boot: Boot,
)
    requires
        call_ensures(
            CloudHypervisor::boot,
            (hypervisor, config, dir, overlay, verbosity),
            boot,
        ),
    ensures
        boot.socket_path@ == paths::join(dir@, "cloud-hypervisor"@ + ".sock"@),
        boot.stale_files@.len() == 2,
        boot.stale_files@[0]@ == boot.socket_path@,
        boot.stale_files@[1]@ == boot.socket_path@ + ".lock"@,
        text::texts(boot.runtime_files@) == text::texts(boot.stale_files@),
{
    let stale = text::texts(boot.stale_files@);
    assert(stale.len() == boot.stale_files@.len());
    assert(stale[0] == boot.stale_files@[0]@ && stale[1] == boot.stale_files@[1]@);
}

/// When each step of shutting a sandbox down comes.
pub proof fn lemma_course_of_shutdown(
    hypervisor: &CloudHypervisor,
    event: ShutdownEvent,
    force: bool,
    step: ShutdownStep,
)
    requires
        call_ensures(CloudHypervisor::shutdown, (hypervisor, event, force), step),
    ensures
        step == ShutdownStep::AskVm <==> event == (ShutdownEvent::Checked { connected: true }),
        step == ShutdownStep::AskVmm <==> (event matches ShutdownEvent::VmAsked(Some(response)) && (
        force || 200 <= response.status_code <= 299)),
        step == ShutdownStep::Done <==> event == (ShutdownEvent::Checked { connected: false }) || (
        event matches ShutdownEvent::VmmAsked(Some(response)) && 200 <= response.status_code
            <= 299),
        step == ShutdownStep::NotAsked <==> event == ShutdownEvent::VmAsked(None) || event
            == ShutdownEvent::VmmAsked(None),
        step == ShutdownStep::Refused <==> (event matches ShutdownEvent::VmAsked(Some(response))
            && !force && !(200 <= response.status_code <= 299)) || (event
            matches ShutdownEvent::VmmAsked(Some(response)) && !(200 <= response.status_code
            <= 299)),
{
}

/// What each step asks the hypervisor for, and what it says if it failed.
pub proof fn lemma_words_of_shutdown(
    step: &ShutdownStep,
    request: Option<(String, String)>,
    message: Option<String>,
)
    requires
        call_ensures(ShutdownStep::request, (step,), request),
        call_ensures(ShutdownStep::error, (step,), message),
    ensures
        request is Some <==> *step == ShutdownStep::AskVm || *step == ShutdownStep::AskVmm,
        request matches Some((method, path)) ==> method@ == "PUT"@ && path@ == (if *step
            == ShutdownStep::AskVm {
            "vm.shutdown"@
        } else {
            "vmm.shutdown"@
        }),
        message is Some <==> *step == ShutdownStep::NotAsked || *step == ShutdownStep::Refused,
        *step == ShutdownStep::NotAsked ==> message.unwrap()@
            == "requesting cloud hypervisor to shut down the sandbox"@,
        *step == ShutdownStep::Refused ==> message.unwrap()@
            == "shutting down the sandbox was not successful"@,
{
}

/// A microVM is stopped exactly if the hypervisor does not answer, and runs exactly if it was
/// granted to look at it and its answer tells a state, which is kept as it is.
pub proof fn lemma_what_hypervisor_says(
    hypervisor: &CloudHypervisor,
    connected: bool,
    response: Option<&ApiResponse>,
    info: Option<&ChInfo>,
    state: State,
)
    requires
        call_ensures(CloudHypervisor::state, (hypervisor, connected, response, info), state),
    ensures
        state is Stopped <==> !connected,
        state is Running <==> connected && (response matches Some(answer) && 200
            <= answer.status_code <= 299) && info is Some,
        state matches State::Running(text) ==> text@ == info.unwrap().state@,
{
}

} // verus!
