//! QEMU.
use vstd::prelude::*;
use vstd::string::*;

use crate::paths;
use crate::sandbox;
use crate::sandbox::config::Config;
use crate::sandbox::fs;
use crate::sandbox::fs::{FsMount, FsMountView};
use crate::sandbox::hypervisor;
use crate::sandbox::hypervisor::cloud_hypervisor::argument_of;
use crate::sandbox::hypervisor::{Boot, State, Verbosity, VmConfig};
use crate::text;

verus! {

/// How long QEMU has to answer, in milliseconds.
pub const QMP_TIMEOUT_MS: u64 = 5000;

/// The name of the memory that QEMU shares with its helpers.
pub const MEMORY_BACKEND: &'static str = "guest-memory";

/// The name of the socket.
pub const SOCKET_NAME: &'static str = "qemu-qmp";

/// QEMU, wherever it is.
#[derive(Debug)]
pub struct Qemu {
    pub binary: String,
}

/// The arguments for each of the shares.
pub open spec fn mount_arguments(mounts: Seq<FsMountView>) -> Seq<Seq<char>>
    decreases mounts.len(),
{
    if mounts.len() == 0 {
        Seq::empty()
    } else {
        let mount = mounts.last();
        mount_arguments(mounts.drop_last()) + seq![
            "-chardev"@,
            "socket,id=char-"@ + mount.tag + ",path="@ + mount.socket_path,
            "-device"@,
            "vhost-user-fs-device,queue-size=512,chardev=char-"@ + mount.tag + ",tag="@
                + mount.tag,
        ]
    }
}

/// The arguments for the machine itself.
pub open spec fn machine_arguments(config: &VmConfig) -> Seq<Seq<char>> {
    seq![
        "-machine"@,
        "microvm,x-option-roms=off,pit=off,pic=off,isa-serial=off,rtc=off,memory-backend="@
            + MEMORY_BACKEND@,
        "-object"@,
        "memory-backend-memfd,id="@ + MEMORY_BACKEND@ + ",size="@ + text::decimal(
            config.memory_mb as nat,
        ) + "M,share=on"@,
        "-enable-kvm"@,
        "-cpu"@,
        "host"@,
        "-m"@,
        text::decimal(config.memory_mb as nat) + "m"@,
        "-smp"@,
        text::decimal(config.cpus as nat),
        "-kernel"@,
        config.kernel@,
        "-append"@,
        hypervisor::cmdline_text(config.name@, config.cmdline@, fs::mounts_view(config.mounts@)),
    ]
}

/// The arguments for the console and the disk. Ctrl-C is for the guest, not for QEMU.
pub open spec fn device_arguments(overlay: Seq<char>) -> Seq<Seq<char>> {
    seq![
        "-serial"@,
        "stdio"@,
        "-nodefaults"@,
        "-no-reboot"@,
        "-no-user-config"@,
        "-nographic"@,
        "-chardev"@,
        "stdio,id=virtiocon0,signal=off"@,
        "-device"@,
        "virtio-serial-device"@,
        "-device"@,
        "virtconsole,chardev=virtiocon0"@,
        "-drive"@,
        "id=root,file="@ + overlay + ",format=qcow2,if=none"@,
        "-device"@,
        "virtio-blk-device,drive=root"@,
    ]
}

/// The arguments for the control socket and the log.
pub open spec fn control_arguments(sandbox_runtime_dir: Seq<char>) -> Seq<Seq<char>> {
    seq![
        "-qmp"@,
        "unix:"@ + sandbox::socket_in(sandbox_runtime_dir, SOCKET_NAME@) + ",server=on,wait=off"@,
        "-D"@,
        paths::join(sandbox_runtime_dir, SOCKET_NAME@ + ".log"@),
        "-global"@,
        "virtio-mmio.force-legacy=false"@,
    ]
}

/// The arguments that come with a network.
pub open spec fn network_arguments(socket: Option<&str>) -> Seq<Seq<char>> {
    match socket {
        Some(socket) => seq![
            "-chardev"@,
            "socket,id=char-net0,path="@ + socket@,
            "-netdev"@,
            "vhost-user,id=net0,chardev=char-net0,queues=1"@,
            "-device"@,
            "virtio-net-device,netdev=net0"@,
        ],
        None => Seq::empty(),
    }
}

/// The arguments that make QEMU talkative.
pub open spec fn verbosity_arguments(verbosity: Verbosity) -> Seq<Seq<char>> {
    match verbosity {
        Verbosity::Trace => seq!["-d"@, "guest_errors,unimp,cpu_reset"@],
        Verbosity::Debug => seq!["-d"@, "guest_errors,unimp"@],
        _ => Seq::empty(),
    }
}

/// Writes the arguments for each of the shares.
fn share_arguments(mounts: &Vec<FsMount>) -> (arguments: Vec<String>)
    ensures
        text::texts(arguments@) == mount_arguments(fs::mounts_view(mounts@)),
{
    let ghost all = fs::mounts_view(mounts@);
    let mut arguments: Vec<String> = Vec::new();
    assert(text::texts(arguments@) =~= mount_arguments(all.take(0)));
    for i in 0..mounts.len()
        invariant
            all == fs::mounts_view(mounts@),
            text::texts(arguments@) == mount_arguments(all.take(i as int)),
    {
        assert(all.take(i + 1).drop_last() =~= all.take(i as int));
        assert(all[i as int] == mounts@[i as int]@);
        let tag: &str = mounts[i].tag.as_str();
        let mut socket: String = argument_of("socket,id=char-", tag, ",path=");
        socket.append(mounts[i].socket_path.as_str());
        let mut device: String = argument_of(
            "vhost-user-fs-device,queue-size=512,chardev=char-",
            tag,
            ",tag=",
        );
        device.append(tag);
        text::push_text(&mut arguments, "-chardev");
        text::push_text(&mut arguments, socket.as_str());
        text::push_text(&mut arguments, "-device");
        text::push_text(&mut arguments, device.as_str());
        assert(text::texts(arguments@) =~= mount_arguments(all.take(i + 1)));
    }
    assert(all.take(all.len() as int) =~= all);
    arguments
}

/// Writes the arguments for the machine itself.
fn machine_argument_list(config: &VmConfig) -> (arguments: Vec<String>)
    ensures
        text::texts(arguments@) == machine_arguments(config),
{
    let machine: String = text::concatenated(
        "microvm,x-option-roms=off,pit=off,pic=off,isa-serial=off,rtc=off,memory-backend=",
        MEMORY_BACKEND,
    );
    let megabytes: String = text::decimal_string(config.memory_mb);
    let mut memory: String = argument_of("memory-backend-memfd,id=", MEMORY_BACKEND, ",size=");
    memory.append(megabytes.as_str());
    memory.append("M,share=on");
    let size: String = text::concatenated(megabytes.as_str(), "m");
    let cpus: String = text::decimal_string(config.cpus as u64);
    let cmdline: String = hypervisor::guest_cmdline(config);
    let mut arguments: Vec<String> = Vec::new();
    text::push_text(&mut arguments, "-machine");
    text::push_text(&mut arguments, machine.as_str());
    text::push_text(&mut arguments, "-object");
    text::push_text(&mut arguments, memory.as_str());
    text::push_text(&mut arguments, "-enable-kvm");
    text::push_text(&mut arguments, "-cpu");
    text::push_text(&mut arguments, "host");
    text::push_text(&mut arguments, "-m");
    text::push_text(&mut arguments, size.as_str());
    text::push_text(&mut arguments, "-smp");
    text::push_text(&mut arguments, cpus.as_str());
    text::push_text(&mut arguments, "-kernel");
    text::push_text(&mut arguments, config.kernel);
    text::push_text(&mut arguments, "-append");
    text::push_text(&mut arguments, cmdline.as_str());
    assert(text::texts(arguments@) =~= machine_arguments(config));
    arguments
}

/// Writes the arguments for the console and the disk.
fn device_argument_list(overlay: &str) -> (arguments: Vec<String>)
    ensures
        text::texts(arguments@) == device_arguments(overlay@),
{
    let drive: String = argument_of("id=root,file=", overlay, ",format=qcow2,if=none");
    let mut arguments: Vec<String> = Vec::new();
    text::push_text(&mut arguments, "-serial");
    text::push_text(&mut arguments, "stdio");
    text::push_text(&mut arguments, "-nodefaults");
    text::push_text(&mut arguments, "-no-reboot");
    text::push_text(&mut arguments, "-no-user-config");
    text::push_text(&mut arguments, "-nographic");
    text::push_text(&mut arguments, "-chardev");
    text::push_text(&mut arguments, "stdio,id=virtiocon0,signal=off");
    text::push_text(&mut arguments, "-device");
    text::push_text(&mut arguments, "virtio-serial-device");
    text::push_text(&mut arguments, "-device");
    text::push_text(&mut arguments, "virtconsole,chardev=virtiocon0");
    text::push_text(&mut arguments, "-drive");
    text::push_text(&mut arguments, drive.as_str());
    text::push_text(&mut arguments, "-device");
    text::push_text(&mut arguments, "virtio-blk-device,drive=root");
    assert(text::texts(arguments@) =~= device_arguments(overlay@));
    arguments
}

/// Writes the arguments for the control socket and the log.
fn control_argument_list(sandbox_runtime_dir: &str) -> (arguments: Vec<String>)
    ensures
        text::texts(arguments@) == control_arguments(sandbox_runtime_dir@),
{
    let socket: String = sandbox::socket_path_in(sandbox_runtime_dir, SOCKET_NAME);
    let control: String = argument_of("unix:", socket.as_str(), ",server=on,wait=off");
    let log_name: String = text::concatenated(SOCKET_NAME, ".log");
    let log: String = paths::joined_path(sandbox_runtime_dir, log_name.as_str());
    let mut arguments: Vec<String> = Vec::new();
    text::push_text(&mut arguments, "-qmp");
    text::push_text(&mut arguments, control.as_str());
    text::push_text(&mut arguments, "-D");
    text::push_text(&mut arguments, log.as_str());
    text::push_text(&mut arguments, "-global");
    text::push_text(&mut arguments, "virtio-mmio.force-legacy=false");
    assert(text::texts(arguments@) =~= control_arguments(sandbox_runtime_dir@));
    arguments
}

/// Writes the arguments that come with a network.
fn network_argument_list(socket: Option<&str>) -> (arguments: Vec<String>)
    ensures
        text::texts(arguments@) == network_arguments(socket),
{
    let mut arguments: Vec<String> = Vec::new();
    if let Some(path) = socket {
        let chardev: String = text::concatenated("socket,id=char-net0,path=", path);
        text::push_text(&mut arguments, "-chardev");
        text::push_text(&mut arguments, chardev.as_str());
        text::push_text(&mut arguments, "-netdev");
        text::push_text(&mut arguments, "vhost-user,id=net0,chardev=char-net0,queues=1");
        text::push_text(&mut arguments, "-device");
        text::push_text(&mut arguments, "virtio-net-device,netdev=net0");
    }
    assert(text::texts(arguments@) =~= network_arguments(socket));
    arguments
}

impl Qemu {
    /// The hypervisor at the configured place.
    pub fn new(config: Option<&Config>) -> (hypervisor: Self)
        ensures
            hypervisor.binary@ == hypervisor::qemu_path(config),
    {
        match config {
            Some(config) => Qemu { binary: fs::program(&config.qemu, "qemu-system-x86_64") },
            None => Qemu { binary: "qemu-system-x86_64".to_owned() },
        }
    }

    /// Plans how a microVM is started. `overlay` is the disk image.
    pub fn boot(
        &self,
        config: &VmConfig,
        sandbox_runtime_dir: &str,
        overlay: &str,
        verbosity: Verbosity,
    ) -> (boot: Boot)
        ensures
            boot.program@ == self.binary@,
            boot.socket_path@ == sandbox::socket_in(sandbox_runtime_dir@, SOCKET_NAME@),
            text::texts(boot.arguments@) == machine_arguments(config) + device_arguments(overlay@)
                + mount_arguments(fs::mounts_view(config.mounts@)) + control_arguments(
                sandbox_runtime_dir@,
            ) + network_arguments(config.network_socket) + verbosity_arguments(verbosity),
            text::texts(boot.stale_files@) == seq![boot.socket_path@],
            text::texts(boot.runtime_files@) == seq![boot.socket_path@],
    {
        let mut arguments: Vec<String> = machine_argument_list(config);
        let devices: Vec<String> = device_argument_list(overlay);
        text::push_texts(&mut arguments, &devices);
        let shares: Vec<String> = share_arguments(config.mounts);
        text::push_texts(&mut arguments, &shares);
        let control: Vec<String> = control_argument_list(sandbox_runtime_dir);
        text::push_texts(&mut arguments, &control);
        let network: Vec<String> = network_argument_list(config.network_socket);
        text::push_texts(&mut arguments, &network);
        let ghost before = text::texts(arguments@);
        match verbosity {
            Verbosity::Trace => {
                text::push_text(&mut arguments, "-d");
                text::push_text(&mut arguments, "guest_errors,unimp,cpu_reset");
            },
            Verbosity::Debug => {
                text::push_text(&mut arguments, "-d");
                text::push_text(&mut arguments, "guest_errors,unimp");
            },
            _ => {},
        }
        assert(text::texts(arguments@) =~= before + verbosity_arguments(verbosity));
        let socket_path: String = sandbox::socket_path_in(sandbox_runtime_dir, SOCKET_NAME);
        let mut stale_files: Vec<String> = Vec::new();
        text::push_text(&mut stale_files, socket_path.as_str());
        assert(text::texts(stale_files@) =~= seq![socket_path@]);
        let mut runtime_files: Vec<String> = Vec::new();
        text::push_text(&mut runtime_files, socket_path.as_str());
        assert(text::texts(runtime_files@) =~= seq![socket_path@]);
        Boot { program: self.binary.clone(), arguments, socket_path, stale_files, runtime_files }
    }
}

/// A message of QEMU, as far as it matters.
pub struct QmpMessage {
    /// The command that it answers.
    pub id: Option<String>,
    /// Whether the command was carried out.
    pub returned: bool,
    /// The status of the microVM, if the message tells it.
    pub status: Option<String>,
    /// The whole message.
    pub text: String,
}

impl QmpMessage {
    /// Whether the message answers a command. Greetings and events answer none.
    pub open spec fn is_answer_to(&self, command: Seq<char>) -> bool {
        self.id matches Some(id) && id@ == command
    }

    /// Tells whether the message answers a command.
    pub fn answers(&self, command: &str) -> (result: bool)
        ensures
            result == self.is_answer_to(command@),
    {
        match &self.id {
            Some(id) => text::same(id.as_str(), command),
            None => false,
        }
    }
}

/// The members of a JSON object.
pub open spec fn members_view(members: Seq<(String, String)>) -> Seq<(Seq<char>, Seq<char>)> {
    members.map_values(|member: (String, String)| (member.0@, member.1@))
}

/// The JSON text of an object whose members hold texts.
pub uninterp spec fn json_object(members: Seq<(Seq<char>, Seq<char>)>) -> Seq<char>;

/// Whether JSON writes a text as it is, between quotes.
pub open spec fn is_json_plain(text: Seq<char>) -> bool {
    forall|i: int|
        0 <= i < text.len() ==> (#[trigger] text[i] >= ' ' && text[i] != '"' && text[i] != '\\')
}

/// A text between quotes.
pub open spec fn quoted(text: Seq<char>) -> Seq<char> {
    seq!['"'] + text + seq!['"']
}

/// `serde_json::Value` writes an object as its members between braces, ordered by their
/// names. Two members of plain texts that come in this order stand there as they are.
#[verifier::external_body]
fn object_text(members: &Vec<(String, String)>) -> (text: String)
    ensures
        text@ == json_object(members_view(members@)),
        members@.len() == 2 && text::is_before(members@[0].0@, members@[1].0@) && is_json_plain(
            members@[0].0@,
        ) && is_json_plain(members@[0].1@) && is_json_plain(members@[1].0@) && is_json_plain(
            members@[1].1@,
        ) ==> text@ == seq!['{'] + quoted(members@[0].0@) + seq![':'] + quoted(members@[0].1@)
            + seq![','] + quoted(members@[1].0@) + seq![':'] + quoted(members@[1].1@) + seq!['}'],
{
    serde_json::Value::from_iter(members.iter().cloned()).to_string()
}

/// The members of the request for a command. The answer carries the id.
pub open spec fn request_members(command: Seq<char>) -> Seq<(Seq<char>, Seq<char>)> {
    seq![("execute"@, command), ("id"@, command)]
}

/// The request for a command of plain text.
pub open spec fn plain_request(command: Seq<char>) -> Seq<char> {
    seq!['{'] + quoted("execute"@) + seq![':'] + quoted(command) + seq![','] + quoted("id"@)
        + seq![':'] + quoted(command) + seq!['}']
}

/// Writes the request for a command.
pub fn qmp_request(command: &str) -> (request: String)
    ensures
        request@ == json_object(request_members(command@)),
        is_json_plain(command@) ==> request@ == plain_request(command@),
{
    let mut members: Vec<(String, String)> = Vec::new();
    members.push(("execute".to_owned(), command.to_owned()));
    members.push(("id".to_owned(), command.to_owned()));
    proof {
        assert(members_view(members@) =~= request_members(command@));
        reveal_strlit("execute");
        reveal_strlit("id");
        assert(text::is_before("execute"@, "id"@));
    }
    object_text(&members)
}

/// A conversation with QEMU: the capabilities are negotiated, then a command is carried out.
pub struct QmpSession {
    pub command: String,
    pub negotiated: bool,
}

/// What happened in a conversation.
pub enum QmpEvent {
    Connected,
    /// The request was sent.
    Sent,
    NotSent,
    Message(QmpMessage),
    /// The message cannot be read.
    Unreadable,
    Closed,
}

/// What to do next in a conversation.
pub enum QmpAction {
    Send(String),
    Read,
    Answer(QmpMessage),
    Fail(String),
}

impl QmpSession {
    /// The command that is being carried out.
    pub open spec fn current(&self) -> Seq<char> {
        if self.negotiated {
            self.command@
        } else {
            "qmp_capabilities"@
        }
    }

    /// A conversation about a command.
    pub fn new(command: &str) -> (session: Self)
        ensures
            session.command@ == command@,
            !session.negotiated,
    {
        QmpSession { command: command.to_owned(), negotiated: false }
    }

    /// The command that is being carried out.
    fn current_command(&self) -> (command: &str)
        ensures
            command@ == self.current(),
    {
        if self.negotiated {
            self.command.as_str()
        } else {
            "qmp_capabilities"
        }
    }

    /// Takes an event in and tells what to do next.
    pub fn execute(&mut self, event: QmpEvent) -> (action: QmpAction)
        ensures
            final(self).command == old(self).command,
            final(self).negotiated == (old(self).negotiated || (event matches QmpEvent::Message(
                message,
            ) && message.is_answer_to(old(self).current()) && message.returned)),
            match event {
                QmpEvent::Connected => action matches QmpAction::Send(request) && request@
                    == json_object(request_members(old(self).current())),
                QmpEvent::Sent => action is Read,
                QmpEvent::NotSent => action matches QmpAction::Fail(message) && message@
                    == "sending qmp command "@ + old(self).current(),
                QmpEvent::Unreadable => action matches QmpAction::Fail(message) && message@
                    == "reading the response to qmp command "@ + old(self).current(),
                QmpEvent::Closed => action matches QmpAction::Fail(message) && message@
                    == "qmp socket closed before answering "@ + old(self).current(),
                QmpEvent::Message(message) => if !message.is_answer_to(old(self).current()) {
                    action is Read
                } else if old(self).negotiated {
                    action == QmpAction::Answer(message)
                } else if message.returned {
                    action matches QmpAction::Send(request) && request@ == json_object(
                        request_members(old(self).command@),
                    )
                } else {
                    action matches QmpAction::Fail(text) && text@ == "qmp_capabilities failed: "@
                        + message.text@
                },
            },
    {
        match event {
            QmpEvent::Connected => QmpAction::Send(qmp_request(self.current_command())),
            QmpEvent::Sent => QmpAction::Read,
            QmpEvent::NotSent => QmpAction::Fail(
                text::concatenated("sending qmp command ", self.current_command()),
            ),
            QmpEvent::Unreadable => QmpAction::Fail(
                text::concatenated("reading the response to qmp command ", self.current_command()),
            ),
            QmpEvent::Closed => QmpAction::Fail(
                text::concatenated("qmp socket closed before answering ", self.current_command()),
            ),
            QmpEvent::Message(message) => {
                if !message.answers(self.current_command()) {
                    return QmpAction::Read;
                }
                if self.negotiated {
                    return QmpAction::Answer(message);
                }
                if !message.returned {
                    return QmpAction::Fail(
                        text::concatenated("qmp_capabilities failed: ", message.text.as_str()),
                    );
                }
                self.negotiated = true;
                QmpAction::Send(qmp_request(self.command.as_str()))
            },
        }
    }
}

impl Qemu {
    /// Tells what state a microVM is in. `answer` is what QEMU said when it was asked for its
    /// status.
    pub fn state(&self, connected: bool, answer: Option<&QmpMessage>) -> (state: State)
        ensures
            !connected ==> state is Stopped,
            connected ==> if answer is Some && answer.unwrap().status is Some {
                &&& state matches State::Running(text) && text@ == text::uppercase(
                    answer.unwrap().status.unwrap()@,
                )
                &&& vstd::utf8::is_ascii_chars(answer.unwrap().status.unwrap()@) ==> state.text()
                    == text::raised(answer.unwrap().status.unwrap()@)
            } else {
                state is Unknown
            },
    {
        if !connected {
            return State::Stopped;
        }
        if let Some(answer) = answer {
            if let Some(status) = &answer.status {
                return State::Running(status.as_str().to_uppercase());
            }
        }
        State::Unknown
    }

    /// The command that shuts a sandbox down, if there is anything to shut down.
    pub fn shutdown_command(&self, connected: bool) -> (command: Option<String>)
        ensures
            match command {
                Some(command) => connected && command@ == "quit"@,
                None => !connected,
            },
    {
        if connected {
            Some("quit".to_owned())
        } else {
            None
        }
    }

    /// Tells whether a sandbox was shut down. There is no answer if asking failed.
    pub fn shutdown(&self, answer: Option<&QmpMessage>) -> (result: Result<(), String>)
        ensures
            match (result, answer) {
                (Ok(()), Some(answer)) => answer.returned,
                (Err(message), Some(answer)) => !answer.returned && message@
                    == "shutting down the sandbox was not successful: "@ + answer.text@,
                (Err(message), None) => message@ == "requesting qemu to shut down the sandbox"@,
                (Ok(()), None) => false,
            },
    {
        match answer {
            Some(answer) => if answer.returned {
                Ok(())
            } else {
                Err(
                    text::concatenated(
                        "shutting down the sandbox was not successful: ",
                        answer.text.as_str(),
                    ),
                )
            },
            None => Err("requesting qemu to shut down the sandbox".to_owned()),
        }
    }
}

/// Each share has four arguments.
proof fn lemma_mount_arguments(mounts: Seq<FsMountView>)
    ensures
        mount_arguments(mounts).len() == 4 * mounts.len(),
        forall|i: int|
            0 <= i < mounts.len() ==> mount_arguments(mounts)[4 * i + 1] == "socket,id=char-"@ + (
            #[trigger] mounts[i]).tag + ",path="@ + mounts[i].socket_path && mount_arguments(
                mounts,
            )[4 * i] == "-chardev"@ && mount_arguments(mounts)[4 * i + 2] == "-device"@
                && mount_arguments(mounts)[4 * i + 3]
                == "vhost-user-fs-device,queue-size=512,chardev=char-"@ + mounts[i].tag + ",tag="@
                + mounts[i].tag,
    decreases mounts.len(),
{
    if mounts.len() > 0 {
        let rest = mounts.drop_last();
        lemma_mount_arguments(rest);
        assert forall|i: int| 0 <= i < mounts.len() implies mount_arguments(mounts)[4 * i + 1]
            == "socket,id=char-"@ + (#[trigger] mounts[i]).tag + ",path="@ + mounts[i].socket_path
            && mount_arguments(mounts)[4 * i] == "-chardev"@ && mount_arguments(mounts)[4 * i + 2]
            == "-device"@ && mount_arguments(mounts)[4 * i + 3]
            == "vhost-user-fs-device,queue-size=512,chardev=char-"@ + mounts[i].tag + ",tag="@
            + mounts[i].tag by {
            if i < rest.len() {
                assert(rest[i] == mounts[i]);
            }
        }
    }
}

/// What a microVM is started with before anything about its shares, argument by argument.
pub proof fn lemma_first_boot_arguments(
    hypervisor: &Qemu,
    config: &VmConfig,
    dir: &str,
    overlay: &str,
    verbosity: Verbosity,
    boot: Boot,
)
    requires
        call_ensures(Qemu::boot, (hypervisor, config, dir, overlay, verbosity), boot),
    ensures
        ({
            let found = boot.arguments@;
            let memory = text::decimal(config.memory_mb as nat);
            &&& boot.program@ == hypervisor.binary@
            &&& found.len() >= 31
            &&& found[0]@ == "-machine"@ && found[1]@
                == "microvm,x-option-roms=off,pit=off,pic=off,isa-serial=off,rtc=off,memory-backend="@
                + "guest-memory"@
            &&& found[2]@ == "-object"@ && found[3]@ == "memory-backend-memfd,id="@
                + "guest-memory"@ + ",size="@ + memory + "M,share=on"@
            &&& found[4]@ == "-enable-kvm"@
            &&& found[5]@ == "-cpu"@ && found[6]@ == "host"@
            &&& found[7]@ == "-m"@ && found[8]@ == memory + "m"@
            &&& found[9]@ == "-smp"@ && found[10]@ == text::decimal(config.cpus as nat)
            &&& found[11]@ == "-kernel"@ && found[12]@ == config.kernel@
            &&& found[13]@ == "-append"@ && found[14]@ == hypervisor::cmdline_text(
                config.name@,
                config.cmdline@,
                fs::mounts_view(config.mounts@),
            )
            &&& found[15]@ == "-serial"@ && found[16]@ == "stdio"@
            &&& found[17]@ == "-nodefaults"@ && found[18]@ == "-no-reboot"@ && found[19]@
                == "-no-user-config"@ && found[20]@ == "-nographic"@
            &&& found[21]@ == "-chardev"@ && found[22]@ == "stdio,id=virtiocon0,signal=off"@
            &&& found[23]@ == "-device"@ && found[24]@ == "virtio-serial-device"@
            &&& found[25]@ == "-device"@ && found[26]@ == "virtconsole,chardev=virtiocon0"@
            &&& found[27]@ == "-drive"@ && found[28]@ == "id=root,file="@ + overlay@
                + ",format=qcow2,if=none"@
            &&& found[29]@ == "-device"@ && found[30]@ == "virtio-blk-device,drive=root"@
        }),
{
    let found = text::texts(boot.arguments@);
    let machine = machine_arguments(config);
    let devices = device_arguments(overlay@);
    assert(machine.len() == 15 && devices.len() == 16);
    assert(found.len() == boot.arguments@.len());
    assert forall|i: int| 0 <= i < 15 implies boot.arguments@[i]@ == #[trigger] machine[i] by {
        assert(found[i] == machine[i]);
    }
    assert forall|i: int| 0 <= i < 16 implies boot.arguments@[15 + i]@ == #[trigger] devices[i] by {
        assert(found[15 + i] == devices[i]);
    }
    assert(machine[0] == "-machine"@ && machine[2] == "-object"@ && machine[4] == "-enable-kvm"@
        && machine[5] == "-cpu"@ && machine[6] == "host"@ && machine[7] == "-m"@ && machine[9]
        == "-smp"@ && machine[11] == "-kernel"@ && machine[13] == "-append"@);
    assert(devices[0] == "-serial"@ && devices[1] == "stdio"@ && devices[2] == "-nodefaults"@
        && devices[3] == "-no-reboot"@ && devices[4] == "-no-user-config"@ && devices[5]
        == "-nographic"@ && devices[6] == "-chardev"@ && devices[7]
        == "stdio,id=virtiocon0,signal=off"@ && devices[8] == "-device"@ && devices[9]
        == "virtio-serial-device"@ && devices[10] == "-device"@ && devices[11]
        == "virtconsole,chardev=virtiocon0"@ && devices[12] == "-drive"@ && devices[14]
        == "-device"@ && devices[15] == "virtio-blk-device,drive=root"@);
}

/// Behind those come four arguments for each share, in the order of the shares, then those for
/// the control socket and the log, and at last those for the network and for the verbosity.
pub proof fn lemma_last_boot_arguments(
    hypervisor: &Qemu,
    config: &VmConfig,
    dir: &str,
    overlay: &str,
    verbosity: Verbosity,
    boot: Boot,
)
    requires
        call_ensures(Qemu::boot, (hypervisor, config, dir, overlay, verbosity), boot),
    ensures
        ({
            let found = boot.arguments@;
            let shares: int = config.mounts@.len() as int;
            let rest: int = 31 + 4 * shares;
            let network: int = if config.network_socket is Some {
                6
            } else {
                0
            };
            let talk: int = if verbosity == Verbosity::Debug || verbosity == Verbosity::Trace {
                2
            } else {
                0
            };
            &&& boot.socket_path@ == paths::join(dir@, "qemu-qmp"@ + ".sock"@)
            &&& found.len() == rest + 6 + network + talk
            &&& forall|i: int|
                0 <= i < shares ==> found[32 + 4 * i]@ == "socket,id=char-"@ + (
                #[trigger] config.mounts@[i]).tag@ + ",path="@ + config.mounts@[i].socket_path@
                    && found[31 + 4 * i]@ == "-chardev"@ && found[33 + 4 * i]@ == "-device"@
                    && found[34 + 4 * i]@ == "vhost-user-fs-device,queue-size=512,chardev=char-"@
                    + config.mounts@[i].tag@ + ",tag="@ + config.mounts@[i].tag@
            &&& found[rest]@ == "-qmp"@ && found[rest + 1]@ == "unix:"@ + boot.socket_path@
                + ",server=on,wait=off"@
            &&& found[rest + 2]@ == "-D"@ && found[rest + 3]@ == paths::join(
                dir@,
                "qemu-qmp"@ + ".log"@,
            )
            &&& found[rest + 4]@ == "-global"@ && found[rest + 5]@
                == "virtio-mmio.force-legacy=false"@
            &&& config.network_socket matches Some(socket) ==> {
                &&& found[rest + 6]@ == "-chardev"@ && found[rest + 7]@
                    == "socket,id=char-net0,path="@ + socket@
                &&& found[rest + 8]@ == "-netdev"@ && found[rest + 9]@
                    == "vhost-user,id=net0,chardev=char-net0,queues=1"@
                &&& found[rest + 10]@ == "-device"@ && found[rest + 11]@
                    == "virtio-net-device,netdev=net0"@
            }
            &&& talk > 0 ==> found[rest + 6 + network]@ == "-d"@ && found[rest + 7 + network]@ == (
            if verbosity == Verbosity::Trace {
                "guest_errors,unimp,cpu_reset"@
            } else {
                "guest_errors,unimp"@
            })
        }),
{
    let found = text::texts(boot.arguments@);
    let all = fs::mounts_view(config.mounts@);
    lemma_mount_arguments(all);
    let machine = machine_arguments(config);
    let devices = device_arguments(overlay@);
    let shares = mount_arguments(all);
    let control = control_arguments(dir@);
    let network = network_arguments(config.network_socket);
    let talk = verbosity_arguments(verbosity);
    assert(machine.len() == 15 && devices.len() == 16 && control.len() == 6);
    assert(found == machine + devices + shares + control + network + talk);
    assert(found.len() == boot.arguments@.len());
    assert(all.len() == config.mounts@.len());
    let rest: int = 31 + 4 * all.len() as int;
    assert forall|i: int| 0 <= i < config.mounts@.len() implies boot.arguments@[32 + 4 * i]@
        == "socket,id=char-"@ + (#[trigger] config.mounts@[i]).tag@ + ",path="@
        + config.mounts@[i].socket_path@ && boot.arguments@[31 + 4 * i]@ == "-chardev"@
        && boot.arguments@[33 + 4 * i]@ == "-device"@ && boot.arguments@[34 + 4 * i]@
        == "vhost-user-fs-device,queue-size=512,chardev=char-"@ + config.mounts@[i].tag@ + ",tag="@
        + config.mounts@[i].tag@ by {
        assert(all[i] == config.mounts@[i]@);
        assert(found[31 + 4 * i] == shares[4 * i]);
        assert(found[32 + 4 * i] == shares[4 * i + 1]);
        assert(found[33 + 4 * i] == shares[4 * i + 2]);
        assert(found[34 + 4 * i] == shares[4 * i + 3]);
        assert(boot.arguments@[31 + 4 * i]@ == found[31 + 4 * i]);
        assert(boot.arguments@[32 + 4 * i]@ == found[32 + 4 * i]);
        assert(boot.arguments@[33 + 4 * i]@ == found[33 + 4 * i]);
        assert(boot.arguments@[34 + 4 * i]@ == found[34 + 4 * i]);
    }
    assert forall|i: int| 0 <= i < 6 implies boot.arguments@[rest + i]@ == #[trigger] control[i] by {
        assert(found[rest + i] == control[i]);
    }
    assert(control[0] == "-qmp"@ && control[2] == "-D"@ && control[4] == "-global"@ && control[5]
        == "virtio-mmio.force-legacy=false"@);
    assert(boot.arguments@[rest + 0]@ == control[0]);
    assert forall|i: int| 0 <= i < network.len() implies boot.arguments@[rest + 6 + i]@
        == #[trigger] network[i] by {
        assert(found[rest + 6 + i] == network[i]);
    }
    if config.network_socket is Some {
        assert(boot.arguments@[rest + 6 + 0]@ == network[0]);
        assert(boot.arguments@[rest + 6 + 1]@ == network[1]);
        assert(boot.arguments@[rest + 6 + 2]@ == network[2]);
        assert(boot.arguments@[rest + 6 + 3]@ == network[3]);
        assert(boot.arguments@[rest + 6 + 4]@ == network[4]);
        assert(boot.arguments@[rest + 6 + 5]@ == network[5]);
    }
    let end: int = rest + 6 + network.len() as int;
    if talk.len() > 0 {
        assert(found[end] == talk[0] && found[end + 1] == talk[1]);
        assert(boot.arguments@[end]@ == found[end] && boot.arguments@[end + 1]@ == found[end + 1]);
    }
}

/// The request for a command of plain text carries the command twice: as what to carry out,
/// and as what the answer is told by.
pub proof fn lemma_request_for_command(command: &str, request: String)
    requires
        call_ensures(qmp_request, (command,), request),
        is_json_plain(command@),
    ensures
        request@ == "{\"execute\":\""@ + command@ + "\",\"id\":\""@ + command@ + "\"}"@,
{
    reveal_strlit("execute");
    reveal_strlit("id");
    reveal_strlit("{\"execute\":\"");
    reveal_strlit("\",\"id\":\"");
    reveal_strlit("\"}");
    assert("{\"execute\":\""@ =~= seq!['{'] + (seq!['"'] + "execute"@ + seq!['"']) + seq![':', '"']);
    assert("\",\"id\":\""@ =~= seq!['"', ','] + (seq!['"'] + "id"@ + seq!['"']) + seq![':', '"']);
    assert("\"}"@ =~= seq!['"', '}']);
    assert(plain_request(command@) =~= "{\"execute\":\""@ + command@ + "\",\"id\":\""@ + command@
        + "\"}"@);
}

/// A message answers a command exactly if it carries the id of it.
pub proof fn lemma_answer_to_command(message: &QmpMessage, command: &str, result: bool)
    requires
        call_ensures(QmpMessage::answers, (message, command), result),
    ensures
        message.id is None ==> !result,
        message.id matches Some(id) ==> (result <==> id@ == command@),
{
}

/// In a new conversation the capabilities are negotiated first, and the command comes once
/// that is done.
pub proof fn lemma_commands_of_session(command: &str, session: QmpSession, later: QmpSession)
    requires
        call_ensures(QmpSession::new, (command,), session),
        later.command == session.command,
        later.negotiated,
    ensures
        session.current() == "qmp_capabilities"@,
        later.current() == command@,
{
}

/// How a conversation goes on. Whatever answers nothing that was asked is passed over. The
/// command itself is sent when the capabilities are negotiated, and its answer ends the
/// conversation, whether it was carried out or not.
pub proof fn lemma_course_of_session(session: &mut QmpSession, event: QmpEvent, action: QmpAction)
    requires
        call_ensures(QmpSession::execute, (session, event), action),
    ensures
        ({
            let asked = if old(session).negotiated {
                old(session).command@
            } else {
                "qmp_capabilities"@
            };
            let answered = event matches QmpEvent::Message(message) && (message.id matches Some(id)
                && id@ == asked);
            &&& final(session).command@ == old(session).command@
            &&& action is Answer <==> answered && old(session).negotiated
            &&& action matches QmpAction::Answer(answer) ==> event == QmpEvent::Message(answer)
            &&& action is Read <==> event is Sent || (event is Message && !answered)
            &&& action is Send <==> event is Connected || (answered && !old(session).negotiated
                && event->Message_0.returned)
            &&& action matches QmpAction::Send(request) ==> request@ == json_object(
                seq![
                    (
                        "execute"@,
                        if event is Connected {
                            asked
                        } else {
                            old(session).command@
                        },
                    ),
                    (
                        "id"@,
                        if event is Connected {
                            asked
                        } else {
                            old(session).command@
                        },
                    ),
                ],
            )
            &&& final(session).negotiated <==> old(session).negotiated || (answered
                && event->Message_0.returned)
            &&& event is NotSent ==> (action matches QmpAction::Fail(text) && text@
                == "sending qmp command "@ + asked)
            &&& event is Unreadable ==> (action matches QmpAction::Fail(text) && text@
                == "reading the response to qmp command "@ + asked)
            &&& event is Closed ==> (action matches QmpAction::Fail(text) && text@
                == "qmp socket closed before answering "@ + asked)
            &&& answered && !old(session).negotiated && !event->Message_0.returned ==> (action
                matches QmpAction::Fail(text) && text@ == "qmp_capabilities failed: "@
                + event->Message_0.text@)
        }),
{
}

/// A microVM runs exactly if QEMU answers and tells its status, is stopped exactly if QEMU does
/// not answer at all, and is shut down when QEMU has carried out that it quits.
pub proof fn lemma_what_qemu_says(
    hypervisor: &Qemu,
    connected: bool,
    answer: Option<&QmpMessage>,
    state: State,
    command: Option<String>,
    result: Result<(), String>,
)
    requires
        call_ensures(Qemu::state, (hypervisor, connected, answer), state),
        call_ensures(Qemu::shutdown_command, (hypervisor, connected), command),
        call_ensures(Qemu::shutdown, (hypervisor, answer), result),
    ensures
        state is Stopped <==> !connected,
        state is Running <==> connected && (answer matches Some(message) && message.status is Some),
        command is Some <==> connected,
        command matches Some(text) ==> text@ == "quit"@,
        result is Ok <==> (answer matches Some(message) && message.returned),
{
}

} // verus!
