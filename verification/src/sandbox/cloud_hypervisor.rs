//! Cloud Hypervisor without anything around it: a microVM with a network, the plain list of
//! microVMs, and asking the hypervisor to quit.
use vstd::prelude::*;
use vstd::string::*;

use crate::paths;
use crate::sandbox::config::RootfsType;
use crate::sandbox::fs;
use crate::sandbox::fs::FsMount;
use crate::sandbox::hypervisor;
use crate::sandbox::hypervisor::cloud_hypervisor;
use crate::sandbox::hypervisor::cloud_hypervisor::{argument_of, share_arguments, ChInfo};
use crate::sandbox::hypervisor::http::ApiResponse;
use crate::sandbox::table;
use crate::sandbox::SandboxInfo;
use crate::text;

verus! {

/// The name of the socket.
pub const SOCKET_NAME: &'static str = "cloud-hypervisor.sock";

/// What a microVM is made of.
pub struct CloudHypervisorVmConfig<'sandbox> {
    pub name: &'sandbox str,
    pub binary: &'sandbox str,
    pub kernel: &'sandbox str,
    pub rootfs: &'sandbox str,
    pub rootfs_type: RootfsType,
    pub reset_overlay: bool,
    pub network_socket: &'sandbox str,
    pub cmdline: &'sandbox str,
    pub memory_mb: u64,
    pub cpus: u8,
    pub mounts: &'sandbox Vec<FsMount>,
}

/// What a microVM is started with.
pub struct CloudHypervisor {
    pub program: String,
    pub arguments: Vec<String>,
    pub socket_path: String,
}

/// The socket of a microVM.
pub open spec fn socket_of(vm_base_dir: Seq<char>, name: Seq<char>) -> Seq<char> {
    paths::join(paths::join(vm_base_dir, name), SOCKET_NAME@)
}

/// The socket of a microVM.
pub fn socket_path(vm_base_dir: &str, name: &str) -> (path: String)
    ensures
        path@ == socket_of(vm_base_dir@, name@),
{
    let directory: String = paths::joined_path(vm_base_dir, name);
    paths::joined_path(directory.as_str(), SOCKET_NAME)
}

/// The arguments of the hypervisor before those for the shares.
pub open spec fn first_arguments(
    config: &CloudHypervisorVmConfig,
    socket: Seq<char>,
    overlay: Seq<char>,
) -> Seq<Seq<char>> {
    seq![
        "--api-socket"@,
        socket,
        "--kernel"@,
        config.kernel@,
        "--landlock"@,
        "--landlock-rules"@,
        "path="@ + config.rootfs@ + ",access=r"@,
        "--disk"@,
        "path="@ + overlay + ",image_type=qcow2,backing_files=on"@,
    ]
}

/// The arguments of the hypervisor after those for the shares.
pub open spec fn last_arguments(config: &CloudHypervisorVmConfig) -> Seq<Seq<char>> {
    seq![
        "--cmdline"@,
        hypervisor::cmdline_text(config.name@, config.cmdline@, fs::mounts_view(config.mounts@)),
        "--net"@,
        "vhost_user=true,socket="@ + config.network_socket@,
        "--cpus"@,
        "boot="@ + text::decimal(config.cpus as nat),
        "--memory"@,
        "size="@ + text::decimal(config.memory_mb as nat) + "M,shared=on"@,
        "--serial"@,
        "off"@,
        "--console"@,
        "tty"@,
    ]
}

/// Writes the arguments that come after those for the shares.
fn last_argument_list(config: &CloudHypervisorVmConfig) -> (arguments: Vec<String>)
    ensures
        text::texts(arguments@) == last_arguments(config),
{
    let cmdline: String = hypervisor::cmdline_of(config.name, config.cmdline, config.mounts);
    let network: String = text::concatenated("vhost_user=true,socket=", config.network_socket);
    let cpus: String = text::decimal_string(config.cpus as u64);
    let boot: String = text::concatenated("boot=", cpus.as_str());
    let megabytes: String = text::decimal_string(config.memory_mb);
    let memory: String = argument_of("size=", megabytes.as_str(), "M,shared=on");
    let mut arguments: Vec<String> = Vec::new();
    text::push_text(&mut arguments, "--cmdline");
    text::push_text(&mut arguments, cmdline.as_str());
    text::push_text(&mut arguments, "--net");
    text::push_text(&mut arguments, network.as_str());
    text::push_text(&mut arguments, "--cpus");
    text::push_text(&mut arguments, boot.as_str());
    text::push_text(&mut arguments, "--memory");
    text::push_text(&mut arguments, memory.as_str());
    text::push_text(&mut arguments, "--serial");
    text::push_text(&mut arguments, "off");
    text::push_text(&mut arguments, "--console");
    text::push_text(&mut arguments, "tty");
    assert(text::texts(arguments@) =~= last_arguments(config));
    arguments
}

/// Plans how a microVM is started. `overlay` is the disk image.
pub fn create_vm(config: &CloudHypervisorVmConfig, vm_base_dir: &str, overlay: &str) -> (vm:
    CloudHypervisor)
    ensures
        vm.program@ == config.binary@,
        vm.socket_path@ == socket_of(vm_base_dir@, config.name@),
        text::texts(vm.arguments@) == first_arguments(config, vm.socket_path@, overlay@)
            + cloud_hypervisor::mount_arguments(fs::mounts_view(config.mounts@))
            + last_arguments(config),
{
    let socket_path: String = socket_path(vm_base_dir, config.name);
    let rules: String = argument_of("path=", config.rootfs, ",access=r");
    let disk: String = argument_of("path=", overlay, ",image_type=qcow2,backing_files=on");
    let mut arguments: Vec<String> = Vec::new();
    text::push_text(&mut arguments, "--api-socket");
    text::push_text(&mut arguments, socket_path.as_str());
    text::push_text(&mut arguments, "--kernel");
    text::push_text(&mut arguments, config.kernel);
    text::push_text(&mut arguments, "--landlock");
    text::push_text(&mut arguments, "--landlock-rules");
    text::push_text(&mut arguments, rules.as_str());
    text::push_text(&mut arguments, "--disk");
    text::push_text(&mut arguments, disk.as_str());
    assert(text::texts(arguments@) =~= first_arguments(config, socket_path@, overlay@));
    let shares: Vec<String> = share_arguments(config.mounts);
    text::push_texts(&mut arguments, &shares);
    let rest: Vec<String> = last_argument_list(config);
    text::push_texts(&mut arguments, &rest);
    CloudHypervisor { program: config.binary.to_owned(), arguments, socket_path }
}

/// How far asking the hypervisor to quit has come.
pub enum QuitEvent {
    /// It was looked whether the hypervisor answers at all.
    Checked { connected: bool },
    /// The hypervisor was asked. There is no response if asking failed.
    Asked(Option<ApiResponse>),
}

/// How asking the hypervisor to quit goes on.
pub enum QuitStep {
    /// Send the request, which has this method and path.
    Ask(String, String),
    Done,
    Fail(String),
}

/// Decides how asking the hypervisor to quit goes on.
pub fn shutdown_vm(event: QuitEvent) -> (step: QuitStep)
    ensures
        match event {
            QuitEvent::Checked { connected } => if connected {
                step matches QuitStep::Ask(method, path) && method@ == "PUT"@ && path@
                    == "vmm.shutdown"@
            } else {
                step is Done
            },
            QuitEvent::Asked(Some(response)) => if cloud_hypervisor::granted(response) {
                step is Done
            } else {
                step matches QuitStep::Fail(message) && message@
                    == "shutting down the sandbox was not successful"@
            },
            QuitEvent::Asked(None) => step matches QuitStep::Fail(message) && message@
                == "requesting cloud hypervisor to shut down the sandbox"@,
        },
{
    match event {
        QuitEvent::Checked { connected } => if connected {
            QuitStep::Ask("PUT".to_owned(), "vmm.shutdown".to_owned())
        } else {
            QuitStep::Done
        },
        QuitEvent::Asked(response) => match response {
            Some(response) => if response.success() {
                QuitStep::Done
            } else {
                QuitStep::Fail("shutting down the sandbox was not successful".to_owned())
            },
            None => QuitStep::Fail(
                "requesting cloud hypervisor to shut down the sandbox".to_owned(),
            ),
        },
    }
}

/// What is known of an entry of the directory of microVMs.
pub struct VmEntry {
    /// The name, if the entry could be read.
    pub name: Option<String>,
    /// Whether the hypervisor answers.
    pub connected: bool,
    /// What it answered when it was asked for information, if asking did not fail.
    pub response: Option<ApiResponse>,
    /// What the body of the answer says.
    pub info: Option<ChInfo>,
}

/// Whether asking about a microVM failed.
pub open spec fn is_unanswered(entry: VmEntry) -> bool {
    entry.name is Some && entry.connected && entry.response is None
}

/// The state of a microVM in words.
pub open spec fn state_text(entry: VmEntry) -> Seq<char> {
    if !entry.connected {
        "Stopped"@
    } else if cloud_hypervisor::granted(entry.response.unwrap()) && entry.info is Some {
        entry.info.unwrap().state@
    } else {
        "Unknown"@
    }
}

/// The names and states of the microVMs whose entries could be read.
pub open spec fn listed(entries: Seq<VmEntry>) -> Seq<(Seq<char>, Seq<char>)>
    decreases entries.len(),
{
    if entries.len() == 0 {
        Seq::empty()
    } else {
        let before = listed(entries.drop_last());
        match entries.last().name {
            Some(name) => before.push((name@, state_text(entries.last()))),
            None => before,
        }
    }
}

/// Lists the microVMs as a table. If asking about one of them fails there is no list.
pub fn list_vms(entries: &Vec<VmEntry>) -> (result: Result<String, String>)
    ensures
        match result {
            Ok(drawn) => {
                &&& forall|i: int|
                    0 <= i < entries@.len() ==> !is_unanswered(#[trigger] entries@[i])
                &&& drawn@ == table::table_text(table::sandbox_records(listed(entries@)))
            },
            Err(message) => {
                &&& exists|i: int|
                    0 <= i < entries@.len() && is_unanswered(#[trigger] entries@[i])
                &&& message@
                    == "requesting cloud hypervisor for information about the sandbox"@
            },
        },
{
    let mut infos: Vec<SandboxInfo> = Vec::new();
    assert(table::infos_view(infos@) =~= listed(entries@.take(0)));
    for i in 0..entries.len()
        invariant
            table::infos_view(infos@) == listed(entries@.take(i as int)),
            forall|k: int| 0 <= k < i ==> !is_unanswered(#[trigger] entries@[k]),
    {
        assert(entries@.take(i + 1).drop_last() =~= entries@.take(i as int));
        let entry: &VmEntry = &entries[i];
        let ghost before = table::infos_view(infos@);
        if let Some(name) = &entry.name {
            let state: String = if !entry.connected {
                "Stopped".to_owned()
            } else {
                match &entry.response {
                    None => {
                        assert(is_unanswered(entries@[i as int]));
                        return Err(
                            "requesting cloud hypervisor for information about the sandbox".to_owned(),
                        );
                    },
                    Some(response) => match &entry.info {
                        Some(info) => if response.success() {
                            info.state.clone()
                        } else {
                            "Unknown".to_owned()
                        },
                        None => "Unknown".to_owned(),
                    },
                }
            };
            infos.push(SandboxInfo { name: name.clone(), state });
            assert(table::infos_view(infos@) =~= before.push((name@, state_text(*entry))));
        }
    }
    assert(entries@.take(entries@.len() as int) =~= entries@);
    Ok(table::sandbox_table(&infos))
}

/// What a microVM is started with, argument by argument. Each option is followed by what it is
/// set to, and behind those for the disk come two for each share.
pub proof fn lemma_arguments_of_vm(
    config: &CloudHypervisorVmConfig,
    vm_base_dir: &str,
    overlay: &str,
    vm: CloudHypervisor,
)
    requires
        call_ensures(create_vm, (config, vm_base_dir, overlay), vm),
    ensures
        ({
            let found = vm.arguments@;
            let shares: int = config.mounts@.len() as int;
            let rest: int = 9 + 2 * shares;
            &&& vm.program@ == config.binary@
            &&& vm.socket_path@ == paths::join(
                paths::join(vm_base_dir@, config.name@),
                "cloud-hypervisor.sock"@,
            )
            &&& found.len() == rest + 12
            &&& found[0]@ == "--api-socket"@ && found[1]@ == vm.socket_path@
            &&& found[2]@ == "--kernel"@ && found[3]@ == config.kernel@
            &&& found[4]@ == "--landlock"@ && found[5]@ == "--landlock-rules"@ && found[6]@
                == "path="@ + config.rootfs@ + ",access=r"@
            &&& found[7]@ == "--disk"@ && found[8]@ == "path="@ + overlay@
                + ",image_type=qcow2,backing_files=on"@
            &&& forall|i: int|
                0 <= i < shares ==> found[10 + 2 * i]@ == "tag="@ + (
                #[trigger] config.mounts@[i]).tag@ + ",socket="@ + config.mounts@[i].socket_path@
                    + ",num_queues=1,queue_size=512"@ && found[9 + 2 * i]@ == "--fs"@
            &&& found[rest]@ == "--cmdline"@ && found[rest + 1]@ == hypervisor::cmdline_text(
                config.name@,
                config.cmdline@,
                fs::mounts_view(config.mounts@),
            )
            &&& found[rest + 2]@ == "--net"@ && found[rest + 3]@ == "vhost_user=true,socket="@
                + config.network_socket@
            &&& found[rest + 4]@ == "--cpus"@ && found[rest + 5]@ == "boot="@ + text::decimal(
                config.cpus as nat,
            )
            &&& found[rest + 6]@ == "--memory"@ && found[rest + 7]@ == "size="@ + text::decimal(
                config.memory_mb as nat,
            ) + "M,shared=on"@
            &&& found[rest + 8]@ == "--serial"@ && found[rest + 9]@ == "off"@
            &&& found[rest + 10]@ == "--console"@ && found[rest + 11]@ == "tty"@
        }),
{
    let found = text::texts(vm.arguments@);
    let all = fs::mounts_view(config.mounts@);
    cloud_hypervisor::lemma_mount_arguments(all);
    let first = first_arguments(config, vm.socket_path@, overlay@);
    let shares = cloud_hypervisor::mount_arguments(all);
    let last = last_arguments(config);
    assert(first.len() == 9 && last.len() == 12);
    assert(found.len() == vm.arguments@.len());
    assert forall|i: int| 0 <= i < 9 implies vm.arguments@[i]@ == #[trigger] first[i] by {
        assert(found[i] == first[i]);
    }
    let rest: int = 9 + 2 * all.len() as int;
    assert forall|i: int| 0 <= i < 12 implies vm.arguments@[rest + i]@ == #[trigger] last[i] by {
        assert(found[rest + i] == last[i]);
    }
    assert forall|i: int| 0 <= i < config.mounts@.len() implies vm.arguments@[10 + 2 * i]@
        == "tag="@ + (#[trigger] config.mounts@[i]).tag@ + ",socket="@
        + config.mounts@[i].socket_path@ + ",num_queues=1,queue_size=512"@ && vm.arguments@[9 + 2
        * i]@ == "--fs"@ by {
        assert(all[i] == config.mounts@[i]@);
        assert(found[9 + 2 * i] == shares[2 * i]);
        assert(found[10 + 2 * i] == shares[2 * i + 1]);
    }
    assert(vm.arguments@[rest + 0]@ == last[0]);
    assert(last[2] == "--net"@ && last[4] == "--cpus"@ && last[6] == "--memory"@ && last[8]
        == "--serial"@ && last[9] == "off"@ && last[10] == "--console"@ && last[11] == "tty"@);
}

/// The hypervisor is asked to quit exactly if it answers at all, and it counts as gone if it
/// did not or if it granted that.
pub proof fn lemma_course_of_quitting(event: QuitEvent, step: QuitStep)
    requires
        call_ensures(shutdown_vm, (event,), step),
    ensures
        step is Ask <==> event == (QuitEvent::Checked { connected: true }),
        step matches QuitStep::Ask(method, path) ==> method@ == "PUT"@ && path@
            == "vmm.shutdown"@,
        step is Done <==> event == (QuitEvent::Checked { connected: false }) || (event
            matches QuitEvent::Asked(Some(response)) && 200 <= response.status_code <= 299),
        event == QuitEvent::Asked(None) ==> (step matches QuitStep::Fail(message) && message@
            == "requesting cloud hypervisor to shut down the sandbox"@),
        (event matches QuitEvent::Asked(Some(response)) && !(200 <= response.status_code <= 299))
            ==> (step matches QuitStep::Fail(message) && message@
            == "shutting down the sandbox was not successful"@),
{
}

/// What is listed of one more microVM: nothing if its entry could not be read, and otherwise
/// its name with what the hypervisor said of it, or that it is stopped or unknown.
pub proof fn lemma_one_more_vm(entries: Seq<VmEntry>, entry: VmEntry)
    ensures
        entry.name is None ==> listed(entries.push(entry)) == listed(entries),
        entry.name matches Some(name) ==> {
            &&& !entry.connected ==> listed(entries.push(entry)) == listed(entries).push(
                (name@, "Stopped"@),
            )
            &&& entry.connected && entry.response is Some ==> listed(entries.push(entry)) == listed(
                entries,
            ).push(
                (
                    name@,
                    if 200 <= entry.response.unwrap().status_code <= 299 && entry.info is Some {
                        entry.info.unwrap().state@
                    } else {
                        "Unknown"@
                    },
                ),
            )
        },
        listed(Seq::empty()).len() == 0,
{
    assert(entries.push(entry).drop_last() =~= entries);
}

/// The list fails exactly if a microVM that answers could not be asked, and otherwise it has a
/// head and a row for each that is listed.
pub proof fn lemma_listing_vms(entries: &Vec<VmEntry>, result: Result<String, String>)
    requires
        call_ensures(list_vms, (entries,), result),
    ensures
        result is Err <==> exists|i: int|
            0 <= i < entries@.len() && (#[trigger] entries@[i]).name is Some
                && entries@[i].connected && entries@[i].response is None,
        result matches Err(message) ==> message@
            == "requesting cloud hypervisor for information about the sandbox"@,
        result matches Ok(drawn) ==> exists|rows: Seq<Seq<Seq<char>>>|
            {
                &&& drawn@ == #[trigger] table::table_text(rows)
                &&& rows.len() == listed(entries@).len() + 1
                &&& forall|i: int|
                    0 <= i < listed(entries@).len() ==> rows[i + 1] == seq![
                        (#[trigger] listed(entries@)[i]).0,
                        listed(entries@)[i].1,
                    ]
            },
{
    if result is Err {
        let i = choose|i: int| 0 <= i < entries@.len() && is_unanswered(#[trigger] entries@[i]);
        assert(entries@[i].name is Some);
    } else {
        assert forall|i: int| 0 <= i < entries@.len() implies !((#[trigger] entries@[i]).name is Some
            && entries@[i].connected && entries@[i].response is None) by {
            assert(!is_unanswered(entries@[i]));
        }
        let rows = table::sandbox_records(listed(entries@));
        assert(result->Ok_0@ == table::table_text(rows));
        assert forall|i: int| 0 <= i < listed(entries@).len() implies rows[i + 1] == seq![
            (#[trigger] listed(entries@)[i]).0,
            listed(entries@)[i].1,
        ] by {}
    }
}

} // verus!
