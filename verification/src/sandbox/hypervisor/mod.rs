//! The programs that run microVMs.
pub mod cloud_hypervisor;
pub mod http;
pub mod qemu;

use vstd::prelude::*;
use vstd::string::*;

use crate::paths;
use crate::sandbox;
use crate::sandbox::config::{Config, HypervisorType, RootfsType};
use crate::sandbox::fs;
use crate::sandbox::fs::{FsMount, FsMountView};
use crate::sandbox::hypervisor::cloud_hypervisor::CloudHypervisor;
use crate::sandbox::hypervisor::qemu::Qemu;
use crate::sandbox::name;
use crate::sandbox::name::Name;
use crate::text;

verus! {

/// What a microVM is made of.
pub struct VmConfig<'sandbox> {
    pub name: &'sandbox Name,
    pub kernel: &'sandbox str,
    pub rootfs: &'sandbox str,
    pub rootfs_type: RootfsType,
    pub reset_overlay: bool,
    pub network_socket: Option<&'sandbox str>,
    pub cmdline: &'sandbox str,
    pub memory_mb: u64,
    pub cpus: u8,
    pub mounts: &'sandbox Vec<FsMount>,
}

/// How talkative a program is.
#[derive(Clone, Copy, Debug, PartialEq, Eq, Structural)]
pub enum Verbosity {
    Quiet,
    Info,
    Debug,
    Trace,
}

/// What a microVM is started with.
pub struct Boot {
    pub program: String,
    pub arguments: Vec<String>,
    /// The socket to talk to the hypervisor on.
    pub socket_path: String,
    /// What an earlier run may have left behind, to be removed before.
    pub stale_files: Vec<String>,
    /// What is removed once the microVM is gone.
    pub runtime_files: Vec<String>,
}

/// What is known of a microVM.
pub enum State {
    /// It runs, and this is what the hypervisor says of it.
    Running(String),
    Stopped,
    Unknown,
}

impl State {
    /// The state in words.
    pub open spec fn text(&self) -> Seq<char> {
        match self {
            State::Running(state) => state@,
            State::Stopped => "Stopped"@,
            State::Unknown => "Unknown"@,
        }
    }

    /// The state in words.
    pub fn to_text(&self) -> (text: String)
        ensures
            text@ == self.text(),
    {
        match self {
            State::Running(state) => state.clone(),
            State::Stopped => "Stopped".to_owned(),
            State::Unknown => "Unknown".to_owned(),
        }
    }
}

/// A hypervisor.
pub enum Hypervisor {
    CloudHypervisor(CloudHypervisor),
    Qemu(Qemu),
}

/// The hypervisor that the configuration asks for.
pub open spec fn configured(config: Option<&Config>) -> HypervisorType {
    match config {
        Some(config) => config.hypervisor,
        None => HypervisorType::CloudHypervisor,
    }
}

/// Where Cloud Hypervisor is.
pub open spec fn cloud_hypervisor_path(config: Option<&Config>) -> Seq<char> {
    match config {
        Some(config) => fs::program_path(config.cloud_hypervisor, "cloud-hypervisor"@),
        None => "cloud-hypervisor"@,
    }
}

/// Where QEMU is.
pub open spec fn qemu_path(config: Option<&Config>) -> Seq<char> {
    match config {
        Some(config) => fs::program_path(config.qemu, "qemu-system-x86_64"@),
        None => "qemu-system-x86_64"@,
    }
}

/// Whether a hypervisor is of the given kind, at the place that the configuration gives.
pub open spec fn is_hypervisor(
    hypervisor: Hypervisor,
    kind: HypervisorType,
    config: Option<&Config>,
) -> bool {
    match kind {
        HypervisorType::CloudHypervisor => hypervisor matches Hypervisor::CloudHypervisor(found)
            && found.binary@ == cloud_hypervisor_path(config),
        HypervisorType::Qemu => hypervisor matches Hypervisor::Qemu(found) && found.binary@
            == qemu_path(config),
    }
}

/// The hypervisor for a new sandbox.
pub fn new(config: Option<&Config>) -> (hypervisor: Hypervisor)
    ensures
        is_hypervisor(hypervisor, configured(config), config),
{
    if let Some(found) = config {
        if found.hypervisor == HypervisorType::Qemu {
            return Hypervisor::Qemu(Qemu::new(config));
        }
    }
    Hypervisor::CloudHypervisor(CloudHypervisor::new(config))
}

/// The hypervisor that a sandbox runs on, or the one that it would run on.
pub open spec fn hypervisor_of(
    config: Option<&Config>,
    cloud_hypervisor_runs: bool,
    qemu_runs: bool,
) -> HypervisorType {
    if cloud_hypervisor_runs {
        HypervisorType::CloudHypervisor
    } else if qemu_runs {
        HypervisorType::Qemu
    } else {
        configured(config)
    }
}

/// The hypervisor for a sandbox, whichever has it running.
pub fn for_sandbox(
    config: Option<&Config>,
    cloud_hypervisor_runs: bool,
    qemu_runs: bool,
) -> (hypervisor: Hypervisor)
    ensures
        is_hypervisor(
            hypervisor,
            hypervisor_of(config, cloud_hypervisor_runs, qemu_runs),
            config,
        ),
{
    if cloud_hypervisor_runs {
        return Hypervisor::CloudHypervisor(CloudHypervisor::new(config));
    }
    if qemu_runs {
        return Hypervisor::Qemu(Qemu::new(config));
    }
    new(config)
}

impl Hypervisor {
    /// The name of the socket that the hypervisor listens on.
    pub open spec fn socket(&self) -> Seq<char> {
        match self {
            Hypervisor::CloudHypervisor(_) => cloud_hypervisor::SOCKET_NAME@,
            Hypervisor::Qemu(_) => qemu::SOCKET_NAME@,
        }
    }

    /// The socket that the hypervisor listens on. A sandbox runs exactly if something answers
    /// there.
    pub fn socket_path(&self, sandbox_runtime_dir: &str) -> (path: String)
        ensures
            path@ == sandbox::socket_in(sandbox_runtime_dir@, self.socket()),
    {
        match self {
            Hypervisor::CloudHypervisor(_) => sandbox::socket_path_in(
                sandbox_runtime_dir,
                cloud_hypervisor::SOCKET_NAME,
            ),
            Hypervisor::Qemu(_) => sandbox::socket_path_in(
                sandbox_runtime_dir,
                qemu::SOCKET_NAME,
            ),
        }
    }
}

/// The sockets whose paths must not be too long, whichever hypervisor is used.
pub fn socket_paths_to_validate() -> (names: Vec<String>)
    ensures
        text::texts(names@) == seq![cloud_hypervisor::SOCKET_NAME@, qemu::SOCKET_NAME@],
{
    let mut names: Vec<String> = Vec::new();
    text::push_text(&mut names, cloud_hypervisor::SOCKET_NAME);
    text::push_text(&mut names, qemu::SOCKET_NAME);
    assert(text::texts(names@) =~= seq![cloud_hypervisor::SOCKET_NAME@, qemu::SOCKET_NAME@]);
    names
}

/// What makes the guest mount a share.
pub open spec fn mount_parameter(mount: FsMountView) -> Seq<char> {
    " systemd.mount-extra="@ + mount.tag + ":/mnt/"@ + mount.tag + ":virtiofs:"@ + (
    if mount.read_only {
        "ro"@
    } else {
        "rw"@
    })
}

/// What makes the guest mount the shares.
pub open spec fn mount_parameters(mounts: Seq<FsMountView>) -> Seq<char>
    decreases mounts.len(),
{
    if mounts.len() == 0 {
        Seq::empty()
    } else {
        mount_parameters(mounts.drop_last()) + mount_parameter(mounts.last())
    }
}

/// The kernel command line: what every guest has, what the user wants, and the shares.
pub open spec fn cmdline_text(
    name: Seq<char>,
    cmdline: Seq<char>,
    mounts: Seq<FsMountView>,
) -> Seq<char> {
    "console=hvc0 root=/dev/vda rw systemd.hostname="@ + name + " "@ + cmdline
        + mount_parameters(mounts)
}

/// Writes the kernel command line of a microVM.
pub fn guest_cmdline(config: &VmConfig) -> (cmdline: String)
    ensures
        cmdline@ == cmdline_text(config.name@, config.cmdline@, fs::mounts_view(config.mounts@)),
{
    cmdline_of(config.name.as_str(), config.cmdline, config.mounts)
}

/// Writes a kernel command line.
pub fn cmdline_of(name: &str, user_cmdline: &str, mounts: &Vec<FsMount>) -> (cmdline: String)
    ensures
        cmdline@ == cmdline_text(name@, user_cmdline@, fs::mounts_view(mounts@)),
{
    let ghost all = fs::mounts_view(mounts@);
    let mut cmdline: String = "console=hvc0 root=/dev/vda rw systemd.hostname=".to_owned();
    cmdline.append(name);
    cmdline.append(" ");
    cmdline.append(user_cmdline);
    let ghost before = cmdline@;
    assert(before =~= before + mount_parameters(all.take(0)));
    for i in 0..mounts.len()
        invariant
            all == fs::mounts_view(mounts@),
            cmdline@ == before + mount_parameters(all.take(i as int)),
    {
        let mount: &FsMount = &mounts[i];
        assert(all.take(i + 1).drop_last() =~= all.take(i as int));
        assert(all[i as int] == mount@);
        cmdline.append(" systemd.mount-extra=");
        cmdline.append(mount.tag.as_str());
        cmdline.append(":/mnt/");
        cmdline.append(mount.tag.as_str());
        cmdline.append(":virtiofs:");
        if mount.read_only {
            cmdline.append("ro");
        } else {
            cmdline.append("rw");
        }
        assert(cmdline@ =~= before + mount_parameters(all.take(i + 1)));
    }
    assert(all.take(all.len() as int) =~= all);
    cmdline
}

/// The overlay that holds what a sandbox has written.
pub open spec fn overlay_file(state_dir: Seq<char>, name: Seq<char>) -> Seq<char> {
    paths::join(paths::join(state_dir, name), "backing_file.qcow2"@)
}

/// What to do about the overlay of a sandbox.
#[derive(Clone, Copy, Debug, PartialEq, Eq, Structural)]
pub enum OverlayStep {
    /// Use the one that is there, if it is backed by the configured root file system.
    Reuse,
    /// Create a new one, as large as the root file system, in place of the one that may be
    /// there.
    Create,
}

/// How the size of a root file system is found out.
#[derive(Clone, Copy, Debug, PartialEq, Eq, Structural)]
pub enum SizeSource {
    /// It is the length of the file.
    FileLength,
    /// It is written in the image.
    ImageHeader,
}

/// The size of a root file system, as it was found out.
#[derive(Clone, Copy, Debug, PartialEq, Eq, Structural)]
pub struct RootfsSize {
    pub source: SizeSource,
    pub bytes: u64,
}

/// What a new overlay is made of.
pub struct NewOverlay {
    pub size: u64,
    pub backing_file: String,
    pub backing_format: String,
}

/// An overlay, and what to do about it.
pub struct Overlay {
    pub path: String,
    pub step: OverlayStep,
}

/// The overlay of a sandbox.
pub fn overlay_path(state_dir: &str, name: &Name) -> (path: String)
    ensures
        path@ == overlay_file(state_dir@, name@),
{
    let directory: String = paths::joined_path(state_dir, name.as_str());
    paths::joined_path(directory.as_str(), "backing_file.qcow2")
}

/// Decides what to do about the overlay of a sandbox. What the sandbox has written is kept
/// unless it is to start anew.
pub fn create_qcow2_overlay(config: &VmConfig, state_dir: &str, overlay_exists: bool) -> (overlay:
    Overlay)
    ensures
        overlay.path@ == overlay_file(state_dir@, config.name@),
        overlay.step == (if overlay_exists && !config.reset_overlay {
            OverlayStep::Reuse
        } else {
            OverlayStep::Create
        }),
{
    let path: String = overlay_path(state_dir, config.name);
    if overlay_exists && !config.reset_overlay {
        Overlay { path, step: OverlayStep::Reuse }
    } else {
        Overlay { path, step: OverlayStep::Create }
    }
}

/// Where the size of a root file system is found.
pub open spec fn size_source(rootfs_type: RootfsType) -> SizeSource {
    match rootfs_type {
        RootfsType::Raw => SizeSource::FileLength,
        RootfsType::QCOW2 => SizeSource::ImageHeader,
    }
}

/// Plans a new overlay. It is as large as the root file system and backed by it, so that
/// nothing is written there, and it can be used again as long as that stays the same.
pub fn new_overlay(config: &VmConfig, rootfs_size: RootfsSize) -> (overlay: NewOverlay)
    requires
        rootfs_size.source == size_source(config.rootfs_type),
    ensures
        overlay.size == rootfs_size.bytes,
        overlay.backing_file@ == config.rootfs@,
        overlay.backing_format@ == config.rootfs_type.text(),
{
    NewOverlay {
        size: rootfs_size.bytes,
        backing_file: config.rootfs.to_owned(),
        backing_format: config.rootfs_type.as_str().to_owned(),
    }
}

/// Tells how the size of a root file system is found out.
pub fn rootfs_virtual_size(rootfs_type: RootfsType) -> (source: SizeSource)
    ensures
        source == size_source(rootfs_type),
{
    match rootfs_type {
        RootfsType::Raw => SizeSource::FileLength,
        RootfsType::QCOW2 => SizeSource::ImageHeader,
    }
}

/// A text that may be missing, or another text in its place.
pub open spec fn text_or(text: Option<Seq<char>>, other: Seq<char>) -> Seq<char> {
    match text {
        Some(text) => text,
        None => other,
    }
}

/// The text of a borrowed string that may be missing.
pub open spec fn borrowed_text(string: Option<&str>) -> Option<Seq<char>> {
    match string {
        Some(string) => Some(string@),
        None => None,
    }
}

/// What is wrong with an overlay that was created from another root file system.
pub open spec fn overlay_error(
    name: Seq<char>,
    recorded_file: Option<Seq<char>>,
    recorded_format: Option<Seq<char>>,
    rootfs: Seq<char>,
    rootfs_type: RootfsType,
) -> Option<Seq<char>> {
    if recorded_file == Some(rootfs) && recorded_format == Some(rootfs_type.text()) {
        None
    } else {
        Some(
            "the overlay of sandbox `"@ + name + "` was created from `"@ + text_or(
                recorded_file,
                "no backing file"@,
            ) + "` ("@ + text_or(recorded_format, "unknown format"@)
                + "), but the configured rootfs is `"@ + rootfs + "` ("@ + rootfs_type.text()
                + "). Pass --recreate to build a new overlay, which discards everything the sandbox has written so far."@,
        )
    }
}

/// Checks that an overlay is backed by the configured root file system.
pub fn ensure_overlay_backs_onto_rootfs(
    config: &VmConfig,
    recorded_file: Option<&str>,
    recorded_format: Option<&str>,
) -> (result: Result<(), String>)
    ensures
        match result {
            Ok(()) => overlay_error(
                config.name@,
                borrowed_text(recorded_file),
                borrowed_text(recorded_format),
                config.rootfs@,
                config.rootfs_type,
            ) is None,
            Err(message) => overlay_error(
                config.name@,
                borrowed_text(recorded_file),
                borrowed_text(recorded_format),
                config.rootfs@,
                config.rootfs_type,
            ) == Some(message@),
        },
{
    if let Some(file) = recorded_file {
        if let Some(format) = recorded_format {
            if text::same(file, config.rootfs) && text::same(
                format,
                config.rootfs_type.as_str(),
            ) {
                return Ok(());
            }
        }
    }
    let mut message: String = "the overlay of sandbox `".to_owned();
    message.append(config.name.as_str());
    message.append("` was created from `");
    match recorded_file {
        Some(file) => message.append(file),
        None => message.append("no backing file"),
    }
    message.append("` (");
    match recorded_format {
        Some(format) => message.append(format),
        None => message.append("unknown format"),
    }
    message.append("), but the configured rootfs is `");
    message.append(config.rootfs);
    message.append("` (");
    message.append(config.rootfs_type.as_str());
    message.append(
        "). Pass --recreate to build a new overlay, which discards everything the sandbox has written so far.",
    );
    Err(message)
}

/// An overlay that was made for a root file system is accepted for it again, and for no other
/// one and no other format.
pub proof fn lemma_new_overlay_is_accepted(
    name: Seq<char>,
    made_for: Seq<char>,
    made_as: RootfsType,
    rootfs: Seq<char>,
    rootfs_type: RootfsType,
)
    ensures
        overlay_error(name, Some(made_for), Some(made_as.text()), rootfs, rootfs_type) is None
            <==> made_for == rootfs && made_as == rootfs_type,
{
    reveal_strlit("raw");
    reveal_strlit("qcow2");
    assert("raw"@.len() == 3 && "qcow2"@.len() == 5);
}

/// Where equals signs stand in what every command line begins with.
proof fn lemma_equals_in_prefix(at: int)
    requires
        0 <= at < "console=hvc0 root=/dev/vda rw systemd.hostname="@.len(),
        "console=hvc0 root=/dev/vda rw systemd.hostname="@[at] == '=',
    ensures
        at == 7 || at == 17 || at == 46,
{
    reveal_strlit("console=hvc0 root=/dev/vda rw systemd.hostname=");
    assert(at == 0 || at == 1 || at == 2 || at == 3 || at == 4 || at == 5 || at == 6 || at == 7
        || at == 8 || at == 9 || at == 10 || at == 11 || at == 12 || at == 13 || at == 14
        || at == 15 || at == 16 || at == 17 || at == 18 || at == 19 || at == 20 || at == 21
        || at == 22 || at == 23 || at == 24 || at == 25 || at == 26 || at == 27 || at == 28
        || at == 29 || at == 30 || at == 31 || at == 32 || at == 33 || at == 34 || at == 35
        || at == 36 || at == 37 || at == 38 || at == 39 || at == 40 || at == 41 || at == 42
        || at == 43 || at == 44 || at == 45 || at == 46);
}

/// Where an equals sign stands in what makes the guest mount a share.
proof fn lemma_equals_in_mount(mount: FsMountView, at: int)
    requires
        name::is_name(mount.tag),
        0 <= at < mount_parameter(mount).len(),
        mount_parameter(mount)[at] == '=',
    ensures
        at > 0,
        mount_parameter(mount)[at - 1] == 'a',
{
    reveal_strlit(" systemd.mount-extra=");
    reveal_strlit(":/mnt/");
    reveal_strlit(":virtiofs:");
    reveal_strlit("ro");
    reveal_strlit("rw");
    let head = " systemd.mount-extra="@;
    let tag = mount.tag;
    let middle = ":/mnt/"@;
    let tail = ":virtiofs:"@;
    let all = mount_parameter(mount);
    assert(head.len() == 21 && middle.len() == 6 && tail.len() == 10);
    if at < 21 {
        assert(all[at] == head[at]);
        assert(at == 0 || at == 1 || at == 2 || at == 3 || at == 4 || at == 5 || at == 6 || at == 7
        || at == 8 || at == 9 || at == 10 || at == 11 || at == 12 || at == 13 || at == 14
        || at == 15 || at == 16 || at == 17 || at == 18 || at == 19 || at == 20);
        assert(all[19] == head[19]);
    } else if at < 21 + tag.len() {
        assert(all[at] == tag[at - 21]);
        assert(name::is_name_character(tag[at - 21]));
    } else if at < 27 + tag.len() {
        let k = at - 21 - tag.len();
        assert(all[at] == middle[k]);
        assert(k == 0 || k == 1 || k == 2 || k == 3 || k == 4 || k == 5);
    } else if at < 27 + 2 * tag.len() {
        let k = at - 27 - tag.len();
        assert(all[at] == tag[k]);
        assert(name::is_name_character(tag[k]));
    } else if at < 37 + 2 * tag.len() {
        let k = at - 27 - 2 * tag.len();
        assert(all[at] == tail[k]);
        assert(k == 0 || k == 1 || k == 2 || k == 3 || k == 4 || k == 5 || k == 6 || k == 7 || k == 8
        || k == 9);
    } else {
        let k = at - 37 - 2 * tag.len();
        assert(k == 0 || k == 1);
    }
}

/// Where equals signs stand in what makes the guest mount the shares.
proof fn lemma_equals_in_mounts(mounts: Seq<FsMountView>, at: int)
    requires
        forall|i: int| 0 <= i < mounts.len() ==> name::is_name((#[trigger] mounts[i]).tag),
        0 <= at < mount_parameters(mounts).len(),
        mount_parameters(mounts)[at] == '=',
    ensures
        at > 0,
        mount_parameters(mounts)[at - 1] == 'a',
    decreases mounts.len(),
{
    let before = mount_parameters(mounts.drop_last());
    if at < before.len() {
        assert forall|i: int| 0 <= i < mounts.len() - 1 implies name::is_name(
            (#[trigger] mounts.drop_last()[i]).tag,
        ) by {
            assert(mounts.drop_last()[i] == mounts[i]);
        }
        lemma_equals_in_mounts(mounts.drop_last(), at);
    } else {
        assert(name::is_name(mounts[mounts.len() - 1].tag));
        lemma_equals_in_mount(mounts.last(), at - before.len());
    }
}

/// Whatever the user wants on the command line, as long as it is valid, `console=` stands at
/// its start alone and `root=` behind that alone: neither can be overridden.
pub proof fn lemma_console_and_root_stay(
    name: Seq<char>,
    cmdline: Seq<char>,
    mounts: Seq<FsMountView>,
)
    requires
        name::is_name(name),
        sandbox::config::cmdline_error(cmdline) is None,
        forall|i: int| 0 <= i < mounts.len() ==> name::is_name((#[trigger] mounts[i]).tag),
    ensures
        forall|at: int|
            text::stands_at(cmdline_text(name, cmdline, mounts), "console="@, at) ==> at == 0,
        forall|at: int|
            text::stands_at(cmdline_text(name, cmdline, mounts), "root="@, at) ==> at == 13,
        text::stands_at(cmdline_text(name, cmdline, mounts), "console=hvc0 root=/dev/vda "@, 0),
{
    let prefix = "console=hvc0 root=/dev/vda rw systemd.hostname="@;
    let all = cmdline_text(name, cmdline, mounts);
    reveal_strlit("console=hvc0 root=/dev/vda rw systemd.hostname=");
    reveal_strlit("console=hvc0 root=/dev/vda ");
    reveal_strlit("console=");
    reveal_strlit("root=");
    assert forall|at: int| text::stands_at(all, "console="@, at) implies at == 0 by {
        let needle = "console="@;
        assert forall|j: int| 0 <= j < 8 implies all[at + j] == #[trigger] needle[j] by {
            assert(all.subrange(at, at + 8)[j] == all[at + j]);
        }
        assert forall|j: int| 0 <= j < 8 implies #[trigger] needle[j] != ' ' by {
            assert(j == 0 || j == 1 || j == 2 || j == 3 || j == 4 || j == 5 || j == 6 || j == 7);
        }
        assert(needle[5] == 'l' && needle[6] == 'e' && needle[7] == '=');
        lemma_needle(name, cmdline, mounts, needle, at);
        assert(all[at + 7] == prefix[at + 7]);
        lemma_equals_in_prefix(at + 7);
        assert(all[at + 6] == prefix[at + 6] && all[at + 5] == prefix[at + 5]);
    }
    assert forall|at: int| text::stands_at(all, "root="@, at) implies at == 13 by {
        let needle = "root="@;
        assert forall|j: int| 0 <= j < 5 implies all[at + j] == #[trigger] needle[j] by {
            assert(all.subrange(at, at + 5)[j] == all[at + j]);
        }
        assert forall|j: int| 0 <= j < 5 implies #[trigger] needle[j] != ' ' by {
            assert(j == 0 || j == 1 || j == 2 || j == 3 || j == 4);
        }
        assert(needle[3] == 't' && needle[4] == '=');
        lemma_needle(name, cmdline, mounts, needle, at);
        assert(all[at + 4] == prefix[at + 4]);
        lemma_equals_in_prefix(at + 4);
        assert(all[at + 3] == prefix[at + 3]);
    }
    assert(all.subrange(0, 27) =~= "console=hvc0 root=/dev/vda "@);
}

/// A parameter that the user did not give ends in what every command line begins with.
proof fn lemma_needle(
    name: Seq<char>,
    cmdline: Seq<char>,
    mounts: Seq<FsMountView>,
    needle: Seq<char>,
    at: int,
)
    requires
        name::is_name(name),
        forall|i: int| 0 <= i < mounts.len() ==> name::is_name((#[trigger] mounts[i]).tag),
        !text::holds(cmdline, needle),
        needle.len() >= 2,
        needle[needle.len() - 1] == '=',
        needle[needle.len() - 2] != 'a',
        forall|j: int| 0 <= j < needle.len() ==> #[trigger] needle[j] != ' ',
        0 <= at,
        at + needle.len() <= cmdline_text(name, cmdline, mounts).len(),
        forall|j: int|
            0 <= j < needle.len() ==> cmdline_text(name, cmdline, mounts)[at + j]
                == #[trigger] needle[j],
    ensures
        at + needle.len() <= "console=hvc0 root=/dev/vda rw systemd.hostname="@.len(),
{
    let prefix = "console=hvc0 root=/dev/vda rw systemd.hostname="@;
    let all = cmdline_text(name, cmdline, mounts);
    reveal_strlit(" ");
    let last = at + needle.len() - 1;
    let user = prefix.len() + name.len() + 1;
    assert(all[last] == needle[needle.len() - 1]);
    if last < prefix.len() {
    } else if last < prefix.len() + name.len() {
        assert(all[last] == name[last - prefix.len()]);
        assert(name::is_name_character(name[last - prefix.len()]));
    } else if last == prefix.len() + name.len() {
        assert(all[last] == ' ');
    } else if last < user + cmdline.len() {
        if at >= user {
            assert(cmdline.subrange(at - user, at - user + needle.len()) =~= needle) by {
                assert forall|j: int| 0 <= j < needle.len() implies cmdline[at - user + j]
                    == #[trigger] needle[j] by {
                    assert(all[at + j] == cmdline[at - user + j]);
                }
            }
            assert(text::stands_at(cmdline, needle, at - user));
        } else {
            assert(all[user - 1] == ' ');
            assert(needle[user - 1 - at] == ' ');
        }
    } else {
        let parameters = mount_parameters(mounts);
        let k = last - user - cmdline.len();
        assert(all[last] == parameters[k]);
        lemma_equals_in_mounts(mounts, k);
        assert(all[last - 1] == parameters[k - 1]);
        assert(all[at + (needle.len() - 2)] == needle[needle.len() - 2]);
    }
}

/// A new sandbox runs on the hypervisor that is configured, and on Cloud Hypervisor if none is.
/// A sandbox that runs already is left to the hypervisor that has it.
pub proof fn lemma_choice_of_hypervisor(
    config: Option<&Config>,
    cloud_hypervisor_runs: bool,
    qemu_runs: bool,
    fresh: Hypervisor,
    running: Hypervisor,
)
    requires
        call_ensures(new, (config,), fresh),
        call_ensures(for_sandbox, (config, cloud_hypervisor_runs, qemu_runs), running),
    ensures
        fresh is Qemu <==> (config matches Some(given) && given.hypervisor
            == HypervisorType::Qemu),
        cloud_hypervisor_runs ==> running is CloudHypervisor,
        !cloud_hypervisor_runs && qemu_runs ==> running is Qemu,
        !cloud_hypervisor_runs && !qemu_runs ==> (running is Qemu <==> fresh is Qemu),
        config is None ==> (fresh matches Hypervisor::CloudHypervisor(found) && found.binary@
            == "cloud-hypervisor"@),
        config matches Some(given) ==> {
            &&& running matches Hypervisor::CloudHypervisor(found) ==> found.binary@
                == fs::program_path(given.cloud_hypervisor, "cloud-hypervisor"@)
            &&& running matches Hypervisor::Qemu(found) ==> found.binary@ == fs::program_path(
                given.qemu,
                "qemu-system-x86_64"@,
            )
        },
{
}

/// Each hypervisor listens on a socket of its own.
pub proof fn lemma_socket_of_hypervisor(
    hypervisor: &Hypervisor,
    sandbox_runtime_dir: &str,
    path: String,
)
    requires
        call_ensures(Hypervisor::socket_path, (hypervisor, sandbox_runtime_dir), path),
    ensures
        *hypervisor is CloudHypervisor ==> path@ == paths::join(
            sandbox_runtime_dir@,
            "cloud-hypervisor"@ + ".sock"@,
        ),
        *hypervisor is Qemu ==> path@ == paths::join(
            sandbox_runtime_dir@,
            "qemu-qmp"@ + ".sock"@,
        ),
{
}

/// The kernel command line begins with what every guest has, and one more share makes it longer
/// by what mounts that share, read-only or not, and changes nothing before that.
pub proof fn lemma_cmdline_grows(
    name: Seq<char>,
    cmdline: Seq<char>,
    mounts: Seq<FsMountView>,
    mount: FsMountView,
)
    ensures
        cmdline_text(name, cmdline, Seq::empty())
            == "console=hvc0 root=/dev/vda rw systemd.hostname="@ + name + " "@ + cmdline,
        cmdline_text(name, cmdline, mounts.push(mount)) == cmdline_text(name, cmdline, mounts)
            + " systemd.mount-extra="@ + mount.tag + ":/mnt/"@ + mount.tag + (if mount.read_only {
            ":virtiofs:ro"@
        } else {
            ":virtiofs:rw"@
        }),
{
    reveal_strlit(":virtiofs:");
    reveal_strlit("ro");
    reveal_strlit("rw");
    reveal_strlit(":virtiofs:ro");
    reveal_strlit(":virtiofs:rw");
    let none = Seq::<FsMountView>::empty();
    let head = "console=hvc0 root=/dev/vda rw systemd.hostname="@ + name + " "@ + cmdline;
    assert(mount_parameters(none) =~= Seq::<char>::empty());
    assert(head + mount_parameters(none) =~= head);
    assert(mounts.push(mount).drop_last() =~= mounts);
    assert(":virtiofs:"@ + "ro"@ =~= ":virtiofs:ro"@);
    assert(":virtiofs:"@ + "rw"@ =~= ":virtiofs:rw"@);
    assert(cmdline_text(name, cmdline, mounts.push(mount)) =~= cmdline_text(name, cmdline, mounts)
        + " systemd.mount-extra="@ + mount.tag + ":/mnt/"@ + mount.tag + (if mount.read_only {
        ":virtiofs:ro"@
    } else {
        ":virtiofs:rw"@
    }));
}

/// What a sandbox has written lies in its part of the state directory. It is kept unless it is
/// to be discarded, and then it is as if there had been nothing.
pub proof fn lemma_fate_of_overlay(
    config: &VmConfig,
    state_dir: &str,
    overlay_exists: bool,
    overlay: Overlay,
)
    requires
        call_ensures(create_qcow2_overlay, (config, state_dir, overlay_exists), overlay),
    ensures
        overlay.path@ == paths::join(paths::join(state_dir@, config.name@), "backing_file.qcow2"@),
        overlay.step == OverlayStep::Reuse <==> overlay_exists && !config.reset_overlay,
        overlay.step == OverlayStep::Create <==> !overlay_exists || config.reset_overlay,
{
}

/// An overlay is used again exactly if it records the configured root file system and its
/// format. The message names both and tells how to discard it.
pub proof fn lemma_which_overlay_is_used_again(
    config: &VmConfig,
    recorded_file: Option<&str>,
    recorded_format: Option<&str>,
    result: Result<(), String>,
)
    requires
        call_ensures(
            ensure_overlay_backs_onto_rootfs,
            (config, recorded_file, recorded_format),
            result,
        ),
    ensures
        result is Ok <==> (recorded_file matches Some(file) && file@ == config.rootfs@) && (
        recorded_format matches Some(format) && format@ == (match config.rootfs_type {
            RootfsType::Raw => "raw"@,
            RootfsType::QCOW2 => "qcow2"@,
        })),
        result matches Err(message) ==> message@ == "the overlay of sandbox `"@ + config.name@
            + "` was created from `"@ + (match recorded_file {
            Some(file) => file@,
            None => "no backing file"@,
        }) + "` ("@ + (match recorded_format {
            Some(format) => format@,
            None => "unknown format"@,
        }) + "), but the configured rootfs is `"@ + config.rootfs@ + "` ("@ + (
        match config.rootfs_type {
            RootfsType::Raw => "raw"@,
            RootfsType::QCOW2 => "qcow2"@,
        })
            + "). Pass --recreate to build a new overlay, which discards everything the sandbox has written so far."@,
{
}

/// The size of a raw image is that of its file, and that of a copy-on-write image is written in
/// it.
pub proof fn lemma_where_size_is_found(rootfs_type: RootfsType, source: SizeSource)
    requires
        call_ensures(rootfs_virtual_size, (rootfs_type,), source),
    ensures
        source == SizeSource::FileLength <==> rootfs_type == RootfsType::Raw,
        source == SizeSource::ImageHeader <==> rootfs_type == RootfsType::QCOW2,
{
}

/// A new overlay is as large as the root file system and records it with its format, so it is
/// accepted for it again.
pub proof fn lemma_overlay_for_rootfs(
    config: &VmConfig,
    rootfs_size: RootfsSize,
    overlay: NewOverlay,
    file: &str,
    format: &str,
    result: Result<(), String>,
)
    requires
        rootfs_size.source == size_source(config.rootfs_type),
        call_ensures(new_overlay, (config, rootfs_size), overlay),
        file@ == overlay.backing_file@,
        format@ == overlay.backing_format@,
        call_ensures(
            ensure_overlay_backs_onto_rootfs,
            (config, Some(file), Some(format)),
            result,
        ),
    ensures
        overlay.size == rootfs_size.bytes,
        overlay.backing_file@ == config.rootfs@,
        result is Ok,
{
}

} // verus!
