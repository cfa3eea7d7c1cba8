//! The configuration of a sandbox.
use vstd::prelude::*;
use vstd::string::*;

use crate::paths;
use crate::sandbox::name;
use crate::sandbox::name::Name;
use crate::sandbox::validation;
use crate::sandbox::validation::{Component, Entry};
use crate::text;

verus! {

/// The format of the file that holds the root file system.
#[derive(Clone, Copy, Debug, PartialEq, Eq, Structural)]
pub enum RootfsType {
    Raw,
    QCOW2,
}

impl Default for RootfsType {
    fn default() -> (rootfs_type: Self)
        ensures
            rootfs_type == RootfsType::Raw,
    {
        RootfsType::Raw
    }
}

impl RootfsType {
    /// The name that image tools have for the format.
    pub open spec fn text(&self) -> Seq<char> {
        match self {
            RootfsType::Raw => "raw"@,
            RootfsType::QCOW2 => "qcow2"@,
        }
    }

    /// The name that image tools have for the format.
    pub fn as_str(&self) -> (text: &str)
        ensures
            text@ == self.text(),
    {
        match self {
            RootfsType::Raw => "raw",
            RootfsType::QCOW2 => "qcow2",
        }
    }
}

/// The program that runs the microVM.
#[derive(Clone, Copy, Debug, PartialEq, Eq, Structural)]
pub enum HypervisorType {
    CloudHypervisor,
    Qemu,
}

impl Default for HypervisorType {
    fn default() -> (hypervisor: Self)
        ensures
            hypervisor == HypervisorType::CloudHypervisor,
    {
        HypervisorType::CloudHypervisor
    }
}

/// Whether the guest gets a network.
#[derive(Clone, Copy, Debug, PartialEq, Eq, Structural)]
pub enum Network {
    Lan,
    Off,
}

impl Default for Network {
    fn default() -> (network: Self)
        ensures
            network == Network::Lan,
    {
        Network::Lan
    }
}

/// Where a helper program is.
pub struct BinaryConfig {
    pub binary: Option<String>,
}

/// A directory of the host that the guest can mount.
#[derive(Debug)]
pub struct FsShare {
    pub host_dir: String,
    pub name: Name,
    /// Whether the whole share is read-only.
    pub read_only: bool,
    /// The paths inside the share that are read-only.
    pub read_only_paths: Vec<String>,
    /// The paths inside the share that the guest does not get to see.
    pub hidden_paths: Vec<String>,
}

/// The mathematical value of a share.
pub struct FsShareView {
    pub host_dir: Seq<char>,
    pub name: Seq<char>,
    pub read_only: bool,
    pub read_only_paths: Seq<Seq<char>>,
    pub hidden_paths: Seq<Seq<char>>,
}

impl View for FsShare {
    type V = FsShareView;

    open spec fn view(&self) -> FsShareView {
        FsShareView {
            host_dir: self.host_dir@,
            name: self.name@,
            read_only: self.read_only,
            read_only_paths: text::texts(self.read_only_paths@),
            hidden_paths: text::texts(self.hidden_paths@),
        }
    }
}

impl Clone for FsShare {
    fn clone(&self) -> (share: Self)
        ensures
            share@ == self@,
    {
        FsShare {
            host_dir: self.host_dir.clone(),
            name: self.name.clone(),
            read_only: self.read_only,
            read_only_paths: text::copies(&self.read_only_paths),
            hidden_paths: text::copies(&self.hidden_paths),
        }
    }
}

/// The values of a vector of shares.
pub open spec fn shares_view(shares: Seq<FsShare>) -> Seq<FsShareView> {
    shares.map_values(|share: FsShare| share@)
}

/// The configuration of a sandbox.
pub struct Config {
    pub name: Name,
    pub kernel: String,
    pub kernel_cmdline: String,
    pub rootfs: String,
    pub rootfs_type: RootfsType,
    pub memory_mb: u64,
    pub cpus: u8,
    pub shares: Option<Vec<FsShare>>,
    pub guest_uid: u32,
    pub inherit_shares: bool,
    pub guest_gid: u32,
    pub dns: Option<Vec<String>>,
    pub network: Network,
    pub hypervisor: HypervisorType,
    pub cloud_hypervisor: Option<BinaryConfig>,
    pub qemu: Option<BinaryConfig>,
    pub passt: Option<BinaryConfig>,
    pub virtiofsd: Option<BinaryConfig>,
}

/// Which of the paths that matter are files and which are directories.
pub struct Disk {
    pub files: Vec<String>,
    pub directories: Vec<String>,
}

impl Disk {
    /// Whether there is a file at a path.
    pub open spec fn has_file(&self, path: Seq<char>) -> bool {
        text::texts(self.files@).contains(path)
    }

    /// Whether there is a directory at a path.
    pub open spec fn has_directory(&self, path: Seq<char>) -> bool {
        text::texts(self.directories@).contains(path)
    }
}

/// Tells whether a text is among the strings.
fn is_among(strings: &Vec<String>, wanted: &str) -> (result: bool)
    ensures
        result == text::texts(strings@).contains(wanted@),
{
    for i in 0..strings.len()
        invariant
            forall|k: int| 0 <= k < i ==> text::texts(strings@)[k] != wanted@,
    {
        if text::same(strings[i].as_str(), wanted) {
            assert(text::texts(strings@)[i as int] == wanted@);
            return true;
        }
    }
    false
}

/// What is wrong with a path that should be that of a file.
pub open spec fn file_error(path: Seq<char>, disk: &Disk) -> Option<Seq<char>> {
    if disk.has_file(path) {
        None
    } else {
        Some("Path `"@ + path + "` does not exist or is not a file"@)
    }
}

/// What is wrong with a path that should be that of a directory.
pub open spec fn dir_error(path: Seq<char>, disk: &Disk) -> Option<Seq<char>> {
    if disk.has_directory(path) {
        None
    } else {
        Some("Path `"@ + path + "` does not exist or is not a directory"@)
    }
}

/// What is wrong with a kernel command line. The console and the root device are not up to
/// the user.
pub open spec fn cmdline_error(value: Seq<char>) -> Option<Seq<char>> {
    if text::holds(value, "console="@) {
        Some(
            "Kernel command line parameters must not configure `console`. `console` is hardcoded to `hvc0` and cannot be changed."@,
        )
    } else if text::holds(value, "root="@) {
        Some(
            "Kernel command line parameters must not configure `root`. `root` is hardcoded to `/dev/vda` and cannot be changed."@,
        )
    } else {
        None
    }
}

/// Checks a kernel command line.
pub fn validate_kernel_cmdline(value: &str) -> (result: Result<(), String>)
    ensures
        validation::says(result, cmdline_error(value@)),
{
    if text::contains(value, "console=") {
        return Err(
            "Kernel command line parameters must not configure `console`. `console` is hardcoded to `hvc0` and cannot be changed.".to_owned(),
        );
    }
    if text::contains(value, "root=") {
        return Err(
            "Kernel command line parameters must not configure `root`. `root` is hardcoded to `/dev/vda` and cannot be changed.".to_owned(),
        );
    }
    Ok(())
}

/// Checks that there is a file at a path.
pub fn file_exists(value: &str, disk: &Disk) -> (result: Result<(), String>)
    ensures
        validation::says(result, file_error(value@, disk)),
{
    if is_among(&disk.files, value) {
        return Ok(());
    }
    let mut message: String = "Path `".to_owned();
    message.append(value);
    message.append("` does not exist or is not a file");
    Err(message)
}

/// Checks that there is a directory at a path.
pub fn dir_exists(value: &str, disk: &Disk) -> (result: Result<(), String>)
    ensures
        validation::says(result, dir_error(value@, disk)),
{
    if is_among(&disk.directories, value) {
        return Ok(());
    }
    let mut message: String = "Path `".to_owned();
    message.append(value);
    message.append("` does not exist or is not a directory");
    Err(message)
}

/// What is wrong with a path that, if it is given, should be that of a file.
pub open spec fn optional_file_error(path: Option<String>, disk: &Disk) -> Option<Seq<char>> {
    match path {
        Some(path) => file_error(path@, disk),
        None => None,
    }
}

/// Checks that there is a file at a path, if one is given.
pub fn file_exists_optional(value: &Option<String>, disk: &Disk) -> (result: Result<(), String>)
    ensures
        validation::says(result, optional_file_error(*value, disk)),
{
    match value {
        Some(path) => file_exists(path.as_str(), disk),
        None => Ok(()),
    }
}

/// What is wrong with a path that should lie inside a share.
pub open spec fn inside_error(path: Seq<char>, host_dir: Seq<char>) -> Option<Seq<char>> {
    if paths::is_within(path, host_dir) && !paths::is_same(path, host_dir) {
        None
    } else {
        Some(path + " is not inside host_dir "@ + host_dir)
    }
}

/// The errors of paths that should lie inside a share.
pub open spec fn inside_entries(
    paths: Seq<Seq<char>>,
    host_dir: Seq<char>,
    field: Seq<Component>,
) -> Seq<Entry>
    decreases paths.len(),
{
    if paths.len() == 0 {
        Seq::empty()
    } else {
        inside_entries(paths.drop_last(), host_dir, field) + validation::entry(
            field.push(Component::Index((paths.len() - 1) as nat)),
            inside_error(paths.last(), host_dir),
        )
    }
}

/// The errors of a share. Without its directory nothing else is looked at.
pub open spec fn share_entries(
    share: FsShareView,
    disk: &Disk,
    parent: Seq<Component>,
) -> Seq<Entry> {
    if dir_error(share.host_dir, disk) is Some {
        validation::entry(
            parent.push(Component::Key("host_dir"@)),
            dir_error(share.host_dir, disk),
        )
    } else {
        inside_entries(
            share.read_only_paths,
            share.host_dir,
            parent.push(Component::Key("read_only_paths"@)),
        ) + inside_entries(
            share.hidden_paths,
            share.host_dir,
            parent.push(Component::Key("hidden_paths"@)),
        )
    }
}

/// Reports the paths that do not lie inside a share.
fn report_outside(
    paths: &Vec<String>,
    host_dir: &str,
    field: &garde::Path,
    report: &mut garde::Report,
)
    ensures
        validation::report_entries(*final(report)) == validation::report_entries(*old(report))
            + inside_entries(
            text::texts(paths@),
            host_dir@,
            validation::path_components(*field),
        ),
{
    let ghost all = text::texts(paths@);
    let ghost before = validation::report_entries(*report);
    let ghost components = validation::path_components(*field);
    assert(before =~= before + inside_entries(all.take(0), host_dir@, components));
    for i in 0..paths.len()
        invariant
            all == text::texts(paths@),
            components == validation::path_components(*field),
            validation::report_entries(*report) == before + inside_entries(
                all.take(i as int),
                host_dir@,
                components,
            ),
    {
        assert(all.take(i + 1).drop_last() =~= all.take(i as int));
        let path: &str = paths[i].as_str();
        assert(all[i as int] == path@);
        let result: Result<(), String> = if paths::starts_with(path, host_dir)
            && !paths::same_path(path, host_dir) {
            Ok(())
        } else {
            let mut message: String = path.to_owned();
            message.append(" is not inside host_dir ");
            message.append(host_dir);
            Err(message)
        };
        validation::note(report, &validation::join_index(field, i), result);
        assert(validation::report_entries(*report) =~= before + inside_entries(
            all.take(i + 1),
            host_dir@,
            components,
        ));
    }
    assert(all.take(all.len() as int) =~= all);
}

impl FsShare {
    /// Appends what is wrong with the share to a report.
    pub fn validate_into(&self, disk: &Disk, parent: &garde::Path, report: &mut garde::Report)
        ensures
            validation::report_entries(*final(report)) == validation::report_entries(*old(report))
                + share_entries(self@, disk, validation::path_components(*parent)),
    {
        let ghost before = validation::report_entries(*report);
        match dir_exists(self.host_dir.as_str(), disk) {
            Err(message) => {
                validation::note(report, &validation::join_key(parent, "host_dir"), Err(message));
            },
            Ok(()) => {
                report_outside(
                    &self.read_only_paths,
                    self.host_dir.as_str(),
                    &validation::join_key(parent, "read_only_paths"),
                    report,
                );
                report_outside(
                    &self.hidden_paths,
                    self.host_dir.as_str(),
                    &validation::join_key(parent, "hidden_paths"),
                    report,
                );
                assert(validation::report_entries(*report) =~= before + share_entries(
                    self@,
                    disk,
                    validation::path_components(*parent),
                ));
            },
        }
    }

    /// Checks the share.
    pub fn validate(&self, disk: &Disk) -> (result: Result<(), garde::Report>)
        ensures
            match result {
                Ok(()) => share_entries(self@, disk, Seq::empty()).len() == 0,
                Err(report) => {
                    &&& share_entries(self@, disk, Seq::empty()).len() > 0
                    &&& validation::report_entries(report) == share_entries(
                        self@,
                        disk,
                        Seq::empty(),
                    )
                },
            },
    {
        let mut report: garde::Report = validation::new_report();
        self.validate_into(disk, &validation::empty_path(), &mut report);
        assert(validation::report_entries(report) =~= share_entries(self@, disk, Seq::empty()));
        if validation::is_empty(&report) {
            Ok(())
        } else {
            Err(report)
        }
    }
}

/// The errors of a list of shares.
pub open spec fn shares_entries(
    shares: Seq<FsShareView>,
    disk: &Disk,
    parent: Seq<Component>,
) -> Seq<Entry>
    decreases shares.len(),
{
    if shares.len() == 0 {
        Seq::empty()
    } else {
        shares_entries(shares.drop_last(), disk, parent) + share_entries(
            shares.last(),
            disk,
            parent.push(Component::Index((shares.len() - 1) as nat)),
        )
    }
}

/// Appends what is wrong with the shares to a report.
pub fn validate_shares_into(
    shares: &Vec<FsShare>,
    disk: &Disk,
    parent: &garde::Path,
    report: &mut garde::Report,
)
    ensures
        validation::report_entries(*final(report)) == validation::report_entries(*old(report))
            + shares_entries(
            shares_view(shares@),
            disk,
            validation::path_components(*parent),
        ),
{
    let ghost all = shares_view(shares@);
    let ghost before = validation::report_entries(*report);
    let ghost components = validation::path_components(*parent);
    assert(before =~= before + shares_entries(all.take(0), disk, components));
    for i in 0..shares.len()
        invariant
            all == shares_view(shares@),
            components == validation::path_components(*parent),
            validation::report_entries(*report) == before + shares_entries(
                all.take(i as int),
                disk,
                components,
            ),
    {
        assert(all.take(i + 1).drop_last() =~= all.take(i as int));
        assert(all[i as int] == shares@[i as int]@);
        shares[i].validate_into(disk, &validation::join_index(parent, i), report);
        assert(validation::report_entries(*report) =~= before + shares_entries(
            all.take(i + 1),
            disk,
            components,
        ));
    }
    assert(all.take(all.len() as int) =~= all);
}

/// Checks a list of shares.
pub fn validate_shares(shares: &Vec<FsShare>, disk: &Disk) -> (result: Result<(), garde::Report>)
    ensures
        match result {
            Ok(()) => shares_entries(shares_view(shares@), disk, Seq::empty()).len() == 0,
            Err(report) => {
                &&& shares_entries(shares_view(shares@), disk, Seq::empty()).len() > 0
                &&& validation::report_entries(report) == shares_entries(
                    shares_view(shares@),
                    disk,
                    Seq::empty(),
                )
            },
        },
{
    let mut report: garde::Report = validation::new_report();
    validate_shares_into(shares, disk, &validation::empty_path(), &mut report);
    assert(validation::report_entries(report) =~= shares_entries(
        shares_view(shares@),
        disk,
        Seq::empty(),
    ));
    if validation::is_empty(&report) {
        Ok(())
    } else {
        Err(report)
    }
}

/// The errors of a list of name servers.
pub open spec fn dns_entries(servers: Seq<Seq<char>>, field: Seq<Component>) -> Seq<Entry>
    decreases servers.len(),
{
    if servers.len() == 0 {
        Seq::empty()
    } else {
        dns_entries(servers.drop_last(), field) + validation::entry(
            field.push(Component::Inner).push(Component::Index((servers.len() - 1) as nat)),
            validation::ip_error(servers.last()),
        )
    }
}

/// Appends the name servers that are no addresses to a report.
fn validate_dns_into(servers: &Vec<String>, field: &garde::Path, report: &mut garde::Report)
    ensures
        validation::report_entries(*final(report)) == validation::report_entries(*old(report))
            + dns_entries(text::texts(servers@), validation::path_components(*field)),
{
    let ghost all = text::texts(servers@);
    let ghost before = validation::report_entries(*report);
    let ghost components = validation::path_components(*field);
    let list: garde::Path = validation::join_inner(field);
    assert(before =~= before + dns_entries(all.take(0), components));
    for i in 0..servers.len()
        invariant
            all == text::texts(servers@),
            components == validation::path_components(*field),
            validation::path_components(list) == components.push(Component::Inner),
            validation::report_entries(*report) == before + dns_entries(
                all.take(i as int),
                components,
            ),
    {
        assert(all.take(i + 1).drop_last() =~= all.take(i as int));
        assert(all[i as int] == servers@[i as int]@);
        let result: Result<(), String> = validation::ip(servers[i].as_str());
        validation::note(report, &validation::join_index(&list, i), result);
        assert(validation::report_entries(*report) =~= before + dns_entries(
            all.take(i + 1),
            components,
        ));
    }
    assert(all.take(all.len() as int) =~= all);
}

/// The errors of a helper program.
pub open spec fn binary_entries(
    config: Option<BinaryConfig>,
    disk: &Disk,
    parent: Seq<Component>,
) -> Seq<Entry> {
    match config {
        Some(config) => validation::entry(
            parent.push(Component::Key("binary"@)),
            optional_file_error(config.binary, disk),
        ),
        None => Seq::empty(),
    }
}

/// Appends what is wrong with a helper program to a report.
fn validate_binary_into(
    config: &Option<BinaryConfig>,
    disk: &Disk,
    parent: &garde::Path,
    report: &mut garde::Report,
)
    ensures
        validation::report_entries(*final(report)) == validation::report_entries(*old(report))
            + binary_entries(*config, disk, validation::path_components(*parent)),
{
    match config {
        Some(config) => {
            let result: Result<(), String> = file_exists_optional(&config.binary, disk);
            validation::note(report, &validation::join_key(parent, "binary"), result);
        },
        None => {
            assert(validation::report_entries(*report) =~= validation::report_entries(*report)
                + Seq::<Entry>::empty());
        },
    }
}

/// The least memory of a sandbox, in megabytes.
pub const MIN_MEMORY_MB: u64 = 512;

/// The most memory of a sandbox, in megabytes.
pub const MAX_MEMORY_MB: u64 = 131072;

/// The fewest processors of a sandbox.
pub const MIN_CPUS: u64 = 1;

/// The most processors of a sandbox.
pub const MAX_CPUS: u64 = 255;

/// The errors of the fields that hold one value.
pub open spec fn value_entries(config: &Config, disk: &Disk, parent: Seq<Component>) -> Seq<Entry> {
    validation::entry(parent.push(Component::Key("kernel"@)), file_error(config.kernel@, disk)) + (
    validation::entry(
        parent.push(Component::Key("kernel_cmdline"@)),
        cmdline_error(config.kernel_cmdline@),
    ) + (validation::entry(
        parent.push(Component::Key("rootfs"@)),
        file_error(config.rootfs@, disk),
    ) + (validation::entry(
        parent.push(Component::Key("memory_mb"@)),
        validation::range_error(config.memory_mb, MIN_MEMORY_MB, MAX_MEMORY_MB),
    ) + validation::entry(
        parent.push(Component::Key("cpus"@)),
        validation::range_error(config.cpus as u64, MIN_CPUS, MAX_CPUS),
    ))))
}

/// The errors of the fields that hold a list.
pub open spec fn list_entries(config: &Config, disk: &Disk, parent: Seq<Component>) -> Seq<Entry> {
    (match config.shares {
        Some(shares) => shares_entries(
            shares_view(shares@),
            disk,
            parent.push(Component::Key("shares"@)),
        ),
        None => Seq::empty(),
    }) + (match config.dns {
        Some(servers) => dns_entries(
            text::texts(servers@),
            parent.push(Component::Key("dns"@)),
        ),
        None => Seq::empty(),
    })
}

/// The errors of the helper programs.
pub open spec fn program_entries(
    config: &Config,
    disk: &Disk,
    parent: Seq<Component>,
) -> Seq<Entry> {
    binary_entries(
        config.cloud_hypervisor,
        disk,
        parent.push(Component::Key("cloud_hypervisor"@)),
    ) + (binary_entries(config.qemu, disk, parent.push(Component::Key("qemu"@))) + (binary_entries(
        config.passt,
        disk,
        parent.push(Component::Key("passt"@)),
    ) + binary_entries(config.virtiofsd, disk, parent.push(Component::Key("virtiofsd"@)))))
}

/// The errors of a configuration, field by field.
pub open spec fn config_entries(config: &Config, disk: &Disk, parent: Seq<Component>) -> Seq<Entry> {
    value_entries(config, disk, parent) + list_entries(config, disk, parent) + program_entries(
        config,
        disk,
        parent,
    )
}

impl Config {
    /// Appends what is wrong with the configuration to a report.
    pub fn validate_into(&self, disk: &Disk, parent: &garde::Path, report: &mut garde::Report)
        ensures
            validation::report_entries(*final(report)) == validation::report_entries(*old(report))
                + config_entries(self, disk, validation::path_components(*parent)),
    {
        let ghost before = validation::report_entries(*report);
        self.validate_values_into(disk, parent, report);
        self.validate_lists_into(disk, parent, report);
        self.validate_programs_into(disk, parent, report);
        assert(validation::report_entries(*report) =~= before + config_entries(
            self,
            disk,
            validation::path_components(*parent),
        ));
    }

    /// Checks the fields that hold one value.
    fn validate_values_into(&self, disk: &Disk, parent: &garde::Path, report: &mut garde::Report)
        ensures
            validation::report_entries(*final(report)) == validation::report_entries(*old(report))
                + value_entries(self, disk, validation::path_components(*parent)),
    {
        let ghost before = validation::report_entries(*report);
        let kernel: garde::Path = validation::join_key(parent, "kernel");
        validation::note(report, &kernel, file_exists(self.kernel.as_str(), disk));
        let ghost first = validation::report_entries(*report);
        let cmdline: garde::Path = validation::join_key(parent, "kernel_cmdline");
        validation::note(report, &cmdline, validate_kernel_cmdline(self.kernel_cmdline.as_str()));
        let ghost second = validation::report_entries(*report);
        let rootfs: garde::Path = validation::join_key(parent, "rootfs");
        validation::note(report, &rootfs, file_exists(self.rootfs.as_str(), disk));
        let ghost third = validation::report_entries(*report);
        let memory: garde::Path = validation::join_key(parent, "memory_mb");
        validation::note(
            report,
            &memory,
            validation::range(self.memory_mb, MIN_MEMORY_MB, MAX_MEMORY_MB),
        );
        let ghost fourth = validation::report_entries(*report);
        let cpus: garde::Path = validation::join_key(parent, "cpus");
        validation::note(report, &cpus, validation::range(self.cpus as u64, MIN_CPUS, MAX_CPUS));
        proof {
            let at = validation::path_components(*parent);
            let e1 = validation::entry(
                at.push(Component::Key("kernel"@)),
                file_error(self.kernel@, disk),
            );
            let e2 = validation::entry(
                at.push(Component::Key("kernel_cmdline"@)),
                cmdline_error(self.kernel_cmdline@),
            );
            let e3 = validation::entry(
                at.push(Component::Key("rootfs"@)),
                file_error(self.rootfs@, disk),
            );
            let e4 = validation::entry(
                at.push(Component::Key("memory_mb"@)),
                validation::range_error(self.memory_mb, MIN_MEMORY_MB, MAX_MEMORY_MB),
            );
            let e5 = validation::entry(
                at.push(Component::Key("cpus"@)),
                validation::range_error(self.cpus as u64, MIN_CPUS, MAX_CPUS),
            );
            assert(first == before + e1);
            assert(second == first + e2);
            assert(third == second + e3);
            assert(fourth == third + e4);
            assert(validation::report_entries(*report) == fourth + e5);
            text::lemma_concat_associative(third, e4, e5);
            text::lemma_concat_associative(second, e3, e4 + e5);
            text::lemma_concat_associative(first, e2, e3 + (e4 + e5));
            text::lemma_concat_associative(before, e1, e2 + (e3 + (e4 + e5)));
        }
    }

    /// Checks the fields that hold a list.
    fn validate_lists_into(&self, disk: &Disk, parent: &garde::Path, report: &mut garde::Report)
        ensures
            validation::report_entries(*final(report)) == validation::report_entries(*old(report))
                + list_entries(self, disk, validation::path_components(*parent)),
    {
        let ghost before = validation::report_entries(*report);
        if let Some(shares) = &self.shares {
            validate_shares_into(shares, disk, &validation::join_key(parent, "shares"), report);
        }
        if let Some(servers) = &self.dns {
            validate_dns_into(servers, &validation::join_key(parent, "dns"), report);
        }
        assert(validation::report_entries(*report) =~= before + list_entries(
            self,
            disk,
            validation::path_components(*parent),
        ));
    }

    /// Checks the helper programs.
    fn validate_programs_into(&self, disk: &Disk, parent: &garde::Path, report: &mut garde::Report)
        ensures
            validation::report_entries(*final(report)) == validation::report_entries(*old(report))
                + program_entries(self, disk, validation::path_components(*parent)),
    {
        let ghost before = validation::report_entries(*report);
        let cloud_hypervisor: garde::Path = validation::join_key(parent, "cloud_hypervisor");
        validate_binary_into(&self.cloud_hypervisor, disk, &cloud_hypervisor, report);
        let ghost first = validation::report_entries(*report);
        let qemu: garde::Path = validation::join_key(parent, "qemu");
        validate_binary_into(&self.qemu, disk, &qemu, report);
        let ghost second = validation::report_entries(*report);
        let passt: garde::Path = validation::join_key(parent, "passt");
        validate_binary_into(&self.passt, disk, &passt, report);
        let ghost third = validation::report_entries(*report);
        let virtiofsd: garde::Path = validation::join_key(parent, "virtiofsd");
        validate_binary_into(&self.virtiofsd, disk, &virtiofsd, report);
        proof {
            let at = validation::path_components(*parent);
            let e1 = binary_entries(
                self.cloud_hypervisor,
                disk,
                at.push(Component::Key("cloud_hypervisor"@)),
            );
            let e2 = binary_entries(self.qemu, disk, at.push(Component::Key("qemu"@)));
            let e3 = binary_entries(self.passt, disk, at.push(Component::Key("passt"@)));
            let e4 = binary_entries(self.virtiofsd, disk, at.push(Component::Key("virtiofsd"@)));
            assert(first == before + e1);
            assert(second == first + e2);
            assert(third == second + e3);
            assert(validation::report_entries(*report) == third + e4);
            text::lemma_concat_associative(second, e3, e4);
            text::lemma_concat_associative(first, e2, e3 + e4);
            text::lemma_concat_associative(before, e1, e2 + (e3 + e4));
        }
    }
}

/// The user and group that the files of the host belong to inside the guest.
pub fn default_guest_uid_gid() -> (id: u32)
    ensures
        id == 1000,
{
    1000
}

/// The name of a sandbox that is not given one: that of the current directory, as far as it
/// can be had, or else a random one.
pub fn default_sandbox_name(current_dir: Option<&str>) -> (name: Name)
    ensures
        names_after(name@, match current_dir {
            Some(path) => paths::file_name(path@),
            None => None,
        }),
{
    match current_dir {
        Some(path) => name_after(paths::last_component(path)),
        None => Name::randomized(),
    }
}

/// Whether a name is the sanitized text, or made up if there is no text or nothing is left of
/// it.
pub open spec fn names_after(name: Seq<char>, text: Option<Seq<char>>) -> bool {
    &&& name::is_name(name)
    &&& match text {
        Some(text) => if name::sanitized(text).len() > 0 {
            name == name::sanitized(text)
        } else {
            name::is_made_up(name)
        },
        None => name::is_made_up(name),
    }
}

/// Makes a name of a text, or makes one up.
fn name_after(text: Option<String>) -> (name: Name)
    ensures
        names_after(name@, match text {
            Some(text) => Some(text@),
            None => None,
        }),
{
    match text {
        Some(text) => match Name::sanitize(text.as_str()) {
            Some(name) => name,
            None => Name::randomized(),
        },
        None => Name::randomized(),
    }
}

/// The last of the shares that has this name.
pub open spec fn last_named(shares: Seq<FsShareView>, name: Seq<char>) -> Option<FsShareView>
    decreases shares.len(),
{
    if shares.len() == 0 {
        None
    } else if shares.last().name == name {
        Some(shares.last())
    } else {
        last_named(shares.drop_last(), name)
    }
}

/// Whether the shares are ordered by their names, none of which occurs twice.
pub open spec fn is_ordered(shares: Seq<FsShareView>) -> bool {
    forall|i: int, j: int|
        0 <= i < j < shares.len() ==> text::is_before(
            #[trigger] shares[i].name,
            #[trigger] shares[j].name,
        )
}

/// Whether `merged` holds, ordered by name, the last share of each name among `shares`.
pub open spec fn is_merge_of(merged: Seq<FsShareView>, shares: Seq<FsShareView>) -> bool {
    &&& is_ordered(merged)
    &&& forall|i: int|
        0 <= i < merged.len() ==> last_named(shares, (#[trigger] merged[i]).name) == Some(
            merged[i],
        )
    &&& forall|name: Seq<char>|
        #[trigger] last_named(shares, name) is Some ==> merged.contains(
            last_named(shares, name).unwrap(),
        )
}

/// The shares that are merged: those of the base, then the overrides.
pub open spec fn layered(
    base: Option<&Vec<FsShare>>,
    overrides: Seq<FsShareView>,
) -> Seq<FsShareView> {
    match base {
        Some(base) => shares_view(base@) + overrides,
        None => overrides,
    }
}

/// What is found under a name has that name.
proof fn lemma_last_named(shares: Seq<FsShareView>, name: Seq<char>)
    ensures
        last_named(shares, name) matches Some(share) ==> share.name == name,
    decreases shares.len(),
{
    if shares.len() > 0 {
        lemma_last_named(shares.drop_last(), name);
    }
}

/// Puts a share among others, in place of the one that has its name.
fn insert_share(shares: &mut Vec<FsShare>, share: FsShare, Ghost(earlier): Ghost<Seq<FsShareView>>)
    requires
        is_merge_of(shares_view(old(shares)@), earlier),
    ensures
        is_merge_of(shares_view(final(shares)@), earlier.push(share@)),
{
    let ghost before = shares_view(shares@);
    let ghost later = earlier.push(share@);
    let mut at: usize = 0;
    while at < shares.len() && text::comes_before(shares[at].name.as_str(), share.name.as_str())
        invariant
            before == shares_view(shares@),
            at <= shares@.len(),
            forall|k: int| 0 <= k < at ==> text::is_before(#[trigger] before[k].name, share@.name),
        decreases shares.len() - at,
    {
        assert(before[at as int] == shares@[at as int]@);
        at = at + 1;
    }
    proof {
        assert(later.drop_last() =~= earlier);
        if at < before.len() {
            assert(before[at as int] == shares@[at as int]@);
        }
        assert forall|name: Seq<char>| name != share@.name implies #[trigger] last_named(later, name)
            == last_named(earlier, name) by {}
        assert(last_named(later, share@.name) == Some(share@));
        text::lemma_is_before_irreflexive(share@.name);
    }
    if at < shares.len() && text::same(shares[at].name.as_str(), share.name.as_str()) {
        let ghost value = share@;
        shares.set(at, share);
        proof {
            let merged = shares_view(shares@);
            assert(merged =~= before.update(at as int, value));
            assert(is_ordered(merged)) by {
                assert forall|i: int, j: int| 0 <= i < j < merged.len() implies text::is_before(
                    #[trigger] merged[i].name,
                    #[trigger] merged[j].name,
                ) by {
                    assert(merged[i].name == before[i].name);
                    assert(merged[j].name == before[j].name);
                }
            }
            lemma_names_differ(before);
            assert forall|i: int| 0 <= i < merged.len() implies last_named(
                later,
                (#[trigger] merged[i]).name,
            ) == Some(merged[i]) by {
                if i != at {
                    assert(merged[i] == before[i]);
                    assert(before[i].name != before[at as int].name);
                }
            }
            assert forall|name: Seq<char>|
                #[trigger] last_named(later, name) is Some implies merged.contains(
                last_named(later, name).unwrap(),
            ) by {
                if name == value.name {
                    assert(merged[at as int] == value);
                } else {
                    let found = last_named(earlier, name).unwrap();
                    lemma_last_named(earlier, name);
                    let k = choose|k: int| 0 <= k < before.len() && before[k] == found;
                    assert(merged[k] == found);
                }
            }
        }
    } else {
        let ghost value = share@;
        proof {
            if at < before.len() {
                text::lemma_is_before_total(before[at as int].name, value.name);
            }
            assert forall|k: int| at <= k < before.len() implies text::is_before(
                value.name,
                #[trigger] before[k].name,
            ) by {
                if k > at {
                    text::lemma_is_before_transitive(
                        value.name,
                        before[at as int].name,
                        before[k].name,
                    );
                }
            }
        }
        shares.insert(at, share);
        proof {
            let merged = shares_view(shares@);
            assert(merged =~= before.insert(at as int, value));
            assert forall|i: int| 0 <= i < merged.len() implies #[trigger] merged[i] == (if i < at {
                before[i]
            } else if i == at {
                value
            } else {
                before[i - 1]
            }) by {}
            assert forall|k: int| 0 <= k < before.len() implies #[trigger] before[k].name
                != value.name by {
                text::lemma_is_before_irreflexive(value.name);
            }
            assert forall|i: int| 0 <= i < merged.len() implies last_named(
                later,
                (#[trigger] merged[i]).name,
            ) == Some(merged[i]) by {
                if i < at {
                    assert(merged[i] == before[i]);
                } else if i > at {
                    assert(merged[i] == before[i - 1]);
                }
            }
            assert forall|name: Seq<char>|
                #[trigger] last_named(later, name) is Some implies merged.contains(
                last_named(later, name).unwrap(),
            ) by {
                if name == value.name {
                    assert(merged[at as int] == value);
                } else {
                    let found = last_named(earlier, name).unwrap();
                    let k = choose|k: int| 0 <= k < before.len() && before[k] == found;
                    if k < at {
                        assert(merged[k] == found);
                    } else {
                        assert(merged[k + 1] == found);
                    }
                }
            }
        }
    }
}

/// Ordered shares have different names.
proof fn lemma_names_differ(shares: Seq<FsShareView>)
    requires
        is_ordered(shares),
    ensures
        forall|i: int, j: int|
            0 <= i < shares.len() && 0 <= j < shares.len() && i != j ==> #[trigger] shares[i].name
                != #[trigger] shares[j].name,
{
    assert forall|i: int, j: int|
        0 <= i < shares.len() && 0 <= j < shares.len() && i != j implies #[trigger] shares[i].name
        != #[trigger] shares[j].name by {
        text::lemma_is_before_irreflexive(shares[i].name);
        if i < j {
            assert(text::is_before(shares[i].name, shares[j].name));
        } else {
            assert(text::is_before(shares[j].name, shares[i].name));
        }
    }
}

/// Merges shares by their names. An override replaces the share of the base that has its
/// name, and of several with one name the last one stays.
pub fn merge_by_name(base: Option<&Vec<FsShare>>, overrides: Vec<FsShare>) -> (merged: Vec<
    FsShare,
>)
    ensures
        is_merge_of(shares_view(merged@), layered(base, shares_view(overrides@))),
{
    let mut merged: Vec<FsShare> = Vec::new();
    let ghost mut seen = Seq::<FsShareView>::empty();
    assert(shares_view(merged@) =~= Seq::<FsShareView>::empty());
    if let Some(base) = base {
        let ghost all = shares_view(base@);
        for i in 0..base.len()
            invariant
                all == shares_view(base@),
                seen == all.take(i as int),
                is_merge_of(shares_view(merged@), seen),
        {
            insert_share(&mut merged, base[i].clone(), Ghost(seen));
            proof {
                assert(all[i as int] == base@[i as int]@);
                seen = seen.push(all[i as int]);
                assert(seen =~= all.take(i + 1));
            }
        }
        assert(seen =~= all);
    }
    let ghost first = seen;
    let ghost all = shares_view(overrides@);
    assert(first + all.take(0) =~= first);
    for i in 0..overrides.len()
        invariant
            all == shares_view(overrides@),
            seen == first + all.take(i as int),
            is_merge_of(shares_view(merged@), seen),
    {
        insert_share(&mut merged, overrides[i].clone(), Ghost(seen));
        proof {
            assert(all[i as int] == overrides@[i as int]@);
            seen = seen.push(all[i as int]);
            assert(seen =~= first + all.take(i + 1));
        }
    }
    assert(first + all.take(all.len() as int) =~= layered(base, all));
    merged
}

/// A later layer comes before an earlier one.
proof fn lemma_last_named_of_layers(lower: Seq<FsShareView>, upper: Seq<FsShareView>, name: Seq<char>)
    ensures
        last_named(lower + upper, name) == (if last_named(upper, name) is Some {
            last_named(upper, name)
        } else {
            last_named(lower, name)
        }),
    decreases upper.len(),
{
    if upper.len() == 0 {
        assert(lower + upper =~= lower);
    } else {
        assert((lower + upper).drop_last() =~= lower + upper.drop_last());
        lemma_last_named_of_layers(lower, upper.drop_last(), name);
    }
}

/// What is found under a name is one of the shares.
proof fn lemma_last_named_occurs(shares: Seq<FsShareView>, name: Seq<char>)
    ensures
        last_named(shares, name) matches Some(share) ==> shares.contains(share),
        last_named(shares, name) is None ==> forall|i: int|
            0 <= i < shares.len() ==> (#[trigger] shares[i]).name != name,
    decreases shares.len(),
{
    if shares.len() > 0 {
        lemma_last_named_occurs(shares.drop_last(), name);
        if shares.last().name == name {
            assert(shares[shares.len() - 1] == shares.last());
        } else if last_named(shares, name) is Some {
            let found = last_named(shares, name).unwrap();
            let k = choose|k: int|
                0 <= k < shares.len() - 1 && #[trigger] shares.drop_last()[k] == found;
            assert(shares[k] == found);
        } else {
            assert forall|i: int| 0 <= i < shares.len() implies (#[trigger] shares[i]).name
                != name by {
                if i < shares.len() - 1 {
                    assert(shares.drop_last()[i] == shares[i]);
                }
            }
        }
    }
}

/// Merging does not change what is found under a name.
pub proof fn lemma_merging_keeps_what_is_found(
    merged: Seq<FsShareView>,
    shares: Seq<FsShareView>,
    name: Seq<char>,
)
    requires
        is_merge_of(merged, shares),
    ensures
        last_named(merged, name) == last_named(shares, name),
{
    lemma_last_named(merged, name);
    lemma_last_named(shares, name);
    lemma_last_named_occurs(merged, name);
    if last_named(merged, name) is Some {
        let found = last_named(merged, name).unwrap();
        let i = choose|i: int| 0 <= i < merged.len() && merged[i] == found;
        assert(last_named(shares, merged[i].name) == Some(merged[i]));
    } else if last_named(shares, name) is Some {
        let found = last_named(shares, name).unwrap();
        let i = choose|i: int| 0 <= i < merged.len() && merged[i] == found;
        assert(merged[i].name == name);
    }
}

/// An override replaces a share of the same name as a whole, and a share that no override
/// names stays as it is.
pub proof fn lemma_overrides_win(
    merged: Seq<FsShareView>,
    base: Seq<FsShareView>,
    overrides: Seq<FsShareView>,
    name: Seq<char>,
)
    requires
        is_merge_of(merged, base + overrides),
    ensures
        last_named(overrides, name) is Some ==> last_named(merged, name) == last_named(
            overrides,
            name,
        ),
        last_named(overrides, name) is None ==> last_named(merged, name) == last_named(base, name),
{
    lemma_merging_keeps_what_is_found(merged, base + overrides, name);
    lemma_last_named_of_layers(base, overrides, name);
}

/// Shares layer up: merging a third layer over two that are merged already is merging all
/// three.
pub proof fn lemma_layers_stack(
    lower: Seq<FsShareView>,
    merged: Seq<FsShareView>,
    upper: Seq<FsShareView>,
    result: Seq<FsShareView>,
)
    requires
        is_merge_of(merged, lower),
        is_merge_of(result, merged + upper),
    ensures
        is_merge_of(result, lower + upper),
{
    assert forall|name: Seq<char>| #[trigger] last_named(merged + upper, name) == last_named(
        lower + upper,
        name,
    ) by {
        lemma_last_named_of_layers(merged, upper, name);
        lemma_last_named_of_layers(lower, upper, name);
        lemma_merging_keeps_what_is_found(merged, lower, name);
    }
    assert forall|i: int| 0 <= i < result.len() implies last_named(
        lower + upper,
        (#[trigger] result[i]).name,
    ) == Some(result[i]) by {
        assert(last_named(merged + upper, result[i].name) == Some(result[i]));
    }
    assert forall|name: Seq<char>|
        #[trigger] last_named(lower + upper, name) is Some implies result.contains(
        last_named(lower + upper, name).unwrap(),
    ) by {
        assert(last_named(merged + upper, name) is Some);
    }
}

/// There is one way to merge shares, so the order of the result does not depend on chance.
pub proof fn lemma_merge_is_determined(
    first: Seq<FsShareView>,
    second: Seq<FsShareView>,
    shares: Seq<FsShareView>,
)
    requires
        is_merge_of(first, shares),
        is_merge_of(second, shares),
    ensures
        first == second,
{
    assert forall|share: FsShareView| first.contains(share) implies second.contains(share) by {
        let i = choose|i: int| 0 <= i < first.len() && first[i] == share;
        assert(last_named(shares, first[i].name) == Some(first[i]));
    }
    assert forall|share: FsShareView| second.contains(share) implies first.contains(share) by {
        let i = choose|i: int| 0 <= i < second.len() && second[i] == share;
        assert(last_named(shares, second[i].name) == Some(second[i]));
    }
    lemma_ordered_alike(first, second);
}

/// Ordered shares are determined by which they are.
proof fn lemma_ordered_alike(first: Seq<FsShareView>, second: Seq<FsShareView>)
    requires
        is_ordered(first),
        is_ordered(second),
        forall|share: FsShareView| first.contains(share) <==> second.contains(share),
    ensures
        first == second,
    decreases first.len(),
{
    if first.len() == 0 {
        if second.len() > 0 {
            assert(second.contains(second[0]));
            assert(first.contains(second[0]));
        }
        assert(first =~= second);
    } else if second.len() == 0 {
        assert(first.contains(first[0]));
        assert(second.contains(first[0]));
    } else {
        let a = first.last();
        let b = second.last();
        assert(first[first.len() - 1] == a && second[second.len() - 1] == b);
        assert(first.contains(a) && second.contains(b));
        assert(first.contains(b) && second.contains(a));
        let i = choose|i: int| 0 <= i < first.len() && first[i] == b;
        let j = choose|j: int| 0 <= j < second.len() && second[j] == a;
        if a != b {
            assert(text::is_before(first[i].name, first[first.len() - 1].name));
            assert(text::is_before(second[j].name, second[second.len() - 1].name));
            text::lemma_is_before_transitive(a.name, b.name, a.name);
            text::lemma_is_before_irreflexive(a.name);
        }
        lemma_names_differ(first);
        lemma_names_differ(second);
        let rest = first.drop_last();
        let other = second.drop_last();
        assert forall|share: FsShareView| rest.contains(share) implies other.contains(share) by {
            let k = choose|k: int| 0 <= k < rest.len() && rest[k] == share;
            assert(first[k] == share);
            assert(second.contains(share));
            let m = choose|m: int| 0 <= m < second.len() && second[m] == share;
            assert(first[k].name != first[first.len() - 1].name);
            assert(other[m] == share);
        }
        assert forall|share: FsShareView| other.contains(share) implies rest.contains(share) by {
            let k = choose|k: int| 0 <= k < other.len() && other[k] == share;
            assert(second[k] == share);
            assert(first.contains(share));
            let m = choose|m: int| 0 <= m < first.len() && first[m] == share;
            assert(second[k].name != second[second.len() - 1].name);
            assert(rest[m] == share);
        }
        assert(is_ordered(rest)) by {
            assert forall|i: int, j: int| 0 <= i < j < rest.len() implies text::is_before(
                #[trigger] rest[i].name,
                #[trigger] rest[j].name,
            ) by {
                assert(text::is_before(first[i].name, first[j].name));
            }
        }
        assert(is_ordered(other)) by {
            assert forall|i: int, j: int| 0 <= i < j < other.len() implies text::is_before(
                #[trigger] other[i].name,
                #[trigger] other[j].name,
            ) by {
                assert(text::is_before(second[i].name, second[j].name));
            }
        }
        lemma_ordered_alike(rest, other);
        assert(first =~= rest.push(a));
        assert(second =~= other.push(b));
    }
}

/// What a share argument asks for.
pub struct ShareRequest {
    pub name: Option<String>,
    pub path: String,
    pub read_only: bool,
}

/// The mathematical value of a share request.
pub struct ShareRequestView {
    pub name: Option<Seq<char>>,
    pub path: Seq<char>,
    pub read_only: bool,
}

impl View for ShareRequest {
    type V = ShareRequestView;

    open spec fn view(&self) -> ShareRequestView {
        ShareRequestView {
            name: match self.name {
                Some(name) => Some(name@),
                None => None,
            },
            path: self.path@,
            read_only: self.read_only,
        }
    }
}

/// Whether a mode means read-only, if it is one.
pub open spec fn mode_meaning(mode: Seq<char>) -> Result<bool, Seq<char>> {
    if mode == "ro"@ {
        Ok(true)
    } else if mode == "rw"@ {
        Ok(false)
    } else {
        Err("invalid mode `"@ + mode + "`, expected `ro` or `rw`"@)
    }
}

/// What a share argument asks for: `PATH`, `PATH:(ro|rw)` or `NAME:PATH:(ro|rw)`.
pub open spec fn share_meaning(argument: Seq<char>) -> Result<ShareRequestView, Seq<char>> {
    let parts = text::split(argument, ':');
    if parts.len() == 1 {
        Ok(ShareRequestView { name: None, path: parts[0], read_only: false })
    } else if parts.len() == 2 {
        match mode_meaning(parts[1]) {
            Ok(read_only) => Ok(ShareRequestView { name: None, path: parts[0], read_only }),
            Err(message) => Err(message),
        }
    } else if parts.len() == 3 {
        match mode_meaning(parts[2]) {
            Ok(read_only) => Ok(
                ShareRequestView { name: Some(parts[0]), path: parts[1], read_only },
            ),
            Err(message) => Err(message),
        }
    } else {
        Err(
            "invalid share `"@ + argument
                + "`, expected PATH, PATH:(ro|rw), or NAME:PATH:(ro|rw)"@,
        )
    }
}

/// Tells whether a mode means read-only.
fn mode_is_read_only(mode: &str) -> (result: Result<bool, String>)
    ensures
        match result {
            Ok(read_only) => mode_meaning(mode@) == Ok::<bool, Seq<char>>(read_only),
            Err(message) => mode_meaning(mode@) == Err::<bool, Seq<char>>(message@),
        },
{
    if text::same(mode, "ro") {
        return Ok(true);
    }
    if text::same(mode, "rw") {
        return Ok(false);
    }
    let mut message: String = "invalid mode `".to_owned();
    message.append(mode);
    message.append("`, expected `ro` or `rw`");
    Err(message)
}

/// Reads a share argument.
pub fn share_request(argument: &str) -> (result: Result<ShareRequest, String>)
    ensures
        match result {
            Ok(request) => share_meaning(argument@) == Ok::<ShareRequestView, Seq<char>>(request@),
            Err(message) => share_meaning(argument@) == Err::<ShareRequestView, Seq<char>>(
                message@,
            ),
        },
{
    let parts: Vec<String> = text::split_at_each(argument, ':');
    let ghost all = text::split(argument@, ':');
    assert forall|i: int| 0 <= i < all.len() implies #[trigger] all[i] == parts@[i]@ by {}
    if parts.len() == 1 {
        return Ok(ShareRequest { name: None, path: parts[0].clone(), read_only: false });
    }
    if parts.len() == 2 {
        return match mode_is_read_only(parts[1].as_str()) {
            Ok(read_only) => Ok(
                ShareRequest { name: None, path: parts[0].clone(), read_only },
            ),
            Err(message) => Err(message),
        };
    }
    if parts.len() == 3 {
        return match mode_is_read_only(parts[2].as_str()) {
            Ok(read_only) => Ok(
                ShareRequest {
                    name: Some(parts[0].clone()),
                    path: parts[1].clone(),
                    read_only,
                },
            ),
            Err(message) => Err(message),
        };
    }
    let mut message: String = "invalid share `".to_owned();
    message.append(argument);
    message.append("`, expected PATH, PATH:(ro|rw), or NAME:PATH:(ro|rw)");
    Err(message)
}

/// What is wrong with a share argument, where `host_dir` is the absolute form of its path,
/// if that could be had.
pub open spec fn share_error(
    argument: Seq<char>,
    host_dir: Option<Seq<char>>,
    disk: &Disk,
) -> Option<Seq<char>> {
    match share_meaning(argument) {
        Err(message) => Some(message),
        Ok(request) => match host_dir {
            None => Some("could not make path absolute"@),
            Some(host_dir) => {
                if request.name is Some && name::name_error(request.name.unwrap()) is Some {
                    Some("invalid share "@ + name::name_error(request.name.unwrap()).unwrap())
                } else if dir_error(host_dir, disk) is Some {
                    Some(
                        validation::report_text(
                            validation::entry(
                                seq![Component::Key("host_dir"@)],
                                dir_error(host_dir, disk),
                            ),
                        ),
                    )
                } else {
                    None
                }
            },
        },
    }
}

/// Makes a share of an argument. `host_dir` is the absolute form of the path that the
/// argument asks for, if that could be had.
pub fn parse_share(argument: &str, host_dir: Option<&str>, disk: &Disk) -> (result: Result<
    FsShare,
    String,
>)
    ensures
        match result {
            Ok(share) => {
                &&& share_error(
                    argument@,
                    match host_dir {
                        Some(path) => Some(path@),
                        None => None,
                    },
                    disk,
                ) is None
                &&& share@.host_dir == host_dir.unwrap()@
                &&& share@.read_only == share_meaning(argument@)->Ok_0.read_only
                &&& match share_meaning(argument@)->Ok_0.name {
                    Some(name) => share@.name == name,
                    None => names_after(share@.name, paths::file_name(share@.host_dir)),
                }
                &&& share@.read_only_paths == Seq::<Seq<char>>::empty()
                &&& share@.hidden_paths == Seq::<Seq<char>>::empty()
            },
            Err(message) => share_error(
                argument@,
                match host_dir {
                    Some(path) => Some(path@),
                    None => None,
                },
                disk,
            ) == Some(message@),
        },
{
    let request: ShareRequest = match share_request(argument) {
        Ok(request) => request,
        Err(message) => {
            return Err(message);
        },
    };
    let host_dir: &str = match host_dir {
        Some(path) => path,
        None => {
            return Err("could not make path absolute".to_owned());
        },
    };
    let name: Name = match &request.name {
        Some(name) => match Name::new(name.as_str()) {
            Ok(name) => name,
            Err(error) => {
                let mut message: String = "invalid share ".to_owned();
                message.append(error.as_str());
                return Err(message);
            },
        },
        None => name_after(paths::last_component(host_dir)),
    };
    let share: FsShare = FsShare {
        host_dir: host_dir.to_owned(),
        name,
        read_only: request.read_only,
        read_only_paths: Vec::new(),
        hidden_paths: Vec::new(),
    };
    assert(share@.read_only_paths =~= Seq::<Seq<char>>::empty());
    assert(share@.hidden_paths =~= Seq::<Seq<char>>::empty());
    assert(Seq::<Component>::empty().push(Component::Key("host_dir"@)) =~= seq![
        Component::Key("host_dir"@),
    ]);
    match share.validate(disk) {
        Ok(()) => Ok(share),
        Err(report) => Err(validation::display(&report)),
    }
}

/// No path is reported exactly if each lies strictly inside the share.
proof fn lemma_inside(paths: Seq<Seq<char>>, host_dir: Seq<char>, field: Seq<Component>)
    ensures
        inside_entries(paths, host_dir, field).len() == 0 <==> forall|i: int|
            0 <= i < paths.len() ==> inside_error(#[trigger] paths[i], host_dir) is None,
    decreases paths.len(),
{
    if paths.len() > 0 {
        let rest = paths.drop_last();
        lemma_inside(rest, host_dir, field);
        if inside_entries(paths, host_dir, field).len() == 0 {
            assert forall|i: int| 0 <= i < paths.len() implies inside_error(
                #[trigger] paths[i],
                host_dir,
            ) is None by {
                if i < paths.len() - 1 {
                    assert(rest[i] == paths[i]);
                }
            }
        } else if inside_error(paths[paths.len() - 1], host_dir) is None {
            let i = choose|i: int|
                0 <= i < rest.len() && inside_error(#[trigger] rest[i], host_dir) is Some;
            assert(paths[i] == rest[i]);
        }
    }
}

/// Whether the directory of a share exists and each of its read-only and hidden paths lies
/// inside it and is not the directory itself.
pub open spec fn is_valid_share(share: FsShareView, disk: &Disk) -> bool {
    &&& disk.has_directory(share.host_dir)
    &&& forall|i: int|
        0 <= i < share.read_only_paths.len() ==> inside_error(
            #[trigger] share.read_only_paths[i],
            share.host_dir,
        ) is None
    &&& forall|i: int|
        0 <= i < share.hidden_paths.len() ==> inside_error(
            #[trigger] share.hidden_paths[i],
            share.host_dir,
        ) is None
}

/// A share has no errors exactly if it is valid.
pub proof fn lemma_valid_share(share: FsShareView, disk: &Disk, parent: Seq<Component>)
    ensures
        share_entries(share, disk, parent).len() == 0 <==> is_valid_share(share, disk),
{
    lemma_inside(
        share.read_only_paths,
        share.host_dir,
        parent.push(Component::Key("read_only_paths"@)),
    );
    lemma_inside(share.hidden_paths, share.host_dir, parent.push(Component::Key("hidden_paths"@)));
}

/// No share is reported exactly if each of them is valid.
proof fn lemma_valid_shares(shares: Seq<FsShareView>, disk: &Disk, parent: Seq<Component>)
    ensures
        shares_entries(shares, disk, parent).len() == 0 <==> forall|i: int|
            0 <= i < shares.len() ==> is_valid_share(#[trigger] shares[i], disk),
    decreases shares.len(),
{
    if shares.len() > 0 {
        let rest = shares.drop_last();
        lemma_valid_shares(rest, disk, parent);
        lemma_valid_share(
            shares.last(),
            disk,
            parent.push(Component::Index((shares.len() - 1) as nat)),
        );
        if shares_entries(shares, disk, parent).len() == 0 {
            assert forall|i: int| 0 <= i < shares.len() implies is_valid_share(
                #[trigger] shares[i],
                disk,
            ) by {
                if i < shares.len() - 1 {
                    assert(rest[i] == shares[i]);
                }
            }
        } else if is_valid_share(shares[shares.len() - 1], disk) {
            let i = choose|i: int| 0 <= i < rest.len() && !is_valid_share(#[trigger] rest[i], disk);
            assert(shares[i] == rest[i]);
        }
    }
}

/// No name server is reported exactly if each of them is an address.
proof fn lemma_valid_dns(servers: Seq<Seq<char>>, field: Seq<Component>)
    ensures
        dns_entries(servers, field).len() == 0 <==> forall|i: int|
            0 <= i < servers.len() ==> validation::is_ip_address(#[trigger] servers[i]),
    decreases servers.len(),
{
    if servers.len() > 0 {
        let rest = servers.drop_last();
        lemma_valid_dns(rest, field);
        if dns_entries(servers, field).len() == 0 {
            assert forall|i: int| 0 <= i < servers.len() implies validation::is_ip_address(
                #[trigger] servers[i],
            ) by {
                if i < servers.len() - 1 {
                    assert(rest[i] == servers[i]);
                }
            }
        } else if validation::is_ip_address(servers[servers.len() - 1]) {
            let i = choose|i: int|
                0 <= i < rest.len() && !validation::is_ip_address(#[trigger] rest[i]);
            assert(servers[i] == rest[i]);
        }
    }
}

/// Whether the program is there, if its place is configured.
pub open spec fn has_program(config: Option<BinaryConfig>, disk: &Disk) -> bool {
    config matches Some(config) ==> (config.binary matches Some(path) ==> disk.has_file(path@))
}

/// A configuration is valid exactly if kernel and root file system exist, the command line
/// leaves the console and the root device alone, memory and processors are within their
/// bounds, every share is valid, every name server is an address, and every helper program
/// exists whose place is configured.
pub proof fn lemma_valid_config(config: &Config, disk: &Disk, parent: Seq<Component>)
    ensures
        config_entries(config, disk, parent).len() == 0 <==> {
            &&& disk.has_file(config.kernel@)
            &&& disk.has_file(config.rootfs@)
            &&& !text::holds(config.kernel_cmdline@, "console="@)
            &&& !text::holds(config.kernel_cmdline@, "root="@)
            &&& MIN_MEMORY_MB <= config.memory_mb <= MAX_MEMORY_MB
            &&& MIN_CPUS <= config.cpus <= MAX_CPUS
            &&& config.shares matches Some(shares) ==> forall|i: int|
                0 <= i < shares@.len() ==> is_valid_share(
                    #[trigger] shares_view(shares@)[i],
                    disk,
                )
            &&& config.dns matches Some(servers) ==> forall|i: int|
                0 <= i < servers@.len() ==> validation::is_ip_address(
                    #[trigger] text::texts(servers@)[i],
                )
            &&& has_program(config.cloud_hypervisor, disk)
            &&& has_program(config.qemu, disk)
            &&& has_program(config.passt, disk)
            &&& has_program(config.virtiofsd, disk)
        },
{
    if let Some(shares) = config.shares {
        lemma_valid_shares(
            shares_view(shares@),
            disk,
            parent.push(Component::Key("shares"@)),
        );
    }
    if let Some(servers) = config.dns {
        lemma_valid_dns(text::texts(servers@), parent.push(Component::Key("dns"@)));
    }
}

/// What a share argument asks for, by how it is written: `PATH`, `PATH:ro`, `PATH:rw`,
/// `NAME:PATH:ro` and `NAME:PATH:rw`. Any other mode and any more colons are refused.
pub proof fn lemma_share_arguments(
    argument: &str,
    result: Result<ShareRequest, String>,
    name: Seq<char>,
    path: Seq<char>,
    other: Seq<char>,
)
    requires
        call_ensures(share_request, (argument,), result),
        !name.contains(':'),
        !path.contains(':'),
        !other.contains(':'),
    ensures
        argument@ == path ==> asks_for(result, None, path, false),
        argument@ == path + seq![':', 'r', 'o'] ==> asks_for(result, None, path, true),
        argument@ == path + seq![':', 'r', 'w'] ==> asks_for(result, None, path, false),
        argument@ == name + seq![':'] + path + seq![':', 'r', 'o'] ==> asks_for(
            result,
            Some(name),
            path,
            true,
        ),
        argument@ == name + seq![':'] + path + seq![':', 'r', 'w'] ==> asks_for(
            result,
            Some(name),
            path,
            false,
        ),
        other != seq!['r', 'o'] && other != seq!['r', 'w'] && (argument@ == path + seq![':']
            + other || argument@ == name + seq![':'] + path + seq![':'] + other)
            ==> (result matches Err(message) && message@ == "invalid mode `"@ + other
            + "`, expected `ro` or `rw`"@),
        forall|rest: Seq<char>|
            argument@ == #[trigger] (name + seq![':'] + path + seq![':'] + other + seq![':'] + rest)
                ==> (result matches Err(message) && message@ == "invalid share `"@ + argument@
                + "`, expected PATH, PATH:(ro|rw), or NAME:PATH:(ro|rw)"@),
{
    reveal_strlit("ro");
    reveal_strlit("rw");
    let ro = seq!['r', 'o'];
    let rw = seq!['r', 'w'];
    assert("ro"@ =~= ro);
    assert("rw"@ =~= rw);
    assert(ro[1] != rw[1]);
    assert(!ro.contains(':') && !rw.contains(':'));
    text::lemma_split_one(path, ':');
    text::lemma_split_one(name, ':');
    assert(path + seq![':', 'r', 'o'] =~= path + seq![':'] + ro);
    assert(path + seq![':', 'r', 'w'] =~= path + seq![':'] + rw);
    assert(name + seq![':'] + path + seq![':', 'r', 'o'] =~= name + seq![':'] + path + seq![':']
        + ro);
    assert(name + seq![':'] + path + seq![':', 'r', 'w'] =~= name + seq![':'] + path + seq![':']
        + rw);
    lemma_parts_of_share(name, path, ro);
    lemma_parts_of_share(name, path, rw);
    lemma_parts_of_share(name, path, other);
    assert forall|rest: Seq<char>|
        argument@ == #[trigger] (name + seq![':'] + path + seq![':'] + other + seq![':'] + rest)
            implies (result matches Err(message) && message@ == "invalid share `"@ + argument@
            + "`, expected PATH, PATH:(ro|rw), or NAME:PATH:(ro|rw)"@) by {
        let start = name + seq![':'] + path + seq![':'] + other;
        assert(argument@ =~= start.push(':') + rest);
        text::lemma_split_concat(start, ':', rest);
        text::lemma_split_concat(Seq::empty(), ':', rest);
    }
}

/// Whether a share argument asks for this.
pub open spec fn asks_for(
    result: Result<ShareRequest, String>,
    name: Option<Seq<char>>,
    path: Seq<char>,
    read_only: bool,
) -> bool {
    result matches Ok(request) && request.path@ == path && request.read_only == read_only && (
    match request.name {
        Some(found) => name == Some(found@),
        None => name is None,
    })
}

/// The parts of a share argument.
proof fn lemma_parts_of_share(name: Seq<char>, path: Seq<char>, mode: Seq<char>)
    requires
        !name.contains(':'),
        !path.contains(':'),
        !mode.contains(':'),
    ensures
        text::split(path + seq![':'] + mode, ':') == seq![path, mode],
        text::split(name + seq![':'] + path + seq![':'] + mode, ':') == seq![name, path, mode],
{
    text::lemma_split_one(name, ':');
    text::lemma_split_one(path, ':');
    text::lemma_split_one(mode, ':');
    text::lemma_split_concat(path, ':', mode);
    assert(path + seq![':'] + mode =~= path.push(':') + mode);
    assert(seq![path] + seq![mode] =~= seq![path, mode]);
    text::lemma_split_concat(name, ':', path + seq![':'] + mode);
    assert(name + seq![':'] + path + seq![':'] + mode =~= name.push(':') + (path + seq![':']
        + mode));
    assert(seq![name] + seq![path, mode] =~= seq![name, path, mode]);
}

/// An argument `NAME:PATH:ro` or `NAME:PATH:rw` with a valid name shares the directory under
/// that name, read-only or not, if it exists, and nothing else. It is refused if the path
/// cannot be made absolute or leads to no directory.
pub proof fn lemma_named_share(
    argument: &str,
    host_dir: Option<&str>,
    disk: &Disk,
    result: Result<FsShare, String>,
    name: Seq<char>,
    path: Seq<char>,
    read_only: bool,
)
    requires
        call_ensures(parse_share, (argument, host_dir, disk), result),
        name::is_name(name),
        !path.contains(':'),
        argument@ == name + seq![':'] + path + (if read_only {
            seq![':', 'r', 'o']
        } else {
            seq![':', 'r', 'w']
        }),
    ensures
        match host_dir {
            None => result matches Err(message) && message@ == "could not make path absolute"@,
            Some(dir) => if disk.has_directory(dir@) {
                result matches Ok(share) && share@ == (FsShareView {
                    host_dir: dir@,
                    name,
                    read_only,
                    read_only_paths: Seq::empty(),
                    hidden_paths: Seq::empty(),
                })
            } else {
                result is Err
            },
        },
{
    name::lemma_name_is_one_component(name);
    name::lemma_error_iff_no_name(name);
    let mode = if read_only {
        seq!['r', 'o']
    } else {
        seq!['r', 'w']
    };
    reveal_strlit("ro");
    reveal_strlit("rw");
    assert("ro"@ =~= seq!['r', 'o']);
    assert("rw"@ =~= seq!['r', 'w']);
    assert("ro"@[1] != "rw"@[1]);
    assert(!mode.contains(':'));
    lemma_parts_of_share(name, path, mode);
    assert(argument@ =~= name + seq![':'] + path + seq![':'] + mode);
}

/// An argument `PATH`, `PATH:ro` or `PATH:rw` shares the directory under its own name, if that
/// is one which does not end in a dash.
pub proof fn lemma_unnamed_share(
    argument: &str,
    host_dir: &str,
    disk: &Disk,
    result: Result<FsShare, String>,
    base: Seq<char>,
    name: Seq<char>,
    path: Seq<char>,
    mode: Option<bool>,
)
    requires
        call_ensures(parse_share, (argument, Some(host_dir), disk), result),
        base.len() > 0,
        name::is_name(name),
        name.last() != '-',
        host_dir@ == paths::join(base, name),
        disk.has_directory(host_dir@),
        !path.contains(':'),
        argument@ == path + (match mode {
            Some(true) => seq![':', 'r', 'o'],
            Some(false) => seq![':', 'r', 'w'],
            None => Seq::empty(),
        }),
    ensures
        result matches Ok(share) && share@ == (FsShareView {
            host_dir: host_dir@,
            name,
            read_only: mode == Some(true),
            read_only_paths: Seq::empty(),
            hidden_paths: Seq::empty(),
        }),
{
    name::lemma_name_is_one_component(name);
    name::lemma_sanitizing_keeps_names(name);
    paths::lemma_name_of_step(base, name);
    reveal_strlit("ro");
    reveal_strlit("rw");
    let ro = seq!['r', 'o'];
    let rw = seq!['r', 'w'];
    assert("ro"@ =~= ro);
    assert("rw"@ =~= rw);
    assert("ro"@[1] != "rw"@[1]);
    assert(!ro.contains(':') && !rw.contains(':'));
    lemma_parts_of_share(path, path, ro);
    lemma_parts_of_share(path, path, rw);
    text::lemma_split_one(path, ':');
    assert(path + seq![':', 'r', 'o'] =~= path + seq![':'] + ro);
    assert(path + seq![':', 'r', 'w'] =~= path + seq![':'] + rw);
    assert(path + Seq::<char>::empty() =~= path);
}

/// A sandbox is named after the current directory, if that has a name which does not end in a
/// dash.
pub proof fn lemma_named_after_directory(
    current_dir: &str,
    result: Name,
    base: Seq<char>,
    name: Seq<char>,
)
    requires
        call_ensures(default_sandbox_name, (Some(current_dir),), result),
        base.len() > 0,
        name::is_name(name),
        name.last() != '-',
        current_dir@ == paths::join(base, name),
    ensures
        result@ == name,
{
    name::lemma_name_is_one_component(name);
    name::lemma_sanitizing_keeps_names(name);
    paths::lemma_name_of_step(base, name);
}

/// Merging keeps, of the shares with one name, the last override, or else the last one of the
/// base, and puts them in the order of their names. Nothing else is in the result.
pub proof fn lemma_merge_of_layers(
    base: &Vec<FsShare>,
    overrides: Vec<FsShare>,
    merged: Vec<FsShare>,
)
    requires
        call_ensures(merge_by_name, (Some(base), overrides), merged),
    ensures
        forall|i: int, j: int|
            0 <= i < j < merged@.len() ==> text::is_before(
                (#[trigger] merged@[i]).name@,
                (#[trigger] merged@[j]).name@,
            ),
        forall|i: int|
            0 <= i < overrides@.len() && (forall|k: int|
                i < k < overrides@.len() ==> (#[trigger] overrides@[k]).name@
                    != overrides@[i].name@) ==> shares_view(merged@).contains(
                (#[trigger] overrides@[i])@,
            ),
        forall|i: int|
            0 <= i < base@.len() && (forall|k: int|
                i < k < base@.len() ==> (#[trigger] base@[k]).name@ != base@[i].name@) && (forall|
                k: int,
            |
                0 <= k < overrides@.len() ==> (#[trigger] overrides@[k]).name@ != base@[i].name@)
                ==> shares_view(merged@).contains((#[trigger] base@[i])@),
        forall|i: int|
            0 <= i < merged@.len() ==> shares_view(overrides@).contains(
                (#[trigger] merged@[i])@,
            ) || shares_view(base@).contains(merged@[i]@),
{
    let all = shares_view(base@) + shares_view(overrides@);
    let result = shares_view(merged@);
    let count = base@.len();
    assert forall|i: int, j: int| 0 <= i < j < merged@.len() implies text::is_before(
        (#[trigger] merged@[i]).name@,
        (#[trigger] merged@[j]).name@,
    ) by {
        assert(text::is_before(result[i].name, result[j].name));
    }
    assert forall|i: int|
        0 <= i < overrides@.len() && (forall|k: int|
            i < k < overrides@.len() ==> (#[trigger] overrides@[k]).name@ != overrides@[i].name@)
            implies result.contains((#[trigger] overrides@[i])@) by {
        assert forall|k: int| count + i < k < all.len() implies (#[trigger] all[k]).name
            != all[count + i].name by {
            assert(all[k] == overrides@[k - count]@);
        }
        lemma_last_named_at(all, count + i);
        assert(all[count + i] == overrides@[i]@);
    }
    assert forall|i: int|
        0 <= i < base@.len() && (forall|k: int|
            i < k < base@.len() ==> (#[trigger] base@[k]).name@ != base@[i].name@) && (forall|
            k: int,
        |
            0 <= k < overrides@.len() ==> (#[trigger] overrides@[k]).name@ != base@[i].name@)
            implies result.contains((#[trigger] base@[i])@) by {
        assert forall|k: int| i < k < all.len() implies (#[trigger] all[k]).name
            != all[i].name by {
            if k < count {
                assert(all[k] == base@[k]@);
            } else {
                assert(all[k] == overrides@[k - count]@);
            }
        }
        lemma_last_named_at(all, i);
        assert(all[i] == base@[i]@);
    }
    assert forall|i: int| 0 <= i < merged@.len() implies shares_view(overrides@).contains(
        (#[trigger] merged@[i])@,
    ) || shares_view(base@).contains(merged@[i]@) by {
        assert(result[i] == merged@[i]@);
        lemma_last_named_occurs(all, result[i].name);
        let k = choose|k: int| 0 <= k < all.len() && all[k] == result[i];
        if k < count {
            assert(shares_view(base@)[k] == result[i]);
        } else {
            assert(shares_view(overrides@)[k - count] == result[i]);
        }
    }
}

/// A share that no later one shares its name with is the last one of its name.
proof fn lemma_last_named_at(shares: Seq<FsShareView>, at: int)
    requires
        0 <= at < shares.len(),
        forall|k: int|
            at < k < shares.len() ==> (#[trigger] shares[k]).name != shares[at].name,
    ensures
        last_named(shares, shares[at].name) == Some(shares[at]),
    decreases shares.len(),
{
    if at < shares.len() - 1 {
        assert(shares[shares.len() - 1].name != shares[at].name);
        let rest = shares.drop_last();
        assert forall|k: int| at < k < rest.len() implies (#[trigger] rest[k]).name
            != rest[at].name by {
            assert(rest[k] == shares[k]);
        }
        lemma_last_named_at(rest, at);
    }
}

/// A kernel command line is refused exactly if `console=` or `root=` stands anywhere in it.
pub proof fn lemma_cmdline_is_refused(
    value: &str,
    result: Result<(), String>,
    before: Seq<char>,
    after: Seq<char>,
)
    requires
        call_ensures(validate_kernel_cmdline, (value,), result),
    ensures
        value@ == before + "console="@ + after ==> result is Err,
        value@ == before + "root="@ + after ==> result is Err,
        value@ == before + "console="@ + after ==> result->Err_0@
            == "Kernel command line parameters must not configure `console`. `console` is hardcoded to `hvc0` and cannot be changed."@,
        value@ == before + "root="@ + after && !text::holds(value@, "console="@)
            ==> result->Err_0@
            == "Kernel command line parameters must not configure `root`. `root` is hardcoded to `/dev/vda` and cannot be changed."@,
        result is Err ==> exists|start: Seq<char>, rest: Seq<char>|
            value@ == #[trigger] (start + "console="@ + rest) || value@ == start + "root="@
                + rest,
{
    let console = "console="@;
    let root = "root="@;
    text::lemma_holds_what_stands_inside(value@, console);
    text::lemma_holds_what_stands_inside(value@, root);
    if result is Err {
        if text::holds(value@, console) {
            let (start, rest) = choose|start: Seq<char>, rest: Seq<char>|
                value@ == #[trigger] (start + console + rest);
            assert(value@ == start + console + rest);
        } else {
            let (start, rest) = choose|start: Seq<char>, rest: Seq<char>|
                value@ == #[trigger] (start + root + rest);
            let other = start + console + rest;
            assert(value@ == start + root + rest);
        }
    }
}

/// Each field that is wrong is reported under its own name.
pub proof fn lemma_errors_name_their_field(config: &Config, disk: &Disk, parent: Seq<Component>)
    ensures
        ({
            let errors = config_entries(config, disk, parent);
            &&& !disk.has_file(config.kernel@) ==> reports(errors, parent, "kernel"@)
            &&& !disk.has_file(config.rootfs@) ==> reports(errors, parent, "rootfs"@)
            &&& cmdline_error(config.kernel_cmdline@) is Some ==> reports(
                errors,
                parent,
                "kernel_cmdline"@,
            )
            &&& config.memory_mb < 512 || config.memory_mb > 131072 ==> reports(
                errors,
                parent,
                "memory_mb"@,
            )
            &&& config.cpus == 0 ==> reports(errors, parent, "cpus"@)
        }),
{
    let errors = config_entries(config, disk, parent);
    let values = value_entries(config, disk, parent);
    assert forall|i: int| 0 <= i < values.len() implies errors[i] == values[i] by {}
    let e1 = validation::entry(
        parent.push(Component::Key("kernel"@)),
        file_error(config.kernel@, disk),
    );
    let e2 = validation::entry(
        parent.push(Component::Key("kernel_cmdline"@)),
        cmdline_error(config.kernel_cmdline@),
    );
    let e3 = validation::entry(
        parent.push(Component::Key("rootfs"@)),
        file_error(config.rootfs@, disk),
    );
    let e4 = validation::entry(
        parent.push(Component::Key("memory_mb"@)),
        validation::range_error(config.memory_mb, MIN_MEMORY_MB, MAX_MEMORY_MB),
    );
    let e5 = validation::entry(
        parent.push(Component::Key("cpus"@)),
        validation::range_error(config.cpus as u64, MIN_CPUS, MAX_CPUS),
    );
    assert(values == e1 + (e2 + (e3 + (e4 + e5))));
    if e1.len() > 0 {
        assert(values[0] == e1[0]);
        assert(errors[0].path == parent.push(Component::Key("kernel"@)));
    }
    if e2.len() > 0 {
        let at = e1.len() as int;
        assert(values[at] == e2[0]);
        assert(errors[at].path == parent.push(Component::Key("kernel_cmdline"@)));
    }
    if e3.len() > 0 {
        let at = e1.len() + e2.len() as int;
        assert(values[at] == e3[0]);
        assert(errors[at].path == parent.push(Component::Key("rootfs"@)));
    }
    if e4.len() > 0 {
        let at = e1.len() + e2.len() + e3.len() as int;
        assert(values[at] == e4[0]);
        assert(errors[at].path == parent.push(Component::Key("memory_mb"@)));
    }
    if e5.len() > 0 {
        let at = e1.len() + e2.len() + e3.len() + e4.len() as int;
        assert(values[at] == e5[0]);
        assert(errors[at].path == parent.push(Component::Key("cpus"@)));
    }
}

/// Whether a field is reported.
pub open spec fn reports(errors: Seq<Entry>, parent: Seq<Component>, field: Seq<char>) -> bool {
    exists|i: int|
        0 <= i < errors.len() && (#[trigger] errors[i]).path == parent.push(Component::Key(field))
}

/// A sandbox has between 512 and 131072 megabytes of memory and at least one processor, or it
/// is not valid. The message tells which bound was not kept.
pub proof fn lemma_bounds_of_config(config: &Config, disk: &Disk, parent: Seq<Component>)
    ensures
        config_entries(config, disk, parent).len() == 0 ==> 512 <= config.memory_mb <= 131072
            && config.cpus >= 1,
        config.memory_mb < 512 ==> config_entries(config, disk, parent).contains(
            Entry {
                path: parent.push(Component::Key("memory_mb"@)),
                message: "lower than "@ + text::decimal(512),
            },
        ),
        config.memory_mb > 131072 ==> config_entries(config, disk, parent).contains(
            Entry {
                path: parent.push(Component::Key("memory_mb"@)),
                message: "greater than "@ + text::decimal(131072),
            },
        ),
        config.cpus == 0 ==> config_entries(config, disk, parent).contains(
            Entry {
                path: parent.push(Component::Key("cpus"@)),
                message: "lower than "@ + text::decimal(1),
            },
        ),
{
    lemma_valid_config(config, disk, parent);
    let all = config_entries(config, disk, parent);
    let values = value_entries(config, disk, parent);
    let e1 = validation::entry(
        parent.push(Component::Key("kernel"@)),
        file_error(config.kernel@, disk),
    );
    let e2 = validation::entry(
        parent.push(Component::Key("kernel_cmdline"@)),
        cmdline_error(config.kernel_cmdline@),
    );
    let e3 = validation::entry(
        parent.push(Component::Key("rootfs"@)),
        file_error(config.rootfs@, disk),
    );
    let e4 = validation::entry(
        parent.push(Component::Key("memory_mb"@)),
        validation::range_error(config.memory_mb, MIN_MEMORY_MB, MAX_MEMORY_MB),
    );
    let e5 = validation::entry(
        parent.push(Component::Key("cpus"@)),
        validation::range_error(config.cpus as u64, MIN_CPUS, MAX_CPUS),
    );
    assert(values == e1 + (e2 + (e3 + (e4 + e5))));
    assert forall|i: int| 0 <= i < values.len() implies #[trigger] all[i] == values[i] by {}
    let fourth: int = e1.len() + e2.len() + e3.len() as int;
    if e4.len() > 0 {
        assert(values[fourth] == e4[0]);
        assert(all[fourth] == e4[0]);
    }
    if e5.len() > 0 {
        assert(values[fourth + e4.len()] == e5[0]);
        assert(all[fourth + e4.len()] == e5[0]);
    }
}

/// A file, or a directory, is found exactly if it is there.
pub proof fn lemma_what_is_found(
    value: &str,
    disk: &Disk,
    file: Result<(), String>,
    directory: Result<(), String>,
)
    requires
        call_ensures(file_exists, (value, disk), file),
        call_ensures(dir_exists, (value, disk), directory),
    ensures
        file is Ok <==> exists|i: int|
            0 <= i < disk.files@.len() && (#[trigger] disk.files@[i])@ == value@,
        directory is Ok <==> exists|i: int|
            0 <= i < disk.directories@.len() && (#[trigger] disk.directories@[i])@ == value@,
        file matches Err(message) ==> message@ == "Path `"@ + value@
            + "` does not exist or is not a file"@,
        directory matches Err(message) ==> message@ == "Path `"@ + value@
            + "` does not exist or is not a directory"@,
{
    let files = text::texts(disk.files@);
    let directories = text::texts(disk.directories@);
    if files.contains(value@) {
        let i = choose|i: int| 0 <= i < files.len() && files[i] == value@;
        assert(disk.files@[i]@ == value@);
    } else {
        assert forall|i: int| 0 <= i < disk.files@.len() implies (#[trigger] disk.files@[i])@
            != value@ by {
            assert(files[i] == disk.files@[i]@);
        }
    }
    if directories.contains(value@) {
        let i = choose|i: int| 0 <= i < directories.len() && directories[i] == value@;
        assert(disk.directories@[i]@ == value@);
    } else {
        assert forall|i: int| 0 <= i < disk.directories@.len() implies (
        #[trigger] disk.directories@[i])@ != value@ by {
            assert(directories[i] == disk.directories@[i]@);
        }
    }
}

/// A path that leads to something in a share may be read-only or hidden. The directory of the
/// share itself may not, nor what lies beside it, even if its name begins alike.
pub proof fn lemma_what_lies_inside_share(
    base: Seq<char>,
    name: Seq<char>,
    step: Seq<char>,
    other: Seq<char>,
)
    requires
        base.len() > 0,
        paths::is_step(name),
        paths::is_step(step),
        paths::is_step(other),
        name != other,
    ensures
        inside_error(paths::join(paths::join(base, name), step), paths::join(base, name)) is None,
        inside_error(paths::join(base, name), paths::join(base, name)) == Some(
            paths::join(base, name) + " is not inside host_dir "@ + paths::join(base, name),
        ),
        inside_error(paths::join(base, other), paths::join(base, name)) == Some(
            paths::join(base, other) + " is not inside host_dir "@ + paths::join(base, name),
        ),
{
    let host_dir = paths::join(base, name);
    assert(host_dir.len() > 0);
    paths::lemma_below_is_inside(host_dir, step, host_dir);
    paths::lemma_beside_is_outside(base, other, name);
}

/// Each path of a share that does not lie inside it is reported with its place in the list.
pub proof fn lemma_each_path_is_reported(
    share: FsShareView,
    disk: &Disk,
    parent: Seq<Component>,
    i: int,
)
    requires
        disk.has_directory(share.host_dir),
    ensures
        0 <= i < share.read_only_paths.len() && inside_error(
            share.read_only_paths[i],
            share.host_dir,
        ) is Some ==> share_entries(share, disk, parent).contains(
            Entry {
                path: parent.push(Component::Key("read_only_paths"@)).push(
                    Component::Index(i as nat),
                ),
                message: share.read_only_paths[i] + " is not inside host_dir "@ + share.host_dir,
            },
        ),
        0 <= i < share.hidden_paths.len() && inside_error(
            share.hidden_paths[i],
            share.host_dir,
        ) is Some ==> share_entries(share, disk, parent).contains(
            Entry {
                path: parent.push(Component::Key("hidden_paths"@)).push(Component::Index(i as nat)),
                message: share.hidden_paths[i] + " is not inside host_dir "@ + share.host_dir,
            },
        ),
{
    let first = parent.push(Component::Key("read_only_paths"@));
    let second = parent.push(Component::Key("hidden_paths"@));
    let read_only = inside_entries(share.read_only_paths, share.host_dir, first);
    let hidden = inside_entries(share.hidden_paths, share.host_dir, second);
    let all = share_entries(share, disk, parent);
    assert(all == read_only + hidden);
    if 0 <= i < share.read_only_paths.len() && inside_error(
        share.read_only_paths[i],
        share.host_dir,
    ) is Some {
        lemma_path_is_reported(share.read_only_paths, share.host_dir, first, i);
        let entry = Entry {
            path: first.push(Component::Index(i as nat)),
            message: share.read_only_paths[i] + " is not inside host_dir "@ + share.host_dir,
        };
        let k = choose|k: int| 0 <= k < read_only.len() && read_only[k] == entry;
        assert(all[k] == entry);
    }
    if 0 <= i < share.hidden_paths.len() && inside_error(
        share.hidden_paths[i],
        share.host_dir,
    ) is Some {
        lemma_path_is_reported(share.hidden_paths, share.host_dir, second, i);
        let entry = Entry {
            path: second.push(Component::Index(i as nat)),
            message: share.hidden_paths[i] + " is not inside host_dir "@ + share.host_dir,
        };
        let k = choose|k: int| 0 <= k < hidden.len() && hidden[k] == entry;
        assert(all[read_only.len() + k] == entry);
    }
}

/// A path that does not lie inside a share is reported.
proof fn lemma_path_is_reported(
    paths: Seq<Seq<char>>,
    host_dir: Seq<char>,
    field: Seq<Component>,
    i: int,
)
    requires
        0 <= i < paths.len(),
        inside_error(paths[i], host_dir) is Some,
    ensures
        inside_entries(paths, host_dir, field).contains(
            Entry {
                path: field.push(Component::Index(i as nat)),
                message: paths[i] + " is not inside host_dir "@ + host_dir,
            },
        ),
    decreases paths.len(),
{
    let all = inside_entries(paths, host_dir, field);
    let before = inside_entries(paths.drop_last(), host_dir, field);
    let entry = Entry {
        path: field.push(Component::Index(i as nat)),
        message: paths[i] + " is not inside host_dir "@ + host_dir,
    };
    if i < paths.len() - 1 {
        assert(paths.drop_last()[i] == paths[i]);
        lemma_path_is_reported(paths.drop_last(), host_dir, field, i);
        let k = choose|k: int| 0 <= k < before.len() && before[k] == entry;
        assert(all[k] == entry);
    } else {
        assert(all[before.len() as int] == entry);
    }
}

/// A share whose directory is missing is reported with its place in the list, and nothing else
/// is said of it. What is wrong with one share does not hide what is wrong with another.
pub proof fn lemma_each_share_is_reported(
    shares: Seq<FsShareView>,
    disk: &Disk,
    parent: Seq<Component>,
    i: int,
    k: int,
)
    requires
        0 <= i < shares.len(),
    ensures
        !disk.has_directory(shares[i].host_dir) ==> share_entries(
            shares[i],
            disk,
            parent.push(Component::Index(i as nat)),
        ) == seq![
            Entry {
                path: parent.push(Component::Index(i as nat)).push(Component::Key("host_dir"@)),
                message: "Path `"@ + shares[i].host_dir
                    + "` does not exist or is not a directory"@,
            },
        ],
        0 <= k < share_entries(
            shares[i],
            disk,
            parent.push(Component::Index(i as nat)),
        ).len() ==> shares_entries(shares, disk, parent).contains(
            share_entries(shares[i], disk, parent.push(Component::Index(i as nat)))[k],
        ),
    decreases shares.len(),
{
    let own = share_entries(shares[i], disk, parent.push(Component::Index(i as nat)));
    if 0 <= k < own.len() {
        let all = shares_entries(shares, disk, parent);
        let before = shares_entries(shares.drop_last(), disk, parent);
        if i < shares.len() - 1 {
            assert(shares.drop_last()[i] == shares[i]);
            lemma_each_share_is_reported(shares.drop_last(), disk, parent, i, k);
            let at = choose|at: int| 0 <= at < before.len() && before[at] == own[k];
            assert(all[at] == own[k]);
        } else {
            assert(all[before.len() + k] == own[k]);
        }
    }
}

/// A name server that is no address is reported with its place in the list.
pub proof fn lemma_each_server_is_reported(
    servers: Seq<Seq<char>>,
    field: Seq<Component>,
    i: int,
)
    requires
        0 <= i < servers.len(),
        !validation::is_ip_address(servers[i]),
    ensures
        dns_entries(servers, field).contains(
            Entry {
                path: field.push(Component::Inner).push(Component::Index(i as nat)),
                message: "not a valid IP address"@,
            },
        ),
    decreases servers.len(),
{
    let all = dns_entries(servers, field);
    let before = dns_entries(servers.drop_last(), field);
    let entry = Entry {
        path: field.push(Component::Inner).push(Component::Index(i as nat)),
        message: "not a valid IP address"@,
    };
    if i < servers.len() - 1 {
        assert(servers.drop_last()[i] == servers[i]);
        lemma_each_server_is_reported(servers.drop_last(), field, i);
        let k = choose|k: int| 0 <= k < before.len() && before[k] == entry;
        assert(all[k] == entry);
    } else {
        assert(all[before.len() as int] == entry);
    }
}

/// A helper program that is configured but missing is reported under its own name.
pub proof fn lemma_each_program_is_reported(config: &Config, disk: &Disk, parent: Seq<Component>)
    ensures
        ({
            let errors = config_entries(config, disk, parent);
            &&& !has_program(config.cloud_hypervisor, disk) ==> reports(
                errors,
                parent.push(Component::Key("cloud_hypervisor"@)),
                "binary"@,
            )
            &&& !has_program(config.qemu, disk) ==> reports(
                errors,
                parent.push(Component::Key("qemu"@)),
                "binary"@,
            )
            &&& !has_program(config.passt, disk) ==> reports(
                errors,
                parent.push(Component::Key("passt"@)),
                "binary"@,
            )
            &&& !has_program(config.virtiofsd, disk) ==> reports(
                errors,
                parent.push(Component::Key("virtiofsd"@)),
                "binary"@,
            )
        }),
{
    let errors = config_entries(config, disk, parent);
    let earlier = value_entries(config, disk, parent) + list_entries(config, disk, parent);
    let e1 = binary_entries(
        config.cloud_hypervisor,
        disk,
        parent.push(Component::Key("cloud_hypervisor"@)),
    );
    let e2 = binary_entries(config.qemu, disk, parent.push(Component::Key("qemu"@)));
    let e3 = binary_entries(config.passt, disk, parent.push(Component::Key("passt"@)));
    let e4 = binary_entries(config.virtiofsd, disk, parent.push(Component::Key("virtiofsd"@)));
    let programs = program_entries(config, disk, parent);
    assert(programs == e1 + (e2 + (e3 + e4)));
    assert(errors == earlier + programs);
    let start: int = earlier.len() as int;
    if e1.len() > 0 {
        assert(programs[0] == e1[0]);
        assert(errors[start] == e1[0]);
    }
    if e2.len() > 0 {
        let at: int = e1.len() as int;
        assert(programs[at] == e2[0]);
        assert(errors[start + at] == e2[0]);
    }
    if e3.len() > 0 {
        let at: int = e1.len() + e2.len() as int;
        assert(programs[at] == e3[0]);
        assert(errors[start + at] == e3[0]);
    }
    if e4.len() > 0 {
        let at: int = e1.len() + e2.len() + e3.len() as int;
        assert(programs[at] == e4[0]);
        assert(errors[start + at] == e4[0]);
    }
}

/// Whatever is wrong with the shares or the name servers of a configuration is reported with
/// it, under `shares` and under `dns`.
pub proof fn lemma_lists_are_reported(config: &Config, disk: &Disk, parent: Seq<Component>, k: int)
    ensures
        config.shares matches Some(shares) ==> {
            let found = shares_entries(
                shares_view(shares@),
                disk,
                parent.push(Component::Key("shares"@)),
            );
            0 <= k < found.len() ==> config_entries(config, disk, parent).contains(found[k])
        },
        config.dns matches Some(servers) ==> {
            let found = dns_entries(text::texts(servers@), parent.push(Component::Key("dns"@)));
            0 <= k < found.len() ==> config_entries(config, disk, parent).contains(found[k])
        },
{
    let errors = config_entries(config, disk, parent);
    let values = value_entries(config, disk, parent);
    let lists = list_entries(config, disk, parent);
    let start: int = values.len() as int;
    assert forall|i: int| 0 <= i < lists.len() implies errors.contains(#[trigger] lists[i]) by {
        assert(errors[start + i] == lists[i]);
    }
    let first = match config.shares {
        Some(shares) => shares_entries(
            shares_view(shares@),
            disk,
            parent.push(Component::Key("shares"@)),
        ),
        None => Seq::empty(),
    };
    if config.shares is Some && 0 <= k < first.len() {
        assert(lists[k] == first[k]);
    }
    if let Some(servers) = config.dns {
        let found = dns_entries(text::texts(servers@), parent.push(Component::Key("dns"@)));
        if 0 <= k < found.len() {
            assert(lists[first.len() + k] == found[k]);
        }
    }
}

/// What merging comes to, by the shares themselves: of those with one name the last override,
/// or else the last one of the base, and nothing else, in the order of the names.
pub proof fn lemma_merged_shares(
    merged: Seq<FsShareView>,
    base: Seq<FsShareView>,
    overrides: Seq<FsShareView>,
)
    requires
        is_merge_of(merged, base + overrides),
    ensures
        forall|i: int, j: int|
            0 <= i < j < merged.len() ==> text::is_before(
                #[trigger] merged[i].name,
                #[trigger] merged[j].name,
            ),
        forall|i: int|
            0 <= i < overrides.len() && (forall|k: int|
                i < k < overrides.len() ==> (#[trigger] overrides[k]).name != overrides[i].name)
                ==> merged.contains(#[trigger] overrides[i]),
        forall|i: int|
            0 <= i < base.len() && (forall|k: int|
                i < k < base.len() ==> (#[trigger] base[k]).name != base[i].name) && (forall|k: int|
                0 <= k < overrides.len() ==> (#[trigger] overrides[k]).name != base[i].name)
                ==> merged.contains(#[trigger] base[i]),
        forall|i: int|
            0 <= i < merged.len() ==> overrides.contains(#[trigger] merged[i]) || base.contains(
                merged[i],
            ),
{
    let all = base + overrides;
    let count = base.len();
    assert forall|i: int|
        0 <= i < overrides.len() && (forall|k: int|
            i < k < overrides.len() ==> (#[trigger] overrides[k]).name != overrides[i].name)
            implies merged.contains(#[trigger] overrides[i]) by {
        assert forall|k: int| count + i < k < all.len() implies (#[trigger] all[k]).name
            != all[count + i].name by {
            assert(all[k] == overrides[k - count]);
        }
        lemma_last_named_at(all, count + i);
        assert(all[count + i] == overrides[i]);
    }
    assert forall|i: int|
        0 <= i < base.len() && (forall|k: int|
            i < k < base.len() ==> (#[trigger] base[k]).name != base[i].name) && (forall|k: int|
            0 <= k < overrides.len() ==> (#[trigger] overrides[k]).name != base[i].name)
            implies merged.contains(#[trigger] base[i]) by {
        assert forall|k: int| i < k < all.len() implies (#[trigger] all[k]).name != all[i].name by {
            if k < count {
                assert(all[k] == base[k]);
            } else {
                assert(all[k] == overrides[k - count]);
            }
        }
        lemma_last_named_at(all, i);
        assert(all[i] == base[i]);
    }
    assert forall|i: int| 0 <= i < merged.len() implies overrides.contains(#[trigger] merged[i])
        || base.contains(merged[i]) by {
        lemma_last_named_occurs(all, merged[i].name);
        let k = choose|k: int| 0 <= k < all.len() && all[k] == merged[i];
        if k < count {
            assert(base[k] == merged[i]);
        } else {
            assert(overrides[k - count] == merged[i]);
        }
    }
}

/// What a format is called.
pub proof fn lemma_name_of_format(rootfs_type: &RootfsType, text: &str)
    requires
        call_ensures(RootfsType::as_str, (rootfs_type,), text),
    ensures
        *rootfs_type == RootfsType::Raw <==> text@ == "raw"@,
        *rootfs_type == RootfsType::QCOW2 <==> text@ == "qcow2"@,
{
    reveal_strlit("raw");
    reveal_strlit("qcow2");
    assert("raw"@.len() == 3 && "qcow2"@.len() == 5);
}

/// A sandbox is named after what is left of the name of the current directory, and gets 16
/// letters and digits for a name if nothing is left or there is no such directory.
pub proof fn lemma_default_name(
    current_dir: Option<&str>,
    result: Name,
    base: Seq<char>,
    step: Seq<char>,
)
    requires
        call_ensures(default_sandbox_name, (current_dir,), result),
        base.len() > 0,
        paths::is_step(step),
        step != seq!['.', '.'],
    ensures
        current_dir matches Some(dir) ==> dir@ == paths::join(base, step) ==> (if name::sanitized(
            step,
        ).len() > 0 {
            result@ == name::sanitized(step)
        } else {
            result@.len() == 16
        }),
        current_dir is None ==> result@.len() == 16 && forall|i: int|
            0 <= i < 16 ==> name::is_alphanumeric(#[trigger] result@[i]),
{
    paths::lemma_name_of_step(base, step);
}

/// A share argument with a name that is none is refused with what is wrong with it, and one
/// that leads to no directory is refused with that.
pub proof fn lemma_refused_shares(
    argument: &str,
    host_dir: &str,
    disk: &Disk,
    result: Result<FsShare, String>,
    name: &str,
    path: Seq<char>,
    named: Result<Name, String>,
)
    requires
        call_ensures(parse_share, (argument, Some(host_dir), disk), result),
        call_ensures(Name::new, (name,), named),
        !name@.contains(':'),
        !path.contains(':'),
        argument@ == name@ + seq![':'] + path + seq![':', 'r', 'o'],
    ensures
        named matches Err(error) ==> (result matches Err(message) && message@ == "invalid share "@
            + error@),
        named is Ok && !disk.has_directory(host_dir@) ==> (result matches Err(message) && message@
            == "host_dir"@ + seq![':', ' '] + "Path `"@ + host_dir@
            + "` does not exist or is not a directory"@ + seq!['\n']),
        named is Ok && disk.has_directory(host_dir@) ==> result is Ok,
{
    let ro = seq!['r', 'o'];
    reveal_strlit("ro");
    assert("ro"@ =~= ro);
    assert(!ro.contains(':'));
    lemma_parts_of_share(name@, path, ro);
    assert(argument@ =~= name@ + seq![':'] + path + seq![':'] + ro);
    let error = dir_error(host_dir@, disk);
    if error is Some {
        let field = seq![Component::Key("host_dir"@)];
        let entries = validation::entry(field, error);
        reveal_with_fuel(validation::report_text, 2);
        reveal_with_fuel(validation::path_text, 2);
        assert(entries.drop_last() =~= Seq::<Entry>::empty());
        assert(field.drop_last() =~= Seq::<Component>::empty());
        assert(validation::path_text(field) =~= "host_dir"@);
        assert(validation::report_text(entries) =~= "host_dir"@ + seq![':', ' '] + "Path `"@
            + host_dir@ + "` does not exist or is not a directory"@ + seq!['\n']);
    }
}

/// Merging without a base keeps the last share of each name.
pub proof fn lemma_merge_without_base(overrides: Vec<FsShare>, merged: Vec<FsShare>)
    requires
        call_ensures(merge_by_name, (None, overrides), merged),
    ensures
        forall|i: int|
            0 <= i < overrides@.len() && (forall|k: int|
                i < k < overrides@.len() ==> (#[trigger] overrides@[k]).name@
                    != overrides@[i].name@) ==> shares_view(merged@).contains(
                (#[trigger] overrides@[i])@,
            ),
        forall|i: int|
            0 <= i < merged@.len() ==> shares_view(overrides@).contains((#[trigger] merged@[i])@),
{
    let given = shares_view(overrides@);
    let found = shares_view(merged@);
    let none = Seq::<FsShareView>::empty();
    assert(none + given =~= given);
    lemma_merged_shares(found, none, given);
    assert forall|i: int|
        0 <= i < overrides@.len() && (forall|k: int|
            i < k < overrides@.len() ==> (#[trigger] overrides@[k]).name@ != overrides@[i].name@)
            implies found.contains((#[trigger] overrides@[i])@) by {
        assert(given[i] == overrides@[i]@);
        assert forall|k: int| i < k < given.len() implies (#[trigger] given[k]).name
            != given[i].name by {
            assert(given[k] == overrides@[k]@);
        }
    }
    assert forall|i: int| 0 <= i < merged@.len() implies given.contains(
        (#[trigger] merged@[i])@,
    ) by {
        assert(found[i] == merged@[i]@);
    }
}

/// A share is copied with all that belongs to it, and the files of the host belong to user and
/// group 1000 in the guest unless something else is configured.
pub proof fn lemma_copies_and_defaults(
    share: &FsShare,
    copy: FsShare,
    id: u32,
    rootfs_type: RootfsType,
    hypervisor: HypervisorType,
    network: Network,
)
    requires
        call_ensures(FsShare::clone, (share,), copy),
        call_ensures(default_guest_uid_gid, (), id),
        call_ensures(RootfsType::default, (), rootfs_type),
        call_ensures(HypervisorType::default, (), hypervisor),
        call_ensures(Network::default, (), network),
    ensures
        copy.host_dir@ == share.host_dir@,
        copy.name@ == share.name@,
        copy.read_only == share.read_only,
        text::texts(copy.read_only_paths@) == text::texts(share.read_only_paths@),
        text::texts(copy.hidden_paths@) == text::texts(share.hidden_paths@),
        id == 1000,
        rootfs_type == RootfsType::Raw,
        hypervisor == HypervisorType::CloudHypervisor,
        network == Network::Lan,
{
    assert(copy@ == share@);
}

/// A share is accepted exactly if its directory exists and its paths lie inside it, and a list
/// of shares exactly if each of them is.
pub proof fn lemma_accepted_shares(
    share: &FsShare,
    shares: &Vec<FsShare>,
    disk: &Disk,
    one: Result<(), garde::Report>,
    all: Result<(), garde::Report>,
)
    requires
        call_ensures(FsShare::validate, (share, disk), one),
        call_ensures(validate_shares, (shares, disk), all),
    ensures
        one is Ok <==> is_valid_share(share@, disk),
        all is Ok <==> forall|i: int|
            0 <= i < shares@.len() ==> is_valid_share((#[trigger] shares@[i])@, disk),
{
    lemma_valid_share(share@, disk, Seq::empty());
    let view = shares_view(shares@);
    lemma_valid_shares(view, disk, Seq::empty());
    if all is Ok {
        assert forall|i: int| 0 <= i < shares@.len() implies is_valid_share(
            (#[trigger] shares@[i])@,
            disk,
        ) by {
            assert(view[i] == shares@[i]@);
        }
    } else {
        let i = choose|i: int| 0 <= i < view.len() && !is_valid_share(#[trigger] view[i], disk);
        assert(view[i] == shares@[i]@);
    }
}

} // verus!
