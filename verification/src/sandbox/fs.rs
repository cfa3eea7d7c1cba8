//! Directories of the host that the guest can mount.
use vstd::prelude::*;
use vstd::string::*;

use crate::paths;
use crate::sandbox;
use crate::sandbox::config::{Config, FsShare, FsShareView};
use crate::sandbox::name::Name;
use crate::text;

verus! {

/// As many ids as there are: a range of this length maps all of them.
pub const ALL_POSSIBLE_UIDS: u32 = 0xFFFF_FFFF;

/// How long a helper has to create its socket, in milliseconds.
pub const SOCKET_TIMEOUT_MS: u64 = 10000;

/// A share that is ready to be mounted.
#[derive(Debug)]
pub struct FsMount {
    pub tag: Name,
    pub socket_path: String,
    pub read_only: bool,
}

/// The mathematical value of a mount.
pub struct FsMountView {
    pub tag: Seq<char>,
    pub socket_path: Seq<char>,
    pub read_only: bool,
}

impl View for FsMount {
    type V = FsMountView;

    open spec fn view(&self) -> FsMountView {
        FsMountView {
            tag: self.tag@,
            socket_path: self.socket_path@,
            read_only: self.read_only,
        }
    }
}

/// The values of a list of mounts.
pub open spec fn mounts_view(mounts: Seq<FsMount>) -> Seq<FsMountView> {
    mounts.map_values(|mount: FsMount| mount@)
}

/// A program that is started, with its arguments.
pub struct Launch {
    pub program: String,
    pub arguments: Vec<String>,
    /// The socket that the program listens on.
    pub socket_path: String,
}

/// Where a helper program is: at the configured path, or wherever its name leads.
pub open spec fn program_path(
    config: Option<sandbox::config::BinaryConfig>,
    default: Seq<char>,
) -> Seq<char> {
    match config {
        Some(config) => match config.binary {
            Some(binary) => binary@,
            None => default,
        },
        None => default,
    }
}

/// Finds out where a helper program is.
pub fn program(config: &Option<sandbox::config::BinaryConfig>, default: &str) -> (path: String)
    ensures
        path@ == program_path(*config, default@),
{
    match config {
        Some(config) => match &config.binary {
            Some(binary) => binary.clone(),
            None => default.to_owned(),
        },
        None => default.to_owned(),
    }
}

/// The name of the socket of a share.
pub open spec fn share_socket(name: Seq<char>) -> Seq<char> {
    "vfsd-"@ + name
}

/// Maps every id of the guest onto the user that started the sandbox.
pub open spec fn squash_guest() -> Seq<char> {
    "squash-guest:0:0:"@ + text::decimal(ALL_POSSIBLE_UIDS as nat)
}

/// Shows every id of the host as this one to the guest.
pub open spec fn squash_host(id: u32) -> Seq<char> {
    "squash-host:0:"@ + text::decimal(id as nat) + ":"@ + text::decimal(ALL_POSSIBLE_UIDS as nat)
}

/// The arguments of virtiofsd.
pub open spec fn virtiofsd_arguments(
    socket: Seq<char>,
    share: FsShareView,
    guest_uid: u32,
    guest_gid: u32,
) -> Seq<Seq<char>> {
    let arguments = seq![
        "--socket-path"@,
        socket,
        "--shared-dir"@,
        share.host_dir,
        "--sandbox"@,
        "namespace"@,
        "--cache"@,
        "never"@,
        "--tag"@,
        share.name,
        "--translate-uid"@,
        squash_guest(),
        "--translate-gid"@,
        squash_guest(),
        "--translate-uid"@,
        squash_host(guest_uid),
        "--translate-gid"@,
        squash_host(guest_gid),
    ];
    if share.read_only {
        arguments.push("--readonly"@)
    } else {
        arguments
    }
}

/// Writes how every id of the guest is mapped.
fn squash_guest_argument() -> (argument: String)
    ensures
        argument@ == squash_guest(),
{
    let ids: String = text::decimal_string(ALL_POSSIBLE_UIDS as u64);
    text::concatenated("squash-guest:0:0:", ids.as_str())
}

/// Writes how every id of the host is shown.
fn squash_host_argument(id: u32) -> (argument: String)
    ensures
        argument@ == squash_host(id),
{
    let mut argument: String = "squash-host:0:".to_owned();
    let shown: String = text::decimal_string(id as u64);
    argument.append(shown.as_str());
    argument.append(":");
    let ids: String = text::decimal_string(ALL_POSSIBLE_UIDS as u64);
    argument.append(ids.as_str());
    argument
}

impl FsMount {
    /// Plans the helper that serves a share.
    ///
    /// The guest cannot express any ownership on the host: all of its ids are those of the
    /// user that started the sandbox. The helper runs in a user namespace of its own, in
    /// which that user is number zero.
    pub fn spawn(config: &Config, share: &FsShare, runtime_dir: &str) -> (launch: Launch)
        ensures
            launch.program@ == program_path(config.virtiofsd, "virtiofsd"@),
            launch.socket_path@ == sandbox::socket_in(
                paths::join(runtime_dir@, config.name@),
                share_socket(share.name@),
            ),
            text::texts(launch.arguments@) == virtiofsd_arguments(
                launch.socket_path@,
                share@,
                config.guest_uid,
                config.guest_gid,
            ),
    {
        let socket: String = text::concatenated("vfsd-", share.name.as_str());
        let socket_path: String = sandbox::socket_path(
            runtime_dir,
            &config.name,
            socket.as_str(),
        );
        let guest: String = squash_guest_argument();
        let uid: String = squash_host_argument(config.guest_uid);
        let gid: String = squash_host_argument(config.guest_gid);
        let mut arguments: Vec<String> = Vec::new();
        text::push_text(&mut arguments, "--socket-path");
        text::push_text(&mut arguments, socket_path.as_str());
        text::push_text(&mut arguments, "--shared-dir");
        text::push_text(&mut arguments, share.host_dir.as_str());
        text::push_text(&mut arguments, "--sandbox");
        text::push_text(&mut arguments, "namespace");
        text::push_text(&mut arguments, "--cache");
        text::push_text(&mut arguments, "never");
        text::push_text(&mut arguments, "--tag");
        text::push_text(&mut arguments, share.name.as_str());
        text::push_text(&mut arguments, "--translate-uid");
        text::push_text(&mut arguments, guest.as_str());
        text::push_text(&mut arguments, "--translate-gid");
        text::push_text(&mut arguments, guest.as_str());
        text::push_text(&mut arguments, "--translate-uid");
        text::push_text(&mut arguments, uid.as_str());
        text::push_text(&mut arguments, "--translate-gid");
        text::push_text(&mut arguments, gid.as_str());
        if share.read_only {
            text::push_text(&mut arguments, "--readonly");
        }
        assert(text::texts(arguments@) =~= virtiofsd_arguments(
            socket_path@,
            share@,
            config.guest_uid,
            config.guest_gid,
        ));
        Launch { program: program(&config.virtiofsd, "virtiofsd"), arguments, socket_path }
    }

    /// The mount that a helper serves once its socket is there.
    pub fn mounted(share: &FsShare, socket_path: String) -> (mount: Self)
        ensures
            mount@ == (FsMountView {
                tag: share.name@,
                socket_path: socket_path@,
                read_only: share.read_only,
            }),
    {
        FsMount { tag: share.name.clone(), socket_path, read_only: share.read_only }
    }
}

/// How something is mounted.
#[derive(Clone, Copy, Debug, PartialEq, Eq, Structural)]
pub struct MountFlags {
    pub bind: bool,
    pub recursive: bool,
    pub private: bool,
    pub remount: bool,
    pub read_only: bool,
    /// Whether set-user-id bits, devices and programs have no effect.
    pub inert: bool,
}

/// Nothing special.
pub open spec fn plain_mount() -> MountFlags {
    MountFlags {
        bind: false,
        recursive: false,
        private: false,
        remount: false,
        read_only: false,
        inert: false,
    }
}

/// One step of shutting a helper off from the rest of the host.
pub enum IsolationStep {
    /// Enter new user, mount and network namespaces.
    Unshare,
    /// Write a file.
    Write { path: String, contents: String },
    /// Create a file without contents.
    CreateEmpty { path: String },
    /// Mount something.
    Mount {
        source: Option<String>,
        target: String,
        filesystem: Option<String>,
        flags: MountFlags,
        data: Option<String>,
    },
    /// Look whether there is a directory or something else at the path, and hide it.
    Hide { path: String },
}

/// The mathematical value of an isolation step.
pub enum IsolationStepView {
    Unshare,
    Write { path: Seq<char>, contents: Seq<char> },
    CreateEmpty { path: Seq<char> },
    Mount {
        source: Option<Seq<char>>,
        target: Seq<char>,
        filesystem: Option<Seq<char>>,
        flags: MountFlags,
        data: Option<Seq<char>>,
    },
    Hide { path: Seq<char> },
}

/// The text of a string that may be missing.
pub open spec fn optional_text(string: Option<String>) -> Option<Seq<char>> {
    match string {
        Some(string) => Some(string@),
        None => None,
    }
}

impl View for IsolationStep {
    type V = IsolationStepView;

    open spec fn view(&self) -> IsolationStepView {
        match self {
            IsolationStep::Unshare => IsolationStepView::Unshare,
            IsolationStep::Write { path, contents } => IsolationStepView::Write {
                path: path@,
                contents: contents@,
            },
            IsolationStep::CreateEmpty { path } => IsolationStepView::CreateEmpty { path: path@ },
            IsolationStep::Mount { source, target, filesystem, flags, data } =>
                IsolationStepView::Mount {
                source: optional_text(*source),
                target: target@,
                filesystem: optional_text(*filesystem),
                flags: *flags,
                data: optional_text(*data),
            },
            IsolationStep::Hide { path } => IsolationStepView::Hide { path: path@ },
        }
    }
}

/// The values of a list of isolation steps.
pub open spec fn steps_view(steps: Seq<IsolationStep>) -> Seq<IsolationStepView> {
    steps.map_values(|step: IsolationStep| step@)
}

/// Mounts `source` over `target` and then makes that read-only, which the first call would
/// not do.
pub open spec fn read_only_mount(source: Seq<char>, target: Seq<char>) -> Seq<IsolationStepView> {
    seq![
        IsolationStepView::Mount {
            source: Some(source),
            target,
            filesystem: None,
            flags: MountFlags { bind: true, recursive: true, ..plain_mount() },
            data: None,
        },
        IsolationStepView::Mount {
            source: None,
            target,
            filesystem: None,
            flags: MountFlags {
                bind: true,
                remount: true,
                read_only: true,
                inert: true,
                ..plain_mount()
            },
            data: None,
        },
    ]
}

/// Makes each of the paths read-only.
pub open spec fn read_only_mounts(paths: Seq<Seq<char>>) -> Seq<IsolationStepView>
    decreases paths.len(),
{
    if paths.len() == 0 {
        Seq::empty()
    } else {
        read_only_mounts(paths.drop_last()) + read_only_mount(paths.last(), paths.last())
    }
}

/// Steps into namespaces in which the user is number zero, and from which no mount leaks.
pub open spec fn entering(uid: u32, gid: u32) -> Seq<IsolationStepView> {
    seq![
        IsolationStepView::Unshare,
        IsolationStepView::Write { path: "/proc/self/setgroups"@, contents: "deny"@ },
        IsolationStepView::Write {
            path: "/proc/self/uid_map"@,
            contents: "0 "@ + text::decimal(uid as nat) + " 1"@,
        },
        IsolationStepView::Write {
            path: "/proc/self/gid_map"@,
            contents: "0 "@ + text::decimal(gid as nat) + " 1"@,
        },
        IsolationStepView::Mount {
            source: None,
            target: "/"@,
            filesystem: None,
            flags: MountFlags { recursive: true, private: true, ..plain_mount() },
            data: None,
        },
    ]
}

/// All that is done before a share is served. The whole share is made read-only, or the
/// paths in it that should be, and then the hidden paths are hidden.
pub open spec fn isolation(share: FsShareView, uid: u32, gid: u32) -> Seq<IsolationStepView> {
    entering(uid, gid) + (if share.read_only {
        read_only_mount(share.host_dir, share.host_dir)
    } else {
        read_only_mounts(share.read_only_paths)
    }) + share.hidden_paths.map_values(
        |path: Seq<char>| IsolationStepView::Hide { path },
    )
}

/// Puts a step behind the others.
fn push_step(steps: &mut Vec<IsolationStep>, step: IsolationStep)
    ensures
        steps_view(final(steps)@) == steps_view(old(steps)@).push(step@),
{
    steps.push(step);
    assert(steps_view(steps@) =~= steps_view(old(steps)@).push(step@));
}

/// Plans to mount a path read-only over another one.
fn mount_read_only(steps: &mut Vec<IsolationStep>, source: &str, target: &str)
    ensures
        steps_view(final(steps)@) == steps_view(old(steps)@) + read_only_mount(source@, target@),
{
    let ghost before = steps_view(steps@);
    push_step(
        steps,
        IsolationStep::Mount {
            source: Some(source.to_owned()),
            target: target.to_owned(),
            filesystem: None,
            flags: MountFlags {
                bind: true,
                recursive: true,
                private: false,
                remount: false,
                read_only: false,
                inert: false,
            },
            data: None,
        },
    );
    push_step(
        steps,
        IsolationStep::Mount {
            source: None,
            target: target.to_owned(),
            filesystem: None,
            flags: MountFlags {
                bind: true,
                recursive: false,
                private: false,
                remount: true,
                read_only: true,
                inert: true,
            },
            data: None,
        },
    );
    assert(steps_view(steps@) =~= before + read_only_mount(source@, target@));
}

/// Writes the map of one id.
fn id_map(id: u32) -> (contents: String)
    ensures
        contents@ == "0 "@ + text::decimal(id as nat) + " 1"@,
{
    let mut contents: String = "0 ".to_owned();
    let number: String = text::decimal_string(id as u64);
    contents.append(number.as_str());
    contents.append(" 1");
    contents
}

/// Plans to enter new namespaces.
fn enter_namespaces(uid: u32, gid: u32) -> (steps: Vec<IsolationStep>)
    ensures
        steps_view(steps@) == entering(uid, gid),
{
    let mut steps: Vec<IsolationStep> = Vec::new();
    push_step(&mut steps, IsolationStep::Unshare);
    push_step(
        &mut steps,
        IsolationStep::Write {
            path: "/proc/self/setgroups".to_owned(),
            contents: "deny".to_owned(),
        },
    );
    push_step(
        &mut steps,
        IsolationStep::Write { path: "/proc/self/uid_map".to_owned(), contents: id_map(uid) },
    );
    push_step(
        &mut steps,
        IsolationStep::Write { path: "/proc/self/gid_map".to_owned(), contents: id_map(gid) },
    );
    push_step(
        &mut steps,
        IsolationStep::Mount {
            source: None,
            target: "/".to_owned(),
            filesystem: None,
            flags: MountFlags {
                bind: false,
                recursive: true,
                private: true,
                remount: false,
                read_only: false,
                inert: false,
            },
            data: None,
        },
    );
    assert(steps_view(steps@) =~= entering(uid, gid));
    steps
}

/// Plans how a helper shuts itself off before it serves a share.
pub fn isolate_share(share: &FsShare, uid: u32, gid: u32) -> (steps: Vec<IsolationStep>)
    ensures
        steps_view(steps@) == isolation(share@, uid, gid),
{
    let mut steps: Vec<IsolationStep> = enter_namespaces(uid, gid);
    let ghost entered = steps_view(steps@);
    let ghost read_only_paths = text::texts(share.read_only_paths@);
    let ghost middle = if share.read_only {
        read_only_mount(share.host_dir@, share.host_dir@)
    } else {
        read_only_mounts(read_only_paths)
    };
    if share.read_only {
        mount_read_only(&mut steps, share.host_dir.as_str(), share.host_dir.as_str());
    } else {
        assert(entered + read_only_mounts(read_only_paths.take(0)) =~= entered);
        for i in 0..share.read_only_paths.len()
            invariant
                read_only_paths == text::texts(share.read_only_paths@),
                steps_view(steps@) == entered + read_only_mounts(read_only_paths.take(i as int)),
        {
            let path: &str = share.read_only_paths[i].as_str();
            assert(read_only_paths[i as int] == path@);
            assert(read_only_paths.take(i + 1).drop_last() =~= read_only_paths.take(i as int));
            mount_read_only(&mut steps, path, path);
            assert(steps_view(steps@) =~= entered + read_only_mounts(
                read_only_paths.take(i + 1),
            ));
        }
        assert(read_only_paths.take(read_only_paths.len() as int) =~= read_only_paths);
    }
    let ghost mounted = entered + middle;
    let ghost hidden = text::texts(share.hidden_paths@).map_values(
        |path: Seq<char>| IsolationStepView::Hide { path },
    );
    assert(mounted + hidden.take(0) =~= mounted);
    for i in 0..share.hidden_paths.len()
        invariant
            hidden == text::texts(share.hidden_paths@).map_values(
                |path: Seq<char>| IsolationStepView::Hide { path },
            ),
            steps_view(steps@) == mounted + hidden.take(i as int),
    {
        push_step(&mut steps, IsolationStep::Hide { path: share.hidden_paths[i].clone() });
        assert(steps_view(steps@) =~= mounted + hidden.take(i + 1));
    }
    assert(hidden.take(hidden.len() as int) =~= hidden);
    steps
}

/// The file that stands in for hidden files.
pub open spec fn empty_file(temp_dir: Seq<char>, pid: u32) -> Seq<char> {
    paths::join(temp_dir, ".empty-"@ + text::decimal(pid as nat))
}

/// How a path is hidden: a directory behind an empty file system, anything else behind an
/// empty file.
pub open spec fn hiding(
    path: Seq<char>,
    is_dir: bool,
    temp_dir: Seq<char>,
    pid: u32,
) -> Seq<IsolationStepView> {
    if is_dir {
        seq![
            IsolationStepView::Mount {
                source: None,
                target: path,
                filesystem: Some("tmpfs"@),
                flags: MountFlags { read_only: true, ..plain_mount() },
                data: Some("size=0"@),
            },
        ]
    } else {
        seq![IsolationStepView::CreateEmpty { path: empty_file(temp_dir, pid) }]
            + read_only_mount(empty_file(temp_dir, pid), path)
    }
}

/// Plans to hide a path.
pub fn hide_path(path: &str, is_dir: bool, temp_dir: &str, pid: u32) -> (steps: Vec<
    IsolationStep,
>)
    ensures
        steps_view(steps@) == hiding(path@, is_dir, temp_dir@, pid),
{
    let mut steps: Vec<IsolationStep> = Vec::new();
    if is_dir {
        push_step(
            &mut steps,
            IsolationStep::Mount {
                source: None,
                target: path.to_owned(),
                filesystem: Some("tmpfs".to_owned()),
                flags: MountFlags {
                    bind: false,
                    recursive: false,
                    private: false,
                    remount: false,
                    read_only: true,
                    inert: false,
                },
                data: Some("size=0".to_owned()),
            },
        );
    } else {
        let number: String = text::decimal_string(pid as u64);
        let file: String = text::concatenated(".empty-", number.as_str());
        let empty: String = paths::joined_path(temp_dir, file.as_str());
        push_step(&mut steps, IsolationStep::CreateEmpty { path: empty.clone() });
        mount_read_only(&mut steps, empty.as_str(), path);
    }
    assert(steps_view(steps@) =~= hiding(path@, is_dir, temp_dir@, pid));
    steps
}

/// The helper shuts itself off before anything else, and then every path that should be
/// read-only or hidden is dealt with.
pub proof fn lemma_isolation_covers_share(share: FsShareView, uid: u32, gid: u32)
    ensures
        isolation(share, uid, gid)[0] == IsolationStepView::Unshare,
        share.read_only ==> isolation(share, uid, gid).contains(
            read_only_mount(share.host_dir, share.host_dir)[1],
        ),
        !share.read_only ==> forall|i: int|
            0 <= i < share.read_only_paths.len() ==> isolation(share, uid, gid).contains(
                read_only_mount(#[trigger] share.read_only_paths[i], share.read_only_paths[i])[1],
            ),
        forall|i: int|
            0 <= i < share.hidden_paths.len() ==> isolation(share, uid, gid).contains(
                (IsolationStepView::Hide { path: #[trigger] share.hidden_paths[i] }),
            ),
{
    let entered = entering(uid, gid);
    let middle = if share.read_only {
        read_only_mount(share.host_dir, share.host_dir)
    } else {
        read_only_mounts(share.read_only_paths)
    };
    let hidden = share.hidden_paths.map_values(
        |path: Seq<char>| IsolationStepView::Hide { path },
    );
    let all = isolation(share, uid, gid);
    assert(all =~= entered + middle + hidden);
    assert forall|step: IsolationStepView| middle.contains(step) implies all.contains(step) by {
        let k = choose|k: int| 0 <= k < middle.len() && middle[k] == step;
        assert(all[entered.len() + k] == step);
    }
    if share.read_only {
        assert(middle.contains(middle[1]));
    } else {
        assert forall|i: int| 0 <= i < share.read_only_paths.len() implies all.contains(
            read_only_mount(#[trigger] share.read_only_paths[i], share.read_only_paths[i])[1],
        ) by {
            lemma_read_only_mounts(share.read_only_paths, i);
        }
    }
    assert forall|i: int| 0 <= i < share.hidden_paths.len() implies all.contains(
        (IsolationStepView::Hide { path: #[trigger] share.hidden_paths[i] }),
    ) by {
        assert(all[entered.len() + middle.len() + i] == hidden[i]);
    }
}

/// Each of the paths is made read-only.
proof fn lemma_read_only_mounts(paths: Seq<Seq<char>>, i: int)
    requires
        0 <= i < paths.len(),
    ensures
        read_only_mounts(paths).contains(read_only_mount(paths[i], paths[i])[1]),
    decreases paths.len(),
{
    let before = read_only_mounts(paths.drop_last());
    let step = read_only_mount(paths[i], paths[i])[1];
    if i < paths.len() - 1 {
        lemma_read_only_mounts(paths.drop_last(), i);
        let k = choose|k: int| 0 <= k < before.len() && before[k] == step;
        assert(read_only_mounts(paths)[k] == step);
    } else {
        assert(read_only_mounts(paths)[before.len() as int + 1] == step);
    }
}

/// A helper is started from where the configuration says, and otherwise by its name.
pub proof fn lemma_place_of_program(
    config: &Option<sandbox::config::BinaryConfig>,
    default: &str,
    path: String,
)
    requires
        call_ensures(program, (config, default), path),
    ensures
        (*config matches Some(given) && given.binary is Some) ==> path@
            == config.unwrap().binary.unwrap()@,
        !(*config matches Some(given) && given.binary is Some) ==> path@ == default@,
{
}

/// The arguments of virtiofsd, one by one. Each option is followed by what it is set to, and
/// there is one for a share that is read-only.
pub proof fn lemma_virtiofsd_arguments(
    config: &Config,
    share: &FsShare,
    runtime_dir: &str,
    launch: Launch,
)
    requires
        call_ensures(FsMount::spawn, (config, share, runtime_dir), launch),
    ensures
        ({
            let found = launch.arguments@;
            let all = text::decimal(4294967295);
            &&& launch.socket_path@ == paths::join(
                paths::join(runtime_dir@, config.name@),
                "vfsd-"@ + share.name@ + ".sock"@,
            )
            &&& found.len() == (if share.read_only {
                19int
            } else {
                18
            })
            &&& found[0]@ == "--socket-path"@ && found[1]@ == launch.socket_path@
            &&& found[2]@ == "--shared-dir"@ && found[3]@ == share.host_dir@
            &&& found[4]@ == "--sandbox"@ && found[5]@ == "namespace"@
            &&& found[6]@ == "--cache"@ && found[7]@ == "never"@
            &&& found[8]@ == "--tag"@ && found[9]@ == share.name@
            &&& found[10]@ == "--translate-uid"@ && found[11]@ == "squash-guest:0:0:"@ + all
            &&& found[12]@ == "--translate-gid"@ && found[13]@ == "squash-guest:0:0:"@ + all
            &&& found[14]@ == "--translate-uid"@ && found[15]@ == "squash-host:0:"@ + text::decimal(
                config.guest_uid as nat,
            ) + ":"@ + all
            &&& found[16]@ == "--translate-gid"@ && found[17]@ == "squash-host:0:"@ + text::decimal(
                config.guest_gid as nat,
            ) + ":"@ + all
            &&& share.read_only ==> found[18]@ == "--readonly"@
        }),
{
    let found = text::texts(launch.arguments@);
    assert(found.len() == launch.arguments@.len());
    assert forall|i: int| 0 <= i < found.len() implies launch.arguments@[i]@ == #[trigger] found[i] by {}
    assert(found[0] == "--socket-path"@ && found[1] == launch.socket_path@);
    assert(found[2] == "--shared-dir"@ && found[3] == share.host_dir@);
    assert(found[4] == "--sandbox"@ && found[5] == "namespace"@);
    assert(found[6] == "--cache"@ && found[7] == "never"@);
    assert(found[8] == "--tag"@ && found[9] == share.name@);
    assert(found[10] == "--translate-uid"@ && found[11] == squash_guest());
    assert(found[12] == "--translate-gid"@ && found[13] == squash_guest());
    assert(found[14] == "--translate-uid"@ && found[15] == squash_host(config.guest_uid));
    assert(found[16] == "--translate-gid"@ && found[17] == squash_host(config.guest_gid));
    if share.read_only {
        assert(found[18] == "--readonly"@);
    }
}

/// Whether a step mounts a path over another one.
pub open spec fn is_bind(step: IsolationStep, source: Seq<char>, over: Seq<char>) -> bool {
    step matches IsolationStep::Mount { source: from, target, filesystem, flags, data } && from
        is Some && from.unwrap()@ == source && target@ == over && filesystem is None && data is None
        && flags == (MountFlags {
        bind: true,
        recursive: true,
        private: false,
        remount: false,
        read_only: false,
        inert: false,
    })
}

/// Whether a step makes what is mounted at a path read-only and inert.
pub open spec fn is_locking(step: IsolationStep, over: Seq<char>) -> bool {
    step matches IsolationStep::Mount { source, target, filesystem, flags, data } && source is None
        && target@ == over && filesystem is None && data is None && flags == (MountFlags {
        bind: true,
        recursive: false,
        private: false,
        remount: true,
        read_only: true,
        inert: true,
    })
}

/// Whether a step hides a path.
pub open spec fn is_hiding(step: IsolationStep, hidden: Seq<char>) -> bool {
    step matches IsolationStep::Hide { path } && path@ == hidden
}

/// Before a helper does anything else it steps into new namespaces, maps the user and its group
/// onto number zero and keeps its mounts to itself.
pub proof fn lemma_entering_namespaces(
    share: &FsShare,
    uid: u32,
    gid: u32,
    steps: Vec<IsolationStep>,
)
    requires
        call_ensures(isolate_share, (share, uid, gid), steps),
    ensures
        ({
            let found = steps@;
            &&& found.len() >= 5
            &&& found[0] is Unshare
            &&& found[1] matches IsolationStep::Write { path, contents } && path@
                == "/proc/self/setgroups"@ && contents@ == "deny"@
            &&& found[2] matches IsolationStep::Write { path, contents } && path@
                == "/proc/self/uid_map"@ && contents@ == "0 "@ + text::decimal(uid as nat) + " 1"@
            &&& found[3] matches IsolationStep::Write { path, contents } && path@
                == "/proc/self/gid_map"@ && contents@ == "0 "@ + text::decimal(gid as nat) + " 1"@
            &&& found[4] matches IsolationStep::Mount { source, target, filesystem, flags, data }
                && source is None && target@ == "/"@ && filesystem is None && data is None && flags
                == (MountFlags {
                bind: false,
                recursive: true,
                private: true,
                remount: false,
                read_only: false,
                inert: false,
            })
        }),
{
    let found = steps_view(steps@);
    let entered = entering(uid, gid);
    assert(found.len() == steps@.len());
    assert(found[0] == entered[0] && found[1] == entered[1] && found[2] == entered[2] && found[3]
        == entered[3] && found[4] == entered[4]);
    assert(steps@[0]@ == found[0] && steps@[1]@ == found[1] && steps@[2]@ == found[2] && steps@[3]@
        == found[3] && steps@[4]@ == found[4]);
}

/// Then either the whole share is made read-only or each of its read-only paths is, and at last
/// each hidden path is hidden. There is nothing else.
pub proof fn lemma_locking_and_hiding(
    share: &FsShare,
    uid: u32,
    gid: u32,
    steps: Vec<IsolationStep>,
)
    requires
        call_ensures(isolate_share, (share, uid, gid), steps),
    ensures
        ({
            let found = steps@;
            let locked: int = if share.read_only {
                1
            } else {
                share.read_only_paths@.len() as int
            };
            &&& found.len() == 5 + 2 * locked + share.hidden_paths@.len()
            &&& share.read_only ==> is_bind(found[5], share.host_dir@, share.host_dir@)
                && is_locking(found[6], share.host_dir@)
            &&& !share.read_only ==> forall|i: int|
                0 <= i < share.read_only_paths@.len() ==> is_bind(
                    found[5 + 2 * i],
                    (#[trigger] share.read_only_paths@[i])@,
                    share.read_only_paths@[i]@,
                ) && is_locking(found[6 + 2 * i], share.read_only_paths@[i]@)
            &&& forall|i: int|
                0 <= i < share.hidden_paths@.len() ==> is_hiding(
                    found[5 + 2 * locked + i],
                    (#[trigger] share.hidden_paths@[i])@,
                )
        }),
{
    let found = steps_view(steps@);
    let entered = entering(uid, gid);
    let paths = text::texts(share.read_only_paths@);
    let middle = if share.read_only {
        read_only_mount(share.host_dir@, share.host_dir@)
    } else {
        read_only_mounts(paths)
    };
    let hidden = text::texts(share.hidden_paths@).map_values(
        |path: Seq<char>| IsolationStepView::Hide { path },
    );
    lemma_two_mounts_each(paths);
    assert(found == entered + middle + hidden);
    assert(entered.len() == 5);
    assert(found.len() == steps@.len());
    if share.read_only {
        assert(found[5] == middle[0] && found[6] == middle[1]);
        assert(steps@[5]@ == found[5] && steps@[6]@ == found[6]);
    } else {
        assert forall|i: int| 0 <= i < share.read_only_paths@.len() implies is_bind(
            steps@[5 + 2 * i],
            (#[trigger] share.read_only_paths@[i])@,
            share.read_only_paths@[i]@,
        ) && is_locking(steps@[6 + 2 * i], share.read_only_paths@[i]@) by {
            assert(paths[i] == share.read_only_paths@[i]@);
            assert(found[5 + 2 * i] == middle[2 * i]);
            assert(found[6 + 2 * i] == middle[2 * i + 1]);
            assert(steps@[5 + 2 * i]@ == found[5 + 2 * i]);
            assert(steps@[6 + 2 * i]@ == found[6 + 2 * i]);
        }
    }
    let start: int = 5 + middle.len() as int;
    assert forall|i: int| 0 <= i < share.hidden_paths@.len() implies is_hiding(
        steps@[start + i],
        (#[trigger] share.hidden_paths@[i])@,
    ) by {
        assert(found[start + i] == hidden[i]);
        assert(steps@[start + i]@ == found[start + i]);
    }
}

/// Each path takes two steps.
proof fn lemma_two_mounts_each(paths: Seq<Seq<char>>)
    ensures
        read_only_mounts(paths).len() == 2 * paths.len(),
        forall|i: int|
            0 <= i < paths.len() ==> read_only_mounts(paths)[2 * i] == read_only_mount(
                #[trigger] paths[i],
                paths[i],
            )[0] && read_only_mounts(paths)[2 * i + 1] == read_only_mount(paths[i], paths[i])[1],
    decreases paths.len(),
{
    if paths.len() > 0 {
        let rest = paths.drop_last();
        lemma_two_mounts_each(rest);
        assert forall|i: int| 0 <= i < paths.len() implies read_only_mounts(paths)[2 * i]
            == read_only_mount(#[trigger] paths[i], paths[i])[0] && read_only_mounts(paths)[2 * i
            + 1] == read_only_mount(paths[i], paths[i])[1] by {
            if i < rest.len() {
                assert(rest[i] == paths[i]);
            }
        }
    }
}

/// A directory is hidden behind a file system in which nothing fits, and anything else behind
/// an empty file that cannot be written.
pub proof fn lemma_course_of_hiding(
    path: &str,
    is_dir: bool,
    temp_dir: &str,
    pid: u32,
    steps: Vec<IsolationStep>,
)
    requires
        call_ensures(hide_path, (path, is_dir, temp_dir, pid), steps),
    ensures
        is_dir ==> steps@.len() == 1 && (steps@[0] matches IsolationStep::Mount {
            source,
            target,
            filesystem,
            flags,
            data,
        } && source is None && target@ == path@ && filesystem is Some && filesystem.unwrap()@
            == "tmpfs"@ && data is Some && data.unwrap()@ == "size=0"@ && flags == (MountFlags {
            bind: false,
            recursive: false,
            private: false,
            remount: false,
            read_only: true,
            inert: false,
        })),
        !is_dir ==> steps@.len() == 3 && (steps@[0] matches IsolationStep::CreateEmpty {
            path: empty,
        } && empty@ == paths::join(temp_dir@, ".empty-"@ + text::decimal(pid as nat)) && is_bind(
            steps@[1],
            empty@,
            path@,
        )) && is_locking(steps@[2], path@),
{
    let found = steps_view(steps@);
    assert(found.len() == steps@.len());
    assert(found == hiding(path@, is_dir, temp_dir@, pid));
    assert forall|i: int| 0 <= i < found.len() implies steps@[i]@ == #[trigger] found[i] by {}
    if is_dir {
        assert(steps@[0]@ == found[0]);
    } else {
        let mounts = read_only_mount(empty_file(temp_dir@, pid), path@);
        assert(steps@[0]@ == found[0]);
        assert(found[1] == mounts[0] && found[2] == mounts[1]);
        assert(steps@[1]@ == found[1]);
        assert(steps@[2]@ == found[2]);
    }
}

/// Where a helper is started from, and what becomes of its share.
pub proof fn lemma_helper_and_mount(
    config: &Config,
    share: &FsShare,
    runtime_dir: &str,
    launch: Launch,
    socket_path: String,
    mount: FsMount,
)
    requires
        call_ensures(FsMount::spawn, (config, share, runtime_dir), launch),
        call_ensures(FsMount::mounted, (share, socket_path), mount),
    ensures
        config.virtiofsd is None ==> launch.program@ == "virtiofsd"@,
        (config.virtiofsd matches Some(given) && given.binary is Some) ==> launch.program@
            == config.virtiofsd.unwrap().binary.unwrap()@,
        mount.tag@ == share.name@,
        mount.read_only == share.read_only,
        mount.socket_path@ == socket_path@,
{
    assert(mount@.tag == share.name@);
}

} // verus!
