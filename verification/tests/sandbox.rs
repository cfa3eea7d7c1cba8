//! Commands, sandboxes and what they need.
use blinools::sandbox::cgroup::CGroup;
use blinools::sandbox::config::{
    BinaryConfig, Config, FsShare, HypervisorType, Network, RootfsType,
};
use blinools::sandbox::console::ConsoleExit;
use blinools::sandbox::create::{
    CreateAction, CreateEvent, CreateFailure, Creation, HelperStart,
};
use blinools::sandbox::fs::{hide_path, isolate_share, FsMount, IsolationStep, MountFlags};
use blinools::sandbox::hypervisor::{Hypervisor, State};
use blinools::sandbox::lock::{lock_path, LockAttempt, SandboxLock};
use blinools::sandbox::name::Name;
use blinools::sandbox::passt::PasstNetwork;
use blinools::sandbox::process::{
    kill_child_and_cleanup, wait_for_socket, ChildState, EndEvent, EndStep, WaitStep,
};
use blinools::sandbox::{
    complete_sandbox_name, delete_sandbox, ensure_unique_name, existing_sandbox_names, handle,
    list_sandboxes, prune_sandbox, prune_sandboxes, sandbox_dirs, socket_path, socket_path_in,
    validate_socket_path_lengths, Command, DeleteAction, DeleteEvent, DeleteFailure, DirEntry,
    ListedSandbox, PruneStep, Task, MAX_SOCKET_PATH_LENGTH,
};

fn name(s: &str) -> Name {
    Name::new(s).expect("valid sandbox name")
}

fn share(name: &str) -> FsShare {
    FsShare {
        host_dir: String::new(),
        name: Name::new(name).unwrap(),
        read_only: false,
        read_only_paths: Vec::new(),
        hidden_paths: Vec::new(),
    }
}

fn config() -> Config {
    Config {
        name: name("box"),
        kernel: "/k".to_string(),
        kernel_cmdline: "quiet".to_string(),
        rootfs: "/r".to_string(),
        rootfs_type: RootfsType::Raw,
        memory_mb: 512,
        cpus: 2,
        shares: None,
        guest_uid: 1000,
        inherit_shares: false,
        guest_gid: 1001,
        dns: None,
        network: Network::Lan,
        hypervisor: HypervisorType::CloudHypervisor,
        cloud_hypervisor: None,
        qemu: None,
        passt: None,
        virtiofsd: None,
    }
}

fn dir(name: &str) -> DirEntry {
    DirEntry { name: Some(name.to_string()), is_dir: true }
}

#[test]
fn socket_path_in_joins_socket_name_with_sock_suffix() {
    let dir = "/run/user/1000/blinools/mybox";
    assert_eq!(
        socket_path_in(dir, "passt"),
        "/run/user/1000/blinools/mybox/passt.sock"
    );
    assert_eq!(
        socket_path_in(dir, "vfsd-myshare"),
        "/run/user/1000/blinools/mybox/vfsd-myshare.sock"
    );
}

#[test]
fn sockets_are_in_the_runtime_directory_of_their_sandbox() {
    assert_eq!(socket_path("/run", &name("box"), "passt"), "/run/box/passt.sock");
    let dirs = sandbox_dirs("/run", "/state", &name("box"));
    assert_eq!((dirs.runtime.as_str(), dirs.state.as_str()), ("/run/box", "/state/box"));
}

#[test]
fn existing_sandbox_names_sorts_and_dedupes_across_runtime_and_state() {
    assert_eq!(
        existing_sandbox_names(
            Some(&vec![dir("zeta"), dir("alpha")]),
            Some(&vec![dir("alpha"), dir("beta")]),
        ),
        vec!["alpha".to_string(), "beta".to_string(), "zeta".to_string()]
    );
}

#[test]
fn existing_sandbox_names_ignores_non_directory_entries() {
    let entries = vec![
        dir("real-sandbox"),
        DirEntry { name: Some("stray-file".to_string()), is_dir: false },
        DirEntry { name: None, is_dir: true },
    ];
    assert_eq!(existing_sandbox_names(Some(&entries), None), vec!["real-sandbox".to_string()]);
}

#[test]
fn existing_sandbox_names_empty_when_neither_dir_exists() {
    assert!(existing_sandbox_names(None, None).is_empty());
}

#[test]
fn existing_sandbox_names_still_lists_runtime_when_state_dir_unresolvable() {
    assert_eq!(
        existing_sandbox_names(Some(&vec![dir("only-runtime")]), None),
        vec!["only-runtime".to_string()]
    );
}

#[test]
fn complete_sandbox_name_filters_by_prefix() {
    let names = existing_sandbox_names(Some(&vec![dir("web-1"), dir("web-2"), dir("db")]), None);

    let mut values = complete_sandbox_name(Some("web"), &names);
    values.sort();

    assert_eq!(values, vec!["web-1".to_string(), "web-2".to_string()]);
}

#[test]
fn complete_sandbox_name_empty_for_non_utf8_input() {
    // Not valid UTF-8: "fo\xFFo"
    let invalid = std::str::from_utf8(&[0x66, 0x6f, 0xff, 0x6f]).ok();
    assert!(complete_sandbox_name(invalid, &vec!["foo".to_string()]).is_empty());
}

#[test]
fn complete_sandbox_name_empty_when_no_names_match() {
    assert!(complete_sandbox_name(Some("web"), &vec!["db".to_string()]).is_empty());
}

#[test]
fn validate_socket_path_lengths_ok_for_short_names() {
    let n = name("sb");
    assert!(validate_socket_path_lengths("/tmp/xrd/blinools", &n, &vec![]).is_ok());
}

#[test]
fn validate_socket_path_lengths_errors_when_sandbox_name_too_long() {
    let runtime = format!("{}/blinools", "x".repeat(MAX_SOCKET_PATH_LENGTH));
    let n = name("x");
    assert!(validate_socket_path_lengths(&runtime, &n, &vec![]).is_err());
}

#[test]
fn validate_socket_path_lengths_checks_per_share_socket_names() {
    let runtime = format!("{}/blinools", "x".repeat(MAX_SOCKET_PATH_LENGTH));
    let n = name("b");
    let long_share = share("x");
    assert!(validate_socket_path_lengths(&runtime, &n, &vec![long_share]).is_err());
}

#[test]
fn the_longest_socket_path_still_fits() {
    // "/<x>/b/cloud-hypervisor.sock"
    let fits = format!("/{}", "x".repeat(MAX_SOCKET_PATH_LENGTH - 25));
    assert!(validate_socket_path_lengths(&fits, &name("b"), &vec![]).is_ok());
    let path = format!("{fits}x/b/cloud-hypervisor.sock");
    assert_eq!(
        validate_socket_path_lengths(&format!("{fits}x"), &name("b"), &vec![]).unwrap_err(),
        format!(
            "socket path `{path}` is 108 bytes, which is over the 107 byte limit for unix sockets, use a shorter sandbox or share name"
        )
    );
    // Only the socket of the share is too long
    assert!(validate_socket_path_lengths(&fits, &name("b"), &vec![share("data-of-mine")])
        .unwrap_err()
        .contains("/vfsd-data-of-mine.sock` is "));
}

#[test]
fn commands_become_tasks() {
    let plan = handle(Command::Ps, Some(config()), "/run").ok().unwrap();
    assert!(matches!(plan.task, Task::List));
    assert!(matches!(plan.hypervisor, Hypervisor::CloudHypervisor(_)));
    let shutdown = Command::Shutdown { name: name("a") };
    let plan = handle(shutdown, Some(config()), "/run").ok().unwrap();
    assert!(matches!(
        plan.task,
        Task::Shutdown { sandbox_runtime_dir } if sandbox_runtime_dir == "/run/a"
    ));
    let delete = Command::Delete { name: name("a"), force: true };
    let plan = handle(delete, Some(config()), "/run").ok().unwrap();
    assert!(matches!(plan.task, Task::Delete { name, force: true } if name.as_str() == "a"));
    let qemu = Config { hypervisor: HypervisorType::Qemu, ..config() };
    let plan = handle(Command::Prune, Some(qemu), "/run").ok().unwrap();
    assert!(matches!(plan.task, Task::Prune));
    assert!(matches!(plan.hypervisor, Hypervisor::Qemu(_)));
    let create = || Command::Create {
        shares: vec![share("a")],
        name: None,
        recreate: true,
        delete_after_shutdown: false,
    };
    for command in [
        create(),
        Command::Ps,
        Command::Shutdown { name: name("a") },
        Command::Delete { name: name("a"), force: false },
        Command::Prune,
    ] {
        assert_eq!(
            handle(command, None, "/run").err().as_deref(),
            Some("the configuration has no `sandbox` section")
        );
    }
    let plan = handle(create(), Some(config()), "/run").ok().unwrap();
    assert!(matches!(
        plan.task,
        Task::Create { shares, recreate: true, delete_after_shutdown: false, .. }
            if shares.len() == 1
    ));
}

#[test]
fn a_running_sandbox_is_only_deleted_by_force() {
    let refused = DeleteAction::Fail(DeleteFailure::Running);
    let held = DeleteEvent::LockTried(LockAttempt::Locked);
    let busy = DeleteEvent::LockTried(LockAttempt::WouldBlock);
    assert_eq!(delete_sandbox(false, true, held), DeleteAction::CheckRunning);
    assert_eq!(delete_sandbox(false, true, busy), refused);
    assert_eq!(
        delete_sandbox(false, true, DeleteEvent::RunningChecked { is_running: true }),
        refused
    );
    assert_eq!(
        delete_sandbox(false, true, DeleteEvent::RunningChecked { is_running: false }),
        DeleteAction::Shutdown { force: false }
    );
    for event in [held, busy] {
        assert_eq!(delete_sandbox(true, true, event), DeleteAction::Shutdown { force: true });
    }
    assert_eq!(
        DeleteFailure::Running.message().as_deref(),
        Some("can't delete a running sandbox, either use --force or shut the sandbox down and then try again")
    );
    assert!(ensure_unique_name(false).is_ok());
    assert_eq!(
        ensure_unique_name(true).unwrap_err(),
        "a sandbox with the same name already exists"
    );
}

#[test]
fn a_sandbox_is_deleted_step_by_step() {
    let delete = |event| delete_sandbox(false, true, event);
    for (event, action) in [
        (DeleteEvent::Started, DeleteAction::AcquireLock),
        (DeleteEvent::ShutDown { done: true }, DeleteAction::CheckRuntimeDir),
        (DeleteEvent::RuntimeDirChecked { exists: true }, DeleteAction::RemoveRuntimeDir),
        (DeleteEvent::RuntimeDirChecked { exists: false }, DeleteAction::CheckStateDir),
        (DeleteEvent::RuntimeDirRemoved { done: true }, DeleteAction::CheckStateDir),
        (DeleteEvent::StateDirChecked { exists: true }, DeleteAction::RemoveStateDir),
        (DeleteEvent::StateDirChecked { exists: false }, DeleteAction::Finish),
        (DeleteEvent::StateDirRemoved { done: true }, DeleteAction::Finish),
    ] {
        assert_eq!(delete(event), action);
    }
    for (event, failure, message) in [
        (DeleteEvent::LockTried(LockAttempt::Failed), DeleteFailure::Outside, None),
        (DeleteEvent::ShutDown { done: false }, DeleteFailure::Outside, None),
        (
            DeleteEvent::RuntimeDirRemoved { done: false },
            DeleteFailure::RuntimeDir,
            Some("cleaning up sandbox runtime directory"),
        ),
        (
            DeleteEvent::StateDirRemoved { done: false },
            DeleteFailure::StateDir,
            Some("cleaning up sandbox state directory"),
        ),
    ] {
        assert_eq!(delete(event), DeleteAction::Fail(failure));
        assert_eq!(failure.message().as_deref(), message);
    }
    assert_eq!(
        delete_sandbox(true, false, DeleteEvent::Started),
        DeleteAction::Fail(DeleteFailure::NoStateDir)
    );
    assert_eq!(
        DeleteFailure::NoStateDir.message().as_deref(),
        Some("locating state directory with XDG_STATE_HOME or HOME/.local/state")
    );
}

#[test]
fn sandboxes_are_listed_as_documented() {
    let table = list_sandboxes(&vec![
        ListedSandbox {
            name: "blinools2".to_string(),
            state: State::Running("Running".to_string()),
        },
        ListedSandbox { name: "blinools".to_string(), state: State::Stopped },
    ]);
    assert_eq!(
        table,
        "+-----------+---------+\n| name      | state   |\n+-----------+---------+\n| blinools2 | Running |\n+-----------+---------+\n| blinools  | Stopped |\n+-----------+---------+"
    );
    assert_eq!(
        list_sandboxes(&vec![]),
        "+------+-------+\n| name | state |\n+------+-------+"
    );
}

#[test]
fn pruning_takes_a_yes() {
    let sandboxes = vec!["a".to_string(), "--".to_string(), "b c".to_string()];
    for yes in ["y\n", "Y", " y \r\n"] {
        assert_eq!(prune_sandboxes(yes, &sandboxes), sandboxes);
    }
    for no in ["", "\n", "n\n", "yes\n", "yy"] {
        assert!(prune_sandboxes(no, &sandboxes).is_empty());
    }
}

#[test]
fn stopped_sandboxes_are_pruned_and_the_others_named() {
    let deleted = |sandbox: &str, is_running: bool| match prune_sandbox(sandbox, is_running) {
        PruneStep::Delete(name) => Ok(name.as_str().to_string()),
        PruneStep::Keep(message) => Err(message),
    };
    assert_eq!(deleted("a", false), Ok("a".to_string()));
    assert_eq!(deleted("b c", false), Ok("b-c".to_string()));
    for (sandbox, is_running) in [("a", true), ("b c", true), ("--", false), ("--", true)] {
        assert_eq!(
            deleted(sandbox, is_running),
            Err(format!("unexpected invalid sandbox name: {sandbox}"))
        );
    }
}

#[test]
fn a_second_holder_is_turned_away_until_the_first_one_is_gone() {
    let path = "/run/sandbox.lock";

    let held = SandboxLock::try_acquire_at(path, LockAttempt::Locked).unwrap();
    assert!(held.is_some());
    assert!(SandboxLock::try_acquire_at(path, LockAttempt::WouldBlock).unwrap().is_none());

    drop(held);
    assert!(SandboxLock::try_acquire_at(path, LockAttempt::Locked).unwrap().is_some());
}

#[test]
fn a_lock_that_fails_has_its_message() {
    assert_eq!(lock_path("/run", &name("box")), "/run/box.lock");
    assert_eq!(
        SandboxLock::try_acquire("/run", &name("box"), LockAttempt::NotOpened).unwrap_err(),
        "opening lock file /run/box.lock"
    );
    assert_eq!(
        SandboxLock::try_acquire("/run", &name("box"), LockAttempt::Failed).unwrap_err(),
        "locking /run/box.lock"
    );
    let lock = SandboxLock::try_acquire("/run", &name("box"), LockAttempt::Locked);
    assert_eq!(lock.unwrap().unwrap().path, "/run/box.lock");
}

#[test]
fn helpers_are_waited_for() {
    let wait = |expired, exists, child| wait_for_socket("/s", expired, exists, child);
    assert!(matches!(wait(false, true, ChildState::Failed), WaitStep::Ready));
    assert!(matches!(wait(false, false, ChildState::Running), WaitStep::Sleep(10)));
    assert!(matches!(
        wait(true, true, ChildState::Running),
        WaitStep::Failed(message) if message == "timed out waiting for /s to appear"
    ));
    assert!(matches!(
        wait(false, false, ChildState::Exited("exit status: 1".to_string())),
        WaitStep::Failed(message)
            if message == "helper process exited with exit status: 1 before creating /s"
    ));
    assert!(matches!(
        wait(false, false, ChildState::Failed),
        WaitStep::Failed(message) if message == "checking on a helper process"
    ));
}

#[test]
fn helpers_are_asked_to_end_before_they_are_killed() {
    assert_eq!(
        kill_child_and_cleanup(EndEvent::Checked { ended: false }),
        EndStep::Terminate(3000)
    );
    assert_eq!(kill_child_and_cleanup(EndEvent::Waited { ended: false }), EndStep::Kill);
    for event in [
        EndEvent::Checked { ended: true },
        EndEvent::Waited { ended: true },
        EndEvent::Killed,
    ] {
        assert_eq!(kill_child_and_cleanup(event), EndStep::RemoveFiles);
    }
}

#[test]
fn limits_are_written() {
    let plan = CGroup::create("box", 1000, 150000, 1);
    let base = "/sys/fs/cgroup/user.slice/user-1000.slice/user@1000.service/blinools.slice";
    assert_eq!(plan.base, base);
    assert_eq!(plan.group.path, format!("{base}/box"));
    let writes: Vec<(String, String)> =
        plan.writes.iter().map(|write| (write.path.clone(), write.contents.clone())).collect();
    assert_eq!(
        writes,
        vec![
            (format!("{base}/cgroup.subtree_control"), "+cpu +memory +pids".to_string()),
            (format!("{base}/box/cpu.max"), "150000 100000".to_string()),
            (format!("{base}/box/memory.max"), "269484032".to_string()),
            (format!("{base}/box/memory.swap.max"), "0".to_string()),
            (format!("{base}/box/pids.max"), "1024".to_string()),
        ]
    );
    let write = plan.group.enter(42);
    assert_eq!(write.path, format!("{base}/box/cgroup.procs"));
    assert_eq!(write.contents, "42");
}

#[test]
fn passt_is_started_with_these_arguments() {
    let network = PasstNetwork::new(
        &Config { dns: Some(vec!["1.1.1.1".to_string(), "::1".to_string()]), ..config() },
        "/run",
    );
    assert_eq!(network.socket_path(), "/run/box/passt.sock");
    assert_eq!(network.launch.program, "passt");
    assert_eq!(
        network.launch.arguments,
        [
            "--vhost-user",
            "--socket",
            "/run/box/passt.sock",
            "--repair-path",
            "none",
            "--foreground",
            "--no-map-gw",
            "--map-host-loopback",
            "none",
            "--map-guest-addr",
            "none",
            "-t",
            "none",
            "-u",
            "none",
            "--address",
            "10.200.0.2/24",
            "--gateway",
            "10.200.0.1",
            "--dns",
            "1.1.1.1",
            "--dns",
            "::1",
        ]
    );
}

#[test]
fn virtiofsd_is_started_with_these_arguments() {
    let share = FsShare { host_dir: "/data".to_string(), read_only: true, ..share("data") };
    let launch = FsMount::spawn(
        &Config {
            virtiofsd: Some(BinaryConfig { binary: Some("/usr/libexec/virtiofsd".to_string()) }),
            ..config()
        },
        &share,
        "/run",
    );
    assert_eq!(launch.program, "/usr/libexec/virtiofsd");
    assert_eq!(launch.socket_path, "/run/box/vfsd-data.sock");
    assert_eq!(
        launch.arguments,
        [
            "--socket-path",
            "/run/box/vfsd-data.sock",
            "--shared-dir",
            "/data",
            "--sandbox",
            "namespace",
            "--cache",
            "never",
            "--tag",
            "data",
            "--translate-uid",
            "squash-guest:0:0:4294967295",
            "--translate-gid",
            "squash-guest:0:0:4294967295",
            "--translate-uid",
            "squash-host:0:1000:4294967295",
            "--translate-gid",
            "squash-host:0:1001:4294967295",
            "--readonly",
        ]
    );
}

/// A step in words.
fn words(step: &IsolationStep) -> String {
    match step {
        IsolationStep::Unshare => "unshare".to_string(),
        IsolationStep::Write { path, contents } => format!("write {path} {contents}"),
        IsolationStep::CreateEmpty { path } => format!("create {path}"),
        IsolationStep::Mount { source, target, filesystem, flags, data } => {
            let MountFlags { bind, recursive, private, remount, read_only, inert } = flags;
            let mut text = String::from("mount");
            for (set, name) in [
                (bind, "bind"),
                (recursive, "rec"),
                (private, "private"),
                (remount, "remount"),
                (read_only, "ro"),
                (inert, "inert"),
            ] {
                if *set {
                    text.push(' ');
                    text.push_str(name);
                }
            }
            for part in [source, filesystem, data].into_iter().flatten() {
                text.push(' ');
                text.push_str(part);
            }
            format!("{text} on {target}")
        }
        IsolationStep::Hide { path } => format!("hide {path}"),
    }
}

#[test]
fn a_share_is_isolated_before_it_is_served() {
    let share = FsShare {
        host_dir: "/s".to_string(),
        read_only_paths: vec!["/s/r".to_string()],
        hidden_paths: vec!["/s/h".to_string()],
        ..share("data")
    };
    let steps = isolate_share(&share, 1000, 100);
    let entering = [
        "unshare",
        "write /proc/self/setgroups deny",
        "write /proc/self/uid_map 0 1000 1",
        "write /proc/self/gid_map 0 100 1",
        "mount rec private on /",
    ];
    let texts: Vec<String> = steps.iter().map(words).collect();
    assert_eq!(texts[..5], entering);
    assert_eq!(
        texts[5..],
        [
            "mount bind rec /s/r on /s/r",
            "mount bind remount ro inert on /s/r",
            "hide /s/h",
        ]
    );
    let steps = isolate_share(&FsShare { read_only: true, ..share }, 1000, 100);
    let texts: Vec<String> = steps.iter().map(words).collect();
    assert_eq!(
        texts[5..],
        [
            "mount bind rec /s on /s",
            "mount bind remount ro inert on /s",
            "hide /s/h",
        ]
    );
}

#[test]
fn directories_and_files_are_hidden_differently() {
    let hidden = |is_dir| -> Vec<String> {
        hide_path("/s/h", is_dir, "/tmp", 7).iter().map(words).collect()
    };
    assert_eq!(hidden(true), ["mount ro tmpfs size=0 on /s/h"]);
    assert_eq!(
        hidden(false),
        [
            "create /tmp/.empty-7",
            "mount bind rec /tmp/.empty-7 on /s/h",
            "mount bind remount ro inert on /s/h",
        ]
    );
}

fn creation(config: Config, delete: bool) -> Creation {
    Creation::create_sandbox(
        config,
        vec![FsShare { host_dir: "/b".to_string(), ..share("b") }, share("a")],
        Some(name("mine")),
        true,
        delete,
        "/run",
        Some("/state".to_string()),
    )
}

/// How creating a sandbox with a network and two shares goes if nothing is in the way.
fn smooth() -> Vec<(CreateEvent, CreateAction)> {
    let done = true;
    vec![
        (CreateEvent::Started, CreateAction::CheckName),
        (CreateEvent::NameChecked { is_running: false }, CreateAction::AcquireLock),
        (CreateEvent::LockTried(LockAttempt::Locked), CreateAction::CreateRuntimeDir),
        (CreateEvent::RuntimeDirCreated { done }, CreateAction::CreateStateDir),
        (CreateEvent::StateDirCreated { done }, CreateAction::StartNetwork),
        (CreateEvent::NetworkStarted(HelperStart::Ready), CreateAction::StartShare(0)),
        (CreateEvent::ShareStarted(HelperStart::Ready), CreateAction::StartShare(1)),
        (CreateEvent::ShareStarted(HelperStart::Ready), CreateAction::OpenConsole),
        (CreateEvent::ConsoleOpened { done }, CreateAction::Boot),
        (CreateEvent::Booted { done }, CreateAction::RunConsole),
        (
            CreateEvent::ConsoleClosed(Some(ConsoleExit::GuestGone)),
            CreateAction::WaitForVm,
        ),
        (CreateEvent::VmWaited { done }, CreateAction::ReleaseLock),
        (CreateEvent::LockReleased, CreateAction::Delete),
        (CreateEvent::Deleted { done }, CreateAction::Finish),
    ]
}

#[test]
fn a_sandbox_is_created_step_by_step() {
    let mut creation = creation(config(), true);
    assert_eq!(creation.config.name.as_str(), "mine");
    for (event, action) in smooth() {
        assert_eq!(creation.advance(event), action);
    }
    let vm = creation.vm_config();
    assert_eq!(vm.network_socket, Some("/run/mine/passt.sock"));
    assert_eq!(vm.mounts[1].socket_path, "/run/mine/vfsd-b.sock");
    assert_eq!(vm.mounts.len(), 2);
    assert!(vm.reset_overlay);
    assert_eq!((vm.kernel, vm.rootfs, vm.cmdline), ("/k", "/r", "quiet"));
    assert_eq!((vm.memory_mb, vm.cpus), (512, 2));
    assert_eq!(creation.network_launch().socket_path, "/run/mine/passt.sock");
    assert_eq!(creation.share_launch(0).socket_path, "/run/mine/vfsd-a.sock");
}

#[test]
fn given_shares_come_before_configured_ones() {
    let creation = creation(
        Config { shares: Some(vec![share("c"), share("b")]), ..config() },
        true,
    );
    let shares: Vec<(&str, &str)> = creation
        .shares
        .iter()
        .map(|share| (share.name.as_str(), share.host_dir.as_str()))
        .collect();
    assert_eq!(shares, [("a", ""), ("b", "/b"), ("c", "")]);
}

#[test]
fn without_a_network_shares_come_first() {
    let mut creation = creation(Config { network: Network::Off, ..config() }, false);
    for (event, _) in smooth() {
        if matches!(event, CreateEvent::NetworkStarted(_)) {
            continue;
        }
        let action = match event {
            CreateEvent::ConsoleClosed(_) => {
                let closed = CreateEvent::ConsoleClosed(Some(ConsoleExit::Terminated));
                assert_eq!(creation.advance(closed), CreateAction::TerminateVm);
                assert_eq!(creation.advance(CreateEvent::VmTerminated), CreateAction::ReleaseLock);
                assert_eq!(creation.advance(CreateEvent::LockReleased), CreateAction::Finish);
                break;
            }
            event => creation.advance(event),
        };
        assert_ne!(action, CreateAction::StartNetwork);
    }
    assert!(creation.vm_config().network_socket.is_none());
}

/// Creates a sandbox up to the given event, and lets that happen instead of what would.
fn fail(creation: &mut Creation, steps: usize, event: CreateEvent) -> (CreateFailure, Option<String>) {
    for (event, action) in smooth().into_iter().take(steps) {
        assert_eq!(creation.advance(event), action);
    }
    match creation.advance(event) {
        CreateAction::Fail(failure) => (failure, creation.failure_message(failure)),
        action => panic!("{action:?}"),
    }
}

#[test]
fn each_failure_of_creation_has_its_message() {
    let done = false;
    for (steps, event, failure, message) in [
        (
            1,
            CreateEvent::NameChecked { is_running: true },
            CreateFailure::NameTaken,
            Some("a sandbox with the same name already exists"),
        ),
        (
            2,
            CreateEvent::LockTried(LockAttempt::WouldBlock),
            CreateFailure::LockBusy,
            Some("failed to acquire lock, a sandbox with the same name is already running"),
        ),
        (2, CreateEvent::LockTried(LockAttempt::Failed), CreateFailure::Locking, None),
        (
            3,
            CreateEvent::RuntimeDirCreated { done },
            CreateFailure::RuntimeDir,
            Some("creating runtime directory for sandbox"),
        ),
        (
            4,
            CreateEvent::StateDirCreated { done },
            CreateFailure::StateDir,
            Some("creating state directory for sandbox"),
        ),
        (
            5,
            CreateEvent::NetworkStarted(HelperStart::NotReady),
            CreateFailure::Network,
            Some("starting the sandbox network"),
        ),
        (
            5,
            CreateEvent::NetworkStarted(HelperStart::NotSpawned),
            CreateFailure::NetworkSpawn,
            Some("spawing passt"),
        ),
        (
            6,
            CreateEvent::ShareStarted(HelperStart::NotReady),
            CreateFailure::Share(0),
            Some("sharing ``"),
        ),
        (
            7,
            CreateEvent::ShareStarted(HelperStart::NotReady),
            CreateFailure::Share(1),
            Some("sharing `/b`"),
        ),
        (
            7,
            CreateEvent::ShareStarted(HelperStart::NotSpawned),
            CreateFailure::ShareSpawn,
            Some("spawning virtiofsd"),
        ),
        (8, CreateEvent::ConsoleOpened { done }, CreateFailure::Outside, None),
        (9, CreateEvent::Booted { done }, CreateFailure::Outside, None),
        (10, CreateEvent::ConsoleClosed(None), CreateFailure::Outside, None),
        (
            11,
            CreateEvent::VmWaited { done },
            CreateFailure::Waiting,
            Some("waiting for sandbox to exit"),
        ),
        (13, CreateEvent::Deleted { done }, CreateFailure::Outside, None),
    ] {
        let found = fail(&mut creation(config(), true), steps, event);
        assert_eq!(found, (failure, message.map(str::to_string)));
    }
}

#[test]
fn creation_stops_without_a_place_for_its_files() {
    let mut homeless = creation(config(), false);
    homeless.state_dir = None;
    assert_eq!(
        fail(&mut homeless, 3, CreateEvent::RuntimeDirCreated { done: true }),
        (
            CreateFailure::NoStateDir,
            Some("locating state directory with XDG_STATE_HOME or HOME/.local/state".to_string())
        )
    );
    let mut remote = creation(config(), false);
    remote.runtime_dir = format!("/{}", "x".repeat(MAX_SOCKET_PATH_LENGTH));
    let (failure, message) =
        fail(&mut remote, 4, CreateEvent::StateDirCreated { done: true });
    assert_eq!(failure, CreateFailure::SocketPath);
    assert!(message.unwrap().contains("use a shorter sandbox or share name"));
}
