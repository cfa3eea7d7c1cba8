//! The configuration of a sandbox, its validation and its shares.
use std::path::Path;

use blinools::paths;
use blinools::sandbox::config::{
    default_guest_uid_gid, default_sandbox_name, dir_exists, file_exists, file_exists_optional,
    merge_by_name, parse_share, share_request, validate_kernel_cmdline, validate_shares,
    BinaryConfig, Config, Disk, FsShare, HypervisorType, Network, RootfsType,
};
use blinools::sandbox::name::Name;
use tempfile::{tempdir, TempDir};

/// Looks at the given paths.
fn disk(paths: &[&Path]) -> Disk {
    let mut disk = Disk { files: Vec::new(), directories: Vec::new() };
    for path in paths {
        if path.is_file() {
            disk.files.push(path.display().to_string());
        }
        if path.is_dir() {
            disk.directories.push(path.display().to_string());
        }
    }
    disk
}

fn create_dir(parent: &Path, name: &str) -> TempDir {
    tempfile::Builder::new().prefix(name).rand_bytes(0).tempdir_in(parent).unwrap()
}

fn text(path: &Path) -> String {
    path.display().to_string()
}

fn named_share(name: &str, dir: &str, read_only: bool) -> FsShare {
    FsShare {
        host_dir: dir.to_string(),
        name: Name::new(name).unwrap(),
        read_only,
        read_only_paths: Vec::new(),
        hidden_paths: Vec::new(),
    }
}

fn share(host_dir: String, read_only_paths: Vec<String>, hidden_paths: Vec<String>) -> FsShare {
    FsShare {
        host_dir,
        name: Name::new("test-share").expect("valid name"),
        read_only: false,
        read_only_paths,
        hidden_paths,
    }
}

/// The paths of the fields that a report is about.
fn fields(report: &garde::Report) -> Vec<String> {
    report.iter().map(|(path, _)| path.to_string()).collect()
}

/// Resolves the path that an argument asks for, and makes a share of it.
fn parse(argument: &str) -> Result<FsShare, String> {
    let resolved = share_request(argument)
        .ok()
        .and_then(|request| Path::new(&request.path).canonicalize().ok());
    let facts = match &resolved {
        Some(path) => disk(&[path.as_path()]),
        None => disk(&[]),
    };
    parse_share(argument, resolved.map(|path| text(&path)).as_deref(), &facts)
}

#[test]
fn dir_exists_only_accepts_existing_dirs() {
    let dir = tempdir().unwrap();
    let file = tempfile::NamedTempFile::new_in(dir.path()).unwrap();
    let missing = Path::new("i-dont-exist");
    let facts = disk(&[dir.path(), file.path(), missing]);
    assert!(dir_exists(&text(dir.path()), &facts).is_ok());
    assert!(dir_exists(&text(missing), &facts).is_err());
    assert!(dir_exists(&text(file.path()), &facts).is_err());
}

#[test]
fn file_exists_only_accepts_existing_files() {
    let dir = tempdir().unwrap();
    let file = tempfile::NamedTempFile::new_in(dir.path()).unwrap();
    let missing = Path::new("i-dont-exist");
    let facts = disk(&[dir.path(), file.path(), missing]);
    assert!(file_exists(&text(dir.path()), &facts).is_err());
    assert!(file_exists(&text(missing), &facts).is_err());
    assert!(file_exists(&text(file.path()), &facts).is_ok());
}

#[test]
fn file_exists_optional_accepts_none() {
    assert!(file_exists_optional(&None, &disk(&[])).is_ok());
}

#[test]
fn a_missing_path_has_its_message() {
    assert_eq!(
        file_exists("/k", &disk(&[])).unwrap_err(),
        "Path `/k` does not exist or is not a file"
    );
    assert_eq!(
        file_exists_optional(&Some("/k".to_string()), &disk(&[])).unwrap_err(),
        "Path `/k` does not exist or is not a file"
    );
    assert_eq!(
        dir_exists("/d", &disk(&[])).unwrap_err(),
        "Path `/d` does not exist or is not a directory"
    );
}

#[test]
fn blacklisted_kernel_parameters_are_rejected() {
    assert!(validate_kernel_cmdline("foo console= bar").is_err());
    assert!(validate_kernel_cmdline("console= bar").is_err());
    assert!(validate_kernel_cmdline("console=bar").is_err());
    assert!(validate_kernel_cmdline("foo console=").is_err());
    assert!(validate_kernel_cmdline("console").is_ok());

    assert!(validate_kernel_cmdline("foo root= bar").is_err());
    assert!(validate_kernel_cmdline("root= bar").is_err());
    assert!(validate_kernel_cmdline("root=bar").is_err());
    assert!(validate_kernel_cmdline("foo root=").is_err());
    assert!(validate_kernel_cmdline("root").is_ok());
}

#[test]
fn parse_share_rejects_names_that_are_not_path_components() {
    let dir = tempdir().unwrap();
    let path = dir.path().display();
    assert!(parse(&format!("../../etc:{path}:rw")).is_err());
    assert!(parse(&format!("a init=-bin-sh:{path}:rw")).is_err());
}

#[test]
fn parse_share_rejects_invalid_shares() {
    let dir = tempdir().unwrap();
    let path = dir.path().display();
    assert!(parse(&format!("{path}:")).is_err());
    assert!(parse(&format!("{path}:r")).is_err());
    assert!(parse(&format!("{path}:o")).is_err());
    assert!(parse(&format!("{path}:ro:")).is_err());
    assert!(parse(&format!("{path}:rw:")).is_err());
    assert!(parse(&format!("{path}:rw:data")).is_err());
    assert!(parse(&format!("data:{path}:rw:data")).is_err());
    assert!(parse(&format!("data:{path}rw")).is_err());
    assert!(parse(&format!("data{path}rw")).is_err());
}

#[test]
fn parse_share_accepts_every_documented_form() {
    let dir = tempdir().unwrap();
    let path = dir.path().display().to_string();

    let share = parse(&path).unwrap();
    assert!(!share.read_only);

    let share = parse(&format!("{path}:ro")).unwrap();
    assert!(share.read_only);

    let share = parse(&format!("data:{path}:rw")).unwrap();
    assert_eq!(share.name.as_str(), "data");
    assert!(!share.read_only);
}

#[test]
fn each_invalid_share_has_its_message() {
    let facts = disk(&[]);
    assert_eq!(
        parse_share("a:b:c:d", Some("/d"), &facts).unwrap_err(),
        "invalid share `a:b:c:d`, expected PATH, PATH:(ro|rw), or NAME:PATH:(ro|rw)"
    );
    assert_eq!(
        parse_share("a:x", Some("/d"), &facts).unwrap_err(),
        "invalid mode `x`, expected `ro` or `rw`"
    );
    assert_eq!(
        parse_share("a", None, &facts).unwrap_err(),
        "could not make path absolute"
    );
    assert_eq!(
        parse_share("-n:a:ro", Some("/d"), &facts).unwrap_err(),
        "invalid share name must not start with `-`"
    );
    assert_eq!(
        parse_share("n:a:ro", Some("/d"), &facts).unwrap_err(),
        "host_dir: Path `/d` does not exist or is not a directory\n"
    );
}

#[test]
fn a_share_is_named_after_its_directory() {
    let facts = Disk {
        files: vec![],
        directories: vec!["/".to_string(), "/home/me/my project".to_string()],
    };
    let share = parse_share(".", Some("/home/me/my project"), &facts).unwrap();
    assert_eq!(share.name.as_str(), "my-project");
    assert_eq!(share.host_dir, "/home/me/my project");
    let share = parse_share("/", Some("/"), &facts).unwrap();
    assert_eq!(share.name.as_str().len(), 16);
}

#[test]
fn overriding_shares_win_by_name() {
    let base = vec![named_share("data", "/from/config", true)];
    let merged = merge_by_name(Some(&base), vec![named_share("data", "/from/cli", false)]);

    assert_eq!(merged.len(), 1);
    assert_eq!(merged[0].host_dir, "/from/cli");
    assert!(!merged[0].read_only);
}

#[test]
fn merged_shares_are_ordered_deterministically() {
    let base = vec![
        named_share("zulu", "/z", false),
        named_share("alpha", "/a", false),
        named_share("mike", "/m", false),
    ];
    let merged = merge_by_name(Some(&base), vec![named_share("bravo", "/b", false)]);
    let names: Vec<&str> = merged.iter().map(|s| s.name.as_str()).collect();

    assert_eq!(names, ["alpha", "bravo", "mike", "zulu"]);
}

#[test]
fn merging_without_a_base_keeps_the_overrides() {
    let merged = merge_by_name(None, vec![named_share("data", "/from/cli", false)]);

    assert_eq!(merged.len(), 1);
    assert_eq!(merged[0].name.as_str(), "data");
}

#[test]
fn of_two_shares_with_one_name_the_last_one_stays() {
    let base = vec![named_share("a", "/1", false), named_share("a", "/2", true)];
    let merged = merge_by_name(
        Some(&base),
        vec![named_share("b", "/3", false), named_share("b", "/4", true)],
    );
    assert_eq!(merged.len(), 2);
    assert_eq!(merged[0].host_dir, "/2");
    assert_eq!(merged[1].host_dir, "/4");
}

#[test]
fn layers_stack() {
    let global = vec![named_share("a", "/g", false), named_share("b", "/g", false)];
    let project = vec![named_share("b", "/p", false), named_share("c", "/p", false)];
    let cli = vec![named_share("c", "/c", false)];
    let two = merge_by_name(Some(&global), project.clone());
    let stepwise = merge_by_name(Some(&two), cli.clone());
    let mut all = global.clone();
    all.extend(project);
    let at_once = merge_by_name(Some(&all), cli);
    let seen = |shares: &Vec<FsShare>| -> Vec<(String, String)> {
        shares.iter().map(|s| (s.name.as_str().to_string(), s.host_dir.clone())).collect()
    };
    assert_eq!(seen(&stepwise), seen(&at_once));
    assert_eq!(
        seen(&stepwise),
        vec![
            ("a".to_string(), "/g".to_string()),
            ("b".to_string(), "/p".to_string()),
            ("c".to_string(), "/c".to_string()),
        ]
    );
}

#[test]
fn fs_share_valid_with_no_subpaths() {
    let tmp = tempdir().unwrap();
    let host_dir = tmp.path().canonicalize().unwrap();

    let s = share(text(&host_dir), vec![], vec![]);
    assert!(s.validate(&disk(&[&host_dir])).is_ok());
}

#[test]
fn fs_share_valid_with_nested_subpaths() {
    let tmp = tempdir().unwrap();
    let host_dir = tmp.path().canonicalize().unwrap();
    let ro = create_dir(&host_dir, "configs");
    let hidden = create_dir(&host_dir, "secrets");

    let s = share(text(&host_dir), vec![text(ro.path())], vec![text(hidden.path())]);
    assert!(s.validate(&disk(&[&host_dir])).is_ok());
}

#[test]
fn fs_share_valid_with_deeply_nested_subpath() {
    let tmp = tempdir().unwrap();
    let host_dir = tmp.path().canonicalize().unwrap();
    let a = create_dir(&host_dir, "a");
    let b = create_dir(a.path(), "b");
    let deep = create_dir(b.path(), "c");

    let s = share(text(&host_dir), vec![text(deep.path())], vec![]);
    assert!(s.validate(&disk(&[&host_dir])).is_ok());
}

#[test]
fn fs_share_rejects_missing_host_dir() {
    let tmp = tempdir().unwrap();
    let missing = tmp.path().join("does-not-exist");

    let s = share(text(&missing), vec![], vec![]);
    let report = s.validate(&disk(&[&missing])).unwrap_err();
    assert!(fields(&report).contains(&"host_dir".to_string()));
}

#[test]
fn fs_share_rejects_read_only_path_outside_host_dir() {
    let base = tempdir().unwrap();
    let host_dir = create_dir(base.path(), "share");
    let outside = create_dir(base.path(), "elsewhere");
    let host_dir = host_dir.path().canonicalize().unwrap();
    let outside = outside.path().canonicalize().unwrap();

    let s = share(text(&host_dir), vec![text(&outside)], vec![]);
    let report = s.validate(&disk(&[&host_dir])).unwrap_err();
    assert!(fields(&report).contains(&"read_only_paths[0]".to_string()));
}

#[test]
fn fs_share_rejects_hidden_path_outside_host_dir() {
    let base = tempdir().unwrap();
    let host_dir = create_dir(base.path(), "share");
    let outside = create_dir(base.path(), "elsewhere");
    let host_dir = host_dir.path().canonicalize().unwrap();
    let outside = outside.path().canonicalize().unwrap();

    let s = share(text(&host_dir), vec![], vec![text(&outside)]);
    let report = s.validate(&disk(&[&host_dir])).unwrap_err();
    assert!(fields(&report).contains(&"hidden_paths[0]".to_string()));
}

#[test]
fn fs_share_rejects_sibling_dir_with_shared_prefix() {
    // A path lies inside another one component by component: /base/share2 is not inside
    // /base/share
    let base = tempdir().unwrap();
    let host_dir = create_dir(base.path(), "share");
    let sibling = create_dir(base.path(), "share2");
    let host_dir = host_dir.path().canonicalize().unwrap();
    let sibling = sibling.path().canonicalize().unwrap();

    let s = share(text(&host_dir), vec![text(&sibling)], vec![]);
    let report = s.validate(&disk(&[&host_dir])).unwrap_err();
    assert!(fields(&report).contains(&"read_only_paths[0]".to_string()));
}

#[test]
fn fs_share_rejects_host_dir_itself_as_hidden_path() {
    let tmp = tempdir().unwrap();
    let host_dir = tmp.path().canonicalize().unwrap();

    // This would hide the whole share
    let s = share(text(&host_dir), vec![], vec![text(&host_dir)]);
    let report = s.validate(&disk(&[&host_dir])).unwrap_err();
    assert!(fields(&report).contains(&"hidden_paths[0]".to_string()));
}

#[test]
fn fs_share_reports_one_error_per_bad_path() {
    let base = tempdir().unwrap();
    let host_dir = create_dir(base.path(), "share");
    let outside_a = create_dir(base.path(), "outside-a");
    let outside_b = create_dir(base.path(), "outside-b");
    let host_dir = host_dir.path().canonicalize().unwrap();
    let outside_a = outside_a.path().canonicalize().unwrap();
    let outside_b = outside_b.path().canonicalize().unwrap();

    let s = share(text(&host_dir), vec![text(&outside_a)], vec![text(&outside_b)]);
    let report = s.validate(&disk(&[&host_dir])).unwrap_err();

    assert_eq!(report.iter().count(), 2);
    assert!(fields(&report).contains(&"read_only_paths[0]".to_string()));
    assert!(fields(&report).contains(&"hidden_paths[0]".to_string()));
}

#[test]
fn fs_share_errors_nest_correctly_through_a_vec_of_shares() {
    let base = tempdir().unwrap();
    let good_host = create_dir(base.path(), "good");
    let bad_host = create_dir(base.path(), "bad");
    let outside = create_dir(base.path(), "outside");

    let good_host = good_host.path().canonicalize().unwrap();
    let bad_host = bad_host.path().canonicalize().unwrap();
    let good = share(text(&good_host), vec![], vec![]);
    let bad = share(
        text(&bad_host),
        vec![text(&outside.path().canonicalize().unwrap())],
        vec![],
    );

    let shares = vec![good, bad];
    let report = validate_shares(&shares, &disk(&[&good_host, &bad_host])).unwrap_err();

    assert_eq!(fields(&report), vec!["[1].read_only_paths[0]".to_string()]);
}

#[test]
fn a_path_outside_a_share_has_its_message() {
    let facts = Disk { files: vec![], directories: vec!["/s".to_string()] };
    let s = share("/s".to_string(), vec!["/s/a".to_string(), "/x".to_string()], vec![]);
    let report = s.validate(&facts).unwrap_err();
    assert_eq!(report.to_string(), "read_only_paths[1]: /x is not inside host_dir /s\n");
    assert!(validate_shares(&vec![], &facts).is_ok());
}

fn valid_config() -> Config {
    Config {
        name: Name::new("box").unwrap(),
        kernel: "/k".to_string(),
        kernel_cmdline: "quiet".to_string(),
        rootfs: "/r".to_string(),
        rootfs_type: RootfsType::default(),
        memory_mb: 512,
        cpus: 1,
        shares: None,
        guest_uid: default_guest_uid_gid(),
        inherit_shares: false,
        guest_gid: default_guest_uid_gid(),
        dns: None,
        network: Network::default(),
        hypervisor: HypervisorType::default(),
        cloud_hypervisor: None,
        qemu: None,
        passt: None,
        virtiofsd: None,
    }
}

/// What is wrong with a configuration, in words.
fn errors(config: Config) -> String {
    let facts = Disk {
        files: vec!["/k".to_string(), "/r".to_string()],
        directories: vec![],
    };
    match (blinools::config::Config { sandbox: Some(config) }).validate(&facts) {
        Ok(()) => String::new(),
        Err(report) => report.to_string(),
    }
}

#[test]
fn every_field_of_a_configuration_is_validated() {
    assert_eq!(errors(valid_config()), "");
    assert_eq!(
        errors(Config { kernel: "/x".to_string(), ..valid_config() }),
        "sandbox.kernel: Path `/x` does not exist or is not a file\n"
    );
    assert_eq!(
        errors(Config { kernel_cmdline: "a console=b".to_string(), ..valid_config() }),
        "sandbox.kernel_cmdline: Kernel command line parameters must not configure `console`. `console` is hardcoded to `hvc0` and cannot be changed.\n"
    );
    assert_eq!(
        errors(Config { kernel_cmdline: "root=b".to_string(), ..valid_config() }),
        "sandbox.kernel_cmdline: Kernel command line parameters must not configure `root`. `root` is hardcoded to `/dev/vda` and cannot be changed.\n"
    );
    assert_eq!(
        errors(Config { rootfs: "/x".to_string(), ..valid_config() }),
        "sandbox.rootfs: Path `/x` does not exist or is not a file\n"
    );
    assert_eq!(
        errors(Config { memory_mb: 511, ..valid_config() }),
        "sandbox.memory_mb: lower than 512\n"
    );
    assert_eq!(errors(Config { memory_mb: 131072, ..valid_config() }), "");
    assert_eq!(
        errors(Config { memory_mb: 131073, ..valid_config() }),
        "sandbox.memory_mb: greater than 131072\n"
    );
    assert_eq!(errors(Config { cpus: 0, ..valid_config() }), "sandbox.cpus: lower than 1\n");
    assert_eq!(errors(Config { cpus: 255, ..valid_config() }), "");
    assert_eq!(
        errors(Config {
            shares: Some(vec![named_share("a", "/d", false)]),
            ..valid_config()
        }),
        "sandbox.shares[0].host_dir: Path `/d` does not exist or is not a directory\n"
    );
    assert_eq!(
        errors(Config {
            dns: Some(vec!["192.168.1.1".to_string(), "::1".to_string(), "host".to_string()]),
            ..valid_config()
        }),
        "sandbox.dns[2]: not a valid IP address\n"
    );
    for (field, config) in [
        ("cloud_hypervisor", Config {
            cloud_hypervisor: Some(BinaryConfig { binary: Some("/b".to_string()) }),
            ..valid_config()
        }),
        ("qemu", Config {
            qemu: Some(BinaryConfig { binary: Some("/b".to_string()) }),
            ..valid_config()
        }),
        ("passt", Config {
            passt: Some(BinaryConfig { binary: Some("/b".to_string()) }),
            ..valid_config()
        }),
        ("virtiofsd", Config {
            virtiofsd: Some(BinaryConfig { binary: Some("/b".to_string()) }),
            ..valid_config()
        }),
    ] {
        assert_eq!(
            errors(config),
            format!("sandbox.{field}.binary: Path `/b` does not exist or is not a file\n")
        );
    }
}

#[test]
fn errors_come_in_the_order_of_the_fields() {
    assert_eq!(
        errors(Config {
            kernel: "/x".to_string(),
            cpus: 0,
            memory_mb: 1,
            passt: Some(BinaryConfig { binary: None }),
            ..valid_config()
        }),
        "sandbox.kernel: Path `/x` does not exist or is not a file\nsandbox.memory_mb: lower than 512\nsandbox.cpus: lower than 1\n"
    );
}

#[test]
fn defaults_are_documented_ones() {
    assert_eq!(default_guest_uid_gid(), 1000);
    assert_eq!(RootfsType::default().as_str(), "raw");
    assert_eq!(RootfsType::QCOW2.as_str(), "qcow2");
    assert_eq!(default_sandbox_name(Some("/home/me/my project")).as_str(), "my-project");
    for current_dir in [Some("/"), Some("/..."), None] {
        let name = default_sandbox_name(current_dir);
        assert_eq!(name.as_str().len(), 16);
        assert!(name.as_str().bytes().all(|byte| byte.is_ascii_alphanumeric()));
    }
}

#[test]
fn paths_are_those_of_the_system() {
    let samples = [
        "", "/", "a", "/a", "a/", "/a/b", "/a//b/", "/a/./b", "./a", "a/.", "..", "/a/..", ".",
        "/a b/c.d", "//",
    ];
    for a in samples {
        let path = Path::new(a);
        assert_eq!(
            paths::last_component(a),
            path.file_name().map(|name| name.to_str().unwrap().to_string())
        );
        for b in samples {
            let other = Path::new(b);
            assert_eq!(paths::joined_path(a, b), path.join(other).display().to_string());
            assert_eq!(paths::starts_with(a, b), path.starts_with(other), "{a} {b}");
            assert_eq!(paths::same_path(a, b), path == other, "{a} {b}");
        }
    }
}
