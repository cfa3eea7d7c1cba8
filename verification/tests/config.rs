//! Where things are, and what the configuration files say.
use std::io::Write;
use std::path::{Path, PathBuf};

use blinools::config::{
    config_dir, config_files, omits_shares, parse_config, parse_config_with, project_file,
    runtime_dir, setup_dirs, share_sources, sources, state_dir, Config, DirPlan, Environment,
    ParseError, Readings, SharesRead, CONFIG_FILE_NAME, DIRECTORY_MODE,
};
use blinools::sandbox::config::{
    default_guest_uid_gid, default_sandbox_name, Disk, FsShare, HypervisorType, Network,
    RootfsType,
};
use blinools::sandbox::name::Name;
use tempfile::{tempdir, NamedTempFile, TempDir};

/// The files and directories of a test, which are gone with it.
struct Fixture {
    root: TempDir,
    files: Vec<NamedTempFile>,
    directories: Vec<TempDir>,
}

impl Fixture {
    fn new() -> Self {
        Fixture { root: tempdir().unwrap(), files: Vec::new(), directories: Vec::new() }
    }

    fn write(&mut self, name: &str, body: &str) -> PathBuf {
        let mut file = tempfile::Builder::new()
            .prefix(name)
            .rand_bytes(0)
            .tempfile_in(self.root.path())
            .unwrap();
        file.write_all(body.as_bytes()).unwrap();
        file.flush().unwrap();
        let path = file.path().to_path_buf();
        self.files.push(file);
        path
    }

    fn base_config(&mut self) -> String {
        let kernel = self.write("kernel", "kernel");
        let rootfs = self.write("rootfs.img", "rootfs");

        format!(
            "[sandbox]\nkernel = \"{}\"\nrootfs = \"{}\"\nmemory_mb = 512\ncpus = 1\n",
            kernel.display(),
            rootfs.display(),
        )
    }

    fn share_dir(&mut self, name: &str) -> PathBuf {
        let dir = tempfile::Builder::new()
            .prefix(name)
            .rand_bytes(0)
            .tempdir_in(self.root.path())
            .unwrap();
        let path = dir.path().canonicalize().unwrap();
        self.directories.push(dir);
        path
    }
}

fn share_entry(name: &str, host_dir: &Path) -> String {
    format!(
        "shares = [{{ name = \"{name}\", host_dir = \"{}\" }}]\n",
        host_dir.display(),
    )
}

fn shares(config: &Config) -> Vec<(String, PathBuf)> {
    config
        .sandbox
        .as_ref()
        .unwrap()
        .shares
        .iter()
        .flatten()
        .map(|share| (share.name.as_str().to_owned(), PathBuf::from(&share.host_dir)))
        .collect()
}

fn absolute(path: &str) -> Result<String, String> {
    match Path::new(path).canonicalize() {
        Ok(path) => Ok(path.display().to_string()),
        Err(error) => Err(error.to_string()),
    }
}

fn read_shares(values: Vec<config::Value>) -> Result<Vec<FsShare>, String> {
    let mut shares = Vec::new();
    for value in values {
        let table = value.into_table().map_err(|error| error.to_string())?;
        let field = |name: &str| -> Result<String, String> {
            match table.get(name) {
                Some(value) => value.clone().into_string().map_err(|error| error.to_string()),
                None => Err(format!("missing {name}")),
            }
        };
        shares.push(FsShare {
            host_dir: absolute(&field("host_dir")?)?,
            name: Name::new(&field("name")?)?,
            read_only: false,
            read_only_paths: Vec::new(),
            hidden_paths: Vec::new(),
        });
    }
    Ok(shares)
}

fn load(files: &[(String, bool)]) -> Result<config::Config, String> {
    let mut builder = config::Config::builder();
    for (path, required) in files {
        builder = builder.add_source(config::File::from(PathBuf::from(path)).required(*required));
    }
    builder.build().map_err(|error| error.to_string())
}

fn read_config(files: &[(String, bool)], omits_shares: bool) -> Result<Config, String> {
    let read = load(files)?;
    if read.get_table("sandbox").is_err() {
        return Ok(Config { sandbox: None });
    }
    let shares = match read.get_array("sandbox.shares") {
        Ok(values) if !omits_shares => Some(read_shares(values)?),
        _ => None,
    };
    let text = |key: &str| read.get_string(key).map_err(|error| error.to_string());
    Ok(Config {
        sandbox: Some(blinools::sandbox::config::Config {
            name: default_sandbox_name(None),
            kernel: absolute(&text("sandbox.kernel")?)?,
            kernel_cmdline: String::new(),
            rootfs: absolute(&text("sandbox.rootfs")?)?,
            rootfs_type: RootfsType::default(),
            memory_mb: read.get::<u64>("sandbox.memory_mb").map_err(|error| error.to_string())?,
            cpus: read.get::<u8>("sandbox.cpus").map_err(|error| error.to_string())?,
            shares,
            guest_uid: default_guest_uid_gid(),
            inherit_shares: read.get_bool("sandbox.inherit_shares").unwrap_or(false),
            guest_gid: default_guest_uid_gid(),
            dns: None,
            network: Network::default(),
            hypervisor: HypervisorType::default(),
            cloud_hypervisor: None,
            qemu: None,
            passt: None,
            virtiofsd: None,
        }),
    })
}

fn read_shares_of(path: &str, required: bool) -> SharesRead {
    match load(&[(path.to_string(), required)]) {
        Err(message) => SharesRead::Unreadable(message),
        Ok(read) => match read.get_array("sandbox.shares") {
            Ok(values) => match read_shares(values) {
                Ok(shares) => SharesRead::Found(shares),
                Err(message) => SharesRead::Malformed(message),
            },
            Err(config::ConfigError::NotFound(_)) => SharesRead::Missing,
            Err(error) => SharesRead::Malformed(error.to_string()),
        },
    }
}

/// Reads the files that the library asks for, and hands it what they say.
fn parse(global: Option<&Path>, project: Option<&str>) -> Result<Config, ParseError> {
    let global = global.map(|path| path.display().to_string());
    let files: Vec<(String, bool)> = sources(global.as_deref(), project)
        .into_iter()
        .map(|source| (source.path, source.required))
        .collect();
    // The shares of the project's file replace the global ones, so broken global ones do not
    // matter unless they are asked for
    let mentions_shares = match project.map(|path| load(&[(path.to_string(), true)])) {
        Some(Ok(read)) => read.get_array("sandbox.shares").is_ok(),
        _ => false,
    };
    let merged =
        read_config(&files, omits_shares(global.as_deref(), project, mentions_shares));
    let mut readings = Readings {
        merged,
        global_shares: SharesRead::Unreadable("not read".to_string()),
        project_shares: SharesRead::Unreadable("not read".to_string()),
    };
    let mut disk = Disk { files: Vec::new(), directories: Vec::new() };
    if let Ok(config) = &readings.merged {
        for source in share_sources(global.as_deref(), project, config) {
            let read = read_shares_of(&source.path, source.required);
            if source.required {
                readings.project_shares = read;
            } else {
                readings.global_shares = read;
            }
        }
        if let Some(sandbox) = &config.sandbox {
            for path in [&sandbox.kernel, &sandbox.rootfs] {
                if Path::new(path).is_file() {
                    disk.files.push(path.clone());
                }
            }
            for share in sandbox.shares.iter().flatten() {
                if Path::new(&share.host_dir).is_dir() {
                    disk.directories.push(share.host_dir.clone());
                }
            }
        }
    }
    for read in [&readings.global_shares, &readings.project_shares] {
        if let SharesRead::Found(shares) = read {
            for share in shares {
                if Path::new(&share.host_dir).is_dir() {
                    disk.directories.push(share.host_dir.clone());
                }
            }
        }
    }
    parse_config_with(global.as_deref(), project, readings, &disk)
}

fn parsed(global: Option<&Path>, project: Option<&str>) -> Config {
    match parse(global, project) {
        Ok(config) => config,
        Err(ParseError::Reading(message)) => panic!("reading: {message}"),
        Err(ParseError::Shares(message)) => panic!("shares: {message}"),
        Err(ParseError::Invalid(report)) => panic!("invalid: {report}"),
    }
}

#[test]
fn the_local_config_file_is_used_when_it_exists() {
    let mut fixture = Fixture::new();
    let local = fixture.write(CONFIG_FILE_NAME, "");

    assert_eq!(
        project_file(None, local.to_str().unwrap(), local.exists()).as_deref(),
        local.to_str()
    );
}

#[test]
fn a_missing_local_config_file_is_skipped() {
    let tmp = tempdir().unwrap();
    let local = tmp.path().join(CONFIG_FILE_NAME);

    assert_eq!(project_file(None, local.to_str().unwrap(), local.exists()), None);
}

#[test]
fn the_config_flag_replaces_the_local_config_file() {
    let mut fixture = Fixture::new();
    let local = fixture.write(CONFIG_FILE_NAME, "");

    assert_eq!(
        project_file(Some("/somewhere/else.toml"), local.to_str().unwrap(), local.exists())
            .as_deref(),
        Some("/somewhere/else.toml")
    );
}

#[test]
fn global_shares_apply_without_a_config_file() {
    let mut fixture = Fixture::new();
    let data = fixture.share_dir("data");
    let body = format!("{}{}", fixture.base_config(), share_entry("data", &data));
    let global = fixture.write("global.toml", &body);

    let config = parsed(Some(&global), None);

    assert_eq!(shares(&config), [(String::from("data"), data)]);
}

#[test]
fn global_shares_apply_without_a_config_file_even_when_inheritance_is_on() {
    let mut fixture = Fixture::new();
    let data = fixture.share_dir("data");
    let body = format!(
        "{}inherit_shares = true\n{}",
        fixture.base_config(),
        share_entry("data", &data),
    );
    let global = fixture.write("global.toml", &body);

    let config = parsed(Some(&global), None);

    assert_eq!(shares(&config), [(String::from("data"), data)]);
}

#[test]
fn config_must_not_be_built_when_global_file_and_config_file_are_not_valid() {
    assert!(parsed(None, None).sandbox.is_none());
    assert!(parsed(Some(&PathBuf::new()), None).sandbox.is_none());
    assert!(parse(Some(&PathBuf::new()), Some("")).is_err());
    assert!(parse(Some(&PathBuf::new()), Some("i dont exist")).is_err());
}

#[test]
fn config_file_shares_replace_global_shares_by_default() {
    let mut fixture = Fixture::new();
    let global_dir = fixture.share_dir("from-global");
    let project_dir = fixture.share_dir("from-project");
    let base = fixture.base_config();
    let global =
        fixture.write("global.toml", &format!("{base}{}", share_entry("global", &global_dir)));
    let project =
        fixture.write("project.toml", &format!("{base}{}", share_entry("project", &project_dir)));

    let config = parsed(Some(&global), Some(&project.display().to_string()));

    assert_eq!(shares(&config), [(String::from("project"), project_dir)]);
}

#[test]
fn config_file_without_shares_drops_global_shares() {
    let mut fixture = Fixture::new();
    let global_dir = fixture.share_dir("from-global");
    let base = fixture.base_config();
    let global =
        fixture.write("global.toml", &format!("{base}{}", share_entry("global", &global_dir)));
    let project = fixture.write("project.toml", &base);

    let config = parsed(Some(&global), Some(&project.display().to_string()));

    assert!(shares(&config).is_empty());
}

#[test]
fn config_file_without_a_sandbox_section_drops_global_shares() {
    let mut fixture = Fixture::new();
    let global_dir = fixture.share_dir("from-global");
    let body = format!("{}{}", fixture.base_config(), share_entry("global", &global_dir));
    let global = fixture.write("global.toml", &body);
    let project = fixture.write("project.toml", "");

    let config = parsed(Some(&global), Some(&project.display().to_string()));

    assert!(shares(&config).is_empty());
}

#[test]
fn inherited_shares_are_merged_with_the_config_file_shares() {
    let mut fixture = Fixture::new();
    let global_dir = fixture.share_dir("from-global");
    let project_dir = fixture.share_dir("from-project");
    let base = fixture.base_config();
    let global =
        fixture.write("global.toml", &format!("{base}{}", share_entry("global", &global_dir)));
    let project = fixture.write(
        "project.toml",
        &format!("{base}inherit_shares = true\n{}", share_entry("project", &project_dir)),
    );

    let config = parsed(Some(&global), Some(&project.display().to_string()));

    assert_eq!(
        shares(&config),
        [
            (String::from("global"), global_dir),
            (String::from("project"), project_dir),
        ]
    );
}

#[test]
fn config_file_shares_win_over_inherited_shares_with_the_same_name() {
    let mut fixture = Fixture::new();
    let global_dir = fixture.share_dir("from-global");
    let project_dir = fixture.share_dir("from-project");
    let base = fixture.base_config();
    let global =
        fixture.write("global.toml", &format!("{base}{}", share_entry("data", &global_dir)));
    let project = fixture.write(
        "project.toml",
        &format!("{base}inherit_shares = true\n{}", share_entry("data", &project_dir)),
    );

    let config = parsed(Some(&global), Some(&project.display().to_string()));

    assert_eq!(shares(&config), [(String::from("data"), project_dir)]);
}

#[test]
fn inherit_shares_can_be_set_in_the_global_config() {
    let mut fixture = Fixture::new();
    let global_dir = fixture.share_dir("from-global");
    let project_dir = fixture.share_dir("from-project");
    let base = fixture.base_config();
    let global = fixture.write(
        "global.toml",
        &format!("{base}inherit_shares = true\n{}", share_entry("global", &global_dir)),
    );
    let project =
        fixture.write("project.toml", &format!("{base}{}", share_entry("project", &project_dir)));

    let config = parsed(Some(&global), Some(&project.display().to_string()));

    assert_eq!(
        shares(&config),
        [
            (String::from("global"), global_dir),
            (String::from("project"), project_dir),
        ]
    );
}

#[test]
fn config_file_inherit_shares_overrides_the_global_one() {
    let mut fixture = Fixture::new();
    let global_dir = fixture.share_dir("from-global");
    let project_dir = fixture.share_dir("from-project");
    let base = fixture.base_config();
    let global = fixture.write(
        "global.toml",
        &format!("{base}inherit_shares = true\n{}", share_entry("global", &global_dir)),
    );
    let project = fixture.write(
        "project.toml",
        &format!("{base}inherit_shares = false\n{}", share_entry("project", &project_dir)),
    );

    let config = parsed(Some(&global), Some(&project.display().to_string()));

    assert_eq!(shares(&config), [(String::from("project"), project_dir)]);
}

#[test]
fn global_shares_are_not_read_when_inheritance_is_off() {
    let mut fixture = Fixture::new();
    let missing = fixture.root.path().join("deleted");
    let project_dir = fixture.share_dir("from-project");
    let base = fixture.base_config();
    let global =
        fixture.write("global.toml", &format!("{base}{}", share_entry("global", &missing)));
    let project =
        fixture.write("project.toml", &format!("{base}{}", share_entry("project", &project_dir)));

    let config = parsed(Some(&global), Some(&project.display().to_string()));

    assert_eq!(shares(&config), [(String::from("project"), project_dir)]);
}

#[test]
fn a_broken_global_share_does_not_matter_to_a_project_without_shares() {
    let mut fixture = Fixture::new();
    let missing = fixture.root.path().join("deleted");
    let base = fixture.base_config();
    let global =
        fixture.write("global.toml", &format!("{base}{}", share_entry("global", &missing)));
    let project = fixture.write("project.toml", &base);

    assert!(shares(&parsed(Some(&global), Some(&project.display().to_string()))).is_empty());

    let inheriting = fixture.write("inheriting.toml", &format!("{base}inherit_shares = true\n"));
    assert!(parse(Some(&global), Some(&inheriting.display().to_string())).is_err());
    assert!(parse(Some(&global), None).is_err());
    assert!(!omits_shares(Some("g"), Some("p"), true));
    assert!(!omits_shares(None, Some("p"), false));
    assert!(!omits_shares(Some("g"), None, false));
}

fn environment() -> Environment {
    Environment {
        xdg_runtime_dir: None,
        xdg_state_home: None,
        xdg_config_home: None,
        home: Some("/tmp/home".to_string()),
        uid: 1000,
    }
}

#[test]
fn runtime_dir_uses_xdg_runtime_dir_when_set() {
    let environment =
        Environment { xdg_runtime_dir: Some("/tmp/xrd".to_string()), ..environment() };
    assert_eq!(runtime_dir(&environment), "/tmp/xrd/blinools");
}

#[test]
fn runtime_dir_falls_back_when_var_empty() {
    let environment = Environment { xdg_runtime_dir: Some(String::new()), ..environment() };
    let uid = environment.uid;
    assert_eq!(runtime_dir(&environment), format!("/run/user/{uid}/blinools"));
}

#[test]
fn runtime_dir_falls_back_when_var_unset() {
    let environment = Environment { uid: 0, ..environment() };
    assert_eq!(runtime_dir(&environment), "/run/user/0/blinools");
}

#[test]
fn state_dir_uses_xdg_state_home_when_set() {
    let environment =
        Environment { xdg_state_home: Some("/tmp/xsh".to_string()), ..environment() };
    assert_eq!(state_dir(&environment).unwrap(), "/tmp/xsh/blinools");
}

#[test]
fn state_dir_falls_back_to_home_when_var_empty() {
    let environment = Environment { xdg_state_home: Some(String::new()), ..environment() };
    assert_eq!(state_dir(&environment).unwrap(), "/tmp/home/.local/state/blinools");
}

#[test]
fn state_dir_falls_back_to_home_when_var_unset() {
    assert_eq!(state_dir(&environment()).unwrap(), "/tmp/home/.local/state/blinools");
}

#[test]
fn state_dir_still_returns_when_nothing_available() {
    // Without HOME the home directory is looked up in the user database
    let environment = Environment { home: Some("/root".to_string()), ..environment() };
    assert!(state_dir(&environment).is_ok());
}

#[test]
fn config_dir_uses_xdg_config_home_when_set() {
    let environment =
        Environment { xdg_config_home: Some("/tmp/xch".to_string()), ..environment() };
    assert_eq!(config_dir(&environment), Some("/tmp/xch/blinools".to_string()));
}

#[test]
fn config_dir_falls_back_to_home_when_var_empty() {
    let environment = Environment { xdg_config_home: Some(String::new()), ..environment() };
    assert_eq!(config_dir(&environment), Some("/tmp/home/.config/blinools".to_string()));
}

#[test]
fn config_dir_falls_back_to_home_when_var_unset() {
    assert_eq!(config_dir(&environment()), Some("/tmp/home/.config/blinools".to_string()));
}

#[test]
fn config_dir_still_returns_when_nothing_available() {
    // Without HOME the home directory is looked up in the user database
    let environment = Environment { home: Some("/root".to_string()), ..environment() };
    assert!(config_dir(&environment).is_some());
}

#[test]
fn without_a_home_there_is_no_place_for_state_and_configuration() {
    let environment = Environment { home: None, ..environment() };
    assert_eq!(
        state_dir(&environment).unwrap_err(),
        "locating state directory with XDG_STATE_HOME or HOME/.local/state"
    );
    assert_eq!(config_dir(&environment), None);
    let plan = setup_dirs(&environment);
    assert_eq!(plan.create.len(), 1);
    assert_eq!(
        plan.error.as_deref(),
        Some("locating state directory with XDG_STATE_HOME or HOME/.local/state")
    );
}

#[test]
fn setup_dirs_creates_runtime_and_state_with_0700() {
    let plan = setup_dirs(&Environment {
        xdg_runtime_dir: Some("/tmp/t/runtime".to_string()),
        xdg_state_home: Some("/tmp/t/state".to_string()),
        ..environment()
    });
    let created: Vec<(&str, u32, &str)> = plan
        .create
        .iter()
        .map(|dir| (dir.path.as_str(), dir.mode, dir.context.as_str()))
        .collect();
    assert_eq!(
        created,
        [
            ("/tmp/t/runtime/blinools", 0o700, "creating runtime directory"),
            ("/tmp/t/state/blinools", 0o700, "creating state directory"),
        ]
    );
    assert_eq!(DIRECTORY_MODE, 0o700);
    assert!(plan.error.is_none());
}

#[test]
fn setup_dirs_is_idempotent() {
    let environment = Environment {
        xdg_runtime_dir: Some("/tmp/t/runtime".to_string()),
        xdg_state_home: Some("/tmp/t/state".to_string()),
        ..environment()
    };
    let paths = |plan: DirPlan| -> Vec<(String, u32)> {
        plan.create.into_iter().map(|dir| (dir.path, dir.mode)).collect()
    };
    let expected = vec![
        ("/tmp/t/runtime/blinools".to_string(), 0o700),
        ("/tmp/t/state/blinools".to_string(), 0o700),
    ];
    assert_eq!(paths(setup_dirs(&environment)), expected);
    assert_eq!(paths(setup_dirs(&environment)), expected);
}

#[test]
fn setup_dirs_does_not_create_config_dir() {
    let plan = setup_dirs(&Environment {
        xdg_runtime_dir: Some("/tmp/t/runtime".to_string()),
        xdg_state_home: Some("/tmp/t/state".to_string()),
        xdg_config_home: Some("/tmp/t/config".to_string()),
        ..environment()
    });
    assert!(plan.create.iter().all(|dir| dir.path != "/tmp/t/config/blinools"));
}

#[test]
fn the_configuration_files_are_found() {
    let files = config_files(None, &environment(), true);
    assert_eq!(files.global.as_deref(), Some("/tmp/home/.config/blinools/blinools.toml"));
    assert_eq!(files.project.as_deref(), Some("blinools.toml"));
    let files = config_files(Some("other.toml"), &environment(), true);
    assert_eq!(files.project.as_deref(), Some("other.toml"));
    let files = config_files(None, &Environment { home: None, ..environment() }, false);
    assert!(files.global.is_none());
    assert!(files.project.is_none());
}

#[test]
fn each_failure_is_told_apart() {
    let readings = |merged: Result<Config, String>| Readings {
        merged,
        global_shares: SharesRead::Missing,
        project_shares: SharesRead::Malformed("odd".to_string()),
    };
    let disk = Disk { files: Vec::new(), directories: Vec::new() };
    assert!(matches!(
        parse_config(None, &environment(), true, readings(Err("no".to_string())), &disk),
        Err(ParseError::Reading(message)) if message == "no"
    ));
    assert!(parse_config(
        None,
        &environment(),
        true,
        readings(Ok(Config { sandbox: None })),
        &disk
    )
    .is_ok());

    let mut fixture = Fixture::new();
    let body = fixture.base_config();
    let path = fixture.write("c.toml", &body).display().to_string();
    let config = || read_config(&[(path.clone(), true)], false);
    assert!(matches!(
        parse_config(Some("c.toml"), &environment(), false, readings(config()), &disk),
        Err(ParseError::Shares(message)) if message == "odd"
    ));
    // Without a project file the shares are not resolved, and what is left is not valid
    assert!(matches!(
        parse_config(None, &environment(), false, readings(config()), &disk),
        Err(ParseError::Invalid(report)) if report.iter().count() == 2
    ));
}
