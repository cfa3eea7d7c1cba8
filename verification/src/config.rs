//! Where blinools keeps its files, and what its configuration files say.
use vstd::prelude::*;
use vstd::string::*;

use crate::paths;
use crate::sandbox;
use crate::sandbox::config::{merge_by_name, Disk, FsShare};
use crate::sandbox::validation;
use crate::text;

verus! {

/// The name of a configuration file.
pub const CONFIG_FILE_NAME: &'static str = "blinools.toml";

/// Who may use the directories that are set up: their owner.
pub const DIRECTORY_MODE: u32 = 0o700;

/// What is known of the user.
pub struct Environment {
    pub xdg_runtime_dir: Option<String>,
    pub xdg_state_home: Option<String>,
    pub xdg_config_home: Option<String>,
    pub home: Option<String>,
    pub uid: u32,
}

/// A variable that is set to something.
pub open spec fn given(variable: Option<String>) -> Option<Seq<char>> {
    match variable {
        Some(value) => if value@.len() > 0 {
            Some(value@)
        } else {
            None
        },
        None => None,
    }
}

/// The directory for what lives as long as the user is logged in.
pub open spec fn runtime_path(environment: &Environment) -> Seq<char> {
    let base = match given(environment.xdg_runtime_dir) {
        Some(path) => path,
        None => paths::join("/run/user"@, text::decimal(environment.uid as nat)),
    };
    paths::join(base, "blinools"@)
}

/// The directory for what stays.
pub open spec fn state_path(environment: &Environment) -> Option<Seq<char>> {
    match given(environment.xdg_state_home) {
        Some(path) => Some(paths::join(path, "blinools"@)),
        None => match environment.home {
            Some(home) => Some(
                paths::join(paths::join(paths::join(home@, ".local"@), "state"@), "blinools"@),
            ),
            None => None,
        },
    }
}

/// The directory of the global configuration.
pub open spec fn config_path(environment: &Environment) -> Option<Seq<char>> {
    match given(environment.xdg_config_home) {
        Some(path) => Some(paths::join(path, "blinools"@)),
        None => match environment.home {
            Some(home) => Some(paths::join(paths::join(home@, ".config"@), "blinools"@)),
            None => None,
        },
    }
}

/// Tells whether a variable is set to something.
fn is_given(variable: &Option<String>) -> (result: bool)
    ensures
        result == (given(*variable) is Some),
        result ==> variable is Some && given(*variable) == Some(variable.unwrap()@),
{
    match variable {
        Some(value) => !value.as_str().is_empty(),
        None => false,
    }
}

/// The directory for what lives as long as the user is logged in.
pub fn runtime_dir(environment: &Environment) -> (path: String)
    ensures
        path@ == runtime_path(environment),
{
    if is_given(&environment.xdg_runtime_dir) {
        if let Some(base) = &environment.xdg_runtime_dir {
            return paths::joined_path(base.as_str(), "blinools");
        }
    }
    let uid: String = text::decimal_string(environment.uid as u64);
    let base: String = paths::joined_path("/run/user", uid.as_str());
    paths::joined_path(base.as_str(), "blinools")
}

/// The directory for what stays.
pub fn state_dir(environment: &Environment) -> (result: Result<String, String>)
    ensures
        match result {
            Ok(path) => state_path(environment) == Some(path@),
            Err(message) => {
                &&& state_path(environment) is None
                &&& message@
                    == "locating state directory with XDG_STATE_HOME or HOME/.local/state"@
            },
        },
{
    if is_given(&environment.xdg_state_home) {
        if let Some(base) = &environment.xdg_state_home {
            return Ok(paths::joined_path(base.as_str(), "blinools"));
        }
    }
    match &environment.home {
        Some(home) => {
            let local: String = paths::joined_path(home.as_str(), ".local");
            let state: String = paths::joined_path(local.as_str(), "state");
            Ok(paths::joined_path(state.as_str(), "blinools"))
        },
        None => Err(
            "locating state directory with XDG_STATE_HOME or HOME/.local/state".to_owned(),
        ),
    }
}

/// The directory of the global configuration.
pub fn config_dir(environment: &Environment) -> (path: Option<String>)
    ensures
        match path {
            Some(path) => config_path(environment) == Some(path@),
            None => config_path(environment) is None,
        },
{
    if is_given(&environment.xdg_config_home) {
        if let Some(base) = &environment.xdg_config_home {
            return Some(paths::joined_path(base.as_str(), "blinools"));
        }
    }
    match &environment.home {
        Some(home) => {
            let config: String = paths::joined_path(home.as_str(), ".config");
            Some(paths::joined_path(config.as_str(), "blinools"))
        },
        None => None,
    }
}

/// A directory that has to be there, with its parents.
pub struct NewDir {
    pub path: String,
    pub mode: u32,
    /// What is being done, for the message if it fails.
    pub context: String,
}

/// The directories to create, in this order, and why there cannot be more.
pub struct DirPlan {
    pub create: Vec<NewDir>,
    pub error: Option<String>,
}

/// The directories that blinools needs before it does anything.
pub open spec fn needed_dirs(environment: &Environment) -> Seq<Seq<char>> {
    match state_path(environment) {
        Some(path) => seq![runtime_path(environment), path],
        None => seq![runtime_path(environment)],
    }
}

/// The paths of directories to create.
pub open spec fn new_paths(dirs: Seq<NewDir>) -> Seq<Seq<char>> {
    dirs.map_values(|dir: NewDir| dir.path@)
}

/// The directories that are there, of those that were there before, once these are created.
/// One that is there already stays.
pub open spec fn with_dirs(existing: Set<Seq<char>>, dirs: Seq<Seq<char>>) -> Set<Seq<char>> {
    existing.union(dirs.to_set())
}

/// Plans the directories that blinools needs before it does anything.
pub fn setup_dirs(environment: &Environment) -> (plan: DirPlan)
    ensures
        new_paths(plan.create@) == needed_dirs(environment),
        plan.create@.len() == (if state_path(environment) is Some { 2int } else { 1 }),
        plan.create@[0].path@ == runtime_path(environment),
        plan.create@[0].context@ == "creating runtime directory"@,
        plan.create@[0].mode == DIRECTORY_MODE,
        match state_path(environment) {
            Some(path) => {
                &&& plan.create@[1].path@ == path
                &&& plan.create@[1].context@ == "creating state directory"@
                &&& plan.create@[1].mode == DIRECTORY_MODE
                &&& plan.error is None
            },
            None => plan.error is Some && plan.error.unwrap()@
                == "locating state directory with XDG_STATE_HOME or HOME/.local/state"@,
        },
{
    let mut create: Vec<NewDir> = Vec::new();
    create.push(
        NewDir {
            path: runtime_dir(environment),
            mode: DIRECTORY_MODE,
            context: "creating runtime directory".to_owned(),
        },
    );
    match state_dir(environment) {
        Ok(path) => {
            create.push(
                NewDir {
                    path,
                    mode: DIRECTORY_MODE,
                    context: "creating state directory".to_owned(),
                },
            );
            DirPlan { create, error: None }
        },
        Err(message) => DirPlan { create, error: Some(message) },
    }
}

/// When all needed directories are there, setting them up again changes nothing.
pub proof fn lemma_setup_is_idempotent(environment: &Environment, existing: Set<Seq<char>>)
    ensures
        ({
            let dirs = needed_dirs(environment);
            let after = with_dirs(existing, dirs);
            &&& after.contains(runtime_path(environment))
            &&& state_path(environment) matches Some(path) ==> after.contains(path)
            &&& with_dirs(after, dirs) == after
            &&& forall|path: Seq<char>| #[trigger]
                after.contains(path) ==> existing.contains(path) || dirs.contains(path)
        }),
{
    let dirs = needed_dirs(environment);
    let after = with_dirs(existing, dirs);
    assert(dirs[0] == runtime_path(environment));
    assert(dirs.to_set().contains(dirs[0]));
    if let Some(path) = state_path(environment) {
        assert(dirs[1] == path);
        assert(dirs.to_set().contains(dirs[1]));
    }
    assert(with_dirs(after, dirs) =~= after);
}

/// The configuration.
pub struct Config {
    pub sandbox: Option<sandbox::config::Config>,
}

/// A file that is read for the configuration.
pub struct Source {
    pub path: String,
    /// Whether it is an error if there is no such file.
    pub required: bool,
}

/// The project's configuration file: the one that was asked for, or else the local one if it
/// is there.
pub fn project_file(
    cli_config_file: Option<&str>,
    local_file: &str,
    local_file_exists: bool,
) -> (file: Option<String>)
    ensures
        match file {
            Some(file) => file@ == (match cli_config_file {
                Some(asked) => asked@,
                None => local_file@,
            }) && (cli_config_file is Some || local_file_exists),
            None => cli_config_file is None && !local_file_exists,
        },
{
    match cli_config_file {
        Some(config_file) => Some(config_file.to_owned()),
        None => if local_file_exists {
            Some(local_file.to_owned())
        } else {
            None
        },
    }
}

/// The files of the configuration, the later one winning over the earlier one key by key.
/// The global file may be missing, the project's file may not.
pub fn sources(global_file: Option<&str>, project_file: Option<&str>) -> (list: Vec<Source>)
    ensures
        list@.len() == (if global_file is Some { 1int } else { 0 }) + (if project_file is Some {
            1int
        } else {
            0
        }),
        global_file is Some ==> list@[0].path@ == global_file.unwrap()@ && !list@[0].required,
        project_file is Some ==> list@.last().path@ == project_file.unwrap()@
            && list@.last().required,
{
    let mut list: Vec<Source> = Vec::new();
    if let Some(path) = global_file {
        list.push(Source { path: path.to_owned(), required: false });
    }
    if let Some(path) = project_file {
        list.push(Source { path: path.to_owned(), required: true });
    }
    list
}

/// Tells whether the shares are left out when all files are read as one. With two files the
/// global shares do not apply as they are, so where the project's file mentions none it does
/// not matter whether they make sense.
pub fn omits_shares(
    global_file: Option<&str>,
    project_file: Option<&str>,
    project_mentions_shares: bool,
) -> (result: bool)
    ensures
        result == (global_file is Some && project_file is Some && !project_mentions_shares),
{
    global_file.is_some() && project_file.is_some() && !project_mentions_shares
}

/// What reading the shares of one file came to.
pub enum SharesRead {
    /// The file cannot be read.
    Unreadable(String),
    /// The file does not mention shares.
    Missing,
    /// What it says of shares makes no sense.
    Malformed(String),
    Found(Vec<FsShare>),
}

/// Why there is no configuration.
pub enum ParseError {
    /// A file cannot be read or makes no sense.
    Reading(String),
    /// The shares of a file make no sense.
    Shares(String),
    /// The configuration is not valid.
    Invalid(garde::Report),
}

/// The shares of one file.
pub open spec fn shares_of(read: SharesRead) -> Result<Seq<sandbox::config::FsShareView>, ParseError> {
    match read {
        SharesRead::Unreadable(message) => Err(ParseError::Reading(message)),
        SharesRead::Missing => Ok(Seq::empty()),
        SharesRead::Malformed(message) => Err(ParseError::Shares(message)),
        SharesRead::Found(shares) => Ok(sandbox::config::shares_view(shares@)),
    }
}

/// Takes what reading the shares of a file came to. A file without shares is no error.
pub fn shares_from(read: SharesRead) -> (result: Result<Option<Vec<FsShare>>, ParseError>)
    ensures
        match result {
            Ok(shares) => {
                &&& shares_of(read) == Ok::<Seq<sandbox::config::FsShareView>, ParseError>(
                    match shares {
                        Some(shares) => sandbox::config::shares_view(shares@),
                        None => Seq::empty(),
                    },
                )
                &&& shares is Some == read is Found
            },
            Err(error) => shares_of(read) == Err::<Seq<sandbox::config::FsShareView>, ParseError>(
                error,
            ),
        },
{
    match read {
        SharesRead::Unreadable(message) => Err(ParseError::Reading(message)),
        SharesRead::Missing => Ok(None),
        SharesRead::Malformed(message) => Err(ParseError::Shares(message)),
        SharesRead::Found(shares) => Ok(Some(shares)),
    }
}

/// Why the shares cannot be resolved: the project's file is looked at first, the global one
/// only if its shares are inherited.
pub open spec fn resolve_error(
    inherit_shares: bool,
    global: SharesRead,
    project: SharesRead,
) -> Option<ParseError> {
    if shares_of(project) is Err {
        Some(shares_of(project)->Err_0)
    } else if inherit_shares && shares_of(global) is Err {
        Some(shares_of(global)->Err_0)
    } else {
        None
    }
}

/// The shares that are merged: those of the global file if they are inherited, then those of
/// the project's file.
pub open spec fn share_layers(
    inherit_shares: bool,
    global: SharesRead,
    project: SharesRead,
) -> Seq<sandbox::config::FsShareView> {
    if inherit_shares {
        shares_of(global)->Ok_0 + shares_of(project)->Ok_0
    } else {
        shares_of(project)->Ok_0
    }
}

/// Resolves the shares when there is both a global and a project configuration.
pub fn resolve_shares(inherit_shares: bool, global: SharesRead, project: SharesRead) -> (result:
    Result<Vec<FsShare>, ParseError>)
    ensures
        match result {
            Ok(shares) => {
                &&& resolve_error(inherit_shares, global, project) is None
                &&& sandbox::config::is_merge_of(
                    sandbox::config::shares_view(shares@),
                    share_layers(inherit_shares, global, project),
                )
            },
            Err(error) => resolve_error(inherit_shares, global, project) == Some(error),
        },
{
    let overrides: Option<Vec<FsShare>> = match shares_from(project) {
        Ok(shares) => shares,
        Err(error) => {
            return Err(error);
        },
    };
    let inherited: Option<Vec<FsShare>> = if inherit_shares {
        match shares_from(global) {
            Ok(shares) => shares,
            Err(error) => {
                return Err(error);
            },
        }
    } else {
        None
    };
    let overrides: Vec<FsShare> = match overrides {
        Some(shares) => shares,
        None => Vec::new(),
    };
    assert(sandbox::config::shares_view(overrides@) =~= shares_of(project)->Ok_0);
    proof {
        if inherit_shares && inherited is None {
            assert(Seq::<sandbox::config::FsShareView>::empty() + shares_of(project)->Ok_0
                =~= shares_of(project)->Ok_0);
        }
    }
    Ok(merge_by_name(inherited.as_ref(), overrides))
}

/// What reading the configuration files came to.
pub struct Readings {
    /// All sources, merged key by key.
    pub merged: Result<Config, String>,
    /// The shares of the global file alone.
    pub global_shares: SharesRead,
    /// The shares of the project's file alone.
    pub project_shares: SharesRead,
}

/// Whether the shares of the two files are resolved on their own: a list in the project's
/// file would replace the global one otherwise.
pub open spec fn resolves_shares(config: Config, both_files: bool) -> bool {
    config.sandbox is Some && both_files
}

/// Tells which of the files have to be read for their shares alone. The global one is not
/// read unless its shares are inherited.
pub fn share_sources(
    global_file: Option<&str>,
    project_file: Option<&str>,
    config: &Config,
) -> (list: Vec<Source>)
    ensures
        match (global_file, project_file, config.sandbox) {
            (Some(global), Some(project), Some(sandbox)) => {
                &&& list@.len() == (if sandbox.inherit_shares { 2int } else { 1 })
                &&& list@[0].path@ == project@ && list@[0].required
                &&& sandbox.inherit_shares ==> list@[1].path@ == global@ && !list@[1].required
            },
            _ => list@.len() == 0,
        },
{
    let mut list: Vec<Source> = Vec::new();
    if let Some(sandbox) = &config.sandbox {
        if let Some(global) = global_file {
            if let Some(project) = project_file {
                list.push(Source { path: project.to_owned(), required: true });
                if sandbox.inherit_shares {
                    list.push(Source { path: global.to_owned(), required: false });
                }
            }
        }
    }
    list
}

/// The path of the sandbox section.
pub open spec fn sandbox_path() -> Seq<validation::Component> {
    Seq::<validation::Component>::empty().push(validation::Component::Key("sandbox"@))
}

/// The errors of a configuration.
pub open spec fn entries(config: &Config, disk: &Disk) -> Seq<validation::Entry> {
    match config.sandbox {
        Some(sandbox) => sandbox::config::config_entries(&sandbox, disk, sandbox_path()),
        None => Seq::empty(),
    }
}

impl Config {
    /// Checks the configuration.
    pub fn validate(&self, disk: &Disk) -> (result: Result<(), garde::Report>)
        ensures
            match result {
                Ok(()) => entries(self, disk).len() == 0,
                Err(report) => {
                    &&& entries(self, disk).len() > 0
                    &&& validation::report_entries(report) == entries(self, disk)
                },
            },
    {
        let mut report: garde::Report = validation::new_report();
        if let Some(sandbox) = &self.sandbox {
            let path: garde::Path = validation::join_key(&validation::empty_path(), "sandbox");
            sandbox.validate_into(disk, &path, &mut report);
        }
        assert(validation::report_entries(report) =~= entries(self, disk));
        if validation::is_empty(&report) {
            Ok(())
        } else {
            Err(report)
        }
    }
}

/// Whether `config` is what the readings say: the merged sources, and the shares resolved on
/// their own if there are two files.
pub open spec fn is_read(config: &Config, both_files: bool, readings: Readings) -> bool {
    &&& readings.merged is Ok
    &&& if resolves_shares(readings.merged->Ok_0, both_files) {
        let merged = readings.merged->Ok_0.sandbox.unwrap();
        &&& config.sandbox is Some
        &&& config.sandbox.unwrap() == (sandbox::config::Config {
            shares: config.sandbox.unwrap().shares,
            ..merged
        })
        &&& config.sandbox.unwrap().shares is Some
        &&& sandbox::config::is_merge_of(
            sandbox::config::shares_view(config.sandbox.unwrap().shares.unwrap()@),
            share_layers(merged.inherit_shares, readings.global_shares, readings.project_shares),
        )
    } else {
        *config == readings.merged->Ok_0
    }
}

/// Why the readings give no configuration, but for its validity.
pub open spec fn read_error(both_files: bool, readings: Readings) -> Option<ParseError> {
    match readings.merged {
        Err(message) => Some(ParseError::Reading(message)),
        Ok(config) => if resolves_shares(config, both_files) {
            resolve_error(
                config.sandbox.unwrap().inherit_shares,
                readings.global_shares,
                readings.project_shares,
            )
        } else {
            None
        },
    }
}

/// Whether `result` is what becomes of the readings: the configuration they give if it is
/// valid, or else the first thing that is wrong.
pub open spec fn is_parsed(
    result: Result<Config, ParseError>,
    both_files: bool,
    readings: Readings,
    disk: &Disk,
) -> bool {
    match result {
        Ok(config) => {
            &&& read_error(both_files, readings) is None
            &&& is_read(&config, both_files, readings)
            &&& entries(&config, disk).len() == 0
        },
        Err(error) => match read_error(both_files, readings) {
            Some(cause) => error == cause,
            None => exists|config: Config|
                {
                    &&& #[trigger] is_read(&config, both_files, readings)
                    &&& entries(&config, disk).len() > 0
                    &&& error matches ParseError::Invalid(report)
                        && validation::report_entries(report) == entries(&config, disk)
                },
        },
    }
}

/// Makes the configuration of what was read.
pub fn parse_config_with(
    global_file: Option<&str>,
    project_file: Option<&str>,
    readings: Readings,
    disk: &Disk,
) -> (result: Result<Config, ParseError>)
    ensures
        is_parsed(result, global_file is Some && project_file is Some, readings, disk),
{
    let mut config: Config = match readings.merged {
        Ok(config) => config,
        Err(message) => {
            return Err(ParseError::Reading(message));
        },
    };
    let ghost both = global_file is Some && project_file is Some;
    if global_file.is_some() && project_file.is_some() {
        if let Some(mut sandbox) = config.sandbox {
            match resolve_shares(
                sandbox.inherit_shares,
                readings.global_shares,
                readings.project_shares,
            ) {
                Ok(shares) => {
                    sandbox.shares = Some(shares);
                },
                Err(error) => {
                    return Err(error);
                },
            }
            config = Config { sandbox: Some(sandbox) };
        } else {
            config = Config { sandbox: None };
        }
    }
    assert(is_read(&config, both, readings));
    match config.validate(disk) {
        Ok(()) => Ok(config),
        Err(report) => Err(ParseError::Invalid(report)),
    }
}

/// The configuration files: the global one, if the user has a place for it, and that of the
/// project, if there is one.
pub struct ConfigFiles {
    pub global: Option<String>,
    pub project: Option<String>,
}

/// Finds the configuration files. The local file is looked for in the current directory.
pub fn config_files(
    config_file: Option<&str>,
    environment: &Environment,
    local_file_exists: bool,
) -> (files: ConfigFiles)
    ensures
        match files.global {
            Some(path) => config_path(environment) is Some && path@ == paths::join(
                config_path(environment).unwrap(),
                CONFIG_FILE_NAME@,
            ),
            None => config_path(environment) is None,
        },
        match files.project {
            Some(path) => path@ == (match config_file {
                Some(asked) => asked@,
                None => CONFIG_FILE_NAME@,
            }) && (config_file is Some || local_file_exists),
            None => config_file is None && !local_file_exists,
        },
{
    let global: Option<String> = match config_dir(environment) {
        Some(directory) => Some(paths::joined_path(directory.as_str(), CONFIG_FILE_NAME)),
        None => None,
    };
    let project: Option<String> = project_file(config_file, CONFIG_FILE_NAME, local_file_exists);
    ConfigFiles { global, project }
}

/// Whether there are both a global and a project configuration file.
pub open spec fn has_both_files(
    config_file: Option<&str>,
    environment: &Environment,
    local_file_exists: bool,
) -> bool {
    config_path(environment) is Some && (config_file is Some || local_file_exists)
}

/// Makes the configuration of what was read from the user's files.
pub fn parse_config(
    config_file: Option<&str>,
    environment: &Environment,
    local_file_exists: bool,
    readings: Readings,
    disk: &Disk,
) -> (result: Result<Config, ParseError>)
    ensures
        is_parsed(
            result,
            has_both_files(config_file, environment, local_file_exists),
            readings,
            disk,
        ),
{
    let files: ConfigFiles = config_files(config_file, environment, local_file_exists);
    let global: Option<&str> = match &files.global {
        Some(path) => Some(path.as_str()),
        None => None,
    };
    let project: Option<&str> = match &files.project {
        Some(path) => Some(path.as_str()),
        None => None,
    };
    parse_config_with(global, project, readings, disk)
}

/// Without a project's file, or without a global one, the shares that were read apply as they
/// are, whether shares are inherited or not.
pub proof fn lemma_shares_of_one_file_apply(config: Config, readings: Readings)
    requires
        is_read(&config, false, readings),
    ensures
        config == readings.merged->Ok_0,
        read_error(false, readings) is None,
{
}

/// With two files the project's shares are the whole list unless the global ones are
/// inherited, and then a share that both define under one name is the project's as a whole.
pub proof fn lemma_shares_layer(config: Config, readings: Readings, name: Seq<char>)
    requires
        is_read(&config, true, readings),
        readings.merged->Ok_0.sandbox is Some,
        read_error(true, readings) is None,
    ensures
        ({
            let inherit = config.sandbox.unwrap().inherit_shares;
            let shares = sandbox::config::shares_view(config.sandbox.unwrap().shares.unwrap()@);
            let project = shares_of(readings.project_shares)->Ok_0;
            let global = shares_of(readings.global_shares)->Ok_0;
            &&& sandbox::config::last_named(shares, name) == (if sandbox::config::last_named(
                project,
                name,
            ) is Some || !inherit {
                sandbox::config::last_named(project, name)
            } else {
                sandbox::config::last_named(global, name)
            })
            &&& !inherit && project.len() == 0 ==> shares.len() == 0
        }),
{
    let inherit = config.sandbox.unwrap().inherit_shares;
    let shares = sandbox::config::shares_view(config.sandbox.unwrap().shares.unwrap()@);
    let project = shares_of(readings.project_shares)->Ok_0;
    let global = shares_of(readings.global_shares)->Ok_0;
    if inherit {
        sandbox::config::lemma_overrides_win(shares, global, project, name);
    } else {
        sandbox::config::lemma_merging_keeps_what_is_found(shares, project, name);
        if project.len() == 0 && shares.len() > 0 {
            assert(sandbox::config::last_named(project, shares[0].name) == Some(shares[0]));
        }
    }
}

/// Where the files are kept. A variable that is set and not empty tells it, and otherwise the
/// user's number or home does.
pub proof fn lemma_places(
    environment: &Environment,
    runtime: String,
    state: Result<String, String>,
    config: Option<String>,
)
    requires
        call_ensures(runtime_dir, (environment,), runtime),
        call_ensures(state_dir, (environment,), state),
        call_ensures(config_dir, (environment,), config),
    ensures
        environment.xdg_runtime_dir matches Some(dir) ==> dir@.len() > 0 ==> runtime@
            == paths::join(dir@, "blinools"@),
        !(environment.xdg_runtime_dir matches Some(dir) && dir@.len() > 0) ==> runtime@
            == paths::join(
            paths::join("/run/user"@, text::decimal(environment.uid as nat)),
            "blinools"@,
        ),
        environment.xdg_state_home matches Some(dir) ==> dir@.len() > 0 ==> (state
            matches Ok(path) && path@ == paths::join(dir@, "blinools"@)),
        !(environment.xdg_state_home matches Some(dir) && dir@.len() > 0) ==> {
            &&& environment.home matches Some(home) ==> (state matches Ok(path) && path@
                == paths::join(
                paths::join(paths::join(home@, ".local"@), "state"@),
                "blinools"@,
            ))
            &&& environment.home is None ==> (state matches Err(message) && message@
                == "locating state directory with XDG_STATE_HOME or HOME/.local/state"@)
        },
        environment.xdg_config_home matches Some(dir) ==> dir@.len() > 0 ==> (config
            matches Some(path) && path@ == paths::join(dir@, "blinools"@)),
        !(environment.xdg_config_home matches Some(dir) && dir@.len() > 0) ==> {
            &&& environment.home matches Some(home) ==> (config matches Some(path) && path@
                == paths::join(paths::join(home@, ".config"@), "blinools"@))
            &&& environment.home is None ==> config is None
        },
{
}

/// The runtime directory comes before the state directory, and nobody but the owner may use
/// either.
pub proof fn lemma_directories_to_create(
    environment: &Environment,
    plan: DirPlan,
    runtime: String,
    state: Result<String, String>,
)
    requires
        call_ensures(setup_dirs, (environment,), plan),
        call_ensures(runtime_dir, (environment,), runtime),
        call_ensures(state_dir, (environment,), state),
    ensures
        plan.create@.len() == (if state is Ok {
            2int
        } else {
            1
        }),
        plan.create@[0].path@ == runtime@,
        plan.create@[0].mode == 448,
        state matches Ok(path) ==> plan.create@[1].path@ == path@ && plan.create@[1].mode == 448
            && plan.error is None,
        state matches Err(message) ==> plan.error is Some && plan.error.unwrap()@ == message@,
{
}

/// What is wrong with the shares of two files: what is wrong with the project's, and else what
/// is wrong with the global ones if they are inherited. If they are not, nothing about them
/// matters.
pub proof fn lemma_what_is_wrong_with_shares(
    inherit_shares: bool,
    global: SharesRead,
    project: SharesRead,
    result: Result<Vec<FsShare>, ParseError>,
)
    requires
        call_ensures(resolve_shares, (inherit_shares, global, project), result),
    ensures
        project matches SharesRead::Unreadable(message) ==> result == Err::<Vec<FsShare>, ParseError>(
            ParseError::Reading(message),
        ),
        project matches SharesRead::Malformed(message) ==> result == Err::<Vec<FsShare>, ParseError>(
            ParseError::Shares(message),
        ),
        project is Missing || project is Found ==> {
            &&& !inherit_shares ==> result is Ok
            &&& inherit_shares ==> (global matches SharesRead::Unreadable(message) ==> result
                == Err::<Vec<FsShare>, ParseError>(ParseError::Reading(message)))
            &&& inherit_shares ==> (global matches SharesRead::Malformed(message) ==> result
                == Err::<Vec<FsShare>, ParseError>(ParseError::Shares(message)))
            &&& global is Missing || global is Found ==> result is Ok
        },
{
}

/// What the shares of two files come to. Those of the project's file are all there is unless
/// the global ones are inherited, and then those of these that the project's file does not
/// name come with them. The result is ordered by name.
pub proof fn lemma_shares_of_two_files(
    inherit_shares: bool,
    global: Vec<FsShare>,
    project: Vec<FsShare>,
    result: Result<Vec<FsShare>, ParseError>,
)
    requires
        call_ensures(
            resolve_shares,
            (inherit_shares, SharesRead::Found(global), SharesRead::Found(project)),
            result,
        ),
    ensures
        result is Ok,
        ({
            let found = sandbox::config::shares_view(result->Ok_0@);
            let own = sandbox::config::shares_view(project@);
            let others = sandbox::config::shares_view(global@);
            &&& forall|i: int, j: int|
                0 <= i < j < found.len() ==> text::is_before(
                    #[trigger] found[i].name,
                    #[trigger] found[j].name,
                )
            &&& forall|i: int|
                0 <= i < own.len() && (forall|k: int|
                    i < k < own.len() ==> (#[trigger] own[k]).name != own[i].name)
                    ==> found.contains(#[trigger] own[i])
            &&& inherit_shares ==> forall|i: int|
                0 <= i < others.len() && (forall|k: int|
                    i < k < others.len() ==> (#[trigger] others[k]).name != others[i].name) && (
                forall|k: int| 0 <= k < own.len() ==> (#[trigger] own[k]).name != others[i].name)
                    ==> found.contains(#[trigger] others[i])
            &&& forall|i: int|
                0 <= i < found.len() ==> own.contains(#[trigger] found[i]) || (inherit_shares
                    && others.contains(found[i]))
        }),
{
    let found = sandbox::config::shares_view(result->Ok_0@);
    let own = sandbox::config::shares_view(project@);
    let others = sandbox::config::shares_view(global@);
    let none = Seq::<sandbox::config::FsShareView>::empty();
    if inherit_shares {
        sandbox::config::lemma_merged_shares(found, others, own);
    } else {
        assert(none + own =~= own);
        sandbox::config::lemma_merged_shares(found, none, own);
    }
}

/// A configuration that could not be read is no configuration. One from a single file is taken
/// as it was read, with two files all but the shares is, and it is refused exactly if
/// something is wrong with it.
pub proof fn lemma_what_becomes_of_readings(
    global_file: Option<&str>,
    project_file: Option<&str>,
    readings: Readings,
    disk: &Disk,
    result: Result<Config, ParseError>,
)
    requires
        call_ensures(parse_config_with, (global_file, project_file, readings, disk), result),
    ensures
        readings.merged matches Err(message) ==> result == Err::<Config, ParseError>(
            ParseError::Reading(message),
        ),
        readings.merged matches Ok(merged) ==> {
            &&& global_file is None || project_file is None || merged.sandbox is None ==> {
                &&& result is Ok <==> entries(&merged, disk).len() == 0
                &&& result matches Ok(config) ==> config == merged
                &&& result matches Err(error) ==> (error matches ParseError::Invalid(report)
                    && validation::report_entries(report) == entries(&merged, disk))
            }
            &&& global_file is Some && project_file is Some && merged.sandbox is Some ==> {
                &&& result matches Ok(config) ==> {
                    &&& config.sandbox is Some
                    &&& config.sandbox.unwrap().shares is Some
                    &&& config.sandbox.unwrap() == (sandbox::config::Config {
                        shares: config.sandbox.unwrap().shares,
                        ..merged.sandbox.unwrap()
                    })
                    &&& entries(&config, disk).len() == 0
                }
                &&& readings.project_shares matches SharesRead::Malformed(message) ==> result
                    == Err::<Config, ParseError>(ParseError::Shares(message))
                &&& readings.project_shares matches SharesRead::Unreadable(message) ==> result
                    == Err::<Config, ParseError>(ParseError::Reading(message))
            }
        },
{
}

/// What is wrong with the sandbox section is reported under its name, and without that section
/// nothing is wrong.
pub proof fn lemma_errors_of_section(config: &Config, disk: &Disk)
    ensures
        config.sandbox is None ==> entries(config, disk).len() == 0,
        config.sandbox matches Some(section) ==> entries(config, disk)
            == sandbox::config::config_entries(
            &section,
            disk,
            seq![validation::Component::Key("sandbox"@)],
        ),
{
    assert(sandbox_path() =~= seq![validation::Component::Key("sandbox"@)]);
}

/// The global file is read if the user has a place for it, and the project's file if it was
/// asked for or lies in the current directory.
pub proof fn lemma_files_of_configuration(
    config_file: Option<&str>,
    environment: &Environment,
    local_file_exists: bool,
    files: ConfigFiles,
    directory: Option<String>,
)
    requires
        call_ensures(config_files, (config_file, environment, local_file_exists), files),
        call_ensures(config_dir, (environment,), directory),
    ensures
        files.global is Some <==> directory is Some,
        files.global matches Some(path) ==> path@ == paths::join(
            directory.unwrap()@,
            "blinools.toml"@,
        ),
        files.project is Some <==> config_file is Some || local_file_exists,
        config_file matches Some(asked) ==> files.project.unwrap()@ == asked@,
        config_file is None && local_file_exists ==> files.project.unwrap()@ == "blinools.toml"@,
        has_both_files(config_file, environment, local_file_exists) <==> files.global is Some
            && files.project is Some,
{
}

/// With two files the shares are looked at before anything else is, and those of the global
/// file only if they are inherited.
pub proof fn lemma_refused_shares_of_two_files(
    global_file: &str,
    project_file: &str,
    readings: Readings,
    disk: &Disk,
    result: Result<Config, ParseError>,
)
    requires
        call_ensures(
            parse_config_with,
            (Some(global_file), Some(project_file), readings, disk),
            result,
        ),
        readings.merged matches Ok(merged) && merged.sandbox is Some,
        readings.project_shares is Missing || readings.project_shares is Found,
    ensures
        ({
            let inherits = readings.merged->Ok_0.sandbox.unwrap().inherit_shares;
            &&& inherits ==> (readings.global_shares matches SharesRead::Malformed(message)
                ==> result == Err::<Config, ParseError>(ParseError::Shares(message)))
            &&& inherits ==> (readings.global_shares matches SharesRead::Unreadable(message)
                ==> result == Err::<Config, ParseError>(ParseError::Reading(message)))
            &&& !inherits || readings.global_shares is Missing || readings.global_shares is Found
                ==> (result matches Err(error) ==> error is Invalid)
        }),
{
}

/// Which files are read, and which of them must be there: all that are known for the whole, the
/// project's alone and then the global one for their shares, the latter only if those are
/// inherited.
pub proof fn lemma_files_that_are_read(
    global_file: &str,
    project_file: &str,
    config: &Config,
    all: Vec<Source>,
    for_shares: Vec<Source>,
    mentions: bool,
    omits: bool,
)
    requires
        call_ensures(sources, (Some(global_file), Some(project_file)), all),
        call_ensures(share_sources, (Some(global_file), Some(project_file), config), for_shares),
        call_ensures(omits_shares, (Some(global_file), Some(project_file), mentions), omits),
    ensures
        all@.len() == 2,
        all@[0].path@ == global_file@ && !all@[0].required,
        all@[1].path@ == project_file@ && all@[1].required,
        config.sandbox is None ==> for_shares@.len() == 0,
        config.sandbox matches Some(section) ==> {
            &&& for_shares@[0].path@ == project_file@ && for_shares@[0].required
            &&& for_shares@.len() == 2 <==> section.inherit_shares
            &&& section.inherit_shares ==> for_shares@[1].path@ == global_file@
                && !for_shares@[1].required
        },
        omits <==> !mentions,
{
}

/// A configuration is accepted exactly if nothing is wrong with its sandbox section: one
/// without that section always is.
pub proof fn lemma_accepted_configuration(
    config: &Config,
    disk: &Disk,
    result: Result<(), garde::Report>,
)
    requires
        call_ensures(Config::validate, (config, disk), result),
    ensures
        config.sandbox is None ==> result is Ok,
        config.sandbox matches Some(section) ==> (result is Ok
            <==> sandbox::config::config_entries(&section, disk, sandbox_path()).len() == 0),
        config.sandbox matches Some(section) ==> result is Ok ==> {
            &&& disk.has_file(section.kernel@)
            &&& disk.has_file(section.rootfs@)
            &&& 512 <= section.memory_mb <= 131072
            &&& section.cpus >= 1
        },
        result matches Err(report) ==> validation::report_entries(report) == entries(config, disk),
{
    if let Some(section) = config.sandbox {
        sandbox::config::lemma_valid_config(&section, disk, sandbox_path());
    }
}

} // verus!
