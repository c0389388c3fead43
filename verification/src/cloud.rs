//! Cloud subcommand: the command line of `cloud`, the choice of a configured
//! project, what each subcommand is to do, and the helpers that shape its
//! printed tables.

use vstd::prelude::*;
use vstd::view::View as _;
use crate::strings::{chars_of, concat_str, parse_u32, spec_parse_u32, str_eq};

verus! {

/// The LiveKit CLI configuration: the default project and the projects.
pub struct CliConfig {
    pub default_project: Option<String>,
    pub projects: Vec<ProjectConfig>,
}

/// One configured project with its credentials.
#[derive(Clone)]
pub struct ProjectConfig {
    pub name: String,
    pub project_id: Option<String>,
    pub url: String,
    pub api_key: String,
    pub api_secret: String,
}

/// A participant of a session, as the cloud API reports it.
pub struct Participant {
    pub identity: String,
    pub name: String,
    pub joined_at: String,
    pub left_at: String,
    pub location: String,
    pub region: String,
    pub connection_type: String,
    pub device_model: String,
    pub os: String,
    pub browser: String,
    pub sdk_version: String,
}

/// Options of the cloud subcommand.
pub struct CloudOptions {
    pub command: CloudCommand,
    pub project_name: Option<String>,
    pub session_token: Option<String>,
}

/// The cloud subcommands.
pub enum CloudCommand {
    Projects,
    Sessions { limit: u32, page: u32, json: bool },
    Info { session_id: String },
    Download { session_id: String, output: Option<String> },
}

/// Mathematical form of a cloud subcommand.
pub enum CommandModel {
    Projects,
    Sessions { limit: u32, page: u32, json: bool },
    Info { session_id: Seq<char> },
    Download { session_id: Seq<char>, output: Option<Seq<char>> },
}

/// Mathematical form of the cloud options.
pub struct OptionsModel {
    pub command: CommandModel,
    pub project_name: Option<Seq<char>>,
    pub session_token: Option<Seq<char>>,
}

pub open spec fn opt_view(o: Option<String>) -> Option<Seq<char>> {
    match o {
        Some(s) => Some(s@),
        None => None,
    }
}

impl CloudCommand {
    pub open spec fn model(self) -> CommandModel {
        match self {
            CloudCommand::Projects => CommandModel::Projects,
            CloudCommand::Sessions { limit, page, json } => CommandModel::Sessions { limit, page, json },
            CloudCommand::Info { session_id } => CommandModel::Info { session_id: session_id@ },
            CloudCommand::Download { session_id, output } => CommandModel::Download {
                session_id: session_id@,
                output: opt_view(output),
            },
        }
    }
}

impl CloudOptions {
    pub open spec fn model(self) -> OptionsModel {
        OptionsModel {
            command: self.command.model(),
            project_name: opt_view(self.project_name),
            session_token: opt_view(self.session_token),
        }
    }
}

/// Option values collected while scanning the arguments after the
/// subcommand.
pub struct ArgScan {
    pub project: Option<Seq<char>>,
    pub token: Option<Seq<char>>,
    pub limit: u32,
    pub page: u32,
    pub json: bool,
    pub output: Option<Seq<char>>,
    pub positional: Seq<Seq<char>>,
}

pub open spec fn starts_with_dash(a: Seq<char>) -> bool {
    a.len() > 0 && a[0] == '-'
}

/// Scan the arguments from position `i` on, starting from `st`: the options
/// that take a value consume the next argument, an unknown option is an
/// error, and any other argument is positional.
pub open spec fn scan_cloud_args(rest: Seq<Seq<char>>, i: int, st: ArgScan) -> Result<ArgScan, Seq<char>>
    decreases rest.len() - i,
{
    if i < 0 || i >= rest.len() {
        Ok(st)
    } else {
        let a = rest[i];
        let has_value = i + 1 < rest.len();
        if a == "--project"@ || a == "-p"@ {
            if !has_value {
                Err("--project requires a value"@)
            } else {
                scan_cloud_args(rest, i + 2, ArgScan { project: Some(rest[i + 1]), ..st })
            }
        } else if a == "--limit"@ {
            if !has_value {
                Err("--limit requires a number"@)
            } else {
                match spec_parse_u32(rest[i + 1]) {
                    Some(n) => scan_cloud_args(rest, i + 2, ArgScan { limit: n, ..st }),
                    None => Err("Invalid limit: "@ + rest[i + 1]),
                }
            }
        } else if a == "--page"@ {
            if !has_value {
                Err("--page requires a number"@)
            } else {
                match spec_parse_u32(rest[i + 1]) {
                    Some(n) => scan_cloud_args(rest, i + 2, ArgScan { page: n, ..st }),
                    None => Err("Invalid page: "@ + rest[i + 1]),
                }
            }
        } else if a == "--json"@ {
            scan_cloud_args(rest, i + 1, ArgScan { json: true, ..st })
        } else if a == "--token"@ || a == "-t"@ {
            if !has_value {
                Err("--token requires a value"@)
            } else {
                scan_cloud_args(rest, i + 2, ArgScan { token: Some(rest[i + 1]), ..st })
            }
        } else if a == "-o"@ || a == "--output"@ {
            if !has_value {
                Err("--output requires a path"@)
            } else {
                scan_cloud_args(rest, i + 2, ArgScan { output: Some(rest[i + 1]), ..st })
            }
        } else if starts_with_dash(a) {
            Err("Unknown option: "@ + a)
        } else {
            scan_cloud_args(rest, i + 1, ArgScan { positional: st.positional.push(a), ..st })
        }
    }
}

pub open spec fn initial_scan() -> ArgScan {
    ArgScan {
        project: None,
        token: None,
        limit: 20,
        page: 0,
        json: false,
        output: None,
        positional: Seq::empty(),
    }
}

pub open spec fn cloud_usage_hint() -> Seq<char> {
    "Missing cloud subcommand. Use: projects, sessions, info, download"@
}

/// The outcome of parsing the arguments of the cloud subcommand; the error
/// `show_help` asks for the help text.
pub open spec fn spec_parse_cloud_args(args: Seq<Seq<char>>) -> Result<OptionsModel, Seq<char>> {
    if args.len() == 0 {
        Err(cloud_usage_hint())
    } else {
        let sub = args[0];
        match scan_cloud_args(args.drop_first(), 0, initial_scan()) {
            Err(e) => Err(e),
            Ok(st) => {
                let with = |c: CommandModel| OptionsModel { command: c, project_name: st.project, session_token: st.token };
                if sub == "projects"@ {
                    Ok(with(CommandModel::Projects))
                } else if sub == "sessions"@ || sub == "list"@ {
                    Ok(with(CommandModel::Sessions { limit: st.limit, page: st.page, json: st.json }))
                } else if sub == "info"@ || sub == "details"@ {
                    if st.positional.len() == 0 {
                        Err("Missing SESSION_ID argument"@)
                    } else {
                        Ok(with(CommandModel::Info { session_id: st.positional[0] }))
                    }
                } else if sub == "download"@ || sub == "fetch"@ {
                    if st.positional.len() == 0 {
                        Err("Missing SESSION_ID argument"@)
                    } else {
                        Ok(with(CommandModel::Download { session_id: st.positional[0], output: st.output }))
                    }
                } else if sub == "help"@ || sub == "--help"@ || sub == "-h"@ {
                    Err("show_help"@)
                } else {
                    Err("Unknown cloud command: '"@ + sub + "'. Use: projects, sessions, info, download"@)
                }
            },
        }
    }
}

pub open spec fn views_of(args: Seq<String>) -> Seq<Seq<char>> {
    args.map_values(|a: String| a@)
}

fn clone_string(s: &String) -> (r: String)
    ensures
        r@ == s@,
{
    String::from_str(s.as_str())
}

fn starts_with_dash_exec(a: &str) -> (res: bool)
    ensures
        res == starts_with_dash(a@),
{
    let v = chars_of(a);
    v.len() > 0 && v[0] == '-'
}

/// Parse the arguments that follow `cloud` on the command line.
pub fn parse_cloud_args(args: &[String]) -> (res: Result<CloudOptions, String>)
    ensures
        match (res, spec_parse_cloud_args(views_of(args@))) {
            (Ok(o), Ok(m)) => o.model() == m,
            (Err(e), Err(m)) => e@ == m,
            _ => false,
        },
{
    let ghost all = views_of(args@);
    if args.len() == 0 {
        return Err(String::from_str("Missing cloud subcommand. Use: projects, sessions, info, download"));
    }
    let ghost rest_v = all.drop_first();
    let mut project_name: Option<String> = None;
    let mut session_token: Option<String> = None;
    let mut limit: u32 = 20;
    let mut page: u32 = 0;
    let mut json_output = false;
    let mut output: Option<String> = None;
    let mut positional: Vec<String> = Vec::new();

    let mut i: usize = 1;
    assert(views_of(positional@) =~= Seq::<Seq<char>>::empty());
    while i < args.len()
        invariant
            1 <= i <= args.len() + 1,
            all == views_of(args@),
            rest_v == all.drop_first(),
            scan_cloud_args(rest_v, 0, initial_scan()) == scan_cloud_args(
                rest_v,
                i - 1,
                ArgScan {
                    project: opt_view(project_name),
                    token: opt_view(session_token),
                    limit,
                    page,
                    json: json_output,
                    output: opt_view(output),
                    positional: views_of(positional@),
                },
            ),
        decreases args.len() + 1 - i,
    {
        let a = args[i].as_str();
        let ghost st = ArgScan {
            project: opt_view(project_name),
            token: opt_view(session_token),
            limit,
            page,
            json: json_output,
            output: opt_view(output),
            positional: views_of(positional@),
        };
        assert(rest_v[i - 1] == a@);
        let has_value = i + 1 < args.len();
        proof {
            if has_value {
                assert(rest_v[i as int] == args@[i + 1]@);
            }
        }
        if str_eq(a, "--project") || str_eq(a, "-p") {
            if !has_value {
                return Err(String::from_str("--project requires a value"));
            }
            project_name = Some(clone_string(&args[i + 1]));
            i = i + 2;
        } else if str_eq(a, "--limit") {
            if !has_value {
                return Err(String::from_str("--limit requires a number"));
            }
            match parse_u32(args[i + 1].as_str()) {
                Some(n) => {
                    limit = n;
                },
                None => {
                    return Err(concat_str("Invalid limit: ", args[i + 1].as_str()));
                },
            }
            i = i + 2;
        } else if str_eq(a, "--page") {
            if !has_value {
                return Err(String::from_str("--page requires a number"));
            }
            match parse_u32(args[i + 1].as_str()) {
                Some(n) => {
                    page = n;
                },
                None => {
                    return Err(concat_str("Invalid page: ", args[i + 1].as_str()));
                },
            }
            i = i + 2;
        } else if str_eq(a, "--json") {
            json_output = true;
            i = i + 1;
        } else if str_eq(a, "--token") || str_eq(a, "-t") {
            if !has_value {
                return Err(String::from_str("--token requires a value"));
            }
            session_token = Some(clone_string(&args[i + 1]));
            i = i + 2;
        } else if str_eq(a, "-o") || str_eq(a, "--output") {
            if !has_value {
                return Err(String::from_str("--output requires a path"));
            }
            output = Some(clone_string(&args[i + 1]));
            i = i + 2;
        } else if starts_with_dash_exec(a) {
            return Err(concat_str("Unknown option: ", a));
        } else {
            let ghost before = positional@;
            positional.push(clone_string(&args[i]));
            proof {
                assert(views_of(positional@) =~= views_of(before).push(a@));
            }
            i = i + 1;
        }
    }
    assert(scan_cloud_args(rest_v, i - 1, ArgScan {
        project: opt_view(project_name),
        token: opt_view(session_token),
        limit,
        page,
        json: json_output,
        output: opt_view(output),
        positional: views_of(positional@),
    }) == Ok::<ArgScan, Seq<char>>(ArgScan {
        project: opt_view(project_name),
        token: opt_view(session_token),
        limit,
        page,
        json: json_output,
        output: opt_view(output),
        positional: views_of(positional@),
    }));
    let sub = args[0].as_str();
    assert(all[0] == sub@);
    let command = if str_eq(sub, "projects") {
        CloudCommand::Projects
    } else if str_eq(sub, "sessions") || str_eq(sub, "list") {
        CloudCommand::Sessions { limit, page, json: json_output }
    } else if str_eq(sub, "info") || str_eq(sub, "details") {
        if positional.len() == 0 {
            return Err(String::from_str("Missing SESSION_ID argument"));
        }
        assert(views_of(positional@)[0] == positional@[0]@);
        CloudCommand::Info { session_id: clone_string(&positional[0]) }
    } else if str_eq(sub, "download") || str_eq(sub, "fetch") {
        if positional.len() == 0 {
            return Err(String::from_str("Missing SESSION_ID argument"));
        }
        assert(views_of(positional@)[0] == positional@[0]@);
        CloudCommand::Download { session_id: clone_string(&positional[0]), output }
    } else if str_eq(sub, "help") || str_eq(sub, "--help") || str_eq(sub, "-h") {
        return Err(String::from_str("show_help"));
    } else {
        let m = concat_str("Unknown cloud command: '", sub);
        return Err(concat_str(m.as_str(), "'. Use: projects, sessions, info, download"));
    };
    Ok(CloudOptions { command, project_name, session_token })
}

} // verus!

verus! {

/// Index of the first project named `name`, searching from position `i`.
pub open spec fn find_project_from(ps: Seq<ProjectConfig>, name: Seq<char>, i: int) -> Option<int>
    decreases ps.len() - i,
{
    if i < 0 || i >= ps.len() {
        None
    } else if ps[i].name@ == name {
        Some(i)
    } else {
        find_project_from(ps, name, i + 1)
    }
}

/// Index of the first project named `name`.
pub open spec fn find_project(ps: Seq<ProjectConfig>, name: Seq<char>) -> Option<int> {
    find_project_from(ps, name, 0)
}

/// The project names joined by ", ".
pub open spec fn join_names(ps: Seq<ProjectConfig>) -> Seq<char>
    decreases ps.len(),
{
    if ps.len() == 0 {
        Seq::empty()
    } else if ps.len() == 1 {
        ps[0].name@
    } else {
        join_names(ps.drop_last()) + ", "@ + ps.last().name@
    }
}

/// Which project a command is for: the named one, or else the configured
/// default; the error says what was missing.
pub open spec fn spec_resolve_project(config: CliConfig, name: Option<Seq<char>>) -> Result<int, Seq<char>> {
    let ps = config.projects@;
    match name {
        Some(n) => match find_project(ps, n) {
            Some(k) => Ok(k),
            None => Err("Project '"@ + n + "' not found. Available: "@ + join_names(ps)),
        },
        None => match config.default_project {
            None => Err("No --project specified and no default_project in config"@),
            Some(d) => match find_project(ps, d@) {
                Some(k) => Ok(k),
                None => Err("Default project '"@ + d@ + "' not found in config"@),
            },
        },
    }
}

proof fn lemma_find_from_bounds(ps: Seq<ProjectConfig>, name: Seq<char>, i: int)
    ensures
        find_project_from(ps, name, i) matches Some(k) ==> (i <= k < ps.len() && ps[k].name@ == name),
    decreases ps.len() - i,
{
    if 0 <= i < ps.len() && ps[i].name@ != name {
        lemma_find_from_bounds(ps, name, i + 1);
    }
}

/// Index of the first project with the given name.
fn find_project_index(ps: &Vec<ProjectConfig>, name: &str) -> (res: Option<usize>)
    ensures
        match res {
            Some(k) => find_project(ps@, name@) == Some(k as int),
            None => find_project(ps@, name@) is None,
        },
{
    let mut i: usize = 0;
    while i < ps.len()
        invariant
            0 <= i <= ps.len(),
            find_project(ps@, name@) == find_project_from(ps@, name@, i as int),
        decreases ps.len() - i,
    {
        if str_eq(ps[i].name.as_str(), name) {
            return Some(i);
        }
        i = i + 1;
    }
    None
}

/// The project names joined by ", ".
fn project_names(ps: &Vec<ProjectConfig>) -> (s: String)
    ensures
        s@ == join_names(ps@),
{
    let mut s = String::new();
    let mut i: usize = 0;
    while i < ps.len()
        invariant
            0 <= i <= ps.len(),
            s@ == join_names(ps@.take(i as int)),
        decreases ps.len() - i,
    {
        proof {
            assert(ps@.take(i + 1).drop_last() =~= ps@.take(i as int));
            assert(ps@.take(i + 1).last() == ps@[i as int]);
            if i == 0 {
                assert(ps@.take(1)[0] == ps@[0]);
            }
        }
        if i > 0 {
            s.append(", ");
        }
        s.append(ps[i].name.as_str());
        i = i + 1;
    }
    assert(ps@.take(i as int) =~= ps@);
    s
}

/// Position of the project a command is for, or the error message.
fn resolve_index(config: &CliConfig, name: Option<&str>) -> (res: Result<usize, String>)
    ensures
        match (res, spec_resolve_project(*config, match name { Some(n) => Some(n@), None => None })) {
            (Ok(k), Ok(k2)) => k == k2 && k < config.projects@.len(),
            (Err(e), Err(m)) => e@ == m,
            _ => false,
        },
{
    match name {
        Some(n) => match find_project_index(&config.projects, n) {
            Some(k) => {
                proof {
                    lemma_find_from_bounds(config.projects@, n@, 0);
                }
                Ok(k)
            },
            None => {
                let names = project_names(&config.projects);
                let m = concat_str("Project '", n);
                let m = concat_str(m.as_str(), "' not found. Available: ");
                Err(concat_str(m.as_str(), names.as_str()))
            },
        },
        None => match &config.default_project {
            None => Err(String::from_str("No --project specified and no default_project in config")),
            Some(d) => match find_project_index(&config.projects, d.as_str()) {
                Some(k) => {
                    proof {
                        lemma_find_from_bounds(config.projects@, d@, 0);
                    }
                    Ok(k)
                },
                None => {
                    let m = concat_str("Default project '", d.as_str());
                    Err(concat_str(m.as_str(), "' not found in config"))
                },
            },
        },
    }
}

/// Resolve the project a command is for: the named one, or else the
/// configured default.
pub fn resolve_project<'a>(config: &'a CliConfig, name: Option<&str>) -> (res: Result<&'a ProjectConfig, String>)
    ensures
        match (res, spec_resolve_project(*config, match name { Some(n) => Some(n@), None => None })) {
            (Ok(p), Ok(k)) => 0 <= k < config.projects@.len() && *p == config.projects@[k],
            (Err(e), Err(m)) => e@ == m,
            _ => false,
        },
{
    let k = resolve_index(config, name)?;
    Ok(&config.projects[k])
}

/// What a cloud command is to do once its project is known; projects are
/// given by their position in the configuration.
pub enum CloudAction {
    ListProjects,
    ListSessions { project: usize, project_id: String, limit: u32, page: u32, json: bool },
    ShowSession { project: usize, project_id: String, session_id: String },
    Download {
        project: usize,
        project_id: String,
        session_id: String,
        output_dir: String,
        session_token: Option<String>,
    },
}

/// Mathematical form of a cloud action.
pub enum ActionModel {
    ListProjects,
    ListSessions { project: int, project_id: Seq<char>, limit: u32, page: u32, json: bool },
    ShowSession { project: int, project_id: Seq<char>, session_id: Seq<char> },
    Download {
        project: int,
        project_id: Seq<char>,
        session_id: Seq<char>,
        output_dir: Seq<char>,
        session_token: Option<Seq<char>>,
    },
}

impl CloudAction {
    pub open spec fn model(self) -> ActionModel {
        match self {
            CloudAction::ListProjects => ActionModel::ListProjects,
            CloudAction::ListSessions { project, project_id, limit, page, json } => ActionModel::ListSessions {
                project: project as int,
                project_id: project_id@,
                limit,
                page,
                json,
            },
            CloudAction::ShowSession { project, project_id, session_id } => ActionModel::ShowSession {
                project: project as int,
                project_id: project_id@,
                session_id: session_id@,
            },
            CloudAction::Download { project, project_id, session_id, output_dir, session_token } =>
                ActionModel::Download {
                project: project as int,
                project_id: project_id@,
                session_id: session_id@,
                output_dir: output_dir@,
                session_token: opt_view(session_token),
            },
        }
    }
}

/// The project of a command together with its project id; a project
/// without an id is an error.
pub open spec fn project_with_id(config: CliConfig, name: Option<Seq<char>>) -> Result<(int, Seq<char>), Seq<char>> {
    match spec_resolve_project(config, name) {
        Err(e) => Err(e),
        Ok(k) => match config.projects@[k].project_id {
            Some(id) => Ok((k, id@)),
            None => Err("Project '"@ + config.projects@[k].name@ + "' has no project_id in config"@),
        },
    }
}

/// What the cloud subcommand with these options does.
pub open spec fn spec_run(options: OptionsModel, config: CliConfig) -> Result<ActionModel, Seq<char>> {
    match options.command {
        CommandModel::Projects => Ok(ActionModel::ListProjects),
        CommandModel::Sessions { limit, page, json } => match project_with_id(config, options.project_name) {
            Err(e) => Err(e),
            Ok((k, id)) => Ok(ActionModel::ListSessions { project: k, project_id: id, limit, page, json }),
        },
        CommandModel::Info { session_id } => match project_with_id(config, options.project_name) {
            Err(e) => Err(e),
            Ok((k, id)) => Ok(ActionModel::ShowSession { project: k, project_id: id, session_id }),
        },
        CommandModel::Download { session_id, output } => match project_with_id(config, options.project_name) {
            Err(e) => Err(e),
            Ok((k, id)) => Ok(ActionModel::Download {
                project: k,
                project_id: id,
                session_id,
                output_dir: match output {
                    Some(o) => o,
                    None => "observability-"@ + session_id,
                },
                session_token: options.session_token,
            }),
        },
    }
}

fn project_with_id_exec(config: &CliConfig, name: &Option<String>) -> (res: Result<(usize, String), String>)
    ensures
        match (res, project_with_id(*config, opt_view(*name))) {
            (Ok((k, id)), Ok((k2, id2))) => k == k2 && id@ == id2 && k < config.projects@.len(),
            (Err(e), Err(m)) => e@ == m,
            _ => false,
        },
{
    let n: Option<&str> = match name {
        Some(s) => Some(s.as_str()),
        None => None,
    };
    let k = resolve_index(config, n)?;
    let p = &config.projects[k];
    match &p.project_id {
        Some(id) => Ok((k, String::from_str(id.as_str()))),
        None => {
            let m = concat_str("Project '", p.name.as_str());
            Err(concat_str(m.as_str(), "' has no project_id in config"))
        },
    }
}

/// Decide what the cloud subcommand does: list the projects, or, for the
/// other commands, find the project and its id and say what to fetch. The
/// configuration is read beforehand, and the fetching done afterwards, by
/// the caller.
pub fn run(options: CloudOptions, config: &CliConfig) -> (res: Result<CloudAction, String>)
    ensures
        match (res, spec_run(options.model(), *config)) {
            (Ok(a), Ok(m)) => a.model() == m,
            (Err(e), Err(m)) => e@ == m,
            _ => false,
        },
{
    match options.command {
        CloudCommand::Projects => Ok(CloudAction::ListProjects),
        CloudCommand::Sessions { limit, page, json } => {
            let (project, project_id) = project_with_id_exec(config, &options.project_name)?;
            Ok(CloudAction::ListSessions { project, project_id, limit, page, json })
        },
        CloudCommand::Info { session_id } => {
            let (project, project_id) = project_with_id_exec(config, &options.project_name)?;
            Ok(CloudAction::ShowSession { project, project_id, session_id })
        },
        CloudCommand::Download { session_id, output } => {
            let (project, project_id) = project_with_id_exec(config, &options.project_name)?;
            let output_dir = match output {
                Some(o) => o,
                None => concat_str("observability-", session_id.as_str()),
            };
            Ok(CloudAction::Download { project, project_id, session_id, output_dir, session_token: options.session_token })
        },
    }
}

} // verus!

verus! {

use crate::strings::{pad_right, pad_right_str, repeat_char, repeat_str, take_chars, prefix_chars};
use crate::ui::transcript::{spec_truncate_bytes, truncate_str};
use crate::strings::byte_len;
use crate::format::sat_sub3;
use vstd::utf8::{encode_utf8, is_char_boundary};

/// A timestamp such as "2026-02-23T15:30:00Z" with 'T' shown as a space and
/// 'Z' left out.
pub open spec fn clean_timestamp(ts: Seq<char>) -> Seq<char>
    decreases ts.len(),
{
    if ts.len() == 0 {
        Seq::empty()
    } else {
        let c = ts.last();
        let head = clean_timestamp(ts.drop_last());
        if c == 'Z' { head } else if c == 'T' { head.push(' ') } else { head.push(c) }
    }
}

/// Timestamp shown in tables: date and time without the 'T' and 'Z'
/// markers, at most nineteen characters.
pub fn format_timestamp(ts: &str) -> (res: String)
    ensures
        res@ == take_chars(clean_timestamp(ts@), 19),
{
    let v = chars_of(ts);
    let mut out: Vec<char> = Vec::new();
    let mut i: usize = 0;
    while i < v.len()
        invariant
            0 <= i <= v.len(),
            v@ == ts@,
            out@ == clean_timestamp(v@.take(i as int)),
        decreases v.len() - i,
    {
        let c = v[i];
        proof {
            assert(v@.take(i + 1).drop_last() =~= v@.take(i as int));
        }
        if c == 'Z' {
        } else if c == 'T' {
            out.push(' ');
        } else {
            out.push(c);
        }
        i = i + 1;
    }
    assert(v@.take(i as int) =~= v@);
    let s = string_from_chars_vec(&out);
    prefix_chars(s.as_str(), 19)
}

fn string_from_chars_vec(v: &Vec<char>) -> (s: String)
    ensures
        s@ == v@,
{
    crate::strings::string_from_chars(v.as_slice())
}

/// Truncate a string to `max` bytes, ending it with "..." when cut; the cut
/// must fall on a character boundary.
pub fn truncate(s: &str, max: usize) -> (res: String)
    requires
        byte_len(s@) > max ==> is_char_boundary(encode_utf8(s@), sat_sub3(max as int)),
    ensures
        res@ == spec_truncate_bytes(s@, max as int),
{
    truncate_str(s, max)
}

/// One row of the projects table.
pub open spec fn project_row(p: ProjectConfig, default_name: Seq<char>) -> Seq<char> {
    pad_right(p.name@, 25) + " "@ + pad_right(
        match p.project_id {
            Some(id) => id@,
            None => "-"@,
        },
        18,
    ) + " "@ + p.url@ + (if p.name@ == default_name { " *"@ } else { Seq::empty() })
}

/// The lines of the projects table: a header, a rule of eighty dashes, then
/// one row per project, the default one marked with " *".
pub open spec fn spec_projects_table(config: CliConfig) -> Seq<Seq<char>> {
    let default_name = match config.default_project {
        Some(d) => d@,
        None => ""@,
    };
    seq![
        pad_right("NAME"@, 25) + " "@ + pad_right("PROJECT_ID"@, 18) + " "@ + "URL"@,
        repeat_char('-', 80),
    ] + config.projects@.map_values(|p: ProjectConfig| project_row(p, default_name))
}

/// The table that the `projects` command prints.
pub fn projects_table(config: &CliConfig) -> (lines: Vec<String>)
    ensures
        crate::strings::strings_views(lines@) == spec_projects_table(*config),
{
    let default_name: &str = match &config.default_project {
        Some(d) => d.as_str(),
        None => "",
    };
    let ghost dn = match &config.default_project { Some(d) => d@, None => ""@ };
    let mut lines: Vec<String> = Vec::new();
    let h = pad_right_str("NAME", 25);
    let h = concat_str(h.as_str(), " ");
    let p = pad_right_str("PROJECT_ID", 18);
    let h = concat_str(h.as_str(), p.as_str());
    let h = concat_str(h.as_str(), " ");
    let h = concat_str(h.as_str(), "URL");
    lines.push(h);
    lines.push(repeat_str('-', 80));
    let mut i: usize = 0;
    while i < config.projects.len()
        invariant
            0 <= i <= config.projects.len(),
            default_name@ == dn,
            dn == (match config.default_project { Some(d) => d@, None => ""@ }),
            crate::strings::strings_views(lines@) == spec_projects_table(*config).take(i + 2),
            spec_projects_table(*config).len() == config.projects@.len() + 2,
        decreases config.projects.len() - i,
    {
        let pr = &config.projects[i];
        let pid: &str = match &pr.project_id {
            Some(id) => id.as_str(),
            None => "-",
        };
        let mut row = pad_right_str(pr.name.as_str(), 25);
        row.append(" ");
        let pp = pad_right_str(pid, 18);
        row.append(pp.as_str());
        row.append(" ");
        row.append(pr.url.as_str());
        let ghost base = row@;
        assert(base =~= pad_right(pr.name@, 25) + " "@ + pad_right(pid@, 18) + " "@ + pr.url@);
        let is_default = str_eq(pr.name.as_str(), default_name);
        if is_default {
            row.append(" *");
        }
        assert(row@ =~= base + (if is_default { " *"@ } else { Seq::<char>::empty() }));
        assert(pid@ == (match pr.project_id { Some(id) => id@, None => "-"@ }));
        assert(row@ =~= project_row(config.projects@[i as int], dn));
        let ghost before = lines@;
        lines.push(row);
        proof {
            assert(spec_projects_table(*config)[i + 2] == project_row(config.projects@[i as int], dn));
            assert(crate::strings::strings_views(lines@) =~= crate::strings::strings_views(before).push(row@));
            assert(spec_projects_table(*config).take(i + 3) =~= spec_projects_table(*config).take(i + 2).push(
                spec_projects_table(*config)[i + 2],
            ));
        }
        i = i + 1;
    }
    assert(spec_projects_table(*config).take(i + 2) =~= spec_projects_table(*config));
    lines
}

} // verus!

verus! {

use crate::json::{Json, JsonModel, model};
use crate::strings::{parse_u64, spec_parse_u64, chars_contains, contains_seq, trim, trim_chars, string_from_chars, str_byte_len};

/// A count the cloud API gives as a number or as a decimal string; 0 when
/// it is neither.
pub open spec fn spec_json_to_u64(v: JsonModel) -> int {
    match v {
        JsonModel::Number(_, u, _) => match u {
            Some(n) => n,
            None => 0,
        },
        JsonModel::Str(s) => match spec_parse_u64(s) {
            Some(n) => n,
            None => 0,
        },
        _ => 0,
    }
}

/// Read a count that the cloud API gives as a number or as a string.
pub fn json_to_u64(v: &Json) -> (r: u64)
    ensures
        r as int == spec_json_to_u64(model(*v)),
{
    match v {
        Json::Number(n) => match n.uint {
            Some(u) => u,
            None => 0,
        },
        Json::Str(s) => match parse_u64(s.as_str()) {
            Some(u) => u,
            None => 0,
        },
        _ => 0,
    }
}

/// Where the session token for a download comes from.
pub enum TokenChoice {
    /// Use this token and save it for later runs.
    UseAndSave(String),
    /// Use the saved token.
    UseSaved(String),
    /// Ask the user for one.
    Prompt,
}

/// The token choice: the command-line token first, then the environment's
/// token when it is not blank once trimmed, then the saved token, else a
/// prompt.
pub open spec fn spec_choose_token(flag: Option<Seq<char>>, env: Option<Seq<char>>, saved: Option<Seq<char>>) -> (
    int,
    Seq<char>,
) {
    match flag {
        Some(t) => (0, t),
        None => if env is Some && trim(env->0).len() > 0 {
            (0, trim(env->0))
        } else {
            match saved {
                Some(t) => (1, t),
                None => (2, Seq::empty()),
            }
        },
    }
}

impl TokenChoice {
    pub open spec fn kind(self) -> (int, Seq<char>) {
        match self {
            TokenChoice::UseAndSave(t) => (0, t@),
            TokenChoice::UseSaved(t) => (1, t@),
            TokenChoice::Prompt => (2, Seq::empty()),
        }
    }
}

pub open spec fn opt_str_view(o: Option<&str>) -> Option<Seq<char>> {
    match o {
        Some(s) => Some(s@),
        None => None,
    }
}

/// Resolve session token: the flag, then the environment, then the saved
/// token, then a prompt.
pub fn choose_session_token(flag: Option<&str>, env: Option<&str>, saved: Option<&str>) -> (r: TokenChoice)
    ensures
        r.kind() == spec_choose_token(opt_str_view(flag), opt_str_view(env), opt_str_view(saved)),
{
    match flag {
        Some(t) => return TokenChoice::UseAndSave(String::from_str(t)),
        None => {},
    }
    match env {
        Some(e) => {
            let t = trim_chars(&chars_of(e));
            if t.len() > 0 {
                return TokenChoice::UseAndSave(string_from_chars(t.as_slice()));
            }
        },
        None => {},
    }
    match saved {
        Some(t) => TokenChoice::UseSaved(String::from_str(t)),
        None => TokenChoice::Prompt,
    }
}

/// What to do with the answer to a download request.
pub enum DownloadOutcome {
    /// The session token was refused: ask for a new one.
    TokenExpired,
    /// The download failed.
    Failed,
    /// The archive came back.
    Received,
}

/// A 401 answer, or a 403 answer whose body says the user is not logged in
/// or carries code 1010, means the token expired; another 403, and any
/// status outside 200 to 299, is a failure.
pub open spec fn spec_download_outcome(status: u16, body: Seq<char>) -> DownloadOutcome {
    if status == 401 || status == 403 {
        if contains_seq(body, "not logged in"@) || contains_seq(body, "1010"@) || status == 401 {
            DownloadOutcome::TokenExpired
        } else {
            DownloadOutcome::Failed
        }
    } else if !(200 <= status <= 299) {
        DownloadOutcome::Failed
    } else {
        DownloadOutcome::Received
    }
}

/// Classify the answer to a download request.
pub fn download_outcome(status: u16, body: &str) -> (r: DownloadOutcome)
    ensures
        r == spec_download_outcome(status, body@),
{
    if status == 401 || status == 403 {
        let b = chars_of(body);
        if chars_contains(&b, &chars_of("not logged in")) || chars_contains(&b, &chars_of("1010")) || status == 401 {
            DownloadOutcome::TokenExpired
        } else {
            DownloadOutcome::Failed
        }
    } else if !(200 <= status && status <= 299) {
        DownloadOutcome::Failed
    } else {
        DownloadOutcome::Received
    }
}

pub open spec fn ends_with(s: Seq<char>, suffix: Seq<char>) -> bool {
    suffix.len() <= s.len() && s.skip(s.len() - suffix.len()) == suffix
}

/// The text after the last '.' of a name (the whole name without one).
pub open spec fn after_last_dot(s: Seq<char>) -> Seq<char>
    decreases s.len(),
{
    if s.len() == 0 {
        Seq::empty()
    } else if s.last() == '.' {
        Seq::empty()
    } else {
        after_last_dot(s.drop_last()).push(s.last())
    }
}

/// The name an archive entry is saved under: traces become "spans.json",
/// logs "logs.json", audio "audio." with its extension, and the chat
/// history "chat_history.json"; other entries keep their name.
pub open spec fn spec_saved_name(name: Seq<char>) -> Seq<char> {
    if ends_with(name, "_traces.json"@) {
        "spans.json"@
    } else if ends_with(name, "_logs.json"@) {
        "logs.json"@
    } else if contains_seq(name, "_audio."@) {
        "audio."@ + after_last_dot(name)
    } else if ends_with(name, "_chat_history.json"@) {
        "chat_history.json"@
    } else {
        name
    }
}

fn chars_ends_with(s: &Vec<char>, suffix: &str) -> (r: bool)
    ensures
        r == ends_with(s@, suffix@),
{
    let x = chars_of(suffix);
    if x.len() > s.len() {
        return false;
    }
    let tail = crate::strings::chars_range(s, s.len() - x.len(), s.len());
    assert(tail@ =~= s@.skip(s@.len() - x@.len()));
    crate::strings::chars_eq(&tail, &x)
}

/// The name under which a downloaded archive entry is saved.
pub fn saved_name(name: &str) -> (r: String)
    ensures
        r@ == spec_saved_name(name@),
{
    let v = chars_of(name);
    if chars_ends_with(&v, "_traces.json") {
        String::from_str("spans.json")
    } else if chars_ends_with(&v, "_logs.json") {
        String::from_str("logs.json")
    } else if chars_contains(&v, &chars_of("_audio.")) {
        let mut k: usize = v.len();
        assert(v@.take(k as int) =~= v@);
        assert(v@.skip(k as int) =~= Seq::<char>::empty());
        assert(after_last_dot(v@) + Seq::<char>::empty() =~= after_last_dot(v@));
        while k > 0 && v[k - 1] != '.'
            invariant
                0 <= k <= v.len(),
                after_last_dot(v@) == after_last_dot(v@.take(k as int)) + v@.skip(k as int),
            decreases k,
        {
            assert(v@.take(k as int).drop_last() =~= v@.take(k - 1));
            assert(v@.skip(k - 1) =~= seq![v@[k - 1]] + v@.skip(k as int));
            assert(after_last_dot(v@.take(k as int)) == after_last_dot(v@.take(k - 1)).push(v@[k - 1]));
            assert(after_last_dot(v@.take(k - 1)).push(v@[k - 1]) + v@.skip(k as int)
                =~= after_last_dot(v@.take(k - 1)) + v@.skip(k - 1));
            k = k - 1;
        }
        let ext = crate::strings::chars_range(&v, k, v.len());
        proof {
            if k > 0 {
                assert(v@.take(k as int).last() == '.');
            } else {
                assert(v@.take(0) =~= Seq::<char>::empty());
            }
            assert(ext@ =~= v@.skip(k as int));
        }
        let e = string_from_chars(ext.as_slice());
        concat_str("audio.", e.as_str())
    } else if chars_ends_with(&v, "_chat_history.json") {
        String::from_str("chat_history.json")
    } else {
        String::from_str(name)
    }
}

/// A room name shown in the sessions table: cut to its first 45 bytes and
/// "..." when longer than 48 bytes.
pub open spec fn room_cell(room: Seq<char>) -> Seq<char> {
    if byte_len(room) > 48 {
        vstd::utf8::decode_utf8(encode_utf8(room).subrange(0, 45)) + "..."@
    } else {
        room
    }
}

/// One row of the sessions table.
pub open spec fn spec_session_row(id: Seq<char>, room: Seq<char>, created: Seq<char>, users: u64) -> Seq<char> {
    pad_right(id, 20) + " "@ + pad_right(room_cell(room), 50) + " "@ + pad_right(
        take_chars(clean_timestamp(created), 19),
        22,
    ) + " "@ + crate::strings::pad_left(crate::strings::decimal(users as nat), 6)
}

/// One row of the sessions table: id, room, creation time and number of
/// participants. A long room name must be cut on a character boundary.
pub fn session_row(id: &str, room: &str, created: &str, users: u64) -> (r: String)
    requires
        byte_len(room@) > 48 ==> is_char_boundary(encode_utf8(room@), 45),
    ensures
        r@ == spec_session_row(id@, room@, created@, users),
{
    let cell = if str_byte_len(room) > 48 {
        let head = crate::strings::prefix_bytes_str(room, 45);
        concat_str(head, "...")
    } else {
        String::from_str(room)
    };
    let mut r = pad_right_str(id, 20);
    r.append(" ");
    r.append(pad_right_str(cell.as_str(), 50).as_str());
    r.append(" ");
    let created_cell = format_timestamp(created);
    r.append(pad_right_str(created_cell.as_str(), 22).as_str());
    r.append(" ");
    let n = crate::strings::u64_to_decimal(users);
    r.append(crate::strings::pad_left_str(n.as_str(), 6).as_str());
    r
}

} // verus!
