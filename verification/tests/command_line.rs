use livekit_analyzer::cli::{parse_args, ParsedArgs, ReportMode};
use livekit_analyzer::cloud::{
    choose_session_token, download_outcome, format_timestamp, json_to_u64, parse_cloud_args, projects_table,
    resolve_project, run, saved_name, session_row, truncate, CliConfig, CloudAction, CloudCommand, CloudOptions,
    DownloadOutcome, ProjectConfig, TokenChoice,
};
use livekit_analyzer::json::{Json, JsonNumber};

fn args(v: &[&str]) -> Vec<String> {
    v.iter().map(|s| s.to_string()).collect()
}

fn project(name: &str, id: Option<&str>) -> ProjectConfig {
    ProjectConfig {
        name: name.to_string(),
        project_id: id.map(|s| s.to_string()),
        url: format!("wss://{}.livekit.cloud", name),
        api_key: "key".to_string(),
        api_secret: "secret".to_string(),
    }
}

fn config() -> CliConfig {
    CliConfig {
        default_project: Some("main".to_string()),
        projects: vec![project("main", Some("p_main")), project("other", None)],
    }
}

#[test]
fn main_args_modes_and_inputs() {
    match parse_args(&args(&["prog", "dir", "--json", "-o", "out.json"])) {
        Ok(ParsedArgs::Run(o)) => {
            assert_eq!(o.inputs, vec!["dir".to_string()]);
            assert_eq!(o.report_mode, ReportMode::Json);
            assert_eq!(o.output_file, Some("out.json".to_string()));
        },
        _ => panic!("expected a run"),
    }
}

#[test]
fn main_args_last_mode_wins() {
    match parse_args(&args(&["prog", "--summary", "a", "--dump", "b.pcap"])) {
        Ok(ParsedArgs::Run(o)) => {
            assert_eq!(o.report_mode, ReportMode::Dump);
            assert_eq!(o.inputs, vec!["a".to_string(), "b.pcap".to_string()]);
        },
        _ => panic!("expected a run"),
    }
}

#[test]
fn main_args_errors_and_help() {
    assert!(matches!(parse_args(&args(&["prog", "-h"])), Ok(ParsedArgs::Help)));
    assert_eq!(parse_args(&args(&["prog"])).err(), Some("No input specified".to_string()));
    assert_eq!(parse_args(&args(&["prog", "--bogus"])).err(), Some("Unknown option: --bogus".to_string()));
    assert_eq!(
        parse_args(&args(&["prog", "x", "-o"])).err(),
        Some("--output requires a file path argument".to_string())
    );
}

#[test]
fn cloud_args_sessions_defaults() {
    let o = parse_cloud_args(&args(&["sessions"])).ok().unwrap();
    match o.command {
        CloudCommand::Sessions { limit, page, json } => {
            assert_eq!(limit, 20);
            assert_eq!(page, 0);
            assert!(!json);
        },
        _ => panic!("expected sessions"),
    }
    assert_eq!(o.project_name, None);
}

#[test]
fn cloud_args_options() {
    let o = parse_cloud_args(&args(&["list", "--limit", "5", "--page", "2", "--json", "-p", "prod"])).ok().unwrap();
    match o.command {
        CloudCommand::Sessions { limit, page, json } => {
            assert_eq!((limit, page, json), (5, 2, true));
        },
        _ => panic!("expected sessions"),
    }
    assert_eq!(o.project_name, Some("prod".to_string()));
}

#[test]
fn cloud_args_download() {
    let o = parse_cloud_args(&args(&["download", "RM_1", "-o", "dir", "-t", "tok"])).ok().unwrap();
    match o.command {
        CloudCommand::Download { session_id, output } => {
            assert_eq!(session_id, "RM_1");
            assert_eq!(output, Some("dir".to_string()));
        },
        _ => panic!("expected download"),
    }
    assert_eq!(o.session_token, Some("tok".to_string()));
}

#[test]
fn cloud_args_errors() {
    assert_eq!(
        parse_cloud_args(&[]).err(),
        Some("Missing cloud subcommand. Use: projects, sessions, info, download".to_string())
    );
    assert_eq!(parse_cloud_args(&args(&["info"])).err(), Some("Missing SESSION_ID argument".to_string()));
    assert_eq!(parse_cloud_args(&args(&["sessions", "--limit", "x"])).err(), Some("Invalid limit: x".to_string()));
    assert_eq!(parse_cloud_args(&args(&["sessions", "--page"])).err(), Some("--page requires a number".to_string()));
    assert_eq!(parse_cloud_args(&args(&["help"])).err(), Some("show_help".to_string()));
    assert_eq!(
        parse_cloud_args(&args(&["nope"])).err(),
        Some("Unknown cloud command: 'nope'. Use: projects, sessions, info, download".to_string())
    );
    assert_eq!(parse_cloud_args(&args(&["sessions", "-x"])).err(), Some("Unknown option: -x".to_string()));
}

#[test]
fn resolve_project_by_name_and_default() {
    let c = config();
    assert_eq!(resolve_project(&c, Some("other")).ok().unwrap().name, "other");
    assert_eq!(resolve_project(&c, None).ok().unwrap().name, "main");
    assert_eq!(
        resolve_project(&c, Some("x")).err(),
        Some("Project 'x' not found. Available: main, other".to_string())
    );
    let no_default = CliConfig { default_project: None, projects: vec![] };
    assert_eq!(
        resolve_project(&no_default, None).err(),
        Some("No --project specified and no default_project in config".to_string())
    );
}

#[test]
fn run_decides_actions() {
    let c = config();
    let opts = CloudOptions {
        command: CloudCommand::Download { session_id: "RM_9".to_string(), output: None },
        project_name: None,
        session_token: None,
    };
    match run(opts, &c) {
        Ok(CloudAction::Download { project, project_id, output_dir, .. }) => {
            assert_eq!(project, 0);
            assert_eq!(project_id, "p_main");
            assert_eq!(output_dir, "observability-RM_9");
        },
        _ => panic!("expected a download"),
    }
    let opts = CloudOptions {
        command: CloudCommand::Info { session_id: "RM_9".to_string() },
        project_name: Some("other".to_string()),
        session_token: None,
    };
    assert_eq!(run(opts, &c).err(), Some("Project 'other' has no project_id in config".to_string()));
    let opts = CloudOptions { command: CloudCommand::Projects, project_name: None, session_token: None };
    assert!(matches!(run(opts, &c), Ok(CloudAction::ListProjects)));
}

#[test]
fn cloud_timestamps_and_truncation() {
    assert_eq!(format_timestamp("2026-02-23T15:30:00Z"), "2026-02-23 15:30:00");
    assert_eq!(format_timestamp("2026-02-23T15:30:00.123456Z"), "2026-02-23 15:30:00");
    assert_eq!(truncate("abcdefgh", 5), "ab...");
    assert_eq!(truncate("abc", 5), "abc");
}

#[test]
fn projects_table_marks_default() {
    let lines = projects_table(&config());
    assert_eq!(lines.len(), 4);
    assert_eq!(lines[1], "-".repeat(80));
    assert!(lines[2].starts_with("main"));
    assert!(lines[2].ends_with(" *"));
    assert!(lines[3].contains(&format!("-{}wss://other.livekit.cloud", " ".repeat(18))));
    assert!(!lines[3].ends_with(" *"));
}

#[test]
fn counts_from_numbers_or_text() {
    let n = Json::Number(JsonNumber { int: Some(7), uint: Some(7), text: "7".to_string() });
    assert_eq!(json_to_u64(&n), 7);
    assert_eq!(json_to_u64(&Json::Str("12".to_string())), 12);
    assert_eq!(json_to_u64(&Json::Str("x".to_string())), 0);
    assert_eq!(json_to_u64(&Json::Null), 0);
    let neg = Json::Number(JsonNumber { int: Some(-3), uint: None, text: "-3".to_string() });
    assert_eq!(json_to_u64(&neg), 0);
}

#[test]
fn session_token_precedence() {
    assert!(matches!(choose_session_token(Some("a"), Some("b"), Some("c")), TokenChoice::UseAndSave(t) if t == "a"));
    assert!(matches!(choose_session_token(None, Some("  b "), Some("c")), TokenChoice::UseAndSave(t) if t == "b"));
    assert!(matches!(choose_session_token(None, Some("   "), Some("c")), TokenChoice::UseSaved(t) if t == "c"));
    assert!(matches!(choose_session_token(None, None, None), TokenChoice::Prompt));
}

#[test]
fn download_answers() {
    assert!(matches!(download_outcome(401, ""), DownloadOutcome::TokenExpired));
    assert!(matches!(download_outcome(403, "you are not logged in"), DownloadOutcome::TokenExpired));
    assert!(matches!(download_outcome(403, "forbidden"), DownloadOutcome::Failed));
    assert!(matches!(download_outcome(500, ""), DownloadOutcome::Failed));
    assert!(matches!(download_outcome(200, ""), DownloadOutcome::Received));
}

#[test]
fn archive_entries_renamed() {
    assert_eq!(saved_name("p_1_RM_2_traces.json"), "spans.json");
    assert_eq!(saved_name("p_1_RM_2_logs.json"), "logs.json");
    assert_eq!(saved_name("p_1_RM_2_audio.ogg"), "audio.ogg");
    assert_eq!(saved_name("p_1_RM_2_chat_history.json"), "chat_history.json");
    assert_eq!(saved_name("other.txt"), "other.txt");
}

#[test]
fn session_rows_are_aligned() {
    let row = session_row("RM_1", "room", "2026-02-23T15:30:00Z", 3);
    assert_eq!(row.chars().count(), 20 + 1 + 50 + 1 + 22 + 1 + 6);
    assert!(row.starts_with(&format!("RM_1{}room", " ".repeat(17))));
    assert!(row.ends_with("     3"));
    let long_room = "r".repeat(60);
    let row = session_row("RM_1", &long_room, "", 0);
    assert!(row.contains(&format!("{}...", "r".repeat(45))));
}
