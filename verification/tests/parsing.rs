use lazydeck::system::{edit_suffix, edit_tempfile_name, editor_command, start_failure, tempfile_name, EditorError};
use lazydeck::cli::{parse_cli_options, CliCommand, CliError, CliPath};
use lazydeck::command::{parse_command, parse_i16, resolve_command_path, CdError, Command, CommandError};
use lazydeck::path_codec::decode_path_segment_input;
use lazydeck::paths::{
    cache_dir, config_dir, config_file, data_dir, join_path, lua_log_file, resolve_base_dir,
    resolve_config_path, rust_log_file, state_dir, stdpath, DirEnv,
};

fn args(list: &[&str]) -> Vec<Option<String>> {
    list.iter().skip(1).map(|s| Some(s.to_string())).collect()
}

fn run_options(list: &[&str]) -> (Vec<String>, Option<String>) {
    match parse_cli_options(&args(list)).unwrap() {
        CliCommand::Run(opt) => (
            opt.initial_path,
            opt.config_path.map(|p| match p {
                CliPath::Text(t) => t,
                CliPath::Arg(i) => panic!("unexpected raw argument {i}"),
            }),
        ),
        _ => panic!("expected options"),
    }
}

#[test]
fn parse_cli_options_defaults_to_root() {
    let (path, config) = run_options(&["lazydeck"]);
    assert_eq!(path, Vec::<String>::new());
    assert!(config.is_none());
}

#[test]
fn parse_cli_options_parses_initial_path() {
    let (path, _) = run_options(&["lazydeck", "/docker/container"]);
    assert_eq!(path, vec!["docker".to_string(), "container".to_string()]);
}

#[test]
fn parse_cli_options_parses_config_flag() {
    let (_, config) = run_options(&["lazydeck", "-c", "/tmp/demo/init.lua"]);
    assert_eq!(config.as_deref(), Some("/tmp/demo/init.lua"));
}

#[test]
fn parse_cli_options_parses_config_equals_form() {
    let (_, config) = run_options(&["lazydeck", "--config=/tmp/demo"]);
    assert_eq!(config.as_deref(), Some("/tmp/demo"));
}

#[test]
fn parse_cli_options_rejects_missing_config_path() {
    assert!(parse_cli_options(&args(&["lazydeck", "-c"])).is_err());
    assert!(parse_cli_options(&args(&["lazydeck", "--config"])).is_err());
}

#[test]
fn parse_cli_options_rejects_extra_args() {
    assert!(parse_cli_options(&args(&["lazydeck", "/docker", "/extra"])).is_err());
}

#[test]
fn parse_cli_options_supports_help_flag() {
    assert!(matches!(parse_cli_options(&args(&["lazydeck", "--help"])), Ok(CliCommand::Help)));
    assert!(matches!(parse_cli_options(&args(&["lazydeck", "-h"])), Ok(CliCommand::Help)));
}

#[test]
fn parse_cli_options_supports_version_flag() {
    assert!(matches!(parse_cli_options(&args(&["lazydeck", "--version"])), Ok(CliCommand::Version)));
    assert!(matches!(parse_cli_options(&args(&["lazydeck", "-V"])), Ok(CliCommand::Version)));
}

#[test]
fn parse_cli_options_reports_each_error() {
    assert!(matches!(parse_cli_options(&vec![None]), Err(CliError::NotUtf8)));
    assert!(matches!(parse_cli_options(&args(&["lazydeck", "--config="])), Err(CliError::EmptyValue)));
    match parse_cli_options(&args(&["lazydeck", "--bogus"])) {
        Err(CliError::UnknownOption(o)) => assert_eq!(o, "--bogus"),
        _ => panic!("expected unknown option"),
    }
    match parse_cli_options(&args(&["lazydeck", "-c"])) {
        Err(CliError::MissingValue(o)) => assert_eq!(o, "-c"),
        _ => panic!("expected missing value"),
    }
    assert!(matches!(
        parse_cli_options(&args(&["lazydeck", "/a", "/b"])),
        Err(CliError::UnexpectedArgument)
    ));
    match parse_cli_options(&args(&["lazydeck", "/a/%FF"])) {
        Err(CliError::InvalidSegment(s)) => assert_eq!(s, "%FF"),
        _ => panic!("expected invalid segment"),
    }
}

#[test]
fn parse_cli_options_keeps_raw_config_argument() {
    let list = vec![Some("-c".to_string()), None];
    match parse_cli_options(&list) {
        Ok(CliCommand::Run(opt)) => assert!(matches!(opt.config_path, Some(CliPath::Arg(1)))),
        _ => panic!("expected options"),
    }
}

fn base(env: Option<&str>, home: Option<&str>, fallback: &str) -> Option<String> {
    resolve_base_dir(env, home, fallback)
}

#[test]
fn absolute_env_var_wins() {
    assert_eq!(base(Some("/custom/config"), Some("/home/user"), ".config"), Some("/custom/config".to_string()));
}

#[test]
fn empty_and_relative_env_vars_are_ignored() {
    assert_eq!(base(Some(""), Some("/home/user"), ".config"), Some("/home/user/.config".to_string()));
    assert_eq!(
        base(Some("relative/config"), Some("/home/user"), ".config"),
        Some("/home/user/.config".to_string())
    );
}

#[test]
fn missing_home_falls_back_to_none() {
    assert_eq!(base(None, None, ".config"), None);
}

#[test]
fn home_relative_fallbacks_are_appended() {
    assert_eq!(base(None, Some("/home/user"), ".local/share"), Some("/home/user/.local/share".to_string()));
}

fn env() -> DirEnv {
    DirEnv {
        home: Some("/home/user".to_string()),
        temp_dir: "/tmp".to_string(),
        xdg_config_home: None,
        xdg_data_home: Some("/data".to_string()),
        xdg_state_home: Some("relative".to_string()),
        xdg_cache_home: None,
    }
}

#[test]
fn application_directories_follow_the_environment() {
    let e = env();
    assert_eq!(config_dir(&e), "/home/user/.config/lazydeck");
    assert_eq!(data_dir(&e), "/data/lazydeck");
    assert_eq!(state_dir(&e), "/home/user/.local/state/lazydeck");
    assert_eq!(cache_dir(&e), "/home/user/.cache/lazydeck");
    assert_eq!(config_file(&e), "/home/user/.config/lazydeck/init.lua");
    assert_eq!(stdpath("data", &e), Some("/data/lazydeck".to_string()));
    assert_eq!(stdpath("bogus", &e), None);
    assert!(rust_log_file(&e).starts_with("/home/user/.local/state/lazydeck/"));
    assert!(lua_log_file(&e).starts_with("/home/user/.local/state/lazydeck/"));
}

#[test]
fn directories_fall_back_to_temp_without_home() {
    let e = DirEnv {
        home: None,
        temp_dir: "/tmp".to_string(),
        xdg_config_home: None,
        xdg_data_home: None,
        xdg_state_home: None,
        xdg_cache_home: None,
    };
    assert_eq!(config_dir(&e), "/tmp/lazydeck-config/lazydeck");
}

#[test]
fn join_path_inserts_one_separator() {
    assert_eq!(join_path("/a", "b"), "/a/b");
    assert_eq!(join_path("/a/", "b"), "/a/b");
    assert_eq!(join_path("/a", "/b"), "/b");
}

#[test]
fn config_path_resolves_directories_to_init_file() {
    assert_eq!(resolve_config_path("/tmp/demo/init.lua"), "/tmp/demo/init.lua");
    assert_eq!(resolve_config_path("/tmp/demo"), "/tmp/demo/init.lua");
}

#[test]
fn resolve_command_path_supports_absolute_relative_and_parent_segments() {
    let current_path = vec!["github".to_string(), "search".to_string()];

    assert_eq!(
        resolve_command_path(&current_path, "/github/repo/lazygit").unwrap(),
        vec!["github".to_string(), "repo".to_string(), "lazygit".to_string()]
    );
    assert_eq!(
        resolve_command_path(&current_path, "repo/lazygit").unwrap(),
        vec!["github".to_string(), "search".to_string(), "repo".to_string(), "lazygit".to_string()]
    );
    assert_eq!(
        resolve_command_path(&current_path, "../repo/lazygit").unwrap(),
        vec!["github".to_string(), "repo".to_string(), "lazygit".to_string()]
    );
    assert_eq!(resolve_command_path(&current_path, "/").unwrap(), Vec::<String>::new());
}

#[test]
fn resolve_command_path_decodes_percent_encoded_segments() {
    let current_path = vec!["github".to_string(), "repo".to_string(), "tpope".to_string()];

    assert_eq!(
        resolve_command_path(&current_path, "vim-abolish/tags/feature%2Ftest").unwrap(),
        vec![
            "github".to_string(),
            "repo".to_string(),
            "tpope".to_string(),
            "vim-abolish".to_string(),
            "tags".to_string(),
            "feature/test".to_string(),
        ]
    );
}

#[test]
fn resolve_command_path_reports_errors() {
    let current_path = vec!["a".to_string()];
    assert_eq!(resolve_command_path(&current_path, "  "), Err(CdError::MissingTarget));
    assert_eq!(
        resolve_command_path(&current_path, "x/%C3%28"),
        Err(CdError::InvalidSegment("%C3%28".to_string()))
    );
    assert_eq!(resolve_command_path(&current_path, "../.."), Ok(Vec::<String>::new()));
}

#[test]
fn decode_path_segment_input_decodes_escapes() {
    assert_eq!(decode_path_segment_input("feature%2Ftest").unwrap(), "feature/test");
    assert_eq!(decode_path_segment_input("%E6%90%9C").unwrap(), "搜");
    assert_eq!(decode_path_segment_input("%FF").unwrap_err().segment, "%FF");
}

#[test]
fn parse_i16_accepts_signed_decimals() {
    assert_eq!(parse_i16("42"), Some(42));
    assert_eq!(parse_i16("-5"), Some(-5));
    assert_eq!(parse_i16("+7"), Some(7));
    assert_eq!(parse_i16("32768"), None);
    assert_eq!(parse_i16("-32768"), Some(-32768));
    assert_eq!(parse_i16("x"), None);
    assert_eq!(parse_i16(""), None);
}

#[test]
fn parse_command_recognises_commands() {
    assert!(matches!(parse_command("   "), Err(CommandError::Empty)));
    assert!(matches!(parse_command("'unclosed"), Err(CommandError::Syntax)));
    assert!(parse_command("reload").is_ok());
    let _ = Command::Reload;
}

#[test]
fn bad_scroll_counts_name_their_command() {
    assert_eq!(parse_command("scroll_by x"), Err(CommandError::BadScrollCount));
    assert_eq!(parse_command("scroll_preview_by 99999"), Err(CommandError::BadPreviewScrollCount));
    assert_eq!(CommandError::BadScrollCount.message(), "wrong format for scroll_by");
    assert_eq!(CommandError::BadPreviewScrollCount.message(), "wrong format for scroll_preview_by");
    assert_eq!(CommandError::Syntax.message(), "missing closing quote");
    assert_eq!(CommandError::Empty.message(), "Empty command");
}

#[test]
fn editor_command_prefers_visual_then_editor_then_vi() {
    assert_eq!(editor_command(Some("code -w"), Some("nano")), Ok(vec!["code".to_string(), "-w".to_string()]));
    assert_eq!(editor_command(Some("  "), Some("nano")), Ok(vec!["nano".to_string()]));
    assert_eq!(editor_command(None, None), Ok(vec!["vi".to_string()]));
    assert_eq!(editor_command(Some("'vim"), None), Err(EditorError::Parse));
    assert_eq!(EditorError::Empty.message(), "Empty editor command");
}

#[test]
fn edit_suffix_uses_hint_or_path_extension() {
    assert_eq!(edit_suffix(Some("/tmp/a.md"), Some(" ..toml ")), ".toml");
    assert_eq!(edit_suffix(Some("/tmp/a.md"), Some("  ")), ".md");
    assert_eq!(edit_suffix(Some("/tmp/.bashrc"), None), "");
    assert_eq!(edit_suffix(None, None), "");
    assert_eq!(edit_tempfile_name(42, 7, ".md"), "lazydeck-edit-42-7.md");
}

#[test]
fn tempfile_names_follow_prefix_and_suffix() {
    let nanos: u128 = 0x1234_5678_9abc;
    assert_eq!(tempfile_name(None, None, nanos), "tmp.12345678");
    assert_eq!(tempfile_name(Some("test"), None, nanos), "test12345678");
    assert_eq!(tempfile_name(None, Some(".txt"), nanos), "12345678.txt");
    assert_eq!(tempfile_name(Some("p"), Some("log"), nanos), "p12345678.log");
}

#[test]
fn start_failures_report_exit_codes() {
    assert_eq!(start_failure(true, "nope", "x".to_string()), (127, "command not found: nope".to_string()));
    assert_eq!(start_failure(false, "nope", "denied".to_string()), (1, "denied".to_string()));
}
