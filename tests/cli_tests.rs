use agent_browser_cli::config::{ConfigTree, ConfigValue, merge_layers};
use agent_browser_cli::env::{EnvVars, split_extension_list};
use agent_browser_cli::layers::{load_config, parse_config_layer};
use agent_browser_cli::settings::{parse_flags, Flags};
use agent_browser_cli::strip::clean_args;
use agent_browser_cli::table::{lookup_flag, GlobalFlag};

fn args(s: &str) -> Vec<String> {
    s.split_whitespace().map(String::from).collect()
}

fn parse(a: &[String]) -> Flags {
    parse_flags(a, &ConfigTree::new(), &EnvVars::empty())
}

#[test]
fn test_parse_headers_flag() {
    let flags = parse(&args(r#"open example.com --headers {"Auth":"token"}"#));
    assert_eq!(flags.headers, Some(r#"{"Auth":"token"}"#.to_string()));
}

#[test]
fn test_parse_headers_flag_with_spaces() {
    let input: Vec<String> = vec![
        "open".to_string(),
        "example.com".to_string(),
        "--headers".to_string(),
        r#"{"Authorization": "Bearer token"}"#.to_string(),
    ];
    let flags = parse(&input);
    assert_eq!(flags.headers, Some(r#"{"Authorization": "Bearer token"}"#.to_string()));
}

#[test]
fn test_parse_no_headers_flag() {
    let flags = parse(&args("open example.com"));
    assert!(flags.headers.is_none());
}

#[test]
fn test_clean_args_removes_headers() {
    let input: Vec<String> = vec![
        "open".to_string(),
        "example.com".to_string(),
        "--headers".to_string(),
        r#"{"Auth":"token"}"#.to_string(),
    ];
    let clean = clean_args(&input);
    assert_eq!(clean, vec!["open", "example.com"]);
}

#[test]
fn test_clean_args_removes_headers_at_start() {
    let input: Vec<String> = vec![
        "--headers".to_string(),
        r#"{"Auth":"token"}"#.to_string(),
        "open".to_string(),
        "example.com".to_string(),
    ];
    let clean = clean_args(&input);
    assert_eq!(clean, vec!["open", "example.com"]);
}

#[test]
fn test_headers_with_other_flags() {
    let input: Vec<String> = vec![
        "open".to_string(),
        "example.com".to_string(),
        "--headers".to_string(),
        r#"{"Auth":"token"}"#.to_string(),
        "--json".to_string(),
        "--headed".to_string(),
    ];
    let flags = parse(&input);
    assert_eq!(flags.headers, Some(r#"{"Auth":"token"}"#.to_string()));
    assert!(flags.json);
    assert!(flags.headed);

    let clean = clean_args(&input);
    assert_eq!(clean, vec!["open", "example.com"]);
}

#[test]
fn test_parse_executable_path_flag() {
    let flags = parse(&args("--executable-path /path/to/chromium open example.com"));
    assert_eq!(flags.executable_path, Some("/path/to/chromium".to_string()));
}

#[test]
fn test_parse_executable_path_flag_no_value() {
    let flags = parse(&args("--executable-path"));
    assert_eq!(flags.executable_path, None);
}

#[test]
fn test_clean_args_removes_executable_path() {
    let cleaned = clean_args(&args("--executable-path /path/to/chromium open example.com"));
    assert_eq!(cleaned, vec!["open", "example.com"]);
}

#[test]
fn test_clean_args_removes_executable_path_with_other_flags() {
    let cleaned = clean_args(&args(
        "--json --executable-path /path/to/chromium --headed open example.com",
    ));
    assert_eq!(cleaned, vec!["open", "example.com"]);
}

#[test]
fn test_parse_flags_with_session_and_executable_path() {
    let flags = parse(&args("--session test --executable-path /custom/chrome open example.com"));
    assert_eq!(flags.session, "test");
    assert_eq!(flags.executable_path, Some("/custom/chrome".to_string()));
}

#[test]
fn test_cli_executable_path_tracking() {
    let flags = parse(&args("--executable-path /path/to/chrome snapshot"));
    assert!(flags.cli_executable_path);
    assert_eq!(flags.executable_path, Some("/path/to/chrome".to_string()));
}

#[test]
fn test_cli_executable_path_not_set_without_flag() {
    let flags = parse(&args("snapshot"));
    assert!(!flags.cli_executable_path);
}

#[test]
fn test_cli_extension_tracking() {
    let flags = parse(&args("--extension /path/to/ext snapshot"));
    assert!(flags.cli_extensions);
}

#[test]
fn test_cli_profile_tracking() {
    let flags = parse(&args("--profile /path/to/profile snapshot"));
    assert!(flags.cli_profile);
}

#[test]
fn test_cli_multiple_flags_tracking() {
    let flags = parse(&args(
        "--executable-path /chrome --profile /profile --proxy http://proxy snapshot",
    ));
    assert!(flags.cli_executable_path);
    assert!(flags.cli_profile);
    assert!(flags.cli_proxy);
    assert!(!flags.cli_extensions);
    assert!(!flags.cli_state);
}

fn env_with_profile_and_path() -> EnvVars {
    let mut env = EnvVars::empty();
    env.profile = Some("/env/profile".to_string());
    env.executable_path = Some("/env/chrome".to_string());
    env.headed = true;
    env
}

fn config_with(pairs: &[(&str, ConfigValue)]) -> ConfigTree {
    let mut t = ConfigTree::new();
    for (k, v) in pairs {
        t.insert(k.to_string(), v.clone());
    }
    t
}

#[test]
fn environment_wins_over_config() {
    let config = config_with(&[
        ("profile", ConfigValue::Str("/cfg/profile".to_string())),
        ("proxy", ConfigValue::Str("http://cfg".to_string())),
    ]);
    let flags = parse_flags(&args("snapshot"), &config, &env_with_profile_and_path());
    assert_eq!(flags.profile, Some("/env/profile".to_string()));
    assert_eq!(flags.proxy, Some("http://cfg".to_string()));
    assert!(flags.headed);
    assert!(!flags.cli_profile);
}

#[test]
fn last_occurrence_wins_and_extensions_accumulate() {
    let flags = parse(&args("--profile x --profile y --extension a --extension b"));
    assert_eq!(flags.profile, Some("y".to_string()));
    assert_eq!(flags.extensions, vec!["a".to_string(), "b".to_string()]);
    assert!(flags.cli_extensions);
}

#[test]
fn trailing_value_flag_keeps_resolved_value() {
    let flags = parse_flags(&args("--executable-path"), &ConfigTree::new(), &env_with_profile_and_path());
    assert_eq!(flags.executable_path, Some("/env/chrome".to_string()));
    assert!(!flags.cli_executable_path);
    assert_eq!(clean_args(&args("open --executable-path")), vec!["open"]);
}

#[test]
fn provenance_false_when_only_environment_sets_path() {
    let flags = parse_flags(&args("snapshot"), &ConfigTree::new(), &env_with_profile_and_path());
    assert_eq!(flags.executable_path, Some("/env/chrome".to_string()));
    assert!(!flags.cli_executable_path);
}

#[test]
fn session_defaults_and_short_aliases() {
    let flags = parse(&args("-f -p remote --allow-file-access"));
    assert_eq!(flags.session, "default");
    assert!(flags.full);
    assert_eq!(flags.provider, Some("remote".to_string()));
    assert!(flags.allow_file_access);
    assert!(flags.cli_allow_file_access);
    assert_eq!(clean_args(&args("-f -p remote click --unknown")), vec!["click", "--unknown"]);
}

#[test]
fn value_flag_consumes_a_flag_like_token() {
    let flags = parse(&args("--session --json"));
    assert_eq!(flags.session, "--json");
    assert!(!flags.json);
    assert_eq!(clean_args(&args("--session --json rest")), vec!["rest"]);
}

#[test]
fn strip_is_idempotent_and_keeps_clean_input() {
    let once = clean_args(&args("--json a --cdp 9222 b -f c"));
    assert_eq!(once, vec!["a", "b", "c"]);
    assert_eq!(clean_args(&once), once);
    assert_eq!(clean_args(&Vec::new()), Vec::<String>::new());
}

#[test]
fn lookup_reads_the_table() {
    assert_eq!(lookup_flag("--proxy-bypass"), Some(GlobalFlag::ProxyBypass));
    assert_eq!(lookup_flag("-p"), Some(GlobalFlag::Provider));
    assert_eq!(lookup_flag("open"), None);
}

#[test]
fn extension_list_from_environment() {
    assert_eq!(split_extension_list(" a , ,b,"), vec!["a".to_string(), "b".to_string()]);
    assert_eq!(split_extension_list(""), Vec::<String>::new());
    assert_eq!(split_extension_list("\u{3000}x\t,\u{a0}"), vec!["x".to_string()]);
    let mut env = EnvVars::empty();
    env.extensions = Some(" , ".to_string());
    let config = config_with(&[(
        "extensions",
        ConfigValue::Array(vec![Some("cfg".to_string()), None]),
    )]);
    let flags = parse_flags(&args("--extension cli"), &config, &env);
    assert_eq!(flags.extensions, vec!["cfg".to_string(), "cli".to_string()]);
    env.extensions = Some("e1,e2".to_string());
    let flags = parse_flags(&args(""), &config, &env);
    assert_eq!(flags.extensions, vec!["e1".to_string(), "e2".to_string()]);
}

#[test]
fn project_layer_overrides_user_layer() {
    let user = config_with(&[
        ("profile", ConfigValue::Str("/user".to_string())),
        ("headed", ConfigValue::Bool(true)),
    ]);
    let project = config_with(&[
        ("profile", ConfigValue::Str("/project".to_string())),
        ("state", ConfigValue::Str("s.json".to_string())),
    ]);
    let merged = merge_layers(Some(user), Some(project));
    assert_eq!(merged.get_str("profile"), Some("/project".to_string()));
    assert_eq!(merged.get_str("state"), Some("s.json".to_string()));
    assert!(merged.get_bool("headed"));
}

#[test]
fn config_text_layers() {
    let tree = load_config(
        Some(r#"{"headed": true, "session": "u", "extensions": ["x", 3, "y"]}"#.to_string()),
        Some(r#"{"session": "p", "executablePath": "/bin/c"}"#.to_string()),
    );
    assert!(tree.get_bool("headed"));
    assert_eq!(tree.get_str("session"), Some("p".to_string()));
    assert_eq!(tree.get_strings("extensions"), vec!["x".to_string(), "y".to_string()]);
    let flags = parse_flags(&args("open"), &tree, &EnvVars::empty());
    assert_eq!(flags.session, "p");
    assert_eq!(flags.executable_path, Some("/bin/c".to_string()));
    assert!(parse_config_layer("[1, 2]").is_none());
    assert!(parse_config_layer("not json").is_none());
    let only_project = load_config(Some("oops".to_string()), Some(r#"{"proxy": "http://p"}"#.to_string()));
    assert_eq!(only_project.get_str("proxy"), Some("http://p".to_string()));
    let none = load_config(None, None);
    assert!(none.entries.is_empty());
}
