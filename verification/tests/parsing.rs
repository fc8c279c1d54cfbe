use server_sync::config::{
    build_variables, parse_u32, resolve_group, resolve_owner, resolve_setting, IdSpec,
    ServerContext, Settings,
};
use server_sync::contexts::parse_contexts;
use server_sync::envparse::parse_env_text;
use server_sync::errors::ConfigError;
use server_sync::vars::VarMap;

fn s(x: &str) -> String {
    x.to_string()
}

#[test]
fn env_text_basic_pairs() {
    let m = parse_env_text("PORT=8080\nHOST=web\n");
    assert_eq!(m.get(&s("PORT")), Some(&s("8080")));
    assert_eq!(m.get(&s("HOST")), Some(&s("web")));
    assert_eq!(m.get(&s("MISSING")), None);
}

#[test]
fn env_text_comments_and_blanks_ignored() {
    let m = parse_env_text("# a comment\n\nKEY=value\n# PORT=9\n");
    assert_eq!(m.get(&s("KEY")), Some(&s("value")));
    assert_eq!(m.get(&s("PORT")), None);
    assert_eq!(m.get(&s("# a comment")), None);
}

#[test]
fn env_text_later_line_wins() {
    let m = parse_env_text("K=1\nK=2");
    assert_eq!(m.get(&s("K")), Some(&s("2")));
}

#[test]
fn env_text_line_without_equals_defines_nothing() {
    let m = parse_env_text("JUSTAWORD\nA=1");
    assert_eq!(m.get(&s("JUSTAWORD")), None);
    assert_eq!(m.get(&s("A")), Some(&s("1")));
}

#[test]
fn env_text_value_may_hold_equals() {
    let m = parse_env_text("A=x=y");
    assert_eq!(m.get(&s("A")), Some(&s("x=y")));
}

#[test]
fn env_text_empty_value() {
    let m = parse_env_text("A=");
    assert_eq!(m.get(&s("A")), Some(&s("")));
}

#[test]
fn contexts_split_on_both_separators() {
    let names = parse_contexts("a, b;c").unwrap();
    assert_eq!(names, vec![s("a"), s("b"), s("c")]);
}

#[test]
fn contexts_whitespace_stripped() {
    let names = parse_contexts("  web ,\tdb ").unwrap();
    assert_eq!(names, vec![s("web"), s("db")]);
}

#[test]
fn contexts_empty_input_is_no_contexts() {
    assert_eq!(parse_contexts(""), Err(ConfigError::NoContexts));
    assert_eq!(parse_contexts("   "), Err(ConfigError::NoContexts));
}

#[test]
fn contexts_empty_name_rejected() {
    assert_eq!(parse_contexts("a,,b"), Err(ConfigError::EmptyContextName));
    assert_eq!(parse_contexts("a,"), Err(ConfigError::EmptyContextName));
    assert_eq!(parse_contexts(";"), Err(ConfigError::EmptyContextName));
}

#[test]
fn parse_u32_values() {
    assert_eq!(parse_u32("0"), Some(0));
    assert_eq!(parse_u32("1000"), Some(1000));
    assert_eq!(parse_u32("4294967295"), Some(u32::MAX));
}

#[test]
fn parse_u32_rejects() {
    assert_eq!(parse_u32(""), None);
    assert_eq!(parse_u32("12a"), None);
    assert_eq!(parse_u32("-1"), None);
    assert_eq!(parse_u32("4294967296"), None);
    assert_eq!(parse_u32("99999999999999999999"), None);
}

#[test]
fn setting_precedence_cli_first() {
    assert_eq!(
        resolve_setting(Some(s("cli")), Some(s("file")), Some(s("env"))),
        Some(s("cli"))
    );
    assert_eq!(resolve_setting(None, Some(s("file")), Some(s("env"))), Some(s("file")));
    assert_eq!(resolve_setting(None, None, Some(s("env"))), Some(s("env")));
    assert_eq!(resolve_setting(None, None, None), None);
}

#[test]
fn process_env_overrides_env_file() {
    let file_vars = parse_env_text("PORT=1111\nONLY_FILE=f");
    let m = build_variables(file_vars, vec![(s("PORT"), s("2222")), (s("ONLY_ENV"), s("e"))]);
    assert_eq!(m.get(&s("PORT")), Some(&s("2222")));
    assert_eq!(m.get(&s("ONLY_FILE")), Some(&s("f")));
    assert_eq!(m.get(&s("ONLY_ENV")), Some(&s("e")));
}

#[test]
fn server_name_bound_to_context() {
    let mut m = VarMap::new();
    m.insert(s("server_name"), s("from-env"));
    let r = m.vars_for_context(&s("web"));
    assert_eq!(r.get(&s("server_name")), Some(&s("web")));
    // the source map is untouched
    assert_eq!(m.get(&s("server_name")), Some(&s("from-env")));
}

#[test]
fn owner_resolution() {
    assert!(matches!(
        resolve_owner(Some(s("1000")), Some(s("root"))),
        Ok(IdSpec::Numeric(1000))
    ));
    assert!(matches!(
        resolve_owner(Some(s("abc")), Some(s("root"))),
        Ok(IdSpec::Named(n)) if n == "root"
    ));
    assert!(matches!(resolve_owner(None, Some(s("root"))), Ok(IdSpec::Named(n)) if n == "root"));
    assert_eq!(
        resolve_owner(None, None).err(),
        Some(ConfigError::MissingOwner)
    );
}

#[test]
fn group_resolution_falls_back_to_owner() {
    assert!(matches!(resolve_group(Some(s("100")), None), Some(IdSpec::Numeric(100))));
    assert!(matches!(resolve_group(None, Some(s("adm"))), Some(IdSpec::Named(n)) if n == "adm"));
    assert!(resolve_group(None, None).is_none());
}

#[test]
fn settings_branch_defaults_to_master() {
    let ctx = ServerContext::new(s("web"), "/tmp/server-sync");
    let settings = Settings::new(
        b"/srv".to_vec(),
        s("/tmp/server-sync"),
        None,
        vec![ctx],
        VarMap::new(),
    )
    .unwrap();
    assert_eq!(settings.repo_branch, s("master"));
}

#[test]
fn settings_reject_root_destination() {
    let ctx = ServerContext::new(s("web"), "/repo");
    let r = Settings::new(b"/".to_vec(), s("/tmp/x"), None, vec![ctx], VarMap::new());
    assert_eq!(r.err(), Some(ConfigError::MissingDestination));
    let ctx2 = ServerContext::new(s("web"), "/repo");
    let r2 = Settings::new(Vec::new(), s("/tmp/x"), None, vec![ctx2], VarMap::new());
    assert_eq!(r2.err(), Some(ConfigError::MissingDestination));
}

#[test]
fn settings_reject_empty_context_list() {
    let r = Settings::new(b"/srv".to_vec(), s("/tmp/x"), Some(s("main")), vec![], VarMap::new());
    assert_eq!(r.err(), Some(ConfigError::NoContexts));
}

#[test]
fn context_root_is_under_repo() {
    let ctx = ServerContext::new(s("web"), "/repo");
    assert_eq!(ctx.source_root, b"/repo/contexts/web".to_vec());
    let ctx2 = ServerContext::new(s("db"), "/repo/");
    assert_eq!(ctx2.source_root, b"/repo/contexts/db".to_vec());
}
