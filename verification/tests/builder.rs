use soft_supervisor::binary::args_builder::{
    build_vars, get_then_check_arg, load_context, load_form_remote, load_properties, load_yaml,
};
use soft_supervisor::config::prop::{
    def_check_health, def_check_started, def_log, def_signals, def_restart_policy, empty_str,
    error_message, LoggerLevel, ProjectArgs, ProjectConfig, ProjectConfigAlias, ProjectInfo,
    SourceKeyArgMode, SourceKeyMode,
};
use soft_supervisor::utils::log::Logger;
use soft_supervisor::utils::string::replace_all_str_from_map;
use soft_supervisor::vars::Vars;
use soft_supervisor::SoftError;

fn quiet() -> Logger {
    Logger { console_level: LoggerLevel::NONE }
}

fn map_of(pairs: &[(&str, &str)]) -> Vars {
    let mut vars = Vars::new();
    for (k, v) in pairs {
        vars.insert(k.to_string(), v.to_string());
    }
    vars
}

fn basic_config(args: Vec<ProjectArgs>, path: Vec<String>, attach: Vars) -> ProjectConfig {
    ProjectConfig {
        project: ProjectInfo {
            name: "demo".to_string(),
            binary: "/bin/true".to_string(),
            before_script: empty_str(),
            after_script: empty_str(),
            check_health: def_check_health(),
            check_started: def_check_started(),
            signals: def_signals(),
            restart_policy: def_restart_policy(),
            script_worker: "bash".to_string(),
        },
        args,
        path,
        log: def_log(),
        attach,
        config_alias: Vec::new(),
    }
}

fn arg_spec(key: &str, exprs: &[&str], mode: SourceKeyMode, must: bool, regex: &str) -> ProjectArgs {
    ProjectArgs {
        key: key.to_string(),
        expr: exprs.iter().map(|e| e.to_string()).collect(),
        mode,
        must,
        valid_regex: regex.to_string(),
        valid_message: error_message(),
    }
}

#[test]
fn properties_first_write_wins() {
    let mut vars = Vars::new();
    let text = "a=1\n# comment line\nb=2\na=overridden\nbroken line\n";
    load_properties(&mut vars, text, false).unwrap();
    assert_eq!(vars.get(&"a".to_string()), Some("1".to_string()));
    assert_eq!(vars.get(&"b".to_string()), Some("2".to_string()));
    assert_eq!(vars.len(), 2);
}

#[test]
fn properties_cover_overwrites() {
    let mut vars = Vars::new();
    load_properties(&mut vars, "a=1\na=2", true).unwrap();
    assert_eq!(vars.get(&"a".to_string()), Some("2".to_string()));
}

#[test]
fn properties_split_on_first_equals_only() {
    let mut vars = Vars::new();
    load_properties(&mut vars, "url=http://host?x=1", false).unwrap();
    assert_eq!(vars.get(&"url".to_string()), Some("http://host?x=1".to_string()));
}

#[test]
fn properties_strip_carriage_returns() {
    let mut vars = Vars::new();
    load_properties(&mut vars, "a=1\r\nb=2\r\n", false).unwrap();
    assert_eq!(vars.get(&"a".to_string()), Some("1".to_string()));
    assert_eq!(vars.get(&"b".to_string()), Some("2".to_string()));
}

#[test]
fn yaml_loader_reads_scalar_mappings_first_write_wins() {
    let mut vars = Vars::new();
    vars.insert("kept".to_string(), "old".to_string());
    let text = "name: demo\nport: 8080\nactive: true\nkept: overridden\n";
    load_yaml(&mut vars, text, false).unwrap();
    assert_eq!(vars.get(&"name".to_string()), Some("demo".to_string()));
    assert_eq!(vars.get(&"port".to_string()), Some("8080".to_string()));
    assert_eq!(vars.get(&"active".to_string()), Some("true".to_string()));
    assert_eq!(vars.get(&"kept".to_string()), Some("old".to_string()));
}

#[test]
fn yaml_loader_cover_overwrites() {
    let mut vars = Vars::new();
    vars.insert("port".to_string(), "1".to_string());
    load_yaml(&mut vars, "port: 2", true).unwrap();
    assert_eq!(vars.get(&"port".to_string()), Some("2".to_string()));
}

#[test]
fn yaml_loader_rejects_non_scalar_documents() {
    let mut vars = Vars::new();
    assert!(matches!(
        load_yaml(&mut vars, "nested:\n  inner: 1\n", false),
        Err(SoftError::AppError(_))
    ));
    assert!(matches!(load_yaml(&mut vars, "- a\n- b\n", false), Err(SoftError::AppError(_))));
    assert_eq!(vars.len(), 0);
}

#[test]
fn remote_loader_reports_not_implemented() {
    let mut vars = Vars::new();
    assert!(matches!(
        load_form_remote(&mut vars, "http://example", false),
        Err(SoftError::AppError(_))
    ));
}

#[test]
fn build_vars_loads_yaml_sources() {
    let config = basic_config(Vec::new(), vec!["vars.yaml".to_string()], Vars::new());
    let env = Vars::new();
    let sources = vec![Some("greeting: hello\ncount: 3\n".to_string())];
    let vars = build_vars(&config, &env, &sources, &quiet());
    assert_eq!(vars.get(&"greeting".to_string()), Some("hello".to_string()));
    assert_eq!(vars.get(&"count".to_string()), Some("3".to_string()));
    assert_eq!(vars.get(&"var.greeting".to_string()), Some("hello".to_string()));
}

#[test]
fn build_vars_namespaces_the_environment() {
    let config = basic_config(Vec::new(), Vec::new(), Vars::new());
    let env = map_of(&[("HOME", "/root"), ("TERM", "xterm")]);
    let sources: Vec<Option<String>> = Vec::new();
    let vars = build_vars(&config, &env, &sources, &quiet());
    assert_eq!(vars.get(&"HOME".to_string()), Some("/root".to_string()));
    assert_eq!(vars.get(&"env.HOME".to_string()), Some("/root".to_string()));
    assert_eq!(vars.get(&"env.TERM".to_string()), Some("xterm".to_string()));
}

#[test]
fn build_vars_environment_wins_over_files() {
    let mut config = basic_config(Vec::new(), vec!["vars.properties".to_string()], Vars::new());
    config.path = vec!["vars.properties".to_string()];
    let env = map_of(&[("PORT", "9000")]);
    let sources = vec![Some("PORT=1234\nfile_only=yes".to_string())];
    let vars = build_vars(&config, &env, &sources, &quiet());
    assert_eq!(vars.get(&"PORT".to_string()), Some("9000".to_string()));
    assert_eq!(vars.get(&"var.PORT".to_string()), Some("1234".to_string()));
    assert_eq!(vars.get(&"file_only".to_string()), Some("yes".to_string()));
}

#[test]
fn build_vars_applies_aliases_and_attach_tokens() {
    let mut config = basic_config(
        Vec::new(),
        vec!["vars.properties".to_string()],
        map_of(&[("suffix", "-demo")]),
    );
    config.config_alias = vec![ProjectConfigAlias {
        key: "combined".to_string(),
        expr: vec!["{{missing}}".to_string(), "{{NAME}}".to_string()],
        over: true,
    }];
    let env = map_of(&[("NAME", "app")]);
    let sources = vec![Some("greeting=hello{{suffix}}".to_string())];
    let vars = build_vars(&config, &env, &sources, &quiet());
    // the second alias expression resolves; the first is skipped
    assert_eq!(vars.get(&"combined".to_string()), Some("app".to_string()));
    // the attach pass replaces the wrapped token inside the file value
    assert_eq!(vars.get(&"greeting".to_string()), Some("hello-demo".to_string()));
}

#[test]
fn argument_accepted_when_regex_matches() {
    let spec = arg_spec(
        "--port",
        &["{{missing}}", "{{PORT}}"],
        SourceKeyMode::ARG(SourceKeyArgMode::DEFAULT),
        true,
        "^[0-9]+$",
    );
    let vars = map_of(&[("PORT", "8080")]);
    let r = get_then_check_arg(&spec, &vars, &quiet()).unwrap().unwrap();
    assert_eq!(r.key, "--port");
    assert_eq!(r.value, "8080");
}

#[test]
fn argument_skipped_when_regex_rejects() {
    let spec = arg_spec(
        "--port",
        &["{{PORT}}"],
        SourceKeyMode::ARG(SourceKeyArgMode::DEFAULT),
        false,
        "^[0-9]+$",
    );
    let vars = map_of(&[("PORT", "not-a-number")]);
    assert!(get_then_check_arg(&spec, &vars, &quiet()).unwrap().is_none());
}

#[test]
fn mandatory_argument_without_value_is_fatal() {
    let spec = arg_spec("--must", &["{{missing}}"], SourceKeyMode::ENV, true, "");
    let vars = Vars::new();
    assert!(matches!(
        get_then_check_arg(&spec, &vars, &quiet()),
        Err(SoftError::AppError(_))
    ));
}

#[test]
fn invalid_regex_is_fatal() {
    let spec = arg_spec("--x", &["{{v}}"], SourceKeyMode::ENV, false, "([unclosed");
    let vars = map_of(&[("v", "1")]);
    assert!(matches!(
        get_then_check_arg(&spec, &vars, &quiet()),
        Err(SoftError::AppError(_))
    ));
}

#[test]
fn empty_regex_accepts_anything() {
    let spec = arg_spec("--free", &["{{v}}"], SourceKeyMode::ENV, true, "   ");
    let vars = map_of(&[("v", "anything at all")]);
    let r = get_then_check_arg(&spec, &vars, &quiet()).unwrap().unwrap();
    assert_eq!(r.value, "anything at all");
}

#[test]
fn load_context_splits_modes() {
    let args = vec![
        arg_spec(
            "--port",
            &["{{PORT}}"],
            SourceKeyMode::ARG(SourceKeyArgMode::DEFAULT),
            true,
            "^[0-9]+$",
        ),
        arg_spec("--verbose", &["{{FLAG}}"], SourceKeyMode::ARG(SourceKeyArgMode::BOOL), false, ""),
        arg_spec(
            "--level",
            &["{{LEVEL}}"],
            SourceKeyMode::ARG(SourceKeyArgMode::MERGE),
            false,
            "",
        ),
        arg_spec("CHILD_HOME", &["{{HOME_DIR}}"], SourceKeyMode::ENV, true, ""),
    ];
    let config = basic_config(args, Vec::new(), Vars::new());
    let env = map_of(&[
        ("PORT", "8080"),
        ("FLAG", "1"),
        ("LEVEL", "high"),
        ("HOME_DIR", "/srv/app"),
    ]);
    let sources: Vec<Option<String>> = Vec::new();
    let ctx = load_context(&config, &env, &sources, &quiet()).unwrap();
    assert_eq!(
        ctx.args,
        vec![
            "--port".to_string(),
            "8080".to_string(),
            "--verbose".to_string(),
            "--level=high".to_string(),
        ]
    );
    // the environment-mode argument reaches the child environment
    assert_eq!(ctx.envs.get(&"CHILD_HOME".to_string()), Some("/srv/app".to_string()));
    // the base environment is carried through
    assert_eq!(ctx.envs.get(&"PORT".to_string()), Some("8080".to_string()));
    // the script variables round-trip every accepted argument
    assert_eq!(ctx.script_vars.get(&"{{--port}}".to_string()), Some("8080".to_string()));
    assert_eq!(ctx.script_vars.get(&"{{CHILD_HOME}}".to_string()), Some("/srv/app".to_string()));
    // and every variable of the map
    assert_eq!(ctx.script_vars.get(&"{{env.PORT}}".to_string()), Some("8080".to_string()));
}

#[test]
fn hook_scripts_read_the_arguments_values() {
    // a hook body reads back through the script map the very strings
    // the worker passes on the command line and in the environment
    let args = vec![
        arg_spec(
            "--port",
            &["{{PORT}}"],
            SourceKeyMode::ARG(SourceKeyArgMode::DEFAULT),
            true,
            "^[0-9]+$",
        ),
        arg_spec("CHILD_HOME", &["{{HOME_DIR}}"], SourceKeyMode::ENV, true, ""),
    ];
    let config = basic_config(args, Vec::new(), Vars::new());
    let env = map_of(&[("PORT", "8080"), ("HOME_DIR", "/srv/app")]);
    let sources: Vec<Option<String>> = Vec::new();
    let ctx = load_context(&config, &env, &sources, &quiet()).unwrap();
    let mut body = "run --port {{--port}} in {{CHILD_HOME}}".to_string();
    replace_all_str_from_map(&mut body, &ctx.script_vars);
    assert_eq!(body, "run --port 8080 in /srv/app");
    assert_eq!(ctx.args[1], "8080");
    assert_eq!(ctx.envs.get(&"CHILD_HOME".to_string()), Some("/srv/app".to_string()));
}

#[test]
fn load_context_fails_on_unmet_mandatory_argument() {
    let args = vec![arg_spec("--needed", &["{{absent}}"], SourceKeyMode::ENV, true, "")];
    let config = basic_config(args, Vec::new(), Vars::new());
    let env = Vars::new();
    let sources: Vec<Option<String>> = Vec::new();
    assert!(load_context(&config, &env, &sources, &quiet()).is_err());
}
