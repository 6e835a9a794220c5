use std::time::Duration;

use dekit::config::config::{Config, ConfigFile, ConsolePrefs, OnClientExit};
use dekit::config::cx::{resolve_config_path, CfgCx};
use dekit::config::duration::{parse_duration, DurationError};
use dekit::config::error::ConfigError;
use dekit::config::health::{
    parse_hook_registry, parse_hooks, parse_proc_healthchecks, parse_registry, HealthCheckDef,
    HookDef, HookEvent, HookSet,
};
use dekit::config::node::{CfgNode, CfgValue, Mark};
use dekit::config::proc::{CmdConfig, ProcConfig, StopSignal};
use dekit::config::settings::parse_proc_settings;
use dekit::config::vars::{substitute_vars, Vars};
use dekit::console::action::Action;
use dekit::console::keymap::{Binding, KeymapGroup};
use dekit::console::spawn::proc_task_config;
use dekit::mprocs::proc_health;
use dekit::term::key::{Key, KeyCode, KeyMods};

fn node(value: CfgValue) -> CfgNode {
    CfgNode { mark: Mark { line: 3, column: 7 }, value }
}

fn text(s: &str) -> CfgNode {
    node(CfgValue::Text(s.to_string()))
}

fn number(n: i64) -> CfgNode {
    node(CfgValue::Int(n))
}

fn boolean(b: bool) -> CfgNode {
    node(CfgValue::Bool(b))
}

fn list(items: Vec<CfgNode>) -> CfgNode {
    node(CfgValue::List(items))
}

fn object(fields: Vec<(&str, CfgNode)>) -> CfgNode {
    node(CfgValue::Object(fields.into_iter().map(|(k, v)| (k.to_string(), v)).collect()))
}

fn file(root: CfgNode) -> ConfigFile {
    ConfigFile { root, cx: CfgCx::new("/srv".to_string()), prefs: ConsolePrefs::none() }
}

fn message<T>(r: Result<T, ConfigError>) -> String {
    match r {
        Ok(_) => panic!("expected an error"),
        Err(e) => e.message(),
    }
}

#[test]
fn health_parse_durations() {
    let parse = |s: &str| parse_duration(s).map(Duration::from_millis);
    assert_eq!(parse("10s").unwrap(), Duration::from_secs(10));
    assert_eq!(parse("500ms").unwrap(), Duration::from_millis(500));
    assert_eq!(parse("2m").unwrap(), Duration::from_secs(120));
    assert_eq!(parse("3").unwrap(), Duration::from_secs(3));
    assert!(parse("bogus").is_err());
    assert!(parse("-1s").is_err());
}

#[test]
fn proc_health_parse_durations() {
    let parse = |s: &str| proc_health::parse_duration(s).map(Duration::from_millis);
    assert_eq!(parse("10s").unwrap(), Duration::from_secs(10));
    assert_eq!(parse("500ms").unwrap(), Duration::from_millis(500));
    assert_eq!(parse("2m").unwrap(), Duration::from_secs(120));
    assert_eq!(parse("3").unwrap(), Duration::from_secs(3));
    assert!(parse("bogus").is_err());
    assert!(parse("-1s").is_err());
}

#[test]
fn health_substitute() {
    let mut vars = Vars::new();
    vars.insert("PORT".to_string(), "5432".to_string());
    vars.insert("HOST".to_string(), "localhost".to_string());
    assert_eq!(substitute_vars("nc -z %HOST% %PORT%", &vars), "nc -z localhost 5432");
    assert_eq!(substitute_vars("%FOO%", &vars), "%FOO%");
    assert_eq!(substitute_vars("100%", &vars), "100%");
    assert_eq!(substitute_vars("plain", &vars), "plain");
}

#[test]
fn proc_health_substitute() {
    let mut vars = proc_health::Vars::new();
    vars.insert("PORT".to_string(), "5432".to_string());
    vars.insert("HOST".to_string(), "localhost".to_string());
    assert_eq!(
        proc_health::substitute_vars("nc -z %HOST% %PORT%", &vars),
        "nc -z localhost 5432"
    );
    assert_eq!(proc_health::substitute_vars("%FOO%", &vars), "%FOO%");
    assert_eq!(proc_health::substitute_vars("100%", &vars), "100%");
    assert_eq!(proc_health::substitute_vars("plain", &vars), "plain");
}

#[test]
fn fractions_and_hours_are_durations() {
    assert_eq!(parse_duration("1.5s").unwrap(), 1500);
    assert_eq!(parse_duration("1h").unwrap(), 3_600_000);
    assert_eq!(parse_duration("0.25m").unwrap(), 15_000);
    assert_eq!(parse_duration("0").unwrap(), 0);
}

#[test]
fn space_of_any_kind_around_a_duration_is_ignored() {
    assert_eq!(parse_duration("\u{2003}10s\t").unwrap(), 10_000);
    assert_eq!(parse_duration(" 7 ").unwrap(), 7_000);
}

#[test]
fn letters_of_any_script_begin_a_unit() {
    match parse_duration("10\u{fc}") {
        Err(DurationError::UnknownUnit(unit)) => assert_eq!(unit, "\u{fc}"),
        other => panic!("{:?}", other),
    }
}

#[test]
fn duration_errors_say_what_is_wrong() {
    assert_eq!(parse_duration("").unwrap_err().message(), "empty duration");
    assert_eq!(
        parse_duration("x1").unwrap_err().message(),
        "invalid number in duration: `x1`"
    );
    assert_eq!(parse_duration("-1s").unwrap_err().message(), "duration cannot be negative");
    assert_eq!(parse_duration("4fortnights").unwrap_err().message(), "unknown duration unit `fortnights`");
}

#[test]
fn values_may_hold_percent_signs() {
    let mut vars = Vars::new();
    vars.insert("A".to_string(), "50%".to_string());
    vars.insert("B".to_string(), "%A%".to_string());
    assert_eq!(substitute_vars("%A%B%", &vars), "50%B%");
    assert_eq!(substitute_vars("<%B%>", &vars), "<%A%>");
    assert_eq!(substitute_vars("%%A%", &vars), "%50%");
    assert_eq!(substitute_vars("\u{e9}%A%\u{e9}", &vars), "\u{e9}50%\u{e9}");
}

#[test]
fn a_later_definition_wins() {
    let mut vars = Vars::new();
    assert!(vars.is_empty());
    vars.insert("A".to_string(), "1".to_string());
    vars.insert("A".to_string(), "2".to_string());
    assert_eq!(vars.get("A").map(|s| s.as_str()), Some("2"));
    assert!(vars.get("a").is_none());
    let mut more = Vars::new();
    more.insert("A".to_string(), "3".to_string());
    more.insert("B".to_string(), "4".to_string());
    vars.extend(more);
    assert_eq!(vars.get("A").map(|s| s.as_str()), Some("3"));
    assert_eq!(vars.get("B").map(|s| s.as_str()), Some("4"));
}

#[test]
fn a_health_check_has_defaults() {
    let def = HealthCheckDef::from_node(&object(vec![("cmd", text("true"))])).unwrap();
    assert_eq!(def.cmd, "true");
    assert_eq!((def.interval, def.timeout, def.start_period), (10_000, 5_000, 0));
    assert_eq!((def.retries, def.min_passes), (3, 1));
}

#[test]
fn a_health_check_takes_its_settings() {
    let def = HealthCheckDef::from_val(&object(vec![
        ("cmd", text("pg_isready")),
        ("interval", text("2s")),
        ("timeout", text("500ms")),
        ("start_period", text("1m")),
        ("retries", number(5)),
        ("min_passes", number(0)),
    ]))
    .unwrap();
    assert_eq!((def.interval, def.timeout, def.start_period), (2_000, 500, 60_000));
    assert_eq!((def.retries, def.min_passes), (5, 1));
}

#[test]
fn health_check_errors_say_what_is_wrong() {
    assert_eq!(message(HealthCheckDef::from_node(&object(vec![]))), "healthcheck requires `cmd`");
    assert_eq!(message(HealthCheckDef::from_node(&text("x"))), "expected a mapping");
    assert_eq!(
        message(HealthCheckDef::from_node(&object(vec![("cmd", number(1))]))),
        "expected a string"
    );
    assert_eq!(
        message(HealthCheckDef::from_node(&object(vec![
            ("cmd", text("true")),
            ("interval", text("soon")),
        ]))),
        "invalid interval: invalid number in duration: `soon`"
    );
    assert_eq!(
        message(HealthCheckDef::from_node(&object(vec![
            ("cmd", text("true")),
            ("timeout", text("")),
        ]))),
        "invalid timeout: empty duration"
    );
    assert_eq!(
        message(HealthCheckDef::from_node(&object(vec![
            ("cmd", text("true")),
            ("start_period", text("-1s")),
        ]))),
        "invalid start_period: duration cannot be negative"
    );
    assert_eq!(
        message(HealthCheckDef::from_node(&object(vec![
            ("cmd", text("true")),
            ("retries", text("3")),
        ]))),
        "expected a number"
    );
    let e = HealthCheckDef::from_node(&object(vec![])).unwrap_err();
    assert_eq!(e.mark, Mark { line: 3, column: 7 });
}

#[test]
fn checks_of_a_process_are_named_or_written_out() {
    let registry =
        parse_registry(&object(vec![("http-ok", object(vec![("cmd", text("curl"))]))])).unwrap();
    let checks = parse_proc_healthchecks(
        &list(vec![
            text("http-ok"),
            object(vec![("cmd", text("a"))]),
            object(vec![("cmd", text("b"))]),
        ]),
        &registry,
    )
    .unwrap();
    let names: Vec<&str> = checks.iter().map(|c| c.name.as_str()).collect();
    assert_eq!(names, ["http-ok", "inline[0]", "inline[1]"]);
    assert_eq!(
        message(parse_proc_healthchecks(&list(vec![text("nope")]), &registry)),
        "unknown healthcheck `nope`"
    );
    assert_eq!(
        message(parse_proc_healthchecks(&list(vec![number(1)]), &registry)),
        "expected healthcheck name (string) or inline mapping"
    );
    assert_eq!(message(parse_proc_healthchecks(&text("x"), &registry)), "expected a list");
}

#[test]
fn hooks_of_a_process_are_named_or_written_out() {
    let registry = parse_hook_registry(&object(vec![(
        "alert",
        object(vec![("cmd", text("slack.sh")), ("async", boolean(true))]),
    )]))
    .unwrap();
    let hooks = parse_hooks(
        &object(vec![("failed", text("alert")), ("running", object(vec![("cmd", text("warm"))]))]),
        &registry,
    )
    .unwrap();
    assert_eq!(hooks.get(HookEvent::Failed).map(|h| (h.cmd.as_str(), h.async_)), Some(("slack.sh", true)));
    assert_eq!(hooks.get(HookEvent::Running).map(|h| (h.cmd.as_str(), h.async_)), Some(("warm", false)));
    assert!(hooks.get(HookEvent::Started).is_none());
    assert!(!hooks.is_empty());
    assert!(HookSet::default().is_empty());
    assert_eq!(
        message(parse_hooks(&object(vec![("exploded", text("alert"))]), &registry)),
        "unknown hook event `exploded`"
    );
    assert_eq!(
        message(parse_hooks(&object(vec![("failed", text("nope"))]), &registry)),
        "unknown hook `nope`"
    );
    assert_eq!(
        message(parse_hooks(&object(vec![("failed", number(1))]), &registry)),
        "hook must be a name (string) or inline mapping"
    );
    assert_eq!(message(HookDef::from_val(&object(vec![]))), "hook requires `cmd`");
    assert_eq!(
        message(HookDef::from_node(&object(vec![("cmd", text("x")), ("async", text("yes"))]))),
        "expected a boolean"
    );
}

#[test]
fn hook_events_have_names() {
    let events = [
        (HookEvent::Started, "started"),
        (HookEvent::Running, "running"),
        (HookEvent::Unhealthy, "unhealthy"),
        (HookEvent::Stopped, "stopped"),
        (HookEvent::Failed, "failed"),
    ];
    for (event, name) in events {
        assert_eq!(event.label(), name);
        assert_eq!(HookEvent::parse(name), Some(event));
        assert_eq!(HookEvent::from_str(name), Some(event));
    }
    assert_eq!(HookEvent::parse("Started"), None);
}

#[test]
fn hooks_are_laid_over_hooks() {
    let hook = |cmd: &str| Some(HookDef { cmd: cmd.to_string(), async_: false });
    let base = HookSet { started: hook("a"), failed: hook("b"), ..HookSet::default() };
    let over = HookSet { failed: hook("c"), stopped: hook("d"), ..HookSet::default() };
    let all = base.overlay(over);
    assert_eq!(all.get(HookEvent::Started).map(|h| h.cmd.as_str()), Some("a"));
    assert_eq!(all.get(HookEvent::Failed).map(|h| h.cmd.as_str()), Some("c"));
    assert_eq!(all.get(HookEvent::Stopped).map(|h| h.cmd.as_str()), Some("d"));
}

#[test]
fn settings_have_defaults() {
    let cfg = ProcConfig::default();
    assert!(!cfg.autostart() && !cfg.autorestart() && !cfg.oneshot());
    assert_eq!((cfg.scrollback_len(), cfg.mouse_scroll_speed()), (1000, 5));
    assert!(matches!(cfg.stop(), StopSignal::SIGTERM));
}

fn shell_of(cfg: &ProcConfig) -> &str {
    match &cfg.cmd {
        Some(CmdConfig::Shell { shell }) => shell.as_str(),
        _ => panic!("no shell command"),
    }
}

#[test]
fn a_workspace_is_read() {
    let local = object(vec![
        ("healthchecks", object(vec![("ok", object(vec![("cmd", text("curl"))]))])),
        ("proc_defaults", object(vec![("autorestart", boolean(true)), ("cwd", text("/srv"))])),
        (
            "procs",
            object(vec![
                ("webpack", text("webpack serve")),
                (
                    "api",
                    object(vec![
                        ("shell", text("node api.js")),
                        ("autostart", boolean(true)),
                        ("deps", list(vec![text("webpack")])),
                        ("env", object(vec![("A", number(5)), ("B", node(CfgValue::Null))])),
                        ("vars", object(vec![("PORT", number(3000)), ("NEG", number(-1))])),
                        ("healthchecks", list(vec![text("ok")])),
                        ("hooks", object(vec![("failed", object(vec![("cmd", text("x"))]))])),
                    ]),
                ),
                ("argv", object(vec![("cmd", list(vec![text("ls"), text("-l")]))])),
            ]),
        ),
        ("on_client_exit", text("stop_all")),
    ]);
    let config = Config::load(None, Some(file(local))).unwrap();
    assert_eq!(config.on_client_exit, OnClientExit::StopAll);
    assert_eq!(config.procs.len(), 3);
    assert_eq!(config.procs[0].path, "webpack");
    assert_eq!(shell_of(&config.procs[0]), "webpack serve");
    let api = &config.procs[1];
    assert_eq!(shell_of(api), "node api.js");
    assert_eq!(api.deps, ["webpack"]);
    assert_eq!(api.env, [("A".to_string(), Some("5".to_string())), ("B".to_string(), None)]);
    assert_eq!(api.vars.get("PORT").map(|s| s.as_str()), Some("3000"));
    assert_eq!(api.vars.get("NEG").map(|s| s.as_str()), Some("-1"));
    assert_eq!(api.healthchecks.len(), 1);
    assert_eq!(api.healthchecks[0].name, "ok");
    assert!(api.hooks.get(HookEvent::Failed).is_some());
    assert!(api.autostart());
    match &config.procs[2].cmd {
        Some(CmdConfig::Cmd { cmd }) => assert_eq!(cmd, &["ls", "-l"]),
        _ => panic!("no list"),
    }
    let merged = config.proc_defaults.clone().overlay(config.procs[1].clone());
    assert_eq!(merged.cwd.as_deref(), Some("/srv"));
    assert!(merged.autorestart() && merged.autostart());
    assert_eq!(merged.path, "api");
}

#[test]
fn a_one_shot_by_default_has_no_checks() {
    let load = |own: Vec<(&str, CfgNode)>| {
        let mut fields = vec![("healthchecks", list(vec![object(vec![("cmd", text("true"))])]))];
        fields.extend(own);
        let root = object(vec![
            ("proc_defaults", object(vec![("oneshot", boolean(true))])),
            ("procs", object(vec![("api", object(fields))])),
        ]);
        Config::load(None, Some(file(root)))
    };
    assert_eq!(message(load(vec![])), "oneshot and healthchecks are mutually exclusive");
    assert_eq!(load(vec![("oneshot", boolean(false))]).unwrap().procs.len(), 1);
}

#[test]
fn the_workspace_wins_over_the_global_file() {
    let global = object(vec![
        (
            "hooks",
            object(vec![
                ("a", object(vec![("cmd", text("global a"))])),
                ("b", object(vec![("cmd", text("global b"))])),
            ]),
        ),
        ("proc_defaults", object(vec![("autostart", boolean(true))])),
    ]);
    let local = object(vec![
        ("hooks", object(vec![("a", object(vec![("cmd", text("local a"))]))])),
        ("proc_defaults", object(vec![("autostart", boolean(false))])),
    ]);
    let config = Config::load(Some(("/etc/dekit.yaml", file(global))), Some(file(local))).unwrap();
    assert_eq!(config.hooks.get("a").map(|h| h.cmd.as_str()), Some("local a"));
    assert_eq!(config.hooks.get("b").map(|h| h.cmd.as_str()), Some("global b"));
    assert_eq!(config.proc_defaults.autostart, Some(false));
    assert_eq!(config.on_client_exit, OnClientExit::Detach);
}

#[test]
fn the_global_file_has_no_processes() {
    let global = object(vec![("procs", object(vec![]))]);
    assert_eq!(
        message(Config::load(Some(("/etc/dekit.yaml", file(global))), None)),
        "'procs' is not allowed in the global config (/etc/dekit.yaml); \
         define processes in the workspace dekit.yaml"
    );
}

#[test]
fn wrong_workspaces_are_refused() {
    let load = |fields: Vec<(&str, CfgNode)>| message(Config::load(None, Some(file(object(fields)))));
    assert_eq!(message(Config::load(None, Some(file(text("x"))))), "expected a mapping");
    assert_eq!(load(vec![("on_client_exit", text("explode"))]), "unknown on_client_exit `explode`");
    assert_eq!(load(vec![("procs", list(vec![]))]), "expected a mapping");
    assert_eq!(load(vec![("procs", object(vec![("a", number(1))]))]), "expected a mapping");
    assert_eq!(
        load(vec![(
            "procs",
            object(vec![(
                "migrate",
                object(vec![
                    ("oneshot", boolean(true)),
                    ("healthchecks", list(vec![object(vec![("cmd", text("true"))])])),
                ]),
            )]),
        )]),
        "oneshot and healthchecks are mutually exclusive"
    );
    assert_eq!(
        load(vec![("procs", object(vec![("a", object(vec![("env", object(vec![("X", list(vec![]))]))]))]))]),
        "expected a string"
    );
}

#[test]
fn an_empty_configuration_has_no_processes() {
    let config = Config::load(None, None).unwrap();
    assert!(config.procs.is_empty());
    assert_eq!(config.on_client_exit, OnClientExit::Detach);
    assert_eq!(config.proc_list_width, 30);
    assert!(config.on_init.is_none() && config.on_all_finished.is_none() && config.show_tips);
    assert!(config.keymap.bindings.is_empty());
}

#[test]
fn the_console_is_set_up_by_the_workspace_first() {
    let key = Key::new(KeyCode::Enter, KeyMods::none());
    let bind = |action: Action| Binding { group: KeymapGroup::Procs, key, action };
    let load = |global: ConsolePrefs, local: ConsolePrefs| {
        let with = |prefs: ConsolePrefs| ConfigFile { prefs, ..file(object(vec![])) };
        Config::load(Some(("g", with(global))), Some(with(local))).unwrap()
    };
    let global = || ConsolePrefs {
        on_init: Some(Action::NextProc),
        on_all_finished: Some(Action::Quit),
        show_tips: Some(false),
        bindings: vec![bind(Action::Quit)],
    };
    let config = load(global(), ConsolePrefs::none());
    assert!(matches!(config.on_init, Some(Action::NextProc)));
    assert!(matches!(config.on_all_finished, Some(Action::Quit)));
    assert!(!config.show_tips);
    assert!(matches!(config.keymap.resolve(KeymapGroup::Procs, &key), Some(Action::Quit)));
    let local = ConsolePrefs {
        on_init: Some(Action::Zoom),
        on_all_finished: None,
        show_tips: Some(true),
        bindings: vec![bind(Action::Zoom)],
    };
    let config = load(global(), local);
    assert!(matches!(config.on_init, Some(Action::Zoom)));
    assert!(matches!(config.on_all_finished, Some(Action::Quit)));
    assert!(config.show_tips);
    assert!(matches!(config.keymap.resolve(KeymapGroup::Procs, &key), Some(Action::Zoom)));
}

#[test]
fn paths_may_start_at_the_directory_of_the_file() {
    assert_eq!(resolve_config_path("/srv", "<CONFIG_DIR>/app"), "/srv/app");
    assert_eq!(resolve_config_path("/srv", "<CONFIG_DIR>"), "/srv");
    assert_eq!(resolve_config_path("/srv", "./<CONFIG_DIR>"), "./<CONFIG_DIR>");
    assert_eq!(resolve_config_path("/srv", ""), "");
}

fn settings(fields: Vec<(&str, CfgNode)>) -> Result<ProcConfig, ConfigError> {
    let mut cx = CfgCx::new("/srv".to_string());
    cx.keys.push(("<Enter>".to_string(), Key::new(KeyCode::Enter, KeyMods::none())));
    let var = |k: &str, v: &str| (k.to_string(), v.to_string());
    cx.env_files.push(("/srv/.env".to_string(), vec![var("A", "1"), var("B", "1")]));
    cx.env_files.push(("/srv/.env.local".to_string(), vec![var("B", "2"), var("C", "2")]));
    parse_proc_settings(&object(fields), &cx)
}

#[test]
fn processes_say_how_they_are_stopped() {
    let stop = |v: CfgNode| settings(vec![("stop", v)]).map(|cfg| cfg.stop);
    assert!(matches!(settings(vec![]).unwrap().stop, None));
    assert!(matches!(stop(text("SIGINT")), Ok(Some(StopSignal::SIGINT))));
    assert!(matches!(stop(text("SIGTERM")), Ok(Some(StopSignal::SIGTERM))));
    assert!(matches!(stop(text("SIGKILL")), Ok(Some(StopSignal::SIGKILL))));
    assert!(matches!(stop(text("hard-kill")), Ok(Some(StopSignal::HardKill))));
    match stop(object(vec![("cmd", text("docker compose down"))])) {
        Ok(Some(StopSignal::Cmd(cmd))) => assert_eq!(cmd, "docker compose down"),
        _ => panic!("no command"),
    }
    match stop(object(vec![("send-keys", list(vec![text("<Enter>")]))])) {
        Ok(Some(StopSignal::SendKeys(keys))) => {
            assert_eq!(keys, [Key::new(KeyCode::Enter, KeyMods::none())]);
        }
        _ => panic!("no keys"),
    }
    assert_eq!(message(stop(text("sigint"))), "unknown stop `sigint`");
    let bad = "stop must be a signal, `send-keys` or `cmd`";
    assert_eq!(message(stop(number(9))), bad);
    assert_eq!(message(stop(object(vec![]))), bad);
    assert_eq!(message(stop(object(vec![("x", text("y"))]))), bad);
    assert_eq!(message(stop(object(vec![("cmd", text("a")), ("x", text("b"))]))), bad);
    assert_eq!(message(stop(object(vec![("cmd", number(1))]))), "expected a string");
    assert_eq!(message(stop(object(vec![("send-keys", text("a"))]))), "expected a list");
    let keys = object(vec![("send-keys", list(vec![text("<F99>")]))]);
    let error = stop(keys).unwrap_err();
    assert_eq!((error.message().as_str(), error.mark.line), ("unknown key `<F99>`", 3));
}

#[test]
fn environment_files_come_before_what_is_written_out() {
    let cfg = settings(vec![
        ("env", object(vec![("C", text("3")), ("A", node(CfgValue::Null))])),
        (
            "env_file",
            list(vec![text("<CONFIG_DIR>/.env"), text("<CONFIG_DIR>/.env.local")]),
        ),
    ])
    .unwrap();
    let env: Vec<(&str, Option<&str>)> =
        cfg.env.iter().map(|(k, v)| (k.as_str(), v.as_deref())).collect();
    assert_eq!(
        env,
        [
            ("A", Some("1")),
            ("B", Some("1")),
            ("B", Some("2")),
            ("C", Some("2")),
            ("C", Some("3")),
            ("A", None),
        ]
    );
    let missing = settings(vec![("env_file", list(vec![text("<CONFIG_DIR>/x")]))]);
    assert_eq!(message(missing), "cannot read env file `/srv/x`");
    assert_eq!(message(settings(vec![("env_file", text(".env"))])), "expected a list");
    assert_eq!(message(settings(vec![("env_file", list(vec![number(1)]))])), "expected a string");
}

#[test]
fn directories_and_delays_are_read() {
    let cfg = settings(vec![
        ("cwd", text("<CONFIG_DIR>/app")),
        ("add_path", list(vec![text("./node_modules/.bin")])),
        ("restart_delay", number(250)),
    ])
    .unwrap();
    assert_eq!(cfg.cwd.as_deref(), Some("/srv/app"));
    assert_eq!(cfg.add_path, ["./node_modules/.bin"]);
    assert_eq!(cfg.restart_delay(), 250);
    let blank = settings(vec![]).unwrap();
    assert_eq!((blank.add_path.len(), blank.restart_delay()), (0, 1000));
    let task = proc_task_config(&cfg, vec![]);
    assert_eq!((task.restart_delay, task.spec.add_path.as_slice()), (250, cfg.add_path.as_slice()));
    assert_eq!(proc_task_config(&blank, vec![]).restart_delay, 1000);
    let merged = cfg.overlay(blank);
    assert_eq!((merged.add_path.len(), merged.restart_delay()), (1, 250));
    assert_eq!(message(settings(vec![("restart_delay", text("1s"))])), "expected a number");
    assert_eq!(message(settings(vec![("add_path", text("x"))])), "expected a list");
}
