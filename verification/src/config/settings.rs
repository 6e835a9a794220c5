//! Reads the settings of processes.

use crate::config::cx::{config_path, resolve_config_path, CfgCx};
use crate::config::env::{env_of, read_env};
use crate::config::error::{mismatch_fault, ConfigError, ErrorKind, Fault, Problem};
use crate::config::health::{
    check_models, check_views, hook_models, parse_hooks, parse_proc_healthchecks, proc_checks,
    proc_hooks, HealthCheckModel, HealthCheckRegistry, HookModel, HookRegistry, HookSetModel,
};
use crate::config::node::{entry, find_field, CfgNode, CfgValue, Shape};
use crate::config::proc::{CmdConfig, CmdModel, ProcConfig, ProcSettings};
use crate::config::stop::{read_stop, stop_of};
use crate::config::vars::Vars;
use crate::text::{decimal, opt_chars, push_decimal, strings_view};
use vstd::prelude::*;

verus! {

/// The characters of a scalar: a string, a number or a boolean.
pub open spec fn scalar_text(node: CfgNode) -> Option<Seq<char>> {
    match node.value {
        CfgValue::Text(s) => Some(s@),
        CfgValue::Other(s) => Some(s@),
        CfgValue::Int(n) => Some(
            if n < 0 {
                "-"@ + decimal((-n) as nat)
            } else {
                decimal(n as nat)
            },
        ),
        CfgValue::Bool(b) => Some(
            if b {
                "true"@
            } else {
                "false"@
            },
        ),
        _ => None,
    }
}

pub(crate) fn read_scalar(node: &CfgNode) -> (r: Option<String>)
    ensures
        opt_chars(r) == scalar_text(*node),
{
    match &node.value {
        CfgValue::Text(s) => Some(s.clone()),
        CfgValue::Other(s) => Some(s.clone()),
        CfgValue::Int(n) => {
            let n: i64 = *n;
            let mut s = String::new();
            if n < 0 {
                s.append("-");
                push_decimal(&mut s, (-(n as i128)) as u64);
                proof {
                    assert(s@ =~= "-"@ + decimal((-n) as nat));
                }
            } else {
                push_decimal(&mut s, n as u64);
                proof {
                    assert(s@ =~= decimal(n as nat));
                }
            }
            Some(s)
        },
        CfgValue::Bool(b) => Some(
            if *b {
                "true".to_owned()
            } else {
                "false".to_owned()
            },
        ),
        _ => None,
    }
}

/// The string of a field, if it is there.
pub open spec fn text_of(fields: Seq<(String, CfgNode)>, key: Seq<char>) -> Result<
    Option<Seq<char>>,
    Fault,
> {
    match entry(fields, key) {
        None => Ok(None),
        Some(v) => if v.value is Text {
            Ok(Some(v.text()))
        } else {
            Err(mismatch_fault(v.mismatch(Shape::Text)))
        },
    }
}

fn read_text(fields: &Vec<(String, CfgNode)>, key: &str) -> (r: Result<
    Option<String>,
    ConfigError,
>)
    ensures
        match r {
            Ok(s) => text_of(fields@, key@) == Ok::<Option<Seq<char>>, Fault>(opt_chars(s)),
            Err(e) => text_of(fields@, key@) == Err::<Option<Seq<char>>, Fault>(e@),
        },
{
    match find_field(fields, key) {
        None => Ok(None),
        Some(v) => match v.as_str() {
            Ok(s) => Ok(Some(s.to_owned())),
            Err(e) => Err(ConfigError::expected(e)),
        },
    }
}

/// The boolean of a field, if it is there.
pub open spec fn flag_of(fields: Seq<(String, CfgNode)>, key: Seq<char>) -> Result<
    Option<bool>,
    Fault,
> {
    match entry(fields, key) {
        None => Ok(None),
        Some(v) => match v.value {
            CfgValue::Bool(b) => Ok(Some(b)),
            _ => Err(mismatch_fault(v.mismatch(Shape::Boolean))),
        },
    }
}

fn read_flag(fields: &Vec<(String, CfgNode)>, key: &str) -> (r: Result<Option<bool>, ConfigError>)
    ensures
        match r {
            Ok(b) => flag_of(fields@, key@) == Ok::<Option<bool>, Fault>(b),
            Err(e) => flag_of(fields@, key@) == Err::<Option<bool>, Fault>(e@),
        },
{
    match find_field(fields, key) {
        None => Ok(None),
        Some(v) => match v.as_bool() {
            Ok(b) => Ok(Some(b)),
            Err(e) => Err(ConfigError::expected(e)),
        },
    }
}

/// The strings of the first `n` items.
pub open spec fn texts_upto(items: Seq<CfgNode>, n: nat) -> Result<Seq<Seq<char>>, Fault>
    decreases n,
{
    if n == 0 {
        Ok(Seq::empty())
    } else {
        match texts_upto(items, (n - 1) as nat) {
            Err(f) => Err(f),
            Ok(before) => if items[n - 1].value is Text {
                Ok(before.push(items[n - 1].text()))
            } else {
                Err(mismatch_fault(items[n - 1].mismatch(Shape::Text)))
            },
        }
    }
}

proof fn lemma_texts_error(items: Seq<CfgNode>, i: nat, n: nat)
    requires
        i <= n,
        texts_upto(items, i) is Err,
    ensures
        texts_upto(items, n) == texts_upto(items, i),
    decreases n,
{
    if i < n {
        lemma_texts_error(items, i, (n - 1) as nat);
    }
}

/// The list of strings of a field, if it is there.
pub open spec fn texts_of(fields: Seq<(String, CfgNode)>, key: Seq<char>) -> Result<
    Option<Seq<Seq<char>>>,
    Fault,
> {
    match entry(fields, key) {
        None => Ok(None),
        Some(v) => if v.value is List {
            match texts_upto(v.items(), v.items().len()) {
                Ok(texts) => Ok(Some(texts)),
                Err(f) => Err(f),
            }
        } else {
            Err(mismatch_fault(v.mismatch(Shape::List)))
        },
    }
}

pub open spec fn opt_texts(v: Option<Vec<String>>) -> Option<Seq<Seq<char>>> {
    match v {
        Some(v) => Some(strings_view(v@)),
        None => None,
    }
}

fn read_texts(fields: &Vec<(String, CfgNode)>, key: &str) -> (r: Result<
    Option<Vec<String>>,
    ConfigError,
>)
    ensures
        match r {
            Ok(v) => texts_of(fields@, key@) == Ok::<Option<Seq<Seq<char>>>, Fault>(opt_texts(v)),
            Err(e) => texts_of(fields@, key@) == Err::<Option<Seq<Seq<char>>>, Fault>(e@),
        },
{
    let node = match find_field(fields, key) {
        None => {
            return Ok(None);
        },
        Some(node) => node,
    };
    let items = match node.as_arr() {
        Ok(items) => items,
        Err(e) => {
            return Err(ConfigError::expected(e));
        },
    };
    let mut out: Vec<String> = Vec::new();
    let mut i: usize = 0;
    proof {
        assert(strings_view(out@) =~= Seq::empty());
    }
    while i < items.len()
        invariant
            i <= items@.len(),
            node.value is List,
            items@ == node.items(),
            entry(fields@, key@) == Some(*node),
            texts_upto(items@, i as nat) == Ok::<Seq<Seq<char>>, Fault>(strings_view(out@)),
        decreases items@.len() - i,
    {
        match items[i].as_str() {
            Ok(s) => {
                let ghost before = out@;
                out.push(s.to_owned());
                proof {
                    assert(strings_view(out@) =~= strings_view(before).push(s@));
                }
            },
            Err(e) => {
                proof {
                    lemma_texts_error(items@, (i + 1) as nat, items@.len());
                }
                return Err(ConfigError::expected(e));
            },
        }
        i += 1;
    }
    Ok(Some(out))
}

/// The values of variables, by their characters.
pub open spec fn var_texts(vars: Map<Seq<char>, String>) -> Map<Seq<char>, Seq<char>> {
    vars.map_values(|s: String| s@)
}

/// The variables that the first `n` fields define.
pub open spec fn vars_upto(fields: Seq<(String, CfgNode)>, n: nat) -> Result<
    Map<Seq<char>, Seq<char>>,
    Fault,
>
    decreases n,
{
    if n == 0 {
        Ok(Map::empty())
    } else {
        let (key, v) = (fields[n - 1].0@, fields[n - 1].1);
        match vars_upto(fields, (n - 1) as nat) {
            Err(f) => Err(f),
            Ok(before) => match scalar_text(v) {
                Some(text) => Ok(before.insert(key, text)),
                None => Err(mismatch_fault(v.mismatch(Shape::Text))),
            },
        }
    }
}

proof fn lemma_vars_error(fields: Seq<(String, CfgNode)>, i: nat, n: nat)
    requires
        i <= n,
        vars_upto(fields, i) is Err,
    ensures
        vars_upto(fields, n) == vars_upto(fields, i),
    decreases n,
{
    if i < n {
        lemma_vars_error(fields, i, (n - 1) as nat);
    }
}

/// The variables of a process.
pub open spec fn vars_of(fields: Seq<(String, CfgNode)>) -> Result<
    Map<Seq<char>, Seq<char>>,
    Fault,
> {
    match entry(fields, "vars"@) {
        None => Ok(Map::empty()),
        Some(v) => if v.value is Object {
            vars_upto(v.fields(), v.fields().len())
        } else {
            Err(mismatch_fault(v.mismatch(Shape::Mapping)))
        },
    }
}

fn read_vars(fields: &Vec<(String, CfgNode)>) -> (r: Result<Vars, ConfigError>)
    ensures
        match r {
            Ok(v) => v.wf() && vars_of(fields@) == Ok::<Map<Seq<char>, Seq<char>>, Fault>(
                var_texts(v@),
            ),
            Err(e) => vars_of(fields@) == Err::<Map<Seq<char>, Seq<char>>, Fault>(e@),
        },
{
    let mut out = Vars::new();
    proof {
        assert(var_texts(out@) =~= Map::empty());
    }
    let node = match find_field(fields, "vars") {
        None => {
            return Ok(out);
        },
        Some(node) => node,
    };
    let own = match node.as_obj() {
        Ok(own) => own,
        Err(e) => {
            return Err(ConfigError::expected(e));
        },
    };
    let mut i: usize = 0;
    while i < own.len()
        invariant
            i <= own@.len(),
            out.wf(),
            node.value is Object,
            own@ == node.fields(),
            entry(fields@, "vars"@) == Some(*node),
            vars_upto(own@, i as nat) == Ok::<Map<Seq<char>, Seq<char>>, Fault>(
                var_texts(out@),
            ),
        decreases own@.len() - i,
    {
        let v = &own[i].1;
        match read_scalar(v) {
            Some(text) => {
                let ghost before = out@;
                let ghost t = text@;
                out.insert(own[i].0.clone(), text);
                proof {
                    assert(var_texts(out@) =~= var_texts(before).insert(own@[i as int].0@, t));
                }
            },
            None => {
                proof {
                    lemma_vars_error(own@, (i + 1) as nat, own@.len());
                }
                return Err(ConfigError::at(v.mark, ErrorKind::Expected(Shape::Text)));
            },
        }
        i += 1;
    }
    Ok(out)
}

/// The settings of a process; the values of its variables stand apart.
#[verifier::ext_equal]
pub struct ParsedProc {
    pub settings: ProcSettings,
    pub vars: Map<Seq<char>, Seq<char>>,
}

pub open spec fn parsed(cfg: ProcSettings) -> ParsedProc {
    ParsedProc {
        settings: ProcSettings { vars: Map::empty(), ..cfg },
        vars: var_texts(cfg.vars),
    }
}

impl ParsedProc {
    pub open spec fn overlaid(self, over: ParsedProc) -> ParsedProc {
        ParsedProc {
            settings: ProcSettings {
                vars: Map::empty(),
                ..self.settings.overlaid(over.settings)
            },
            vars: self.vars.union_prefer_right(over.vars),
        }
    }
}

/// Laying settings over others lays what was read over what was read.
pub proof fn lemma_parsed_overlaid(base: ProcSettings, over: ProcSettings)
    ensures
        parsed(base.overlaid(over)) == parsed(base).overlaid(parsed(over)),
{
    assert(var_texts(base.vars.union_prefer_right(over.vars)) =~= var_texts(
        base.vars,
    ).union_prefer_right(var_texts(over.vars)));
    assert(parsed(base.overlaid(over)) =~= parsed(base).overlaid(parsed(over)));
}

/// What a process runs: its shell command, or else its list of arguments.
pub open spec fn cmd_of(fields: Seq<(String, CfgNode)>) -> Result<Option<CmdModel>, Fault> {
    match text_of(fields, "shell"@) {
        Err(f) => Err(f),
        Ok(Some(shell)) => Ok(Some(CmdModel::Shell(shell))),
        Ok(None) => match texts_of(fields, "cmd"@) {
            Err(f) => Err(f),
            Ok(Some(argv)) => Ok(Some(CmdModel::Argv(argv))),
            Ok(None) => Ok(None),
        },
    }
}

fn read_cmd(fields: &Vec<(String, CfgNode)>) -> (r: Result<Option<CmdConfig>, ConfigError>)
    ensures
        match r {
            Ok(cmd) => cmd_of(fields@) == Ok::<Option<CmdModel>, Fault>(
                match cmd {
                    Some(c) => Some(c@),
                    None => None,
                },
            ),
            Err(e) => cmd_of(fields@) == Err::<Option<CmdModel>, Fault>(e@),
        },
{
    match read_text(fields, "shell") {
        Err(e) => Err(e),
        Ok(Some(shell)) => Ok(Some(CmdConfig::Shell { shell })),
        Ok(None) => match read_texts(fields, "cmd") {
            Err(e) => Err(e),
            Ok(Some(cmd)) => Ok(Some(CmdConfig::Cmd { cmd })),
            Ok(None) => Ok(None),
        },
    }
}

/// The switches of a process.
pub struct Flags {
    pub autostart: Option<bool>,
    pub autorestart: Option<bool>,
    pub oneshot: Option<bool>,
}

pub open spec fn flags_of(fields: Seq<(String, CfgNode)>) -> Result<Flags, Fault> {
    match (
        flag_of(fields, "autostart"@),
        flag_of(fields, "autorestart"@),
        flag_of(fields, "oneshot"@),
    ) {
        (Err(f), _, _) => Err(f),
        (_, Err(f), _) => Err(f),
        (_, _, Err(f)) => Err(f),
        (Ok(autostart), Ok(autorestart), Ok(oneshot)) => Ok(
            Flags { autostart, autorestart, oneshot },
        ),
    }
}

fn read_flags(fields: &Vec<(String, CfgNode)>) -> (r: Result<Flags, ConfigError>)
    ensures
        match r {
            Ok(f) => flags_of(fields@) == Ok::<Flags, Fault>(f),
            Err(e) => flags_of(fields@) == Err::<Flags, Fault>(e@),
        },
{
    let autostart = match read_flag(fields, "autostart") {
        Ok(b) => b,
        Err(e) => {
            return Err(e);
        },
    };
    let autorestart = match read_flag(fields, "autorestart") {
        Ok(b) => b,
        Err(e) => {
            return Err(e);
        },
    };
    match read_flag(fields, "oneshot") {
        Ok(oneshot) => Ok(Flags { autostart, autorestart, oneshot }),
        Err(e) => Err(e),
    }
}

/// The directory of a process.
pub open spec fn cwd_of(fields: Seq<(String, CfgNode)>, cx: CfgCx) -> Result<
    Option<Seq<char>>,
    Fault,
> {
    match text_of(fields, "cwd"@) {
        Ok(Some(path)) => Ok(Some(config_path(cx.dir@, path))),
        other => other,
    }
}

fn read_cwd(fields: &Vec<(String, CfgNode)>, cx: &CfgCx) -> (r: Result<
    Option<String>,
    ConfigError,
>)
    ensures
        match r {
            Ok(s) => cwd_of(fields@, *cx) == Ok::<Option<Seq<char>>, Fault>(opt_chars(s)),
            Err(e) => cwd_of(fields@, *cx) == Err::<Option<Seq<char>>, Fault>(e@),
        },
{
    match read_text(fields, "cwd") {
        Ok(Some(path)) => Ok(Some(resolve_config_path(cx.dir.as_str(), path.as_str()))),
        other => other,
    }
}

/// The number of a field, if it is there.
pub open spec fn count_of(fields: Seq<(String, CfgNode)>, key: Seq<char>) -> Result<
    Option<usize>,
    Fault,
> {
    match entry(fields, key) {
        None => Ok(None),
        Some(v) => match v.count() {
            Some(n) => Ok(Some(n)),
            None => Err(mismatch_fault(v.mismatch(Shape::Number))),
        },
    }
}

fn read_count(fields: &Vec<(String, CfgNode)>, key: &str) -> (r: Result<
    Option<usize>,
    ConfigError,
>)
    ensures
        match r {
            Ok(n) => count_of(fields@, key@) == Ok::<Option<usize>, Fault>(n),
            Err(e) => count_of(fields@, key@) == Err::<Option<usize>, Fault>(e@),
        },
{
    match find_field(fields, key) {
        None => Ok(None),
        Some(v) => match v.as_usize() {
            Ok(n) => Ok(Some(n)),
            Err(e) => Err(ConfigError::expected(e)),
        },
    }
}

/// What a process runs, with its environment, dependencies, switches and
/// variables.
pub open spec fn basic_settings(fields: Seq<(String, CfgNode)>, cx: CfgCx) -> Result<
    ParsedProc,
    Fault,
> {
    match (
        cmd_of(fields),
        cwd_of(fields, cx),
        env_of(fields, cx),
        texts_of(fields, "deps"@),
        flags_of(fields),
        vars_of(fields),
    ) {
        (Err(f), _, _, _, _, _) => Err(f),
        (_, Err(f), _, _, _, _) => Err(f),
        (_, _, Err(f), _, _, _) => Err(f),
        (_, _, _, Err(f), _, _) => Err(f),
        (_, _, _, _, Err(f), _) => Err(f),
        (_, _, _, _, _, Err(f)) => Err(f),
        (Ok(cmd), Ok(cwd), Ok(env), Ok(deps), Ok(flags), Ok(vars)) => Ok(
            ParsedProc {
                settings: ProcSettings {
                    cmd,
                    cwd,
                    env,
                    deps: match deps {
                        Some(deps) => deps,
                        None => Seq::empty(),
                    },
                    autostart: flags.autostart,
                    autorestart: flags.autorestart,
                    oneshot: flags.oneshot,
                    ..ProcSettings::blank()
                },
                vars,
            },
        ),
    }
}

fn read_basic(fields: &Vec<(String, CfgNode)>, cx: &CfgCx) -> (r: Result<ProcConfig, ConfigError>)
    ensures
        match r {
            Ok(cfg) => cfg.wf() && basic_settings(fields@, *cx) == Ok::<ParsedProc, Fault>(
                parsed(cfg@),
            ),
            Err(e) => basic_settings(fields@, *cx) == Err::<ParsedProc, Fault>(e@),
        },
{
    let cmd = match read_cmd(fields) {
        Ok(cmd) => cmd,
        Err(e) => {
            return Err(e);
        },
    };
    let cwd = match read_cwd(fields, cx) {
        Ok(cwd) => cwd,
        Err(e) => {
            return Err(e);
        },
    };
    let env = match read_env(fields, cx) {
        Ok(env) => env,
        Err(e) => {
            return Err(e);
        },
    };
    let deps = match read_texts(fields, "deps") {
        Ok(deps) => deps,
        Err(e) => {
            return Err(e);
        },
    };
    let flags = match read_flags(fields) {
        Ok(flags) => flags,
        Err(e) => {
            return Err(e);
        },
    };
    let vars = match read_vars(fields) {
        Ok(vars) => vars,
        Err(e) => {
            return Err(e);
        },
    };
    let ghost want = basic_settings(fields@, *cx)->Ok_0;
    let mut cfg = ProcConfig::default();
    cfg.cmd = cmd;
    cfg.cwd = cwd;
    cfg.env = env;
    if let Some(deps) = deps {
        cfg.deps = deps;
    }
    cfg.autostart = flags.autostart;
    cfg.autorestart = flags.autorestart;
    cfg.oneshot = flags.oneshot;
    cfg.vars = vars;
    proof {
        assert(parsed(cfg@) =~= want);
    }
    Ok(cfg)
}

/// The settings that a process and the defaults of all processes can have in
/// common: what is run and how it is stopped and started again.
pub open spec fn common_settings(fields: Seq<(String, CfgNode)>, cx: CfgCx) -> Result<
    ParsedProc,
    Fault,
> {
    match (
        basic_settings(fields, cx),
        stop_of(fields, cx),
        texts_of(fields, "add_path"@),
        count_of(fields, "restart_delay"@),
    ) {
        (Err(f), _, _, _) => Err(f),
        (_, Err(f), _, _) => Err(f),
        (_, _, Err(f), _) => Err(f),
        (_, _, _, Err(f)) => Err(f),
        (Ok(p), Ok(stop), Ok(add_path), Ok(restart_delay)) => Ok(
            ParsedProc {
                settings: ProcSettings {
                    stop,
                    add_path: match add_path {
                        Some(dirs) => dirs,
                        None => Seq::empty(),
                    },
                    restart_delay,
                    ..p.settings
                },
                ..p
            },
        ),
    }
}

fn read_common(fields: &Vec<(String, CfgNode)>, cx: &CfgCx) -> (r: Result<ProcConfig, ConfigError>)
    ensures
        match r {
            Ok(cfg) => cfg.wf() && common_settings(fields@, *cx) == Ok::<ParsedProc, Fault>(
                parsed(cfg@),
            ),
            Err(e) => common_settings(fields@, *cx) == Err::<ParsedProc, Fault>(e@),
        },
{
    let mut cfg = match read_basic(fields, cx) {
        Ok(cfg) => cfg,
        Err(e) => {
            return Err(e);
        },
    };
    let stop = match read_stop(fields, cx) {
        Ok(stop) => stop,
        Err(e) => {
            return Err(e);
        },
    };
    let add_path = match read_texts(fields, "add_path") {
        Ok(dirs) => dirs,
        Err(e) => {
            return Err(e);
        },
    };
    let restart_delay = match read_count(fields, "restart_delay") {
        Ok(n) => n,
        Err(e) => {
            return Err(e);
        },
    };
    let ghost want = common_settings(fields@, *cx)->Ok_0;
    cfg.stop = stop;
    cfg.add_path = match add_path {
        Some(dirs) => dirs,
        None => Vec::new(),
    };
    cfg.restart_delay = restart_delay;
    proof {
        assert(parsed(cfg@) =~= want);
    }
    Ok(cfg)
}

/// The settings that `proc_defaults` gives.
pub open spec fn default_settings(node: CfgNode, cx: CfgCx) -> Result<ParsedProc, Fault> {
    if node.value is Object {
        common_settings(node.fields(), cx)
    } else {
        Err(mismatch_fault(node.mismatch(Shape::Mapping)))
    }
}

/// Reads settings that hold for every process.
pub fn parse_proc_settings(node: &CfgNode, cx: &CfgCx) -> (r: Result<ProcConfig, ConfigError>)
    ensures
        match r {
            Ok(cfg) => cfg.wf() && default_settings(*node, *cx) == Ok::<ParsedProc, Fault>(
                parsed(cfg@),
            ),
            Err(e) => default_settings(*node, *cx) == Err::<ParsedProc, Fault>(e@),
        },
{
    match node.as_obj() {
        Ok(fields) => read_common(fields, cx),
        Err(e) => Err(ConfigError::expected(e)),
    }
}

/// The checks of a process.
pub open spec fn checks_of(
    fields: Seq<(String, CfgNode)>,
    registry: Map<Seq<char>, HealthCheckModel>,
) -> Result<Seq<HealthCheckModel>, Fault> {
    match entry(fields, "healthchecks"@) {
        Some(node) => proc_checks(node, registry),
        None => Ok(Seq::empty()),
    }
}

pub open spec fn hooks_of(
    fields: Seq<(String, CfgNode)>,
    registry: Map<Seq<char>, HookModel>,
) -> Result<HookSetModel, Fault> {
    match entry(fields, "hooks"@) {
        Some(node) => proc_hooks(node, registry),
        None => Ok(HookSetModel::none()),
    }
}

/// A configured process: a string is a shell command, a mapping has settings.
/// A one-shot has no checks.
pub open spec fn configured_proc(
    path: Seq<char>,
    node: CfgNode,
    cx: CfgCx,
    checks: Map<Seq<char>, HealthCheckModel>,
    hooks: Map<Seq<char>, HookModel>,
) -> Result<ParsedProc, Fault> {
    if node.value is Text {
        Ok(
            ParsedProc {
                settings: ProcSettings {
                    path,
                    cmd: Some(CmdModel::Shell(node.text())),
                    ..ProcSettings::blank()
                },
                vars: Map::empty(),
            },
        )
    } else if node.value is Object {
        match (
            common_settings(node.fields(), cx),
            checks_of(node.fields(), checks),
            hooks_of(node.fields(), hooks),
        ) {
            (Err(f), _, _) => Err(f),
            (_, Err(f), _) => Err(f),
            (_, _, Err(f)) => Err(f),
            (Ok(p), Ok(healthchecks), Ok(own_hooks)) => if p.settings.oneshot == Some(true)
                && healthchecks.len() > 0 {
                Err(Fault { mark: node.mark, problem: Problem::OneshotWithHealthchecks })
            } else {
                Ok(
                    ParsedProc {
                        settings: ProcSettings {
                            path,
                            healthchecks,
                            hooks: own_hooks,
                            ..p.settings
                        },
                        ..p
                    },
                )
            },
        }
    } else {
        Err(mismatch_fault(node.mismatch(Shape::Mapping)))
    }
}

/// Reads a process.
pub fn proc_from_cfg(
    path: String,
    node: &CfgNode,
    cx: &CfgCx,
    healthchecks: &HealthCheckRegistry,
    hooks: &HookRegistry,
) -> (r: Result<ProcConfig, ConfigError>)
    requires
        healthchecks.wf(),
        hooks.wf(),
    ensures
        match r {
            Ok(cfg) => cfg.wf() && configured_proc(
                path@,
                *node,
                *cx,
                check_models(healthchecks@),
                hook_models(hooks@),
            ) == Ok::<ParsedProc, Fault>(parsed(cfg@)),
            Err(e) => configured_proc(
                path@,
                *node,
                *cx,
                check_models(healthchecks@),
                hook_models(hooks@),
            ) == Err::<ParsedProc, Fault>(e@),
        },
{
    let ghost want = configured_proc(
        path@,
        *node,
        *cx,
        check_models(healthchecks@),
        hook_models(hooks@),
    );
    if node.is_string() {
        let mut cfg = ProcConfig::default();
        cfg.path = path;
        match node.as_str() {
            Ok(shell) => {
                cfg.cmd = Some(CmdConfig::Shell { shell: shell.to_owned() });
            },
            Err(e) => {
                return Err(ConfigError::expected(e));
            },
        }
        proof {
            assert(parsed(cfg@) =~= want->Ok_0);
        }
        return Ok(cfg);
    }
    let fields = match node.as_obj() {
        Ok(fields) => fields,
        Err(e) => {
            return Err(ConfigError::expected(e));
        },
    };
    let mut cfg = match read_common(fields, cx) {
        Ok(cfg) => cfg,
        Err(e) => {
            return Err(e);
        },
    };
    let ghost common = parsed(cfg@);
    let checks = match find_field(fields, "healthchecks") {
        Some(v) => match parse_proc_healthchecks(v, healthchecks) {
            Ok(checks) => checks,
            Err(e) => {
                return Err(e);
            },
        },
        None => Vec::new(),
    };
    proof {
        if entry(fields@, "healthchecks"@) is None {
            assert(check_views(checks@) =~= Seq::empty());
        }
    }
    let own_hooks = match find_field(fields, "hooks") {
        Some(v) => match parse_hooks(v, hooks) {
            Ok(set) => set,
            Err(e) => {
                return Err(e);
            },
        },
        None => Default::default(),
    };
    let oneshot = match cfg.oneshot {
        Some(b) => b,
        None => false,
    };
    if oneshot && checks.len() > 0 {
        return Err(ConfigError::at(node.mark, ErrorKind::OneshotWithHealthchecks));
    }
    cfg.path = path;
    cfg.healthchecks = checks;
    cfg.hooks = own_hooks;
    proof {
        assert(parsed(cfg@) =~= want->Ok_0);
    }
    Ok(cfg)
}

} // verus!
