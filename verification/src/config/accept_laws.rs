//! Which configurations are accepted, and how settings are laid over each
//! other.

use crate::config::config::{loaded, ConfigFile, ConfigModel, OnClientExit};
use crate::config::cx::{config_path, CfgCx};
use crate::config::env::{env_of, env_upto, files_upto};
use crate::config::health::{
    check_registry, health_check, hook, hook_registry, listed_checks, named_checks, named_hooks,
    proc_checks, HealthCheckModel, HookModel,
};
use crate::config::laws::is_count;
use crate::config::node::{entry, CfgNode, CfgValue};
use crate::config::proc::ProcSettings;
use crate::config::settings::{
    checks_of, common_settings, configured_proc, default_settings, hooks_of, texts_of, texts_upto,
    vars_of, vars_upto, ParsedProc,
};
use crate::config::stop::{keys_upto, stop_value};
use vstd::prelude::*;

verus! {

/// A setting that is given counts, or else the one below it.
pub open spec fn lies_over<T>(over: Option<T>, base: Option<T>, r: Option<T>) -> bool {
    match over {
        Some(v) => r == Some(v),
        None => r == base,
    }
}

/// A list that is given counts, or else the one below it.
pub open spec fn list_lies_over<T>(over: Seq<T>, base: Seq<T>, r: Seq<T>) -> bool {
    if over.len() > 0 {
        r == over
    } else {
        r == base
    }
}

/// Every setting of a process counts where it is given, or else that of the
/// defaults. The environment and the variables of both hold, those of the
/// process after and over those of the defaults.
pub proof fn each_setting_is_laid_over(base: ProcSettings, over: ProcSettings, key: Seq<char>)
    ensures
        ({
            let r = base.overlaid(over);
            &&& r.path == over.path
            &&& lies_over(over.cmd, base.cmd, r.cmd)
            &&& lies_over(over.cwd, base.cwd, r.cwd)
            &&& lies_over(over.autostart, base.autostart, r.autostart)
            &&& lies_over(over.autorestart, base.autorestart, r.autorestart)
            &&& lies_over(over.restart_delay, base.restart_delay, r.restart_delay)
            &&& lies_over(over.oneshot, base.oneshot, r.oneshot)
            &&& lies_over(over.stop, base.stop, r.stop)
            &&& lies_over(over.log, base.log, r.log)
            &&& lies_over(over.scrollback_len, base.scrollback_len, r.scrollback_len)
            &&& lies_over(over.mouse_scroll_speed, base.mouse_scroll_speed, r.mouse_scroll_speed)
            &&& list_lies_over(over.add_path, base.add_path, r.add_path)
            &&& list_lies_over(over.deps, base.deps, r.deps)
            &&& list_lies_over(over.healthchecks, base.healthchecks, r.healthchecks)
            &&& lies_over(over.hooks.started, base.hooks.started, r.hooks.started)
            &&& lies_over(over.hooks.running, base.hooks.running, r.hooks.running)
            &&& lies_over(over.hooks.unhealthy, base.hooks.unhealthy, r.hooks.unhealthy)
            &&& lies_over(over.hooks.stopped, base.hooks.stopped, r.hooks.stopped)
            &&& lies_over(over.hooks.failed, base.hooks.failed, r.hooks.failed)
            &&& r.env.len() == base.env.len() + over.env.len()
            &&& r.env.take(base.env.len() as int) == base.env
            &&& r.env.skip(base.env.len() as int) == over.env
            &&& r.vars.dom().contains(key) <==> base.vars.dom().contains(key)
                || over.vars.dom().contains(key)
            &&& over.vars.dom().contains(key) ==> r.vars[key] == over.vars[key]
            &&& !over.vars.dom().contains(key) && base.vars.dom().contains(key) ==> r.vars[key]
                == base.vars[key]
        }),
{
    let r = base.overlaid(over);
    assert(r.env.take(base.env.len() as int) =~= base.env);
    assert(r.env.skip(base.env.len() as int) =~= over.env);
}

/// A value that can be written out as a text.
pub open spec fn is_scalar(node: CfgNode) -> bool {
    match node.value {
        CfgValue::Text(_) | CfgValue::Int(_) | CfgValue::Bool(_) | CfgValue::Other(_) => true,
        _ => false,
    }
}

pub open spec fn may_be_text(said: Option<CfgNode>) -> bool {
    said matches Some(v) ==> v.value is Text
}

pub open spec fn may_be_flag(said: Option<CfgNode>) -> bool {
    said matches Some(v) ==> v.value is Bool
}

pub open spec fn is_text_node(node: CfgNode) -> bool {
    node.value is Text
}

/// A list of texts, if there is one.
pub open spec fn may_be_texts(said: Option<CfgNode>) -> bool {
    match said {
        None => true,
        Some(v) => match v.value {
            CfgValue::List(items) => forall|i: int|
                0 <= i < items@.len() ==> is_text_node(#[trigger] items@[i]),
            _ => false,
        },
    }
}

/// A mapping of names to texts, if there is one.
pub open spec fn may_be_vars(said: Option<CfgNode>) -> bool {
    match said {
        None => true,
        Some(v) => match v.value {
            CfgValue::Object(fields) => forall|i: int|
                0 <= i < fields@.len() ==> is_scalar((#[trigger] fields@[i]).1),
            _ => false,
        },
    }
}

/// A mapping of names to texts or to nothing, if there is one.
pub open spec fn may_be_env(said: Option<CfgNode>) -> bool {
    match said {
        None => true,
        Some(v) => match v.value {
            CfgValue::Object(fields) => forall|i: int|
                0 <= i < fields@.len() ==> (is_scalar((#[trigger] fields@[i]).1)
                    || fields@[i].1.value is Null),
            _ => false,
        },
    }
}

/// The path of a file whose variables were read.
pub open spec fn is_env_file(node: CfgNode, cx: CfgCx) -> bool {
    match node.value {
        CfgValue::Text(s) => entry(cx.env_files@, config_path(cx.dir@, s@)) is Some,
        _ => false,
    }
}

/// A list of such files, if there is one.
pub open spec fn may_be_env_files(said: Option<CfgNode>, cx: CfgCx) -> bool {
    match said {
        None => true,
        Some(v) => match v.value {
            CfgValue::List(items) => forall|i: int|
                0 <= i < items@.len() ==> is_env_file(#[trigger] items@[i], cx),
            _ => false,
        },
    }
}

pub open spec fn is_key_name(node: CfgNode, cx: CfgCx) -> bool {
    match node.value {
        CfgValue::Text(s) => entry(cx.keys@, s@) is Some,
        _ => false,
    }
}

/// A way to stop a process: one of the four names, a command, or keys.
pub open spec fn is_stop(v: CfgNode, cx: CfgCx) -> bool {
    match v.value {
        CfgValue::Text(name) => name@ == "SIGINT"@ || name@ == "SIGTERM"@ || name@ == "SIGKILL"@
            || name@ == "hard-kill"@,
        CfgValue::Object(fields) => fields@.len() == 1 && {
            let arg = fields@[0].1;
            ||| fields@[0].0@ == "send-keys"@ && (arg.value matches CfgValue::List(items)
                && forall|i: int| 0 <= i < items@.len() ==> is_key_name(#[trigger] items@[i], cx))
            ||| fields@[0].0@ == "cmd"@ && arg.value is Text
        },
        _ => false,
    }
}

proof fn lemma_texts_ok(items: Seq<CfgNode>, n: nat)
    requires
        n <= items.len(),
    ensures
        texts_upto(items, n) is Ok <==> forall|i: int|
            0 <= i < n ==> is_text_node(#[trigger] items[i]),
    decreases n,
{
    if n > 0 {
        lemma_texts_ok(items, (n - 1) as nat);
        if texts_upto(items, n) is Ok {
            assert forall|i: int| 0 <= i < n implies is_text_node(#[trigger] items[i]) by {}
        } else if texts_upto(items, (n - 1) as nat) is Ok {
            assert(!is_text_node(items[n - 1]));
        }
    }
}

proof fn lemma_vars_ok(fields: Seq<(String, CfgNode)>, n: nat)
    requires
        n <= fields.len(),
    ensures
        vars_upto(fields, n) is Ok <==> forall|i: int|
            0 <= i < n ==> is_scalar((#[trigger] fields[i]).1),
    decreases n,
{
    if n > 0 {
        lemma_vars_ok(fields, (n - 1) as nat);
        if vars_upto(fields, n) is Ok {
            assert forall|i: int| 0 <= i < n implies is_scalar((#[trigger] fields[i]).1) by {}
        } else if vars_upto(fields, (n - 1) as nat) is Ok {
            assert(!is_scalar(fields[n - 1].1));
        }
    }
}

proof fn lemma_env_ok(fields: Seq<(String, CfgNode)>, n: nat)
    requires
        n <= fields.len(),
    ensures
        env_upto(fields, n) is Ok <==> forall|i: int|
            0 <= i < n ==> (is_scalar((#[trigger] fields[i]).1) || fields[i].1.value is Null),
    decreases n,
{
    if n > 0 {
        lemma_env_ok(fields, (n - 1) as nat);
        if env_upto(fields, n) is Ok {
            assert forall|i: int| 0 <= i < n implies (is_scalar((#[trigger] fields[i]).1)
                || fields[i].1.value is Null) by {}
        } else if env_upto(fields, (n - 1) as nat) is Ok {
            assert(!(is_scalar(fields[n - 1].1) || fields[n - 1].1.value is Null));
        }
    }
}

proof fn lemma_files_ok(items: Seq<CfgNode>, cx: CfgCx, n: nat)
    requires
        n <= items.len(),
    ensures
        files_upto(items, cx, n) is Ok <==> forall|i: int|
            0 <= i < n ==> is_env_file(#[trigger] items[i], cx),
    decreases n,
{
    if n > 0 {
        lemma_files_ok(items, cx, (n - 1) as nat);
        if files_upto(items, cx, n) is Ok {
            assert forall|i: int| 0 <= i < n implies is_env_file(#[trigger] items[i], cx) by {}
        } else if files_upto(items, cx, (n - 1) as nat) is Ok {
            assert(!is_env_file(items[n - 1], cx));
        }
    }
}

proof fn lemma_keys_ok(items: Seq<CfgNode>, cx: CfgCx, n: nat)
    requires
        n <= items.len(),
    ensures
        keys_upto(items, cx, n) is Ok <==> forall|i: int|
            0 <= i < n ==> is_key_name(#[trigger] items[i], cx),
    decreases n,
{
    if n > 0 {
        lemma_keys_ok(items, cx, (n - 1) as nat);
        if keys_upto(items, cx, n) is Ok {
            assert forall|i: int| 0 <= i < n implies is_key_name(#[trigger] items[i], cx) by {}
        } else if keys_upto(items, cx, (n - 1) as nat) is Ok {
            assert(!is_key_name(items[n - 1], cx));
        }
    }
}

proof fn lemma_texts_of_ok(fields: Seq<(String, CfgNode)>, key: Seq<char>)
    ensures
        texts_of(fields, key) is Ok <==> may_be_texts(entry(fields, key)),
{
    if let Some(v) = entry(fields, key) {
        if let CfgValue::List(items) = v.value {
            lemma_texts_ok(items@, items@.len());
        }
    }
}

proof fn lemma_vars_of_ok(fields: Seq<(String, CfgNode)>)
    ensures
        vars_of(fields) is Ok <==> may_be_vars(entry(fields, "vars"@)),
{
    if let Some(v) = entry(fields, "vars"@) {
        if let CfgValue::Object(own) = v.value {
            lemma_vars_ok(own@, own@.len());
        }
    }
}

proof fn lemma_env_of_ok(fields: Seq<(String, CfgNode)>, cx: CfgCx)
    ensures
        env_of(fields, cx) is Ok <==> may_be_env(entry(fields, "env"@)) && may_be_env_files(
            entry(fields, "env_file"@),
            cx,
        ),
{
    if let Some(v) = entry(fields, "env"@) {
        if let CfgValue::Object(own) = v.value {
            lemma_env_ok(own@, own@.len());
        }
    }
    if let Some(v) = entry(fields, "env_file"@) {
        if let CfgValue::List(items) = v.value {
            lemma_files_ok(items@, cx, items@.len());
        }
    }
}

/// A way to stop a process is accepted exactly if it is one.
pub proof fn ways_to_stop_are_accepted(v: CfgNode, cx: CfgCx)
    ensures
        stop_value(v, cx) is Ok <==> is_stop(v, cx),
{
    reveal_strlit("send-keys");
    reveal_strlit("cmd");
    assert("send-keys"@.len() != "cmd"@.len());
    if let CfgValue::Object(fields) = v.value {
        if fields@.len() == 1 {
            if let CfgValue::List(items) = fields@[0].1.value {
                lemma_keys_ok(items@, cx, items@.len());
            }
        }
    }
}

/// The settings of a process are accepted exactly if each one that is given has
/// the shape that it is to have. A list to run is not looked at where there is
/// a shell command.
pub proof fn settings_of_the_right_shape_are_accepted(fields: Seq<(String, CfgNode)>, cx: CfgCx)
    ensures
        common_settings(fields, cx) is Ok <==> {
            &&& may_be_text(entry(fields, "shell"@))
            &&& entry(fields, "shell"@) is None ==> may_be_texts(entry(fields, "cmd"@))
            &&& may_be_text(entry(fields, "cwd"@))
            &&& may_be_env(entry(fields, "env"@))
            &&& may_be_env_files(entry(fields, "env_file"@), cx)
            &&& may_be_texts(entry(fields, "deps"@))
            &&& may_be_flag(entry(fields, "autostart"@))
            &&& may_be_flag(entry(fields, "autorestart"@))
            &&& may_be_flag(entry(fields, "oneshot"@))
            &&& may_be_vars(entry(fields, "vars"@))
            &&& entry(fields, "stop"@) matches Some(v) ==> is_stop(v, cx)
            &&& may_be_texts(entry(fields, "add_path"@))
            &&& is_count(entry(fields, "restart_delay"@))
        },
{
    lemma_texts_of_ok(fields, "cmd"@);
    lemma_texts_of_ok(fields, "deps"@);
    lemma_texts_of_ok(fields, "add_path"@);
    lemma_vars_of_ok(fields);
    lemma_env_of_ok(fields, cx);
    if let Some(v) = entry(fields, "stop"@) {
        ways_to_stop_are_accepted(v, cx);
    }
}

/// A process is accepted if it is a text, or a mapping whose settings, checks
/// and hooks are accepted, unless it is a one-shot whose health is checked.
pub proof fn processes_are_accepted(
    path: Seq<char>,
    node: CfgNode,
    cx: CfgCx,
    checks: Map<Seq<char>, HealthCheckModel>,
    hooks: Map<Seq<char>, HookModel>,
)
    ensures
        configured_proc(path, node, cx, checks, hooks) is Ok <==> match node.value {
            CfgValue::Text(_) => true,
            CfgValue::Object(fields) => {
                &&& common_settings(fields@, cx) is Ok
                &&& checks_of(fields@, checks) is Ok
                &&& hooks_of(fields@, hooks) is Ok
                &&& !(common_settings(fields@, cx)->Ok_0.settings.oneshot == Some(true)
                    && checks_of(fields@, checks)->Ok_0.len() > 0)
            },
            _ => false,
        },
{
}

/// A check of a process is one that is named, or one that is written out.
pub open spec fn is_listed_check(
    node: CfgNode,
    registry: Map<Seq<char>, HealthCheckModel>,
) -> bool {
    match node.value {
        CfgValue::Text(name) => registry.dom().contains(name@),
        CfgValue::Object(_) => health_check(node) is Ok,
        _ => false,
    }
}

proof fn lemma_listed_ok(
    items: Seq<CfgNode>,
    registry: Map<Seq<char>, HealthCheckModel>,
    n: nat,
)
    requires
        n <= items.len(),
    ensures
        listed_checks(items, registry, n) is Ok <==> forall|i: int|
            0 <= i < n ==> is_listed_check(#[trigger] items[i], registry),
    decreases n,
{
    if n > 0 {
        lemma_listed_ok(items, registry, (n - 1) as nat);
        if listed_checks(items, registry, n) is Ok {
            assert forall|i: int| 0 <= i < n implies is_listed_check(
                #[trigger] items[i],
                registry,
            ) by {}
        } else if listed_checks(items, registry, (n - 1) as nat) is Ok {
            assert(!is_listed_check(items[n - 1], registry));
        }
    }
}

/// The checks of a process are accepted exactly if they are a list of checks
/// that are known by their names or written out.
pub proof fn listed_checks_are_accepted(
    node: CfgNode,
    registry: Map<Seq<char>, HealthCheckModel>,
)
    ensures
        proc_checks(node, registry) is Ok <==> (node.value matches CfgValue::List(items)
            && forall|i: int|
            0 <= i < items@.len() ==> is_listed_check(#[trigger] items@[i], registry)),
{
    if let CfgValue::List(items) = node.value {
        lemma_listed_ok(items@, registry, items@.len());
    }
}

proof fn lemma_named_ok(fields: Seq<(String, CfgNode)>, n: nat)
    requires
        n <= fields.len(),
    ensures
        named_checks(fields, n) is Ok <==> forall|i: int|
            0 <= i < n ==> health_check((#[trigger] fields[i]).1) is Ok,
        named_hooks(fields, n) is Ok <==> forall|i: int|
            0 <= i < n ==> hook((#[trigger] fields[i]).1) is Ok,
    decreases n,
{
    if n > 0 {
        lemma_named_ok(fields, (n - 1) as nat);
        if named_checks(fields, n) is Ok {
            assert forall|i: int| 0 <= i < n implies health_check(
                (#[trigger] fields[i]).1,
            ) is Ok by {}
        } else if named_checks(fields, (n - 1) as nat) is Ok {
            assert(health_check(fields[n - 1].1) is Err);
        }
        if named_hooks(fields, n) is Ok {
            assert forall|i: int| 0 <= i < n implies hook((#[trigger] fields[i]).1) is Ok by {}
        } else if named_hooks(fields, (n - 1) as nat) is Ok {
            assert(hook(fields[n - 1].1) is Err);
        }
    }
}

/// Named checks and hooks are accepted exactly if they are mappings of names to
/// checks and hooks.
pub proof fn definitions_are_accepted(node: CfgNode)
    ensures
        check_registry(node) is Ok <==> (node.value matches CfgValue::Object(fields) && forall|
            i: int,
        |
            0 <= i < fields@.len() ==> health_check((#[trigger] fields@[i]).1) is Ok),
        hook_registry(node) is Ok <==> (node.value matches CfgValue::Object(fields) && forall|
            i: int,
        |
            0 <= i < fields@.len() ==> hook((#[trigger] fields@[i]).1) is Ok),
{
    if let CfgValue::Object(fields) = node.value {
        lemma_named_ok(fields@, fields@.len());
    }
}

/// What a file says is to happen when the last client goes.
pub open spec fn client_exit_said(file: ConfigFile, or: OnClientExit, r: OnClientExit) -> bool {
    match entry(file.root.fields(), "on_client_exit"@) {
        None => r == or,
        Some(v) => match v.value {
            CfgValue::Text(s) => {
                ||| s@ == "detach"@ && r == OnClientExit::Detach
                ||| s@ == "stop_all"@ && r == OnClientExit::StopAll
            },
            _ => false,
        },
    }
}

/// The global file says `outer`, and the workspace makes `r` of it.
pub open spec fn passes_on(
    global: Option<(Seq<char>, ConfigFile)>,
    local: Option<ConfigFile>,
    outer: OnClientExit,
    r: OnClientExit,
) -> bool {
    &&& match global {
        Some((_, file)) => client_exit_said(file, OnClientExit::Detach, outer),
        None => outer == OnClientExit::Detach,
    }
    &&& match local {
        Some(file) => client_exit_said(file, outer, r),
        None => r == outer,
    }
}

/// What happens when the last client goes is said by the workspace, or else by
/// the global file, or else the processes keep running.
pub proof fn client_exit_is_as_configured(
    global: Option<(Seq<char>, ConfigFile)>,
    local: Option<ConfigFile>,
)
    requires
        loaded(global, local) is Ok,
    ensures
        ({
            let r = loaded(global, local)->Ok_0.on_client_exit;
            ||| passes_on(global, local, OnClientExit::Detach, r)
            ||| passes_on(global, local, OnClientExit::StopAll, r)
        }),
{
    let first = match global {
        Some((name, file)) => ConfigModel::blank().with_global(name, file),
        None => Ok(ConfigModel::blank()),
    };
    let outer = first->Ok_0.on_client_exit;
    assert(passes_on(global, local, outer, loaded(global, local)->Ok_0.on_client_exit));
}

/// The defaults of a file, if it has some.
pub open spec fn defaults_in(file: ConfigFile) -> Option<ParsedProc> {
    match entry(file.root.fields(), "proc_defaults"@) {
        Some(node) => Some(default_settings(node, file.cx)->Ok_0),
        None => None,
    }
}

/// The defaults for the processes are those of the workspace laid over the
/// global ones.
pub proof fn defaults_of_both_files_hold(global: (Seq<char>, ConfigFile), local: ConfigFile)
    requires
        loaded(Some(global), Some(local)) is Ok,
    ensures
        ({
            let r = loaded(Some(global), Some(local))->Ok_0.proc_defaults.settings;
            let (outer, inner) = (defaults_in(global.1), defaults_in(local));
            let (o, i) = (outer->0.settings, inner->0.settings);
            &&& inner is Some && outer is Some ==> {
                &&& lies_over(i.cmd, o.cmd, r.cmd)
                &&& lies_over(i.cwd, o.cwd, r.cwd)
                &&& lies_over(i.autostart, o.autostart, r.autostart)
                &&& lies_over(i.autorestart, o.autorestart, r.autorestart)
                &&& lies_over(i.restart_delay, o.restart_delay, r.restart_delay)
                &&& lies_over(i.oneshot, o.oneshot, r.oneshot)
                &&& lies_over(i.stop, o.stop, r.stop)
                &&& r.env == o.env + i.env
            }
            &&& inner is Some && outer is None ==> r.autostart == i.autostart && r.stop == i.stop
                && r.cmd == i.cmd && r.env == i.env
            &&& inner is None && outer is Some ==> r.autostart == o.autostart && r.stop == o.stop
                && r.cmd == o.cmd && r.env == o.env
            &&& inner is None && outer is None ==> r == ProcSettings::blank()
        }),
{
    let first = ConfigModel::blank().with_global(global.0, global.1)->Ok_0;
    let (outer, inner) = (defaults_in(global.1), defaults_in(local));
    if let Some(p) = outer {
        assert(Seq::empty() + p.settings.env =~= p.settings.env);
    }
    if let Some(p) = inner {
        assert(Seq::empty() + p.settings.env =~= p.settings.env);
    }
}

} // verus!
