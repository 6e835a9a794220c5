//! What the settings of a process mean.

use crate::config::cx::{config_path, CfgCx};
use crate::config::env::{env_upto, inline_env};
use crate::config::error::Fault;
use crate::config::health::{HealthCheckModel, HookModel, HookSetModel};
use crate::config::laws::last_before;
use crate::config::node::{entry, CfgNode, CfgValue};
use crate::config::proc::{CmdModel, ProcSettings, StopModel};
use crate::config::settings::{
    checks_of, common_settings, configured_proc, hooks_of, scalar_text, texts_of, texts_upto,
    vars_upto,
};
use crate::config::stop::{keys_upto, stop_value};
use crate::term::key::Key;
use crate::text::{all_digits, decimal, digits_value, lemma_decimal};
use vstd::prelude::*;

verus! {

/// A path in a file stands for itself, unless it starts at the directory of
/// the file.
pub proof fn config_dir_leads_to_the_file(dir: Seq<char>, path: Seq<char>, rest: Seq<char>)
    ensures
        config_path(dir, "<CONFIG_DIR>"@ + rest) == dir + rest,
        path.len() > 0 && path[0] != '<' ==> config_path(dir, path) == path,
        config_path(dir, Seq::empty()) == Seq::<char>::empty(),
{
    reveal_strlit("<CONFIG_DIR>");
    let s = "<CONFIG_DIR>"@ + rest;
    assert(s.subrange(0, "<CONFIG_DIR>"@.len() as int) =~= "<CONFIG_DIR>"@);
    assert(s.skip("<CONFIG_DIR>"@.len() as int) =~= rest);
    assert("<CONFIG_DIR>"@[0] == '<');
}

/// The value is this text.
pub open spec fn says(node: CfgNode, text: Seq<char>) -> bool {
    match node.value {
        CfgValue::Text(s) => s@ == text,
        _ => false,
    }
}

/// The value is the name of this key.
pub open spec fn names_key(node: CfgNode, cx: CfgCx, key: Key) -> bool {
    match node.value {
        CfgValue::Text(s) => entry(cx.keys@, s@) == Some(key),
        _ => false,
    }
}

/// The texts of a list, one for each item.
pub open spec fn texts_in(said: Option<CfgNode>, texts: Seq<Seq<char>>) -> bool {
    match said {
        None => texts.len() == 0,
        Some(v) => v.value matches CfgValue::List(items) && texts.len() == items@.len() && forall|
            i: int,
        |
            0 <= i < texts.len() ==> says(items@[i], #[trigger] texts[i]),
    }
}

proof fn lemma_texts(items: Seq<CfgNode>, n: nat)
    requires
        n <= items.len(),
        texts_upto(items, n) is Ok,
    ensures
        ({
            let texts = texts_upto(items, n)->Ok_0;
            &&& texts.len() == n
            &&& forall|i: int|
                0 <= i < n ==> says(items[i], #[trigger] texts[i])
        }),
    decreases n,
{
    if n > 0 {
        lemma_texts(items, (n - 1) as nat);
        let before = texts_upto(items, (n - 1) as nat)->Ok_0;
        let texts = texts_upto(items, n)->Ok_0;
        assert forall|i: int| 0 <= i < n implies says(items[i], #[trigger] texts[i]) by {
            if i < n - 1 {
                assert(texts[i] == before[i]);
            }
        }
    }
}

proof fn lemma_texts_of(fields: Seq<(String, CfgNode)>, key: Seq<char>)
    ensures
        texts_of(fields, key) matches Ok(texts) ==> {
            &&& texts is None <==> entry(fields, key) is None
            &&& texts_in(
                entry(fields, key),
                match texts {
                    Some(t) => t,
                    None => Seq::empty(),
                },
            )
        },
{
    if texts_of(fields, key) is Ok && entry(fields, key) is Some {
        let v = entry(fields, key)->0;
        lemma_texts(v.items(), v.items().len());
    }
}

/// What a process runs is its shell command, or else its list of a program
/// with its arguments.
pub open spec fn cmd_said(fields: Seq<(String, CfgNode)>, cmd: Option<CmdModel>) -> bool {
    match (entry(fields, "shell"@), entry(fields, "cmd"@)) {
        (Some(v), _) => v.value matches CfgValue::Text(s) && cmd == Some(CmdModel::Shell(s@)),
        (None, Some(v)) => cmd matches Some(CmdModel::Argv(argv)) && texts_in(Some(v), argv),
        (None, None) => cmd is None,
    }
}

/// A switch is set as it is written.
pub open spec fn flag_said(said: Option<CfgNode>, flag: Option<bool>) -> bool {
    match said {
        None => flag is None,
        Some(v) => flag is Some && v.value == CfgValue::Bool(flag->0),
    }
}

/// The keys with these names, in their order.
pub open spec fn keys_in(items: Seq<CfgNode>, cx: CfgCx, keys: Seq<Key>) -> bool {
    &&& keys.len() == items.len()
    &&& forall|i: int|
        0 <= i < keys.len() ==> names_key(items[i], cx, #[trigger] keys[i])
}

/// A process is stopped by the signal that is named, by keys, by a command, or
/// at once.
pub open spec fn stop_said(said: Option<CfgNode>, cx: CfgCx, stop: Option<StopModel>) -> bool {
    match said {
        None => stop is None,
        Some(v) => match v.value {
            CfgValue::Text(name) => {
                ||| name@ == "SIGINT"@ && stop == Some(StopModel::Interrupt)
                ||| name@ == "SIGTERM"@ && stop == Some(StopModel::Terminate)
                ||| name@ == "SIGKILL"@ && stop == Some(StopModel::Kill)
                ||| name@ == "hard-kill"@ && stop == Some(StopModel::HardKill)
            },
            CfgValue::Object(fields) => fields@.len() == 1 && {
                let arg = fields@[0].1.value;
                ||| fields@[0].0@ == "cmd"@ && (arg matches CfgValue::Text(cmd) && stop == Some(
                    StopModel::Cmd(cmd@),
                ))
                ||| fields@[0].0@ == "send-keys"@ && (arg matches CfgValue::List(items)
                    && stop matches Some(StopModel::SendKeys(keys)) && keys_in(items@, cx, keys))
            },
            _ => false,
        },
    }
}

proof fn lemma_keys(items: Seq<CfgNode>, cx: CfgCx, n: nat)
    requires
        n <= items.len(),
        keys_upto(items, cx, n) is Ok,
    ensures
        keys_in(items.take(n as int), cx, keys_upto(items, cx, n)->Ok_0),
    decreases n,
{
    if n > 0 {
        lemma_keys(items, cx, (n - 1) as nat);
        let before = keys_upto(items, cx, (n - 1) as nat)->Ok_0;
        let keys = keys_upto(items, cx, n)->Ok_0;
        let part = items.take(n as int);
        assert forall|i: int| 0 <= i < keys.len() implies names_key(
            part[i],
            cx,
            #[trigger] keys[i],
        ) by {
            if i < n - 1 {
                assert(keys[i] == before[i]);
                assert(items.take(n - 1)[i] == part[i]);
            }
        }
    }
}

proof fn lemma_stop(v: CfgNode, cx: CfgCx)
    requires
        stop_value(v, cx) is Ok,
    ensures
        stop_said(Some(v), cx, Some(stop_value(v, cx)->Ok_0)),
{
    if let CfgValue::Object(fields) = v.value {
        if let CfgValue::List(items) = fields@[0].1.value {
            if keys_upto(items@, cx, items@.len()) is Ok {
                lemma_keys(items@, cx, items@.len());
                assert(items@.take(items@.len() as int) =~= items@);
            }
        }
    }
}

/// Every setting of a process that is written down is the one that is read,
/// and one that is not written down is left open.
pub proof fn settings_are_read_as_written(fields: Seq<(String, CfgNode)>, cx: CfgCx)
    requires
        common_settings(fields, cx) is Ok,
    ensures
        ({
            let p = common_settings(fields, cx)->Ok_0.settings;
            &&& cmd_said(fields, p.cmd)
            &&& match entry(fields, "cwd"@) {
                None => p.cwd is None,
                Some(v) => v.value matches CfgValue::Text(s) && p.cwd == Some(
                    config_path(cx.dir@, s@),
                ),
            }
            &&& texts_in(entry(fields, "deps"@), p.deps)
            &&& texts_in(entry(fields, "add_path"@), p.add_path)
            &&& flag_said(entry(fields, "autostart"@), p.autostart)
            &&& flag_said(entry(fields, "autorestart"@), p.autorestart)
            &&& flag_said(entry(fields, "oneshot"@), p.oneshot)
            &&& match entry(fields, "restart_delay"@) {
                None => p.restart_delay is None,
                Some(v) => v.value matches CfgValue::Int(n) && p.restart_delay matches Some(ms)
                    && ms == n,
            }
            &&& stop_said(entry(fields, "stop"@), cx, p.stop)
            &&& p.healthchecks.len() == 0
            &&& p.hooks == HookSetModel::none()
        }),
{
    lemma_texts_of(fields, "cmd"@);
    lemma_texts_of(fields, "deps"@);
    lemma_texts_of(fields, "add_path"@);
    if let Some(v) = entry(fields, "stop"@) {
        lemma_stop(v, cx);
    }
}

/// A scalar is read as it is written: a text as it stands, a number by its
/// digits, a truth value by its name.
pub proof fn scalars_are_read_as_written(node: CfgNode)
    ensures
        match node.value {
            CfgValue::Text(s) => scalar_text(node) == Some(s@),
            CfgValue::Other(s) => scalar_text(node) == Some(s@),
            CfgValue::Bool(b) => scalar_text(node) == Some(
                if b {
                    "true"@
                } else {
                    "false"@
                },
            ),
            CfgValue::Int(n) => scalar_text(node) matches Some(t) && if n >= 0 {
                all_digits(t) && digits_value(t) == n
            } else {
                t.len() > 0 && t[0] == '-' && all_digits(t.skip(1)) && digits_value(t.skip(1))
                    == -n
            },
            _ => scalar_text(node) is None,
        },
{
    if let CfgValue::Int(n) = node.value {
        if n >= 0 {
            lemma_decimal(n as nat);
        } else {
            reveal_strlit("-");
            lemma_decimal((-n) as nat);
            assert(scalar_text(node)->0.skip(1) =~= decimal((-n) as nat));
        }
    }
}

proof fn lemma_vars(fields: Seq<(String, CfgNode)>, n: nat, i: int)
    requires
        n <= fields.len(),
        vars_upto(fields, n) is Ok,
        last_before(fields, n as int, i),
    ensures
        vars_upto(fields, n)->Ok_0.dom().contains(fields[i].0@),
        scalar_text(fields[i].1) == Some(vars_upto(fields, n)->Ok_0[fields[i].0@]),
    decreases n,
{
    if i < n - 1 {
        assert(fields[n - 1].0@ != fields[i].0@);
        lemma_vars(fields, (n - 1) as nat, i);
    }
}

/// A variable has the value that is written at its name, the last one where
/// the name comes again.
pub proof fn variables_are_read_as_written(fields: Seq<(String, CfgNode)>, cx: CfgCx, i: int)
    requires
        common_settings(fields, cx) is Ok,
        entry(fields, "vars"@) is Some,
    ensures
        ({
            let own = entry(fields, "vars"@)->0.fields();
            let vars = common_settings(fields, cx)->Ok_0.vars;
            last_before(own, own.len() as int, i) ==> vars.dom().contains(own[i].0@)
                && scalar_text(own[i].1) == Some(vars[own[i].0@])
        }),
{
    let own = entry(fields, "vars"@)->0.fields();
    if last_before(own, own.len() as int, i) {
        lemma_vars(own, own.len(), i);
    }
}

proof fn lemma_env(fields: Seq<(String, CfgNode)>, n: nat)
    requires
        n <= fields.len(),
        env_upto(fields, n) is Ok,
    ensures
        ({
            let env = env_upto(fields, n)->Ok_0;
            &&& env.len() == n
            &&& forall|i: int|
                #![trigger env[i]]
                0 <= i < n ==> env[i].0 == fields[i].0@ && (if fields[i].1.value is Null {
                    env[i].1 is None
                } else {
                    env[i].1 is Some && env[i].1 == scalar_text(fields[i].1)
                })
        }),
    decreases n,
{
    if n > 0 {
        lemma_env(fields, (n - 1) as nat);
        let before = env_upto(fields, (n - 1) as nat)->Ok_0;
        let env = env_upto(fields, n)->Ok_0;
        assert forall|i: int| #![trigger env[i]] 0 <= i < n implies env[i].0 == fields[i].0@ && (
        if fields[i].1.value is Null {
            env[i].1 is None
        } else {
            env[i].1 is Some && env[i].1 == scalar_text(fields[i].1)
        }) by {
            if i < n - 1 {
                assert(env[i] == before[i]);
            }
        }
    }
}

/// The environment sets every variable that is written out to what is written
/// there, and removes those that are null.
pub proof fn environment_is_read_as_written(fields: Seq<(String, CfgNode)>, i: int)
    requires
        inline_env(fields) is Ok,
        entry(fields, "env"@) is Some,
    ensures
        ({
            let own = entry(fields, "env"@)->0.fields();
            let env = inline_env(fields)->Ok_0;
            &&& env.len() == own.len()
            &&& 0 <= i < own.len() ==> env[i].0 == own[i].0@ && (if own[i].1.value is Null {
                env[i].1 is None
            } else {
                env[i].1 is Some && env[i].1 == scalar_text(own[i].1)
            })
        }),
{
    let own = entry(fields, "env"@)->0.fields();
    lemma_env(own, own.len());
}

/// A process has the name of its field. One that is written as a text runs it
/// in the shell and has no other settings; one that is a mapping has the
/// settings, checks and hooks of the mapping.
pub proof fn process_is_read_as_written(
    path: Seq<char>,
    node: CfgNode,
    cx: CfgCx,
    checks: Map<Seq<char>, HealthCheckModel>,
    hooks: Map<Seq<char>, HookModel>,
)
    requires
        configured_proc(path, node, cx, checks, hooks) is Ok,
    ensures
        ({
            let p = configured_proc(path, node, cx, checks, hooks)->Ok_0;
            let fields = node.fields();
            &&& p.settings.path == path
            &&& match node.value {
                CfgValue::Text(s) => p.settings == (ProcSettings {
                    path,
                    cmd: Some(CmdModel::Shell(s@)),
                    ..ProcSettings::blank()
                }) && p.vars == Map::<Seq<char>, Seq<char>>::empty(),
                CfgValue::Object(_) => {
                    &&& common_settings(fields, cx) is Ok
                    &&& p.vars == common_settings(fields, cx)->Ok_0.vars
                    &&& (ProcSettings {
                        path: Seq::empty(),
                        healthchecks: Seq::empty(),
                        hooks: HookSetModel::none(),
                        ..p.settings
                    }) == common_settings(fields, cx)->Ok_0.settings
                    &&& checks_of(fields, checks) == Ok::<Seq<HealthCheckModel>, Fault>(
                        p.settings.healthchecks,
                    )
                    &&& hooks_of(fields, hooks) == Ok::<HookSetModel, Fault>(p.settings.hooks)
                    &&& entry(fields, "healthchecks"@) is None ==> p.settings.healthchecks.len()
                        == 0
                    &&& entry(fields, "hooks"@) is None ==> p.settings.hooks
                        == HookSetModel::none()
                },
                _ => false,
            }
        }),
{
    let p = configured_proc(path, node, cx, checks, hooks)->Ok_0;
    if node.value is Object {
        let common = common_settings(node.fields(), cx)->Ok_0.settings;
        assert((ProcSettings {
            path: Seq::empty(),
            healthchecks: Seq::empty(),
            hooks: HookSetModel::none(),
            ..p.settings
        }) =~= common);
    }
}

} // verus!
