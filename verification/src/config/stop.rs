//! Reads how processes are stopped.

use crate::config::cx::CfgCx;
use crate::config::error::{mismatch_fault, ConfigError, ErrorKind, Fault, Problem};
use crate::config::node::{entry, find_field, CfgNode, Shape};
use crate::config::proc::{StopModel, StopSignal};
use crate::term::key::Key;
use crate::text::str_eq;
use vstd::prelude::*;

verus! {

/// The keys that the first `n` items name.
pub open spec fn keys_upto(items: Seq<CfgNode>, cx: CfgCx, n: nat) -> Result<Seq<Key>, Fault>
    decreases n,
{
    if n == 0 {
        Ok(Seq::empty())
    } else {
        let item = items[n - 1];
        match keys_upto(items, cx, (n - 1) as nat) {
            Err(f) => Err(f),
            Ok(before) => if !(item.value is Text) {
                Err(mismatch_fault(item.mismatch(Shape::Text)))
            } else {
                match entry(cx.keys@, item.text()) {
                    Some(key) => Ok(before.push(key)),
                    None => Err(
                        Fault { mark: item.mark, problem: Problem::UnknownKey(item.text()) },
                    ),
                }
            },
        }
    }
}

proof fn lemma_keys_error(items: Seq<CfgNode>, cx: CfgCx, i: nat, n: nat)
    requires
        i <= n,
        keys_upto(items, cx, i) is Err,
    ensures
        keys_upto(items, cx, n) == keys_upto(items, cx, i),
    decreases n,
{
    if i < n {
        lemma_keys_error(items, cx, i, (n - 1) as nat);
    }
}

fn read_keys(node: &CfgNode, cx: &CfgCx) -> (r: Result<Vec<Key>, ConfigError>)
    ensures
        match r {
            Ok(keys) => node.value is List && keys_upto(node.items(), *cx, node.items().len())
                == Ok::<Seq<Key>, Fault>(keys@),
            Err(e) => if node.value is List {
                keys_upto(node.items(), *cx, node.items().len()) == Err::<Seq<Key>, Fault>(e@)
            } else {
                e@ == mismatch_fault(node.mismatch(Shape::List))
            },
        },
{
    let items = match node.as_arr() {
        Ok(items) => items,
        Err(e) => {
            return Err(ConfigError::expected(e));
        },
    };
    let mut out: Vec<Key> = Vec::new();
    let mut i: usize = 0;
    while i < items.len()
        invariant
            i <= items@.len(),
            node.value is List,
            items@ == node.items(),
            keys_upto(items@, *cx, i as nat) == Ok::<Seq<Key>, Fault>(out@),
        decreases items@.len() - i,
    {
        let name = match items[i].as_str() {
            Ok(name) => name,
            Err(e) => {
                proof {
                    lemma_keys_error(items@, *cx, (i + 1) as nat, items@.len());
                }
                return Err(ConfigError::expected(e));
            },
        };
        match find_field(&cx.keys, name) {
            Some(key) => {
                out.push(*key);
            },
            None => {
                proof {
                    lemma_keys_error(items@, *cx, (i + 1) as nat, items@.len());
                }
                return Err(
                    ConfigError::at(items[i].mark, ErrorKind::UnknownKey(name.to_owned())),
                );
            },
        }
        i += 1;
    }
    Ok(out)
}

/// The signal, or the lack of one, that a name stands for.
pub open spec fn stop_named(name: Seq<char>) -> Option<StopModel> {
    if name == "SIGINT"@ {
        Some(StopModel::Interrupt)
    } else if name == "SIGTERM"@ {
        Some(StopModel::Terminate)
    } else if name == "SIGKILL"@ {
        Some(StopModel::Kill)
    } else if name == "hard-kill"@ {
        Some(StopModel::HardKill)
    } else {
        None
    }
}

fn parse_stop_name(name: &str) -> (r: Option<StopSignal>)
    ensures
        match r {
            Some(stop) => stop_named(name@) == Some(stop@),
            None => stop_named(name@) is None,
        },
{
    if str_eq(name, "SIGINT") {
        Some(StopSignal::SIGINT)
    } else if str_eq(name, "SIGTERM") {
        Some(StopSignal::SIGTERM)
    } else if str_eq(name, "SIGKILL") {
        Some(StopSignal::SIGKILL)
    } else if str_eq(name, "hard-kill") {
        Some(StopSignal::HardKill)
    } else {
        None
    }
}

/// How a process is stopped: a name, or a mapping with the keys to type or
/// the command to run and nothing else.
pub open spec fn stop_value(v: CfgNode, cx: CfgCx) -> Result<StopModel, Fault> {
    let bad = Fault { mark: v.mark, problem: Problem::BadStop };
    if v.value is Text {
        match stop_named(v.text()) {
            Some(stop) => Ok(stop),
            None => Err(Fault { mark: v.mark, problem: Problem::UnknownStop(v.text()) }),
        }
    } else if v.fields().len() == 1 {
        let arg = v.fields()[0].1;
        if v.fields()[0].0@ == "send-keys"@ {
            if arg.value is List {
                match keys_upto(arg.items(), cx, arg.items().len()) {
                    Ok(keys) => Ok(StopModel::SendKeys(keys)),
                    Err(f) => Err(f),
                }
            } else {
                Err(mismatch_fault(arg.mismatch(Shape::List)))
            }
        } else if v.fields()[0].0@ == "cmd"@ {
            if arg.value is Text {
                Ok(StopModel::Cmd(arg.text()))
            } else {
                Err(mismatch_fault(arg.mismatch(Shape::Text)))
            }
        } else {
            Err(bad)
        }
    } else {
        Err(bad)
    }
}

pub fn parse_stop(v: &CfgNode, cx: &CfgCx) -> (r: Result<StopSignal, ConfigError>)
    ensures
        match r {
            Ok(stop) => stop_value(*v, *cx) == Ok::<StopModel, Fault>(stop@),
            Err(e) => stop_value(*v, *cx) == Err::<StopModel, Fault>(e@),
        },
{
    if let Ok(name) = v.as_str() {
        return match parse_stop_name(name) {
            Some(stop) => Ok(stop),
            None => Err(ConfigError::at(v.mark, ErrorKind::UnknownStop(name.to_owned()))),
        };
    }
    if let Ok(fields) = v.as_obj() {
        if fields.len() == 1 {
            let arg = &fields[0].1;
            if str_eq(fields[0].0.as_str(), "send-keys") {
                return match read_keys(arg, cx) {
                    Ok(keys) => Ok(StopSignal::SendKeys(keys)),
                    Err(e) => Err(e),
                };
            }
            if str_eq(fields[0].0.as_str(), "cmd") {
                return match arg.as_str() {
                    Ok(cmd) => Ok(StopSignal::Cmd(cmd.to_owned())),
                    Err(e) => Err(ConfigError::expected(e)),
                };
            }
        }
    }
    Err(ConfigError::at(v.mark, ErrorKind::BadStop))
}

pub open spec fn stop_of(fields: Seq<(String, CfgNode)>, cx: CfgCx) -> Result<
    Option<StopModel>,
    Fault,
> {
    match entry(fields, "stop"@) {
        None => Ok(None),
        Some(v) => match stop_value(v, cx) {
            Ok(stop) => Ok(Some(stop)),
            Err(f) => Err(f),
        },
    }
}

pub(crate) fn read_stop(fields: &Vec<(String, CfgNode)>, cx: &CfgCx) -> (r: Result<
    Option<StopSignal>,
    ConfigError,
>)
    ensures
        match r {
            Ok(stop) => stop_of(fields@, *cx) == Ok::<Option<StopModel>, Fault>(
                match stop {
                    Some(s) => Some(s@),
                    None => None,
                },
            ),
            Err(e) => stop_of(fields@, *cx) == Err::<Option<StopModel>, Fault>(e@),
        },
{
    match find_field(fields, "stop") {
        None => Ok(None),
        Some(v) => match parse_stop(v, cx) {
            Ok(stop) => Ok(Some(stop)),
            Err(e) => Err(e),
        },
    }
}

} // verus!
