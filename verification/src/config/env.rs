//! Reads the environments of processes.

use crate::config::cx::{config_path, resolve_config_path, CfgCx};
use crate::config::error::{mismatch_fault, ConfigError, ErrorKind, Fault, Problem};
use crate::config::node::{entry, find_field, CfgNode, CfgValue, Shape};
use crate::config::proc::{env_view, preferred};
use crate::config::settings::{read_scalar, scalar_text};
use vstd::prelude::*;

verus! {

/// The environment that the first `n` fields stand for; null removes a
/// variable.
pub open spec fn env_upto(fields: Seq<(String, CfgNode)>, n: nat) -> Result<
    Seq<(Seq<char>, Option<Seq<char>>)>,
    Fault,
>
    decreases n,
{
    if n == 0 {
        Ok(Seq::empty())
    } else {
        let (key, v) = (fields[n - 1].0@, fields[n - 1].1);
        match env_upto(fields, (n - 1) as nat) {
            Err(f) => Err(f),
            Ok(before) => if v.value is Null {
                Ok(before.push((key, None)))
            } else {
                match scalar_text(v) {
                    Some(text) => Ok(before.push((key, Some(text)))),
                    None => Err(mismatch_fault(v.mismatch(Shape::Text))),
                }
            },
        }
    }
}

proof fn lemma_env_error(fields: Seq<(String, CfgNode)>, i: nat, n: nat)
    requires
        i <= n,
        env_upto(fields, i) is Err,
    ensures
        env_upto(fields, n) == env_upto(fields, i),
    decreases n,
{
    if i < n {
        lemma_env_error(fields, i, (n - 1) as nat);
    }
}

/// The environment that is written out.
pub open spec fn inline_env(fields: Seq<(String, CfgNode)>) -> Result<
    Seq<(Seq<char>, Option<Seq<char>>)>,
    Fault,
> {
    match entry(fields, "env"@) {
        None => Ok(Seq::empty()),
        Some(v) => if v.value is Object {
            env_upto(v.fields(), v.fields().len())
        } else {
            Err(mismatch_fault(v.mismatch(Shape::Mapping)))
        },
    }
}

fn read_inline_env(fields: &Vec<(String, CfgNode)>) -> (r: Result<
    Vec<(String, Option<String>)>,
    ConfigError,
>)
    ensures
        match r {
            Ok(v) => inline_env(fields@) == Ok::<Seq<(Seq<char>, Option<Seq<char>>)>, Fault>(
                env_view(v@),
            ),
            Err(e) => inline_env(fields@) == Err::<Seq<(Seq<char>, Option<Seq<char>>)>, Fault>(e@),
        },
{
    let mut out: Vec<(String, Option<String>)> = Vec::new();
    proof {
        assert(env_view(out@) =~= Seq::empty());
    }
    let node = match find_field(fields, "env") {
        None => {
            return Ok(out);
        },
        Some(node) => node,
    };
    let own = match node.as_obj() {
        Ok(own) => own,
        Err(e) => {
            return Err(ConfigError::expected(e));
        },
    };
    let mut i: usize = 0;
    while i < own.len()
        invariant
            i <= own@.len(),
            node.value is Object,
            own@ == node.fields(),
            entry(fields@, "env"@) == Some(*node),
            env_upto(own@, i as nat) == Ok::<Seq<(Seq<char>, Option<Seq<char>>)>, Fault>(
                env_view(out@),
            ),
        decreases own@.len() - i,
    {
        let v = &own[i].1;
        let null = match &v.value {
            CfgValue::Null => true,
            _ => false,
        };
        let ghost before = out@;
        if null {
            out.push((own[i].0.clone(), None));
            proof {
                assert(env_view(out@) =~= env_view(before).push((own@[i as int].0@, None)));
            }
        } else {
            match read_scalar(v) {
                Some(text) => {
                    let ghost t = text@;
                    out.push((own[i].0.clone(), Some(text)));
                    proof {
                        assert(env_view(out@) =~= env_view(before).push(
                            (own@[i as int].0@, Some(t)),
                        ));
                    }
                },
                None => {
                    proof {
                        lemma_env_error(own@, (i + 1) as nat, own@.len());
                    }
                    return Err(ConfigError::at(v.mark, ErrorKind::Expected(Shape::Text)));
                },
            }
        }
        i += 1;
    }
    Ok(out)
}

/// The variables of a file, by their characters.
pub open spec fn file_vars(vars: Seq<(String, String)>) -> Seq<(Seq<char>, Option<Seq<char>>)> {
    vars.map_values(|v: (String, String)| (v.0@, Some(v.1@)))
}

/// The variables of the first `n` environment files, in their order.
pub open spec fn files_upto(items: Seq<CfgNode>, cx: CfgCx, n: nat) -> Result<
    Seq<(Seq<char>, Option<Seq<char>>)>,
    Fault,
>
    decreases n,
{
    if n == 0 {
        Ok(Seq::empty())
    } else {
        let item = items[n - 1];
        let path = config_path(cx.dir@, item.text());
        match files_upto(items, cx, (n - 1) as nat) {
            Err(f) => Err(f),
            Ok(before) => if !(item.value is Text) {
                Err(mismatch_fault(item.mismatch(Shape::Text)))
            } else {
                match entry(cx.env_files@, path) {
                    Some(vars) => Ok(before + file_vars(vars@)),
                    None => Err(Fault { mark: item.mark, problem: Problem::NoEnvFile(path) }),
                }
            },
        }
    }
}

proof fn lemma_files_error(items: Seq<CfgNode>, cx: CfgCx, i: nat, n: nat)
    requires
        i <= n,
        files_upto(items, cx, i) is Err,
    ensures
        files_upto(items, cx, n) == files_upto(items, cx, i),
    decreases n,
{
    if i < n {
        lemma_files_error(items, cx, i, (n - 1) as nat);
    }
}

/// The variables of the environment files of a process.
pub open spec fn files_of(fields: Seq<(String, CfgNode)>, cx: CfgCx) -> Result<
    Seq<(Seq<char>, Option<Seq<char>>)>,
    Fault,
> {
    match entry(fields, "env_file"@) {
        None => Ok(Seq::empty()),
        Some(v) => if v.value is List {
            files_upto(v.items(), cx, v.items().len())
        } else {
            Err(mismatch_fault(v.mismatch(Shape::List)))
        },
    }
}

fn push_file_vars(out: &mut Vec<(String, Option<String>)>, vars: &Vec<(String, String)>)
    ensures
        env_view(final(out)@) == env_view(old(out)@) + file_vars(vars@),
{
    let ghost before = env_view(out@);
    let mut i: usize = 0;
    proof {
        assert(file_vars(vars@).take(0) =~= Seq::empty());
        assert(before + file_vars(vars@).take(0) =~= before);
    }
    while i < vars.len()
        invariant
            i <= vars@.len(),
            env_view(out@) == before + file_vars(vars@).take(i as int),
        decreases vars@.len() - i,
    {
        let ghost prior = out@;
        out.push((vars[i].0.clone(), Some(vars[i].1.clone())));
        proof {
            let last = (vars@[i as int].0@, Some(vars@[i as int].1@));
            assert(env_view(out@) =~= env_view(prior).push(last));
            assert(file_vars(vars@).take(i + 1) =~= file_vars(vars@).take(i as int).push(last));
            assert(env_view(out@) =~= before + file_vars(vars@).take(i + 1));
        }
        i += 1;
    }
    proof {
        assert(file_vars(vars@).take(i as int) =~= file_vars(vars@));
    }
}

fn read_files(fields: &Vec<(String, CfgNode)>, cx: &CfgCx) -> (r: Result<
    Vec<(String, Option<String>)>,
    ConfigError,
>)
    ensures
        match r {
            Ok(v) => files_of(fields@, *cx) == Ok::<Seq<(Seq<char>, Option<Seq<char>>)>, Fault>(
                env_view(v@),
            ),
            Err(e) => files_of(fields@, *cx) == Err::<Seq<(Seq<char>, Option<Seq<char>>)>, Fault>(
                e@,
            ),
        },
{
    let mut out: Vec<(String, Option<String>)> = Vec::new();
    proof {
        assert(env_view(out@) =~= Seq::empty());
    }
    let node = match find_field(fields, "env_file") {
        None => {
            return Ok(out);
        },
        Some(node) => node,
    };
    let items = match node.as_arr() {
        Ok(items) => items,
        Err(e) => {
            return Err(ConfigError::expected(e));
        },
    };
    let mut i: usize = 0;
    while i < items.len()
        invariant
            i <= items@.len(),
            node.value is List,
            items@ == node.items(),
            entry(fields@, "env_file"@) == Some(*node),
            files_upto(items@, *cx, i as nat) == Ok::<
                Seq<(Seq<char>, Option<Seq<char>>)>,
                Fault,
            >(env_view(out@)),
        decreases items@.len() - i,
    {
        let text = match items[i].as_str() {
            Ok(text) => text,
            Err(e) => {
                proof {
                    lemma_files_error(items@, *cx, (i + 1) as nat, items@.len());
                }
                return Err(ConfigError::expected(e));
            },
        };
        let path = resolve_config_path(cx.dir.as_str(), text);
        match find_field(&cx.env_files, path.as_str()) {
            Some(vars) => {
                push_file_vars(&mut out, vars);
            },
            None => {
                proof {
                    lemma_files_error(items@, *cx, (i + 1) as nat, items@.len());
                }
                return Err(ConfigError::at(items[i].mark, ErrorKind::NoEnvFile(path)));
            },
        }
        i += 1;
    }
    Ok(out)
}

/// The environment of a process: the variables of its files, a later file
/// after an earlier one, and after them those that are written out. A variable
/// that comes again has the last value.
pub open spec fn env_of(fields: Seq<(String, CfgNode)>, cx: CfgCx) -> Result<
    Seq<(Seq<char>, Option<Seq<char>>)>,
    Fault,
> {
    match (files_of(fields, cx), inline_env(fields)) {
        (Err(f), _) => Err(f),
        (_, Err(f)) => Err(f),
        (Ok(files), Ok(own)) => Ok(files + own),
    }
}

pub(crate) fn read_env(fields: &Vec<(String, CfgNode)>, cx: &CfgCx) -> (r: Result<
    Vec<(String, Option<String>)>,
    ConfigError,
>)
    ensures
        match r {
            Ok(v) => env_of(fields@, *cx) == Ok::<Seq<(Seq<char>, Option<Seq<char>>)>, Fault>(
                env_view(v@),
            ),
            Err(e) => env_of(fields@, *cx) == Err::<Seq<(Seq<char>, Option<Seq<char>>)>, Fault>(
                e@,
            ),
        },
{
    let mut out = match read_files(fields, cx) {
        Ok(files) => files,
        Err(e) => {
            return Err(e);
        },
    };
    let mut own = match read_inline_env(fields) {
        Ok(own) => own,
        Err(e) => {
            return Err(e);
        },
    };
    let ghost (a, b) = (out@, own@);
    out.append(&mut own);
    proof {
        assert(env_view(out@) =~= env_view(a) + env_view(b));
    }
    Ok(out)
}

/// The value that a variable has in the end, nothing if it is not spoken of.
pub open spec fn last_value(env: Seq<(Seq<char>, Option<Seq<char>>)>, name: Seq<char>) -> Option<
    Option<Seq<char>>,
>
    decreases env.len(),
{
    if env.len() == 0 {
        None
    } else if env.last().0 == name {
        Some(env.last().1)
    } else {
        last_value(env.drop_last(), name)
    }
}

/// The variables of an environment win over those of one that comes before it.
pub proof fn later_variables_win(
    first: Seq<(Seq<char>, Option<Seq<char>>)>,
    later: Seq<(Seq<char>, Option<Seq<char>>)>,
    name: Seq<char>,
)
    ensures
        last_value(first + later, name) == preferred(
            last_value(later, name),
            last_value(first, name),
        ),
    decreases later.len(),
{
    let all = first + later;
    if later.len() == 0 {
        assert(all =~= first);
    } else {
        later_variables_win(first, later.drop_last(), name);
        assert(all.drop_last() =~= first + later.drop_last());
        assert(all.last() == later.last());
    }
}

/// A variable that is written out has that value, whatever the environment
/// files say.
pub proof fn written_variables_win(fields: Seq<(String, CfgNode)>, cx: CfgCx, name: Seq<char>)
    requires
        env_of(fields, cx) is Ok,
    ensures
        last_value(env_of(fields, cx)->Ok_0, name) == preferred(
            last_value(inline_env(fields)->Ok_0, name),
            last_value(files_of(fields, cx)->Ok_0, name),
        ),
{
    later_variables_win(files_of(fields, cx)->Ok_0, inline_env(fields)->Ok_0, name);
}

/// A variable has the value that the last of the environment files gives it,
/// or else the one that the files before give it.
pub proof fn later_files_win(items: Seq<CfgNode>, cx: CfgCx, n: nat, name: Seq<char>)
    requires
        0 < n <= items.len(),
        files_upto(items, cx, n) is Ok,
    ensures
        ({
            let vars = entry(cx.env_files@, config_path(cx.dir@, items[n - 1].text()));
            &&& vars is Some
            &&& last_value(files_upto(items, cx, n)->Ok_0, name) == preferred(
                last_value(file_vars(vars->0@), name),
                last_value(files_upto(items, cx, (n - 1) as nat)->Ok_0, name),
            )
        }),
{
    let vars = entry(cx.env_files@, config_path(cx.dir@, items[n - 1].text()));
    later_variables_win(
        files_upto(items, cx, (n - 1) as nat)->Ok_0,
        file_vars(vars->0@),
        name,
    );
}

} // verus!
