//! What is run for a configured process.

use crate::config::health::clone_checks;
use crate::config::proc::{
    env_view, setting, CmdConfig, CmdModel, ProcConfig, ProcSettings, StopModel,
    DEFAULT_MOUSE_SCROLL_SPEED, DEFAULT_RESTART_DELAY, DEFAULT_SCROLLBACK,
};
use crate::config::vars::{substitute_vars, substituted, Vars};
use crate::kernel::task::TaskId;
use crate::task::proc_task::{ProcTaskConfig, ProcessSpec, SpecModel, TaskSettings};
use crate::text::{clone_strings, strings_view};
use vstd::prelude::*;

verus! {

/// Texts with their variables replaced.
pub open spec fn all_substituted(texts: Seq<Seq<char>>, vars: Map<Seq<char>, String>) -> Seq<
    Seq<char>,
> {
    texts.map_values(|t: Seq<char>| substituted(t, vars))
}

fn substitute_all(texts: &Vec<String>, from: usize, vars: &Vars) -> (r: Vec<String>)
    requires
        vars.wf(),
        from <= texts@.len(),
    ensures
        strings_view(r@) == all_substituted(strings_view(texts@).skip(from as int), vars@),
{
    let ghost want = all_substituted(strings_view(texts@).skip(from as int), vars@);
    let mut out: Vec<String> = Vec::new();
    let mut i: usize = from;
    while i < texts.len()
        invariant
            vars.wf(),
            from <= i <= texts@.len(),
            want == all_substituted(strings_view(texts@).skip(from as int), vars@),
            out@.len() == i - from,
            forall|k: int| 0 <= k < i - from ==> (#[trigger] out@[k])@ == want[k],
        decreases texts@.len() - i,
    {
        let text = substitute_vars(texts[i].as_str(), vars);
        proof {
            assert(want[i - from] == text@);
        }
        out.push(text);
        i += 1;
    }
    proof {
        assert(strings_view(out@) =~= want);
    }
    out
}

/// The environment with the variables in its values replaced.
pub open spec fn env_substituted(
    env: Seq<(Seq<char>, Option<Seq<char>>)>,
    vars: Map<Seq<char>, String>,
) -> Seq<(Seq<char>, Option<Seq<char>>)> {
    env.map_values(
        |e: (Seq<char>, Option<Seq<char>>)|
            (
                e.0,
                match e.1 {
                    Some(v) => Some(substituted(v, vars)),
                    None => None,
                },
            ),
    )
}

fn substitute_env(env: &Vec<(String, Option<String>)>, vars: &Vars) -> (r: Vec<
    (String, Option<String>),
>)
    requires
        vars.wf(),
    ensures
        env_view(r@) == env_substituted(env_view(env@), vars@),
{
    let ghost want = env_substituted(env_view(env@), vars@);
    let mut out: Vec<(String, Option<String>)> = Vec::new();
    let mut i: usize = 0;
    while i < env.len()
        invariant
            vars.wf(),
            i <= env@.len(),
            want == env_substituted(env_view(env@), vars@),
            out@.len() == i,
            forall|k: int| 0 <= k < i ==> #[trigger] env_view(out@)[k] == want[k],
        decreases env@.len() - i,
    {
        let ghost before = out@;
        let value = match &env[i].1 {
            Some(v) => Some(substitute_vars(v.as_str(), vars)),
            None => None,
        };
        out.push((env[i].0.clone(), value));
        proof {
            assert(env_view(env@)[i as int].0 == env@[i as int].0@);
            assert forall|k: int| 0 <= k < i + 1 implies #[trigger] env_view(out@)[k]
                == want[k] by {
                if k < i {
                    assert(env_view(out@)[k] == env_view(before)[k]);
                }
            }
        }
        i += 1;
    }
    proof {
        assert(env_view(out@) =~= want);
    }
    out
}

/// The program and its arguments: a shell command is handed to the shell, a
/// list is a program with its arguments.
pub open spec fn argv_of(s: ProcSettings) -> Seq<Seq<char>> {
    match s.cmd {
        Some(CmdModel::Shell(shell)) => seq!["/bin/sh"@, "-c"@, substituted(shell, s.vars)],
        Some(CmdModel::Argv(argv)) => all_substituted(argv, s.vars),
        None => Seq::empty(),
    }
}

/// What a process runs, with its variables replaced.
pub open spec fn spec_of(s: ProcSettings) -> SpecModel {
    let argv = argv_of(s);
    SpecModel {
        prog: if argv.len() > 0 {
            argv[0]
        } else {
            Seq::empty()
        },
        args: if argv.len() > 0 {
            argv.skip(1)
        } else {
            Seq::empty()
        },
        cwd: match s.cwd {
            Some(cwd) => Some(substituted(cwd, s.vars)),
            None => None,
        },
        env: env_substituted(s.env, s.vars),
        add_path: s.add_path,
    }
}

fn process_argv(cfg: &ProcConfig) -> (r: (String, Vec<String>))
    requires
        cfg.wf(),
    ensures
        r.0@ == spec_of(cfg@).prog,
        strings_view(r.1@) == spec_of(cfg@).args,
{
    match &cfg.cmd {
        Some(CmdConfig::Shell { shell }) => {
            let mut args: Vec<String> = Vec::new();
            args.push("-c".to_owned());
            args.push(substitute_vars(shell.as_str(), &cfg.vars));
            proof {
                let argv = argv_of(cfg@);
                assert(argv[0] == "/bin/sh"@);
                assert(strings_view(args@) =~= argv.skip(1));
            }
            ("/bin/sh".to_owned(), args)
        },
        Some(CmdConfig::Cmd { cmd }) => {
            if cmd.len() == 0 {
                proof {
                    assert(argv_of(cfg@).len() == 0);
                }
                let none: Vec<String> = Vec::new();
                proof {
                    assert(strings_view(none@) =~= Seq::empty());
                }
                return (String::new(), none);
            }
            let prog = substitute_vars(cmd[0].as_str(), &cfg.vars);
            let args = substitute_all(cmd, 1, &cfg.vars);
            proof {
                let argv = argv_of(cfg@);
                assert(argv[0] == prog@);
                assert(strings_view(args@) =~= argv.skip(1));
            }
            (prog, args)
        },
        None => {
            let none: Vec<String> = Vec::new();
            proof {
                assert(strings_view(none@) =~= Seq::empty());
            }
            (String::new(), none)
        },
    }
}

pub fn process_spec(cfg: &ProcConfig) -> (r: ProcessSpec)
    requires
        cfg.wf(),
    ensures
        r@ == spec_of(cfg@),
{
    let (prog, args) = process_argv(cfg);
    let cwd = match &cfg.cwd {
        Some(cwd) => Some(substitute_vars(cwd.as_str(), &cfg.vars)),
        None => None,
    };
    let env = substitute_env(&cfg.env, &cfg.vars);
    let add_path = clone_strings(&cfg.add_path);
    let r = ProcessSpec { prog, args, cwd, env, add_path };
    proof {
        assert(r@ =~= spec_of(cfg@));
    }
    r
}

/// The task of a configured process: its settings or their defaults, labeled
/// with its name.
pub open spec fn task_settings(s: ProcSettings, deps: Seq<TaskId>) -> TaskSettings {
    TaskSettings {
        spec: spec_of(s),
        label: Some(s.path),
        stop: setting(s.stop, StopModel::Terminate),
        log: s.log,
        autostart: setting(s.autostart, false),
        autorestart: setting(s.autorestart, false),
        restart_delay: setting(s.restart_delay, DEFAULT_RESTART_DELAY),
        oneshot: setting(s.oneshot, false),
        scrollback_len: setting(s.scrollback_len, DEFAULT_SCROLLBACK),
        mouse_scroll_speed: setting(s.mouse_scroll_speed, DEFAULT_MOUSE_SCROLL_SPEED),
        deps,
        vars: s.vars,
        healthchecks: s.healthchecks,
        hooks: s.hooks,
    }
}

pub fn proc_task_config(cfg: &ProcConfig, deps: Vec<TaskId>) -> (r: ProcTaskConfig)
    requires
        cfg.wf(),
    ensures
        r@ == task_settings(cfg@, deps@),
        r.vars.wf(),
{
    ProcTaskConfig {
        spec: process_spec(cfg),
        label: Some(cfg.path.clone()),
        stop: cfg.stop(),
        log: match &cfg.log {
            Some(log) => Some(log.clone()),
            None => None,
        },
        autostart: cfg.autostart(),
        autorestart: cfg.autorestart(),
        restart_delay: cfg.restart_delay(),
        oneshot: cfg.oneshot(),
        scrollback_len: cfg.scrollback_len(),
        mouse_scroll_speed: cfg.mouse_scroll_speed(),
        deps,
        vars: cfg.vars.clone(),
        healthchecks: clone_checks(&cfg.healthchecks),
        hooks: cfg.hooks.clone(),
    }
}

} // verus!
