//! What is run for a configured process, seen from its settings.

use crate::config::proc::{CmdModel, ProcSettings, StopModel};
use crate::config::vars::{plain, plain_text_is_kept, reference_gives_way_to_the_value, valid_key};
use crate::console::spawn::{spec_of, task_settings};
use crate::kernel::task::TaskId;
use vstd::prelude::*;

verus! {

/// A text with a reference to a variable between others.
pub open spec fn referring(before: Seq<char>, key: Seq<char>, rest: Seq<char>) -> Seq<char> {
    before + (seq!['%'] + key + seq!['%'] + rest)
}

/// `text` is `written` with its variables replaced: what has no percent sign
/// is kept, and a reference gives way to the value of its variable.
pub open spec fn filled_in(
    text: Seq<char>,
    written: Seq<char>,
    vars: Map<Seq<char>, String>,
) -> bool {
    &&& plain(written) ==> text == written
    &&& forall|before: Seq<char>, key: Seq<char>, rest: Seq<char>|
        #![trigger referring(before, key, rest)]
        written == referring(before, key, rest) && plain(before) && plain(rest) && valid_key(key)
            && vars.dom().contains(key) ==> text == before + (vars[key]@ + rest)
}

proof fn lemma_filled_in(written: Seq<char>, vars: Map<Seq<char>, String>)
    ensures
        filled_in(crate::config::vars::substituted(written, vars), written, vars),
{
    if plain(written) {
        plain_text_is_kept(written, Seq::empty(), vars);
    }
    assert forall|before: Seq<char>, key: Seq<char>, rest: Seq<char>|
        #![trigger referring(before, key, rest)]
        written == referring(before, key, rest) && plain(before) && plain(rest) && valid_key(key)
            && vars.dom().contains(key) implies crate::config::vars::substituted(written, vars)
        == before + (vars[key]@ + rest) by {
        reference_gives_way_to_the_value(before, key, rest, vars);
    }
}

/// A shell command is handed to the shell as a whole, with its variables
/// replaced.
pub proof fn shell_runs_the_command(s: ProcSettings, shell: Seq<char>)
    requires
        s.cmd == Some(CmdModel::Shell(shell)),
    ensures
        spec_of(s).prog == "/bin/sh"@,
        spec_of(s).args.len() == 2,
        spec_of(s).args[0] == "-c"@,
        filled_in(spec_of(s).args[1], shell, s.vars),
{
    lemma_filled_in(shell, s.vars);
    let argv = crate::console::spawn::argv_of(s);
    assert(argv.skip(1) =~= seq![argv[1], argv[2]]);
}

/// A list is a program with its arguments, each with its variables replaced.
pub proof fn list_runs_the_program(s: ProcSettings, argv: Seq<Seq<char>>, i: int)
    requires
        s.cmd == Some(CmdModel::Argv(argv)),
    ensures
        argv.len() > 0 ==> filled_in(spec_of(s).prog, argv[0], s.vars) && spec_of(s).args.len()
            == argv.len() - 1,
        0 < i < argv.len() ==> filled_in(spec_of(s).args[i - 1], argv[i], s.vars),
{
    if argv.len() > 0 {
        lemma_filled_in(argv[0], s.vars);
    }
    if 0 < i < argv.len() {
        lemma_filled_in(argv[i], s.vars);
    }
}

/// A process runs in its directory and with its environment, with the
/// variables in both replaced; a variable of the environment that is to be
/// removed is removed.
pub proof fn process_has_its_surroundings(s: ProcSettings, i: int)
    ensures
        s.cwd is None ==> spec_of(s).cwd is None,
        s.cwd matches Some(cwd) ==> spec_of(s).cwd is Some && filled_in(
            spec_of(s).cwd->0,
            cwd,
            s.vars,
        ),
        spec_of(s).env.len() == s.env.len(),
        0 <= i < s.env.len() ==> {
            let (own, given) = (spec_of(s).env[i], s.env[i]);
            &&& own.0 == given.0
            &&& given.1 is None ==> own.1 is None
            &&& given.1 matches Some(v) ==> own.1 is Some && filled_in(own.1->0, v, s.vars)
        },
        spec_of(s).add_path == s.add_path,
{
    if let Some(cwd) = s.cwd {
        lemma_filled_in(cwd, s.vars);
    }
    if 0 <= i < s.env.len() {
        if let Some(v) = s.env[i].1 {
            lemma_filled_in(v, s.vars);
        }
    }
}

/// The task of a process has its settings. What is not set has its default: it
/// is not started on its own, neither at first nor again, it waits a second
/// before that, is not a one-shot, is terminated, and keeps a thousand lines.
pub proof fn task_has_the_settings(s: ProcSettings, deps: Seq<TaskId>)
    ensures
        ({
            let t = task_settings(s, deps);
            &&& t.label == Some(s.path)
            &&& t.deps == deps
            &&& t.vars == s.vars
            &&& t.healthchecks == s.healthchecks
            &&& t.hooks == s.hooks
            &&& t.log == s.log
            &&& t.autostart <==> s.autostart == Some(true)
            &&& t.autorestart <==> s.autorestart == Some(true)
            &&& t.oneshot <==> s.oneshot == Some(true)
            &&& s.stop is None ==> t.stop == StopModel::Terminate
            &&& s.stop matches Some(stop) ==> t.stop == stop
            &&& s.restart_delay is None ==> t.restart_delay == 1000
            &&& s.restart_delay matches Some(ms) ==> t.restart_delay == ms
            &&& s.scrollback_len is None ==> t.scrollback_len == 1000
            &&& s.scrollback_len matches Some(n) ==> t.scrollback_len == n
            &&& s.mouse_scroll_speed is None ==> t.mouse_scroll_speed == 5
            &&& s.mouse_scroll_speed matches Some(n) ==> t.mouse_scroll_speed == n
            &&& t.spec == spec_of(s)
        }),
{
}

} // verus!
