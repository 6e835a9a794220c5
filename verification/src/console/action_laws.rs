//! What each action asks of the processes.

use crate::config::config::Config;
use crate::console::action::{Action, ClientId, CopyMove};
use crate::console::app::LoopAction;
use crate::console::effect::{Down, EffectModel, TaskOpModel};
use crate::console::names::{
    free_from, numbered, numbers_tried, taken, unique_name, unique_name_is_free,
};
use crate::console::proc::child::ChildKind;
use crate::console::proc::view::ProcModel;
use crate::console::scope::Scope;
use crate::console::state::StateModel;
use crate::console::spawn_laws::{filled_in, shell_runs_the_command, task_has_the_settings};
use crate::console::turn::{
    added_settings, restart, restart_upto, step, ClientHandle, CoreModel, Modal, Turn,
};
use crate::kernel::screen_cmd::{CopyMove as KernelCopyMove, TaskScreenCmd};
use crate::kernel::task::{TaskId, TaskStatus};
use crate::term::key::Key;
use vstd::prelude::*;

verus! {

/// A process is selected.
pub open spec fn has_selected(t: Turn) -> bool {
    t.core.state.list.selected < t.core.state.procs.len()
}

pub open spec fn selected(t: Turn) -> ProcModel {
    t.core.state.procs[t.core.state.list.selected as int]
}

/// An instance of the process is alive.
pub open spec fn is_alive(proc: ProcModel) -> bool {
    match proc.status {
        TaskStatus::Starting | TaskStatus::Running | TaskStatus::Unhealthy => true,
        TaskStatus::NotStarted | TaskStatus::Completed | TaskStatus::Exited(_) => false,
    }
}

/// The selected process gets these messages in this order, and nothing else
/// happens but that the screen may be drawn.
pub open spec fn only_tells(t: Turn, after: Turn, ops: Seq<TaskOpModel>) -> bool {
    let effects = ops.map_values(|op: TaskOpModel| EffectModel::Task(selected(t).id, op));
    &&& after.core == (CoreModel { out: t.core.out + effects, ..t.core })
    &&& after.act == t.act || after.act is Render
}

pub open spec fn tells(t: Turn, config: Config, action: Action, op: TaskOpModel) -> bool {
    only_tells(t, step(t, config, action), seq![op])
}

/// An action on the selected process sends it the message of that name, and
/// sends no other process anything.
pub proof fn selected_process_is_told(t: Turn, config: Config, key: Key)
    requires
        has_selected(t),
    ensures
        tells(t, config, Action::StartProc, TaskOpModel::Start),
        tells(t, config, Action::TermProc, TaskOpModel::Stop),
        tells(t, config, Action::KillProc, TaskOpModel::Kill),
        tells(t, config, Action::SendKey { key }, TaskOpModel::Input(key)),
        tells(t, config, Action::CopyModeLeave, TaskOpModel::Screen(TaskScreenCmd::CopyLeave)),
        tells(
            t,
            config,
            Action::CopyModeEnd,
            TaskOpModel::Screen(TaskScreenCmd::CopyBeginSelection),
        ),
        tells(t, config, Action::CopyModeCopy, TaskOpModel::Screen(TaskScreenCmd::CopyYank)),
{
    reveal(Turn::told);
    assert forall|op: TaskOpModel| only_tells(t, #[trigger] t.told(op), seq![op]) by {
        let id = selected(t).id;
        assert(seq![op].map_values(|o: TaskOpModel| EffectModel::Task(id, o)) =~= seq![
            EffectModel::Task(id, op),
        ]);
        assert(t.told(op).core.out =~= t.core.out + seq![EffectModel::Task(id, op)]);
    }
}

/// A movement of the copy mode goes to the selected process as that movement.
pub proof fn movements_are_passed_on(t: Turn, config: Config)
    requires
        has_selected(t),
    ensures
        tells(
            t,
            config,
            Action::CopyModeMove { dir: CopyMove::Up },
            TaskOpModel::Screen(TaskScreenCmd::CopyMove { dir: KernelCopyMove::Up }),
        ),
        tells(
            t,
            config,
            Action::CopyModeMove { dir: CopyMove::Down },
            TaskOpModel::Screen(TaskScreenCmd::CopyMove { dir: KernelCopyMove::Down }),
        ),
        tells(
            t,
            config,
            Action::CopyModeMove { dir: CopyMove::Left },
            TaskOpModel::Screen(TaskScreenCmd::CopyMove { dir: KernelCopyMove::Left }),
        ),
        tells(
            t,
            config,
            Action::CopyModeMove { dir: CopyMove::Right },
            TaskOpModel::Screen(TaskScreenCmd::CopyMove { dir: KernelCopyMove::Right }),
        ),
{
    reveal(Turn::told);
    assert forall|op: TaskOpModel| only_tells(t, #[trigger] t.told(op), seq![op]) by {
        let id = selected(t).id;
        assert(seq![op].map_values(|o: TaskOpModel| EffectModel::Task(id, o)) =~= seq![
            EffectModel::Task(id, op),
        ]);
        assert(t.told(op).core.out =~= t.core.out + seq![EffectModel::Task(id, op)]);
    }
}

/// A restart takes a process that is alive down before it starts it, and starts
/// one that is down at once; forced, it kills instead of stopping.
pub proof fn restart_takes_down_and_starts(t: Turn, config: Config)
    requires
        has_selected(t),
    ensures
        selected(t).focused_child is None ==> only_tells(
            t,
            step(t, config, Action::RestartProc),
            if is_alive(selected(t)) {
                seq![TaskOpModel::Stop, TaskOpModel::Start]
            } else {
                seq![TaskOpModel::Start]
            },
        ),
        only_tells(
            t,
            step(t, config, Action::ForceRestartProc),
            if is_alive(selected(t)) {
                seq![TaskOpModel::Kill, TaskOpModel::Start]
            } else {
                seq![TaskOpModel::Start]
            },
        ),
{
    reveal(Turn::rerun);
    reveal(Turn::restarted);
    let id = selected(t).id;
    let f = |o: TaskOpModel| EffectModel::Task(id, o);
    assert(seq![TaskOpModel::Start].map_values(f) =~= seq![
        EffectModel::Task(id, TaskOpModel::Start),
    ]);
    assert(seq![TaskOpModel::Stop, TaskOpModel::Start].map_values(f) =~= seq![
        EffectModel::Task(id, TaskOpModel::Stop),
        EffectModel::Task(id, TaskOpModel::Start),
    ]);
    assert(seq![TaskOpModel::Kill, TaskOpModel::Start].map_values(f) =~= seq![
        EffectModel::Task(id, TaskOpModel::Kill),
        EffectModel::Task(id, TaskOpModel::Start),
    ]);
}

/// A restart of a row runs the hook or the check of that row again and leaves
/// the process alone; the row of the dependencies has nothing to run.
pub proof fn restart_of_a_row_runs_the_row(t: Turn, config: Config, i: usize)
    requires
        has_selected(t),
        selected(t).focused_child == Some(i),
        i < selected(t).children.len(),
    ensures
        only_tells(
            t,
            step(t, config, Action::RestartProc),
            match selected(t).children[i as int].kind {
                ChildKind::Hook(event) => seq![TaskOpModel::RerunHook(event)],
                ChildKind::Check(check) => seq![TaskOpModel::RerunCheck(check)],
                ChildKind::Deps => seq![],
            },
        ),
{
    reveal(Turn::rerun);
    reveal(Turn::told);
    let id = selected(t).id;
    let f = |o: TaskOpModel| EffectModel::Task(id, o);
    match selected(t).children[i as int].kind {
        ChildKind::Hook(event) => {
            let op = TaskOpModel::RerunHook(event);
            assert(seq![op].map_values(f) =~= seq![EffectModel::Task(id, op)]);
            assert(t.told(op).core.out =~= t.core.out + seq![EffectModel::Task(id, op)]);
        },
        ChildKind::Check(check) => {
            let op = TaskOpModel::RerunCheck(check);
            assert(seq![op].map_values(f) =~= seq![EffectModel::Task(id, op)]);
            assert(t.told(op).core.out =~= t.core.out + seq![EffectModel::Task(id, op)]);
        },
        ChildKind::Deps => {
            let none = seq![].map_values(f);
            assert(none =~= seq![]);
            assert(t.core.out + none =~= t.core.out);
        },
    }
}

/// Where no process is selected, an action on the selected process does
/// nothing.
pub proof fn nothing_is_told_to_nobody(t: Turn, config: Config, key: Key, dir: CopyMove, n: usize)
    requires
        !has_selected(t),
    ensures
        step(t, config, Action::StartProc) == t,
        step(t, config, Action::TermProc) == t,
        step(t, config, Action::KillProc) == t,
        step(t, config, Action::RestartProc) == t,
        step(t, config, Action::ForceRestartProc) == t,
        step(t, config, Action::SendKey { key }) == t,
        step(t, config, Action::ScrollUp) == t,
        step(t, config, Action::ScrollDown) == t,
        step(t, config, Action::ScrollUpLines { n }) == t,
        step(t, config, Action::ScrollDownLines { n }) == t,
        step(t, config, Action::CopyModeEnter) == t,
        step(t, config, Action::CopyModeLeave) == t,
        step(t, config, Action::CopyModeMove { dir }) == t,
        step(t, config, Action::DuplicateProc) == t,
        step(t, config, Action::ShowRemoveProc) == t,
{
    reveal(Turn::told);
    reveal(Turn::rerun);
    reveal(Turn::restarted);
    reveal(Turn::scrolled);
    reveal(Turn::half_scrolled);
    reveal(Turn::copying);
    reveal(Turn::duplicated);
    reveal(Turn::asked_removal);
}

/// The messages that a process gets.
pub open spec fn sent_to(effects: Seq<EffectModel>, id: TaskId) -> Seq<EffectModel> {
    effects.filter(|e: EffectModel| e matches EffectModel::Task(to, _) && to == id)
}

/// No two processes are the same task.
pub open spec fn tasks_differ(procs: Seq<ProcModel>) -> bool {
    forall|i: int, j: int|
        0 <= i < j < procs.len() ==> (#[trigger] procs[i]).id != (#[trigger] procs[j]).id
}

proof fn lemma_filter_split(a: Seq<EffectModel>, b: Seq<EffectModel>, id: TaskId)
    ensures
        sent_to(a + b, id) == sent_to(a, id) + sent_to(b, id),
{
    Seq::filter_distributes_over_add(
        a,
        b,
        |e: EffectModel| e matches EffectModel::Task(to, _) && to == id,
    );
}

proof fn lemma_sent_pair(to: TaskId, ops: Seq<TaskOpModel>, id: TaskId)
    ensures
        sent_to(ops.map_values(|o: TaskOpModel| EffectModel::Task(to, o)), id) == (if to == id {
            ops.map_values(|o: TaskOpModel| EffectModel::Task(to, o))
        } else {
            Seq::empty()
        }),
    decreases ops.len(),
{
    reveal(Seq::filter);
    let f = |o: TaskOpModel| EffectModel::Task(to, o);
    let all = ops.map_values(f);
    if ops.len() > 0 {
        lemma_sent_pair(to, ops.drop_last(), id);
        assert(all.drop_last() =~= ops.drop_last().map_values(f));
        assert(all =~= all.drop_last().push(all.last()));
    } else {
        assert(all =~= Seq::empty());
    }
}

/// What a restart of a process consists of.
pub open spec fn restarting(proc: ProcModel, down: TaskOpModel) -> Seq<EffectModel> {
    (if is_alive(proc) {
        seq![down, TaskOpModel::Start]
    } else {
        seq![TaskOpModel::Start]
    }).map_values(|o: TaskOpModel| EffectModel::Task(proc.id, o))
}

proof fn lemma_restart_upto(procs: Seq<ProcModel>, down: Down, n: nat, i: int)
    requires
        tasks_differ(procs),
        n <= procs.len(),
        0 <= i < procs.len(),
    ensures
        sent_to(restart_upto(procs, down, n), procs[i].id) == (if i < n {
            restarting(procs[i], down.op())
        } else {
            Seq::empty()
        }),
    decreases n,
{
    reveal(Seq::filter);
    if n > 0 {
        let p = procs[n - 1];
        let before = restart_upto(procs, down, (n - 1) as nat);
        lemma_restart_upto(procs, down, (n - 1) as nat, i);
        let ops = if is_alive(p) {
            seq![down.op(), TaskOpModel::Start]
        } else {
            seq![TaskOpModel::Start]
        };
        assert(restart(p, down) =~= restarting(p, down.op()));
        lemma_filter_split(before, restarting(p, down.op()), procs[i].id);
        lemma_sent_pair(p.id, ops, procs[i].id);
        if i < n - 1 {
            assert(procs[i].id != procs[n - 1].id);
            assert(restarting(procs[i], down.op()) + Seq::empty() =~= restarting(
                procs[i],
                down.op(),
            ));
        } else if i > n - 1 {
            assert(procs[n - 1].id != procs[i].id);
            assert(Seq::<EffectModel>::empty() + Seq::empty() =~= Seq::empty());
        } else {
            assert(Seq::<EffectModel>::empty() + restarting(p, down.op()) =~= restarting(
                p,
                down.op(),
            ));
        }
    }
}

/// A restart of everything restarts each process once, as a restart of that
/// process alone would.
pub proof fn restart_of_all_restarts_each(t: Turn, config: Config, i: int)
    requires
        tasks_differ(t.core.state.procs),
        0 <= i < t.core.state.procs.len(),
    ensures
        ({
            let proc = t.core.state.procs[i];
            let n = t.core.out.len() as int;
            let soft = step(t, config, Action::RestartAll).core;
            let hard = step(t, config, Action::ForceRestartAll).core;
            &&& soft.state == t.core.state
            &&& hard.state == t.core.state
            &&& t.core.out == soft.out.take(n)
            &&& t.core.out == hard.out.take(n)
            &&& sent_to(soft.out.skip(n), proc.id) == restarting(proc, TaskOpModel::Stop)
            &&& sent_to(hard.out.skip(n), proc.id) == restarting(proc, TaskOpModel::Kill)
        }),
{
    reveal(Turn::restarted_all);
    let procs = t.core.state.procs;
    let n = t.core.out.len() as int;
    let soft = step(t, config, Action::RestartAll).core;
    let hard = step(t, config, Action::ForceRestartAll).core;
    lemma_restart_upto(procs, Down::Stop, procs.len(), i);
    lemma_restart_upto(procs, Down::Kill, procs.len(), i);
    assert(soft.out.skip(n) =~= restart_upto(procs, Down::Stop, procs.len()));
    assert(hard.out.skip(n) =~= restart_upto(procs, Down::Kill, procs.len()));
}

/// Scrolling up and down moves the screen of the selected process by the given
/// number of lines, up being positive.
pub proof fn scrolling_moves_by_the_lines(t: Turn, config: Config, n: usize)
    requires
        has_selected(t),
        n <= i32::MAX,
    ensures
        tells(
            t,
            config,
            Action::ScrollUpLines { n },
            TaskOpModel::Screen(TaskScreenCmd::Scroll { delta: n as i32 }),
        ),
        tells(
            t,
            config,
            Action::ScrollDownLines { n },
            TaskOpModel::Screen(TaskScreenCmd::Scroll { delta: (-(n as int)) as i32 }),
        ),
{
    reveal(Turn::scrolled);
    reveal(Turn::told);
    lemma_told(t, TaskOpModel::Screen(TaskScreenCmd::Scroll { delta: n as i32 }));
    lemma_told(t, TaskOpModel::Screen(TaskScreenCmd::Scroll { delta: (-(n as int)) as i32 }));
}

proof fn lemma_told(t: Turn, op: TaskOpModel)
    requires
        has_selected(t),
    ensures
        only_tells(t, t.told(op), seq![op]),
        only_tells(t, t.told(op).rendered(), seq![op]),
{
    reveal(Turn::told);
    let id = selected(t).id;
    assert(seq![op].map_values(|o: TaskOpModel| EffectModel::Task(id, o)) =~= seq![
        EffectModel::Task(id, op),
    ]);
    assert(t.told(op).core.out =~= t.core.out + seq![EffectModel::Task(id, op)]);
}

/// Scrolling by half a screen moves by half the height of the terminal of the
/// selected process, rounded down, and at least by one line.
pub proof fn half_a_screen_is_half_its_height(t: Turn, config: Config, h: u16)
    requires
        has_selected(t),
        selected(t).vt.0 < t.core.vt_sizes.len(),
        t.core.vt_sizes[selected(t).vt.0 as int].height == h,
    ensures
        ({
            let half = if h < 2 {
                1int
            } else {
                h as int / 2
            };
            &&& tells(
                t,
                config,
                Action::ScrollUp,
                TaskOpModel::Screen(TaskScreenCmd::Scroll { delta: half as i32 }),
            )
            &&& tells(
                t,
                config,
                Action::ScrollDown,
                TaskOpModel::Screen(TaskScreenCmd::Scroll { delta: (-half) as i32 }),
            )
        }),
{
    reveal(Turn::half_scrolled);
    reveal(Turn::scrolled);
    let half = if h < 2 {
        1int
    } else {
        h as int / 2
    };
    lemma_told(t, TaskOpModel::Screen(TaskScreenCmd::Scroll { delta: half as i32 }));
    lemma_told(t, TaskOpModel::Screen(TaskScreenCmd::Scroll { delta: (-half) as i32 }));
}

/// The rest of the console is as it was, and nothing is sent.
pub open spec fn only_shows(t: Turn, after: Turn, state: StateModel, modal: Option<Modal>) -> bool {
    &&& after.core == (CoreModel { state, modal, ..t.core })
    &&& after.act == (if t.act is Skip {
        LoopAction::Render
    } else {
        t.act
    })
}

/// The actions on the focus move it where their names say, and a toggle goes
/// between the list and the terminal.
pub proof fn focus_goes_where_it_is_sent(t: Turn, config: Config)
    ensures
        ({
            let state = t.core.state;
            let at = |scope: Scope| StateModel { scope, ..state };
            let modal = t.core.modal;
            &&& only_shows(t, step(t, config, Action::FocusProcs), at(Scope::Procs), modal)
            &&& only_shows(t, step(t, config, Action::FocusTerm), at(Scope::Term), modal)
            &&& only_shows(t, step(t, config, Action::Zoom), at(Scope::TermZoom), modal)
            &&& only_shows(
                t,
                step(t, config, Action::ToggleFocus),
                at(
                    if state.scope == Scope::Procs {
                        Scope::Term
                    } else {
                        Scope::Procs
                    },
                ),
                modal,
            )
            &&& only_shows(
                t,
                step(t, config, Action::ToggleKeymapWindow),
                StateModel { hide_keymap: !state.hide_keymap, ..state },
                modal,
            )
        }),
{
    reveal(Turn::focused);
}

/// Each question has its window, and closing it leaves none; asking changes
/// nothing else.
pub proof fn questions_open_their_windows(t: Turn, config: Config)
    ensures
        ({
            let state = t.core.state;
            &&& only_shows(t, step(t, config, Action::QuitOrAsk), state, Some(Modal::Quit))
            &&& only_shows(
                t,
                step(t, config, Action::ShowCommandsMenu),
                state,
                Some(Modal::CommandsMenu),
            )
            &&& only_shows(t, step(t, config, Action::ShowAddProc), state, Some(Modal::AddProc))
            &&& only_shows(
                t,
                step(t, config, Action::ShowRenameProc),
                state,
                Some(Modal::RenameProc),
            )
            &&& only_shows(t, step(t, config, Action::CloseCurrentModal), state, None)
        }),
{
    reveal(Turn::opened);
}

/// A process is offered for removal only while it is down, and what is removed
/// is the task that was named.
pub proof fn only_what_is_down_is_removed(t: Turn, config: Config, id: TaskId)
    requires
        has_selected(t),
    ensures
        ({
            let asked = step(t, config, Action::ShowRemoveProc);
            if is_alive(selected(t)) {
                asked == t
            } else {
                only_shows(t, asked, t.core.state, Some(Modal::RemoveProc(selected(t).id)))
            }
        }),
        step(t, config, Action::RemoveProc { id }).core == (CoreModel {
            out: t.core.out.push(EffectModel::RemoveTask(id)),
            ..t.core
        }),
{
    reveal(Turn::asked_removal);
    reveal(Turn::opened);
}

/// Entering the copy mode tells the process and puts the focus on its terminal.
pub proof fn copying_is_done_in_the_terminal(t: Turn, config: Config)
    requires
        has_selected(t),
    ensures
        ({
            let after = step(t, config, Action::CopyModeEnter).core;
            &&& after.out == t.core.out.push(
                EffectModel::Task(
                    selected(t).id,
                    TaskOpModel::Screen(TaskScreenCmd::CopyEnter),
                ),
            )
            &&& after.state == (StateModel { scope: Scope::Term, ..t.core.state })
        }),
{
    reveal(Turn::copying);
    reveal(Turn::told);
    reveal(Turn::focused);
}

/// The effect runs a process by a shell command, under the id and the name.
pub open spec fn runs_command(
    e: EffectModel,
    id: TaskId,
    name: Seq<char>,
    cmd: Seq<char>,
) -> bool {
    match e {
        EffectModel::Spawn(to, _, settings) => {
            &&& to == id
            &&& settings.label == Some(name)
            &&& settings.autostart
            &&& settings.deps.len() == 0
            &&& settings.spec.prog == "/bin/sh"@
            &&& settings.spec.args.len() == 2
            &&& settings.spec.args[0] == "-c"@
            &&& filled_in(settings.spec.args[1], cmd, settings.vars)
        },
        _ => false,
    }
}

/// No process but the one that is left out has the name.
pub open spec fn is_free(procs: Seq<ProcModel>, name: Seq<char>, but: Option<TaskId>) -> bool {
    forall|i: int|
        0 <= i < procs.len() && Some((#[trigger] procs[i]).id) != but ==> procs[i].name != name
}

/// A name that is wished for is given if no other process has it, and whatever
/// is given is a name that no other process has.
pub proof fn wished_name_is_given_if_free(
    procs: Seq<ProcModel>,
    wish: Seq<char>,
    but: Option<TaskId>,
)
    requires
        procs.len() <= usize::MAX - 2,
    ensures
        is_free(procs, wish, but) ==> unique_name(procs, wish, but) == wish,
        is_free(procs, unique_name(procs, wish, but), but),
{
    unique_name_is_free(procs, wish, but);
    if is_free(procs, wish, but) {
        assert(!taken(procs, wish, but));
    }
    let given = unique_name(procs, wish, but);
    assert forall|i: int|
        0 <= i < procs.len() && Some((#[trigger] procs[i]).id) != but implies procs[i].name
        != given by {
        assert(!taken(procs, given, but));
    }
}

/// A process is renamed to what was asked for, unless another one has that
/// name; its own name is no obstacle.
pub proof fn renaming_gives_the_name(t: Turn, config: Config, name: String)
    requires
        has_selected(t),
        t.core.state.procs.len() <= usize::MAX - 2,
    ensures
        ({
            let after = step(t, config, Action::RenameProc { name }).core;
            let id = selected(t).id;
            &&& after.out.len() == t.core.out.len() + 1
            &&& after == (CoreModel { out: t.core.out.push(after.out.last()), ..t.core })
            &&& match after.out.last() {
                EffectModel::SetLabel(to, given) => {
                    &&& to == id
                    &&& is_free(t.core.state.procs, given, Some(id))
                    &&& is_free(t.core.state.procs, name@, Some(id)) ==> given == name@
                },
                _ => false,
            }
        }),
{
    reveal(Turn::renamed);
    wished_name_is_given_if_free(t.core.state.procs, name@, Some(selected(t).id));
}

/// A copy of a process gets a name that no process has.
pub proof fn copies_have_new_names(t: Turn, config: Config)
    requires
        has_selected(t),
        t.core.state.procs.len() <= usize::MAX - 2,
    ensures
        ({
            let after = step(t, config, Action::DuplicateProc).core;
            &&& after.out.len() == t.core.out.len() + 1
            &&& after == (CoreModel { out: t.core.out.push(after.out.last()), ..t.core })
            &&& match after.out.last() {
                EffectModel::Task(to, TaskOpModel::Duplicate(name)) => {
                    &&& to == selected(t).id
                    &&& is_free(t.core.state.procs, name, None)
                    &&& selected(t).name.is_prefix_of(name)
                },
                _ => false,
            }
        }),
{
    reveal(Turn::duplicated);
    reveal(Turn::told);
    let name = selected(t).name;
    wished_name_is_given_if_free(t.core.state.procs, name, None);
    lemma_unique_extends(t.core.state.procs, name, None);
}

proof fn lemma_free_extends(
    procs: Seq<ProcModel>,
    base: Seq<char>,
    exclude: Option<TaskId>,
    n: nat,
    left: nat,
)
    ensures
        base.is_prefix_of(free_from(procs, base, exclude, n, left)),
    decreases left,
{
    if left > 0 && taken(procs, numbered(base, n), exclude) {
        lemma_free_extends(procs, base, exclude, n + 1, (left - 1) as nat);
    }
}

proof fn lemma_unique_extends(procs: Seq<ProcModel>, base: Seq<char>, exclude: Option<TaskId>)
    ensures
        base.is_prefix_of(unique_name(procs, base, exclude)),
{
    lemma_free_extends(
        procs,
        base,
        exclude,
        2,
        numbers_tried(procs),
    );
}

/// A process that is added runs the command that was given, under the name that
/// was given, or else the command itself, if that is free; its id is the next
/// one, which is then used up.
pub proof fn added_process_runs_the_command(
    t: Turn,
    config: Config,
    cmd: String,
    name: Option<String>,
)
    requires
        t.core.state.procs.len() <= usize::MAX - 2,
        t.core.next_id < usize::MAX,
    ensures
        ({
            let after = step(t, config, Action::AddProc { cmd, name }).core;
            let wish = match name {
                Some(n) => n@,
                None => cmd@,
            };
            let given = unique_name(t.core.state.procs, wish, None);
            &&& after.next_id == t.core.next_id + 1
            &&& after.state == t.core.state
            &&& after.out.len() == t.core.out.len() + 1
            &&& after.out == t.core.out.push(after.out.last())
            &&& runs_command(after.out.last(), TaskId(t.core.next_id), given, cmd@)
            &&& is_free(t.core.state.procs, given, None)
            &&& is_free(t.core.state.procs, wish, None) ==> given == wish
        }),
{
    reveal(Turn::added);
    let wish = match name {
        Some(n) => n@,
        None => cmd@,
    };
    let given = unique_name(t.core.state.procs, wish, None);
    wished_name_is_given_if_free(t.core.state.procs, wish, None);
    let s = config.proc_defaults@.overlaid(added_settings(given, cmd@));
    task_has_the_settings(s, Seq::empty());
    shell_runs_the_command(s, cmd@);
}

/// A client that detaches is no client any more; every other one stays.
pub proof fn detached_client_is_gone(t: Turn, config: Config, client_id: ClientId, c: ClientHandle)
    ensures
        ({
            let after = step(t, config, Action::Detach { client_id }).core;
            &&& after.clients.contains(c) <==> t.core.clients.contains(c) && c.id != client_id
            &&& after.state == t.core.state
            &&& after.out == t.core.out
        }),
{
    let keep = |h: ClientHandle| h.id != client_id;
    let left = t.core.clients.filter(keep);
    if t.core.clients.contains(c) && keep(c) {
        let i = choose|i: int| 0 <= i < t.core.clients.len() && t.core.clients[i] == c;
        t.core.clients.lemma_filter_contains(keep, i);
    }
    if left.contains(c) {
        let k = choose|k: int| 0 <= k < left.len() && left[k] == c;
        t.core.clients.lemma_filter_pred(keep, k);
        t.core.clients.lemma_filter_contains_rev(keep, c);
    }
}

} // verus!
