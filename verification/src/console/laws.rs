//! What holds of the console whatever it is told.

use crate::config::config::Config;
use crate::console::action::{Action, ClientId};
use crate::console::effect::{Down, EffectModel, TaskOpModel};
use crate::console::input::{server_step, ServerMessage};
use crate::console::keymap::Keymap;
use crate::console::main_loop::next_of;
use crate::console::notify::path_index;
use crate::console::proc::child::{kind_of_segment, ChildModel};
use crate::console::proc::view::{child_index, ProcModel};
use crate::console::state::StateModel;
use crate::console::turn::{
    batch_step, cmds_of, single_step, step, to_up, ClientHandle, CoreModel, Turn,
};
use crate::kernel::path::{path_name, path_parent};
use crate::kernel::task::{TaskId, TaskStatus};
use crate::term::screen::SharedVt;
use vstd::prelude::*;

verus! {

/// A message to one of the first `n` processes, which is up.
pub open spec fn message_to_up(
    e: EffectModel,
    procs: Seq<ProcModel>,
    down: Down,
    n: nat,
) -> bool {
    exists|i: int|
        0 <= i < n && (#[trigger] procs[i]).status.up() && e == EffectModel::Task(
            procs[i].id,
            down.op(),
        )
}

proof fn lemma_to_up(procs: Seq<ProcModel>, down: Down, n: nat)
    requires
        n <= procs.len(),
    ensures
        forall|i: int|
            0 <= i < n && (#[trigger] procs[i]).status.up() ==> to_up(procs, down, n).contains(
                EffectModel::Task(procs[i].id, down.op()),
            ),
        forall|k: int|
            0 <= k < to_up(procs, down, n).len() ==> message_to_up(
                #[trigger] to_up(procs, down, n)[k],
                procs,
                down,
                n,
            ),
    decreases n,
{
    if n > 0 {
        let before = to_up(procs, down, (n - 1) as nat);
        let all = to_up(procs, down, n);
        lemma_to_up(procs, down, (n - 1) as nat);
        assert forall|i: int| 0 <= i < n && (#[trigger] procs[i]).status.up() implies all.contains(
            EffectModel::Task(procs[i].id, down.op()),
        ) by {
            let e = EffectModel::Task(procs[i].id, down.op());
            if i < n - 1 {
                let k = choose|k: int| 0 <= k < before.len() && before[k] == e;
                assert(all[k] == e);
            } else {
                assert(all[all.len() - 1] == e);
            }
        }
        assert forall|k: int| 0 <= k < all.len() implies message_to_up(
            #[trigger] all[k],
            procs,
            down,
            n,
        ) by {
            if k < before.len() {
                assert(all[k] == before[k]);
                let i = choose|i: int|
                    0 <= i < n - 1 && (#[trigger] procs[i]).status.up() && before[k]
                        == EffectModel::Task(procs[i].id, down.op());
                assert(procs[i].status.up());
            } else {
                assert(procs[n - 1].status.up());
            }
        }
    }
}

/// Quitting tells every process that is up to stop, and sends nothing else.
pub proof fn quit_stops_what_is_up(t: Turn, config: Config)
    ensures
        ({
            let after = step(t, config, Action::Quit).core;
            let procs = t.core.state.procs;
            let added = after.out.skip(t.core.out.len() as int);
            &&& after.state.quitting
            &&& after.out == t.core.out + added
            &&& forall|i: int|
                0 <= i < procs.len() && (#[trigger] procs[i]).status.up() ==> added.contains(
                    EffectModel::Task(procs[i].id, TaskOpModel::Stop),
                )
            &&& forall|k: int|
                0 <= k < added.len() ==> message_to_up(
                    #[trigger] added[k],
                    procs,
                    Down::Stop,
                    procs.len(),
                )
        }),
{
    let procs = t.core.state.procs;
    let after = step(t, config, Action::Quit).core;
    lemma_to_up(procs, Down::Stop, procs.len());
    assert(after.out.skip(t.core.out.len() as int) =~= to_up(procs, Down::Stop, procs.len()));
}

/// Quitting by force kills every process that is up, sends nothing else, and
/// ends the loop.
pub proof fn force_quit_kills_what_is_up(t: Turn, config: Config)
    ensures
        ({
            let after = step(t, config, Action::ForceQuit);
            let procs = t.core.state.procs;
            let added = after.core.out.skip(t.core.out.len() as int);
            &&& after.act is ForceQuit
            &&& after.core.state == t.core.state
            &&& after.core.out == t.core.out + added
            &&& forall|i: int|
                0 <= i < procs.len() && (#[trigger] procs[i]).status.up() ==> added.contains(
                    EffectModel::Task(procs[i].id, TaskOpModel::Kill),
                )
            &&& forall|k: int|
                0 <= k < added.len() ==> message_to_up(
                    #[trigger] added[k],
                    procs,
                    Down::Kill,
                    procs.len(),
                )
        }),
{
    reveal(Turn::force_quit);
    let procs = t.core.state.procs;
    let after = step(t, config, Action::ForceQuit).core;
    lemma_to_up(procs, Down::Kill, procs.len());
    assert(after.out.skip(t.core.out.len() as int) =~= to_up(procs, Down::Kill, procs.len()));
}

proof fn lemma_same_parts(t: Turn, config: Config, a: Action, b: Action, n: int)
    requires
        a is Batch,
        b is Batch,
        n <= cmds_of(a).len(),
        n <= cmds_of(b).len(),
        forall|i: int| 0 <= i < n ==> #[trigger] cmds_of(a)[i] == cmds_of(b)[i],
    ensures
        batch_step(t, config, a, n) == batch_step(t, config, b, n),
    decreases n,
{
    if n > 0 {
        lemma_same_parts(t, config, a, b, n - 1);
        assert(cmds_of(a)[n - 1] == cmds_of(b)[n - 1]);
    }
}

/// A batch without parts does nothing, one of a single part does what the part
/// does, and one that is longer by a part does that part last, unless the loop
/// is to end before it.
pub proof fn batch_does_its_parts_in_order(t: Turn, config: Config, first: Action, all: Action)
    requires
        first is Batch,
        all is Batch,
        cmds_of(all).len() == cmds_of(first).len() + 1,
        forall|i: int| 0 <= i < cmds_of(first).len() ==> #[trigger] cmds_of(all)[i] == cmds_of(first)[i],
    ensures
        cmds_of(first).len() == 0 ==> step(t, config, first) == t && step(t, config, all) == step(
            t,
            config,
            cmds_of(all)[0],
        ),
        cmds_of(first).len() > 0 ==> step(t, config, all) == (if step(
            t,
            config,
            first,
        ).act is ForceQuit {
            step(t, config, first)
        } else {
            step(step(t, config, first), config, cmds_of(all).last())
        }),
{
    let n = cmds_of(first).len() as int;
    lemma_same_parts(t, config, first, all, n);
    reveal_with_fuel(batch_step, 2);
    assert(step(t, config, first) == batch_step(t, config, first, n));
    assert(step(t, config, all) == batch_step(t, config, all, n + 1));
    assert(all->cmds@[n] == cmds_of(all)[n]);
}

/// Once the loop is to end at once, no action makes it go on.
pub proof fn force_quit_is_final(t: Turn, config: Config, action: Action)
    requires
        t.act is ForceQuit,
    ensures
        step(t, config, action).act is ForceQuit,
    decreases action, 1int, 0int,
{
    if action is Batch {
        lemma_batch_force_quit(t, config, action, cmds_of(action).len() as int);
    } else {
        lemma_single_act(t, config, action);
    }
}

proof fn lemma_batch_force_quit(t: Turn, config: Config, action: Action, n: int)
    requires
        t.act is ForceQuit,
        action is Batch,
        0 <= n <= cmds_of(action).len(),
    ensures
        batch_step(t, config, action, n).act is ForceQuit,
    decreases action, 0int, n,
{
    if n > 0 {
        lemma_batch_force_quit(t, config, action, n - 1);
        force_quit_is_final(batch_step(t, config, action, n - 1), config, action->cmds@[n - 1]);
    }
}

proof fn lemma_single_act(t: Turn, config: Config, action: Action)
    requires
        t.act is ForceQuit,
        !(action is Batch),
    ensures
        single_step(t, config, action).act is ForceQuit,
{
    reveal_turn_steps();
}

/// The steps of a turn, unfolded.
proof fn reveal_turn_steps()
    ensures
        forall|t: Turn, m: Option<crate::console::turn::Modal>| #[trigger]
            t.opened(m) == t.with_core(CoreModel { modal: m, ..t.core }).rendered(),
        forall|t: Turn, s: crate::console::scope::Scope| #[trigger]
            t.focused(s) == t.with_state(StateModel { scope: s, ..t.core.state }).rendered(),
        forall|t: Turn| (#[trigger] t.force_quit()).act is ForceQuit,
        forall|t: Turn, op: TaskOpModel| (#[trigger] t.told(op)).act == t.act,
        forall|t: Turn| (#[trigger] t.rerun()).act == t.act,
        forall|t: Turn, d: Down| (#[trigger] t.restarted(d)).act == t.act,
        forall|t: Turn, d: Down| (#[trigger] t.restarted_all(d)).act == t.act,
        forall|t: Turn, n: i32|
            t.act is ForceQuit ==> (#[trigger] t.scrolled(n)).act is ForceQuit,
        forall|t: Turn, up: bool|
            t.act is ForceQuit ==> (#[trigger] t.half_scrolled(up)).act is ForceQuit,
        forall|t: Turn, c: Config, cmd: Seq<char>, name: Seq<char>|
            t.act is ForceQuit ==> (#[trigger] t.added(c, cmd, name)).act is ForceQuit,
        forall|t: Turn| t.act is ForceQuit ==> (#[trigger] t.duplicated()).act is ForceQuit,
        forall|t: Turn| t.act is ForceQuit ==> (#[trigger] t.asked_removal()).act is ForceQuit,
        forall|t: Turn, name: Seq<char>|
            t.act is ForceQuit ==> (#[trigger] t.renamed(name)).act is ForceQuit,
        forall|t: Turn| t.act is ForceQuit ==> (#[trigger] t.copying()).act is ForceQuit,
{
    reveal(Turn::opened);
    reveal(Turn::focused);
    reveal(Turn::force_quit);
    reveal(Turn::told);
    reveal(Turn::restarted);
    reveal(Turn::restarted_all);
    reveal(Turn::rerun);
    reveal(Turn::scrolled);
    reveal(Turn::half_scrolled);
    reveal(Turn::added);
    reveal(Turn::duplicated);
    reveal(Turn::asked_removal);
    reveal(Turn::renamed);
    reveal(Turn::copying);
}

/// Nothing in a batch is done after a part that ends the loop.
pub proof fn batch_ends_with_the_loop(t: Turn, config: Config, action: Action, n: int)
    requires
        action is Batch,
        1 <= n <= cmds_of(action).len(),
        batch_step(t, config, action, n).act is ForceQuit,
    ensures
        step(t, config, action) == batch_step(t, config, action, n),
{
    crate::console::app::lemma_batch_ends(
        t,
        config,
        action,
        n,
        cmds_of(action).len() as int,
    );
}

/// A row that can be seen has the focus.
pub open spec fn focus_is_visible(state: StateModel) -> bool {
    &&& state.list.selected < state.procs.len()
    &&& match state.procs[state.list.selected as int].focused_child {
        Some(i) => state.procs[state.list.selected as int].expanded && i < state.procs[
        state.list.selected as int].children.len(),
        None => true,
    }
}

/// Moving the focus keeps it on a row that can be seen.
pub proof fn focus_stays_visible(state: StateModel)
    requires
        focus_is_visible(state),
        state.procs.len() <= usize::MAX,
        forall|i: int|
            0 <= i < state.procs.len() ==> (#[trigger] state.procs[i]).children.len()
                <= usize::MAX,
    ensures
        focus_is_visible(state.next_row()),
        focus_is_visible(state.prev_row()),
{
}

/// Moving the focus up undoes moving it down.
pub proof fn prev_row_undoes_next_row(state: StateModel)
    requires
        focus_is_visible(state),
        state.procs.len() <= usize::MAX,
        forall|i: int|
            0 <= i < state.procs.len() ==> (#[trigger] state.procs[i]).children.len()
                <= usize::MAX,
    ensures
        ({
            let back = state.next_row().prev_row();
            &&& back.list.selected == state.list.selected
            &&& back.procs[back.list.selected as int].focused_child == state.procs[
            state.list.selected as int].focused_child
        }),
{
}

/// A row that is attached is not attached again.
pub proof fn attaching_twice_is_attaching_once(
    state: StateModel,
    id: TaskId,
    path: Seq<char>,
    label: Option<Seq<char>>,
    status: TaskStatus,
    vt: SharedVt,
    now: u64,
    later: u64,
)
    ensures
        ({
            let once = state.attached(id, path, label, status, vt, now);
            once.attached(id, path, label, status, vt, later) == once
        }),
{
    let once = state.attached(id, path, label, status, vt, now);
    if let (Some(parent), Some(_)) = (path_parent(path), kind_of_segment(path_name(path))) {
        lemma_path_index(state.procs, parent, 0);
        if let Some(i) = path_index(state.procs, parent, 0) {
            if child_index(state.procs[i].children, id) is None {
                lemma_child_pushed(state.procs[i].children, once.procs[i].children.last(), id);
                assert(once.procs[i].children =~= state.procs[i].children.push(
                    once.procs[i].children.last(),
                ));
                lemma_same_paths(state.procs, once.procs, parent, 0);
            }
        }
    }
}

proof fn lemma_path_index(procs: Seq<ProcModel>, path: Seq<char>, n: nat)
    ensures
        path_index(procs, path, n) matches Some(i) ==> n <= i < procs.len(),
    decreases procs.len() - n,
{
    if n < procs.len() && procs[n as int].path != Some(path) {
        lemma_path_index(procs, path, n + 1);
    }
}

proof fn lemma_same_paths(a: Seq<ProcModel>, b: Seq<ProcModel>, path: Seq<char>, n: nat)
    requires
        a.len() == b.len(),
        forall|i: int| 0 <= i < a.len() ==> (#[trigger] a[i]).path == b[i].path,
    ensures
        path_index(a, path, n) == path_index(b, path, n),
    decreases a.len() - n,
{
    if n < a.len() {
        assert(a[n as int].path == b[n as int].path);
        lemma_same_paths(a, b, path, n + 1);
    }
}

proof fn lemma_child_pushed(children: Seq<ChildModel>, row: ChildModel, id: TaskId)
    requires
        row.task_id == Some(id),
        child_index(children, id) is None,
    ensures
        child_index(children.push(row), id) is Some,
    decreases children.len(),
{
    let all = children.push(row);
    if children.len() > 0 {
        assert(all[0] == children[0]);
        assert(all.skip(1) =~= children.skip(1).push(row));
        lemma_child_pushed(children.skip(1), row, id);
    }
}

/// By default a client that goes leaves the processes alone.
pub proof fn detached_client_stops_nothing(
    t: Turn,
    config: Config,
    keymap: Keymap,
    client_id: ClientId,
    handled: bool,
    now: u64,
)
    requires
        config.on_client_exit is Detach,
    ensures
        ({
            let after = server_step(
                t,
                config,
                keymap,
                ServerMessage::ClientDisconnected { client_id },
                handled,
                now,
            );
            &&& after.core.out == t.core.out
            &&& after.core.state == t.core.state
        }),
{
}

/// Where it is configured, the last client that goes takes the processes down.
pub proof fn last_client_stops_everything(
    t: Turn,
    config: Config,
    keymap: Keymap,
    client_id: ClientId,
    handled: bool,
    now: u64,
)
    requires
        config.on_client_exit is StopAll,
        forall|i: int| 0 <= i < t.core.clients.len() ==> (#[trigger] t.core.clients[i]).id
            == client_id,
    ensures
        ({
            let after = server_step(
                t,
                config,
                keymap,
                ServerMessage::ClientDisconnected { client_id },
                handled,
                now,
            );
            &&& after.core.state.quitting
            &&& after.core.out == t.core.out + to_up(
                t.core.state.procs,
                Down::Stop,
                t.core.state.procs.len(),
            )
        }),
{
    lemma_all_dropped(t.core.clients, client_id);
}

proof fn lemma_all_dropped(clients: Seq<ClientHandle>, id: ClientId)
    requires
        forall|i: int| 0 <= i < clients.len() ==> (#[trigger] clients[i]).id == id,
    ensures
        clients.filter(|c: ClientHandle| c.id != id).len() == 0,
    decreases clients.len(),
{
    reveal(Seq::filter);
    if clients.len() > 0 {
        assert forall|i: int| 0 <= i < clients.drop_last().len() implies (
        #[trigger] clients.drop_last()[i]).id == id by {
            assert(clients[i].id == id);
        }
        lemma_all_dropped(clients.drop_last(), id);
    }
}

/// A console that quits leaves its loop as soon as no process is up.
pub proof fn quitting_ends_when_all_are_down(t: Turn)
    requires
        t.core.state.quitting,
        t.core.state.all_down(),
    ensures
        next_of(t) is Leave,
{
}

} // verus!
