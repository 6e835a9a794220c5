//! What the console makes of keys, the mouse and its clients.

use crate::config::config::Config;
use crate::console::action::ClientId;
use crate::console::action_laws::{has_selected, selected};
use crate::console::app_layout::AppLayout;
use crate::console::effect::{EffectModel, TaskOpModel};
use crate::console::input::{input_step, layout_of, server_step, CltToSrv, ServerMessage, TermEvent};
use crate::console::keymap::{bound, Binding, Keymap, KeymapGroup};
use crate::console::list::ClickTarget;
use crate::console::scope::Scope;
use crate::console::state::StateModel;
use crate::console::turn::{step, ClientHandle, CoreModel, Turn};
use crate::kernel::screen_cmd::TaskScreenCmd;
use crate::term::key::{Key, KeyEventKind};
use crate::term::mouse::{MouseEvent, MouseEventKind};
use crate::term::rect::{Rect, Size};
use vstd::prelude::*;

verus! {

/// The keys that hold: those of the list, those of the copy mode while the
/// selected process is in it, or those of the terminal.
pub open spec fn keys_in_use(state: StateModel) -> KeymapGroup {
    if state.scope == Scope::Procs {
        KeymapGroup::Procs
    } else if state.list.selected < state.procs.len() && state.procs[state.list.selected as int]
        .present is Some {
        KeymapGroup::Copy
    } else {
        KeymapGroup::Term
    }
}

/// The last binding of a key in a group.
pub open spec fn last_binding(
    bindings: Seq<Binding>,
    group: KeymapGroup,
    key: Key,
    i: int,
) -> bool {
    &&& 0 <= i < bindings.len()
    &&& bindings[i].group == group
    &&& bindings[i].key == key
    &&& forall|j: int|
        i < j < bindings.len() ==> !((#[trigger] bindings[j]).group == group && bindings[j].key
            == key)
}

proof fn lemma_bound(bindings: Seq<Binding>, group: KeymapGroup, key: Key, i: int)
    requires
        last_binding(bindings, group, key, i),
    ensures
        bound(bindings, group, key) == Some(bindings[i].action),
    decreases bindings.len(),
{
    if i < bindings.len() - 1 {
        let rest = bindings.drop_last();
        assert(!(bindings[bindings.len() - 1].group == group && bindings[bindings.len() - 1].key
            == key));
        assert(last_binding(rest, group, key, i)) by {
            assert forall|j: int| i < j < rest.len() implies !((#[trigger] rest[j]).group == group
                && rest[j].key == key) by {
                assert(rest[j] == bindings[j]);
            }
        }
        lemma_bound(rest, group, key, i);
    }
}

proof fn lemma_unbound(bindings: Seq<Binding>, group: KeymapGroup, key: Key)
    requires
        forall|j: int|
            0 <= j < bindings.len() ==> !((#[trigger] bindings[j]).group == group
                && bindings[j].key == key),
    ensures
        bound(bindings, group, key) is None,
    decreases bindings.len(),
{
    if bindings.len() > 0 {
        let rest = bindings.drop_last();
        assert forall|j: int| 0 <= j < rest.len() implies !((#[trigger] rest[j]).group == group
            && rest[j].key == key) by {
            assert(rest[j] == bindings[j]);
        }
        assert(!(bindings[bindings.len() - 1].group == group && bindings[bindings.len() - 1].key
            == key));
        lemma_unbound(rest, group, key);
    }
}

/// A key that is pressed or held does what it was bound to last, where the
/// focus is.
pub proof fn bound_key_does_its_action(
    t: Turn,
    config: Config,
    keymap: Keymap,
    client_id: ClientId,
    key: Key,
    now: u64,
    i: int,
)
    requires
        t.core.modal is None,
        key.kind != KeyEventKind::Release,
        last_binding(
            keymap.bindings@,
            keys_in_use(t.core.state),
            (Key { kind: KeyEventKind::Press, ..key }),
            i,
        ),
    ensures
        input_step(t, config, keymap, client_id, TermEvent::Key(key), false, now) == step(
            t,
            config,
            keymap.bindings@[i].action,
        ),
{
    lemma_bound(
        keymap.bindings@,
        keys_in_use(t.core.state),
        Key { kind: KeyEventKind::Press, ..key },
        i,
    );
}

/// A key that is bound to nothing is typed into the selected process while the
/// focus is on its terminal, and does nothing while it is on the list.
pub proof fn other_key_is_typed(
    t: Turn,
    config: Config,
    keymap: Keymap,
    client_id: ClientId,
    key: Key,
    now: u64,
)
    requires
        t.core.modal is None,
        key.kind != KeyEventKind::Release,
        has_selected(t),
        forall|j: int|
            0 <= j < keymap.bindings@.len() ==> !((#[trigger] keymap.bindings@[j]).group
                == keys_in_use(t.core.state) && keymap.bindings@[j].key == (Key {
                kind: KeyEventKind::Press,
                ..key
            })),
    ensures
        ({
            let after = input_step(t, config, keymap, client_id, TermEvent::Key(key), false, now);
            if t.core.state.scope == Scope::Procs {
                after == t
            } else {
                after.core == (CoreModel {
                    out: t.core.out.push(
                        EffectModel::Task(
                            selected(t).id,
                            TaskOpModel::Input(Key { kind: KeyEventKind::Press, ..key }),
                        ),
                    ),
                    ..t.core
                })
            }
        }),
{
    reveal(Turn::told);
    lemma_unbound(
        keymap.bindings@,
        keys_in_use(t.core.state),
        Key { kind: KeyEventKind::Press, ..key },
    );
}

/// A key that is released does nothing, and neither does an event that a window
/// over the others has dealt with.
pub proof fn some_events_are_passed_over(
    t: Turn,
    config: Config,
    keymap: Keymap,
    client_id: ClientId,
    key: Key,
    event: TermEvent,
    handled: bool,
    now: u64,
)
    ensures
        key.kind == KeyEventKind::Release ==> input_step(
            t,
            config,
            keymap,
            client_id,
            TermEvent::Key(key),
            handled,
            now,
        ) == t,
        t.core.modal is Some ==> input_step(
            t,
            config,
            keymap,
            client_id,
            event,
            true,
            now,
        ) == t,
{
}

/// The mouse is within a frame.
pub open spec fn is_inside(area: Rect, event: MouseEvent) -> bool {
    &&& area.x < event.x < area.x + area.width - 1
    &&& area.y < event.y < area.y + area.height - 1
    &&& event.x <= u16::MAX
    &&& event.y <= u16::MAX
}

/// The mouse over the terminal is passed on to the selected process, with the
/// place counted from the corner of its screen; a click there puts the focus on
/// the terminal.
pub proof fn mouse_over_the_terminal_is_passed_on(
    t: Turn,
    config: Config,
    keymap: Keymap,
    client_id: ClientId,
    event: MouseEvent,
    now: u64,
)
    requires
        t.core.modal is None,
        has_selected(t),
        is_inside(layout_of(t.core, config).term, event),
    ensures
        ({
            let after = input_step(
                t,
                config,
                keymap,
                client_id,
                TermEvent::Mouse(event),
                false,
                now,
            ).core;
            let term = layout_of(t.core, config).term;
            let there = MouseEvent {
                x: (event.x - term.x - 1) as i32,
                y: (event.y - term.y - 1) as i32,
                ..event
            };
            &&& after.out == t.core.out.push(
                EffectModel::Task(
                    selected(t).id,
                    TaskOpModel::Screen(TaskScreenCmd::Mouse { event: there }),
                ),
            )
            &&& after.state == (StateModel {
                scope: if event.kind is Down && t.core.state.scope == Scope::Procs {
                    Scope::Term
                } else {
                    t.core.state.scope
                },
                ..t.core.state
            })
        }),
{
    reveal(Turn::told);
    assert(crate::console::input::cell_coord(event.x) == event.x);
    assert(crate::console::input::cell_coord(event.y) == event.y);
}

/// The wheel over the list selects the process above or below, and stays on the
/// first and the last one.
pub proof fn wheel_over_the_list_selects(
    t: Turn,
    config: Config,
    keymap: Keymap,
    client_id: ClientId,
    event: MouseEvent,
    now: u64,
)
    requires
        t.core.modal is None,
        has_selected(t),
        t.core.state.procs.len() <= usize::MAX,
        is_inside(layout_of(t.core, config).procs, event),
        !layout_of(t.core, config).term.shrunk(1).covers(event.x as int, event.y as int),
    ensures
        ({
            let after = input_step(
                t,
                config,
                keymap,
                client_id,
                TermEvent::Mouse(event),
                false,
                now,
            ).core;
            let sel = t.core.state.list.selected;
            &&& after.out == t.core.out
            &&& event.kind == MouseEventKind::ScrollDown ==> after.state.list.selected == (if sel
                + 1 < t.core.state.procs.len() {
                sel + 1
            } else {
                sel as int
            })
            &&& event.kind == MouseEventKind::ScrollUp ==> after.state.list.selected == (if sel > 0 {
                sel - 1
            } else {
                0
            })
            &&& event.kind is Down && t.core.state.scope == Scope::Term ==> after.state.scope
                == Scope::Procs
        }),
{
    assert(crate::console::input::cell_coord(event.x) == event.x);
    assert(crate::console::input::cell_coord(event.y) == event.y);
}

/// A click on the row of a process selects it and takes the focus from the rows
/// below it; a second click on it within the time of a double click shows or
/// hides these rows. A click on one of these rows puts the focus there.
pub proof fn click_selects_the_row(core: CoreModel, i: usize, k: usize, now: u64, later: u64)
    requires
        i < core.state.procs.len(),
        now <= later,
    ensures
        ({
            let once = core.row_clicked(Some(ClickTarget::Proc(i)), now);
            let twice = once.row_clicked(Some(ClickTarget::Proc(i)), later);
            let fresh = CoreModel { last_click: None, ..core }.row_clicked(
                Some(ClickTarget::Proc(i)),
                now,
            );
            let below = core.row_clicked(
                Some(ClickTarget::Child { proc_idx: i, child_idx: k }),
                now,
            );
            &&& fresh.state.list.selected == i
            &&& fresh.state.procs[i as int].focused_child is None
            &&& fresh.state.procs[i as int].expanded == core.state.procs[i as int].expanded
            &&& fresh.out == core.out
            &&& once.state.list.selected == i
            &&& core.last_click is None && later - now < 400
                ==> twice.state.procs[i as int].expanded == !core.state.procs[i as int].expanded
            &&& core.last_click is None && later - now >= 400
                ==> twice.state.procs[i as int].expanded == core.state.procs[i as int].expanded
            &&& below.state.list.selected == i
            &&& below.state.procs[i as int].focused_child == Some(k)
            &&& below.out == core.out
            &&& core.row_clicked(None, now) == core
        }),
{
}

/// The screen has the size of the first client.
pub open spec fn sized_for_the_first(core: CoreModel) -> bool {
    core.clients.len() > 0 ==> core.screen_size == core.clients[0].size
}

/// A client that connects is the last one of the clients, and the screen has
/// the size of the first one.
pub proof fn connected_client_is_known(
    t: Turn,
    config: Config,
    keymap: Keymap,
    handle: ClientHandle,
    handled: bool,
    now: u64,
)
    ensures
        ({
            let after = server_step(
                t,
                config,
                keymap,
                ServerMessage::ClientConnected { handle },
                handled,
                now,
            ).core;
            &&& after.clients == t.core.clients.push(handle)
            &&& sized_for_the_first(after)
            &&& after.state == t.core.state
            &&& after.out == t.core.out
        }),
{
}

/// A client that goes is no client any more, every other one stays, and the
/// screen has the size of the first of them.
pub proof fn disconnected_client_is_forgotten(
    t: Turn,
    config: Config,
    keymap: Keymap,
    client_id: ClientId,
    handled: bool,
    now: u64,
    c: ClientHandle,
)
    ensures
        ({
            let after = server_step(
                t,
                config,
                keymap,
                ServerMessage::ClientDisconnected { client_id },
                handled,
                now,
            ).core;
            &&& after.clients.contains(c) <==> t.core.clients.contains(c) && c.id != client_id
            &&& sized_for_the_first(after)
        }),
{
    let keep = |h: ClientHandle| h.id != client_id;
    let left = t.core.clients.filter(keep);
    if t.core.clients.contains(c) && keep(c) {
        let i = choose|i: int| 0 <= i < t.core.clients.len() && t.core.clients[i] == c;
        t.core.clients.lemma_filter_contains(keep, i);
    }
    if left.contains(c) {
        let k = choose|k: int| 0 <= k < left.len() && left[k] == c;
        t.core.clients.lemma_filter_pred(keep, k);
        t.core.clients.lemma_filter_contains_rev(keep, c);
    }
}

/// No two clients have the same id.
pub open spec fn clients_differ(clients: Seq<ClientHandle>) -> bool {
    forall|i: int, j: int|
        0 <= i < j < clients.len() ==> (#[trigger] clients[i]).id != (#[trigger] clients[j]).id
}

proof fn lemma_resized(clients: Seq<ClientHandle>, i: int, size: Size, n: nat)
    requires
        clients_differ(clients),
        n <= i < clients.len(),
    ensures
        crate::console::input::resized_upto(clients, clients[i].id, size, n) == clients.update(
            i,
            ClientHandle { id: clients[i].id, size },
        ),
    decreases clients.len() - n,
{
    if n < i {
        assert(clients[n as int].id != clients[i].id);
        lemma_resized(clients, i, size, n + 1);
    }
}

/// A client whose terminal changes its size has the new size, the others keep
/// theirs, and the screen has the size of the first one.
pub proof fn resized_client_has_its_size(
    t: Turn,
    config: Config,
    keymap: Keymap,
    i: int,
    width: u16,
    height: u16,
    now: u64,
)
    requires
        clients_differ(t.core.clients),
        0 <= i < t.core.clients.len(),
        t.core.modal is None,
    ensures
        ({
            let id = t.core.clients[i].id;
            let after = input_step(
                t,
                config,
                keymap,
                id,
                TermEvent::Resize(width, height),
                false,
                now,
            ).core;
            &&& after.clients == t.core.clients.update(
                i,
                ClientHandle { id, size: Size { width, height } },
            )
            &&& sized_for_the_first(after)
            &&& after.state == t.core.state
            &&& after.out == t.core.out
        }),
{
    lemma_resized(t.core.clients, i, Size { width, height }, 0);
}

/// What a client types is handled as its input, and the client is forgotten
/// afterwards; whatever else it says changes nothing but who is heard.
pub proof fn client_is_heard(
    t: Turn,
    config: Config,
    keymap: Keymap,
    client_id: ClientId,
    event: TermEvent,
    handled: bool,
    now: u64,
)
    ensures
        ({
            let heard = Turn {
                core: CoreModel {
                    state: StateModel { client: Some(client_id), ..t.core.state },
                    ..t.core
                },
                ..t
            };
            let done = input_step(heard, config, keymap, client_id, event, handled, now);
            let after = server_step(
                t,
                config,
                keymap,
                ServerMessage::ClientMessage { client_id, msg: CltToSrv::Key(event) },
                handled,
                now,
            );
            &&& after.act == done.act
            &&& after.core == (CoreModel {
                state: StateModel { client: None, ..done.core.state },
                ..done.core
            })
        }),
{
}

/// The list takes the columns that it is given, the keys take three rows, a
/// zoomed terminal has everything but one row, and nothing is taken that is not
/// there.
pub proof fn parts_have_their_sizes(area: Rect, hide_keymap: bool, list_width: u16)
    requires
        area.fits(),
        area.width > list_width,
        area.height > 3,
    ensures
        ({
            let l = AppLayout::of(area, false, hide_keymap, list_width);
            let z = AppLayout::of(area, true, hide_keymap, list_width);
            let keys = if hide_keymap {
                0
            } else {
                3int
            };
            &&& l.procs == (Rect {
                width: list_width,
                height: (area.height - keys) as u16,
                ..area
            })
            &&& l.term == (Rect {
                x: (area.x + list_width) as u16,
                y: area.y,
                width: (area.width - list_width) as u16,
                height: (area.height - keys) as u16,
            })
            &&& l.keymap == (Rect {
                x: area.x,
                y: (area.y + area.height - keys) as u16,
                width: area.width,
                height: keys as u16,
            })
            &&& l.zoom_banner.height == 0
            &&& z.procs.width == 0
            &&& z.keymap.height == 0
            &&& z.zoom_banner == (Rect { height: 1, ..area })
            &&& z.term == (Rect {
                y: (area.y + 1) as u16,
                height: (area.height - 1) as u16,
                ..area
            })
        }),
{
}

} // verus!
