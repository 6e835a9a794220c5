//! What the console makes of its clients: keys, the mouse and connections.

use crate::config::config::{Config, OnClientExit};
use crate::console::action::ClientId;
use crate::console::app::{turn, Core, LoopAction};
use crate::console::app_layout::AppLayout;
use crate::console::effect::{TaskOp, TaskOpModel};
use crate::console::keymap::{bound, Keymap};
use crate::console::list::{clicked, ClickTarget};
use crate::console::state::{shapes_of, Scope, StateModel};
use crate::console::turn::{step, ClientHandle, CoreModel, Modal, Turn};
use crate::console::ui_procs::{procs_check_hit, procs_get_clicked_index};
use crate::console::ui_term::term_check_hit;
use crate::kernel::screen_cmd::TaskScreenCmd;
use crate::protocol::rpc::DkRequest;
use crate::term::key::{Key, KeyEventKind};
use crate::term::mouse::{MouseButton, MouseEvent, MouseEventKind};
use crate::term::rect::{Rect, Size};
use vstd::prelude::*;

verus! {

/// What happens at the terminal of a client.
pub enum TermEvent {
    Key(Key),
    Mouse(MouseEvent),
    /// The new width and height.
    Resize(u16, u16),
    FocusGained,
    FocusLost,
    Paste(String),
}

/// A message of a client.
pub enum CltToSrv {
    Init { size: Size },
    Key(TermEvent),
    Rpc(DkRequest),
}

pub enum ServerMessage {
    ClientMessage { client_id: ClientId, msg: CltToSrv },
    ClientConnected { handle: ClientHandle },
    ClientDisconnected { client_id: ClientId },
}

/// A message that the console does not expect.
#[derive(Clone, Copy, Debug, PartialEq, Eq, Structural)]
pub enum UnexpectedMessage {
    Init,
    Rpc,
}

impl UnexpectedMessage {
    pub fn message(&self) -> (r: &'static str)
        ensures
            r@ == (match *self {
                UnexpectedMessage::Init => "Init message is unexpected."@,
                UnexpectedMessage::Rpc => "Rpc message is unexpected in app."@,
            }),
    {
        match self {
            UnexpectedMessage::Init => "Init message is unexpected.",
            UnexpectedMessage::Rpc => "Rpc message is unexpected in app.",
        }
    }
}

/// Two clicks on a process within this time are a double click.
pub const DOUBLE_CLICK_MS: u64 = 400;

/// Where everything is on the screen.
pub open spec fn layout_of(core: CoreModel, config: Config) -> AppLayout {
    AppLayout::of(
        Rect { x: 0, y: 0, width: core.screen_size.width, height: core.screen_size.height },
        core.state.scope is TermZoom,
        core.state.hide_keymap,
        config.proc_list_width,
    )
}

/// A coordinate of the mouse as one of the screen.
pub open spec fn cell_coord(n: i32) -> u16 {
    #[verifier::truncate]
    (n as u16)
}

pub open spec fn is_double(last: Option<(u64, usize)>, now: u64, idx: usize) -> bool {
    match last {
        Some((at, i)) => i == idx && now - at < DOUBLE_CLICK_MS,
        None => false,
    }
}

impl CoreModel {
    /// A row of the list is clicked: it is selected, and a process that is
    /// clicked twice shows or hides its rows.
    pub open spec fn row_clicked(self, target: Option<ClickTarget>, now: u64) -> CoreModel {
        match target {
            Some(ClickTarget::Proc(i)) => {
                let selected = self.state.with_focus(i as int, None).selecting(i);
                if is_double(self.last_click, now, i) {
                    CoreModel { state: selected.toggled(i as int), last_click: None, ..self }
                } else {
                    CoreModel { state: selected, last_click: Some((now, i)), ..self }
                }
            },
            Some(ClickTarget::Child { proc_idx, child_idx }) => CoreModel {
                state: self.state.selecting(proc_idx).with_focus(
                    proc_idx as int,
                    Some(child_idx),
                ),
                last_click: None,
                ..self
            },
            None => self,
        }
    }

    /// Something happens with the mouse over the list.
    pub open spec fn list_mouse(self, procs: Rect, event: MouseEvent, now: u64) -> CoreModel {
        let state = self.state;
        let selected = state.list.selected;
        match event.kind {
            MouseEventKind::Down(MouseButton::Left) => self.row_clicked(
                clicked(
                    procs,
                    cell_coord(event.x),
                    cell_coord(event.y),
                    shapes_of(state.procs),
                    selected,
                ),
                now,
            ),
            MouseEventKind::ScrollDown => if selected + 1 < state.procs.len() {
                self.with_state(state.selecting((selected + 1) as usize))
            } else {
                self
            },
            MouseEventKind::ScrollUp => if selected > 0 {
                self.with_state(state.selecting((selected - 1) as usize))
            } else {
                self
            },
            _ => self,
        }
    }

    /// The first client of an id has a terminal of another size.
    pub open spec fn resized(self, id: ClientId, size: Size) -> CoreModel {
        CoreModel { clients: resized_upto(self.clients, id, size, 0), ..self }.sized()
    }
}

/// The clients from the `n`-th on are searched for the first one of an id,
/// which gets another size.
pub open spec fn resized_upto(
    clients: Seq<ClientHandle>,
    id: ClientId,
    size: Size,
    n: nat,
) -> Seq<ClientHandle>
    decreases clients.len() - n,
{
    if n >= clients.len() {
        clients
    } else if clients[n as int].id == id {
        clients.update(n as int, ClientHandle { id, size })
    } else {
        resized_upto(clients, id, size, n + 1)
    }
}

/// Something happens with the mouse.
pub open spec fn mouse_step(t: Turn, config: Config, event: MouseEvent, now: u64) -> Turn {
    let state = t.core.state;
    let layout = layout_of(t.core, config);
    let term = layout.term.shrunk(1);
    let (x, y) = (cell_coord(event.x), cell_coord(event.y));
    let procs = layout.procs;
    if term.covers(x as int, y as int) {
        t.with_state(
            if state.scope is Procs && event.kind is Down {
                StateModel { scope: Scope::Term, ..state }
            } else {
                state
            },
        ).told(
            TaskOpModel::Screen(TaskScreenCmd::Mouse { event: event.seen_from(term) }),
        ).rendered()
    } else if procs.x < x && procs.x + procs.width > x + 1 && procs.y < y && procs.y
        + procs.height > y + 1 {
        let focused = t.core.with_state(
            if state.scope is Term && event.kind is Down {
                StateModel { scope: Scope::Procs, ..state }
            } else {
                state
            },
        );
        t.with_core(focused.list_mouse(procs, event, now)).rendered()
    } else {
        t.rendered()
    }
}

/// A key is pressed: what it is bound to is done; in the terminal a key that
/// is not bound is typed into the process.
pub open spec fn key_step(t: Turn, config: Config, keymap: Keymap, key: Key) -> Turn {
    let pressed = Key::press(key.code, key.mods);
    match bound(keymap@, t.core.state.keymap_group(), pressed) {
        Some(action) => step(t, config, action),
        None => if t.core.state.scope is Procs {
            t
        } else {
            t.told(TaskOpModel::Input(pressed))
        },
    }
}

/// Nothing is made of a key that is released.
pub open spec fn is_release(event: TermEvent) -> bool {
    event matches TermEvent::Key(key) && key.kind is Release
}

fn released(event: &TermEvent) -> (r: bool)
    ensures
        r == is_release(*event),
{
    match event {
        TermEvent::Key(key) => key.kind == KeyEventKind::Release,
        _ => false,
    }
}

/// What the console makes of an event. `handled` tells whether the window over
/// the others, if there is one, has dealt with it.
pub open spec fn input_step(
    t: Turn,
    config: Config,
    keymap: Keymap,
    client_id: ClientId,
    event: TermEvent,
    handled: bool,
    now: u64,
) -> Turn {
    if is_release(event) {
        t
    } else if t.core.modal is Some && handled {
        t
    } else {
        match event {
            TermEvent::Key(key) => key_step(t, config, keymap, key),
            TermEvent::Mouse(mouse) => mouse_step(t, config, mouse, now),
            TermEvent::Resize(width, height) => t.with_core(
                t.core.resized(client_id, Size { width, height }),
            ).rendered(),
            _ => t,
        }
    }
}

/// The mouse is within the range that can be seen from the screen.
pub open spec fn event_in_range(event: TermEvent) -> bool {
    event matches TermEvent::Mouse(mouse) ==> mouse.on_screen()
}

impl Core {
    fn click_row(&mut self, target: Option<ClickTarget>, now: u64)
        requires
            old(self).wf(),
        ensures
            final(self).wf(),
            final(self)@ == old(self)@.row_clicked(target, now),
            final(self).vts == old(self).vts,
    {
        match target {
            Some(ClickTarget::Proc(idx)) => {
                self.state.set_focus(idx, None);
                self.state.select_proc(idx);
                let double = match self.last_proc_click {
                    Some((at, i)) => i == idx && (now < at || now - at < DOUBLE_CLICK_MS),
                    None => false,
                };
                if double {
                    self.state.toggle_children(idx);
                    self.last_proc_click = None;
                } else {
                    self.last_proc_click = Some((now, idx));
                }
            },
            Some(ClickTarget::Child { proc_idx, child_idx }) => {
                self.last_proc_click = None;
                self.state.select_proc(proc_idx);
                self.state.set_focus(proc_idx, Some(child_idx));
            },
            None => {},
        }
    }

    fn handle_list_mouse(&mut self, procs: Rect, event: MouseEvent, now: u64)
        requires
            old(self).wf(),
        ensures
            final(self).wf(),
            final(self)@ == old(self)@.list_mouse(procs, event, now),
            final(self).vts == old(self).vts,
    {
        match event.kind {
            MouseEventKind::Down(MouseButton::Left) => {
                let x: u16 = #[verifier::truncate]
                (event.x as u16);
                let y: u16 = #[verifier::truncate]
                (event.y as u16);
                let target = procs_get_clicked_index(procs, x, y, &self.state);
                self.click_row(target, now);
            },
            MouseEventKind::ScrollDown => {
                let selected: usize = self.state.selected();
                let count: usize = self.state.procs.len();
                if count > 0 && selected < count - 1 {
                    self.state.select_proc(selected + 1);
                }
            },
            MouseEventKind::ScrollUp => {
                let selected: usize = self.state.selected();
                if selected > 0 {
                    self.state.select_proc(selected - 1);
                }
            },
            _ => {},
        }
    }

    fn handle_mouse(
        &mut self,
        act: &mut LoopAction,
        config: &Config,
        event: MouseEvent,
        now: u64,
    )
        requires
            old(self).wf(),
            config.wf(),
            event.on_screen(),
        ensures
            final(self).wf(),
            turn(*final(self), *final(act)) == mouse_step(
                turn(*old(self), *old(act)),
                *config,
                event,
                now,
            ),
            final(self).vts == old(self).vts,
    {
        let layout = self.get_layout(config);
        let term = layout.term_area();
        let x: u16 = #[verifier::truncate]
        (event.x as u16);
        let y: u16 = #[verifier::truncate]
        (event.y as u16);
        let down = match event.kind {
            MouseEventKind::Down(_) => true,
            _ => false,
        };
        if term_check_hit(term, x, y) {
            if down && self.state.scope == Scope::Procs {
                self.state.scope = Scope::Term;
            }
            let local = event.translate(term);
            self.tell_current(act, TaskOp::Screen(TaskScreenCmd::Mouse { event: local }));
        } else if procs_check_hit(layout.procs, x, y) {
            if down && self.state.scope == Scope::Term {
                self.state.scope = Scope::Procs;
            }
            self.handle_list_mouse(layout.procs, event, now);
        }
        act.render();
    }

    fn resize_client(&mut self, id: ClientId, size: Size)
        requires
            old(self).wf(),
        ensures
            final(self).wf(),
            final(self)@ == old(self)@.resized(id, size),
            final(self).vts == old(self).vts,
    {
        let ghost all = self.clients@;
        let mut i: usize = 0;
        while i < self.clients.len() && self.clients[i].id != id
            invariant
                i <= self.clients@.len(),
                *self == *old(self),
                all == self.clients@,
                resized_upto(all, id, size, 0) == resized_upto(all, id, size, i as nat),
            decreases self.clients@.len() - i,
        {
            i += 1;
        }
        if i < self.clients.len() {
            self.clients[i] = ClientHandle { id, size };
        }
        self.update_screen_size();
    }

    fn handle_key(&mut self, act: &mut LoopAction, config: &Config, keymap: &Keymap, key: Key)
        requires
            old(self).wf(),
            config.wf(),
        ensures
            final(self).wf(),
            turn(*final(self), *final(act)) == key_step(
                turn(*old(self), *old(act)),
                *config,
                *keymap,
                key,
            ),
            final(self).vts == old(self).vts,
    {
        let pressed = Key::new(key.code, key.mods);
        let group = self.state.get_keymap_group();
        match keymap.resolve(group, &pressed) {
            Some(action) => self.handle_event(act, config, action),
            None => {
                if self.state.scope.in_term() {
                    self.tell_current(act, TaskOp::Input(pressed));
                }
            },
        }
    }

    /// Takes an event at the terminal of a client. `handled` tells whether the
    /// window over the others has dealt with it.
    pub fn handle_input(
        &mut self,
        act: &mut LoopAction,
        config: &Config,
        keymap: &Keymap,
        client_id: ClientId,
        event: TermEvent,
        handled: bool,
        now: u64,
    )
        requires
            old(self).wf(),
            config.wf(),
            event_in_range(event),
        ensures
            final(self).wf(),
            turn(*final(self), *final(act)) == input_step(
                turn(*old(self), *old(act)),
                *config,
                *keymap,
                client_id,
                event,
                handled,
                now,
            ),
            final(self).vts == old(self).vts,
    {
        if released(&event) {
            return;
        }
        if self.modal.is_some() && handled {
            return;
        }
        match event {
            TermEvent::Key(key) => self.handle_key(act, config, keymap, key),
            TermEvent::Mouse(mouse) => self.handle_mouse(act, config, mouse, now),
            TermEvent::Resize(width, height) => {
                self.resize_client(client_id, Size { width, height });
                act.render();
            },
            TermEvent::FocusGained => {},
            TermEvent::FocusLost => {},
            TermEvent::Paste(_) => {},
        }
    }
}

/// The turn with the client whose message is handled.
pub open spec fn for_client(t: Turn, client: Option<ClientId>) -> Turn {
    t.with_state(StateModel { client, ..t.core.state })
}

/// What the console makes of a message of a client.
pub open spec fn client_step(
    t: Turn,
    config: Config,
    keymap: Keymap,
    client_id: ClientId,
    msg: CltToSrv,
    handled: bool,
    now: u64,
) -> Turn {
    let named = for_client(t, Some(client_id));
    match msg {
        CltToSrv::Key(event) => for_client(
            input_step(named, config, keymap, client_id, event, handled, now),
            None,
        ),
        _ => named,
    }
}

pub open spec fn unexpected(msg: CltToSrv) -> Option<UnexpectedMessage> {
    match msg {
        CltToSrv::Init { .. } => Some(UnexpectedMessage::Init),
        CltToSrv::Rpc(_) => Some(UnexpectedMessage::Rpc),
        CltToSrv::Key(_) => None,
    }
}

/// What the console makes of news of its clients. When the last one goes, the
/// processes are stopped if that is configured.
pub open spec fn server_step(
    t: Turn,
    config: Config,
    keymap: Keymap,
    msg: ServerMessage,
    handled: bool,
    now: u64,
) -> Turn {
    match msg {
        ServerMessage::ClientMessage { client_id, msg } => client_step(
            t,
            config,
            keymap,
            client_id,
            msg,
            handled,
            now,
        ),
        ServerMessage::ClientConnected { handle } => t.with_core(
            CoreModel { clients: t.core.clients.push(handle), ..t.core }.sized(),
        ).rendered(),
        ServerMessage::ClientDisconnected { client_id } => {
            let left = t.core.without_client(client_id);
            t.with_core(
                if left.clients.len() == 0 && config.on_client_exit is StopAll {
                    left.quitting()
                } else {
                    left
                },
            ).rendered()
        },
    }
}

pub open spec fn server_message_in_range(msg: ServerMessage) -> bool {
    msg matches ServerMessage::ClientMessage { msg: CltToSrv::Key(event), .. } ==> event_in_range(
        event,
    )
}

impl Core {
    /// The window over the others, if it is to deal with a message first, and
    /// what it is to deal with.
    pub fn input_to_modal<'a>(&self, msg: &'a ServerMessage) -> (r: Option<(Modal, &'a TermEvent)>)
        ensures
            match r {
                Some((modal, event)) => {
                    &&& self@.modal == Some(modal)
                    &&& *msg matches ServerMessage::ClientMessage { msg: CltToSrv::Key(e), .. }
                        && e == *event
                    &&& !is_release(*event)
                },
                None => self@.modal is None || (*msg matches ServerMessage::ClientMessage {
                    msg: CltToSrv::Key(e),
                    ..
                } ==> is_release(e)),
            },
    {
        match (self.modal, msg) {
            (Some(modal), ServerMessage::ClientMessage { msg: CltToSrv::Key(event), .. }) => {
                if released(event) {
                    None
                } else {
                    Some((modal, event))
                }
            },
            _ => None,
        }
    }

    pub fn handle_client_msg(
        &mut self,
        act: &mut LoopAction,
        config: &Config,
        keymap: &Keymap,
        client_id: ClientId,
        msg: CltToSrv,
        handled: bool,
        now: u64,
    ) -> (r: Result<(), UnexpectedMessage>)
        requires
            old(self).wf(),
            config.wf(),
            msg matches CltToSrv::Key(event) ==> event_in_range(event),
        ensures
            final(self).wf(),
            turn(*final(self), *final(act)) == client_step(
                turn(*old(self), *old(act)),
                *config,
                *keymap,
                client_id,
                msg,
                handled,
                now,
            ),
            match r {
                Ok(()) => unexpected(msg) is None,
                Err(e) => unexpected(msg) == Some(e),
            },
            final(self).vts == old(self).vts,
    {
        self.state.current_client_id = Some(client_id);
        match msg {
            CltToSrv::Init { .. } => Err(UnexpectedMessage::Init),
            CltToSrv::Key(event) => {
                self.handle_input(act, config, keymap, client_id, event, handled, now);
                self.state.current_client_id = None;
                Ok(())
            },
            CltToSrv::Rpc(_) => Err(UnexpectedMessage::Rpc),
        }
    }

    pub fn handle_server_message(
        &mut self,
        act: &mut LoopAction,
        config: &Config,
        keymap: &Keymap,
        msg: ServerMessage,
        handled: bool,
        now: u64,
    ) -> (r: Result<(), UnexpectedMessage>)
        requires
            old(self).wf(),
            config.wf(),
            server_message_in_range(msg),
        ensures
            final(self).wf(),
            turn(*final(self), *final(act)) == server_step(
                turn(*old(self), *old(act)),
                *config,
                *keymap,
                msg,
                handled,
                now,
            ),
            match r {
                Ok(()) => msg matches ServerMessage::ClientMessage { msg, .. } ==> unexpected(
                    msg,
                ) is None,
                Err(e) => msg matches ServerMessage::ClientMessage { msg, .. } && unexpected(msg)
                    == Some(e),
            },
            final(self).vts == old(self).vts,
    {
        match msg {
            ServerMessage::ClientMessage { client_id, msg } => self.handle_client_msg(
                act,
                config,
                keymap,
                client_id,
                msg,
                handled,
                now,
            ),
            ServerMessage::ClientConnected { handle } => {
                self.clients.push(handle);
                self.update_screen_size();
                act.render();
                Ok(())
            },
            ServerMessage::ClientDisconnected { client_id } => {
                self.drop_client(client_id);
                let stop = match config.on_client_exit {
                    OnClientExit::StopAll => true,
                    OnClientExit::Detach => false,
                };
                if self.clients.len() == 0 && stop {
                    self.begin_quit();
                }
                act.render();
                Ok(())
            },
        }
    }
}

} // verus!
