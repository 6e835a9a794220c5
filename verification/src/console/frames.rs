//! Everything is drawn within the area that is meant for it.

use crate::console::dashboard::layout::{names_of, placed_nodes, resolved_deps, NodeBox};
use crate::console::dashboard::render::{
    edge_cells, has_room, label_cells, node_base, node_label, screen_col, screen_row, status_look,
    with_dashboard, with_node, with_nodes,
};
use crate::console::pane::{
    bold_if, border_of, dep_visual, first_line, name_columns, screen_cells, shown_deps, title_area,
    with_dep_row, with_dep_rows, with_deps_pane, with_frame, DepModel,
};
use crate::console::proc::child::ChildKind;
use crate::console::state::StateModel;
use crate::console::ui_term::{deps_of, with_shown_screen, with_term, with_title};
use crate::term::attrs::{plain_attrs, Attrs, Color};
use crate::term::frame::{
    lemma_line, lemma_next_change, painting_stays_in_its_area, text_stays_in_its_area,
};
use crate::term::grid::{block_cells, GridView, Line};
use crate::term::rect::Rect;
use crate::term::screen::{Screen, VtTable};
use vstd::prelude::*;

verus! {

pub proof fn lemma_block(g: GridView, area: Rect, active: bool)
    ensures
        g.block(area, border_of(active).chars_of(), plain_attrs()).differs_only_in(g, area),
{
    painting_stays_in_its_area(
        g,
        block_cells(area, border_of(active).chars_of(), plain_attrs()),
        area,
    );
}

pub proof fn lemma_title_area(area: Rect)
    requires
        area.fits(),
        area.width >= 3,
        area.height >= 1,
    ensures
        title_area(area).fits(),
        title_area(area).within(area),
{
}

pub proof fn lemma_shrunk(area: Rect)
    requires
        area.fits(),
        area.width >= 3,
        area.height >= 3,
    ensures
        area.shrunk(1).fits(),
        area.shrunk(1).within(area),
        first_line(area.shrunk(1)).fits(),
        first_line(area.shrunk(1)).within(area),
{
}

proof fn lemma_frame(g: GridView, area: Rect, title: Seq<char>, active: bool)
    requires
        area.fits(),
        area.width >= 3,
        area.height >= 3,
    ensures
        with_frame(g, area, title, active).differs_only_in(g, area),
{
    let framed = g.block(area, border_of(active).chars_of(), plain_attrs());
    lemma_block(g, area, active);
    lemma_title_area(area);
    text_stays_in_its_area(framed, title_area(area), title, bold_if(active));
    lemma_next_change(with_frame(g, area, title, active), framed, g, title_area(area), area);
}

proof fn lemma_dep_row(
    g: GridView,
    before: GridView,
    area: Rect,
    inner: Rect,
    name_w: int,
    i: int,
    dep: DepModel,
)
    requires
        g.differs_only_in(before, area),
        area.fits(),
        inner == area.shrunk(1),
        area.width >= 5,
        area.height >= 3,
        0 <= i,
        i + 2 < inner.height,
        0 <= name_w,
        name_w == 0 || name_w <= inner.width - 20,
    ensures
        with_dep_row(g, inner, name_w, i, dep).differs_only_in(before, area),
{
    let y = (inner.y + 2 + i) as u16;
    let look = dep_visual(dep.status);
    let sign = Rect { x: inner.x, y, width: 3, height: 1 };
    let sign_attrs = Attrs { fg: look.color, bold: true, ..plain_attrs() };
    let g1 = g.text(sign, look.symbol, sign_attrs);
    text_stays_in_its_area(g, sign, look.symbol, sign_attrs);
    lemma_next_change(g1, g, before, sign, area);
    let name = Rect { x: (inner.x + 3) as u16, y, width: name_w as u16, height: 1 };
    let g2 = g1.text(name, dep.name, plain_attrs());
    text_stays_in_its_area(g1, name, dep.name, plain_attrs());
    lemma_next_change(g2, g1, before, name, area);
    if 4 + name_w < inner.width {
        let word = Rect {
            x: (inner.x + 4 + name_w) as u16,
            y,
            width: (inner.width - 4 - name_w) as u16,
            height: 1,
        };
        let word_attrs = Attrs { fg: look.color, ..plain_attrs() };
        text_stays_in_its_area(g2, word, look.text, word_attrs);
        lemma_next_change(g2.text(word, look.text, word_attrs), g2, before, word, area);
    }
}

proof fn lemma_dep_rows(
    g: GridView,
    before: GridView,
    area: Rect,
    deps: Seq<DepModel>,
    n: nat,
)
    requires
        g.differs_only_in(before, area),
        area.fits(),
        area.width >= 5,
        area.height >= 3,
        n <= shown_deps(deps, area.shrunk(1).height as int),
    ensures
        with_dep_rows(g, area.shrunk(1), deps, n).differs_only_in(before, area),
    decreases n,
{
    if n > 0 {
        let inner = area.shrunk(1);
        lemma_dep_rows(g, before, area, deps, (n - 1) as nat);
        lemma_dep_row(
            with_dep_rows(g, inner, deps, (n - 1) as nat),
            before,
            area,
            inner,
            name_columns(deps, inner.width as int),
            n - 1,
            deps[n - 1],
        );
    }
}

/// The pane of dependencies keeps to its area, unless that is too narrow for
/// the sign in front of a name.
pub proof fn deps_pane_is_drawn_in_its_area(
    g: GridView,
    area: Rect,
    active: bool,
    name: Seq<char>,
    deps: Seq<DepModel>,
)
    requires
        area.fits(),
        area.width >= 5,
        area.height >= 3,
    ensures
        with_deps_pane(g, area, active, name, deps).differs_only_in(g, area),
{
    let inner = area.shrunk(1);
    let framed = with_frame(g, area, "Dependencies"@, active);
    let heading = "Dependencies of "@ + name;
    let headed = framed.text(first_line(inner), heading, bold_if(true));
    lemma_frame(g, area, "Dependencies"@, active);
    lemma_shrunk(area);
    text_stays_in_its_area(framed, first_line(inner), heading, bold_if(true));
    lemma_next_change(headed, framed, g, first_line(inner), area);
    lemma_dep_rows(headed, g, area, deps, shown_deps(deps, inner.height as int));
}

proof fn lemma_title(g: GridView, before: GridView, area: Rect, title: Seq<char>, active: bool)
    requires
        g.differs_only_in(before, area),
        area.fits(),
        area.width >= 3,
        area.height >= 3,
    ensures
        with_title(g, area, title, active).differs_only_in(before, area),
{
    lemma_title_area(area);
    let start = Line { grid: g, area: title_area(area) };
    lemma_line(start, "Terminal"@, bold_if(active), before, area);
    let line = start.wrote("Terminal"@, bold_if(active));
    if title.len() > 0 {
        lemma_line(line, " "@, plain_attrs(), before, area);
        lemma_line(
            line.wrote(" "@, plain_attrs()),
            title,
            Attrs { fg: Color::BrightBlack, ..plain_attrs() },
            before,
            area,
        );
    }
}

proof fn lemma_shown_screen(g: GridView, before: GridView, area: Rect, screen: Screen, active: bool)
    requires
        g.differs_only_in(before, area),
        area.fits(),
        area.width >= 3,
        area.height >= 3,
    ensures
        with_shown_screen(g, area, screen, active).differs_only_in(before, area),
{
    let inner = area.shrunk(1);
    let titled = with_title(g, area, screen.title@, active);
    let f = screen_cells(titled, screen, inner, None, false);
    lemma_title(g, before, area, screen.title@, active);
    lemma_shrunk(area);
    painting_stays_in_its_area(titled, f, inner);
    lemma_next_change(titled.painted(f), titled, before, inner, area);
}

/// The terminal of the selected process keeps to its area; a pane of
/// dependencies does unless the area is too narrow for it.
pub proof fn term_is_drawn_in_its_area(g: GridView, area: Rect, state: StateModel, vts: VtTable)
    requires
        area.fits(),
        state.current() matches Some(proc) && proc.focused_kind() == Some(ChildKind::Deps)
            ==> area.width >= 5,
    ensures
        with_term(g, area, state, vts).differs_only_in(g, area),
{
    if area.width >= 3 && area.height >= 3 {
        let active = !(state.scope is Procs);
        if let Some(proc) = state.current() {
            if proc.focused_kind() == Some(ChildKind::Deps) {
                deps_pane_is_drawn_in_its_area(
                    g,
                    area,
                    active,
                    proc.name,
                    deps_of(proc, state.procs),
                );
            } else {
                lemma_block(g, area, active);
                if let Some(screen) = vts.screen(proc.shown_vt()) {
                    lemma_shown_screen(
                        g.block(area, border_of(active).chars_of(), plain_attrs()),
                        g,
                        area,
                        screen,
                        active,
                    );
                }
            }
        }
    }
}

proof fn lemma_nodes(
    g: GridView,
    before: GridView,
    area: Rect,
    inner: Rect,
    nodes: Seq<NodeBox>,
    n: nat,
    state: StateModel,
)
    requires
        g.differs_only_in(before, area),
        inner.within(area),
        n <= nodes.len(),
    ensures
        with_nodes(g, inner, nodes, n, state).differs_only_in(before, area),
    decreases n,
{
    if n > 0 {
        lemma_nodes(g, before, area, inner, nodes, (n - 1) as nat, state);
        let node = nodes[n - 1];
        if node.proc_idx < state.procs.len() {
            let g1 = with_nodes(g, inner, nodes, (n - 1) as nat, state);
            let proc = state.procs[node.proc_idx as int];
            let (glyph, color) = status_look(proc, state.procs);
            let f = label_cells(
                inner,
                screen_col(inner, node, state.dashboard.scroll_col),
                screen_row(inner, node, state.dashboard.scroll_row),
                node_label(glyph, proc.name),
                node_base(state.dashboard.focused_node == Some(node.proc_idx)),
                color,
            );
            painting_stays_in_its_area(g1, f, inner);
            lemma_next_change(with_node(g1, inner, node, state), g1, before, inner, area);
        }
    }
}

/// However far it is scrolled, the dashboard keeps to its area.
pub proof fn dashboard_is_drawn_in_its_area(g: GridView, area: Rect, state: StateModel)
    requires
        area.fits(),
    ensures
        with_dashboard(g, area, state).differs_only_in(g, area),
{
    if has_room(area) {
        let framed = with_frame(g, area, "Dashboard"@, !(state.scope is Procs));
        let inner = area.shrunk(1);
        lemma_frame(g, area, "Dashboard"@, !(state.scope is Procs));
        lemma_shrunk(area);
        if state.procs.len() == 0 {
            let attrs = Attrs { fg: Color::BrightBlack, ..plain_attrs() };
            text_stays_in_its_area(framed, first_line(inner), "No processes"@, attrs);
            lemma_next_change(
                framed.text(first_line(inner), "No processes"@, attrs),
                framed,
                g,
                first_line(inner),
                area,
            );
        } else {
            let nodes = placed_nodes(names_of(state.procs), resolved_deps(state.procs));
            let f = edge_cells(
                inner,
                nodes,
                crate::console::dashboard::layout::edges_of(resolved_deps(state.procs)),
                state.dashboard.scroll_col,
                state.dashboard.scroll_row,
            );
            painting_stays_in_its_area(framed, f, inner);
            lemma_next_change(framed.painted(f), framed, g, inner, area);
            lemma_nodes(framed.painted(f), g, area, inner, nodes, nodes.len(), state);
        }
    }
}

} // verus!
