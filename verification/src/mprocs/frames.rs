//! Everything is drawn within the area that is meant for it.

use crate::console::frames::{
    deps_pane_is_drawn_in_its_area, lemma_block, lemma_shrunk, lemma_title_area,
};
use crate::console::list::{drawn_rows, ClickTarget};
use crate::console::pane::{bold_if, border_of, screen_cells, title_area};
use crate::mprocs::proc::children::ChildKind;
use crate::mprocs::proc::copy_mode::{CopyMode, Pos as TextPos};
use crate::mprocs::proc::view::ProcView;
use crate::mprocs::state::{shapes_of, State};
use crate::mprocs::ui_procs::{
    bullet, child_pill, chevron, dim, kind_label, pill_cols, proc_pill, row_area, row_attrs, waits,
    with_list_frame, with_pill, with_procs, with_row, with_rows, Pill,
};
use crate::mprocs::ui_term::{
    deps_of, focused_kind, label_area, scroll_label, selection_of, shown_screen, with_own_title,
    with_screen, with_term, with_title,
};
use crate::term::attrs::{plain_attrs, Attrs, Color};
use crate::term::frame::{
    lemma_line, lemma_next_change, painting_stays_in_its_area, text_stays_in_its_area,
};
use crate::term::grid::{fill_cells, text_width, GridView, Line};
use crate::term::rect::Rect;
use crate::term::screen::{Screen, VtTable};
use vstd::prelude::*;

verus! {

proof fn lemma_pill(g: GridView, before: GridView, part: Rect, pill: Pill, base: Attrs, area: Rect)
    requires
        g.differs_only_in(before, area),
        part.fits(),
        part.within(area),
    ensures
        with_pill(g, part, pill, base).differs_only_in(before, area),
{
    let w = pill_cols(part, pill.text);
    let right = Rect { x: (part.x + part.width - w) as u16, width: w as u16, ..part };
    let left = Rect { width: (part.width - w) as u16, ..part };
    assert forall|col: int, row: int| #![trigger right.covers(col, row)]
        right.covers(col, row) implies area.covers(col, row) by {
        assert(part.covers(col, row));
    }
    assert forall|col: int, row: int| #![trigger left.covers(col, row)]
        left.covers(col, row) implies area.covers(col, row) by {
        assert(part.covers(col, row));
    }
    let g1 = g.text(right, pill.text, pill.attrs);
    text_stays_in_its_area(g, right, pill.text, pill.attrs);
    lemma_next_change(g1, g, before, right, area);
    painting_stays_in_its_area(g1, fill_cells(left, ' ', base), left);
    lemma_next_change(with_pill(g, part, pill, base), g1, before, left, area);
}

proof fn lemma_row_area(area: Rect, k: int)
    requires
        area.fits(),
        area.width > 2,
        0 <= k < area.shrunk(1).height,
    ensures
        row_area(area, k).fits(),
        row_area(area, k).within(area),
{
}

proof fn lemma_row(
    g: GridView,
    before: GridView,
    area: Rect,
    procs: Seq<ProcView>,
    selected: usize,
    row: ClickTarget,
    k: int,
    now: u64,
)
    requires
        g.differs_only_in(before, area),
        area.fits(),
        area.width > 2,
        0 <= k < area.shrunk(1).height,
    ensures
        with_row(g, area, procs, selected, row, k, now).differs_only_in(before, area),
{
    lemma_row_area(area, k);
    let start = Line { grid: g, area: row_area(area, k) };
    match row {
        ClickTarget::Proc(i) => {
            let proc = procs[i as int];
            let chosen = i == selected && proc.focused_child is None;
            let attrs = row_attrs(chosen);
            lemma_line(start, bullet(chosen), attrs, before, area);
            let l1 = start.wrote(bullet(chosen), attrs);
            lemma_line(l1, chevron(proc), dim(attrs), before, area);
            let l2 = l1.wrote(chevron(proc), dim(attrs));
            lemma_line(l2, proc.cfg.name@, attrs, before, area);
            let l3 = l2.wrote(proc.cfg.name@, attrs);
            lemma_pill(
                l3.grid,
                before,
                l3.area,
                proc_pill(proc.status, attrs, waits(proc, procs)),
                attrs,
                area,
            );
        },
        ClickTarget::Child { proc_idx, child_idx } => {
            let proc = procs[proc_idx as int];
            let child = proc.children@[child_idx as int]@;
            let chosen = proc_idx == selected && proc.focused_child == Some(child_idx);
            let attrs = row_attrs(chosen);
            lemma_line(start, bullet(chosen), attrs, before, area);
            let l1 = start.wrote(bullet(chosen), attrs);
            lemma_line(l1, "  ├─ "@, dim(attrs), before, area);
            let l2 = l1.wrote("  ├─ "@, dim(attrs));
            lemma_line(l2, kind_label(child.kind), dim(attrs), before, area);
            let l3 = l2.wrote(kind_label(child.kind), dim(attrs));
            lemma_line(l3, child.name, attrs, before, area);
            let l4 = l3.wrote(child.name, attrs);
            lemma_pill(l4.grid, before, l4.area, child_pill(child.shown(now), attrs), attrs, area);
        },
    }
}

proof fn lemma_rows(
    g: GridView,
    before: GridView,
    area: Rect,
    procs: Seq<ProcView>,
    selected: usize,
    rows: Seq<ClickTarget>,
    n: nat,
    now: u64,
)
    requires
        g.differs_only_in(before, area),
        area.fits(),
        area.width > 2,
        n <= area.shrunk(1).height,
    ensures
        with_rows(g, area, procs, selected, rows, n, now).differs_only_in(before, area),
    decreases n,
{
    if n > 0 {
        lemma_rows(g, before, area, procs, selected, rows, (n - 1) as nat, now);
        lemma_row(
            with_rows(g, area, procs, selected, rows, (n - 1) as nat, now),
            before,
            area,
            procs,
            selected,
            rows[n - 1],
            n - 1,
            now,
        );
    }
}

proof fn lemma_list_frame(g: GridView, area: Rect, title: Seq<char>, active: bool, quitting: bool)
    requires
        area.fits(),
        area.width > 2,
        area.height > 0,
    ensures
        with_list_frame(g, area, title, active, quitting).differs_only_in(g, area),
{
    let top = title_area(area);
    let framed = g.block(area, border_of(active).chars_of(), plain_attrs());
    let titled = framed.text(top, title, bold_if(active));
    lemma_block(g, area, active);
    lemma_title_area(area);
    text_stays_in_its_area(framed, top, title, bold_if(active));
    lemma_next_change(titled, framed, g, top, area);
    if quitting {
        let rest = top.past(text_width(top, title) + 1);
        let attrs = Attrs { fg: Color::Black, bg: Color::Red, bold: true };
        assert forall|col: int, row: int| #![trigger rest.covers(col, row)]
            rest.covers(col, row) implies area.covers(col, row) by {
            assert(top.covers(col, row));
        }
        text_stays_in_its_area(titled, rest, "QUITTING"@, attrs);
        lemma_next_change(titled.text(rest, "QUITTING"@, attrs), titled, g, rest, area);
    }
}

/// The list of processes keeps to its area.
pub proof fn list_is_drawn_in_its_area(
    g: GridView,
    area: Rect,
    state: State,
    title: Seq<char>,
    now: u64,
)
    requires
        area.fits(),
        area.height > 0,
    ensures
        with_procs(g, area, state, title, now).differs_only_in(g, area),
{
    if area.width > 2 {
        let framed = with_list_frame(g, area, title, state.scope is Procs, state.quitting);
        let rows = drawn_rows(
            shapes_of(state.procs@),
            state.procs_list,
            area.shrunk(1).height as nat,
        );
        lemma_list_frame(g, area, title, state.scope is Procs, state.quitting);
        lemma_rows(
            framed,
            g,
            area,
            state.procs@,
            state.procs_list.selected,
            rows,
            rows.len(),
            now,
        );
    }
}

proof fn lemma_title(g: GridView, area: Rect, copy: CopyMode, active: bool)
    requires
        area.fits(),
        area.width >= 3,
        area.height >= 3,
    ensures
        ({
            let line = with_title(g, area, copy, active);
            &&& line.grid.differs_only_in(g, area)
            &&& line.area.fits()
            &&& line.area.within(area)
        }),
{
    lemma_block(g, area, active);
    lemma_title_area(area);
    let start = Line {
        grid: g.block(area, border_of(active).chars_of(), plain_attrs()),
        area: title_area(area),
    };
    lemma_line(start, "Terminal"@, bold_if(active), g, area);
    let l1 = start.wrote("Terminal"@, bold_if(active));
    lemma_line(l1, " "@, plain_attrs(), g, area);
    lemma_line(
        l1.wrote(" "@, plain_attrs()),
        "COPY MODE"@,
        Attrs { fg: Color::Black, bg: Color::Yellow, bold: true },
        g,
        area,
    );
}

proof fn lemma_own_title(line: Line, before: GridView, area: Rect, title: Seq<char>)
    requires
        line.grid.differs_only_in(before, area),
        line.area.fits(),
        line.area.within(area),
    ensures
        with_own_title(line, title).differs_only_in(before, area),
{
    let attrs = Attrs { fg: Color::BrightBlack, ..plain_attrs() };
    lemma_line(line, " "@, plain_attrs(), before, area);
    let l1 = line.wrote(" "@, plain_attrs());
    lemma_line(l1, title, attrs, before, area);
    lemma_line(l1.wrote(title, attrs), " "@, plain_attrs(), before, area);
}

/// The label that tells how far a screen is scrolled up fits in the first
/// line of it.
pub open spec fn label_inside(inner: Rect, screen: Screen) -> bool {
    screen.scrollback > 0 ==> scroll_label(screen.scrollback).len() <= inner.width
}

proof fn lemma_screen(
    g: GridView,
    before: GridView,
    area: Rect,
    screen: Screen,
    selection: Option<(TextPos, TextPos)>,
)
    requires
        g.differs_only_in(before, area),
        area.fits(),
        area.width >= 3,
        area.height >= 3,
        label_inside(area.shrunk(1), screen),
    ensures
        with_screen(g, screen, area.shrunk(1), selection).differs_only_in(before, area),
{
    let inner = area.shrunk(1);
    let f = screen_cells(g, screen, inner, selection, true);
    lemma_shrunk(area);
    painting_stays_in_its_area(g, f, inner);
    lemma_next_change(g.painted(f), g, before, inner, area);
    if screen.scrollback > 0 {
        let label = scroll_label(screen.scrollback);
        let place = label_area(inner, screen.scrollback);
        let attrs = Attrs { fg: Color::Black, bg: Color::BrightYellow, ..plain_attrs() };
        text_stays_in_its_area(g.painted(f), place, label, attrs);
        lemma_next_change(g.painted(f).text(place, label, attrs), g.painted(f), before, place, area);
    }
}

/// The terminal of the selected process keeps to its area, unless the area is
/// too narrow for a pane of dependencies or for the label of a screen that is
/// scrolled up.
pub proof fn term_is_drawn_in_its_area(g: GridView, area: Rect, state: State, vts: VtTable)
    requires
        area.fits(),
        state.current() matches Some(proc) ==> {
            &&& focused_kind(proc) == Some(ChildKind::Deps) ==> area.width >= 5
            &&& vts.screen(proc.shown_vt()) matches Some(live) ==> label_inside(
                area.shrunk(1),
                shown_screen(proc.copy_mode, live),
            )
        },
    ensures
        with_term(g, area, state, vts).differs_only_in(g, area),
{
    if area.width >= 3 && area.height >= 3 {
        let active = !(state.scope is Procs);
        if let Some(proc) = state.current() {
            if focused_kind(proc) == Some(ChildKind::Deps) {
                deps_pane_is_drawn_in_its_area(
                    g,
                    area,
                    active,
                    proc.cfg.name@,
                    deps_of(proc, state.procs@),
                );
            } else {
                let line = with_title(g, area, proc.copy_mode, active);
                lemma_title(g, area, proc.copy_mode, active);
                if let Some(live) = vts.screen(proc.shown_vt()) {
                    lemma_own_title(line, g, area, live.title@);
                    lemma_screen(
                        with_own_title(line, live.title@),
                        g,
                        area,
                        shown_screen(proc.copy_mode, live),
                        selection_of(proc.copy_mode),
                    );
                }
            }
        }
    }
}

} // verus!
