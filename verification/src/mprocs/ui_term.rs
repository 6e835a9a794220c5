//! Draws the terminal of the selected process.

use crate::console::pane::{
    bold_if, border_of, countable, dep_rows_view, draw_deps_pane, draw_frame, draw_screen,
    screen_cells, title_area, with_deps_pane, DepModel, DepRow,
};
use crate::mprocs::proc::children::ChildKind;
use crate::mprocs::proc::copy_mode::{CopyMode, Pos as TextPos};
use crate::mprocs::proc::view::{ProcView, ProcViewFrame};
use crate::mprocs::state::{find_named, named, State};
use crate::term::attrs::{plain_attrs, Attrs, Color};
use crate::term::grid::{Grid, GridView, Line};
use crate::term::rect::{Pos, Rect};
use crate::term::screen::{Screen, VtTable};
use crate::text::{decimal, push_decimal};
use vstd::prelude::*;

pub use crate::console::list::term_check_hit;

verus! {

/// The kind of the focused row below a process.
pub open spec fn focused_kind(proc: ProcView) -> Option<ChildKind> {
    match proc.focused_child {
        Some(i) => if i < proc.children@.len() {
            Some(proc.children@[i as int].kind)
        } else {
            None
        },
        None => None,
    }
}

/// The dependencies of a process, each with the status of the process of that
/// name.
pub open spec fn deps_of(proc: ProcView, procs: Seq<ProcView>) -> Seq<DepModel> {
    Seq::new(
        proc.cfg.deps@.len(),
        |k: int|
            DepModel {
                name: proc.cfg.deps@[k]@,
                status: match named(procs, proc.cfg.deps@[k]@) {
                    Some(i) => Some(procs[i].status),
                    None => None,
                },
            },
    )
}

fn dep_rows(proc: &ProcView, procs: &Vec<ProcView>) -> (r: Vec<DepRow>)
    ensures
        dep_rows_view(r@) == deps_of(*proc, procs@),
{
    let mut out: Vec<DepRow> = Vec::new();
    let mut k: usize = 0;
    while k < proc.cfg.deps.len()
        invariant
            k <= proc.cfg.deps@.len(),
            out@.len() == k,
            forall|j: int| 0 <= j < k ==> (#[trigger] out@[j])@ == deps_of(*proc, procs@)[j],
        decreases proc.cfg.deps@.len() - k,
    {
        let name = proc.cfg.deps[k].clone();
        let status = match find_named(procs, name.as_str()) {
            Some(i) => Some(procs[i].status),
            None => None,
        };
        out.push(DepRow { name, status });
        k += 1;
    }
    proof {
        assert(dep_rows_view(out@) =~= deps_of(*proc, procs@));
    }
    out
}

/// The end of the selection that moves.
pub open spec fn moving_end(start: TextPos, end: Option<TextPos>) -> TextPos {
    match end {
        Some(e) => e,
        None => start,
    }
}

/// The screen that is shown: the frozen one in copy mode, else that of the
/// terminal.
pub open spec fn shown_screen(copy: CopyMode, live: Screen) -> Screen {
    match copy {
        CopyMode::Active(frozen, _, _) => frozen,
        CopyMode::Inactive => live,
    }
}

pub open spec fn selection_of(copy: CopyMode) -> Option<(TextPos, TextPos)> {
    match copy {
        CopyMode::Active(_, start, end) => Some((start, moving_end(start, end))),
        CopyMode::Inactive => None,
    }
}

/// How far a view is scrolled up, as a signed number.
pub open spec fn scrolled(screen: Screen) -> i32 {
    #[verifier::truncate]
    (screen.scrollback as i32)
}

pub open spec fn signed_col(pos: TextPos) -> u16 {
    #[verifier::truncate]
    (pos.x as u16)
}

/// Where the cursor is shown.
pub open spec fn cursor_of(area: Rect, copy: CopyMode, live: Screen) -> Option<Pos> {
    match copy {
        CopyMode::Inactive => if live.hide_cursor {
            None
        } else {
            Some(
                Pos {
                    col: (area.x + 1 + live.cursor_col) as u16,
                    row: (area.y + 1 + live.cursor_row) as u16,
                },
            )
        },
        CopyMode::Active(frozen, start, end) => {
            let pos = moving_end(start, end);
            let y = area.y + 1 + (pos.y + scrolled(frozen));
            if y >= 0 {
                Some(
                    Pos {
                        col: (area.x + 1 + signed_col(pos)) as u16,
                        row: #[verifier::truncate] (y as i32 as u16),
                    },
                )
            } else {
                None
            }
        },
    }
}

/// The cursor stays within the coordinate range.
pub open spec fn cursor_fits(area: Rect, copy: CopyMode, live: Screen) -> bool {
    match copy {
        CopyMode::Inactive => !live.hide_cursor ==> {
            &&& area.x + 1 + live.cursor_col <= u16::MAX
            &&& area.y + 1 + live.cursor_row <= u16::MAX
        },
        CopyMode::Active(frozen, start, end) => {
            let pos = moving_end(start, end);
            &&& i32::MIN <= pos.y + scrolled(frozen)
            &&& pos.y + scrolled(frozen) + area.y + 1 <= i32::MAX
            &&& area.y + 1 + (pos.y + scrolled(frozen)) >= 0 ==> area.x + 1 + signed_col(pos)
                <= u16::MAX
        },
    }
}

/// How far the view is scrolled up, as it is shown.
pub open spec fn scroll_label(n: usize) -> Seq<char> {
    " -"@ + decimal(n as nat) + " "@
}

/// The place of the label: the right end of the first line.
pub open spec fn label_area(inner: Rect, n: usize) -> Rect {
    let w = scroll_label(n).len();
    Rect { x: (inner.x + inner.width - w) as u16, y: inner.y, width: w as u16, height: 1 }
}

/// There is room for the label left of the right end.
pub open spec fn label_fits(inner: Rect, screen: Screen) -> bool {
    screen.scrollback > 0 ==> scroll_label(screen.scrollback).len() <= inner.x + inner.width
}

/// A screen with the label that tells how far it is scrolled up.
pub open spec fn with_screen(
    g: GridView,
    screen: Screen,
    inner: Rect,
    selection: Option<(TextPos, TextPos)>,
) -> GridView {
    let painted = g.painted(screen_cells(g, screen, inner, selection, true));
    if screen.scrollback > 0 {
        painted.text(
            label_area(inner, screen.scrollback),
            scroll_label(screen.scrollback),
            Attrs { fg: Color::Black, bg: Color::BrightYellow, ..plain_attrs() },
        )
    } else {
        painted
    }
}

fn render_screen(
    screen: &Screen,
    selection: Option<(TextPos, TextPos)>,
    area: Rect,
    grid: &mut Grid,
)
    requires
        old(grid).wf(),
        area.fits(),
        area.height >= 1,
        countable(selection, *screen, area),
        label_fits(area, *screen),
    ensures
        final(grid).wf(),
        final(grid)@ == with_screen(old(grid)@, *screen, area, selection),
{
    draw_screen(grid, screen, area, selection, true);
    if screen.scrollback > 0 {
        let mut label = " -".to_owned();
        push_decimal(&mut label, screen.scrollback as u64);
        label.append(" ");
        proof {
            assert(label@ =~= scroll_label(screen.scrollback));
        }
        let width: u16 = label.as_str().unicode_len() as u16;
        grid.draw_text(
            Rect { x: area.x + area.width - width, y: area.y, width, height: 1 },
            label.as_str(),
            Attrs::plain().fg(Color::Black).bg(Color::BrightYellow),
        );
    }
}

/// The top line: "Terminal", the sign of copy mode, the title of the terminal.
pub open spec fn with_title(g: GridView, area: Rect, copy: CopyMode, active: bool) -> Line {
    let line = Line {
        grid: g.block(area, border_of(active).chars_of(), plain_attrs()),
        area: title_area(area),
    }.wrote("Terminal"@, bold_if(active));
    match copy {
        CopyMode::Inactive => line,
        CopyMode::Active(_, _, _) => line.wrote(" "@, plain_attrs()).wrote(
            "COPY MODE"@,
            Attrs { fg: Color::Black, bg: Color::Yellow, bold: true },
        ),
    }
}

pub open spec fn with_own_title(line: Line, title: Seq<char>) -> GridView {
    if title.len() == 0 {
        line.grid
    } else {
        line.wrote(" "@, plain_attrs()).wrote(
            title,
            Attrs { fg: Color::BrightBlack, ..plain_attrs() },
        ).wrote(" "@, plain_attrs()).grid
    }
}

/// The grid with its cursor placed, where there is one to place.
pub open spec fn with_cursor(g: GridView, pos: Option<Pos>, live: Screen) -> GridView {
    match pos {
        Some(p) => GridView { cursor_pos: Some(p), cursor_style: live.cursor_style, ..g },
        None => g,
    }
}

/// The terminal of a process.
pub open spec fn with_proc_term(
    g: GridView,
    area: Rect,
    proc: ProcView,
    vts: VtTable,
    active: bool,
) -> GridView {
    let line = with_title(g, area, proc.copy_mode, active);
    match vts.screen(proc.shown_vt()) {
        None => line.grid,
        Some(live) => {
            let drawn = with_screen(
                with_own_title(line, live.title@),
                shown_screen(proc.copy_mode, live),
                area.shrunk(1),
                selection_of(proc.copy_mode),
            );
            if active {
                with_cursor(drawn, cursor_of(area, proc.copy_mode, live), live)
            } else {
                drawn
            }
        },
    }
}

/// What is drawn for the selected process.
pub open spec fn with_term(g: GridView, area: Rect, state: State, vts: VtTable) -> GridView {
    let active = !(state.scope is Procs);
    if area.width < 3 || area.height < 3 {
        g
    } else {
        match state.current() {
            None => g,
            Some(proc) => if focused_kind(proc) == Some(ChildKind::Deps) {
                with_deps_pane(g, area, active, proc.cfg.name@, deps_of(proc, state.procs@))
            } else {
                with_proc_term(g, area, proc, vts, active)
            },
        }
    }
}

/// Everything that is drawn for the selected process has coordinates.
pub open spec fn term_fits(area: Rect, state: State, vts: VtTable) -> bool {
    &&& area.fits()
    &&& match state.current() {
        Some(proc) if area.width >= 3 && area.height >= 3 => if focused_kind(proc) == Some(
            ChildKind::Deps,
        ) {
            area.x + 5 <= u16::MAX
        } else {
            match vts.screen(proc.shown_vt()) {
                Some(live) => {
                    let screen = shown_screen(proc.copy_mode, live);
                    &&& cursor_fits(area, proc.copy_mode, live)
                    &&& countable(selection_of(proc.copy_mode), screen, area.shrunk(1))
                    &&& label_fits(area.shrunk(1), screen)
                },
                None => true,
            }
        },
        _ => true,
    }
}

fn cursor_at(area: Rect, copy: &CopyMode, live: &Screen) -> (r: Option<Pos>)
    requires
        cursor_fits(area, *copy, *live),
    ensures
        r == cursor_of(area, *copy, *live),
{
    match copy {
        CopyMode::Inactive => {
            if live.hide_cursor {
                None
            } else {
                Some(
                    Pos {
                        col: area.x + 1 + live.cursor_col,
                        row: area.y + 1 + live.cursor_row,
                    },
                )
            }
        },
        CopyMode::Active(frozen, start, end) => {
            let pos: TextPos = match end {
                Some(e) => *e,
                None => *start,
            };
            let up: i32 = #[verifier::truncate]
            (frozen.scrollback as i32);
            let y: i32 = area.y as i32 + 1 + (pos.y + up);
            if y >= 0 {
                let col: u16 = #[verifier::truncate]
                (pos.x as u16);
                let row: u16 = #[verifier::truncate]
                (y as u16);
                Some(Pos { col: area.x + 1 + col, row })
            } else {
                None
            }
        },
    }
}

fn draw_own_title(grid: &mut Grid, line: Rect, title: &str, Ghost(before): Ghost<Line>)
    requires
        old(grid).wf(),
        line.fits(),
        before.grid == old(grid)@,
        before.area == line,
    ensures
        final(grid).wf(),
        final(grid)@ == with_own_title(before, title@),
{
    if title.unicode_len() > 0 {
        let rest = grid.write_line(line, " ", Attrs::plain());
        let rest = grid.write_line(rest, title, Attrs::plain().fg(Color::BrightBlack));
        grid.write_line(rest, " ", Attrs::plain());
    }
}

fn render_proc_term(grid: &mut Grid, area: Rect, proc: &ProcView, vts: &VtTable, active: bool)
    requires
        old(grid).wf(),
        area.fits(),
        area.width >= 3,
        area.height >= 3,
        match vts.screen(proc.shown_vt()) {
            Some(live) => {
                let screen = shown_screen(proc.copy_mode, live);
                &&& cursor_fits(area, proc.copy_mode, live)
                &&& countable(selection_of(proc.copy_mode), screen, area.shrunk(1))
                &&& label_fits(area.shrunk(1), screen)
            },
            None => true,
        },
    ensures
        final(grid).wf(),
        final(grid)@ == with_proc_term(old(grid)@, area, *proc, *vts, active),
{
    let ghost g0 = grid@;
    let line = draw_frame(grid, area, "Terminal", active);
    let line = match proc.copy_mode() {
        CopyMode::Inactive => line,
        CopyMode::Active(_, _, _) => {
            let rest = grid.write_line(line, " ", Attrs::plain());
            grid.write_line(
                rest,
                "COPY MODE",
                Attrs::plain().fg(Color::Black).bg(Color::Yellow).set_bold(true),
            )
        },
    };
    let ghost titled = with_title(g0, area, proc.copy_mode, active);
    proof {
        assert(titled.grid == grid@);
        assert(titled.area == line);
    }
    match proc.lock_view(vts) {
        ProcViewFrame::Empty => {},
        ProcViewFrame::Vt(live) => {
            draw_own_title(grid, line, live.title.as_str(), Ghost(titled));
            let cursor = cursor_at(area, proc.copy_mode(), live);
            match proc.copy_mode() {
                CopyMode::Inactive => {
                    render_screen(live, None, area.inner(1), grid);
                },
                CopyMode::Active(frozen, start, end) => {
                    let pos: TextPos = match end {
                        Some(e) => *e,
                        None => *start,
                    };
                    render_screen(frozen, Some((*start, pos)), area.inner(1), grid);
                },
            }
            if active {
                if let Some(pos) = cursor {
                    grid.place_cursor(pos, live.cursor_style);
                }
            }
        },
    }
}

/// Draws the terminal of the selected process, or its dependencies where that
/// row has the focus.
pub fn render_term(area: Rect, grid: &mut Grid, state: &State, vts: &VtTable)
    requires
        old(grid).wf(),
        term_fits(area, *state, *vts),
    ensures
        final(grid).wf(),
        final(grid)@ == with_term(old(grid)@, area, *state, *vts),
{
    if area.width < 3 || area.height < 3 {
        return;
    }
    let active = state.scope.in_term();
    if let Some(proc) = state.get_current_proc() {
        let on_deps = match proc.focused_child {
            Some(i) => i < proc.children.len() && (match proc.children[i].kind {
                ChildKind::Deps => true,
                _ => false,
            }),
            None => false,
        };
        if on_deps {
            let rows = dep_rows(proc, &state.procs);
            draw_deps_pane(grid, area, active, proc.name(), &rows);
        } else {
            render_proc_term(grid, area, proc, vts, active);
        }
    }
}

} // verus!
