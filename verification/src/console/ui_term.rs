//! Draws the terminal of the selected process.

use crate::console::pane::{
    bold_if, border_for, border_of, dep_rows_view, draw_deps_pane, draw_screen, screen_cells,
    title_area, with_deps_pane, DepModel, DepRow,
};
use crate::console::proc::child::ChildKind;
use crate::console::proc::view::{ProcModel, ProcView};
use crate::console::state::{find_named, named, procs_view, State, StateModel};
use crate::term::attrs::{plain_attrs, Attrs, Color};
use crate::term::grid::{Grid, GridView, Line};
use crate::term::rect::{Pos, Rect};
use crate::term::screen::{Screen, VtTable};
use vstd::prelude::*;

pub use crate::console::list::term_check_hit;

verus! {

/// The dependencies of a process, each with the status of the process of that
/// name.
pub open spec fn deps_of(proc: ProcModel, procs: Seq<ProcModel>) -> Seq<DepModel> {
    Seq::new(
        proc.deps.len(),
        |k: int|
            DepModel {
                name: proc.deps[k],
                status: match named(procs, proc.deps[k]) {
                    Some(i) => Some(procs[i].status),
                    None => None,
                },
            },
    )
}

fn dep_rows(proc: &ProcView, procs: &Vec<ProcView>) -> (r: Vec<DepRow>)
    ensures
        dep_rows_view(r@) == deps_of(proc@, procs_view(procs@)),
{
    let ghost want = deps_of(proc@, procs_view(procs@));
    let mut out: Vec<DepRow> = Vec::new();
    let mut k: usize = 0;
    while k < proc.deps.len()
        invariant
            k <= proc.deps@.len(),
            want == deps_of(proc@, procs_view(procs@)),
            out@.len() == k,
            forall|j: int| 0 <= j < k ==> (#[trigger] out@[j])@ == want[j],
        decreases proc.deps@.len() - k,
    {
        let name = proc.deps[k].clone();
        let status = match find_named(procs, name.as_str()) {
            Some(i) => Some(procs[i].status),
            None => None,
        };
        proof {
            assert(proc@.deps[k as int] == name@);
        }
        out.push(DepRow { name, status });
        k += 1;
    }
    proof {
        assert(dep_rows_view(out@) =~= want);
    }
    out
}

/// The top line: "Terminal" and the title of the terminal.
pub open spec fn with_title(g: GridView, area: Rect, title: Seq<char>, active: bool) -> GridView {
    let line = Line { grid: g, area: title_area(area) }.wrote("Terminal"@, bold_if(active));
    if title.len() == 0 {
        line.grid
    } else {
        line.wrote(" "@, plain_attrs()).wrote(
            title,
            Attrs { fg: Color::BrightBlack, ..plain_attrs() },
        ).grid
    }
}

pub open spec fn cursor_of(inner: Rect, screen: Screen) -> Pos {
    Pos {
        col: (inner.x + screen.cursor_col) as u16,
        row: (inner.y + screen.cursor_row) as u16,
    }
}

/// A screen in its frame.
pub open spec fn with_shown_screen(
    g: GridView,
    area: Rect,
    screen: Screen,
    active: bool,
) -> GridView {
    let inner = area.shrunk(1);
    let titled = with_title(g, area, screen.title@, active);
    let drawn = titled.painted(screen_cells(titled, screen, inner, None, false));
    if active && !screen.hide_cursor {
        GridView {
            cursor_pos: Some(cursor_of(inner, screen)),
            cursor_style: screen.cursor_style,
            ..drawn
        }
    } else {
        drawn
    }
}

/// What is drawn for the selected process.
pub open spec fn with_term(g: GridView, area: Rect, state: StateModel, vts: VtTable) -> GridView {
    let active = !(state.scope is Procs);
    if area.width < 3 || area.height < 3 {
        g
    } else {
        match state.current() {
            None => g,
            Some(proc) => if proc.focused_kind() == Some(ChildKind::Deps) {
                with_deps_pane(g, area, active, proc.name, deps_of(proc, state.procs))
            } else {
                let framed = g.block(area, border_of(active).chars_of(), plain_attrs());
                match vts.screen(proc.shown_vt()) {
                    None => framed,
                    Some(screen) => with_shown_screen(framed, area, screen, active),
                }
            },
        }
    }
}

/// Everything that is drawn for the selected process has coordinates.
pub open spec fn term_fits(area: Rect, state: StateModel, vts: VtTable) -> bool {
    &&& area.fits()
    &&& match state.current() {
        Some(proc) if area.width >= 3 && area.height >= 3 => if proc.focused_kind() == Some(
            ChildKind::Deps,
        ) {
            area.x + 5 <= u16::MAX
        } else {
            match vts.screen(proc.shown_vt()) {
                Some(screen) if !(state.scope is Procs) && !screen.hide_cursor => {
                    &&& area.x + 1 + screen.cursor_col <= u16::MAX
                    &&& area.y + 1 + screen.cursor_row <= u16::MAX
                },
                _ => true,
            }
        },
        _ => true,
    }
}

fn render_screen(screen: &Screen, area: Rect, grid: &mut Grid)
    requires
        old(grid).wf(),
        area.fits(),
    ensures
        final(grid).wf(),
        final(grid)@ == old(grid)@.painted(
            screen_cells(old(grid)@, *screen, area, None, false),
        ),
{
    draw_screen(grid, screen, area, None, false);
}

fn draw_title(grid: &mut Grid, area: Rect, title: &str, active: bool)
    requires
        old(grid).wf(),
        area.fits(),
        area.width >= 3,
        area.height >= 3,
    ensures
        final(grid).wf(),
        final(grid)@ == with_title(old(grid)@, area, title@, active),
{
    let line = Rect { x: area.x + 1, y: area.y, width: area.width - 2, height: 1 };
    let rest = grid.write_line(line, "Terminal", Attrs::plain().set_bold(active));
    if title.unicode_len() > 0 {
        let rest = grid.write_line(rest, " ", Attrs::plain());
        grid.write_line(rest, title, Attrs::plain().fg(Color::BrightBlack));
    }
}

/// Draws the terminal of the selected process, or its dependencies where that
/// row has the focus.
pub fn render_term(area: Rect, grid: &mut Grid, state: &State, vts: &VtTable)
    requires
        old(grid).wf(),
        term_fits(area, state@, *vts),
    ensures
        final(grid).wf(),
        final(grid)@ == with_term(old(grid)@, area, state@, *vts),
{
    if area.width < 3 || area.height < 3 {
        return;
    }
    let active = state.scope.in_term();
    if let Some(proc) = state.get_current_proc() {
        let on_deps = match proc.focused_child_kind() {
            Some(ChildKind::Deps) => true,
            _ => false,
        };
        if on_deps {
            let rows = dep_rows(proc, &state.procs);
            draw_deps_pane(grid, area, active, proc.name(), &rows);
            return;
        }
        grid.draw_block(area, &border_for(active).chars(), Attrs::plain());
        if let Some(screen) = vts.read(*proc.focused_vt()) {
            draw_title(grid, area, screen.title.as_str(), active);
            let inner = area.inner(1);
            render_screen(screen, inner, grid);
            if active && !screen.hide_cursor {
                grid.place_cursor(
                    Pos { col: inner.x + screen.cursor_col, row: inner.y + screen.cursor_row },
                    screen.cursor_style,
                );
            }
        }
    }
}

} // verus!
