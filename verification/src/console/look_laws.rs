//! What the terminal of the selected process and its dependencies look like.

use crate::console::dashboard::laws::name_stands_for_the_first;
use crate::console::pane::{border_of, dep_visual, screen_cells, shown_cell, with_dep_row, DepModel};
use crate::console::proc::child::ChildKind;
use crate::console::proc::view::ProcModel;
use crate::console::state::{named, StateModel};
use crate::console::ui_term::{deps_of, with_shown_screen, with_term, with_title};
use crate::kernel::task::TaskStatus;
use crate::term::attrs::{plain_attrs, Attrs, Color};
use crate::term::frame::text_stays_in_its_area;
use crate::term::grid::{Cell, GridView};
use crate::term::rect::{Pos, Rect};
use crate::term::screen::{Screen, VtTable};
use crate::term::text_laws::text_is_written_from_the_left;
use crate::term::width::all_printable_ascii;
use crate::text::{decimal, lemma_decimal};
use vstd::prelude::*;

verus! {

/// Where a dependency stands, as it is shown: what is ready is green, what
/// starts is yellow, what is broken or missing is red, what ended well is blue
/// and what is not started is gray.
pub proof fn dependency_looks_like_its_status(code: u32)
    ensures
        dep_visual(Some(TaskStatus::Running)).color == Color::BrightGreen,
        dep_visual(Some(TaskStatus::Running)).text == "UP"@,
        dep_visual(Some(TaskStatus::Completed)).color == Color::BrightGreen,
        dep_visual(Some(TaskStatus::Completed)).text == "DONE"@,
        dep_visual(Some(TaskStatus::Starting)).color == Color::BrightYellow,
        dep_visual(Some(TaskStatus::Starting)).text == "STARTING"@,
        dep_visual(Some(TaskStatus::Unhealthy)).color == Color::BrightRed,
        dep_visual(Some(TaskStatus::Unhealthy)).text == "UNHEALTHY"@,
        dep_visual(Some(TaskStatus::NotStarted)).color == Color::BrightBlack,
        dep_visual(Some(TaskStatus::NotStarted)).text == "not started"@,
        dep_visual(None).color == Color::BrightRed,
        dep_visual(None).text == "not found"@,
        dep_visual(Some(TaskStatus::Exited(0))).color == Color::BrightBlue,
        code != 0 ==> dep_visual(Some(TaskStatus::Exited(code))).color == Color::BrightRed,
        dep_visual(Some(TaskStatus::Exited(code))).text == "DOWN ("@ + decimal(code as nat) + ")"@,
{
    reveal_strlit("DOWN (0)");
    reveal_strlit("DOWN (");
    reveal_strlit(")");
    reveal_with_fuel(decimal, 2);
    assert("DOWN (0)"@ =~= "DOWN ("@ + decimal(0) + ")"@);
}

/// The words for different statuses of a dependency differ.
pub proof fn dependencies_are_told_apart(a: Option<TaskStatus>, b: Option<TaskStatus>)
    ensures
        dep_visual(a).text == dep_visual(b).text <==> a == b,
{
    reveal_strlit("not found");
    reveal_strlit("UP");
    reveal_strlit("STARTING");
    reveal_strlit("UNHEALTHY");
    reveal_strlit("DONE");
    reveal_strlit("not started");
    reveal_strlit("DOWN (");
    reveal_strlit(")");
    let down = |code: u32| "DOWN ("@ + decimal(code as nat) + ")"@;
    assert forall|code: u32| dep_visual(Some(TaskStatus::Exited(code))).text == #[trigger] down(
        code,
    ) by {
        dependency_looks_like_its_status(code);
    }
    assert forall|code: u32| #[trigger] down(code)[0] == 'D' && down(code)[2] == 'W' by {}
    match (a, b) {
        (Some(TaskStatus::Exited(x)), Some(TaskStatus::Exited(y))) => {
            if down(x) == down(y) {
                let (dx, dy) = (decimal(x as nat), decimal(y as nat));
                assert(down(x).len() == dx.len() + 7 && down(y).len() == dy.len() + 7);
                assert(dx =~= down(x).subrange(6, 6 + dx.len() as int));
                assert(dy =~= down(y).subrange(6, 6 + dy.len() as int));
                lemma_decimal(x as nat);
                lemma_decimal(y as nat);
            }
        },
        (Some(TaskStatus::Exited(x)), _) => {
            assert(down(x)[0] == 'D' && down(x)[2] == 'W');
        },
        (_, Some(TaskStatus::Exited(y))) => {
            assert(down(y)[0] == 'D' && down(y)[2] == 'W');
        },
        _ => {},
    }
    assert("UP"@[1] == 'P' && "UNHEALTHY"@[1] == 'N');
    assert("UP"@[0] == 'U' && "STARTING"@[0] == 'S' && "DONE"@[0] == 'D' && "DONE"@[2] == 'N');
    assert("not found"@[0] == 'n' && "not started"@[0] == 'n');
    assert("not found"@[4] == 'f' && "not started"@[4] == 's');
    assert("UNHEALTHY"@[0] == 'U');
}

/// A dependency is shown with the status of the first process of that name, or
/// as missing.
pub proof fn dependency_has_the_status_of_its_process(
    proc: ProcModel,
    procs: Seq<ProcModel>,
    k: int,
    i: int,
)
    requires
        0 <= k < proc.deps.len(),
    ensures
        deps_of(proc, procs).len() == proc.deps.len(),
        deps_of(proc, procs)[k].name == proc.deps[k],
        0 <= i < procs.len() && procs[i].name == proc.deps[k] && (forall|j: int|
            0 <= j < i ==> (#[trigger] procs[j]).name != proc.deps[k]) ==> deps_of(
            proc,
            procs,
        )[k].status == Some(procs[i].status),
        (forall|j: int| 0 <= j < procs.len() ==> (#[trigger] procs[j]).name != proc.deps[k])
            ==> deps_of(proc, procs)[k].status is None,
{
    let name = proc.deps[k];
    name_stands_for_the_first(procs, name);
    if let Some(m) = named(procs, name) {
        assert(procs[m].name == name);
    }
}

/// The grid has every cell of an area.
pub open spec fn holds(g: GridView, area: Rect) -> bool {
    &&& g.wf()
    &&& area.x + area.width <= g.width
    &&& area.y + area.height <= g.height
}

proof fn lemma_text_keeps(g: GridView, area: Rect, chars: Seq<char>, attrs: Attrs)
    ensures
        g.text(area, chars, attrs).width == g.width,
        g.text(area, chars, attrs).height == g.height,
        g.wf() ==> g.text(area, chars, attrs).wf(),
{
    text_stays_in_its_area(g, area, chars, attrs);
    let r = g.text(area, chars, attrs);
    if g.wf() {
        assert forall|c: int, w: int| #[trigger] r.cells.dom().contains((c, w)) <==> r.has(
            c,
            w,
        ) by {
            assert(g.cells.dom().contains((c, w)) <==> g.has(c, w));
        }
    }
}

/// The line of a dependency says its name and its status, if these are of
/// ASCII: the name stands in the fourth column and after it, the status behind
/// the columns for the names.
pub proof fn dependency_has_its_line(
    g: GridView,
    inner: Rect,
    name_w: int,
    i: int,
    dep: DepModel,
    m: int,
)
    requires
        holds(g, inner),
        inner.fits(),
        0 <= name_w,
        0 <= i,
        2 + i < inner.height,
        4 + name_w < inner.width,
        all_printable_ascii(dep.name),
        all_printable_ascii(dep_visual(dep.status).text),
        dep.name.len() <= name_w,
    ensures
        ({
            let r = with_dep_row(g, inner, name_w, i, dep);
            let row = inner.y + 2 + i;
            let look = dep_visual(dep.status);
            &&& 0 <= m < dep.name.len() ==> r.cells[(inner.x + 3 + m, row)] == (Cell {
                ch: Some(dep.name[m]),
                attrs: plain_attrs(),
            })
            &&& 0 <= m < look.text.len() && 4 + name_w + m < inner.width ==> r.cells[(
                inner.x + 4 + name_w + m,
                row,
            )] == (Cell {
                ch: Some(look.text[m]),
                attrs: Attrs { fg: look.color, ..plain_attrs() },
            })
        }),
{
    let y = (inner.y + 2 + i) as u16;
    let look = dep_visual(dep.status);
    let sign = Attrs { fg: look.color, bold: true, ..plain_attrs() };
    let a = Rect { x: inner.x, y, width: 3, height: 1 };
    let b = Rect { x: (inner.x + 3) as u16, y, width: name_w as u16, height: 1 };
    let c = Rect {
        x: (inner.x + 4 + name_w) as u16,
        y,
        width: (inner.width - 4 - name_w) as u16,
        height: 1,
    };
    let plain = Attrs { fg: look.color, ..plain_attrs() };
    let g1 = g.text(a, look.symbol, sign);
    lemma_text_keeps(g, a, look.symbol, sign);
    let g2 = g1.text(b, dep.name, plain_attrs());
    lemma_text_keeps(g1, b, dep.name, plain_attrs());
    if 0 <= m < dep.name.len() {
        let col = inner.x + 3 + m;
        text_is_written_from_the_left(g1, b, dep.name, plain_attrs(), col, y as int);
        text_is_written_from_the_left(g2, c, look.text, plain, col, y as int);
    }
    if 0 <= m < look.text.len() && 4 + name_w + m < inner.width {
        let col = inner.x + 4 + name_w + m;
        text_is_written_from_the_left(g2, c, look.text, plain, col, y as int);
    }
}

/// The terminal that the selected process has in front: that of the row that
/// has the focus, the copy while it is in copy mode, or its own.
pub proof fn terminal_in_front(proc: ProcModel, i: usize)
    ensures
        proc.focused_child == Some(i) && i < proc.children.len() ==> proc.shown_vt()
            == proc.children[i as int].vt,
        proc.focused_child is None && proc.present is Some ==> proc.shown_vt() == proc.present->0,
        proc.focused_child is None && proc.present is None ==> proc.shown_vt() == proc.vt,
{
}

/// The screen of the terminal in front is shown cell by cell inside of the
/// frame, and an empty cell as a space.
pub proof fn screen_is_shown_cell_by_cell(
    g: GridView,
    area: Rect,
    state: StateModel,
    vts: VtTable,
    screen: Screen,
    col: int,
    row: int,
)
    requires
        holds(g, area),
        area.fits(),
        area.width >= 3,
        area.height >= 3,
        state.list.selected < state.procs.len(),
        state.procs[state.list.selected as int].focused_kind() != Some(ChildKind::Deps),
        vts.screen(state.procs[state.list.selected as int].shown_vt()) == Some(screen),
        0 <= row < screen.rows@.len(),
        0 <= col < screen.rows@[row]@.len(),
        col < area.width - 2,
        row < area.height - 2,
    ensures
        ({
            let cell = screen.rows@[row]@[col];
            with_term(g, area, state, vts).cells[(area.x + 1 + col, area.y + 1 + row)] == (Cell {
                ch: match cell.ch {
                    Some(c) => Some(c),
                    None => Some(' '),
                },
                attrs: cell.attrs,
            })
        }),
{
    let active = !(state.scope is Procs);
    let framed = g.block(area, border_of(active).chars_of(), plain_attrs());
    let inner = area.shrunk(1);
    let titled = with_title(framed, area, screen.title@, active);
    lemma_title_keeps(framed, area, screen.title@, active);
    let (x, y) = (area.x + 1 + col, area.y + 1 + row);
    assert(g.cells.dom().contains((x, y)));
    assert(framed.cells.dom().contains((x, y)));
    assert(titled.cells.dom().contains((x, y)));
    assert(inner.covers(x, y));
    let f = screen_cells(titled, screen, inner, None, false);
    assert(f(x, y) == Some(shown_cell(screen.rows@[row]@[col], false)));
}

proof fn lemma_title_keeps(g: GridView, area: Rect, title: Seq<char>, active: bool)
    ensures
        with_title(g, area, title, active).cells.dom() == g.cells.dom(),
        with_title(g, area, title, active).width == g.width,
        with_title(g, area, title, active).height == g.height,
{
    let t = crate::console::pane::title_area(area);
    let bold = crate::console::pane::bold_if(active);
    let gray = Attrs { fg: Color::BrightBlack, ..plain_attrs() };
    text_stays_in_its_area(g, t, "Terminal"@, bold);
    let line = crate::term::grid::Line { grid: g, area: t }.wrote("Terminal"@, bold);
    text_stays_in_its_area(line.grid, line.area, " "@, plain_attrs());
    let next = line.wrote(" "@, plain_attrs());
    text_stays_in_its_area(next.grid, next.area, title, gray);
}

/// The cursor stands where the screen has it, if the terminal has the focus and
/// the cursor is not hidden.
pub proof fn cursor_stands_on_the_screen(
    g: GridView,
    area: Rect,
    screen: Screen,
)
    requires
        area.fits(),
        area.width >= 3,
        area.height >= 3,
        area.x + 1 + screen.cursor_col <= u16::MAX,
        area.y + 1 + screen.cursor_row <= u16::MAX,
    ensures
        !screen.hide_cursor ==> with_shown_screen(g, area, screen, true).cursor_pos == Some(
            Pos {
                col: (area.x + 1 + screen.cursor_col) as u16,
                row: (area.y + 1 + screen.cursor_row) as u16,
            },
        ),
        !screen.hide_cursor ==> with_shown_screen(g, area, screen, true).cursor_style
            == screen.cursor_style,
        screen.hide_cursor ==> with_shown_screen(g, area, screen, true).cursor_pos
            == with_shown_screen(g, area, screen, false).cursor_pos,
        with_shown_screen(g, area, screen, false).cursor_pos == g.cursor_pos,
{
    let t = crate::console::pane::title_area(area);
    let gray = Attrs { fg: Color::BrightBlack, ..plain_attrs() };
    let bold = crate::console::pane::bold_if(false);
    text_stays_in_its_area(g, t, "Terminal"@, bold);
    let line = crate::term::grid::Line { grid: g, area: t }.wrote("Terminal"@, bold);
    text_stays_in_its_area(line.grid, line.area, " "@, plain_attrs());
    let next = line.wrote(" "@, plain_attrs());
    text_stays_in_its_area(next.grid, next.area, screen.title@, gray);
    let bold = crate::console::pane::bold_if(true);
    text_stays_in_its_area(g, t, "Terminal"@, bold);
    let line = crate::term::grid::Line { grid: g, area: t }.wrote("Terminal"@, bold);
    text_stays_in_its_area(line.grid, line.area, " "@, plain_attrs());
    let next = line.wrote(" "@, plain_attrs());
    text_stays_in_its_area(next.grid, next.area, screen.title@, gray);
}

/// The frame of the part that has the focus is thick, the others are thin.
pub proof fn focus_has_a_thick_frame()
    ensures
        border_of(true).chars_of().vertical == '┃',
        border_of(true).chars_of().horizontal == '━',
        border_of(true).chars_of().top_left == '┏',
        border_of(true).chars_of().top_right == '┓',
        border_of(true).chars_of().bottom_left == '┗',
        border_of(true).chars_of().bottom_right == '┛',
        border_of(false).chars_of().vertical == '│',
        border_of(false).chars_of().horizontal == '─',
        border_of(false).chars_of().top_left == '┌',
        border_of(false).chars_of().top_right == '┐',
        border_of(false).chars_of().bottom_left == '└',
        border_of(false).chars_of().bottom_right == '┘',
{
}

} // verus!
