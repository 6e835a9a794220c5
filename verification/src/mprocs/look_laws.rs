//! What the list and the terminal of the classic interface look like.

use crate::console::list::ClickTarget;
use crate::console::pane::screen_cells;
use crate::console::proc::child::ChildStatus;
use crate::kernel::task::TaskStatus;
use crate::mprocs::proc::children::ChildKind;
use crate::mprocs::proc::copy_mode::{CopyMode, Pos as TextPos};
use crate::mprocs::proc::view::ProcView;
use crate::mprocs::state::named;
use crate::mprocs::ui_procs::{
    bullet, chevron, child_pill, dep_blocks, dim, kind_label, proc_pill, row_attrs, waits,
    with_proc_row, with_row,
};
use crate::mprocs::ui_term::{cursor_of, scroll_label, with_screen};
use crate::term::attrs::{plain_attrs, Attrs, Color};
use crate::term::frame::text_stays_in_its_area;
use crate::term::grid::{Cell, GridView, Line};
use crate::term::rect::{Pos, Rect};
use crate::term::screen::Screen;
use crate::term::text_laws::{next_text_follows, text_is_written_from_the_left};
use crate::term::width::all_printable_ascii;
use crate::text::{decimal, lemma_decimal};
use vstd::prelude::*;

verus! {

/// The status of a process in words and colors: what is up is green, what
/// starts or waits is yellow, what is broken is red, what ended well is blue and
/// what is down is gray.
pub proof fn process_looks_like_its_status(base: Attrs, code: u32, waiting: bool)
    ensures
        proc_pill(TaskStatus::Running, base, waiting).text == " UP "@,
        proc_pill(TaskStatus::Running, base, waiting).attrs.fg == Color::BrightGreen,
        proc_pill(TaskStatus::Starting, base, waiting).text == " STARTING "@,
        proc_pill(TaskStatus::Starting, base, waiting).attrs.fg == Color::BrightYellow,
        proc_pill(TaskStatus::Unhealthy, base, waiting).text == " UNHEALTHY "@,
        proc_pill(TaskStatus::Unhealthy, base, waiting).attrs.fg == Color::BrightRed,
        proc_pill(TaskStatus::Exited(code), base, waiting).text == " DOWN ("@ + decimal(
            code as nat,
        ) + ")"@,
        proc_pill(TaskStatus::Exited(code), base, waiting).attrs.fg == (if code == 0 {
            Color::BrightBlue
        } else {
            Color::BrightRed
        }),
        proc_pill(TaskStatus::NotStarted, base, true).text == " WAITING "@,
        proc_pill(TaskStatus::NotStarted, base, true).attrs.fg == Color::BrightYellow,
        proc_pill(TaskStatus::NotStarted, base, false).text == " DOWN "@,
        proc_pill(TaskStatus::NotStarted, base, false).attrs.fg == Color::BrightBlack,
        proc_pill(TaskStatus::Running, base, waiting).attrs.bg == base.bg,
        proc_pill(TaskStatus::Exited(code), base, waiting).attrs.bg == base.bg,
{
    reveal_strlit(" DOWN (0)");
    reveal_strlit(" DOWN (");
    reveal_strlit(")");
    reveal_with_fuel(decimal, 2);
    assert(" DOWN (0)"@ =~= " DOWN ("@ + decimal(0) + ")"@);
}

/// A run of a hook or a check that went well is ticked in green, one that
/// failed is crossed in red, one that goes on is yellow, and none is gray.
pub proof fn row_looks_like_its_run(base: Attrs, code: i32)
    ensures
        child_pill(ChildStatus::Idle, base).text == " — "@,
        child_pill(ChildStatus::Idle, base).attrs.fg == Color::BrightBlack,
        child_pill(ChildStatus::Running, base).text == " RUN "@,
        child_pill(ChildStatus::Running, base).attrs.fg == Color::BrightYellow,
        child_pill(ChildStatus::LastExit(code), base).text == (if code == 0 {
            " ✓ "@
        } else {
            " ✗ "@
        }),
        child_pill(ChildStatus::LastExit(code), base).attrs.fg == (if code == 0 {
            Color::BrightGreen
        } else {
            Color::BrightRed
        }),
{
}

proof fn lemma_named(procs: Seq<ProcView>, name: Seq<char>)
    ensures
        match named(procs, name) {
            Some(i) => 0 <= i < procs.len() && procs[i].cfg.name@ == name && forall|j: int|
                0 <= j < i ==> (#[trigger] procs[j]).cfg.name@ != name,
            None => forall|j: int| 0 <= j < procs.len() ==> (#[trigger] procs[j]).cfg.name@ != name,
        },
    decreases procs.len(),
{
    if procs.len() > 0 && procs[0].cfg.name@ != name {
        let t = procs.skip(1);
        lemma_named(t, name);
        if let Some(i) = named(t, name) {
            assert forall|j: int| 0 <= j < i + 1 implies (#[trigger] procs[j]).cfg.name@ != name by {
                if j > 0 {
                    assert(t[j - 1].cfg.name@ != name);
                }
            }
        } else {
            assert forall|j: int| 0 <= j < procs.len() implies (#[trigger] procs[j]).cfg.name@
                != name by {
                if j > 0 {
                    assert(t[j - 1].cfg.name@ != name);
                }
            }
        }
    }
}

/// A process of this name runs.
pub open spec fn runs(procs: Seq<ProcView>, name: Seq<char>) -> bool {
    exists|i: int|
        0 <= i < procs.len() && (#[trigger] procs[i]).cfg.name@ == name
            && procs[i].status is Running && forall|j: int|
            0 <= j < i ==> (#[trigger] procs[j]).cfg.name@ != name
}

proof fn lemma_blocks(procs: Seq<ProcView>, name: Seq<char>)
    ensures
        dep_blocks(procs, name) == !runs(procs, name),
{
    lemma_named(procs, name);
    if let Some(i) = named(procs, name) {
        if runs(procs, name) {
            let m = choose|m: int|
                0 <= m < procs.len() && (#[trigger] procs[m]).cfg.name@ == name
                    && procs[m].status is Running && forall|j: int|
                    0 <= j < m ==> (#[trigger] procs[j]).cfg.name@ != name;
            if m < i {
                assert(procs[m].cfg.name@ != name);
            } else if i < m {
                assert(procs[i].cfg.name@ != name);
            }
        } else {
            assert(!(procs[i].status is Running));
        }
    }
}

/// A dependency of a process does not run.
pub open spec fn lacks(proc: ProcView, procs: Seq<ProcView>, k: int) -> bool {
    0 <= k < proc.cfg.deps@.len() && !runs(procs, proc.cfg.deps@[k]@)
}

/// A process waits if it was not started and a process that it depends on does
/// not run.
pub proof fn process_waits_for_what_does_not_run(proc: ProcView, procs: Seq<ProcView>, k: int)
    ensures
        waits(proc, procs) && proc.status == TaskStatus::NotStarted ==> exists|m: int|
            #[trigger] lacks(proc, procs, m),
        waits(proc, procs) ==> proc.status == TaskStatus::NotStarted,
        proc.status == TaskStatus::NotStarted && lacks(proc, procs, k) ==> waits(proc, procs),
{
    if waits(proc, procs) {
        let m = choose|m: int|
            0 <= m < proc.cfg.deps@.len() && dep_blocks(procs, (#[trigger] proc.cfg.deps@[m])@);
        lemma_blocks(procs, proc.cfg.deps@[m]@);
        assert(lacks(proc, procs, m));
    }
    if lacks(proc, procs, k) {
        lemma_blocks(procs, proc.cfg.deps@[k]@);
        assert(dep_blocks(procs, proc.cfg.deps@[k]@));
    }
}

/// The row that has the focus has a bullet and a background; the others have
/// neither. A process with rows below it has an arrow that points at them while
/// they are shown.
pub proof fn rows_show_the_focus(proc: ProcView)
    ensures
        bullet(true) == "•"@,
        bullet(false) == " "@,
        row_attrs(true).bg != row_attrs(false).bg,
        row_attrs(false) == plain_attrs(),
        proc.children@.len() == 0 ==> chevron(proc) == "  "@,
        proc.children@.len() > 0 && proc.expanded ==> chevron(proc) == "▼ "@,
        proc.children@.len() > 0 && !proc.expanded ==> chevron(proc) == "▶ "@,
        kind_label(ChildKind::Deps) == ""@,
{
}

/// A row of the list shows the process or the child that it stands for, with the
/// focus on it exactly if it is the row that is selected.
pub proof fn row_shows_what_it_stands_for(
    g: GridView,
    area: Rect,
    procs: Seq<ProcView>,
    selected: usize,
    i: usize,
    c: usize,
    k: int,
    now: u64,
)
    ensures
        with_row(g, area, procs, selected, ClickTarget::Proc(i), k, now) == with_proc_row(
            g,
            crate::mprocs::ui_procs::row_area(area, k),
            procs[i as int],
            i == selected && procs[i as int].focused_child is None,
            waits(procs[i as int], procs),
        ),
        with_row(
            g,
            area,
            procs,
            selected,
            ClickTarget::Child { proc_idx: i, child_idx: c },
            k,
            now,
        ) == crate::mprocs::ui_procs::with_child_row(
            g,
            crate::mprocs::ui_procs::row_area(area, k),
            procs[i as int].children@[c as int]@,
            i == selected && procs[i as int].focused_child == Some(c),
            now,
        ),
{
}

/// The grid has every cell of an area.
pub open spec fn holds(g: GridView, area: Rect) -> bool {
    &&& g.wf()
    &&& area.x + area.width <= g.width
    &&& area.y + area.height <= g.height
}

proof fn lemma_line_keeps(line: Line, chars: Seq<char>, attrs: Attrs)
    requires
        line.grid.wf(),
        line.area.fits(),
        line.area.height > 0,
    ensures
        ({
            let next = line.wrote(chars, attrs);
            &&& next.grid.wf()
            &&& next.grid.width == line.grid.width
            &&& next.grid.height == line.grid.height
            &&& next.area.fits()
            &&& next.area.y == line.area.y
            &&& next.area.height == line.area.height
            &&& next.area.x + next.area.width == line.area.x + line.area.width
            &&& next.area.x >= line.area.x
        }),
{
    text_stays_in_its_area(line.grid, line.area, chars, attrs);
    next_text_follows(line, chars, attrs);
    let r = line.grid.text(line.area, chars, attrs);
    assert forall|c: int, w: int| #[trigger] r.cells.dom().contains((c, w)) <==> r.has(c, w) by {
        assert(line.grid.cells.dom().contains((c, w)) <==> line.grid.has(c, w));
    }
}

proof fn lemma_pill_ascii(status: TaskStatus, base: Attrs, waiting: bool)
    ensures
        all_printable_ascii(proc_pill(status, base, waiting).text),
        0 < proc_pill(status, base, waiting).text.len() < 100,
{
    reveal_strlit(" UP ");
    reveal_strlit(" STARTING ");
    reveal_strlit(" UNHEALTHY ");
    reveal_strlit(" WAITING ");
    reveal_strlit(" DOWN ");
    reveal_strlit(" DOWN (0)");
    reveal_strlit(" DOWN (");
    reveal_strlit(")");
    if let TaskStatus::Exited(code) = status {
        lemma_decimal(code as nat);
        lemma_short(code as nat);
        let d = decimal(code as nat);
        assert forall|i: int| 0 <= i < d.len() implies crate::term::width::is_printable_ascii(
            #[trigger] d[i],
        ) by {
            assert(crate::text::is_digit(d[i]));
        }
        let t = " DOWN ("@ + d + ")"@;
        assert forall|i: int| 0 <= i < t.len() implies crate::term::width::is_printable_ascii(
            #[trigger] t[i],
        ) by {
            if 7 <= i < 7 + d.len() {
                assert(t[i] == d[i - 7]);
            }
        }
    }
}

proof fn lemma_digits(n: nat)
    ensures
        n < 10 ==> decimal(n).len() == 1,
        n >= 10 ==> decimal(n).len() == decimal(n / 10).len() + 1,
{
}

/// A number of 32 bits has at most ten digits.
proof fn lemma_short(n: nat)
    requires
        n < 10_000_000_000,
    ensures
        decimal(n).len() <= 10,
{
    lemma_digits(n);
    lemma_digits(n / 10);
    lemma_digits(n / 10 / 10);
    lemma_digits(n / 10 / 10 / 10);
    lemma_digits(n / 10 / 10 / 10 / 10);
    lemma_digits(n / 10 / 10 / 10 / 10 / 10);
    lemma_digits(n / 10 / 10 / 10 / 10 / 10 / 10);
    lemma_digits(n / 10 / 10 / 10 / 10 / 10 / 10 / 10);
    lemma_digits(n / 10 / 10 / 10 / 10 / 10 / 10 / 10 / 10);
    lemma_digits(n / 10 / 10 / 10 / 10 / 10 / 10 / 10 / 10 / 10);
}

/// The status of a process stands at the right end of its row, if there is room
/// for it behind the name.
pub proof fn status_stands_at_the_right_end(
    g: GridView,
    area: Rect,
    proc: ProcView,
    selected: bool,
    waiting: bool,
    m: int,
)
    requires
        holds(g, area),
        area.fits(),
        area.height > 0,
        ({
            let attrs = row_attrs(selected);
            let line = Line { grid: g, area }.wrote(bullet(selected), attrs).wrote(
                chevron(proc),
                dim(attrs),
            ).wrote(proc.cfg.name@, attrs);
            line.area.width >= proc_pill(proc.status, attrs, waiting).text.len()
        }),
    ensures
        ({
            let pill = proc_pill(proc.status, row_attrs(selected), waiting);
            0 <= m < pill.text.len() ==> with_proc_row(g, area, proc, selected, waiting).cells[(
                area.x + area.width - pill.text.len() + m,
                area.y as int,
            )] == (Cell { ch: Some(pill.text[m]), attrs: pill.attrs })
        }),
{
    let attrs = row_attrs(selected);
    let pill = proc_pill(proc.status, attrs, waiting);
    lemma_pill_ascii(proc.status, attrs, waiting);
    let a = Line { grid: g, area }.wrote(bullet(selected), attrs);
    lemma_line_keeps(Line { grid: g, area }, bullet(selected), attrs);
    let b = a.wrote(chevron(proc), dim(attrs));
    lemma_line_keeps(a, chevron(proc), dim(attrs));
    let line = b.wrote(proc.cfg.name@, attrs);
    lemma_line_keeps(b, proc.cfg.name@, attrs);
    if 0 <= m < pill.text.len() {
        let w = pill.text.len();
        let right = Rect {
            x: (line.area.x + line.area.width - w) as u16,
            width: w as u16,
            ..line.area
        };
        let col = area.x + area.width - w + m;
        text_is_written_from_the_left(
            line.grid,
            right,
            pill.text,
            pill.attrs,
            col,
            area.y as int,
        );
        assert(line.grid.cells.dom().contains((col, area.y as int)));
        let t = line.grid.text(right, pill.text, pill.attrs);
        assert(t.cells.dom().contains((col, area.y as int)));
    }
}

/// A cell lies between the two ends of the selection, in the order in which one
/// reads.
pub open spec fn is_between(a: TextPos, b: TextPos, y: int, x: int) -> bool {
    let from_a = a.y < y || (a.y == y && a.x <= x);
    let to_b = y < b.y || (y == b.y && x <= b.x);
    from_a && to_b
}

/// The screen is shown cell by cell. In copy mode the cells between the ends of
/// the selection are black on cyan, whichever end comes first; rows above the
/// screen are counted down from zero.
pub proof fn selection_is_shown(
    g: GridView,
    screen: Screen,
    inner: Rect,
    start: TextPos,
    end: TextPos,
    col: int,
    row: int,
)
    requires
        holds(g, inner),
        inner.fits(),
        0 <= row < screen.rows@.len(),
        0 <= col < screen.rows@[row]@.len(),
        col < inner.width,
        row < inner.height,
        screen.scrollback == 0 || row > 0,
        screen.scrollback <= i32::MAX,
    ensures
        ({
            let cell = screen.rows@[row]@[col];
            let at = (inner.x + col, inner.y + row);
            let live = with_screen(g, screen, inner, None).cells[at];
            let copy = with_screen(g, screen, inner, Some((start, end))).cells[at];
            let y = row - screen.scrollback;
            let char = match cell.ch {
                Some(c) => Some(c),
                None => Some(' '),
            };
            &&& live == (Cell { ch: char, attrs: cell.attrs })
            &&& copy.ch == char
            &&& if is_between(start, end, y, col) || is_between(end, start, y, col) {
                copy.attrs.fg == Color::Black && copy.attrs.bg == Color::Cyan
            } else {
                copy.attrs == cell.attrs
            }
        }),
{
    let at = (inner.x + col, inner.y + row);
    assert(g.cells.dom().contains(at));
    let none = screen_cells(g, screen, inner, None, true);
    let some = screen_cells(g, screen, inner, Some((start, end)), true);
    assert(inner.covers(at.0, at.1));
    let n = screen.scrollback;
    assert(n as i32 == n);
    let a = g.painted(none);
    let b = g.painted(some);
    assert(a.cells.dom().contains(at) && b.cells.dom().contains(at));
    if n > 0 {
        let area = crate::mprocs::ui_term::label_area(inner, n);
        let attrs = Attrs { fg: Color::Black, bg: Color::BrightYellow, ..plain_attrs() };
        text_stays_in_its_area(a, area, scroll_label(n), attrs);
        text_stays_in_its_area(b, area, scroll_label(n), attrs);
        assert(!area.covers(at.0, at.1));
        assert(a.text(area, scroll_label(n), attrs).cells[at] == a.cells[at]);
        assert(b.text(area, scroll_label(n), attrs).cells[at] == b.cells[at]);
    }
}

/// The cursor stands where the screen has it unless it is hidden, and in copy
/// mode at the end of the selection that moves.
pub proof fn cursor_stands_at_the_moving_end(
    area: Rect,
    live: Screen,
    frozen: Screen,
    start: TextPos,
    end: TextPos,
)
    requires
        area.x + 1 + live.cursor_col <= u16::MAX,
        area.y + 1 + live.cursor_row <= u16::MAX,
        frozen.scrollback <= i32::MAX,
        0 <= end.x <= u16::MAX - area.x - 1,
        0 <= area.y + 1 + end.y + frozen.scrollback <= u16::MAX,
        0 <= start.x <= u16::MAX - area.x - 1,
        0 <= area.y + 1 + start.y + frozen.scrollback <= u16::MAX,
    ensures
        cursor_of(area, CopyMode::Inactive, live) == (if live.hide_cursor {
            None
        } else {
            Some(
                Pos {
                    col: (area.x + 1 + live.cursor_col) as u16,
                    row: (area.y + 1 + live.cursor_row) as u16,
                },
            )
        }),
        cursor_of(area, CopyMode::Active(frozen, start, Some(end)), live) == Some(
            Pos {
                col: (area.x + 1 + end.x) as u16,
                row: (area.y + 1 + end.y + frozen.scrollback) as u16,
            },
        ),
        cursor_of(area, CopyMode::Active(frozen, start, None), live) == Some(
            Pos {
                col: (area.x + 1 + start.x) as u16,
                row: (area.y + 1 + start.y + frozen.scrollback) as u16,
            },
        ),
{
}

} // verus!
