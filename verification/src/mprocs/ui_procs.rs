//! Draws the list of processes.

use crate::console::list::{
    clicked, clicked_row, drawn_rows, rows_between, rows_of, ListState,
};
use crate::console::pane::{border_for, border_of, title_area};
use crate::console::proc::child::ChildStatus;
use crate::console::scope::Scope;
use crate::kernel::task::TaskStatus;
use crate::mprocs::config::Config;
use crate::mprocs::proc::children::{ChildKind, ProcChild, ProcChildModel};
use crate::mprocs::proc::view::ProcView;
use crate::mprocs::state::{find_named, named, row_shapes, shapes_of, State};
use crate::term::attrs::{plain_attrs, Attrs, Color};
use crate::term::grid::{text_width, Grid, GridView, Line};
use crate::term::rect::Rect;
use crate::term::width::{text_columns, column_count};
use crate::text::{decimal, push_decimal};
use vstd::prelude::*;

pub use crate::console::list::{procs_check_hit, ClickTarget};

verus! {

/// The background of the row that is selected.
pub open spec fn row_attrs(selected: bool) -> Attrs {
    if selected {
        Attrs { bg: Color::Idx(240), ..plain_attrs() }
    } else {
        plain_attrs()
    }
}

fn attrs_for_row(selected: bool) -> (r: Attrs)
    ensures
        r == row_attrs(selected),
{
    if selected {
        Attrs::plain().bg(Color::Idx(240))
    } else {
        Attrs::plain()
    }
}

pub open spec fn dim(attrs: Attrs) -> Attrs {
    Attrs { fg: Color::BrightBlack, ..attrs }
}

pub open spec fn bullet(selected: bool) -> Seq<char> {
    if selected {
        "•"@
    } else {
        " "@
    }
}

fn bullet_for(selected: bool) -> (r: &'static str)
    ensures
        r@ == bullet(selected),
{
    if selected {
        "•"
    } else {
        " "
    }
}

/// A text with its attributes.
#[verifier::ext_equal]
pub struct Pill {
    pub text: Seq<char>,
    pub attrs: Attrs,
}

pub open spec fn bold(base: Attrs, color: Color) -> Attrs {
    Attrs { bold: true, fg: color, ..base }
}

pub open spec fn colored(base: Attrs, color: Color) -> Attrs {
    Attrs { fg: color, ..base }
}

/// How the status of a process is shown.
pub open spec fn proc_pill(status: TaskStatus, base: Attrs, waiting: bool) -> Pill {
    match status {
        TaskStatus::Starting => Pill {
            text: " STARTING "@,
            attrs: bold(base, Color::BrightYellow),
        },
        TaskStatus::Unhealthy => Pill {
            text: " UNHEALTHY "@,
            attrs: bold(base, Color::BrightRed),
        },
        TaskStatus::Running => Pill { text: " UP "@, attrs: bold(base, Color::BrightGreen) },
        TaskStatus::Exited(code) => if code == 0 {
            Pill { text: " DOWN (0)"@, attrs: colored(base, Color::BrightBlue) }
        } else {
            Pill {
                text: " DOWN ("@ + decimal(code as nat) + ")"@,
                attrs: colored(base, Color::BrightRed),
            }
        },
        _ => if waiting {
            Pill { text: " WAITING "@, attrs: colored(base, Color::BrightYellow) }
        } else {
            Pill { text: " DOWN "@, attrs: colored(base, Color::BrightBlack) }
        },
    }
}

fn status_pill_for_proc(proc: &ProcView, base: Attrs, waiting: bool) -> (r: (String, Attrs))
    ensures
        (Pill { text: r.0@, attrs: r.1 }) == proc_pill(proc.status, base, waiting),
{
    match proc.status {
        TaskStatus::Starting => {
            return (" STARTING ".to_owned(), base.set_bold(true).fg(Color::BrightYellow));
        },
        TaskStatus::Unhealthy => {
            return (" UNHEALTHY ".to_owned(), base.set_bold(true).fg(Color::BrightRed));
        },
        _ => {},
    }
    if proc.is_up() {
        return (" UP ".to_owned(), base.set_bold(true).fg(Color::BrightGreen));
    }
    match proc.exit_code() {
        Some(code) => {
            if code == 0 {
                (" DOWN (0)".to_owned(), base.fg(Color::BrightBlue))
            } else {
                let mut s = " DOWN (".to_owned();
                push_decimal(&mut s, code as u64);
                s.append(")");
                proof {
                    assert(s@ =~= " DOWN ("@ + decimal(code as nat) + ")"@);
                }
                (s, base.fg(Color::BrightRed))
            }
        },
        None => {
            if waiting {
                (" WAITING ".to_owned(), base.fg(Color::BrightYellow))
            } else {
                (" DOWN ".to_owned(), base.fg(Color::BrightBlack))
            }
        },
    }
}

/// How the status of a hook or a check is shown.
pub open spec fn child_pill(status: ChildStatus, base: Attrs) -> Pill {
    match status {
        ChildStatus::Idle => Pill { text: " — "@, attrs: colored(base, Color::BrightBlack) },
        ChildStatus::Running => Pill { text: " RUN "@, attrs: bold(base, Color::BrightYellow) },
        ChildStatus::LastExit(code) => if code == 0 {
            Pill { text: " ✓ "@, attrs: bold(base, Color::BrightGreen) }
        } else {
            Pill { text: " ✗ "@, attrs: bold(base, Color::BrightRed) }
        },
    }
}

fn status_pill_for_child(child: &ProcChild, base: Attrs, now: u64) -> (r: (&'static str, Attrs))
    ensures
        (Pill { text: r.0@, attrs: r.1 }) == child_pill(child@.shown(now), base),
{
    match child.displayed_status(now) {
        ChildStatus::Idle => (" — ", base.fg(Color::BrightBlack)),
        ChildStatus::Running => (" RUN ", base.set_bold(true).fg(Color::BrightYellow)),
        ChildStatus::LastExit(code) => {
            if code == 0 {
                (" ✓ ", base.set_bold(true).fg(Color::BrightGreen))
            } else {
                (" ✗ ", base.set_bold(true).fg(Color::BrightRed))
            }
        },
    }
}

/// Columns of `area` that a text at its right end takes.
pub open spec fn pill_cols(area: Rect, text: Seq<char>) -> int {
    if text_columns(text) < area.width {
        text_columns(text) as int
    } else {
        area.width as int
    }
}

/// A text at the right end of an area, the rest of which is blank.
pub open spec fn with_pill(g: GridView, area: Rect, pill: Pill, base: Attrs) -> GridView {
    let w = pill_cols(area, pill.text);
    g.text(
        Rect { x: (area.x + area.width - w) as u16, width: w as u16, ..area },
        pill.text,
        pill.attrs,
    ).filled(Rect { width: (area.width - w) as u16, ..area }, ' ', base)
}

fn draw_right_aligned_pill(grid: &mut Grid, area: Rect, text: &str, attrs: Attrs, base: Attrs)
    requires
        old(grid).wf(),
        area.fits(),
    ensures
        final(grid).wf(),
        final(grid)@ == with_pill(old(grid)@, area, (Pill { text: text@, attrs }), base),
{
    let columns: u16 = column_count(text);
    let w: u16 = if columns < area.width {
        columns
    } else {
        area.width
    };
    grid.draw_text(
        Rect { x: area.x + area.width - w, y: area.y, width: w, height: area.height },
        text,
        attrs,
    );
    grid.fill_area(
        Rect { x: area.x, y: area.y, width: area.width - w, height: area.height },
        ' ',
        base,
    );
}

pub open spec fn chevron(proc: ProcView) -> Seq<char> {
    if proc.children@.len() == 0 {
        "  "@
    } else if proc.expanded {
        "▼ "@
    } else {
        "▶ "@
    }
}

/// The row of a process.
pub open spec fn with_proc_row(
    g: GridView,
    area: Rect,
    proc: ProcView,
    selected: bool,
    waiting: bool,
) -> GridView {
    let attrs = row_attrs(selected);
    let line = Line { grid: g, area }.wrote(bullet(selected), attrs).wrote(
        chevron(proc),
        dim(attrs),
    ).wrote(proc.cfg.name@, attrs);
    with_pill(line.grid, line.area, proc_pill(proc.status, attrs, waiting), attrs)
}

fn render_proc_row(grid: &mut Grid, area: Rect, proc: &ProcView, selected: bool, waiting: bool)
    requires
        old(grid).wf(),
        area.fits(),
    ensures
        final(grid).wf(),
        final(grid)@ == with_proc_row(old(grid)@, area, *proc, selected, waiting),
{
    let attrs = attrs_for_row(selected);
    let rest = grid.write_line(area, bullet_for(selected), attrs);
    let chevron = if proc.children.len() > 0 {
        if proc.expanded {
            "▼ "
        } else {
            "▶ "
        }
    } else {
        "  "
    };
    let rest = grid.write_line(rest, chevron, attrs.fg(Color::BrightBlack));
    let rest = grid.write_line(rest, proc.name(), attrs);
    let (text, pill_attrs) = status_pill_for_proc(proc, attrs, waiting);
    draw_right_aligned_pill(grid, rest, text.as_str(), pill_attrs, attrs);
}

pub open spec fn kind_label(kind: ChildKind) -> Seq<char> {
    match kind {
        ChildKind::Hook(_) => "hook:"@,
        ChildKind::Check(_) => "check:"@,
        ChildKind::Deps => ""@,
    }
}

/// The row of a hook or a check.
pub open spec fn with_child_row(
    g: GridView,
    area: Rect,
    child: ProcChildModel,
    selected: bool,
    now: u64,
) -> GridView {
    let attrs = row_attrs(selected);
    let line = Line { grid: g, area }.wrote(bullet(selected), attrs).wrote(
        "  ├─ "@,
        dim(attrs),
    ).wrote(kind_label(child.kind), dim(attrs)).wrote(child.name, attrs);
    with_pill(line.grid, line.area, child_pill(child.shown(now), attrs), attrs)
}

fn render_child_row(grid: &mut Grid, area: Rect, child: &ProcChild, selected: bool, now: u64)
    requires
        old(grid).wf(),
        area.fits(),
    ensures
        final(grid).wf(),
        final(grid)@ == with_child_row(old(grid)@, area, child@, selected, now),
{
    let attrs = attrs_for_row(selected);
    let rest = grid.write_line(area, bullet_for(selected), attrs);
    let rest = grid.write_line(rest, "  ├─ ", attrs.fg(Color::BrightBlack));
    let label = match child.kind {
        ChildKind::Hook(_) => "hook:",
        ChildKind::Check(_) => "check:",
        ChildKind::Deps => "",
    };
    let rest = grid.write_line(rest, label, attrs.fg(Color::BrightBlack));
    let rest = grid.write_line(rest, child.name.as_str(), attrs);
    let (text, pill_attrs) = status_pill_for_child(child, attrs, now);
    draw_right_aligned_pill(grid, rest, text, pill_attrs, attrs);
}

/// Whether a dependency keeps a process from starting: it does not run or is
/// not known.
pub open spec fn dep_blocks(procs: Seq<ProcView>, name: Seq<char>) -> bool {
    match named(procs, name) {
        Some(i) => !(procs[i].status is Running),
        None => true,
    }
}

/// A process that was not started because it waits for a dependency.
pub open spec fn waits(proc: ProcView, procs: Seq<ProcView>) -> bool {
    proc.status is NotStarted && exists|k: int|
        0 <= k < proc.cfg.deps@.len() && dep_blocks(procs, (#[trigger] proc.cfg.deps@[k])@)
}

fn proc_is_waiting_for_deps(proc: &ProcView, all_procs: &Vec<ProcView>) -> (r: bool)
    ensures
        r == waits(*proc, all_procs@),
{
    match proc.status {
        TaskStatus::NotStarted => {},
        _ => {
            return false;
        },
    }
    let mut k: usize = 0;
    while k < proc.cfg.deps.len()
        invariant
            k <= proc.cfg.deps@.len(),
            proc.status is NotStarted,
            forall|j: int|
                0 <= j < k ==> !dep_blocks(all_procs@, (#[trigger] proc.cfg.deps@[j])@),
        decreases proc.cfg.deps@.len() - k,
    {
        match find_named(all_procs, proc.cfg.deps[k].as_str()) {
            Some(i) => match all_procs[i].status {
                TaskStatus::Running => {},
                _ => {
                    proof {
                        assert(dep_blocks(all_procs@, proc.cfg.deps@[k as int]@));
                    }
                    return true;
                },
            },
            None => {
                proof {
                    assert(dep_blocks(all_procs@, proc.cfg.deps@[k as int]@));
                }
                return true;
            },
        }
        k += 1;
    }
    false
}

/// A row of the list, `k` rows below its top.
pub open spec fn row_area(area: Rect, k: int) -> Rect {
    Rect {
        x: (area.x + 1) as u16,
        y: (area.y + 1 + k) as u16,
        width: (area.width - 2) as u16,
        height: 1,
    }
}

pub open spec fn with_row(
    g: GridView,
    area: Rect,
    procs: Seq<ProcView>,
    selected: usize,
    row: ClickTarget,
    k: int,
    now: u64,
) -> GridView {
    match row {
        ClickTarget::Proc(i) => {
            let proc = procs[i as int];
            with_proc_row(
                g,
                row_area(area, k),
                proc,
                i == selected && proc.focused_child is None,
                waits(proc, procs),
            )
        },
        ClickTarget::Child { proc_idx, child_idx } => {
            let proc = procs[proc_idx as int];
            with_child_row(
                g,
                row_area(area, k),
                proc.children@[child_idx as int]@,
                proc_idx == selected && proc.focused_child == Some(child_idx),
                now,
            )
        },
    }
}

/// The first `n` of the rows, from the top of the list down.
pub open spec fn with_rows(
    g: GridView,
    area: Rect,
    procs: Seq<ProcView>,
    selected: usize,
    rows: Seq<ClickTarget>,
    n: nat,
    now: u64,
) -> GridView
    decreases n,
{
    if n == 0 {
        g
    } else {
        with_row(
            with_rows(g, area, procs, selected, rows, (n - 1) as nat, now),
            area,
            procs,
            selected,
            rows[n - 1],
            n - 1,
            now,
        )
    }
}

/// The frame of the list with its title.
pub open spec fn with_list_frame(
    g: GridView,
    area: Rect,
    title: Seq<char>,
    active: bool,
    quitting: bool,
) -> GridView {
    let framed = g.block(area, border_of(active).chars_of(), plain_attrs());
    let titled = framed.text(
        title_area(area),
        title,
        Attrs { bold: active, ..plain_attrs() },
    );
    if quitting {
        titled.text(
            title_area(area).past(text_width(title_area(area), title) + 1),
            "QUITTING"@,
            Attrs { fg: Color::Black, bg: Color::Red, bold: true },
        )
    } else {
        titled
    }
}

/// The list of processes.
pub open spec fn with_procs(
    g: GridView,
    area: Rect,
    state: State,
    title: Seq<char>,
    now: u64,
) -> GridView {
    if area.width <= 2 {
        g
    } else {
        let framed = with_list_frame(g, area, title, state.scope is Procs, state.quitting);
        let rows = drawn_rows(
            shapes_of(state.procs@),
            state.procs_list,
            area.shrunk(1).height as nat,
        );
        with_rows(
            framed,
            area,
            state.procs@,
            state.procs_list.selected,
            rows,
            rows.len(),
            now,
        )
    }
}

fn draw_list_frame(grid: &mut Grid, area: Rect, title: &str, active: bool, quitting: bool)
    requires
        old(grid).wf(),
        area.fits(),
        area.width > 2,
        area.y < u16::MAX,
    ensures
        final(grid).wf(),
        final(grid)@ == with_list_frame(old(grid)@, area, title@, active, quitting),
{
    grid.draw_block(area, &border_for(active).chars(), Attrs::plain());
    let title_rect = Rect { x: area.x + 1, y: area.y, width: area.width - 2, height: 1 };
    let r = grid.draw_text(title_rect, title, Attrs::plain().set_bold(active));
    if quitting {
        grid.draw_text(
            title_rect.move_left(r.width + 1),
            "QUITTING",
            Attrs::plain().fg(Color::Black).bg(Color::Red).set_bold(true),
        );
    }
}

/// Draws the rows of the processes from `start` up to `end`, as far as there
/// is room.
fn draw_rows(grid: &mut Grid, area: Rect, procs: &Vec<ProcView>, list: ListState, now: u64)
    requires
        old(grid).wf(),
        area.fits(),
        area.width > 2,
        area.y < u16::MAX,
        list.start <= list.end <= procs@.len(),
    ensures
        final(grid).wf(),
        ({
            let rows = drawn_rows(shapes_of(procs@), list, area.shrunk(1).height as nat);
            final(grid)@ == with_rows(
                old(grid)@,
                area,
                procs@,
                list.selected,
                rows,
                rows.len(),
                now,
            )
        }),
{
    let ghost g0 = grid@;
    let ghost shapes = shapes_of(procs@);
    let ghost all = rows_between(shapes, list.start as int, list.end as int);
    let height: u16 = area.inner(1).height;
    let ghost rows = drawn_rows(shapes, list, height as nat);
    let mut drawn: u16 = 0;
    let mut i: usize = list.start;
    while i < list.end
        invariant
            grid.wf(),
            area.fits(),
            area.width > 2,
            height <= area.height,
            height > 0 ==> height + 2 <= area.height,
            list.start <= i <= list.end <= procs@.len(),
            shapes == shapes_of(procs@),
            all == rows_between(shapes, list.start as int, list.end as int),
            rows == drawn_rows(shapes, list, height as nat),
            drawn <= height,
            drawn == rows_between(shapes, list.start as int, i as int).len() || (drawn == height
                && rows_between(shapes, list.start as int, i as int).len() > height),
            grid@ == with_rows(g0, area, procs@, list.selected, rows, drawn as nat, now),
        decreases list.end - i,
    {
        let ghost before = rows_between(shapes, list.start as int, i as int);
        let ghost here = rows_of(shapes[i as int], i as int);
        let ghost upto = rows_between(shapes, list.start as int, i + 1);
        let proc = &procs[i];
        let children: usize = proc.children.len();
        proof {
            assert(upto == before + here);
            crate::console::list::lemma_rows_prefix(
                shapes,
                list.start as int,
                i + 1,
                list.end as int,
            );
            assert(shapes[i as int].children == children);
        }
        if drawn < height {
            proof {
                assert(upto[drawn as int] == here[0]);
                assert(all.subrange(0, upto.len() as int)[drawn as int] == upto[drawn as int]);
                assert(rows[drawn as int] == ClickTarget::Proc(i));
            }
            let selected = i == list.selected && proc.focused_child.is_none();
            let waiting = proc_is_waiting_for_deps(proc, procs);
            render_proc_row(
                grid,
                Rect { x: area.x + 1, y: area.y + 1 + drawn, width: area.width - 2, height: 1 },
                proc,
                selected,
                waiting,
            );
            drawn += 1;
            let count: usize = if proc.expanded {
                children
            } else {
                0
            };
            let mut ci: usize = 0;
            while ci < count && drawn < height
                invariant
                    grid.wf(),
                    area.fits(),
                    area.width > 2,
                    height + 2 <= area.height,
                    i < procs@.len(),
                    *proc == procs@[i as int],
                    shapes == shapes_of(procs@),
                    count == shapes[i as int].below(),
                    count <= proc.children@.len(),
                    ci <= count,
                    before.len() + 1 + ci == drawn,
                    drawn <= height,
                    here == rows_of(shapes[i as int], i as int),
                    upto == before + here,
                    upto.is_prefix_of(all),
                    all == rows_between(shapes, list.start as int, list.end as int),
                    rows == drawn_rows(shapes, list, height as nat),
                    grid@ == with_rows(g0, area, procs@, list.selected, rows, drawn as nat, now),
                decreases count - ci,
            {
                proof {
                    assert(upto[drawn as int] == here[ci + 1]);
                    assert(all.subrange(0, upto.len() as int)[drawn as int] == upto[drawn as int]);
                    assert(rows[drawn as int] == (ClickTarget::Child {
                        proc_idx: i,
                        child_idx: ci,
                    }));
                }
                let selected = i == list.selected && (match proc.focused_child {
                    Some(c) => c == ci,
                    None => false,
                });
                render_child_row(
                    grid,
                    Rect {
                        x: area.x + 1,
                        y: area.y + 1 + drawn,
                        width: area.width - 2,
                        height: 1,
                    },
                    &proc.children[ci],
                    selected,
                    now,
                );
                drawn += 1;
                ci += 1;
            }
        }
        i += 1;
    }
    proof {
        assert(rows.len() == drawn);
    }
}

/// Draws the list of processes and fits it to its area.
pub fn render_procs(area: Rect, grid: &mut Grid, state: &mut State, config: &Config, now: u64)
    requires
        old(grid).wf(),
        area.fits(),
        area.x < u16::MAX,
        area.y < u16::MAX,
    ensures
        final(grid).wf(),
        final(state).procs_list == old(state).procs_list.fitted(
            area.shrunk(1).height,
            old(state).procs@.len(),
        ),
        *final(state) == (State { procs_list: final(state).procs_list, ..*old(state) }),
        final(grid)@ == with_procs(
            old(grid)@,
            area,
            *final(state),
            config.proc_list_title@,
            now,
        ),
{
    state.procs_list.fit(area.inner(1), state.procs.len());
    if area.width <= 2 {
        return;
    }
    let active = match state.scope {
        Scope::Procs => true,
        _ => false,
    };
    draw_list_frame(grid, area, config.proc_list_title.as_str(), active, state.quitting);
    draw_rows(grid, area, &state.procs, state.procs_list, now);
}

/// What a click on the list hits.
pub fn procs_get_clicked_index(area: Rect, x: u16, y: u16, state: &State) -> (r: Option<
    ClickTarget,
>)
    ensures
        r == clicked(area, x, y, shapes_of(state.procs@), state.procs_list.selected),
{
    clicked_row(area, x, y, &row_shapes(&state.procs), state.selected())
}

} // verus!
