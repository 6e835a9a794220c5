//! What both interfaces draw in the pane beside the list: the screen of a
//! process, or the state of its dependencies.

use crate::kernel::task::TaskStatus;
use crate::mprocs::proc::copy_mode::Pos as TextPos;
use crate::term::attrs::{plain_attrs, Attrs, Color};
use crate::term::grid::{
    lemma_up_to_end, lemma_up_to_row, lemma_up_to_step, up_to, BorderType, Cell, Grid, GridView,
};
use crate::term::rect::{Pos, Rect};
use crate::term::screen::Screen;
use crate::text::{decimal, push_decimal};
use vstd::prelude::*;

verus! {

/// A dependency and the status of the process of that name, if there is one.
pub struct DepRow {
    pub name: String,
    pub status: Option<TaskStatus>,
}

#[verifier::ext_equal]
pub struct DepModel {
    pub name: Seq<char>,
    pub status: Option<TaskStatus>,
}

impl View for DepRow {
    type V = DepModel;

    open spec fn view(&self) -> DepModel {
        DepModel { name: self.name@, status: self.status }
    }
}

pub open spec fn dep_rows_view(rows: Seq<DepRow>) -> Seq<DepModel> {
    rows.map_values(|r: DepRow| r@)
}

/// How the status of a dependency is shown: a sign and a word in one color.
#[verifier::ext_equal]
pub struct DepVisual {
    pub symbol: Seq<char>,
    pub text: Seq<char>,
    pub color: Color,
}

pub open spec fn dep_visual(status: Option<TaskStatus>) -> DepVisual {
    match status {
        None => DepVisual { symbol: " ? "@, text: "not found"@, color: Color::BrightRed },
        Some(TaskStatus::Running) => DepVisual {
            symbol: " ✓ "@,
            text: "UP"@,
            color: Color::BrightGreen,
        },
        Some(TaskStatus::Starting) => DepVisual {
            symbol: " … "@,
            text: "STARTING"@,
            color: Color::BrightYellow,
        },
        Some(TaskStatus::Unhealthy) => DepVisual {
            symbol: " ✗ "@,
            text: "UNHEALTHY"@,
            color: Color::BrightRed,
        },
        Some(TaskStatus::Completed) => DepVisual {
            symbol: " ✓ "@,
            text: "DONE"@,
            color: Color::BrightGreen,
        },
        Some(TaskStatus::NotStarted) => DepVisual {
            symbol: " — "@,
            text: "not started"@,
            color: Color::BrightBlack,
        },
        Some(TaskStatus::Exited(code)) => if code == 0 {
            DepVisual { symbol: " ○ "@, text: "DOWN (0)"@, color: Color::BrightBlue }
        } else {
            DepVisual {
                symbol: " ✗ "@,
                text: "DOWN ("@ + decimal(code as nat) + ")"@,
                color: Color::BrightRed,
            }
        },
    }
}

fn dep_row_visuals(status: Option<TaskStatus>) -> (r: (&'static str, String, Color))
    ensures
        (DepVisual { symbol: r.0@, text: r.1@, color: r.2 }) == dep_visual(status),
{
    match status {
        None => (" ? ", "not found".to_owned(), Color::BrightRed),
        Some(TaskStatus::Running) => (" ✓ ", "UP".to_owned(), Color::BrightGreen),
        Some(TaskStatus::Starting) => (" … ", "STARTING".to_owned(), Color::BrightYellow),
        Some(TaskStatus::Unhealthy) => (" ✗ ", "UNHEALTHY".to_owned(), Color::BrightRed),
        Some(TaskStatus::Completed) => (" ✓ ", "DONE".to_owned(), Color::BrightGreen),
        Some(TaskStatus::NotStarted) => (" — ", "not started".to_owned(), Color::BrightBlack),
        Some(TaskStatus::Exited(code)) => {
            if code == 0 {
                (" ○ ", "DOWN (0)".to_owned(), Color::BrightBlue)
            } else {
                let mut s = "DOWN (".to_owned();
                push_decimal(&mut s, code as u64);
                s.append(")");
                proof {
                    assert(s@ =~= "DOWN ("@ + decimal(code as nat) + ")"@);
                }
                (" ✗ ", s, Color::BrightRed)
            }
        },
    }
}

/// The length of the longest name.
pub open spec fn longest(deps: Seq<DepModel>) -> nat
    decreases deps.len(),
{
    if deps.len() == 0 {
        0
    } else {
        let rest = longest(deps.drop_last());
        if deps.last().name.len() > rest {
            deps.last().name.len()
        } else {
            rest
        }
    }
}

/// The columns for the names: enough for the longest one, but twenty fewer
/// than there are.
pub open spec fn name_columns(deps: Seq<DepModel>, width: int) -> int {
    let wanted = (longest(deps) + 4) % 65536;
    let most = if width >= 20 {
        width - 20
    } else {
        0
    };
    if wanted < most {
        wanted as int
    } else {
        most
    }
}

fn name_column_width(deps: &Vec<DepRow>, width: u16) -> (r: u16)
    ensures
        r == name_columns(dep_rows_view(deps@), width as int),
{
    let ghost all = dep_rows_view(deps@);
    let mut most: usize = 0;
    let mut i: usize = 0;
    proof {
        assert(all.take(0) =~= Seq::<DepModel>::empty());
    }
    while i < deps.len()
        invariant
            i <= deps@.len(),
            all == dep_rows_view(deps@),
            most == longest(all.take(i as int)),
        decreases deps@.len() - i,
    {
        let n: usize = deps[i].name.as_str().unicode_len();
        proof {
            assert(all.take(i + 1).drop_last() =~= all.take(i as int));
            assert(all.take(i + 1).last() == deps@[i as int]@);
        }
        if n > most {
            most = n;
        }
        i += 1;
    }
    proof {
        assert(all.take(i as int) =~= all);
    }
    let wanted: u16 = ((most % 65536 + 4) % 65536) as u16;
    let room: u16 = if width >= 20 {
        width - 20
    } else {
        0
    };
    if wanted < room {
        wanted
    } else {
        room
    }
}

/// The line of one dependency.
pub open spec fn with_dep_row(
    g: GridView,
    inner: Rect,
    name_w: int,
    i: int,
    dep: DepModel,
) -> GridView {
    let y = (inner.y + 2 + i) as u16;
    let look = dep_visual(dep.status);
    let named = g.text(
        Rect { x: inner.x, y, width: 3, height: 1 },
        look.symbol,
        Attrs { fg: look.color, bold: true, ..plain_attrs() },
    ).text(
        Rect { x: (inner.x + 3) as u16, y, width: name_w as u16, height: 1 },
        dep.name,
        plain_attrs(),
    );
    if 4 + name_w < inner.width {
        named.text(
            Rect {
                x: (inner.x + 4 + name_w) as u16,
                y,
                width: (inner.width - 4 - name_w) as u16,
                height: 1,
            },
            look.text,
            Attrs { fg: look.color, ..plain_attrs() },
        )
    } else {
        named
    }
}

/// The lines of the first `n` dependencies.
pub open spec fn with_dep_rows(
    g: GridView,
    inner: Rect,
    deps: Seq<DepModel>,
    n: nat,
) -> GridView
    decreases n,
{
    if n == 0 {
        g
    } else {
        with_dep_row(
            with_dep_rows(g, inner, deps, (n - 1) as nat),
            inner,
            name_columns(deps, inner.width as int),
            n - 1,
            deps[n - 1],
        )
    }
}

/// The dependencies that there is room for below the heading.
pub open spec fn shown_deps(deps: Seq<DepModel>, height: int) -> nat {
    if height <= 2 {
        0
    } else if deps.len() <= height - 2 {
        deps.len()
    } else {
        (height - 2) as nat
    }
}

pub open spec fn border_of(active: bool) -> BorderType {
    if active {
        BorderType::Thick
    } else {
        BorderType::Plain
    }
}

pub fn border_for(active: bool) -> (r: BorderType)
    ensures
        r == border_of(active),
{
    if active {
        BorderType::Thick
    } else {
        BorderType::Plain
    }
}

/// The part of the top border that a title may take.
pub open spec fn title_area(area: Rect) -> Rect {
    Rect { x: (area.x + 1) as u16, y: area.y, width: (area.width - 2) as u16, height: 1 }
}

pub open spec fn bold_if(active: bool) -> Attrs {
    Attrs { bold: active, ..plain_attrs() }
}

/// A frame with a title.
pub open spec fn with_frame(g: GridView, area: Rect, title: Seq<char>, active: bool) -> GridView {
    g.block(area, border_of(active).chars_of(), plain_attrs()).text(
        title_area(area),
        title,
        bold_if(active),
    )
}

pub open spec fn first_line(inner: Rect) -> Rect {
    Rect { height: 1, ..inner }
}

/// The dependencies of a process, each with its status.
pub open spec fn with_deps_pane(
    g: GridView,
    area: Rect,
    active: bool,
    name: Seq<char>,
    deps: Seq<DepModel>,
) -> GridView {
    let inner = area.shrunk(1);
    with_dep_rows(
        with_frame(g, area, "Dependencies"@, active).text(
            first_line(inner),
            "Dependencies of "@ + name,
            bold_if(true),
        ),
        inner,
        deps,
        shown_deps(deps, inner.height as int),
    )
}

/// Draws a frame with a title and returns what is left of the title's line.
pub fn draw_frame(grid: &mut Grid, area: Rect, title: &str, active: bool) -> (r: Rect)
    requires
        old(grid).wf(),
        area.fits(),
        area.width >= 3,
        area.height >= 3,
    ensures
        final(grid).wf(),
        final(grid)@ == with_frame(old(grid)@, area, title@, active),
        r == title_area(area).past(
            crate::term::grid::text_width(title_area(area), title@),
        ),
        r.fits(),
{
    grid.draw_block(area, &border_for(active).chars(), Attrs::plain());
    let line = Rect { x: area.x + 1, y: area.y, width: area.width - 2, height: 1 };
    let r = grid.draw_text(line, title, Attrs::plain().set_bold(active));
    line.move_left(r.width)
}

fn draw_dep_row(grid: &mut Grid, inner: Rect, name_w: u16, i: u16, dep: &DepRow)
    requires
        old(grid).wf(),
        inner.fits(),
        inner.x + 4 + name_w <= u16::MAX,
        2 + i < inner.height,
    ensures
        final(grid).wf(),
        final(grid)@ == with_dep_row(old(grid)@, inner, name_w as int, i as int, dep@),
{
    let y: u16 = inner.y + 2 + i;
    let (symbol, text, color) = dep_row_visuals(dep.status);
    grid.draw_text(
        Rect { x: inner.x, y, width: 3, height: 1 },
        symbol,
        Attrs::plain().fg(color).set_bold(true),
    );
    grid.draw_text(
        Rect { x: inner.x + 3, y, width: name_w, height: 1 },
        dep.name.as_str(),
        Attrs::plain(),
    );
    let status_x: u16 = inner.x + 4 + name_w;
    if status_x < inner.x + inner.width {
        grid.draw_text(
            Rect { x: status_x, y, width: inner.x + inner.width - status_x, height: 1 },
            text.as_str(),
            Attrs::plain().fg(color),
        );
    }
}

/// Draws the dependencies of a process.
pub fn draw_deps_pane(
    grid: &mut Grid,
    area: Rect,
    active: bool,
    name: &str,
    deps: &Vec<DepRow>,
)
    requires
        old(grid).wf(),
        area.fits(),
        area.width >= 3,
        area.height >= 3,
        area.x + 5 <= u16::MAX,
    ensures
        final(grid).wf(),
        final(grid)@ == with_deps_pane(old(grid)@, area, active, name@, dep_rows_view(deps@)),
{
    let ghost all = dep_rows_view(deps@);
    draw_frame(grid, area, "Dependencies", active);
    let inner = area.inner(1);
    let mut heading = "Dependencies of ".to_owned();
    heading.append(name);
    grid.draw_text(
        Rect { x: inner.x, y: inner.y, width: inner.width, height: 1 },
        heading.as_str(),
        Attrs::plain().set_bold(true),
    );
    let name_w: u16 = name_column_width(deps, inner.width);
    let ghost g1 = grid@;
    let mut i: u16 = 0;
    while (i as usize) < deps.len() && i + 2 < inner.height
        invariant
            grid.wf(),
            inner.fits(),
            inner.x + 4 + name_w <= u16::MAX,
            all == dep_rows_view(deps@),
            name_w == name_columns(all, inner.width as int),
            i <= shown_deps(all, inner.height as int),
            i + 2 <= u16::MAX,
            grid@ == with_dep_rows(g1, inner, all, i as nat),
        decreases inner.height - i,
    {
        proof {
            assert(all[i as int] == deps@[i as int]@);
        }
        draw_dep_row(grid, inner, name_w, i, &deps[i as usize]);
        i += 1;
    }
}

/// A cell of a screen as it is shown: an empty one is a space, a selected one
/// has its own colors.
pub open spec fn shown_cell(cell: Cell, selected: bool) -> Cell {
    Cell {
        ch: match cell.ch {
            Some(c) => Some(c),
            None => Some(' '),
        },
        attrs: if selected {
            Attrs { fg: Color::Black, bg: Color::Cyan, ..plain_attrs() }
        } else {
            cell.attrs
        },
    }
}

/// Whether the cell in a row and a column of the view is selected. Rows above
/// the screen count down from zero.
pub open spec fn is_selected(
    selection: Option<(TextPos, TextPos)>,
    screen: Screen,
    row: int,
    col: int,
) -> bool {
    match selection {
        Some((start, end)) => TextPos::spans(
            start,
            end,
            TextPos {
                y: (row - (#[verifier::truncate] (screen.scrollback as i32))) as i32,
                x: col as i32,
            },
        ),
        None => false,
    }
}

/// What is shown in `area` for a screen. Where the screen has no cell, the
/// area is blank or is left as it was.
pub open spec fn screen_cells(
    g: GridView,
    screen: Screen,
    area: Rect,
    selection: Option<(TextPos, TextPos)>,
    blank_outside: bool,
) -> spec_fn(int, int) -> Option<Cell> {
    |col: int, row: int|
        match screen.cell_at(row - area.y, col - area.x) {
            _ if !area.covers(col, row) => None,
            Some(cell) => Some(
                shown_cell(cell, is_selected(selection, screen, row - area.y, col - area.x)),
            ),
            None => if blank_outside {
                Some(Cell { ch: Some(' '), attrs: g.cells[(col, row)].attrs })
            } else {
                None
            },
        }
}

/// The rows of the view can be counted from the selection.
pub open spec fn countable(
    selection: Option<(TextPos, TextPos)>,
    screen: Screen,
    area: Rect,
) -> bool {
    selection is Some ==> area.height - (#[verifier::truncate] (screen.scrollback as i32))
        <= i32::MAX
}

/// Draws a screen.
pub fn draw_screen(
    grid: &mut Grid,
    screen: &Screen,
    area: Rect,
    selection: Option<(TextPos, TextPos)>,
    blank_outside: bool,
)
    requires
        old(grid).wf(),
        area.fits(),
        countable(selection, *screen, area),
    ensures
        final(grid).wf(),
        final(grid)@ == old(grid)@.painted(
            screen_cells(old(grid)@, *screen, area, selection, blank_outside),
        ),
{
    let ghost g0 = grid@;
    let ghost f = screen_cells(g0, *screen, area, selection, blank_outside);
    proof {
        grid.lemma_view();
        assert(g0.painted(up_to(f, area, area.y as int, area.x as int)) =~= g0);
    }
    let mut row: u16 = 0;
    while row < area.height
        invariant
            grid.wf(),
            g0.wf(),
            area.fits(),
            countable(selection, *screen, area),
            row <= area.height,
            f == screen_cells(g0, *screen, area, selection, blank_outside),
            grid@ == g0.painted(up_to(f, area, area.y + row, area.x as int)),
        decreases area.height - row,
    {
        let mut col: u16 = 0;
        while col < area.width
            invariant
                grid.wf(),
                g0.wf(),
                area.fits(),
                countable(selection, *screen, area),
                row < area.height,
                col <= area.width,
                f == screen_cells(g0, *screen, area, selection, blank_outside),
                grid@ == g0.painted(up_to(f, area, area.y + row, area.x + col)),
            decreases area.width - col,
        {
            let pos = Pos { col: area.x + col, row: area.y + row };
            if let Some(current) = grid.drawing_cell(pos) {
                match screen.cell(row, col) {
                    Some(cell) => {
                        let selected = match selection {
                            Some((start, end)) => {
                                let scrolled: i32 = #[verifier::truncate]
                                (screen.scrollback as i32);
                                TextPos::within(
                                    &start,
                                    &end,
                                    &TextPos { y: row as i32 - scrolled, x: col as i32 },
                                )
                            },
                            None => false,
                        };
                        let ch = match cell.ch {
                            Some(c) => c,
                            None => ' ',
                        };
                        let attrs = if selected {
                            Attrs::plain().fg(Color::Black).bg(Color::Cyan)
                        } else {
                            cell.attrs
                        };
                        grid.put(pos, Cell { ch: Some(ch), attrs });
                    },
                    None => {
                        if blank_outside {
                            grid.put(pos, Cell { ch: Some(' '), attrs: current.attrs });
                        }
                    },
                }
            }
            proof {
                lemma_up_to_step(g0, f, area, area.y + row, area.x + col);
            }
            col += 1;
        }
        proof {
            lemma_up_to_row(g0, f, area, area.y + row);
        }
        row += 1;
    }
    proof {
        lemma_up_to_end(g0, f, area);
    }
}

} // verus!
