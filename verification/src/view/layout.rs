//! Where things stand: rows and columns of an area, and popups over it.
use ratatui::layout::{Constraint, Layout};
use vstd::prelude::*;

use crate::app::types::{is_narrow, PaneFocus, Rect, TWO_PANE_MIN_WIDTH};

verus! {

/// How high a row wants to be.
#[derive(Debug, Clone, Copy, PartialEq, Eq, Structural)]
pub enum Row {
    Length(u16),
    /// What the others leave.
    Fill,
}

/// What the rows of a fixed height ask for.
pub open spec fn asked(rows: Seq<Row>) -> nat
    decreases rows.len(),
{
    if rows.len() == 0 {
        0
    } else {
        asked(rows.drop_last()) + match rows.last() {
            Row::Length(n) => n as nat,
            Row::Fill => 0,
        }
    }
}

/// How many rows take what the others leave.
pub open spec fn fills(rows: Seq<Row>) -> nat
    decreases rows.len(),
{
    if rows.len() == 0 {
        0
    } else {
        fills(rows.drop_last()) + match rows.last() {
            Row::Length(_) => 0nat,
            Row::Fill => 1,
        }
    }
}

/// Whether an area ends on the screen.
pub open spec fn on_screen(area: Rect) -> bool {
    area.x + area.width <= u16::MAX && area.y + area.height <= u16::MAX
}

/// Whether an area has room for rows of which at most one takes what is left.
pub open spec fn has_room(area: Rect, rows: Seq<Row>) -> bool {
    on_screen(area) && asked(rows) <= area.height && fills(rows) <= 1
}

/// How high a row comes out where there is room for all of them.
pub open spec fn row_height(area: Rect, rows: Seq<Row>, i: int) -> int {
    match rows[i] {
        Row::Length(n) => n as int,
        Row::Fill => area.height - asked(rows),
    }
}

/// Where a row begins, counted from the top.
pub open spec fn row_top(area: Rect, rows: Seq<Row>, i: int) -> int
    decreases i,
{
    if i <= 0 {
        0
    } else {
        row_top(area, rows, i - 1) + row_height(area, rows, i - 1)
    }
}

/// The rows of an area, from its top down.
pub open spec fn cut(area: Rect, rows: Seq<Row>) -> Seq<Rect> {
    Seq::new(
        rows.len(),
        |i: int|
            Rect {
                x: area.x,
                y: (area.y + row_top(area, rows, i)) as u16,
                width: area.width,
                height: row_height(area, rows, i) as u16,
            },
    )
}

/// `ratatui::layout::Layout::vertical` with `split`: an area cut into rows, for
/// `Length` and `Fill(1)`.
///
/// Claimed: there is one rectangle for each row, as wide as the area and at its left
/// edge. Where the area ends on the screen, no row reaches out of it. Where it also
/// has room for all the rows of a fixed height, and at most one row fills, the rows
/// follow each other from the top: those of a fixed height have it, and the one that
/// fills has the rest. Where there is too little room a constraint solver settles
/// which rows give way; that is documented as indeterminate, and is not stated.
#[verifier::external_body]
pub(crate) fn stack(area: Rect, rows: &Vec<Row>) -> (r: Vec<Rect>)
    ensures
        r@.len() == rows@.len(),
        forall|i: int|
            0 <= i < r@.len() ==> (#[trigger] r@[i]).x == area.x && r@[i].width == area.width,
        on_screen(area) ==> forall|i: int|
            0 <= i < r@.len() ==> area.y <= (#[trigger] r@[i]).y && r@[i].y + r@[i].height
                <= area.y + area.height,
        has_room(area, rows@) ==> r@ == cut(area, rows@),
{
    let wants = rows.iter().map(|r| match r {
        Row::Length(n) => Constraint::Length(*n),
        Row::Fill => Constraint::Fill(1),
    });
    let Rect { x, y, width, height } = area;
    let whole = ratatui::layout::Rect { x, y, width, height };
    let cut = Layout::vertical(wants).split(whole);
    cut.iter().map(|c| Rect { x: c.x, y: c.y, width: c.width, height: c.height }).collect()
}

/// A share of a width in percent, rounded to the nearest column.
pub open spec fn share(width: u16, percent: u16) -> u16 {
    ((width * percent + 50) / 100) as u16
}

/// `ratatui::layout::Layout::horizontal` with `split`: an area cut into two columns by
/// percentages.
///
/// Claimed, of percentages that make up the whole: both columns are as high as the
/// area and stand at its top edge. Where the area ends on the screen, the left one
/// has its share of the width, rounded to the nearest column, and the right one has
/// the rest.
#[verifier::external_body]
pub(crate) fn columns(area: Rect, left: u16, right: u16) -> (r: (Rect, Rect))
    requires
        left + right == 100,
    ensures
        r.0.y == area.y && r.0.height == area.height,
        r.1.y == area.y && r.1.height == area.height,
        on_screen(area) ==> r.0.x == area.x && r.0.width == share(area.width, left),
        on_screen(area) ==> r.1.x == area.x + share(area.width, left) && r.1.width == area.width
            - share(area.width, left),
{
    let wants = [Constraint::Percentage(left), Constraint::Percentage(right)];
    let Rect { x, y, width, height } = area;
    let whole = ratatui::layout::Rect { x, y, width, height };
    let [a, b] = Layout::horizontal(wants).areas(whole);
    (
        Rect { x: a.x, y: a.y, width: a.width, height: a.height },
        Rect { x: b.x, y: b.y, width: b.width, height: b.height },
    )
}

/// How the active space splits its body.
#[derive(Debug, Clone, Copy, PartialEq, Eq, Structural)]
pub enum BodyLayout {
    /// Both panes, side by side.
    Split { master: Rect, detail: Rect },
    /// One pane at a time.
    Single { pane: Rect, focus: PaneFocus },
}

/// How the active space splits its body: two panes side by side on wide terminals, or
/// the focused one alone on narrow ones.
pub fn body_layout(body: Rect, focus: PaneFocus) -> (r: BodyLayout)
    ensures
        body.width < TWO_PANE_MIN_WIDTH ==> r == (BodyLayout::Single { pane: body, focus }),
        body.width >= TWO_PANE_MIN_WIDTH ==> (r matches BodyLayout::Split { master, detail }
            && master.y == body.y && master.height == body.height && detail.y == body.y
            && detail.height == body.height),
        body.width >= TWO_PANE_MIN_WIDTH && on_screen(body) ==> r == side_by_side(body),
{
    if is_narrow(body.width) {
        BodyLayout::Single { pane: body, focus }
    } else {
        let (master, detail) = columns(body, 40, 60);
        BodyLayout::Split { master, detail }
    }
}

/// Two panes that share a body: two fifths for the list, the rest for the detail.
pub open spec fn side_by_side(body: Rect) -> BodyLayout {
    let left = share(body.width, 40);
    BodyLayout::Split {
        master: Rect { width: left, ..body },
        detail: Rect {
            x: (body.x + left) as u16,
            width: (body.width - left) as u16,
            ..body
        },
    }
}

/// The two panes fill their body without a gap and without an overlap, and neither is
/// empty.
pub proof fn law_the_panes_fill_the_body(body: Rect)
    requires
        on_screen(body),
        body.width >= TWO_PANE_MIN_WIDTH,
    ensures
        side_by_side(body) matches BodyLayout::Split { master, detail } && {
            &&& master.x == body.x
            &&& detail.x == master.x + master.width
            &&& detail.x + detail.width == body.x + body.width
            &&& 0 < master.width < detail.width
        },
{
}

proof fn lemma_rows_add_up(area: Rect, rows: Seq<Row>, i: int)
    requires
        0 <= i <= rows.len(),
    ensures
        row_top(area, rows, i) == asked(rows.take(i)) + fills(rows.take(i)) * (area.height - asked(
            rows,
        )),
    decreases i,
{
    if i == 0 {
        assert(rows.take(0) =~= Seq::empty());
    } else {
        lemma_rows_add_up(area, rows, i - 1);
        let before = rows.take(i);
        assert(before.drop_last() =~= rows.take(i - 1));
        assert(before.last() == rows[i - 1]);
        let rest = area.height - asked(rows);
        assert((fills(rows.take(i - 1)) + 1) * rest == fills(rows.take(i - 1)) * rest + rest)
            by (nonlinear_arith);
    }
}

/// Rows that fit follow each other, and where one of them fills, they use up the area.
pub proof fn law_rows_stack_up(area: Rect, rows: Seq<Row>)
    requires
        has_room(area, rows),
        fills(rows) == 1,
    ensures
        row_top(area, rows, rows.len() as int) == area.height,
{
    lemma_rows_add_up(area, rows, rows.len() as int);
    assert(rows.take(rows.len() as int) =~= rows);
    let rest = area.height - asked(rows);
    assert(1 * rest == rest) by (nonlinear_arith);
}

/// The lesser of two numbers.
pub open spec fn lesser(a: u16, b: u16) -> u16 {
    if a < b {
        a
    } else {
        b
    }
}

/// A popup of at most `w` by `h` in the middle of an area, one cell away from its
/// edges; none where it would be smaller than asked for.
pub open spec fn popup(area: Rect, w: u16, h: u16, min_w: u16, min_h: u16) -> Option<Rect> {
    let width = lesser(w, crate::app::types::less_two(area.width));
    let height = lesser(h, crate::app::types::less_two(area.height));
    if width < min_w || height < min_h {
        None
    } else {
        Some(
            Rect {
                x: middle(area.x, area.width, width),
                y: middle(area.y, area.height, height),
                width,
                height,
            },
        )
    }
}

/// Where something of a length stands in the middle of a longer stretch.
pub open spec fn middle(start: u16, length: u16, inner: u16) -> u16 {
    let at = start + (length - inner) / 2;
    if at > u16::MAX {
        u16::MAX
    } else {
        at as u16
    }
}

/// Centre a popup of `w` by `h` inside an area, or none if it will not fit.
pub fn popup_rect(area: Rect, w: u16, h: u16, min_w: u16, min_h: u16) -> (r: Option<Rect>)
    ensures
        r == popup(area, w, h, min_w, min_h),
{
    let room_w: u16 = area.width.saturating_sub(2);
    let room_h: u16 = area.height.saturating_sub(2);
    let width: u16 = if w < room_w {
        w
    } else {
        room_w
    };
    let height: u16 = if h < room_h {
        h
    } else {
        room_h
    };
    if width < min_w || height < min_h {
        return None;
    }
    let left: u16 = (area.width - width) / 2;
    let top: u16 = (area.height - height) / 2;
    Some(Rect { x: area.x.saturating_add(left), y: area.y.saturating_add(top), width, height })
}

/// A popup never touches the edge of its area, and is in its middle.
pub proof fn law_a_popup_stays_inside(area: Rect, w: u16, h: u16, min_w: u16, min_h: u16)
    requires
        area.x + area.width <= u16::MAX,
        area.y + area.height <= u16::MAX,
    ensures
        popup(area, w, h, min_w, min_h) matches Some(p) ==> {
            &&& area.x <= p.x && p.x + p.width <= area.x + area.width
            &&& area.y <= p.y && p.y + p.height <= area.y + area.height
            &&& p.width <= w && p.height <= h
            &&& p.width >= min_w && p.height >= min_h
        },
{
}

/// How many items a list has scrolled past, so that the selected one is in sight.
pub open spec fn scrolled_past(selected: nat, visible: nat) -> nat {
    if visible > 0 && selected >= visible {
        (selected + 1 - visible) as nat
    } else {
        0
    }
}

/// How many items a list has scrolled past, so that the selected one is in sight.
pub fn scroll_offset(selected: usize, height: u16) -> (r: usize)
    ensures
        r == scrolled_past(selected as nat, crate::app::types::less_two(height) as nat),
{
    let visible: usize = height.saturating_sub(2) as usize;
    if visible > 0 && selected >= visible {
        selected - (visible - 1)
    } else {
        0
    }
}

} // verus!
