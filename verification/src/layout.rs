//! Screen areas: the rectangles that the monitor's panels and process cards are drawn in,
//! as ratatui's layout solver divides them.

use ratatui::layout::{Constraint, Direction, Layout, Rect};
use vstd::prelude::*;

verus! {

/// A rectangle of terminal cells: its top left corner and its size.
#[derive(Clone, Copy, Debug, PartialEq, Eq, Structural)]
pub struct Area {
    pub x: u16,
    pub y: u16,
    pub width: u16,
    pub height: u16,
}

/// The size that a layout asks for one of its parts: exactly `Length` cells, a share
/// `Fill` of what is left, or at least `Min` cells.
#[derive(Clone, Copy, Debug, PartialEq, Eq, Structural)]
pub enum Slot {
    Length(u16),
    Fill(u16),
    Min(u16),
}

/// `a` lies inside `outer`.
pub open spec fn within(a: Area, outer: Area) -> bool {
    &&& outer.x <= a.x
    &&& a.x + a.width <= outer.x + outer.width
    &&& outer.y <= a.y
    &&& a.y + a.height <= outer.y + outer.height
}

/// A part of `area` as a layout of the given direction makes it: a vertical layout keeps
/// the area's column (`x` and `width`) and cuts a band of rows out of its rows; a
/// horizontal layout keeps its rows (`y` and `height`) and cuts a band of columns.
pub open spec fn part_of(vertical: bool, part: Area, area: Area) -> bool {
    if vertical {
        &&& part.x == area.x
        &&& part.width == area.width
        &&& area.y <= part.y
        &&& part.y + part.height <= area.y + area.height
    } else {
        &&& part.y == area.y
        &&& part.height == area.height
        &&& area.x <= part.x
        &&& part.x + part.width <= area.x + area.width
    }
}

/// Where `a` starts along the direction of a layout: its `y` for a vertical one, its `x` for
/// a horizontal one.
pub open spec fn axis_start(vertical: bool, a: Area) -> int {
    if vertical {
        a.y as int
    } else {
        a.x as int
    }
}

/// The size of `a` along the direction of a layout.
pub open spec fn axis_size(vertical: bool, a: Area) -> int {
    if vertical {
        a.height as int
    } else {
        a.width as int
    }
}

/// Where `a` ends along the direction of a layout, as ratatui computes it (`Rect::bottom`
/// and `Rect::right` saturate at `u16::MAX`).
pub open spec fn axis_end(vertical: bool, a: Area) -> int {
    let e = axis_start(vertical, a) + axis_size(vertical, a);
    if e <= u16::MAX as int {
        e
    } else {
        u16::MAX as int
    }
}

/// The room that a layout has along its direction: from the area's start to its end.
pub open spec fn axis_room(vertical: bool, a: Area) -> int {
    axis_end(vertical, a) - axis_start(vertical, a)
}

/// Part `i` starts where part `i - 1` ends, along the direction of the layout.
pub open spec fn follows_on(vertical: bool, parts: Seq<Area>, i: int) -> bool {
    axis_start(vertical, parts[i]) == axis_start(vertical, parts[i - 1]) + axis_size(
        vertical,
        parts[i - 1],
    )
}

/// The cells that the `Length` and `Min` slots ask for, together.
pub open spec fn fixed_cells(slots: Seq<Slot>) -> int
    decreases slots.len(),
{
    if slots.len() == 0 {
        0
    } else {
        fixed_cells(slots.drop_last()) + match slots.last() {
            Slot::Length(n) => n as int,
            Slot::Min(n) => n as int,
            Slot::Fill(_) => 0,
        }
    }
}

/// The sum of the weights of the `Fill` slots.
pub open spec fn fill_weight(slots: Seq<Slot>) -> int
    decreases slots.len(),
{
    if slots.len() == 0 {
        0
    } else {
        fill_weight(slots.drop_last()) + match slots.last() {
            Slot::Fill(w) => w as int,
            _ => 0,
        }
    }
}

/// A slot that grows into the room left over: a `Fill` or a `Min`.
pub open spec fn grows(s: Slot) -> bool {
    s is Fill || s is Min
}

/// The parts that a layout with no margin, no spacing and the default flex
/// (`Flex::Start`) gives for `slots` in `area`, as far as every outcome of ratatui's solver
/// fixes them:
/// - one part per slot, each a band of the area along the layout's direction, as wide
///   across it as the area;
/// - the parts follow one another from the area's start, with no gap;
/// - where a slot grows (`Fill` or `Min`), the last part reaches the area's end;
/// - where no slot is a `Fill` and the `Length` and `Min` slots fit in the room, every
///   `Length` part has exactly its length;
/// - where every slot is a `Fill` of weight at least 1, each part starts where its share of
///   the room puts it, rounded to a whole cell (within 0.51 cells).
pub open spec fn layout_parts(vertical: bool, slots: Seq<Slot>, area: Area, parts: Seq<Area>) -> bool {
    let n = parts.len();
    let start = axis_start(vertical, area);
    let room = axis_room(vertical, area);
    &&& n == slots.len()
    &&& forall|i: int| 0 <= i < n ==> part_of(vertical, #[trigger] parts[i], area)
    &&& n > 0 ==> axis_start(vertical, parts[0]) == start
    &&& forall|i: int| 0 < i < n ==> #[trigger] follows_on(vertical, parts, i)
    &&& (n > 0 && exists|i: int| 0 <= i < n && grows(#[trigger] slots[i])) ==> axis_start(
        vertical,
        parts[n - 1],
    ) + axis_size(vertical, parts[n - 1]) == axis_end(vertical, area)
    &&& (n <= u16::MAX && (forall|i: int| 0 <= i < n ==> !(#[trigger] slots[i] is Fill))
        && fixed_cells(slots) <= room) ==> forall|i: int|
        0 <= i < n && #[trigger] slots[i] is Length ==> axis_size(vertical, parts[i])
            == slots[i]->Length_0
    &&& (forall|i: int| 0 <= i < n ==> (#[trigger] slots[i] is Fill && slots[i]->Fill_0 >= 1))
        ==> forall|k: int|
        0 <= k < n ==> {
            let off = fill_weight(slots) * (axis_start(vertical, #[trigger] parts[k]) - start)
                - room * fill_weight(slots.take(k));
            &&& 100 * off <= 51 * fill_weight(slots)
            &&& -100 * off <= 51 * fill_weight(slots)
        }
}

/// Divides `area` into one part per slot, top to bottom (`vertical`) or left to right, for
/// a layout with no margin, no spacing and the default flex (`Flex::Start`).
///
/// Trusted: builds a ratatui `Layout::new` in the given direction from the slots and calls
/// `Layout::split` on the area. Which parts come out is not fully fixed: ratatui solves the
/// layout with a fresh kasuari solver whose pivot choice follows the order of randomly
/// seeded hash maps, and constraints with several optima can come out differently from
/// call to call. The contract (`layout_parts`) states what holds of every optimum, by the
/// source of `Layout::try_split` (ratatui-core 0.1.2):
/// - one part per constraint: the segments are the `n` pairs of the `2n + 2` variables
///   after the first;
/// - the shape of each part (`changes_to_rects`): `x`/`width` or `y`/`height` from the
///   area, start and end rounded to whole cells, held inside the area's start and end
///   (`Rect::bottom`/`right`, saturating) by required constraints;
/// - no gaps: every constraint but the area bounds speaks of sizes only, so moving a part
///   to close a gap before it only lets the last spacer (which `Flex::Start` asks to grow,
///   at `GROW`) grow; besides, the first spacer is held empty at `REQUIRED - WEAK` and the
///   others at 0 at `SPACER_SIZE_EQ`;
/// - the end is reached where a `Fill` or `Min` part exists: such parts ask for the whole
///   area at `FILL_GROW` (`MEDIUM`), which outweighs the last spacer's `GROW`
///   (`MEDIUM / 10`), and growing the `Fill`/`Min` parts in proportion keeps their ratio
///   constraints;
/// - lengths, where they fit and no `Fill` is there: `LENGTH_SIZE_EQ` (`STRONG * 10`)
///   outweighs everything that could pull a part off its length (`FILL_GROW`, the `Min`
///   ratios at `GROW` for up to `u16::MAX` parts, the last spacer, and the `WEAK`
///   equal-size pulls between neighbours), and `MIN_SIZE_GE` can be met alongside;
/// - `Fill` shares, where all slots are `Fill`: the parts then take the whole room, the
///   `FILL_GROW` pulls cost the same for every split of it, and the pairwise ratio
///   constraints (`GROW`) outweigh the `WEAK` neighbour pulls, so the exact boundaries are at
///   the weighted shares; rounding to hundredths and then to cells moves them by at most
///   0.505 of a cell.
/// The solver's failure, on which `split` panics, is not excluded here: the source raises
/// it only for conflicting required constraints, and the required constraints a plain
/// layout adds (every variable inside the area, each part's end not before its start) never
/// conflict.
#[verifier::external_body]
pub(crate) fn split_area(vertical: bool, slots: &[Slot], area: Area) -> (parts: Vec<Area>)
    ensures
        layout_parts(vertical, slots@, area, parts@),
{
    let constraints = slots.iter().map(|s| match *s {
        Slot::Length(n) => Constraint::Length(n),
        Slot::Fill(n) => Constraint::Fill(n),
        Slot::Min(n) => Constraint::Min(n),
    });
    let direction = if vertical { Direction::Vertical } else { Direction::Horizontal };
    let rect = Rect { x: area.x, y: area.y, width: area.width, height: area.height };
    let parts = Layout::new(direction, constraints).split(rect);
    parts.iter().map(|r| Area { x: r.x, y: r.y, width: r.width, height: r.height }).collect()
}

/// The statistics, filter and grid panels of the screen `area`, top to bottom, as the
/// layout solver gives them for 7 rows, 3 rows and the rest: bands as wide as the screen
/// that follow one another from its top to its bottom, 7 and 3 rows high where the screen
/// has at least 10 rows.
pub fn screen_areas(area: Area) -> (res: (Area, Area, Area))
    ensures
        part_of(true, res.0, area),
        part_of(true, res.1, area),
        part_of(true, res.2, area),
        res.0.y == area.y,
        res.1.y == res.0.y + res.0.height,
        res.2.y == res.1.y + res.1.height,
        res.2.y + res.2.height == axis_end(true, area),
        axis_room(true, area) >= 10 ==> res.0.height == 7 && res.1.height == 3,
{
    let slots = vec![Slot::Length(7), Slot::Length(3), Slot::Min(0)];
    let parts = split_area(true, slots.as_slice(), area);
    proof {
        let sl = slots@;
        assert(grows(sl[2]));
        assert(sl.drop_last().drop_last().drop_last() =~= Seq::<Slot>::empty());
        assert(fixed_cells(sl.drop_last().drop_last().drop_last()) == 0);
        assert(sl.drop_last().drop_last().last() == Slot::Length(7));
        assert(fixed_cells(sl.drop_last().drop_last()) == 7);
        assert(sl.drop_last().last() == Slot::Length(3));
        assert(fixed_cells(sl.drop_last()) == 10);
        assert(sl.last() == Slot::Min(0));
        assert(fixed_cells(sl) == 10);
        assert(follows_on(true, parts@, 1));
        assert(follows_on(true, parts@, 2));
        if axis_room(true, area) >= 10 {
            assert(!(sl[0] is Fill) && !(sl[1] is Fill) && !(sl[2] is Fill));
            assert(sl[0] is Length && sl[1] is Length);
        }
    }
    (parts[0], parts[1], parts[2])
}

/// The filters and search boxes of the filter panel `area`, left to right, as the layout
/// solver gives them for three shares and one share: bands as high as the panel that
/// follow one another from its left edge to its right edge, the search box starting three
/// quarters of the way across, rounded to a whole cell.
pub fn filter_areas(area: Area) -> (res: (Area, Area))
    ensures
        part_of(false, res.0, area),
        part_of(false, res.1, area),
        res.0.x == area.x,
        res.1.x == res.0.x + res.0.width,
        res.1.x + res.1.width == axis_end(false, area),
        100 * (4 * (res.1.x - area.x) - 3 * axis_room(false, area)) <= 204,
        100 * (3 * axis_room(false, area) - 4 * (res.1.x - area.x)) <= 204,
{
    let slots = vec![Slot::Fill(3), Slot::Fill(1)];
    let parts = split_area(false, slots.as_slice(), area);
    proof {
        let sl = slots@;
        assert(grows(sl[1]));
        assert(sl.drop_last().drop_last() =~= Seq::<Slot>::empty());
        assert(sl.take(1) =~= sl.drop_last());
        assert(fill_weight(sl.drop_last().drop_last()) == 0);
        assert(fill_weight(sl.drop_last()) == 3);
        assert(fill_weight(sl) == 4);
        assert(sl[0] is Fill && sl[0]->Fill_0 >= 1);
        assert(sl[1] is Fill && sl[1]->Fill_0 >= 1);
        assert(follows_on(false, parts@, 1));
        let k = 1int;
        assert(axis_start(false, parts@[k]) == parts@[1].x);
    }
    (parts[0], parts[1])
}

} // verus!
