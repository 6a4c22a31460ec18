//! Which process card goes where: the order of the cards and the part of it that the
//! screen grid shows.

use vstd::prelude::*;

use crate::layout::{
    axis_end, axis_room, axis_size, axis_start, fill_weight, fixed_cells, follows_on, grows,
    layout_parts, part_of, split_area, within, Area,
    Slot,
};
use crate::process::{Process, ProcessView};
use crate::text::{chars_of, decimal_text, push_decimal, push_str, string_from_chars};

verus! {

/// `order` lists the indices `0..n`, each once.
pub open spec fn is_index_permutation(order: Seq<usize>, n: nat) -> bool {
    &&& order.len() == n
    &&& forall|i: int| 0 <= i < order.len() ==> #[trigger] order[i] < n
    &&& forall|i: int, j: int|
        0 <= i < j < order.len() ==> #[trigger] order[i] != #[trigger] order[j]
}

/// `order` lists indices by falling `keys`, and indices with equal keys in increasing order
/// (the order that a stable sort by falling key gives).
pub open spec fn sorted_by_falling_key(order: Seq<usize>, keys: Seq<u64>) -> bool {
    forall|i: int, j: int|
        0 <= i < j < order.len() ==> {
            ||| keys[#[trigger] order[i] as int] > keys[#[trigger] order[j] as int]
            ||| keys[order[i] as int] == keys[order[j] as int] && order[i] < order[j]
        }
}

/// The indices of the processes by falling CPU ticks, processes with equal ticks in the
/// order they are given in.
pub fn cpu_order(cpu_ticks: &[u64]) -> (order: Vec<usize>)
    ensures
        is_index_permutation(order@, cpu_ticks@.len()),
        sorted_by_falling_key(order@, cpu_ticks@),
{
    let n = cpu_ticks.len();
    let mut order: Vec<usize> = Vec::new();
    let mut k: usize = 0;
    while k < n
        invariant
            k <= n == cpu_ticks@.len(),
            is_index_permutation(order@, k as nat),
            sorted_by_falling_key(order@, cpu_ticks@),
        decreases n - k,
    {
        let key = cpu_ticks[k];
        let mut pos: usize = 0;
        while pos < order.len() && cpu_ticks[order[pos]] >= key
            invariant
                pos <= order@.len() == k,
                k < n == cpu_ticks@.len(),
                is_index_permutation(order@, k as nat),
                sorted_by_falling_key(order@, cpu_ticks@),
                key == cpu_ticks@[k as int],
                forall|j: int| 0 <= j < pos ==> cpu_ticks@[#[trigger] order@[j] as int] >= key,
            decreases k - pos,
        {
            pos = pos + 1;
        }
        let ghost before = order@;
        proof {
            assert forall|j: int| pos <= j < before.len() implies cpu_ticks@[#[trigger] before[j] as int] < key by {
                if j > pos {
                    assert(cpu_ticks@[before[pos as int] as int] >= cpu_ticks@[before[j] as int]);
                }
            }
        }
        order.insert(pos, k);
        proof {
            let o = order@;
            assert(forall|j: int| 0 <= j < pos ==> o[j] == before[j]);
            assert(forall|j: int| pos < j < o.len() ==> o[j] == before[j - 1]);
            assert(o[pos as int] == k);
            assert forall|i: int, j: int| 0 <= i < j < o.len() implies #[trigger] o[i] != #[trigger] o[j] by {
                if i < pos && j > pos {
                    assert(o[j] == before[j - 1]);
                } else if j > pos && i > pos {
                    assert(o[i] == before[i - 1]);
                }
            }
            assert forall|i: int, j: int| 0 <= i < j < o.len() implies {
                ||| cpu_ticks@[#[trigger] o[i] as int] > cpu_ticks@[#[trigger] o[j] as int]
                ||| cpu_ticks@[o[i] as int] == cpu_ticks@[o[j] as int] && o[i] < o[j]
            } by {
                if i < pos && j > pos {
                    assert(o[i] == before[i]);
                    assert(o[j] == before[j - 1]);
                } else if i > pos {
                    assert(o[i] == before[i - 1]);
                    assert(o[j] == before[j - 1]);
                } else if j < pos {
                    assert(o[i] == before[i]);
                    assert(o[j] == before[j]);
                } else if i == pos {
                    assert(o[j] == before[j - 1]);
                } else {
                    assert(o[i] == before[i]);
                }
            }
        }
        k = k + 1;
    }
    order
}


/// Width of one process card, in cells.
pub const BOX_WIDTH: u16 = 50;

/// Height of one process card, in cells.
pub const BOX_HEIGHT: u16 = 6;

/// The number of card columns for a grid `width` cells wide: one per whole card width, and
/// one more.
pub open spec fn grid_columns(width: u16) -> u16 {
    (width / BOX_WIDTH + 1) as u16
}

/// The number of card rows for a grid `height` cells high: one per whole card height.
pub open spec fn grid_rows(height: u16) -> u16 {
    height / BOX_HEIGHT
}

/// The grid is wide enough for the command lines of its cards: each column is at least 7
/// cells wide (the card border and the `CMD: ` label take 7).
pub open spec fn fits_command(width: u16) -> bool {
    width / grid_columns(width) >= 7
}

/// The number of command characters shown on each of the two command lines of a card.
pub open spec fn command_width(width: u16) -> nat {
    (width / grid_columns(width) - 7) as nat
}

/// The `count` entries of `order` from position `start` on, fewer where `order` ends first.
pub open spec fn window(order: Seq<usize>, start: nat, count: nat) -> Seq<usize> {
    if start >= order.len() {
        Seq::empty()
    } else if start + count >= order.len() {
        order.skip(start as int)
    } else {
        order.subrange(start as int, (start + count) as int)
    }
}

/// Where the cards go on a grid panel.
pub struct GridPlan {
    /// The card slots, row after row.
    pub slots: Vec<Area>,
    /// The process shown in each slot, as an index into the list of processes; there may be
    /// fewer processes than slots.
    pub cards: Vec<usize>,
    /// The number of command characters on each of the two command lines of a card.
    pub command_width: usize,
}

/// The slots of the grid's rows: `rows` of them, each `BOX_HEIGHT` cells high.
pub fn row_slot_list(rows: u16) -> (slots: Vec<Slot>)
    ensures
        slots@ == Seq::new(rows as nat, |i: int| Slot::Length(BOX_HEIGHT)),
{
    let mut slots: Vec<Slot> = Vec::new();
    let mut i: u16 = 0;
    while i < rows
        invariant
            i <= rows,
            slots@ == Seq::new(i as nat, |j: int| Slot::Length(BOX_HEIGHT)),
        decreases rows - i,
    {
        slots.push(Slot::Length(BOX_HEIGHT));
        i = i + 1;
        assert(slots@ =~= Seq::new(i as nat, |j: int| Slot::Length(BOX_HEIGHT)));
    }
    slots
}

/// The slots of one grid row: `cols` equal shares.
pub fn column_slot_list(cols: u16) -> (slots: Vec<Slot>)
    ensures
        slots@ == Seq::new(cols as nat, |i: int| Slot::Fill(1)),
{
    let mut slots: Vec<Slot> = Vec::new();
    let mut i: u16 = 0;
    while i < cols
        invariant
            i <= cols,
            slots@ == Seq::new(i as nat, |j: int| Slot::Fill(1)),
        decreases cols - i,
    {
        slots.push(Slot::Fill(1));
        i = i + 1;
        assert(slots@ =~= Seq::new(i as nat, |j: int| Slot::Fill(1)));
    }
    slots
}

/// The slots of row `r` of a grid with `cols` columns: slots `r * cols` to `r * cols + cols`.
pub open spec fn slots_of_row(slots: Seq<Area>, cols: int, r: int) -> Seq<Area> {
    slots.subrange(r * cols, r * cols + cols)
}

/// The cards of one grid row, `parts`, sit side by side across the grid panel `main`, in
/// `cols` equal shares of its width: all at the row's height, the first at the panel's
/// left edge, each next one where the one before it ends, the last reaching the panel's
/// right edge; card `c` starts `c` shares in, and each card is one share wide, both within
/// rounding to whole cells.
pub open spec fn cards_side_by_side(parts: Seq<Area>, main: Area, cols: int) -> bool {
    let room = axis_room(false, main);
    &&& parts.len() == cols
    &&& cols > 0 ==> parts[0].x == main.x
    &&& forall|c: int| 0 <= c < cols ==> (#[trigger] parts[c]).y == parts[0].y
        && parts[c].height == parts[0].height
    &&& forall|c: int| 0 < c < cols ==> #[trigger] follows_on(false, parts, c)
    &&& cols > 0 ==> parts[cols - 1].x + parts[cols - 1].width == axis_end(false, main)
    &&& forall|c: int|
        0 <= c < cols ==> {
            &&& 100 * (cols * ((#[trigger] parts[c]).x - main.x) - room * c) <= 51 * cols
            &&& 100 * (room * c - cols * (parts[c].x - main.x)) <= 51 * cols
            &&& 100 * (cols * parts[c].width - room) <= 102 * cols
            &&& 100 * (room - cols * parts[c].width) <= 102 * cols
        }
}

/// Cards side by side never overlap: each card of a row ends at or before the start of
/// every card after it, and together they span the panel from its left edge to its right
/// edge.
pub proof fn law_cards_do_not_overlap(parts: Seq<Area>, main: Area, cols: int, c1: int, c2: int)
    requires
        cards_side_by_side(parts, main, cols),
        0 <= c1 < c2 < cols,
    ensures
        parts[c1].x + parts[c1].width <= parts[c2].x,
        main.x <= parts[c1].x,
        parts[c2].x + parts[c2].width <= axis_end(false, main),
    decreases c2 - c1,
{
    assert(follows_on(false, parts, c1 + 1));
    if c1 + 1 < c2 {
        law_cards_do_not_overlap(parts, main, cols, c1 + 1, c2);
    } else {
        lemma_cards_end(parts, main, cols, c2);
    }
    lemma_cards_start(parts, main, cols, c1);
}

proof fn lemma_cards_start(parts: Seq<Area>, main: Area, cols: int, c: int)
    requires
        cards_side_by_side(parts, main, cols),
        0 <= c < cols,
    ensures
        main.x <= parts[c].x,
    decreases c,
{
    if c > 0 {
        assert(follows_on(false, parts, c));
        lemma_cards_start(parts, main, cols, c - 1);
    }
}

proof fn lemma_cards_end(parts: Seq<Area>, main: Area, cols: int, c: int)
    requires
        cards_side_by_side(parts, main, cols),
        0 <= c < cols,
    ensures
        parts[c].x + parts[c].width <= axis_end(false, main),
    decreases cols - c,
{
    if c + 1 < cols {
        assert(follows_on(false, parts, c + 1));
        lemma_cards_end(parts, main, cols, c + 1);
    }
}

proof fn lemma_fill_weight_ones(k: nat)
    ensures
        fill_weight(Seq::new(k, |i: int| Slot::Fill(1))) == k,
    decreases k,
{
    if k > 0 {
        assert(Seq::new(k, |i: int| Slot::Fill(1)).drop_last() =~= Seq::new(
            (k - 1) as nat,
            |i: int| Slot::Fill(1),
        ));
        lemma_fill_weight_ones((k - 1) as nat);
    }
}

/// The parts of a row that the layout gives for `cols` equal shares sit side by side
/// across the panel.
proof fn lemma_row_cards_side_by_side(parts: Seq<Area>, row: Area, main: Area, cols: int)
    requires
        cols > 0,
        part_of(true, row, main),
        layout_parts(false, Seq::new(cols as nat, |i: int| Slot::Fill(1)), row, parts),
    ensures
        cards_side_by_side(parts, main, cols),
{
    let sl = Seq::new(cols as nat, |i: int| Slot::Fill(1));
    let room = axis_room(false, main);
    lemma_fill_weight_ones(cols as nat);
    assert(forall|c: int| 0 <= c <= cols ==> #[trigger] sl.take(c) =~= Seq::new(c as nat, |i: int| Slot::Fill(1)));
    assert forall|c: int| 0 <= c <= cols implies fill_weight(#[trigger] sl.take(c)) == c by {
        lemma_fill_weight_ones(c as nat);
    }
    assert(grows(sl[cols - 1]));
    assert(forall|i: int| 0 <= i < cols ==> (#[trigger] sl[i] is Fill && sl[i]->Fill_0 >= 1));
    assert(axis_room(false, row) == room);
    assert forall|c: int| 0 <= c < cols implies {
        &&& 100 * (cols * ((#[trigger] parts[c]).x - main.x) - room * c) <= 51 * cols
        &&& 100 * (room * c - cols * (parts[c].x - main.x)) <= 51 * cols
        &&& 100 * (cols * parts[c].width - room) <= 102 * cols
        &&& 100 * (room - cols * parts[c].width) <= 102 * cols
    } by {
        assert(fill_weight(sl.take(c)) == c);
        assert(part_of(false, parts[c], row));
        if c + 1 < cols {
            assert(fill_weight(sl.take(c + 1)) == c + 1);
            assert(follows_on(false, parts, c + 1));
            assert(part_of(false, parts[c + 1], row));
            assert(cols * parts[c].width == cols * (parts[c + 1].x - main.x) - cols * (
            parts[c].x - main.x)) by (nonlinear_arith)
                requires
                    parts[c + 1].x == parts[c].x + parts[c].width,
            ;
            assert(room * (c + 1) == room * c + room) by (nonlinear_arith);
        } else {
            assert(cols * parts[c].width == cols * room - cols * (parts[c].x - main.x))
                by (nonlinear_arith)
                requires
                    parts[c].x + parts[c].width == main.x + room,
            ;
            assert(room * (cols - 1) == room * cols - room) by (nonlinear_arith);
            assert(cols * room == room * cols) by (nonlinear_arith);
        }
    }
    assert forall|c: int| 0 <= c < cols implies (#[trigger] parts[c]).y == parts[0].y
        && parts[c].height == parts[0].height by {
        assert(part_of(false, parts[c], row));
        assert(part_of(false, parts[0], row));
    }
}

/// `a` lies inside one of the areas `rows`.
pub open spec fn in_some_row(a: Area, rows: Seq<Area>) -> bool {
    exists|r: int| 0 <= r < rows.len() && within(a, #[trigger] rows[r])
}

/// The card slots of the grid rows `row_areas`: each row divided into `cols` equal shares,
/// row after row. There are `cols` slots per row, each inside its row.
pub fn split_rows(row_areas: &[Area], cols: u16) -> (slots: Vec<Area>)
    ensures
        slots@.len() == row_areas@.len() * cols,
        forall|i: int| 0 <= i < slots@.len() ==> in_some_row(#[trigger] slots@[i], row_areas@),
        forall|r: int|
            0 <= r < row_areas@.len() ==> layout_parts(
                false,
                Seq::new(cols as nat, |i: int| Slot::Fill(1)),
                #[trigger] row_areas@[r],
                slots_of_row(slots@, cols as int, r),
            ),
{
    let col_spec = column_slot_list(cols);
    let ghost all = row_areas@;
    let mut slots: Vec<Area> = Vec::new();
    let mut r: usize = 0;
    while r < row_areas.len()
        invariant
            r <= row_areas@.len(),
            all == row_areas@,
            col_spec@.len() == cols,
            slots@.len() == r * cols,
            col_spec@ == Seq::new(cols as nat, |i: int| Slot::Fill(1)),
            forall|k: int| 0 <= k < slots@.len() ==> in_some_row(#[trigger] slots@[k], all),
            forall|q: int|
                0 <= q < r ==> layout_parts(
                    false,
                    col_spec@,
                    #[trigger] all[q],
                    slots_of_row(slots@, cols as int, q),
                ),
        decreases row_areas@.len() - r,
    {
        let row = row_areas[r];
        let mut parts = split_area(false, col_spec.as_slice(), row);
        let ghost before = slots@;
        let ghost added = parts@;
        slots.append(&mut parts);
        assert(slots@ =~= before + added);
        assert forall|k: int| 0 <= k < slots@.len() implies in_some_row(#[trigger] slots@[k], all) by {
            if k >= before.len() {
                assert(slots@[k] == added[k - before.len()]);
                assert(part_of(false, added[k - before.len()], row));
                assert(within(slots@[k], all[r as int]));
            } else {
                assert(slots@[k] == before[k]);
            }
        }
        assert((r + 1) * cols == r * cols + cols) by (nonlinear_arith);
        assert(slots_of_row(slots@, cols as int, r as int) =~= added);
        assert forall|q: int| 0 <= q < r implies slots_of_row(slots@, cols as int, q)
            == slots_of_row(before, cols as int, q) by {
            assert((q + 1) * cols <= r * cols) by (nonlinear_arith)
                requires
                    q + 1 <= r,
                    cols >= 0,
            ;
            assert(q * cols + cols == (q + 1) * cols) by (nonlinear_arith);
            assert(0 <= q * cols) by (nonlinear_arith)
                requires
                    q >= 0,
                    cols >= 0,
            ;
            assert(slots_of_row(slots@, cols as int, q) =~= slots_of_row(before, cols as int, q));
        }
        r = r + 1;
    }
    slots
}

/// Row `r` of the grid panel `main`: the full width of the panel, `BOX_HEIGHT` rows high,
/// `r` card heights below its top.
pub open spec fn grid_row(main: Area, r: int) -> Area {
    Area {
        x: main.x,
        y: (main.y + r * BOX_HEIGHT) as u16,
        width: main.width,
        height: BOX_HEIGHT,
    }
}

/// `a` lies inside one of the rows of the grid panel `main`.
pub open spec fn in_grid_row(a: Area, main: Area) -> bool {
    exists|r: int| 0 <= r < grid_rows(main.height) && within(a, #[trigger] grid_row(main, r))
}

/// The panel fits below `u16::MAX`, so that ratatui measures its full height.
pub open spec fn panel_fits(main: Area) -> bool {
    main.y + main.height <= u16::MAX
}

proof fn lemma_fixed_cells_rows(k: nat)
    ensures
        fixed_cells(Seq::new(k, |i: int| Slot::Length(BOX_HEIGHT))) == k * BOX_HEIGHT,
    decreases k,
{
    let s = Seq::new(k, |i: int| Slot::Length(BOX_HEIGHT));
    if k > 0 {
        assert(s.drop_last() =~= Seq::new((k - 1) as nat, |i: int| Slot::Length(BOX_HEIGHT)));
        lemma_fixed_cells_rows((k - 1) as nat);
    }
}

proof fn lemma_row_positions(main: Area, parts: Seq<Area>, r: int)
    requires
        0 <= r < parts.len(),
        parts[0].y == main.y,
        forall|i: int| 0 <= i < parts.len() ==> (#[trigger] parts[i]).height == BOX_HEIGHT,
        forall|i: int| 0 < i < parts.len() ==> #[trigger] follows_on(true, parts, i),
    ensures
        forall|j: int| 0 <= j <= r ==> (#[trigger] parts[j]).y == main.y + j * 6,
    decreases r,
{
    if r > 0 {
        lemma_row_positions(main, parts, r - 1);
        assert(parts[r - 1].y == main.y + (r - 1) * 6);
        assert(follows_on(true, parts, r));
        assert(parts[r - 1].height == BOX_HEIGHT);
        assert((r - 1) * 6 + 6 == r * 6) by (nonlinear_arith);
    }
}

/// The row bands of the grid panel `main`: `grid_rows` of them, one under the other from
/// the top, each `BOX_HEIGHT` rows high where the panel fits below `u16::MAX`.
pub fn grid_row_areas(main: Area) -> (row_areas: Vec<Area>)
    ensures
        row_areas@.len() == grid_rows(main.height),
        forall|r: int| 0 <= r < row_areas@.len() ==> part_of(true, #[trigger] row_areas@[r], main),
        panel_fits(main) ==> forall|r: int|
            0 <= r < row_areas@.len() ==> #[trigger] row_areas@[r] == grid_row(main, r),
{
    let rows: u16 = main.height / BOX_HEIGHT;
    let row_spec = row_slot_list(rows);
    let row_areas = split_area(true, row_spec.as_slice(), main);
    proof {
        let sl = row_spec@;
        let n = sl.len() as int;
        if panel_fits(main) {
            lemma_fixed_cells_rows(rows as nat);
            assert(forall|i: int| 0 <= i < n ==> !(#[trigger] sl[i] is Fill));
            assert(fixed_cells(sl) <= axis_room(true, main));
            let parts = row_areas@;
            assert forall|i: int| 0 <= i < n implies (#[trigger] parts[i]).height == BOX_HEIGHT by {
                assert(sl[i] is Length);
            }
            if n > 0 {
                assert(axis_start(true, parts[0]) == axis_start(true, main));
                lemma_row_positions(main, parts, n - 1);
                assert forall|r: int| 0 <= r < n implies #[trigger] parts[r] == grid_row(main, r) by {
                    assert(parts[r].y == main.y + r * 6);
                    assert(part_of(true, parts[r], main));
                }
            }
        }
    }
    row_areas
}

/// The card slots of the grid panel `main`: `grid_rows` rows of `grid_columns` slots, each
/// inside the panel and, where the panel fits below `u16::MAX`, inside one of its rows.
pub fn card_slots(main: Area) -> (slots: Vec<Area>)
    ensures
        slots@.len() == grid_rows(main.height) * grid_columns(main.width),
        forall|i: int| 0 <= i < slots@.len() ==> within(#[trigger] slots@[i], main),
        panel_fits(main) ==> forall|i: int|
            0 <= i < slots@.len() ==> in_grid_row(#[trigger] slots@[i], main),
        forall|r: int|
            0 <= r < grid_rows(main.height) ==> cards_side_by_side(
                #[trigger] slots_of_row(slots@, grid_columns(main.width) as int, r),
                main,
                grid_columns(main.width) as int,
            ),
        panel_fits(main) ==> forall|r: int, c: int|
            0 <= r < grid_rows(main.height) && 0 <= c < grid_columns(main.width) ==> within(
                #[trigger] slots_of_row(slots@, grid_columns(main.width) as int, r)[c],
                grid_row(main, r),
            ),
{
    let cols: u16 = main.width / BOX_WIDTH + 1;
    let row_areas = grid_row_areas(main);
    let slots = split_rows(row_areas.as_slice(), cols);
    assert forall|r: int| 0 <= r < grid_rows(main.height) implies cards_side_by_side(
        #[trigger] slots_of_row(slots@, grid_columns(main.width) as int, r),
        main,
        grid_columns(main.width) as int,
    ) by {
        assert(part_of(true, row_areas@[r], main));
        assert(layout_parts(
            false,
            Seq::new(cols as nat, |i: int| Slot::Fill(1)),
            row_areas@[r],
            slots_of_row(slots@, cols as int, r),
        ));
        lemma_row_cards_side_by_side(slots_of_row(slots@, cols as int, r), row_areas@[r], main, cols as int);
    }
    proof {
        if panel_fits(main) {
            assert forall|r: int, c: int|
                0 <= r < grid_rows(main.height) && 0 <= c < grid_columns(main.width) implies within(
                #[trigger] slots_of_row(slots@, grid_columns(main.width) as int, r)[c],
                grid_row(main, r),
            ) by {
                let parts = slots_of_row(slots@, cols as int, r);
                assert(layout_parts(
                    false,
                    Seq::new(cols as nat, |i: int| Slot::Fill(1)),
                    row_areas@[r],
                    parts,
                ));
                assert(part_of(false, parts[c], row_areas@[r]));
                assert(row_areas@[r] == grid_row(main, r));
            }
        }
    }
    assert forall|i: int| 0 <= i < slots@.len() implies within(#[trigger] slots@[i], main) by {
        assert(in_some_row(slots@[i], row_areas@));
        let r = choose|r: int| 0 <= r < row_areas@.len() && within(slots@[i], #[trigger] row_areas@[r]);
        assert(part_of(true, row_areas@[r], main));
    }
    proof {
        if panel_fits(main) {
        assert forall|i: int| 0 <= i < slots@.len() implies in_grid_row(#[trigger] slots@[i], main) by {
            assert(in_some_row(slots@[i], row_areas@));
            let r = choose|r: int| 0 <= r < row_areas@.len() && within(slots@[i], #[trigger] row_areas@[r]);
            assert(row_areas@[r] == grid_row(main, r));
            assert(within(slots@[i], grid_row(main, r)));
        }
        }
    }
    slots
}

/// The entries of `order` from `start` on, at most `count` of them.
pub fn visible_window(order: &[usize], start: usize, count: usize) -> (res: Vec<usize>)
    ensures
        res@ == window(order@, start as nat, count as nat),
{
    let len = order.len();
    if start >= len {
        return Vec::new();
    }
    let end: usize = if count >= len - start {
        len
    } else {
        start + count
    };
    let mut res: Vec<usize> = Vec::new();
    let mut i: usize = start;
    while i < end
        invariant
            start <= i <= end,
            end <= len == order@.len(),
            start < len,
            res@ == order@.subrange(start as int, i as int),
        decreases end - i,
    {
        res.push(order[i]);
        i = i + 1;
        assert(res@ =~= order@.subrange(start as int, i as int));
    }
    proof {
        if count >= len - start {
            assert(order@.subrange(start as int, len as int) =~= order@.skip(start as int));
            assert(start + count >= len);
        } else {
            assert(end == start + count);
        }
    }
    res
}

/// The cards of the grid panel `main` for processes with the given CPU ticks, scrolled down
/// by `offset` rows: the slots of the panel, and in them the processes by falling CPU ticks
/// (`cpu_order`), from the first one of row `offset` on.
pub fn plan_grid(main: Area, cpu_ticks: &[u64], offset: usize) -> (plan: GridPlan)
    requires
        fits_command(main.width),
        offset * grid_columns(main.width) <= usize::MAX,
    ensures
        plan.slots@.len() == grid_rows(main.height) * grid_columns(main.width),
        forall|i: int| 0 <= i < plan.slots@.len() ==> within(#[trigger] plan.slots@[i], main),
        panel_fits(main) ==> forall|i: int|
            0 <= i < plan.slots@.len() ==> in_grid_row(#[trigger] plan.slots@[i], main),
        forall|r: int|
            0 <= r < grid_rows(main.height) ==> cards_side_by_side(
                #[trigger] slots_of_row(plan.slots@, grid_columns(main.width) as int, r),
                main,
                grid_columns(main.width) as int,
            ),
        panel_fits(main) ==> forall|r: int, c: int|
            0 <= r < grid_rows(main.height) && 0 <= c < grid_columns(main.width) ==> within(
                #[trigger] slots_of_row(plan.slots@, grid_columns(main.width) as int, r)[c],
                grid_row(main, r),
            ),
        plan.cards@.len() == (if offset * grid_columns(main.width) >= cpu_ticks@.len() {
            0
        } else if cpu_ticks@.len() - offset * grid_columns(main.width) < plan.slots@.len() {
            cpu_ticks@.len() - offset * grid_columns(main.width)
        } else {
            plan.slots@.len() as int
        }),
        plan.command_width == command_width(main.width),
        exists|order: Seq<usize>|
            {
                &&& is_index_permutation(order, cpu_ticks@.len())
                &&& sorted_by_falling_key(order, cpu_ticks@)
                &&& plan.cards@ == window(
                    order,
                    (offset * grid_columns(main.width)) as nat,
                    (grid_rows(main.height) * grid_columns(main.width)) as nat,
                )
            },
{
    let cols: u16 = main.width / BOX_WIDTH + 1;
    let slots = card_slots(main);
    let order = cpu_order(cpu_ticks);
    let start = offset * (cols as usize);
    let cards = visible_window(order.as_slice(), start, slots.len());
    let width = (main.width / cols - 7) as usize;
    GridPlan { slots, cards, command_width: width }
}

/// The first command line of a card: the first `n` characters of the command (all of it
/// where it is shorter).
pub open spec fn first_command_line(command: Seq<char>, n: nat) -> Seq<char> {
    command.take(if n < command.len() { n as int } else { command.len() as int })
}

/// The second command line of a card: the `n` characters after the first `n` (fewer where
/// the command ends first).
pub open spec fn second_command_line(command: Seq<char>, n: nat) -> Seq<char> {
    if n >= command.len() {
        Seq::empty()
    } else if n >= command.len() - n {
        command.skip(n as int)
    } else {
        command.subrange(n as int, 2 * n as int)
    }
}

/// The title of a process card: its pid and its user.
pub open spec fn card_title_text(p: ProcessView) -> Seq<char> {
    "PID "@ + decimal_text(p.pid as nat) + "  "@ + p.user
}

/// The body of a process card: name, resident memory, the CPU share written as `cpu`, and
/// the command on two lines of `n` characters.
pub open spec fn card_body_text(p: ProcessView, cpu: Seq<char>, n: nat) -> Seq<char> {
    "NAME: "@ + p.name + "\nRAM: "@ + decimal_text(p.memory_kb as nat) + " KB\nCPU: "@ + cpu
        + " %\nCMD: "@ + first_command_line(p.command, n) + "\n     "@ + second_command_line(
        p.command,
        n,
    )
}

/// The title of the card of `process`.
pub fn card_title(process: &Process) -> (res: String)
    ensures
        res@ == card_title_text(process@),
{
    let mut out: Vec<char> = Vec::new();
    push_str(&mut out, "PID ");
    push_decimal(&mut out, process.pid as u64);
    push_str(&mut out, "  ");
    push_str(&mut out, process.user.as_str());
    assert(out@ =~= card_title_text(process@));
    string_from_chars(out.as_slice())
}

/// The body of the card of `process`, with its CPU share given as the text `cpu` and
/// `n` command characters per command line.
pub fn card_body(process: &Process, cpu: &str, n: usize) -> (res: String)
    ensures
        res@ == card_body_text(process@, cpu@, n as nat),
{
    let (cmd1, cmd2) = command_lines(process.command.as_str(), n);
    let mut out: Vec<char> = Vec::new();
    push_str(&mut out, "NAME: ");
    push_str(&mut out, process.name.as_str());
    push_str(&mut out, "\nRAM: ");
    push_decimal(&mut out, process.memory_kb);
    push_str(&mut out, " KB\nCPU: ");
    push_str(&mut out, cpu);
    push_str(&mut out, " %\nCMD: ");
    push_str(&mut out, cmd1.as_str());
    push_str(&mut out, "\n     ");
    push_str(&mut out, cmd2.as_str());
    assert(out@ =~= card_body_text(process@, cpu@, n as nat));
    string_from_chars(out.as_slice())
}

/// The two command lines of a card: the first `n` characters of `command`, and the `n`
/// after them (fewer where the command ends first).
pub fn command_lines(command: &str, n: usize) -> (res: (String, String))
    ensures
        res.0@ == first_command_line(command@, n as nat),
        res.1@ == second_command_line(command@, n as nat),
{
    let cs = chars_of(command);
    let len = cs.len();
    let a: usize = if n < len {
        n
    } else {
        len
    };
    let b: usize = if n >= len {
        len
    } else if n >= len - n {
        len
    } else {
        n + n
    };
    let first = string_from_chars(&cs.as_slice()[0..a]);
    let mut second_chars: Vec<char> = Vec::new();
    let mut i = a;
    while i < b
        invariant
            a <= i <= b <= len == cs@.len(),
            second_chars@ == cs@.subrange(a as int, i as int),
        decreases b - i,
    {
        second_chars.push(cs[i]);
        i = i + 1;
        assert(second_chars@ =~= cs@.subrange(a as int, i as int));
    }
    proof {
        if n >= len {
            assert(second_chars@ =~= Seq::<char>::empty());
        } else if n >= len - n {
            assert(cs@.subrange(a as int, b as int) =~= cs@.skip(n as int));
        }
    }
    (first, string_from_chars(second_chars.as_slice()))
}


/// The cards of a grid fit it: there are no more cards than slots, every card is a process
/// of the list, and no process is shown twice.
pub proof fn law_cards_fit(order: Seq<usize>, n: nat, start: nat, count: nat)
    requires
        is_index_permutation(order, n),
    ensures
        window(order, start, count).len() <= count,
        forall|i: int|
            0 <= i < window(order, start, count).len() ==> #[trigger] window(order, start, count)[i]
                < n,
        forall|i: int, j: int|
            0 <= i < j < window(order, start, count).len() ==> #[trigger] window(
                order,
                start,
                count,
            )[i] != #[trigger] window(order, start, count)[j],
{
    let w = window(order, start, count);
    if start < order.len() {
        assert forall|i: int| 0 <= i < w.len() implies #[trigger] w[i] == order[start + i] by {}
        assert forall|i: int, j: int| 0 <= i < j < w.len() implies #[trigger] w[i] != #[trigger] w[j] by {
            assert(w[i] == order[start + i]);
            assert(w[j] == order[start + j]);
        }
    }
}

/// Scrolling by one row moves the cards by one row: the cards of `offset + 1` are those
/// of `offset` after its first row, as far as the shorter list goes.
pub proof fn law_scroll_shifts_by_a_row(order: Seq<usize>, cols: nat, offset: nat, count: nat, i: int)
    requires
        cols <= count,
        0 <= i < window(order, (offset + 1) * cols, count).len(),
        i + cols < window(order, offset * cols, count).len(),
    ensures
        window(order, (offset + 1) * cols, count)[i] == window(order, offset * cols, count)[i
            + cols],
{
    assert((offset + 1) * cols == offset * cols + cols) by (nonlinear_arith);
}

/// The two command lines of a card hold the command's first characters, in order: together
/// they are the first `min(2n, length)` characters.
pub proof fn law_command_lines_are_a_prefix(command: Seq<char>, n: nat)
    ensures
        first_command_line(command, n) + second_command_line(command, n) == command.take(
            if 2 * n < command.len() { 2 * n as int } else { command.len() as int },
        ),
{
    assert(first_command_line(command, n) + second_command_line(command, n) =~= command.take(
        if 2 * n < command.len() { 2 * n as int } else { command.len() as int },
    ));
}

} // verus!
