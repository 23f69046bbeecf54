//! Layout data and the runtime key/view state machine.
//!
//! A `View` contains `Row`s and each `Row` contains `Button`s, which carry
//! positioning data and a reference into the shared key-state arena.  The
//! layout is determined bottom-up: button sizes come from their outlines,
//! row sizes from their buttons, and rows are centered within the view.
//!
//! Coordinates are integers in thousandths of a layout unit.

use vstd::prelude::*;
use vstd::view::View as _;

use crate::action::Action;
use crate::keyboard::KeyState;
use crate::keyboard::PressType;
use crate::keyboard::KEYCODE_BOTTOM;
use crate::keyboard::KEYCODE_MAX;
use crate::vkeyboard::spec_switch_events;
use crate::vkeyboard::KeyEvent;
use crate::vkeyboard::Timestamp;
use crate::vkeyboard::VirtualKeyboard;

verus! {

/// The largest magnitude a declared coordinate may have, in thousandths of
/// a unit.  Bounding declared coordinates keeps all placement arithmetic
/// within machine integers.
pub const COORD_LIMIT: i64 = 1_000_000_000;

/// The most buttons one row may hold.
pub const MAX_BUTTONS_PER_ROW: usize = 10_000;

/// The most rows one view may hold.
pub const MAX_ROWS_PER_VIEW: usize = 10_000;

/// The largest pointer coordinate the hit test accepts, so that making a
/// point view-relative stays within machine integers.
pub const POINT_LIMIT: i64 = 1_000_000_000_000_000_000;

/// A point in layout coordinates, in thousandths of a unit.
#[derive(Debug, Clone, Copy, PartialEq, Eq, Structural)]
pub struct Point {
    pub x: i64,
    pub y: i64,
}

/// A rectangle in layout coordinates, in thousandths of a unit.
#[derive(Debug, Clone, Copy, PartialEq, Eq, Structural)]
pub struct Bounds {
    pub x: i64,
    pub y: i64,
    pub width: i64,
    pub height: i64,
}

impl Bounds {
    /// Every field within the declared coordinate limit.
    pub open spec fn wf(self) -> bool {
        &&& -COORD_LIMIT <= self.x <= COORD_LIMIT
        &&& -COORD_LIMIT <= self.y <= COORD_LIMIT
        &&& -COORD_LIMIT <= self.width <= COORD_LIMIT
        &&& -COORD_LIMIT <= self.height <= COORD_LIMIT
    }
}

/// A width and height, in thousandths of a unit.
#[derive(Debug, Clone, Copy, PartialEq, Eq, Structural)]
pub struct Size {
    pub width: i64,
    pub height: i64,
}

/// What a button shows: literal text or an icon reference, mutually
/// exclusive.
#[derive(Debug, Clone)]
pub enum Label {
    /// Text used to display the symbol.
    Text(String),
    /// Icon name used to render the symbol.
    IconName(String),
}

/// The graphical representation of a button.
#[derive(Debug, Clone)]
pub struct Button {
    /// ID string, as referenced by the rows of the layout document.
    pub name: String,
    /// Label to display to the user.
    pub label: Label,
    /// Position relative to the row, once placed; until then the outline
    /// rectangle.
    pub bounds: Bounds,
    /// The name of the outline the bounds came from.
    pub outline_name: String,
    /// Index of the key state this button shares, in the layout's arena.
    pub state: usize,
}

/// The graphical representation of a row of buttons.
#[derive(Debug, Clone)]
pub struct Row {
    pub buttons: Vec<Button>,
    /// Optional rotation angle for hit-testing, normally zero.
    pub angle: i32,
    /// Position relative to the view, once placed.
    pub bounds: Option<Bounds>,
}

/// A named, switchable set of rows shown at one time.
#[derive(Debug, Clone)]
pub struct View {
    /// Position relative to the keyboard origin.  Fixed: contents never
    /// grow the view.
    pub bounds: Bounds,
    pub rows: Vec<Row>,
}

impl Button {
    /// Well-formed against an arena of `arena_len` key states.  Bounds are
    /// not constrained here: placement moves them beyond the declared
    /// coordinate limit.
    pub open spec fn wf(self, arena_len: nat) -> bool {
        self.state < arena_len
    }
}

impl Row {
    /// Well-formed against an arena of `arena_len` key states.
    pub open spec fn wf(self, arena_len: nat) -> bool {
        &&& self.buttons@.len() <= MAX_BUTTONS_PER_ROW
        &&& forall|i: int| 0 <= i < self.buttons@.len() ==> self.buttons@[i].wf(arena_len)
    }

    /// The geometric part of well-formedness alone.
    pub open spec fn wf_geometry(self) -> bool {
        &&& self.buttons@.len() <= MAX_BUTTONS_PER_ROW
        &&& forall|i: int| 0 <= i < self.buttons@.len() ==> (#[trigger] self.buttons@[i]).bounds.wf()
    }
}

impl View {
    /// Well-formed against an arena of `arena_len` key states.
    pub open spec fn wf(self, arena_len: nat) -> bool {
        &&& self.bounds.wf()
        &&& self.rows@.len() <= MAX_ROWS_PER_VIEW
        &&& forall|i: int| 0 <= i < self.rows@.len() ==> self.rows@[i].wf(arena_len)
    }

    /// The geometric part of well-formedness alone.
    pub open spec fn wf_geometry(self) -> bool {
        &&& self.bounds.wf()
        &&& self.rows@.len() <= MAX_ROWS_PER_VIEW
        &&& forall|i: int| 0 <= i < self.rows@.len() ==> (#[trigger] self.rows@[i]).wf_geometry()
    }

    /// Every row has been given a position.
    pub open spec fn spec_placed(self) -> bool {
        forall|i: int| 0 <= i < self.rows@.len() ==> (#[trigger] self.rows@[i]).bounds is Some
    }
}

/// The physical characteristic of a layout for the purpose of styling.
#[derive(Debug, Clone, Copy, PartialEq, Eq, Structural)]
pub enum ArrangementKind {
    Base,
    Wide,
}

impl ArrangementKind {
    /// The numeric value used at the styling boundary.
    pub fn to_u32(self) -> (r: u32)
        ensures
            r == (if self is Base {
                0u32
            } else {
                1u32
            }),
    {
        match self {
            ArrangementKind::Base => 0,
            ArrangementKind::Wide => 1,
        }
    }
}

// --- Placement: pure geometry ---
/// Signed halving that rounds toward zero, as the placement uses for
/// centering.
pub open spec fn spec_half(d: int) -> int {
    if d >= 0 {
        d / 2
    } else {
        -((-d) / 2)
    }
}

/// The horizontal offset consumed by the first `n` outlines of a row: each
/// outline's own leading offset plus its width.
pub open spec fn spec_x_offset(outlines: Seq<Bounds>, n: int) -> int
    decreases n,
{
    if n <= 0 {
        0
    } else {
        spec_x_offset(outlines, n - 1) + outlines[n - 1].x + outlines[n - 1].width
    }
}

/// The position a row's `k`-th button gets: placed left to right from 0,
/// keeping each outline's leading offset as extra spacing, with the
/// outline's own size.
pub open spec fn spec_button_position(outlines: Seq<Bounds>, k: int) -> Bounds {
    Bounds {
        x: (spec_x_offset(outlines, k) + outlines[k].x) as i64,
        y: outlines[k].y,
        width: outlines[k].width,
        height: outlines[k].height,
    }
}

/// The height of the tallest position, or zero if there are none.
pub open spec fn spec_max_height(positions: Seq<Bounds>) -> int
    decreases positions.len(),
{
    if positions.len() == 0 {
        0
    } else {
        let rest = spec_max_height(positions.drop_last());
        if positions.last().height > rest {
            positions.last().height as int
        } else {
            rest
        }
    }
}

/// A row's size: width up to the right edge of its last button, height of
/// its tallest button.
pub open spec fn spec_row_size(positions: Seq<Bounds>) -> Size {
    Size {
        width: if positions.len() == 0 {
            0
        } else {
            (positions.last().x + positions.last().width) as i64
        },
        height: spec_max_height(positions) as i64,
    }
}

/// The vertical offset consumed by the first `n` row sizes.
pub open spec fn spec_y_offset(sizes: Seq<Size>, n: int) -> int
    decreases n,
{
    if n <= 0 {
        0
    } else {
        spec_y_offset(sizes, n - 1) + sizes[n - 1].height
    }
}

/// The position the `k`-th row gets: rows stack top to bottom from the
/// view's y origin, each centered horizontally within the view's fixed
/// width.
pub open spec fn spec_row_position(view_bounds: Bounds, sizes: Seq<Size>, k: int) -> Bounds {
    Bounds {
        x: spec_half(view_bounds.width - sizes[k].width) as i64,
        y: (view_bounds.y + spec_y_offset(sizes, k)) as i64,
        width: sizes[k].width,
        height: sizes[k].height,
    }
}

/// Bounds on the offset sums, so the placement arithmetic stays in range.
pub proof fn lemma_x_offset_bounded(outlines: Seq<Bounds>, n: int)
    requires
        forall|i: int| 0 <= i < outlines.len() ==> outlines[i].wf(),
        0 <= n <= outlines.len(),
    ensures
        -2 * COORD_LIMIT * n <= spec_x_offset(outlines, n) <= 2 * COORD_LIMIT * n,
    decreases n,
{
    if n > 0 {
        lemma_x_offset_bounded(outlines, n - 1);
        assert(-2 * COORD_LIMIT * n == -2 * COORD_LIMIT * (n - 1) + -2 * COORD_LIMIT)
            by (nonlinear_arith);
        assert(2 * COORD_LIMIT * n == 2 * COORD_LIMIT * (n - 1) + 2 * COORD_LIMIT)
            by (nonlinear_arith);
    }
}

pub proof fn lemma_y_offset_bounded(sizes: Seq<Size>, n: int, bound: int)
    requires
        forall|i: int| 0 <= i < sizes.len() ==> -bound <= #[trigger] sizes[i].height <= bound,
        0 <= n <= sizes.len(),
        bound >= 0,
    ensures
        -bound * n <= spec_y_offset(sizes, n) <= bound * n,
    decreases n,
{
    if n > 0 {
        lemma_y_offset_bounded(sizes, n - 1, bound);
        assert(-bound * n == -bound * (n - 1) + -bound) by (nonlinear_arith);
        assert(bound * n == bound * (n - 1) + bound) by (nonlinear_arith);
    }
}

/// Places the buttons of one row: returns the position of each outline,
/// left to right.
fn calculate_button_positions(outlines: &Vec<Bounds>) -> (r: Vec<Bounds>)
    requires
        outlines@.len() <= MAX_BUTTONS_PER_ROW,
        forall|i: int| 0 <= i < outlines@.len() ==> outlines@[i].wf(),
    ensures
        r@.len() == outlines@.len(),
        forall|k: int| 0 <= k < r@.len() ==> r@[k] == spec_button_position(outlines@, k),
{
    let mut out: Vec<Bounds> = Vec::new();
    let mut x_offset: i64 = 0;
    let mut i: usize = 0;
    while i < outlines.len()
        invariant
            i <= outlines@.len(),
            outlines@.len() <= MAX_BUTTONS_PER_ROW,
            forall|j: int| 0 <= j < outlines@.len() ==> outlines@[j].wf(),
            x_offset == spec_x_offset(outlines@, i as int),
            out@.len() == i,
            forall|k: int| 0 <= k < i ==> out@[k] == spec_button_position(outlines@, k),
        decreases outlines@.len() - i,
    {
        proof {
            lemma_x_offset_bounded(outlines@, i as int);
            assert(2 * COORD_LIMIT * (i as int) <= 2 * COORD_LIMIT * (
            MAX_BUTTONS_PER_ROW as int) && -2 * COORD_LIMIT * (i as int) >= -2 * COORD_LIMIT * (
            MAX_BUTTONS_PER_ROW as int)) by (nonlinear_arith)
                requires
                    0 <= i <= MAX_BUTTONS_PER_ROW,
            ;
            assert(outlines@[i as int].wf());
        }
        let o = outlines[i];
        let x = x_offset + o.x;
        out.push(Bounds { x, y: o.y, width: o.width, height: o.height });
        x_offset = x + o.width;
        i += 1;
    }
    out
}

/// The largest magnitude a placed coordinate can reach: a row of maximal
/// buttons, each at the coordinate limit, stays within this bound.
pub const PLACED_LIMIT: i64 = 40_000_000_000_000;

/// The button positions a row of outlines is given, left to right.
pub open spec fn spec_row_positions_of(outlines: Seq<Bounds>) -> Seq<Bounds> {
    Seq::new(outlines.len(), |j: int| spec_button_position(outlines, j))
}

/// The outline rectangles of every button of the view, row by row.
pub open spec fn spec_outline_grid(v: View) -> Seq<Seq<Bounds>> {
    Seq::new(
        v.rows@.len(),
        |i: int| Seq::new(v.rows@[i].buttons@.len(), |j: int| v.rows@[i].buttons@[j].bounds),
    )
}

/// The sizes the rows of an outline grid get.
pub open spec fn spec_row_sizes(g: Seq<Seq<Bounds>>) -> Seq<Size> {
    Seq::new(g.len(), |i: int| spec_row_size(spec_row_positions_of(g[i])))
}

pub proof fn lemma_max_height_bounded(positions: Seq<Bounds>, bound: int)
    requires
        forall|k: int|
            0 <= k < positions.len() ==> -bound <= (#[trigger] positions[k]).height <= bound,
        bound >= 0,
    ensures
        0 <= spec_max_height(positions) <= bound,
    decreases positions.len(),
{
    if positions.len() > 0 {
        lemma_max_height_bounded(positions.drop_last(), bound);
    }
}

/// Derives a row's size from its button positions.
fn calculate_row_size(positions: &Vec<Bounds>) -> (r: Size)
    requires
        positions@.len() <= MAX_BUTTONS_PER_ROW,
        forall|k: int|
            0 <= k < positions@.len() ==> -3 * COORD_LIMIT * MAX_BUTTONS_PER_ROW <= (
            #[trigger] positions@[k]).x <= 3 * COORD_LIMIT * MAX_BUTTONS_PER_ROW && -COORD_LIMIT
                <= positions@[k].width <= COORD_LIMIT && -COORD_LIMIT <= positions@[k].height
                <= COORD_LIMIT,
    ensures
        r == spec_row_size(positions@),
{
    let mut max_height: i64 = 0;
    let mut i: usize = 0;
    while i < positions.len()
        invariant
            i <= positions@.len(),
            forall|k: int|
                0 <= k < positions@.len() ==> -COORD_LIMIT <= (#[trigger] positions@[k]).height
                    <= COORD_LIMIT,
            max_height == spec_max_height(positions@.take(i as int)),
        decreases positions@.len() - i,
    {
        proof {
            assert(positions@.take(i + 1).drop_last() =~= positions@.take(i as int));
        }
        if positions[i].height > max_height {
            max_height = positions[i].height;
        }
        i += 1;
    }
    proof {
        assert(positions@.take(positions@.len() as int) =~= positions@);
    }
    let total_width: i64 = if positions.len() == 0 {
        0
    } else {
        positions[positions.len() - 1].x + positions[positions.len() - 1].width
    };
    Size { width: total_width, height: max_height }
}


/// Places the rows of a view: stacked from the view's y origin, each
/// centered horizontally within the view's fixed width.
fn calculate_row_positions(view_bounds: Bounds, sizes: &Vec<Size>) -> (r: Vec<Bounds>)
    requires
        view_bounds.wf(),
        sizes@.len() <= MAX_ROWS_PER_VIEW,
        forall|k: int|
            0 <= k < sizes@.len() ==> -PLACED_LIMIT <= (#[trigger] sizes@[k]).width <= PLACED_LIMIT
                && 0 <= sizes@[k].height <= COORD_LIMIT,
    ensures
        r@.len() == sizes@.len(),
        forall|k: int| 0 <= k < r@.len() ==> r@[k] == spec_row_position(view_bounds, sizes@, k),
{
    let mut out: Vec<Bounds> = Vec::new();
    let mut y_offset: i64 = view_bounds.y;
    let mut i: usize = 0;
    while i < sizes.len()
        invariant
            i <= sizes@.len(),
            sizes@.len() <= MAX_ROWS_PER_VIEW,
            view_bounds.wf(),
            forall|k: int|
                0 <= k < sizes@.len() ==> -PLACED_LIMIT <= (#[trigger] sizes@[k]).width
                    <= PLACED_LIMIT && 0 <= sizes@[k].height <= COORD_LIMIT,
            y_offset == view_bounds.y + spec_y_offset(sizes@, i as int),
            out@.len() == i,
            forall|k: int| 0 <= k < i ==> out@[k] == spec_row_position(view_bounds, sizes@, k),
        decreases sizes@.len() - i,
    {
        proof {
            lemma_y_offset_bounded(sizes@, i as int, COORD_LIMIT as int);
            lemma_y_offset_bounded(sizes@, i + 1, COORD_LIMIT as int);
            assert(COORD_LIMIT * (i + 1) <= COORD_LIMIT * (MAX_ROWS_PER_VIEW as int) && -(
            COORD_LIMIT as int) * (i + 1) >= -(COORD_LIMIT as int) * (MAX_ROWS_PER_VIEW as int))
                by (nonlinear_arith)
                requires
                    0 <= i < MAX_ROWS_PER_VIEW,
            ;
        }
        let size = sizes[i];
        let diff = view_bounds.width - size.width;
        let x = if diff >= 0 {
            diff / 2
        } else {
            -((-diff) / 2)
        };
        out.push(Bounds { x, y: y_offset, width: size.width, height: size.height });
        y_offset = y_offset + size.height;
        i += 1;
    }
    out
}

impl View {
    /// Places every button and row of the view from the buttons' outline
    /// rectangles.  The view's own bounds never change: contents do not
    /// grow the view.
    pub fn place_contents(&mut self)
        requires
            old(self).wf_geometry(),
        ensures
            final(self).bounds == old(self).bounds,
            final(self).rows@.len() == old(self).rows@.len(),
            forall|i: int|
                0 <= i < final(self).rows@.len() ==> {
                    let g = spec_outline_grid(*old(self));
                    &&& (#[trigger] final(self).rows@[i]).angle == old(self).rows@[i].angle
                    &&& final(self).rows@[i].bounds == Some(
                        spec_row_position(old(self).bounds, spec_row_sizes(g), i),
                    )
                    &&& final(self).rows@[i].buttons@.len() == old(self).rows@[i].buttons@.len()
                    &&& forall|j: int|
                        0 <= j < final(self).rows@[i].buttons@.len()
                            ==> #[trigger] final(self).rows@[i].buttons@[j] == (Button {
                            bounds: spec_button_position(g[i], j),
                            ..old(self).rows@[i].buttons@[j]
                        })
                },
    {
        let ghost g = spec_outline_grid(*old(self));
        let ghost orig = *old(self);
        let mut row_sizes: Vec<Size> = Vec::new();
        let mut positions_grid: Vec<Vec<Bounds>> = Vec::new();
        let mut i: usize = 0;
        while i < self.rows.len()
            invariant
                *self == orig,
                orig.wf_geometry(),
                g == spec_outline_grid(orig),
                i <= self.rows@.len(),
                row_sizes@.len() == i,
                positions_grid@.len() == i,
                forall|k: int|
                    0 <= k < i ==> #[trigger] row_sizes@[k] == spec_row_size(
                        spec_row_positions_of(g[k]),
                    ),
                forall|k: int|
                    0 <= k < i ==> (#[trigger] positions_grid@[k])@ == spec_row_positions_of(g[k]),
            decreases self.rows@.len() - i,
        {
            let mut outlines: Vec<Bounds> = Vec::new();
            let row = &self.rows[i];
            let mut j: usize = 0;
            while j < row.buttons.len()
                invariant
                    *self == orig,
                    g == spec_outline_grid(orig),
                    0 <= i < self.rows@.len(),
                    row == self.rows@[i as int],
                    j <= row.buttons@.len(),
                    outlines@ == g[i as int].take(j as int),
                decreases row.buttons@.len() - j,
            {
                outlines.push(row.buttons[j].bounds);
                proof {
                    assert(outlines@ =~= g[i as int].take(j + 1));
                }
                j += 1;
            }
            proof {
                assert(outlines@ =~= g[i as int]);
                assert(orig.rows@[i as int].wf_geometry());
                assert forall|k: int| 0 <= k < outlines@.len() implies (
                #[trigger] outlines@[k]).wf() by {
                    assert(outlines@[k] == orig.rows@[i as int].buttons@[k].bounds);
                }
            }
            let positions = calculate_button_positions(&outlines);
            proof {
                assert(positions@ =~= spec_row_positions_of(g[i as int]));
                assert forall|k: int| 0 <= k < positions@.len() implies -3 * COORD_LIMIT * (
                MAX_BUTTONS_PER_ROW as int) <= (#[trigger] positions@[k]).x <= 3 * COORD_LIMIT * (
                MAX_BUTTONS_PER_ROW as int) && -COORD_LIMIT <= positions@[k].width <= COORD_LIMIT
                    && -COORD_LIMIT <= positions@[k].height <= COORD_LIMIT by {
                    lemma_x_offset_bounded(outlines@, k);
                    assert(2 * COORD_LIMIT * k <= 2 * COORD_LIMIT * (MAX_BUTTONS_PER_ROW as int)
                        && -2 * COORD_LIMIT * k >= -2 * COORD_LIMIT * (MAX_BUTTONS_PER_ROW as int))
                        by (nonlinear_arith)
                        requires
                            0 <= k <= MAX_BUTTONS_PER_ROW,
                    ;
                    assert(outlines@[k].wf());
                }
            }
            let size = calculate_row_size(&positions);
            row_sizes.push(size);
            positions_grid.push(positions);
            i += 1;
        }
        proof {
            assert(row_sizes@ =~= spec_row_sizes(g));
            assert forall|k: int| 0 <= k < row_sizes@.len() implies -PLACED_LIMIT <= (
            #[trigger] row_sizes@[k]).width <= PLACED_LIMIT && 0 <= row_sizes@[k].height
                <= COORD_LIMIT by {
                let ps = spec_row_positions_of(g[k]);
                assert(row_sizes@[k] == spec_row_size(ps));
                assert(orig.rows@[k].wf_geometry());
                assert forall|m2: int| 0 <= m2 < g[k].len() implies (#[trigger] g[k][m2]).wf() by {
                    assert(g[k][m2] == orig.rows@[k].buttons@[m2].bounds);
                }
                assert forall|m: int| 0 <= m < ps.len() implies -3 * COORD_LIMIT * (
                MAX_BUTTONS_PER_ROW as int) <= (#[trigger] ps[m]).x <= 3 * COORD_LIMIT * (
                MAX_BUTTONS_PER_ROW as int) && -COORD_LIMIT <= ps[m].width <= COORD_LIMIT
                    && -COORD_LIMIT <= ps[m].height <= COORD_LIMIT by {
                    lemma_x_offset_bounded(g[k], m);
                    assert(2 * COORD_LIMIT * m <= 2 * COORD_LIMIT * (MAX_BUTTONS_PER_ROW as int)
                        && -2 * COORD_LIMIT * m >= -2 * COORD_LIMIT * (MAX_BUTTONS_PER_ROW as int))
                        by (nonlinear_arith)
                        requires
                            0 <= m <= MAX_BUTTONS_PER_ROW,
                    ;
                    assert(orig.rows@[k].wf_geometry());
                    assert(g[k][m] == orig.rows@[k].buttons@[m].bounds);
                }
                lemma_max_height_bounded(ps, COORD_LIMIT as int);
                if ps.len() > 0 {
                    assert(ps[ps.len() - 1] == ps.last());
                }
            }
        }
        let row_positions = calculate_row_positions(self.bounds, &row_sizes);
        let mut i: usize = 0;
        while i < self.rows.len()
            invariant
                self.bounds == orig.bounds,
                self.rows@.len() == orig.rows@.len(),
                g == spec_outline_grid(orig),
                row_positions@.len() == orig.rows@.len(),
                positions_grid@.len() == orig.rows@.len(),
                forall|k: int|
                    0 <= k < positions_grid@.len() ==> (#[trigger] positions_grid@[k])@
                        == spec_row_positions_of(g[k]),
                forall|k: int|
                    0 <= k < row_positions@.len() ==> #[trigger] row_positions@[k]
                        == spec_row_position(orig.bounds, spec_row_sizes(g), k),
                i <= self.rows@.len(),
                forall|k: int| i <= k < self.rows@.len() ==> self.rows@[k] == orig.rows@[k],
                forall|k: int|
                    0 <= k < i ==> {
                        &&& (#[trigger] self.rows@[k]).angle == orig.rows@[k].angle
                        &&& self.rows@[k].bounds == Some(
                            spec_row_position(orig.bounds, spec_row_sizes(g), k),
                        )
                        &&& self.rows@[k].buttons@.len() == orig.rows@[k].buttons@.len()
                        &&& forall|j: int|
                            0 <= j < self.rows@[k].buttons@.len()
                                ==> #[trigger] self.rows@[k].buttons@[j] == (Button {
                                bounds: spec_button_position(g[k], j),
                                ..orig.rows@[k].buttons@[j]
                            })
                    },
            decreases self.rows@.len() - i,
        {
            self.rows[i].bounds = Some(row_positions[i]);
            let n_buttons = self.rows[i].buttons.len();
            let mut j: usize = 0;
            while j < n_buttons
                invariant
                    0 <= i < self.rows@.len(),
                    self.bounds == orig.bounds,
                    self.rows@.len() == orig.rows@.len(),
                    g == spec_outline_grid(orig),
                    positions_grid@.len() == orig.rows@.len(),
                    forall|k: int|
                        0 <= k < positions_grid@.len() ==> (#[trigger] positions_grid@[k])@
                            == spec_row_positions_of(g[k]),
                    forall|k: int| i < k < self.rows@.len() ==> self.rows@[k] == orig.rows@[k],
                    forall|k: int|
                        0 <= k < i ==> {
                            &&& (#[trigger] self.rows@[k]).angle == orig.rows@[k].angle
                            &&& self.rows@[k].bounds == Some(
                                spec_row_position(orig.bounds, spec_row_sizes(g), k),
                            )
                            &&& self.rows@[k].buttons@.len() == orig.rows@[k].buttons@.len()
                            &&& forall|j2: int|
                                0 <= j2 < self.rows@[k].buttons@.len()
                                    ==> #[trigger] self.rows@[k].buttons@[j2] == (Button {
                                    bounds: spec_button_position(g[k], j2),
                                    ..orig.rows@[k].buttons@[j2]
                                })
                        },
                    self.rows@[i as int].angle == orig.rows@[i as int].angle,
                    self.rows@[i as int].bounds == Some(
                        spec_row_position(orig.bounds, spec_row_sizes(g), i as int),
                    ),
                    n_buttons == self.rows@[i as int].buttons@.len(),
                    self.rows@[i as int].buttons@.len() == orig.rows@[i as int].buttons@.len(),
                    j <= n_buttons,
                    forall|j2: int|
                        j <= j2 < self.rows@[i as int].buttons@.len() ==> self.rows@[i as
                            int].buttons@[j2] == orig.rows@[i as int].buttons@[j2],
                    forall|j2: int|
                        0 <= j2 < j ==> #[trigger] self.rows@[i as int].buttons@[j2] == (Button {
                            bounds: spec_button_position(g[i as int], j2),
                            ..orig.rows@[i as int].buttons@[j2]
                        }),
                decreases n_buttons - j,
            {
                self.rows[i].buttons[j].bounds = positions_grid[i][j];
                proof {
                    assert(positions_grid@[i as int]@[j as int] == spec_button_position(
                        g[i as int],
                        j as int,
                    ));
                }
                j += 1;
            }
            i += 1;
        }
    }
}


// --- Hit-testing ---
/// A point rotated into a rectangle's frame, for right-angle rotations.
/// The builder only ever produces unrotated rows; any angle that is not a
/// multiple of a right angle matches nothing.
pub open spec fn spec_rotated(x: int, y: int, angle: int) -> (int, int) {
    if angle == 90 || angle == -270 {
        (y, -x)
    } else if angle == 180 || angle == -180 {
        (-x, -y)
    } else if angle == 270 || angle == -90 {
        (-y, x)
    } else {
        (x, y)
    }
}

/// Whether an angle names a right-angle rotation the hit test understands.
pub open spec fn spec_right_angle(angle: int) -> bool {
    angle == 0 || angle == 90 || angle == 180 || angle == 270 || angle == -90 || angle == -180
        || angle == -270
}

/// Whether `point` falls within `bounds`, which are relative to `origin`
/// and rotated by `angle`.  Edges on the left and top are inside, on the
/// right and bottom outside.
pub open spec fn spec_point_inside(bounds: Bounds, point: Point, origin: Point, angle: int) -> bool {
    let q = spec_rotated(point.x - origin.x, point.y - origin.y, angle);
    &&& spec_right_angle(angle)
    &&& bounds.x <= q.0 < bounds.x + bounds.width
    &&& bounds.y <= q.1 < bounds.y + bounds.height
}

/// Checks whether a point falls within bounds relative to an origin,
/// honoring a right-angle rotation.
pub fn is_point_inside(bounds: Bounds, point: Point, origin: Point, angle: i32) -> (r: bool)
    ensures
        r == spec_point_inside(bounds, point, origin, angle as int),
{
    let rx: i128 = point.x as i128 - origin.x as i128;
    let ry: i128 = point.y as i128 - origin.y as i128;
    let q: Option<(i128, i128)> = if angle == 0 {
        Some((rx, ry))
    } else if angle == 90 || angle == -270 {
        Some((ry, -rx))
    } else if angle == 180 || angle == -180 {
        Some((-rx, -ry))
    } else if angle == 270 || angle == -90 {
        Some((-ry, rx))
    } else {
        None
    };
    match q {
        Some((qx, qy)) => {
            let bx = bounds.x as i128;
            let by = bounds.y as i128;
            bx <= qx && qx < bx + bounds.width as i128 && by <= qy && qy < by
                + bounds.height as i128
        },
        None => false,
    }
}

impl Row {
    /// Where the first button covering `point` sits in this row, if any.
    /// `point` is relative to the row's own origin's parent: the row's
    /// placed position supplies the origin, as the placement left it.
    pub open spec fn spec_find_button(self, point: Point, j: int) -> Option<int>
        decreases self.buttons@.len() - j,
    {
        if j < 0 || j >= self.buttons@.len() {
            None
        } else if spec_point_inside(
            self.buttons@[j].bounds,
            point,
            Point { x: self.bounds->Some_0.x, y: self.bounds->Some_0.y },
            self.angle as int,
        ) {
            Some(j)
        } else {
            self.spec_find_button(point, j + 1)
        }
    }

    /// Finds the first button of the row that covers the specified point,
    /// relative to the row's position's origin.
    pub fn find_button_by_position(&self, point: Point) -> (r: Option<usize>)
        requires
            self.bounds is Some,
        ensures
            match r {
                Some(j) => 0 <= j < self.buttons@.len() && self.spec_find_button(point, 0)
                    == Some(j as int),
                None => self.spec_find_button(point, 0) is None,
            },
    {
        let rb = match &self.bounds {
            Some(b) => Point { x: b.x, y: b.y },
            None => Point { x: 0, y: 0 },
        };
        let mut j: usize = 0;
        while j < self.buttons.len()
            invariant
                self.bounds is Some,
                rb == (Point { x: self.bounds->Some_0.x, y: self.bounds->Some_0.y }),
                j <= self.buttons@.len(),
                self.spec_find_button(point, 0) == self.spec_find_button(point, j as int),
            decreases self.buttons@.len() - j,
        {
            if is_point_inside(self.buttons[j].bounds, point, rb, self.angle) {
                return Some(j);
            }
            j += 1;
        }
        None
    }
}

impl View {
    /// Where the first hit sits, searching rows from the top: the first
    /// row holding a button that covers the point wins.
    pub open spec fn spec_find_button(self, point: Point, i: int) -> Option<(int, int)>
        decreases self.rows@.len() - i,
    {
        if i < 0 || i >= self.rows@.len() {
            None
        } else {
            match self.rows@[i].spec_find_button(point, 0) {
                Some(j) => Some((i, j)),
                None => self.spec_find_button(point, i + 1),
            }
        }
    }

    /// Finds the first button that covers the specified point, which is
    /// relative to the view's position's origin.  Returns the row and the
    /// button position within it.
    pub fn find_button_by_position(&self, point: Point) -> (r: Option<(usize, usize)>)
        requires
            self.spec_placed(),
            self.bounds.wf(),
            -POINT_LIMIT <= point.x <= POINT_LIMIT,
            -POINT_LIMIT <= point.y <= POINT_LIMIT,
        ensures
            match r {
                Some(p) => {
                    &&& 0 <= p.0 < self.rows@.len()
                    &&& 0 <= p.1 < self.rows@[p.0 as int].buttons@.len()
                    &&& self.spec_find_button(
                        (Point { x: (point.x - self.bounds.x) as i64, y: (point.y - self.bounds.y) as i64 }),
                        0,
                    ) == Some((p.0 as int, p.1 as int))
                },
                None => self.spec_find_button(
                    (Point { x: (point.x - self.bounds.x) as i64, y: (point.y - self.bounds.y) as i64 }),
                    0,
                ) is None,
            },
    {
        // Make the point relative to the inside of the view, which is the
        // origin of all rows.
        let p = Point { x: (point.x - self.bounds.x) as i64, y: (point.y - self.bounds.y) as i64 };
        let mut i: usize = 0;
        while i < self.rows.len()
            invariant
                self.spec_placed(),
                i <= self.rows@.len(),
                p == (Point { x: (point.x - self.bounds.x) as i64, y: (point.y - self.bounds.y) as i64 }),
                self.spec_find_button(p, 0) == self.spec_find_button(p, i as int),
            decreases self.rows@.len() - i,
        {
            match self.rows[i].find_button_by_position(p) {
                Some(j) => {
                    return Some((i, j));
                },
                None => {},
            }
            i += 1;
        }
        None
    }
}


// --- The layout and its runtime state ---
/// Whether every view name an action refers to exists.
pub open spec fn spec_action_targets_ok(a: Action, names: Seq<Seq<char>>) -> bool {
    match a {
        Action::SetLevel(n) => names.contains(n@),
        Action::LockLevel { lock, unlock } => names.contains(lock@) && names.contains(unlock@),
        _ => true,
    }
}

/// A key state fit for a layout: keycodes within the table's range, and
/// every view reference resolving to an existing view.
pub open spec fn spec_key_state_wf(s: KeyState, names: Seq<Seq<char>>) -> bool {
    &&& forall|i: int|
        0 <= i < s.keycodes@.len() ==> KEYCODE_BOTTOM <= #[trigger] s.keycodes@[i] <= KEYCODE_MAX
    &&& spec_action_targets_ok(s.action, names)
}

/// A compiled layout as the builder hands it over: the views, the rendered
/// keymap text, and the arena of key states the buttons share.
#[derive(Debug)]
pub struct LayoutData {
    pub views: Vec<(String, View)>,
    pub keymap_str: String,
    pub key_states: Vec<KeyState>,
}

/// The name every layout starts at, and the fallback for unresolved view
/// references.
pub const DEFAULT_VIEW_NAME: &'static str = "base";

/// The names of a view list, in order.
pub open spec fn spec_names_of(views: Seq<(String, View)>) -> Seq<Seq<char>> {
    views.map(|i: int, p: (String, View)| p.0@)
}

/// Equal view lists carry equal name lists.
pub proof fn lemma_names_congruence(a: Seq<(String, View)>, b: Seq<(String, View)>)
    requires
        a == b,
    ensures
        spec_names_of(a) == spec_names_of(b),
{
}

impl LayoutData {
    /// Well-formed: distinct view names including the default one, every
    /// view within limits against the arena, and every key state sound.
    pub open spec fn wf(self) -> bool {
        &&& crate::keyboard::distinct_seqs(spec_names_of(self.views@))
        &&& spec_names_of(self.views@).contains(DEFAULT_VIEW_NAME@)
        &&& forall|i: int|
            0 <= i < self.views@.len() ==> (#[trigger] self.views@[i]).1.wf(self.key_states@.len())
                && self.views@[i].1.wf_geometry()
        &&& forall|k: int|
            0 <= k < self.key_states@.len() ==> spec_key_state_wf(
                #[trigger] self.key_states@[k],
                spec_names_of(self.views@),
            )
    }
}

/// A view switch was requested to a name no view carries.
#[derive(Debug, Clone, Copy, PartialEq, Eq, Structural)]
pub struct NoSuchView;

/// The runtime state of the keyboard: the current view name, the view set,
/// the compiled keymap text, and the shared key-state arena.
#[derive(Debug)]
pub struct Layout {
    pub kind: ArrangementKind,
    pub current_view: String,
    pub views: Vec<(String, View)>,
    /// Keymap text applicable to the contained keys.  Unchangeable.
    pub keymap_str: String,
    /// The arena of key states; buttons refer to entries by index, and one
    /// entry may be shared by several buttons.
    pub key_states: Vec<KeyState>,
}

impl Layout {
    /// The names of the layout's views, in order.
    pub open spec fn spec_view_names(self) -> Seq<Seq<char>> {
        spec_names_of(self.views@)
    }

    /// Whether a view of this name exists.
    pub open spec fn spec_has_view(self, name: Seq<char>) -> bool {
        self.spec_view_names().contains(name)
    }

    /// The layout invariant: view names distinct, the current view exists,
    /// every view well-formed, every key state sound.
    pub open spec fn wf(self) -> bool {
        &&& crate::keyboard::distinct_seqs(self.spec_view_names())
        &&& self.spec_has_view(self.current_view@)
        &&& forall|i: int|
            0 <= i < self.views@.len() ==> (#[trigger] self.views@[i]).1.wf(self.key_states@.len())
        &&& forall|k: int|
            0 <= k < self.key_states@.len() ==> spec_key_state_wf(
                #[trigger] self.key_states@[k],
                self.spec_view_names(),
            )
    }

    /// Every row of every view has been given a position.  Hit-testing
    /// asks for this; `place_contents` establishes it.
    pub open spec fn spec_all_placed(self) -> bool {
        forall|i: int| 0 <= i < self.views@.len() ==> (#[trigger] self.views@[i]).1.spec_placed()
    }

    /// The geometric part of the views' well-formedness, as the builder
    /// leaves it and `place_contents` asks for it.
    pub open spec fn spec_views_geometry_wf(self) -> bool {
        forall|i: int| 0 <= i < self.views@.len() ==> (#[trigger] self.views@[i]).1.wf_geometry()
    }
}

// --- The level cascade, as specification ---
/// A key state after activation: a locking key flips its latch; any other
/// key is unchanged.
pub open spec fn spec_activated(s: KeyState) -> KeyState {
    if s.action is LockLevel {
        KeyState { locked: !s.locked, ..s }
    } else {
        s
    }
}

/// The current view after one activated key applies its level action: the
/// target view if it exists, the unchanged view otherwise (an unresolvable
/// target is ignored), and no change for non-level actions.
pub open spec fn spec_view_after(s: KeyState, names: Seq<Seq<char>>, cur: Seq<char>) -> Seq<
    char,
> {
    match s.action.spec_level_target(s.locked) {
        Some(t) => if names.contains(t) {
            t
        } else {
            cur
        },
        None => cur,
    }
}

/// The arena after activating the key at `k`.
pub open spec fn spec_activate_states(states: Seq<KeyState>, k: int) -> Seq<KeyState> {
    states.update(k, spec_activated(states[k]))
}

/// The current view after activating the key at `k`.
pub open spec fn spec_activate_view(
    states: Seq<KeyState>,
    names: Seq<Seq<char>>,
    cur: Seq<char>,
    k: int,
) -> Seq<char> {
    spec_view_after(spec_activated(states[k]), names, cur)
}

/// The arena after activating each key of `ks`, in order.
pub open spec fn spec_cascade_states(states: Seq<KeyState>, ks: Seq<int>) -> Seq<KeyState>
    decreases ks.len(),
{
    if ks.len() == 0 {
        states
    } else {
        spec_cascade_states(spec_activate_states(states, ks[0]), ks.drop_first())
    }
}

/// The current view after activating each key of `ks`, in order.
pub open spec fn spec_cascade_view(
    states: Seq<KeyState>,
    names: Seq<Seq<char>>,
    cur: Seq<char>,
    ks: Seq<int>,
) -> Seq<char>
    decreases ks.len(),
{
    if ks.len() == 0 {
        cur
    } else {
        spec_cascade_view(
            spec_activate_states(states, ks[0]),
            names,
            spec_activate_view(states, names, cur, ks[0]),
            ks.drop_first(),
        )
    }
}

/// Activating one more key continues the cascade from where it stood.
pub proof fn lemma_cascade_push(
    states: Seq<KeyState>,
    names: Seq<Seq<char>>,
    cur: Seq<char>,
    ks: Seq<int>,
    k: int,
)
    ensures
        spec_cascade_states(states, ks.push(k)) == spec_activate_states(
            spec_cascade_states(states, ks),
            k,
        ),
        spec_cascade_view(states, names, cur, ks.push(k)) == spec_activate_view(
            spec_cascade_states(states, ks),
            names,
            spec_cascade_view(states, names, cur, ks),
            k,
        ),
    decreases ks.len(),
{
    if ks.len() == 0 {
        assert(ks.push(k).len() == 1);
        assert(ks.push(k)[0] == k);
        assert(ks.push(k).drop_first() =~= Seq::<int>::empty());
        assert(spec_cascade_states(states, ks.push(k)) == spec_cascade_states(
            spec_activate_states(states, k),
            Seq::<int>::empty(),
        ));
        assert(spec_cascade_states(states, ks) == states);
        assert(spec_cascade_view(states, names, cur, ks) == cur);
        assert(spec_cascade_view(states, names, cur, ks.push(k)) == spec_cascade_view(
            spec_activate_states(states, k),
            names,
            spec_activate_view(states, names, cur, k),
            Seq::<int>::empty(),
        ));
        assert(spec_cascade_view(
            spec_activate_states(states, k),
            names,
            spec_activate_view(states, names, cur, k),
            Seq::<int>::empty(),
        ) == spec_activate_view(states, names, cur, k));
    } else {
        assert(ks.push(k)[0] == ks[0]);
        assert(ks.push(k).drop_first() =~= ks.drop_first().push(k));
        let next = spec_activate_states(states, ks[0]);
        let next_cur = spec_activate_view(states, names, cur, ks[0]);
        lemma_cascade_push(next, names, next_cur, ks.drop_first(), k);
        assert(spec_cascade_states(states, ks.push(k)) == spec_cascade_states(
            next,
            ks.drop_first().push(k),
        ));
        assert(spec_cascade_states(states, ks) == spec_cascade_states(next, ks.drop_first()));
        assert(spec_cascade_view(states, names, cur, ks.push(k)) == spec_cascade_view(
            next,
            names,
            next_cur,
            ks.drop_first().push(k),
        ));
        assert(spec_cascade_view(states, names, cur, ks) == spec_cascade_view(
            next,
            names,
            next_cur,
            ks.drop_first(),
        ));
    }
}

/// The cascade only flips latches: length, press state, keycodes and
/// action of every key are untouched.
pub proof fn lemma_cascade_preserves_shape(states: Seq<KeyState>, ks: Seq<int>)
    requires
        forall|m: int| 0 <= m < ks.len() ==> 0 <= #[trigger] ks[m] < states.len(),
    ensures
        spec_cascade_states(states, ks).len() == states.len(),
        forall|i: int|
            0 <= i < states.len() ==> {
                let r = #[trigger] spec_cascade_states(states, ks)[i];
                &&& r.pressed == states[i].pressed
                &&& r.keycodes == states[i].keycodes
                &&& r.action == states[i].action
            },
    decreases ks.len(),
{
    if ks.len() > 0 {
        let next = spec_activate_states(states, ks[0]);
        assert(forall|m: int|
            0 <= m < ks.drop_first().len() ==> 0 <= #[trigger] ks.drop_first()[m] < next.len());
        lemma_cascade_preserves_shape(next, ks.drop_first());
    }
}

/// The cascade never leaves the view set: starting from an existing view,
/// it ends on an existing view.
pub proof fn lemma_cascade_view_valid(
    states: Seq<KeyState>,
    names: Seq<Seq<char>>,
    cur: Seq<char>,
    ks: Seq<int>,
)
    requires
        names.contains(cur),
    ensures
        names.contains(spec_cascade_view(states, names, cur, ks)),
    decreases ks.len(),
{
    if ks.len() > 0 {
        lemma_cascade_view_valid(
            spec_activate_states(states, ks[0]),
            names,
            spec_activate_view(states, names, cur, ks[0]),
            ks.drop_first(),
        );
    }
}

/// The ascending list of indices below `n` whose key is locked.
pub open spec fn spec_locked_list(states: Seq<KeyState>, n: int) -> Seq<int>
    decreases n,
{
    if n <= 0 {
        Seq::empty()
    } else {
        let rest = spec_locked_list(states, n - 1);
        if states[n - 1].locked {
            rest.push(n - 1)
        } else {
            rest
        }
    }
}

/// The ascending list of indices below `n` whose key is pressed.
pub open spec fn spec_pressed_list(states: Seq<KeyState>, n: int) -> Seq<int>
    decreases n,
{
    if n <= 0 {
        Seq::empty()
    } else {
        let rest = spec_pressed_list(states, n - 1);
        if states[n - 1].pressed is Pressed {
            rest.push(n - 1)
        } else {
            rest
        }
    }
}

/// What the locked list holds: exactly the locked indices, each in range.
pub proof fn lemma_locked_list_props(states: Seq<KeyState>, n: int)
    requires
        0 <= n <= states.len(),
    ensures
        forall|m: int|
            0 <= m < spec_locked_list(states, n).len() ==> 0 <= #[trigger] spec_locked_list(
                states,
                n,
            )[m] < n && states[spec_locked_list(states, n)[m]].locked,
        forall|k: int|
            0 <= k < n && states[k].locked ==> spec_locked_list(states, n).contains(k),
    decreases n,
{
    if n > 0 {
        lemma_locked_list_props(states, n - 1);
        let rest = spec_locked_list(states, n - 1);
        assert forall|k: int|
            0 <= k < n && states[k].locked implies spec_locked_list(states, n).contains(k) by {
            if k < n - 1 {
                assert(rest.contains(k));
                let m = choose|m: int| 0 <= m < rest.len() && rest[m] == k;
                if states[n - 1].locked {
                    assert(spec_locked_list(states, n) == rest.push(n - 1));
                    assert(rest.push(n - 1)[m] == k);
                    assert(spec_locked_list(states, n).contains(k));
                } else {
                    assert(spec_locked_list(states, n) == rest);
                }
            } else {
                assert(states[n - 1].locked);
                assert(spec_locked_list(states, n) == rest.push(n - 1));
                assert(spec_locked_list(states, n)[rest.len() as int] == k);
                assert(spec_locked_list(states, n).contains(k));
            }
        }
    }
}

/// What the pressed list holds: exactly the pressed indices, each in range.
pub proof fn lemma_pressed_list_props(states: Seq<KeyState>, n: int)
    requires
        0 <= n <= states.len(),
    ensures
        forall|m: int|
            0 <= m < spec_pressed_list(states, n).len() ==> 0 <= #[trigger] spec_pressed_list(
                states,
                n,
            )[m] < n && states[spec_pressed_list(states, n)[m]].pressed is Pressed,
        forall|k: int|
            0 <= k < n && states[k].pressed is Pressed ==> spec_pressed_list(states, n).contains(
                k,
            ),
    decreases n,
{
    if n > 0 {
        lemma_pressed_list_props(states, n - 1);
        let rest = spec_pressed_list(states, n - 1);
        assert forall|k: int|
            0 <= k < n && states[k].pressed is Pressed implies spec_pressed_list(
            states,
            n,
        ).contains(k) by {
            if k < n - 1 {
                assert(rest.contains(k));
                let m = choose|m: int| 0 <= m < rest.len() && rest[m] == k;
                if states[n - 1].pressed is Pressed {
                    assert(spec_pressed_list(states, n) == rest.push(n - 1));
                    assert(rest.push(n - 1)[m] == k);
                    assert(spec_pressed_list(states, n).contains(k));
                } else {
                    assert(spec_pressed_list(states, n) == rest);
                }
            } else {
                assert(states[n - 1].pressed is Pressed);
                assert(spec_pressed_list(states, n) == rest.push(n - 1));
                assert(spec_pressed_list(states, n)[rest.len() as int] == k);
                assert(spec_pressed_list(states, n).contains(k));
            }
        }
    }
}

impl Layout {
    /// Switches the current view.  Fails, changing nothing, exactly when
    /// no view of that name exists.
    pub fn set_view(&mut self, view: String) -> (r: Result<(), NoSuchView>)
        ensures
            old(self).spec_has_view(view@) ==> r == Ok::<(), NoSuchView>(())
                && final(self).current_view == view,
            !old(self).spec_has_view(view@) ==> r == Err::<(), NoSuchView>(NoSuchView)
                && final(self).current_view == old(self).current_view,
            final(self).kind == old(self).kind,
            final(self).views == old(self).views,
            final(self).keymap_str == old(self).keymap_str,
            final(self).key_states == old(self).key_states,
    {
        let ghost names = self.spec_view_names();
        let mut i: usize = 0;
        let mut found = false;
        while i < self.views.len() && !found
            invariant
                i <= self.views@.len(),
                names == self.spec_view_names(),
                found ==> names.contains(view@),
                !found ==> forall|j: int| 0 <= j < i ==> self.views@[j].0@ != view@,
            decreases self.views@.len() - i,
        {
            if self.views[i].0.eq(&view) {
                found = true;
                proof {
                    assert(names[i as int] == view@);
                }
            }
            i += 1;
        }
        if found {
            self.current_view = view;
            Ok(())
        } else {
            proof {
                assert forall|j: int| 0 <= j < names.len() implies #[trigger] names[j]
                    != view@ by {
                    assert(names[j] == self.views@[j].0@);
                }
            }
            Err(NoSuchView)
        }
    }

    /// Returns every locked key of the arena, in ascending order, without
    /// duplicates.
    pub fn get_locked_keys(&self) -> (r: Vec<usize>)
        ensures
            r@.map_values(|v: usize| v as int) == spec_locked_list(
                self.key_states@,
                self.key_states@.len() as int,
            ),
    {
        let mut out: Vec<usize> = Vec::new();
        let mut i: usize = 0;
        while i < self.key_states.len()
            invariant
                i <= self.key_states@.len(),
                out@.map_values(|v: usize| v as int) == spec_locked_list(
                    self.key_states@,
                    i as int,
                ),
            decreases self.key_states@.len() - i,
        {
            if self.key_states[i].locked {
                out.push(i);
                proof {
                    assert(out@.map_values(|v: usize| v as int) =~= spec_locked_list(
                        self.key_states@,
                        i + 1,
                    ));
                }
            }
            i += 1;
        }
        out
    }

    /// Returns every pressed key of the arena, in ascending order, without
    /// duplicates.
    pub fn get_pressed_keys(&self) -> (r: Vec<usize>)
        ensures
            r@.map_values(|v: usize| v as int) == spec_pressed_list(
                self.key_states@,
                self.key_states@.len() as int,
            ),
    {
        let mut out: Vec<usize> = Vec::new();
        let mut i: usize = 0;
        while i < self.key_states.len()
            invariant
                i <= self.key_states@.len(),
                out@.map_values(|v: usize| v as int) == spec_pressed_list(
                    self.key_states@,
                    i as int,
                ),
            decreases self.key_states@.len() - i,
        {
            if matches!(self.key_states[i].pressed, PressType::Pressed) {
                out.push(i);
                proof {
                    assert(out@.map_values(|v: usize| v as int) =~= spec_pressed_list(
                        self.key_states@,
                        i + 1,
                    ));
                }
            }
            i += 1;
        }
        out
    }
}


/// A key state with its press flag replaced.
pub open spec fn spec_with_pressed(s: KeyState, p: PressType) -> KeyState {
    KeyState { pressed: p, ..s }
}

impl Layout {
    /// Where the current view sits in the view list.
    pub fn current_view_index(&self) -> (i: usize)
        requires
            self.wf(),
        ensures
            i < self.views@.len(),
            self.views@[i as int].0@ == self.current_view@,
    {
        let mut i: usize = 0;
        while i < self.views.len()
            invariant
                i <= self.views@.len(),
                self.wf(),
                forall|j: int| 0 <= j < i ==> self.views@[j].0@ != self.current_view@,
            decreases self.views@.len() - i,
        {
            if self.views[i].0.eq(&self.current_view) {
                return i;
            }
            i += 1;
        }
        proof {
            let names = self.spec_view_names();
            assert(names.contains(self.current_view@));
            let j = choose|j: int| 0 <= j < names.len() && names[j] == self.current_view@;
            assert(self.views@[j].0@ == self.current_view@);
            assert(false);
        }
        0
    }

    /// The currently selected view.
    pub fn get_current_view(&self) -> (r: &View)
        requires
            self.wf(),
        ensures
            exists|i: int|
                0 <= i < self.views@.len() && (#[trigger] self.views@[i]).0@
                    == self.current_view@ && *r == self.views@[i].1,
    {
        let i = self.current_view_index();
        &self.views[i].1
    }

    /// Applies the level a key's activation resolved to: switches to the
    /// target view, ignores an unresolvable target (the view is unchanged),
    /// and does nothing when there is no target.
    fn set_state_from_press(&mut self, target: Option<String>)
        ensures
            final(self).current_view@ == (match target {
                Some(t) => if old(self).spec_has_view(t@) {
                    t@
                } else {
                    old(self).current_view@
                },
                None => old(self).current_view@,
            }),
            final(self).kind == old(self).kind,
            final(self).views == old(self).views,
            final(self).keymap_str == old(self).keymap_str,
            final(self).key_states == old(self).key_states,
    {
        match target {
            Some(name) => {
                match self.set_view(name) {
                    Ok(()) => {},
                    Err(NoSuchView) => {
                        // An unresolvable target view is ignored.
                    },
                }
            },
            None => {},
        }
    }

    /// Activates one key: a locking key flips its latch, then the level
    /// resulting from its action is applied to the current view.
    fn activate_key(&mut self, key: usize)
        requires
            old(self).wf(),
            key < old(self).key_states@.len(),
        ensures
            final(self).key_states@ == spec_activate_states(old(self).key_states@, key as int),
            final(self).current_view@ == spec_activate_view(
                old(self).key_states@,
                old(self).spec_view_names(),
                old(self).current_view@,
                key as int,
            ),
            final(self).kind == old(self).kind,
            final(self).views == old(self).views,
            final(self).keymap_str == old(self).keymap_str,
            final(self).wf(),
    {
        let ghost orig = *old(self);
        let is_lock = matches!(self.key_states[key].action, Action::LockLevel { .. });
        if is_lock {
            let was = self.key_states[key].locked;
            self.key_states[key].locked = !was;
        }
        proof {
            assert(self.key_states@ =~= spec_activate_states(orig.key_states@, key as int));
        }
        let locked_now = self.key_states[key].locked;
        let target = self.key_states[key].action.level_target(locked_now);
        proof {
            assert(self.key_states@[key as int] == spec_activated(orig.key_states@[key as int]));
        }
        self.set_state_from_press(target);
        proof {
            let names = orig.spec_view_names();
            let activated = spec_activated(orig.key_states@[key as int]);
            assert(self.spec_view_names() == names);
            assert(self.current_view@ == spec_view_after(activated, names, orig.current_view@))
                by {
                match activated.action.spec_level_target(activated.locked) {
                    Some(t) => {
                        assert(target matches Some(s) && s@ == t);
                    },
                    None => {
                        assert(target is None);
                    },
                }
            }
            assert forall|k: int|
                0 <= k < self.key_states@.len() implies spec_key_state_wf(
                #[trigger] self.key_states@[k],
                self.spec_view_names(),
            ) by {
                if k == key {
                    assert(self.key_states@[k].action == orig.key_states@[k].action);
                    assert(self.key_states@[k].keycodes == orig.key_states@[k].keycodes);
                    assert(spec_key_state_wf(orig.key_states@[k], names));
                } else {
                    assert(self.key_states@[k] == orig.key_states@[k]);
                }
            }
            assert(self.spec_has_view(self.current_view@)) by {
                match activated.action.spec_level_target(activated.locked) {
                    Some(t) => {},
                    None => {},
                }
            }
        }
    }

    /// The level cascade run after releasing `key`: every locked key is
    /// activated first, in ascending arena order, and the originating key
    /// last, unless it was itself among the locked ones.  The cascade
    /// collects locked keys from the whole arena, not only those shown on
    /// the current view; a latched level key appears on every view it
    /// switches between, so for such layouts the two sets coincide.
    fn set_level_from_press(&mut self, key: usize)
        requires
            old(self).wf(),
            key < old(self).key_states@.len(),
        ensures
            ({
                let locked = spec_locked_list(
                    old(self).key_states@,
                    old(self).key_states@.len() as int,
                );
                let ks = if locked.contains(key as int) {
                    locked
                } else {
                    locked.push(key as int)
                };
                &&& final(self).key_states@ == spec_cascade_states(old(self).key_states@, ks)
                &&& final(self).current_view@ == spec_cascade_view(
                    old(self).key_states@,
                    old(self).spec_view_names(),
                    old(self).current_view@,
                    ks,
                )
            }),
            final(self).kind == old(self).kind,
            final(self).views == old(self).views,
            final(self).keymap_str == old(self).keymap_str,
            final(self).wf(),
    {
        let ghost orig = *old(self);
        let ghost names = orig.spec_view_names();
        let ghost locked = spec_locked_list(orig.key_states@, orig.key_states@.len() as int);
        let keys = self.get_locked_keys();
        proof {
            lemma_locked_list_props(orig.key_states@, orig.key_states@.len() as int);
        }
        let mut found = false;
        let mut i: usize = 0;
        while i < keys.len()
            invariant
                i <= keys@.len(),
                names == orig.spec_view_names(),
                locked == spec_locked_list(orig.key_states@, orig.key_states@.len() as int),
                keys@.map_values(|v: usize| v as int) == locked,
                forall|m: int| 0 <= m < locked.len() ==> 0 <= #[trigger] locked[m] < orig.key_states@.len(),
                self.key_states@ == spec_cascade_states(orig.key_states@, locked.take(i as int)),
                self.current_view@ == spec_cascade_view(
                    orig.key_states@,
                    names,
                    orig.current_view@,
                    locked.take(i as int),
                ),
                self.kind == orig.kind,
                self.views == orig.views,
                self.keymap_str == orig.keymap_str,
                self.wf(),
                found == locked.take(i as int).contains(key as int),
            decreases keys@.len() - i,
        {
            let k = keys[i];
            proof {
                assert(locked[i as int] == k as int);
                lemma_cascade_preserves_shape(orig.key_states@, locked.take(i as int));
                assert(locked.take(i + 1) =~= locked.take(i as int).push(k as int));
                lemma_cascade_push(
                    orig.key_states@,
                    names,
                    orig.current_view@,
                    locked.take(i as int),
                    k as int,
                );
            }
            if k == key {
                found = true;
            }
            let ghost pre_states = self.key_states@;
            let ghost pre_view = self.current_view@;
            proof {
                lemma_names_congruence(self.views@, orig.views@);
                assert(names == self.spec_view_names());
            }
            self.activate_key(k);
            proof {
                assert(pre_states == spec_cascade_states(orig.key_states@, locked.take(i as int)));
                assert(self.key_states@ == spec_activate_states(pre_states, k as int));
                assert(self.key_states@ == spec_cascade_states(orig.key_states@, locked.take(i + 1)));
                assert(self.current_view@ == spec_activate_view(pre_states, names, pre_view, k as int));
                assert(spec_cascade_view(orig.key_states@, names, orig.current_view@, locked.take(i as int).push(k as int))
                    == spec_activate_view(pre_states, names, pre_view, k as int));
                assert(self.current_view@ == spec_cascade_view(orig.key_states@, names, orig.current_view@, locked.take(i + 1)));
                if locked.take(i + 1).contains(key as int) {
                    let m = choose|m: int|
                        0 <= m < locked.take(i + 1).len() && (#[trigger] locked.take(i + 1)[m])
                            == key as int;
                    if m < i {
                        assert(locked.take(i as int)[m] == key as int);
                        assert(locked.take(i as int).contains(key as int));
                    }
                } else {
                }
                if found {
                    if locked.take(i as int).contains(key as int) {
                        let m = choose|m: int|
                            0 <= m < locked.take(i as int).len() && (#[trigger] locked.take(
                                i as int,
                            )[m]) == key as int;
                        assert(locked.take(i + 1)[m] == key as int);
                        assert(locked.take(i + 1).contains(key as int));
                    } else {
                        assert(locked.take(i + 1)[i as int] == key as int);
                        assert(locked.take(i + 1).contains(key as int));
                    }
                }
            }
            i += 1;
        }
        proof {
            assert(locked.take(keys@.len() as int) =~= locked);
        }
        if !found {
            proof {
                lemma_cascade_preserves_shape(orig.key_states@, locked);
                lemma_cascade_push(orig.key_states@, names, orig.current_view@, locked, key as int);
            }
            self.activate_key(key);
        }
    }

    /// Presses a key: the key is marked pressed and the wire events of its
    /// submission are returned.
    pub fn press_key(&mut self, virtual_keyboard: &VirtualKeyboard, key: usize, time: Timestamp)
        -> (r: Vec<KeyEvent>)
        requires
            old(self).wf(),
            key < old(self).key_states@.len(),
        ensures
            final(self).key_states@ == old(self).key_states@.update(
                key as int,
                spec_with_pressed(old(self).key_states@[key as int], PressType::Pressed),
            ),
            r@ == spec_switch_events(
                old(self).key_states@[key as int].keycodes@,
                PressType::Pressed,
                time.0,
            ),
            final(self).current_view == old(self).current_view,
            final(self).kind == old(self).kind,
            final(self).views == old(self).views,
            final(self).keymap_str == old(self).keymap_str,
            final(self).wf(),
    {
        let ghost orig = *old(self);
        proof {
            assert(spec_key_state_wf(self.key_states@[key as int], self.spec_view_names()));
        }
        let events = virtual_keyboard.switch(
            &self.key_states[key].keycodes,
            PressType::Pressed,
            time,
        );
        self.key_states[key].pressed = PressType::Pressed;
        proof {
            assert(self.key_states@ =~= orig.key_states@.update(
                key as int,
                spec_with_pressed(orig.key_states@[key as int], PressType::Pressed),
            ));
            assert forall|k: int|
                0 <= k < self.key_states@.len() implies spec_key_state_wf(
                #[trigger] self.key_states@[k],
                self.spec_view_names(),
            ) by {
                assert(spec_key_state_wf(orig.key_states@[k], orig.spec_view_names()));
                if k == key {
                    assert(self.key_states@[k].action == orig.key_states@[k].action);
                    assert(self.key_states@[k].keycodes == orig.key_states@[k].keycodes);
                }
            }
        }
        events
    }

    /// Releases a key: the key is marked released, the wire events of its
    /// submission are returned, and the level cascade runs.
    pub fn release_key(&mut self, virtual_keyboard: &VirtualKeyboard, key: usize, time: Timestamp)
        -> (r: Vec<KeyEvent>)
        requires
            old(self).wf(),
            key < old(self).key_states@.len(),
        ensures
            ({
                let mid = old(self).key_states@.update(
                    key as int,
                    spec_with_pressed(old(self).key_states@[key as int], PressType::Released),
                );
                let locked = spec_locked_list(mid, mid.len() as int);
                let ks = if locked.contains(key as int) {
                    locked
                } else {
                    locked.push(key as int)
                };
                &&& final(self).key_states@ == spec_cascade_states(mid, ks)
                &&& final(self).current_view@ == spec_cascade_view(
                    mid,
                    old(self).spec_view_names(),
                    old(self).current_view@,
                    ks,
                )
            }),
            r@ == spec_switch_events(
                old(self).key_states@[key as int].keycodes@,
                PressType::Released,
                time.0,
            ),
            final(self).kind == old(self).kind,
            final(self).views == old(self).views,
            final(self).keymap_str == old(self).keymap_str,
            final(self).wf(),
    {
        let ghost orig = *old(self);
        proof {
            assert(spec_key_state_wf(self.key_states@[key as int], self.spec_view_names()));
        }
        let events = virtual_keyboard.switch(
            &self.key_states[key].keycodes,
            PressType::Released,
            time,
        );
        self.key_states[key].pressed = PressType::Released;
        proof {
            assert(self.key_states@ =~= orig.key_states@.update(
                key as int,
                spec_with_pressed(orig.key_states@[key as int], PressType::Released),
            ));
            assert forall|k: int|
                0 <= k < self.key_states@.len() implies spec_key_state_wf(
                #[trigger] self.key_states@[k],
                self.spec_view_names(),
            ) by {
                assert(spec_key_state_wf(orig.key_states@[k], orig.spec_view_names()));
                if k == key {
                    assert(self.key_states@[k].action == orig.key_states@[k].action);
                    assert(self.key_states@[k].keycodes == orig.key_states@[k].keycodes);
                }
            }
        }
        self.set_level_from_press(key);
        events
    }
}


/// How a placed view relates to the view the builder made: same bounds and
/// structure, with every row and button at its computed position.
pub open spec fn spec_placed_from(v1: View, v0: View) -> bool {
    let g = spec_outline_grid(v0);
    &&& v1.bounds == v0.bounds
    &&& v1.rows@.len() == v0.rows@.len()
    &&& forall|ri: int|
        0 <= ri < v1.rows@.len() ==> {
            &&& (#[trigger] v1.rows@[ri]).angle == v0.rows@[ri].angle
            &&& v1.rows@[ri].bounds == Some(spec_row_position(v0.bounds, spec_row_sizes(g), ri))
            &&& v1.rows@[ri].buttons@.len() == v0.rows@[ri].buttons@.len()
            &&& forall|bi: int|
                0 <= bi < v1.rows@[ri].buttons@.len() ==> #[trigger] v1.rows@[ri].buttons@[bi]
                    == (Button {
                    bounds: spec_button_position(g[ri], bi),
                    ..v0.rows@[ri].buttons@[bi]
                })
        }
}

impl Layout {
    /// Creates the runtime layout from compiled data: the current view is
    /// the default one, and the data is taken over unchanged -- the views
    /// are moved, not rebuilt.  Placement is a separate step: the owner
    /// calls `place_contents` before hit-testing.
    pub fn new(data: LayoutData, kind: ArrangementKind) -> (r: Layout)
        requires
            data.wf(),
        ensures
            r.wf(),
            r.kind == kind,
            r.keymap_str == data.keymap_str,
            r.key_states == data.key_states,
            r.current_view@ == DEFAULT_VIEW_NAME@,
            r.views == data.views,
            r.spec_views_geometry_wf(),
    {
        let ghost d = data;
        let layout = Layout {
            kind,
            current_view: DEFAULT_VIEW_NAME.to_owned(),
            views: data.views,
            keymap_str: data.keymap_str,
            key_states: data.key_states,
        };
        proof {
            lemma_names_congruence(layout.views@, d.views@);
            assert(layout.spec_has_view(layout.current_view@));
        }
        layout
    }

    /// Places every button and row of every view, in order, from the
    /// buttons' outline rectangles, as the sizes the builder recorded
    /// dictate.  Everything else is untouched.
    pub fn place_contents(&mut self)
        requires
            old(self).wf(),
            old(self).spec_views_geometry_wf(),
        ensures
            final(self).wf(),
            final(self).spec_all_placed(),
            final(self).kind == old(self).kind,
            final(self).current_view == old(self).current_view,
            final(self).keymap_str == old(self).keymap_str,
            final(self).key_states == old(self).key_states,
            final(self).views@.len() == old(self).views@.len(),
            forall|i: int|
                0 <= i < final(self).views@.len() ==> (#[trigger] final(self).views@[i]).0 == old(
                    self,
                ).views@[i].0 && spec_placed_from(final(self).views@[i].1, old(self).views@[i].1),
    {
        let ghost orig = *old(self);
        let mut i: usize = 0;
        while i < self.views.len()
            invariant
                orig.wf(),
                orig.spec_views_geometry_wf(),
                self.kind == orig.kind,
                self.current_view == orig.current_view,
                self.keymap_str == orig.keymap_str,
                self.key_states == orig.key_states,
                self.views@.len() == orig.views@.len(),
                i <= self.views@.len(),
                forall|k: int| i <= k < self.views@.len() ==> self.views@[k] == orig.views@[k],
                forall|k: int|
                    0 <= k < i ==> (#[trigger] self.views@[k]).0 == orig.views@[k].0
                        && spec_placed_from(self.views@[k].1, orig.views@[k].1),
            decreases self.views@.len() - i,
        {
            proof {
                assert(self.views@[i as int] == orig.views@[i as int]);
                assert(orig.views@[i as int].1.wf_geometry());
            }
            self.views[i].1.place_contents();
            proof {
                assert(spec_placed_from(self.views@[i as int].1, orig.views@[i as int].1));
            }
            i += 1;
        }
        proof {
            assert(spec_names_of(self.views@) =~= spec_names_of(orig.views@));
            assert(self.spec_view_names() == spec_names_of(orig.views@));
            assert(self.spec_has_view(self.current_view@));
            assert forall|k: int|
                0 <= k < self.views@.len() implies (#[trigger] self.views@[k]).1.wf(
                self.key_states@.len(),
            ) && self.views@[k].1.spec_placed() by {
                let v1 = self.views@[k].1;
                let v0 = orig.views@[k].1;
                assert(v0.wf(orig.key_states@.len()));
                assert(spec_placed_from(v1, v0));
                assert forall|ri: int|
                    0 <= ri < v1.rows@.len() implies (#[trigger] v1.rows@[ri]).wf(
                    self.key_states@.len(),
                ) && v1.rows@[ri].bounds is Some by {
                    assert(v0.rows@[ri].wf(orig.key_states@.len()));
                    assert forall|bi: int|
                        0 <= bi < v1.rows@[ri].buttons@.len() implies (
                        #[trigger] v1.rows@[ri].buttons@[bi]).wf(self.key_states@.len()) by {
                        assert(v0.rows@[ri].buttons@[bi].wf(orig.key_states@.len()));
                    }
                }
            }
        }
    }
}


// --- Full releases and pointer-driven transitions ---
/// Everything one full key release produces: the arena and view after the
/// release and its cascade, and the wire events emitted.
pub open spec fn spec_release_full(
    states: Seq<KeyState>,
    names: Seq<Seq<char>>,
    cur: Seq<char>,
    k: int,
    time: u32,
) -> (Seq<KeyState>, Seq<char>, Seq<KeyEvent>) {
    let mid = states.update(k, spec_with_pressed(states[k], PressType::Released));
    let locked = spec_locked_list(mid, mid.len() as int);
    let ks = if locked.contains(k) {
        locked
    } else {
        locked.push(k)
    };
    (
        spec_cascade_states(mid, ks),
        spec_cascade_view(mid, names, cur, ks),
        spec_switch_events(states[k].keycodes@, PressType::Released, time),
    )
}

/// Fully releasing each key of `ks` in order, concatenating the events.
pub open spec fn spec_release_fold(
    states: Seq<KeyState>,
    names: Seq<Seq<char>>,
    cur: Seq<char>,
    ks: Seq<int>,
    time: u32,
) -> (Seq<KeyState>, Seq<char>, Seq<KeyEvent>)
    decreases ks.len(),
{
    if ks.len() == 0 {
        (states, cur, Seq::empty())
    } else {
        let step = spec_release_full(states, names, cur, ks[0], time);
        let rest = spec_release_fold(step.0, names, step.1, ks.drop_first(), time);
        (rest.0, rest.1, step.2 + rest.2)
    }
}

/// Releasing one more key continues the fold from where it stood.
pub proof fn lemma_release_fold_push(
    states: Seq<KeyState>,
    names: Seq<Seq<char>>,
    cur: Seq<char>,
    ks: Seq<int>,
    k: int,
    time: u32,
)
    ensures
        ({
            let f = spec_release_fold(states, names, cur, ks, time);
            let step = spec_release_full(f.0, names, f.1, k, time);
            spec_release_fold(states, names, cur, ks.push(k), time) == (
                step.0,
                step.1,
                f.2 + step.2,
            )
        }),
    decreases ks.len(),
{
    if ks.len() == 0 {
        let step = spec_release_full(states, names, cur, k, time);
        assert(ks.push(k)[0] == k);
        assert(ks.push(k).drop_first() =~= Seq::<int>::empty());
        assert(spec_release_fold(step.0, names, step.1, Seq::<int>::empty(), time) == (
            step.0,
            step.1,
            Seq::<KeyEvent>::empty(),
        ));
        assert(step.2 + Seq::<KeyEvent>::empty() =~= step.2);
        assert(Seq::<KeyEvent>::empty() + step.2 =~= step.2);
    } else {
        assert(ks.push(k)[0] == ks[0]);
        assert(ks.push(k).drop_first() =~= ks.drop_first().push(k));
        let step0 = spec_release_full(states, names, cur, ks[0], time);
        lemma_release_fold_push(step0.0, names, step0.1, ks.drop_first(), k, time);
        let f1 = spec_release_fold(step0.0, names, step0.1, ks.drop_first(), time);
        let stepk = spec_release_full(f1.0, names, f1.1, k, time);
        assert(step0.2 + (f1.2 + stepk.2) =~= (step0.2 + f1.2) + stepk.2);
    }
}

/// A full release only clears the released key's press flag and flips
/// latches: length, keycodes and actions are untouched, and no other
/// key's press flag changes.
pub proof fn lemma_release_full_shape(
    states: Seq<KeyState>,
    names: Seq<Seq<char>>,
    cur: Seq<char>,
    k: int,
    time: u32,
)
    requires
        0 <= k < states.len(),
    ensures
        ({
            let f = spec_release_full(states, names, cur, k, time);
            &&& f.0.len() == states.len()
            &&& forall|i: int|
                0 <= i < states.len() ==> {
                    let r = #[trigger] f.0[i];
                    &&& r.keycodes == states[i].keycodes
                    &&& r.action == states[i].action
                    &&& r.pressed == (if i == k {
                        PressType::Released
                    } else {
                        states[i].pressed
                    })
                }
        }),
{
    let mid = states.update(k, spec_with_pressed(states[k], PressType::Released));
    let locked = spec_locked_list(mid, mid.len() as int);
    let ks = if locked.contains(k) {
        locked
    } else {
        locked.push(k)
    };
    lemma_locked_list_props(mid, mid.len() as int);
    assert(forall|m: int| 0 <= m < ks.len() ==> 0 <= #[trigger] ks[m] < mid.len());
    lemma_cascade_preserves_shape(mid, ks);
}

/// Fully releasing a list of keys clears exactly their press flags.
pub proof fn lemma_release_fold_shape(
    states: Seq<KeyState>,
    names: Seq<Seq<char>>,
    cur: Seq<char>,
    ks: Seq<int>,
    time: u32,
)
    requires
        forall|m: int| 0 <= m < ks.len() ==> 0 <= #[trigger] ks[m] < states.len(),
    ensures
        ({
            let f = spec_release_fold(states, names, cur, ks, time);
            &&& f.0.len() == states.len()
            &&& forall|i: int|
                0 <= i < states.len() ==> {
                    let r = #[trigger] f.0[i];
                    &&& r.keycodes == states[i].keycodes
                    &&& r.action == states[i].action
                    &&& r.pressed == (if ks.contains(i) {
                        PressType::Released
                    } else {
                        states[i].pressed
                    })
                }
        }),
    decreases ks.len(),
{
    if ks.len() > 0 {
        let step = spec_release_full(states, names, cur, ks[0], time);
        lemma_release_full_shape(states, names, cur, ks[0], time);
        assert(forall|m: int|
            0 <= m < ks.drop_first().len() ==> 0 <= #[trigger] ks.drop_first()[m] < step.0.len());
        lemma_release_fold_shape(step.0, names, step.1, ks.drop_first(), time);
        let f = spec_release_fold(states, names, cur, ks, time);
        assert forall|i: int| 0 <= i < states.len() implies {
            let r = #[trigger] f.0[i];
            &&& r.keycodes == states[i].keycodes
            &&& r.action == states[i].action
            &&& r.pressed == (if ks.contains(i) {
                PressType::Released
            } else {
                states[i].pressed
            })
        } by {
            if ks.contains(i) {
                let m = choose|m: int| 0 <= m < ks.len() && ks[m] == i;
                if m == 0 {
                } else {
                    assert(ks.drop_first()[m - 1] == i);
                    assert(ks.drop_first().contains(i));
                }
            } else {
                assert(!ks.drop_first().contains(i)) by {
                    if ks.drop_first().contains(i) {
                        let m = choose|m: int|
                            0 <= m < ks.drop_first().len() && ks.drop_first()[m] == i;
                        assert(ks[m + 1] == i);
                    }
                }
                assert(ks[0] != i);
            }
        }
    }
}

/// `ks` with every occurrence of `k` removed, order kept.
pub open spec fn spec_without(ks: Seq<int>, k: int) -> Seq<int>
    decreases ks.len(),
{
    if ks.len() == 0 {
        Seq::empty()
    } else {
        let rest = spec_without(ks.drop_last(), k);
        if ks.last() == k {
            rest
        } else {
            rest.push(ks.last())
        }
    }
}

/// Removing a key keeps the rest: elements and validity carry over.
pub proof fn lemma_without_props(ks: Seq<int>, k: int, bound: int)
    requires
        forall|m: int| 0 <= m < ks.len() ==> 0 <= #[trigger] ks[m] < bound,
    ensures
        forall|m: int|
            0 <= m < spec_without(ks, k).len() ==> 0 <= #[trigger] spec_without(ks, k)[m] < bound
                && spec_without(ks, k)[m] != k,
        forall|i: int| spec_without(ks, k).contains(i) <==> ks.contains(i) && i != k,
    decreases ks.len(),
{
    if ks.len() > 0 {
        assert(forall|m: int|
            0 <= m < ks.drop_last().len() ==> 0 <= #[trigger] ks.drop_last()[m] < bound);
        lemma_without_props(ks.drop_last(), k, bound);
        let rest = spec_without(ks.drop_last(), k);
        assert forall|i: int| spec_without(ks, k).contains(i) implies ks.contains(i) && i
            != k by {
            let m = choose|m: int|
                0 <= m < spec_without(ks, k).len() && spec_without(ks, k)[m] == i;
            if ks.last() != k && m == spec_without(ks, k).len() - 1 {
                assert(ks[ks.len() - 1] == spec_without(ks, k)[m]);
            } else {
                assert(rest[m] == i);
                assert(rest.contains(i));
                assert(ks.drop_last().contains(i));
                let m2 = choose|m2: int|
                    0 <= m2 < ks.drop_last().len() && ks.drop_last()[m2] == i;
                assert(ks[m2] == i);
            }
        }
        assert forall|i: int| ks.contains(i) && i != k implies spec_without(ks, k).contains(
            i,
        ) by {
            let m = choose|m: int| 0 <= m < ks.len() && ks[m] == i;
            if m == ks.len() - 1 {
                assert(ks.last() == i);
                assert(spec_without(ks, k)[spec_without(ks, k).len() - 1] == i);
            } else {
                assert(ks.drop_last()[m] == i);
                assert(ks.drop_last().contains(i));
                assert(rest.contains(i));
                let m2 = choose|m2: int| 0 <= m2 < rest.len() && rest[m2] == i;
                if ks.last() == k {
                } else {
                    assert(rest.push(ks.last())[m2] == i);
                }
            }
        }
    }
}


impl Layout {
    /// Where the current view sits in the view list, as specification.
    pub open spec fn spec_current_view_index(self) -> int {
        choose|i: int|
            0 <= i < self.views@.len() && self.spec_view_names()[i] == self.current_view@
    }

    /// The currently selected view, as specification.
    pub open spec fn spec_current_view(self) -> View {
        self.views@[self.spec_current_view_index()].1
    }

    /// The current view's index is the one position carrying the current
    /// view's name.
    pub proof fn lemma_current_view_index(self)
        requires
            self.wf(),
        ensures
            0 <= self.spec_current_view_index() < self.views@.len(),
            self.spec_view_names()[self.spec_current_view_index()] == self.current_view@,
            forall|j: int|
                0 <= j < self.views@.len() && (#[trigger] self.spec_view_names()[j])
                    == self.current_view@ ==> j == self.spec_current_view_index(),
    {
        let names = self.spec_view_names();
        assert(names.contains(self.current_view@));
        let w = choose|i: int| 0 <= i < names.len() && names[i] == self.current_view@;
        assert(0 <= self.spec_current_view_index() < self.views@.len() && names[
            self.spec_current_view_index()] == self.current_view@) by {
            assert(0 <= w < self.views@.len() && names[w] == self.current_view@);
        }
    }

    /// Releases every pressed key, in ascending arena order, with full
    /// cascade semantics, returning the emitted wire events.
    pub fn release_all(&mut self, virtual_keyboard: &VirtualKeyboard, time: Timestamp) -> (r:
        Vec<KeyEvent>)
        requires
            old(self).wf(),
        ensures
            ({
                let pl = spec_pressed_list(
                    old(self).key_states@,
                    old(self).key_states@.len() as int,
                );
                let f = spec_release_fold(
                    old(self).key_states@,
                    old(self).spec_view_names(),
                    old(self).current_view@,
                    pl,
                    time.0,
                );
                &&& final(self).key_states@ == f.0
                &&& final(self).current_view@ == f.1
                &&& r@ == f.2
            }),
            final(self).kind == old(self).kind,
            final(self).views == old(self).views,
            final(self).keymap_str == old(self).keymap_str,
            final(self).wf(),
    {
        let ghost orig = *old(self);
        let ghost names = orig.spec_view_names();
        let ghost pl = spec_pressed_list(orig.key_states@, orig.key_states@.len() as int);
        let keys = self.get_pressed_keys();
        proof {
            lemma_pressed_list_props(orig.key_states@, orig.key_states@.len() as int);
        }
        let mut events: Vec<KeyEvent> = Vec::new();
        let mut i: usize = 0;
        while i < keys.len()
            invariant
                i <= keys@.len(),
                names == orig.spec_view_names(),
                pl == spec_pressed_list(orig.key_states@, orig.key_states@.len() as int),
                keys@.map_values(|v: usize| v as int) == pl,
                forall|m: int| 0 <= m < pl.len() ==> 0 <= #[trigger] pl[m] < orig.key_states@.len(),
                ({
                    let f = spec_release_fold(
                        orig.key_states@,
                        names,
                        orig.current_view@,
                        pl.take(i as int),
                        time.0,
                    );
                    &&& self.key_states@ == f.0
                    &&& self.current_view@ == f.1
                    &&& events@ == f.2
                }),
                self.kind == orig.kind,
                self.views == orig.views,
                self.keymap_str == orig.keymap_str,
                self.wf(),
            decreases keys@.len() - i,
        {
            let k = keys[i];
            proof {
                assert(pl[i as int] == k as int);
                assert(forall|m: int|
                    0 <= m < pl.take(i as int).len() ==> 0 <= #[trigger] pl.take(i as int)[m]
                        < orig.key_states@.len());
                lemma_release_fold_shape(
                    orig.key_states@,
                    names,
                    orig.current_view@,
                    pl.take(i as int),
                    time.0,
                );
                lemma_release_fold_push(
                    orig.key_states@,
                    names,
                    orig.current_view@,
                    pl.take(i as int),
                    k as int,
                    time.0,
                );
                assert(pl.take(i + 1) =~= pl.take(i as int).push(k as int));
                lemma_names_congruence(self.views@, orig.views@);
            }
            let mut evs = self.release_key(virtual_keyboard, k, time);
            events.append(&mut evs);
            proof {
                let f = spec_release_fold(
                    orig.key_states@,
                    names,
                    orig.current_view@,
                    pl.take(i + 1),
                    time.0,
                );
                assert(events@ =~= f.2);
            }
            i += 1;
        }
        proof {
            assert(pl.take(keys@.len() as int) =~= pl);
        }
        events
    }
}


/// The outcome of a press at a pointer position: where the hit button
/// sits, which arena key it refers to, and the wire events to submit.
#[derive(Debug)]
pub struct PressOutcome {
    pub row: usize,
    pub button: usize,
    pub key: usize,
    pub events: Vec<KeyEvent>,
}

/// The outcome of a pointer drag: the place and key newly pressed, if any,
/// and the wire events to submit.
#[derive(Debug)]
pub struct DragOutcome {
    pub pressed: Option<(usize, usize, usize)>,
    pub events: Vec<KeyEvent>,
}

impl Layout {
    /// A pointer touch at `point`, in layout coordinates: presses the key
    /// of the button under the point, if any, and reports where it sits.
    pub fn depress(&mut self, virtual_keyboard: &VirtualKeyboard, point: Point, time: Timestamp)
        -> (r: Option<PressOutcome>)
        requires
            old(self).wf(),
            old(self).spec_all_placed(),
            -POINT_LIMIT <= point.x <= POINT_LIMIT,
            -POINT_LIMIT <= point.y <= POINT_LIMIT,
        ensures
            ({
                let v = old(self).spec_current_view();
                let rel = Point {
                    x: (point.x - v.bounds.x) as i64,
                    y: (point.y - v.bounds.y) as i64,
                };
                match r {
                    None => v.spec_find_button(rel, 0) is None && *final(self) == *old(self),
                    Some(o) => {
                        &&& v.spec_find_button(rel, 0) == Some((o.row as int, o.button as int))
                        &&& 0 <= o.row < v.rows@.len()
                        &&& 0 <= o.button < v.rows@[o.row as int].buttons@.len()
                        &&& o.key == v.rows@[o.row as int].buttons@[o.button as int].state
                        &&& final(self).key_states@ == old(self).key_states@.update(
                            o.key as int,
                            spec_with_pressed(
                                old(self).key_states@[o.key as int],
                                PressType::Pressed,
                            ),
                        )
                        &&& o.events@ == spec_switch_events(
                            old(self).key_states@[o.key as int].keycodes@,
                            PressType::Pressed,
                            time.0,
                        )
                        &&& final(self).current_view == old(self).current_view
                    },
                }
            }),
            final(self).kind == old(self).kind,
            final(self).views == old(self).views,
            final(self).keymap_str == old(self).keymap_str,
            final(self).wf(),
    {
        let ghost orig = *old(self);
        let vi = self.current_view_index();
        proof {
            orig.lemma_current_view_index();
            assert(orig.spec_view_names()[vi as int] == orig.current_view@);
            assert(vi as int == orig.spec_current_view_index());
        }
        let hit = {
            let view = &self.views[vi].1;
            proof {
                assert(view.wf(orig.key_states@.len()));
            }
            match view.find_button_by_position(point) {
                Some((ri, bi)) => {
                    let key = view.rows[ri].buttons[bi].state;
                    proof {
                        assert(view.rows@[ri as int].wf(orig.key_states@.len()));
                        assert(view.rows@[ri as int].buttons@[bi as int].wf(
                            orig.key_states@.len(),
                        ));
                    }
                    Some((ri, bi, key))
                },
                None => None,
            }
        };
        match hit {
            Some((ri, bi, key)) => {
                let events = self.press_key(virtual_keyboard, key, time);
                Some(PressOutcome { row: ri, button: bi, key, events })
            },
            None => None,
        }
    }

    /// A pointer movement to `point` while keys may be pressed: every
    /// previously pressed key not under the point is fully released, and
    /// the newly hovered key, if any and not already pressed, is pressed.
    /// A key already pressed and still under the point is left untouched.
    pub fn drag(&mut self, virtual_keyboard: &VirtualKeyboard, point: Point, time: Timestamp)
        -> (r: DragOutcome)
        requires
            old(self).wf(),
            old(self).spec_all_placed(),
            -POINT_LIMIT <= point.x <= POINT_LIMIT,
            -POINT_LIMIT <= point.y <= POINT_LIMIT,
        ensures
            ({
                let v = old(self).spec_current_view();
                let rel = Point {
                    x: (point.x - v.bounds.x) as i64,
                    y: (point.y - v.bounds.y) as i64,
                };
                let names = old(self).spec_view_names();
                let pl = spec_pressed_list(
                    old(self).key_states@,
                    old(self).key_states@.len() as int,
                );
                match v.spec_find_button(rel, 0) {
                    None => {
                        let f = spec_release_fold(
                            old(self).key_states@,
                            names,
                            old(self).current_view@,
                            pl,
                            time.0,
                        );
                        &&& r.pressed is None
                        &&& final(self).key_states@ == f.0
                        &&& final(self).current_view@ == f.1
                        &&& r.events@ == f.2
                    },
                    Some((ri, bi)) => {
                        let k = v.rows@[ri].buttons@[bi].state as int;
                        let f = spec_release_fold(
                            old(self).key_states@,
                            names,
                            old(self).current_view@,
                            spec_without(pl, k),
                            time.0,
                        );
                        if pl.contains(k) {
                            &&& r.pressed is None
                            &&& final(self).key_states@ == f.0
                            &&& final(self).current_view@ == f.1
                            &&& r.events@ == f.2
                        } else {
                            &&& r.pressed == Some(
                                (ri as usize, bi as usize, v.rows@[ri].buttons@[bi].state),
                            )
                            &&& final(self).key_states@ == f.0.update(
                                k,
                                spec_with_pressed(f.0[k], PressType::Pressed),
                            )
                            &&& final(self).current_view@ == f.1
                            &&& r.events@ == f.2 + spec_switch_events(
                                f.0[k].keycodes@,
                                PressType::Pressed,
                                time.0,
                            )
                        }
                    },
                }
            }),
            final(self).kind == old(self).kind,
            final(self).views == old(self).views,
            final(self).keymap_str == old(self).keymap_str,
            final(self).wf(),
    {
        let ghost orig = *old(self);
        let ghost names = orig.spec_view_names();
        let ghost pl = spec_pressed_list(orig.key_states@, orig.key_states@.len() as int);
        let pressed = self.get_pressed_keys();
        proof {
            lemma_pressed_list_props(orig.key_states@, orig.key_states@.len() as int);
        }
        let vi = self.current_view_index();
        proof {
            orig.lemma_current_view_index();
            assert(orig.spec_view_names()[vi as int] == orig.current_view@);
            assert(vi as int == orig.spec_current_view_index());
        }
        let hit = {
            let view = &self.views[vi].1;
            proof {
                assert(view.wf(orig.key_states@.len()));
            }
            match view.find_button_by_position(point) {
                Some((ri, bi)) => {
                    let key = view.rows[ri].buttons[bi].state;
                    proof {
                        assert(view.rows@[ri as int].wf(orig.key_states@.len()));
                        assert(view.rows@[ri as int].buttons@[bi as int].wf(
                            orig.key_states@.len(),
                        ));
                    }
                    Some((ri, bi, key))
                },
                None => None,
            }
        };
        let mut events: Vec<KeyEvent> = Vec::new();
        match hit {
            Some((ri, bi, key)) => {
                let ghost ks = spec_without(pl, key as int);
                proof {
                    lemma_without_props(pl, key as int, orig.key_states@.len() as int);
                }
                let mut found = false;
                let mut i: usize = 0;
                while i < pressed.len()
                    invariant
                        i <= pressed@.len(),
                        names == orig.spec_view_names(),
                        pl == spec_pressed_list(orig.key_states@, orig.key_states@.len() as int),
                        pressed@.map_values(|v: usize| v as int) == pl,
                        forall|m: int|
                            0 <= m < pl.len() ==> 0 <= #[trigger] pl[m]
                                < orig.key_states@.len(),
                        key < orig.key_states@.len(),
                        forall|m: int|
                            0 <= m < spec_without(pl.take(i as int), key as int).len() ==> 0 <= (
                            #[trigger] spec_without(pl.take(i as int), key as int)[m])
                                < orig.key_states@.len(),
                        ({
                            let f = spec_release_fold(
                                orig.key_states@,
                                names,
                                orig.current_view@,
                                spec_without(pl.take(i as int), key as int),
                                time.0,
                            );
                            &&& self.key_states@ == f.0
                            &&& self.current_view@ == f.1
                            &&& events@ == f.2
                        }),
                        found == pl.take(i as int).contains(key as int),
                        self.kind == orig.kind,
                        self.views == orig.views,
                        self.keymap_str == orig.keymap_str,
                        self.wf(),
                    decreases pressed@.len() - i,
                {
                    let k = pressed[i];
                    proof {
                        assert(pl[i as int] == k as int);
                        assert(pl.take(i + 1) =~= pl.take(i as int).push(k as int));
                        assert(pl.take(i + 1).drop_last() =~= pl.take(i as int));
                        lemma_names_congruence(self.views@, orig.views@);
                    }
                    if k == key {
                        found = true;
                        proof {
                            assert(pl.take(i + 1)[i as int] == key as int);
                            assert(pl.take(i + 1).contains(key as int));
                            assert(spec_without(pl.take(i + 1), key as int) == spec_without(
                                pl.take(i as int),
                                key as int,
                            ));
                        }
                    } else {
                        let ghost w = spec_without(pl.take(i as int), key as int);
                        proof {
                            assert(spec_without(pl.take(i + 1), key as int) =~= w.push(k as int));
                            lemma_release_fold_shape(
                                orig.key_states@,
                                names,
                                orig.current_view@,
                                w,
                                time.0,
                            );
                            lemma_release_fold_push(
                                orig.key_states@,
                                names,
                                orig.current_view@,
                                w,
                                k as int,
                                time.0,
                            );
                        }
                        let mut evs = self.release_key(virtual_keyboard, k, time);
                        events.append(&mut evs);
                        proof {
                            let f = spec_release_fold(
                                orig.key_states@,
                                names,
                                orig.current_view@,
                                spec_without(pl.take(i + 1), key as int),
                                time.0,
                            );
                            assert(events@ =~= f.2);
                            if pl.take(i + 1).contains(key as int) {
                                let m = choose|m: int|
                                    0 <= m < pl.take(i + 1).len() && (#[trigger] pl.take(
                                        i + 1,
                                    )[m]) == key as int;
                                if m < i {
                                    assert(pl.take(i as int)[m] == key as int);
                                    assert(pl.take(i as int).contains(key as int));
                                }
                            }
                            if pl.take(i as int).contains(key as int) {
                                let m = choose|m: int|
                                    0 <= m < pl.take(i as int).len() && (#[trigger] pl.take(
                                        i as int,
                                    )[m]) == key as int;
                                assert(pl.take(i + 1)[m] == key as int);
                                assert(pl.take(i + 1).contains(key as int));
                            }
                        }
                    }
                    i += 1;
                }
                proof {
                    assert(pl.take(pressed@.len() as int) =~= pl);
                }
                if !found {
                    proof {
                        lemma_release_fold_shape(
                            orig.key_states@,
                            names,
                            orig.current_view@,
                            ks,
                            time.0,
                        );
                        lemma_names_congruence(self.views@, orig.views@);
                    }
                    let mut evs = self.press_key(virtual_keyboard, key, time);
                    events.append(&mut evs);
                    proof {
                        let f = spec_release_fold(
                            orig.key_states@,
                            names,
                            orig.current_view@,
                            ks,
                            time.0,
                        );
                        assert(events@ =~= f.2 + spec_switch_events(
                            f.0[key as int].keycodes@,
                            PressType::Pressed,
                            time.0,
                        ));
                    }
                    DragOutcome { pressed: Some((ri, bi, key)), events }
                } else {
                    DragOutcome { pressed: None, events }
                }
            },
            None => {
                let mut i: usize = 0;
                while i < pressed.len()
                    invariant
                        i <= pressed@.len(),
                        names == orig.spec_view_names(),
                        pl == spec_pressed_list(orig.key_states@, orig.key_states@.len() as int),
                        pressed@.map_values(|v: usize| v as int) == pl,
                        forall|m: int|
                            0 <= m < pl.len() ==> 0 <= #[trigger] pl[m]
                                < orig.key_states@.len(),
                        ({
                            let f = spec_release_fold(
                                orig.key_states@,
                                names,
                                orig.current_view@,
                                pl.take(i as int),
                                time.0,
                            );
                            &&& self.key_states@ == f.0
                            &&& self.current_view@ == f.1
                            &&& events@ == f.2
                        }),
                        self.kind == orig.kind,
                        self.views == orig.views,
                        self.keymap_str == orig.keymap_str,
                        self.wf(),
                    decreases pressed@.len() - i,
                {
                    let k = pressed[i];
                    proof {
                        assert(pl[i as int] == k as int);
                        assert(forall|m: int|
                            0 <= m < pl.take(i as int).len() ==> 0 <= #[trigger] pl.take(
                                i as int,
                            )[m] < orig.key_states@.len());
                        lemma_release_fold_shape(
                            orig.key_states@,
                            names,
                            orig.current_view@,
                            pl.take(i as int),
                            time.0,
                        );
                        lemma_release_fold_push(
                            orig.key_states@,
                            names,
                            orig.current_view@,
                            pl.take(i as int),
                            k as int,
                            time.0,
                        );
                        assert(pl.take(i + 1) =~= pl.take(i as int).push(k as int));
                        lemma_names_congruence(self.views@, orig.views@);
                    }
                    let mut evs = self.release_key(virtual_keyboard, k, time);
                    events.append(&mut evs);
                    proof {
                        let f = spec_release_fold(
                            orig.key_states@,
                            names,
                            orig.current_view@,
                            pl.take(i + 1),
                            time.0,
                        );
                        assert(events@ =~= f.2);
                    }
                    i += 1;
                }
                proof {
                    assert(pl.take(pressed@.len() as int) =~= pl);
                }
                DragOutcome { pressed: None, events }
            },
        }
    }
}


/// The `(row, button)` positions within one row that refer to key `state`.
pub open spec fn spec_row_key_paths(row: Row, ri: int, state: int, n: int) -> Seq<(int, int)>
    decreases n,
{
    if n <= 0 {
        Seq::empty()
    } else {
        let rest = spec_row_key_paths(row, ri, state, n - 1);
        if row.buttons@[n - 1].state == state {
            rest.push((ri, n - 1))
        } else {
            rest
        }
    }
}

/// All `(row, button)` positions of the view that refer to key `state`,
/// row by row.
pub open spec fn spec_key_paths(v: View, state: int, n: int) -> Seq<(int, int)>
    decreases n,
{
    if n <= 0 {
        Seq::empty()
    } else {
        spec_key_paths(v, state, n - 1) + spec_row_key_paths(
            v.rows@[n - 1],
            n - 1,
            state,
            v.rows@[n - 1].buttons@.len() as int,
        )
    }
}

/// Finds all `(row, button)` positions that refer to the specified key
/// `state`, in scan order.
pub fn find_key_paths(view: &View, state: usize) -> (r: Vec<(usize, usize)>)
    ensures
        r@.map_values(|p: (usize, usize)| (p.0 as int, p.1 as int)) == spec_key_paths(
            *view,
            state as int,
            view.rows@.len() as int,
        ),
{
    let mut out: Vec<(usize, usize)> = Vec::new();
    let mut i: usize = 0;
    while i < view.rows.len()
        invariant
            i <= view.rows@.len(),
            out@.map_values(|p: (usize, usize)| (p.0 as int, p.1 as int)) == spec_key_paths(
                *view,
                state as int,
                i as int,
            ),
        decreases view.rows@.len() - i,
    {
        let row = &view.rows[i];
        let mut j: usize = 0;
        while j < row.buttons.len()
            invariant
                0 <= i < view.rows@.len(),
                row == view.rows@[i as int],
                j <= row.buttons@.len(),
                out@.map_values(|p: (usize, usize)| (p.0 as int, p.1 as int)) == spec_key_paths(
                    *view,
                    state as int,
                    i as int,
                ) + spec_row_key_paths(view.rows@[i as int], i as int, state as int, j as int),
            decreases row.buttons@.len() - j,
        {
            if row.buttons[j].state == state {
                let ghost prev = out@;
                out.push((i, j));
                proof {
                    assert(out@.map_values(|p: (usize, usize)| (p.0 as int, p.1 as int))
                        =~= prev.map_values(|p: (usize, usize)| (p.0 as int, p.1 as int)).push(
                        (i as int, j as int),
                    ));
                    assert(view.rows@[i as int].buttons@[j as int].state == state);
                    assert(spec_row_key_paths(view.rows@[i as int], i as int, state as int, j + 1)
                        == spec_row_key_paths(
                        view.rows@[i as int],
                        i as int,
                        state as int,
                        j as int,
                    ).push((i as int, j as int)));
                    assert(out@.map_values(|p: (usize, usize)| (p.0 as int, p.1 as int))
                        =~= spec_key_paths(*view, state as int, i as int) + spec_row_key_paths(
                        view.rows@[i as int],
                        i as int,
                        state as int,
                        j + 1,
                    ));
                }
            } else {
                proof {
                    assert(spec_row_key_paths(view.rows@[i as int], i as int, state as int, j + 1)
                        == spec_row_key_paths(view.rows@[i as int], i as int, state as int, j as int));
                }
            }
            j += 1;
        }
        i += 1;
    }
    out
}

/// The absolute rectangle of a placed button: the view, row and button
/// offsets added together.  `None` while the row is not yet placed.
/// The magnitude bounds keep the sums within machine integers.
pub fn get_button_bounds(view: &View, ri: usize, bi: usize) -> (r: Option<Bounds>)
    requires
        ri < view.rows@.len(),
        bi < view.rows@[ri as int].buttons@.len(),
        view.bounds.wf(),
        view.rows@[ri as int].bounds matches Some(b) ==> -2 * PLACED_LIMIT <= b.x <= 2
            * PLACED_LIMIT && -2 * PLACED_LIMIT <= b.y <= 2 * PLACED_LIMIT,
        ({
            let bb = view.rows@[ri as int].buttons@[bi as int].bounds;
            -2 * PLACED_LIMIT <= bb.x <= 2 * PLACED_LIMIT && -2 * PLACED_LIMIT <= bb.y <= 2
                * PLACED_LIMIT
        }),
    ensures
        match r {
            Some(b) => view.rows@[ri as int].bounds matches Some(rb) && b == (Bounds {
                x: (view.bounds.x + rb.x
                    + view.rows@[ri as int].buttons@[bi as int].bounds.x) as i64,
                y: (view.bounds.y + rb.y
                    + view.rows@[ri as int].buttons@[bi as int].bounds.y) as i64,
                width: view.rows@[ri as int].buttons@[bi as int].bounds.width,
                height: view.rows@[ri as int].buttons@[bi as int].bounds.height,
            }),
            None => view.rows@[ri as int].bounds is None,
        },
{
    let row = &view.rows[ri];
    match &row.bounds {
        Some(rb) => {
            let bb = row.buttons[bi].bounds;
            Some(
                Bounds {
                    x: view.bounds.x + rb.x + bb.x,
                    y: view.bounds.y + rb.y + bb.y,
                    width: bb.width,
                    height: bb.height,
                },
            )
        },
        None => None,
    }
}

/// No key below `n` is locked, so the locked list is empty.
pub proof fn lemma_locked_list_empty(states: Seq<KeyState>, n: int)
    requires
        forall|i: int| 0 <= i < n ==> !(#[trigger] states[i]).locked,
    ensures
        spec_locked_list(states, n) == Seq::<int>::empty(),
    decreases n,
{
    if n > 0 {
        lemma_locked_list_empty(states, n - 1);
    }
}

/// Exactly the key at `k` is locked below `n`, so the locked list is the
/// one-element list of `k`.
pub proof fn lemma_locked_list_single(states: Seq<KeyState>, n: int, k: int)
    requires
        0 <= k < n,
        forall|i: int| 0 <= i < n ==> ((#[trigger] states[i]).locked <==> i == k),
    ensures
        spec_locked_list(states, n) == seq![k],
    decreases n,
{
    if k == n - 1 {
        lemma_locked_list_empty(states, n - 1);
        assert(spec_locked_list(states, n) =~= seq![k]);
    } else {
        lemma_locked_list_single(states, n - 1, k);
    }
}

/// Releasing a locking key toggles: with no other key locked and the
/// current view its unlock target, a release latches the key and switches
/// to its lock target; a release of the latched key unlatches it and
/// switches back.  And while it is latched, releasing an unrelated
/// submitting key first reverts the view to the unlock target -- the
/// cascade -- before that key's own (viewless) action applies.
pub proof fn lemma_lock_level_toggle(
    states: Seq<KeyState>,
    names: Seq<Seq<char>>,
    k: int,
    j: int,
    lock: String,
    unlock: String,
    t1: u32,
    t2: u32,
    t3: u32,
)
    requires
        0 <= k < states.len(),
        0 <= j < states.len(),
        j != k,
        states[k].action == (Action::LockLevel { lock, unlock }),
        states[j].action is Submit,
        names.contains(lock@),
        names.contains(unlock@),
        forall|i: int| 0 <= i < states.len() ==> !(#[trigger] states[i]).locked,
    ensures
        ({
            // Releasing the locking key latches it and locks to its target.
            let f1 = spec_release_full(states, names, unlock@, k, t1);
            &&& f1.1 == lock@
            &&& f1.0[k].locked
            // Releasing it again unlatches it and returns to the unlock
            // target.
            &&& ({
                let f2 = spec_release_full(f1.0, names, f1.1, k, t2);
                &&& f2.1 == unlock@
                &&& !f2.0[k].locked
            })
            // Releasing an unrelated submitting key instead reverts to the
            // unlock target through the cascade and unlatches the lock.
            &&& ({
                let f3 = spec_release_full(f1.0, names, f1.1, j, t3);
                &&& f3.1 == unlock@
                &&& !f3.0[k].locked
            })
        }),
{
    let mid1 = states.update(k, spec_with_pressed(states[k], PressType::Released));
    assert(forall|i: int| 0 <= i < mid1.len() ==> !(#[trigger] mid1[i]).locked);
    lemma_locked_list_empty(mid1, mid1.len() as int);
    let ks1 = seq![k];
    assert(spec_locked_list(mid1, mid1.len() as int).push(k) =~= ks1);
    assert(!spec_locked_list(mid1, mid1.len() as int).contains(k));
    // One activation step: the latch flips on and the view locks.
    let a1 = spec_activated(mid1[k]);
    assert(a1.locked && a1.action == states[k].action);
    assert(ks1.drop_first() =~= Seq::<int>::empty());
    let f1 = spec_release_full(states, names, unlock@, k, t1);
    assert(f1.0 == spec_cascade_states(spec_activate_states(mid1, k), Seq::<int>::empty()));
    assert(f1.0 == mid1.update(k, a1));
    assert(f1.0[k].locked);
    assert(a1.action.spec_level_target(a1.locked) == Some(lock@));
    assert(f1.1 == spec_cascade_view(mid1, names, unlock@, ks1));
    assert(spec_cascade_view(mid1, names, unlock@, ks1) == spec_cascade_view(
        spec_activate_states(mid1, k),
        names,
        spec_activate_view(mid1, names, unlock@, k),
        Seq::<int>::empty(),
    ));
    assert(spec_activate_view(mid1, names, unlock@, k) == lock@);
    assert(f1.1 == lock@);

    // Second release of the same key: only `k` is latched.
    let mid2 = f1.0.update(k, spec_with_pressed(f1.0[k], PressType::Released));
    assert(forall|i: int| 0 <= i < mid2.len() ==> ((#[trigger] mid2[i]).locked <==> i == k));
    lemma_locked_list_single(mid2, mid2.len() as int, k);
    assert(spec_locked_list(mid2, mid2.len() as int).contains(k)) by {
        assert(spec_locked_list(mid2, mid2.len() as int)[0] == k);
    }
    let f2 = spec_release_full(f1.0, names, f1.1, k, t2);
    let a2 = spec_activated(mid2[k]);
    assert(!a2.locked && a2.action == states[k].action);
    let l2 = spec_locked_list(mid2, mid2.len() as int);
    assert(l2 == seq![k]);
    assert(l2.len() == 1 && l2[0] == k);
    assert(l2.drop_first() =~= Seq::<int>::empty());
    assert(f2.0 == spec_cascade_states(mid2, l2));
    assert(spec_cascade_states(mid2, l2) == spec_cascade_states(
        spec_activate_states(mid2, k),
        Seq::<int>::empty(),
    ));
    assert(f2.0 == mid2.update(k, a2));
    assert(!f2.0[k].locked);
    assert(a2.action.spec_level_target(a2.locked) == Some(unlock@));
    assert(f2.1 == spec_cascade_view(mid2, names, f1.1, l2));
    assert(spec_cascade_view(mid2, names, f1.1, l2) == spec_cascade_view(
        spec_activate_states(mid2, k),
        names,
        spec_activate_view(mid2, names, f1.1, k),
        Seq::<int>::empty(),
    ));
    assert(spec_activate_view(mid2, names, f1.1, k) == unlock@);
    assert(f2.1 == unlock@);

    // Releasing the unrelated key instead: the latched key is activated
    // first, reverting the view; the submitting key changes nothing.
    let mid3 = f1.0.update(j, spec_with_pressed(f1.0[j], PressType::Released));
    assert(forall|i: int| 0 <= i < mid3.len() ==> ((#[trigger] mid3[i]).locked <==> i == k));
    lemma_locked_list_single(mid3, mid3.len() as int, k);
    assert(!spec_locked_list(mid3, mid3.len() as int).contains(j)) by {
        if spec_locked_list(mid3, mid3.len() as int).contains(j) {
            let m = choose|m: int|
                0 <= m < seq![k].len() && (#[trigger] seq![k][m]) == j;
        }
    }
    let ks3 = seq![k].push(j);
    assert(spec_locked_list(mid3, mid3.len() as int).push(j) =~= ks3);
    let f3 = spec_release_full(f1.0, names, f1.1, j, t3);
    let a3 = spec_activated(mid3[k]);
    assert(!a3.locked && a3.action == states[k].action);
    assert(ks3[0] == k);
    assert(ks3.len() == 2 && ks3[1] == j);
    assert(ks3.drop_first() =~= seq![j]);
    let s1 = spec_activate_states(mid3, k);
    assert(s1 == mid3.update(k, a3));
    let v1 = spec_activate_view(mid3, names, f1.1, k);
    assert(v1 == unlock@);
    let a4 = spec_activated(s1[j]);
    assert(s1[j].action is Submit);
    assert(a4 == s1[j]);
    assert(seq![j].len() == 1 && seq![j][0] == j);
    assert(seq![j].drop_first() =~= Seq::<int>::empty());
    assert(f3.0 == spec_cascade_states(mid3, ks3));
    assert(spec_cascade_states(mid3, ks3) == spec_cascade_states(s1, seq![j]));
    assert(spec_cascade_states(s1, seq![j]) == spec_cascade_states(
        spec_activate_states(s1, j),
        Seq::<int>::empty(),
    ));
    assert(f3.0 == s1.update(j, a4));
    assert(f3.1 == spec_cascade_view(mid3, names, f1.1, ks3));
    assert(spec_cascade_view(mid3, names, f1.1, ks3) == spec_cascade_view(s1, names, v1, seq![j]));
    assert(spec_cascade_view(s1, names, v1, seq![j]) == spec_cascade_view(
        spec_activate_states(s1, j),
        names,
        spec_activate_view(s1, names, v1, j),
        Seq::<int>::empty(),
    ));
    assert(!f3.0[k].locked);
    assert(a4.action.spec_level_target(a4.locked) is None);
    assert(f3.1 == spec_activate_view(s1, names, v1, j));
    assert(f3.1 == unlock@);
}

} // verus!
