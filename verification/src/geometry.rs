//! The mathematics of a piece: signed offsets, quarter turns about a centre,
//! and the model of a piece from which every contract in this crate is stated.

use vstd::prelude::*;

verus! {

/// The largest row or column index that a tile, a centre or an absolute
/// position may have.
pub const COORD_MAX: usize = 0x7fff_ffff;

/// A signed `(row, col)` pair: a position on the plane of the board, or the
/// displacement between two positions. Rows grow downward, columns rightward.
pub struct Offset {
    pub row: int,
    pub col: int,
}

impl Offset {
    pub open spec fn at(row: int, col: int) -> Offset {
        Offset { row, col }
    }

    pub open spec fn zero() -> Offset {
        Offset { row: 0, col: 0 }
    }

    pub open spec fn plus(self, other: Offset) -> Offset {
        Offset { row: self.row + other.row, col: self.col + other.col }
    }

    pub open spec fn minus(self, other: Offset) -> Offset {
        Offset { row: self.row - other.row, col: self.col - other.col }
    }

    /// One quarter turn: `(r, c)` goes to `(-c, r)`.
    pub open spec fn quarter_turn(self) -> Offset {
        Offset { row: -self.col, col: self.row }
    }

    /// `turns` quarter turns, one after the other.
    pub open spec fn turned(self, turns: nat) -> Offset
        decreases turns,
    {
        if turns == 0 {
            self
        } else {
            self.turned((turns - 1) as nat).quarter_turn()
        }
    }

    /// The offset after a quarter turn about `pivot`.
    pub open spec fn turned_about(self, pivot: Offset) -> Offset {
        self.minus(pivot).quarter_turn().plus(pivot)
    }

    /// Both coordinates lie in `0..=COORD_MAX`.
    pub open spec fn is_coordinate(self) -> bool {
        0 <= self.row <= COORD_MAX && 0 <= self.col <= COORD_MAX
    }

    /// The position lies on a board of `rows` by `cols` cells.
    pub open spec fn within(self, rows: int, cols: int) -> bool {
        0 <= self.row < rows && 0 <= self.col < cols
    }
}

/// Where a tile stands on the board: its displacement from the centre, turned
/// `spin` quarter turns, then moved back by the centre and on by the shift.
pub open spec fn placed(tile: Offset, centre: Offset, spin: nat, shift: Offset) -> Offset {
    tile.minus(centre).turned(spin).plus(centre).plus(shift)
}

/// The model of a piece.
pub struct PieceView {
    /// The silhouette in its canonical orientation.
    pub tiles: Seq<Offset>,
    /// The pivot of every rotation.
    pub centre: Offset,
    /// Quarter turns applied, `0..=3`.
    pub spin: int,
    /// Displacement applied after the rotation.
    pub shift: Offset,
    /// The cell value that the piece leaves in the playfield.
    pub color: usize,
}

impl PieceView {
    /// The point of the board about which the piece turns.
    pub open spec fn pivot(self) -> Offset {
        self.centre.plus(self.shift)
    }

    /// The absolute position of tile `i`.
    pub open spec fn position(self, i: int) -> Offset {
        placed(self.tiles[i], self.centre, self.spin as nat, self.shift)
    }

    /// The absolute positions of all tiles, in the order of `tiles`.
    pub open spec fn positions(self) -> Seq<Offset> {
        Seq::new(self.tiles.len(), |i: int| self.position(i))
    }

    /// The same piece moved by `by`.
    pub open spec fn shifted(self, by: Offset) -> PieceView {
        PieceView { shift: self.shift.plus(by), ..self }
    }

    /// The same piece in another orientation.
    pub open spec fn with_spin(self, spin: int) -> PieceView {
        PieceView { spin, ..self }
    }

    /// The same piece one quarter turn further, `3` wrapping to `0`.
    pub open spec fn advanced(self) -> PieceView {
        self.with_spin((self.spin + 1) % 4)
    }

    /// The same piece in its canonical pose: no turn, no shift.
    pub open spec fn at_rest(self) -> PieceView {
        PieceView { spin: 0, shift: Offset::zero(), ..self }
    }

    /// A piece is well formed when it has a tile, its spin is one of the four
    /// orientations, and its tiles, its centre and every absolute position are
    /// coordinates.
    pub open spec fn wf(self) -> bool {
        &&& self.tiles.len() >= 1
        &&& 0 <= self.spin < 4
        &&& self.centre.is_coordinate()
        &&& forall|i: int| 0 <= i < self.tiles.len() ==> (#[trigger] self.tiles[i]).is_coordinate()
        &&& forall|i: int| 0 <= i < self.tiles.len() ==> (#[trigger] self.position(i)).is_coordinate()
    }

    /// Every tile stands on a board of `rows` by `cols` cells.
    pub open spec fn on_board(self, rows: int, cols: int) -> bool {
        forall|i: int| 0 <= i < self.tiles.len() ==> (#[trigger] self.position(i)).within(rows, cols)
    }

    /// Every tile stands in one of the columns `0..cols`.
    pub open spec fn in_columns(self, cols: int) -> bool {
        forall|i: int| 0 <= i < self.tiles.len() ==> 0 <= (#[trigger] self.position(i)).col < cols
    }
}

/// The first four turns, written out.
pub proof fn lemma_turned_small(d: Offset)
    ensures
        d.turned(0) == d,
        d.turned(1) == Offset::at(-d.col, d.row),
        d.turned(2) == Offset::at(-d.row, -d.col),
        d.turned(3) == Offset::at(d.col, -d.row),
        d.turned(4) == d,
{
    reveal_with_fuel(Offset::turned, 5);
}

/// Four further quarter turns change nothing: the quarter turn has order four.
pub proof fn lemma_four_turns(d: Offset, turns: nat)
    ensures
        d.turned(turns + 4) == d.turned(turns),
{
    lemma_turned_small(d.turned(turns));
    lemma_turned_sum(d, turns, 4);
}

/// Turning `a` times and then `b` times is turning `a + b` times.
pub proof fn lemma_turned_sum(d: Offset, a: nat, b: nat)
    ensures
        d.turned(a + b) == d.turned(a).turned(b),
    decreases b,
{
    if b > 0 {
        lemma_turned_sum(d, a, (b - 1) as nat);
        assert((a + b - 1) as nat == a + (b - 1) as nat);
    }
}

/// A turn never makes an offset longer than its longer side.
pub proof fn lemma_turned_bound(d: Offset, turns: nat, bound: int)
    requires
        -bound <= d.row <= bound,
        -bound <= d.col <= bound,
    ensures
        -bound <= d.turned(turns).row <= bound,
        -bound <= d.turned(turns).col <= bound,
    decreases turns,
{
    if turns > 0 {
        lemma_turned_bound(d, (turns - 1) as nat, bound);
    }
}

/// A well-formed piece is never shifted further than two boards' breadth.
pub proof fn lemma_shift_bound(p: PieceView)
    requires
        p.wf(),
    ensures
        -2 * COORD_MAX <= p.shift.row <= 2 * COORD_MAX,
        -2 * COORD_MAX <= p.shift.col <= 2 * COORD_MAX,
{
    let d = p.tiles[0].minus(p.centre);
    lemma_turned_bound(d, p.spin as nat, COORD_MAX as int);
    assert(p.position(0).is_coordinate());
}

/// Advancing the spin by one turns every tile a quarter turn about the
/// pivot, also from the fourth orientation back to the first.
pub proof fn lemma_advance_is_quarter_turn(p: PieceView, i: int)
    requires
        0 <= p.spin < 4,
    ensures
        p.advanced().position(i) == p.position(i).turned_about(p.pivot()),
{
    let d = p.tiles[i].minus(p.centre);
    if p.spin == 3 {
        lemma_turned_small(d);
    }
    assert(d.turned((p.spin + 1) as nat) == d.turned(p.spin as nat).quarter_turn());
}

/// Rotation is a group of order four: each advance of the spin turns every
/// tile a quarter turn about the pivot, and after four advances the piece is
/// the piece it was, with every tile where it stood.
pub proof fn lemma_four_advances(p: PieceView)
    requires
        0 <= p.spin < 4,
    ensures
        forall|i: int| #[trigger] p.advanced().position(i) == p.position(i).turned_about(p.pivot()),
        forall|i: int|
            #[trigger] p.position(i).turned_about(p.pivot()).turned_about(p.pivot()).turned_about(
                p.pivot(),
            ).turned_about(p.pivot()) == p.position(i),
        p.advanced().advanced().advanced().advanced() == p,
        p.advanced().advanced().advanced().advanced().positions() == p.positions(),
{
    assert forall|i: int| #[trigger] p.advanced().position(i) == p.position(i).turned_about(p.pivot()) by {
        lemma_advance_is_quarter_turn(p, i);
    }
}

} // verus!
