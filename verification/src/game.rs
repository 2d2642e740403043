//! A game in progress: the playfield, the pieces in play, and what one frame
//! does to them.

use vstd::prelude::*;
use crate::builder::{build_random_tetris, lemma_spawned_on_board, shape_numbered, spawned, LAST_SHAPE};
use crate::field::{
    blank_row, full_rows, is_playfield, lemma_painted_shape, lemma_settled_shape, matrix_of, painted, settled, COLS,
    ROWS,
};
use crate::geometry::{Offset, PieceView};
use crate::models::grid::{paint, Grid};
use crate::models::tetris::{offsets_of, Tetris};
use crate::motion::{
    dropped, lemma_clear_keeps_wf, lemma_landing_exists, translated, translation_succeeds, verdict,
};
use crate::palette::SHADOW;
use crate::rotation::{lemma_rotated_wf, rotated};
use crate::score::{get_score, score_of};

verus! {

/// The time that one frame takes, in milliseconds.
pub const FRAME_MILLIS: i32 = 10;

/// The time after which the piece falls one row by itself, in milliseconds.
pub const DROP_MILLIS: i32 = 300;

/// What the player asks for in one frame.
#[derive(Clone, Copy, Debug, PartialEq, Eq, Structural)]
pub enum Intent {
    /// Nothing.
    Idle,
    /// One column to the left.
    Left,
    /// One column to the right.
    Right,
    /// One row down.
    Down,
    /// All the way down, and settle.
    Drop,
    /// A quarter turn back.
    SpinBack,
    /// A quarter turn on.
    SpinOn,
    /// Put the piece aside, or swap it with the one put aside.
    Save,
    /// End the game.
    Quit,
}

/// The intent that a key stands for.
pub open spec fn intent_for(key: char) -> Intent {
    if key == 'h' {
        Intent::Left
    } else if key == 'l' {
        Intent::Right
    } else if key == 'j' {
        Intent::Down
    } else if key == ' ' {
        Intent::Drop
    } else if key == 'k' {
        Intent::SpinBack
    } else if key == 'z' {
        Intent::SpinOn
    } else if key == 'c' {
        Intent::Save
    } else if key == 'q' {
        Intent::Quit
    } else {
        Intent::Idle
    }
}

/// The intent that a key stands for.
pub fn intent_of_key(key: char) -> (intent: Intent)
    ensures
        intent == intent_for(key),
{
    match key {
        'h' => Intent::Left,
        'l' => Intent::Right,
        'j' => Intent::Down,
        ' ' => Intent::Drop,
        'k' => Intent::SpinBack,
        'z' => Intent::SpinOn,
        'c' => Intent::Save,
        'q' => Intent::Quit,
        _ => Intent::Idle,
    }
}

/// The move that a frame asks of the piece: a row down if the piece is due to
/// fall, one more if the player asks for it, and a column aside if the player
/// asks for that.
pub open spec fn direction_for(intent: Intent, gravity: bool) -> Offset {
    Offset {
        row: (if gravity {
            1int
        } else {
            0int
        }) + (if intent is Down {
            1int
        } else {
            0int
        }),
        col: if intent is Left {
            -1
        } else if intent is Right {
            1
        } else {
            0
        },
    }
}

/// The move that a frame asks of the piece, as rows and columns.
pub fn direction_of(intent: Intent, gravity: bool) -> (direction: (i32, i32))
    ensures
        Offset::at(direction.0 as int, direction.1 as int) == direction_for(intent, gravity),
{
    let mut shift: (i32, i32) = (0, 0);
    if gravity {
        shift.0 = 1;
    }
    match intent {
        Intent::Left => {
            shift.1 = -1;
        },
        Intent::Right => {
            shift.1 = 1;
        },
        Intent::Down => {
            shift.0 = shift.0 + 1;
        },
        _ => {},
    }
    shift
}

/// A piece can be played when it is well formed and stands on the board, both
/// as it lies and in its canonical pose.
pub open spec fn playable(piece: PieceView) -> bool {
    &&& piece.wf()
    &&& piece.on_board(ROWS as int, COLS as int)
    &&& piece.at_rest().on_board(ROWS as int, COLS as int)
}

/// The model of a game.
pub struct GameView {
    /// The cells of the playfield.
    pub field: Seq<Seq<usize>>,
    /// The piece that is falling.
    pub cur: PieceView,
    /// The piece that comes next.
    pub next: PieceView,
    /// The piece that was put aside, if one was.
    pub saved: Option<PieceView>,
    /// The points so far.
    pub score: int,
    /// The milliseconds until the piece falls by itself.
    pub drop_timer: int,
    /// Whether a piece was put aside since the last one settled.
    pub save_used: bool,
}

impl GameView {
    /// The playfield and the pieces are in order.
    pub open spec fn wf(self) -> bool {
        &&& is_playfield(self.field)
        &&& playable(self.cur)
        &&& playable(self.next)
        &&& self.saved matches Some(held) ==> playable(held)
        &&& 0 <= self.drop_timer <= DROP_MILLIS
    }

    /// The score can still take the points of a frame in which every row is
    /// cleared.
    pub open spec fn has_room(self) -> bool {
        self.score + score_of(ROWS as int) <= i32::MAX
    }

    /// Whether the piece is due to fall by itself in the coming frame.
    pub open spec fn falls_now(self) -> bool {
        self.drop_timer - FRAME_MILLIS <= 0
    }

    /// The game after the clock has moved on by one frame.
    pub open spec fn ticked(self) -> GameView {
        GameView {
            drop_timer: if self.falls_now() {
                DROP_MILLIS as int
            } else {
                self.drop_timer - FRAME_MILLIS
            },
            ..self
        }
    }

    /// The game after `piece` has settled: its colour is written into the
    /// field, the full rows are cleared and paid for, the next piece starts to
    /// fall, and a piece may be put aside again.
    pub open spec fn settle(self, piece: PieceView) -> GameView {
        let marked = painted(self.field, piece.positions(), piece.color);
        GameView {
            field: settled(marked),
            score: self.score + score_of(full_rows(marked) as int),
            cur: self.next,
            save_used: false,
            ..self
        }
    }

    /// The game after the falling piece has been put aside in its canonical
    /// pose: the piece that was aside falls in its place, or the next piece if
    /// none was.
    pub open spec fn put_aside(self) -> GameView {
        GameView {
            cur: match self.saved {
                Some(held) => held,
                None => self.next,
            },
            saved: Some(self.cur.at_rest()),
            save_used: true,
            ..self
        }
    }

    /// What the frame comes to: a request to put a piece aside counts for
    /// nothing when one was put aside since the last piece settled.
    pub open spec fn effective(self, intent: Intent) -> Intent {
        if intent is Save && self.save_used {
            Intent::Idle
        } else {
            intent
        }
    }

    /// The game after the player's intent has been carried out.
    pub open spec fn resolved(self, intent: Intent, gravity: bool) -> GameView {
        match self.effective(intent) {
            Intent::Quit => self,
            Intent::Drop => self.settle(dropped(self.field, self.cur)),
            Intent::SpinBack => GameView { cur: rotated(self.field, self.cur, -1), ..self },
            Intent::SpinOn => GameView { cur: rotated(self.field, self.cur, 1), ..self },
            Intent::Save => self.put_aside(),
            moving => {
                let by = direction_for(moving, gravity);
                if translation_succeeds(self.field, self.cur, by) {
                    GameView { cur: translated(self.field, self.cur, by), ..self }
                } else {
                    self.settle(self.cur)
                }
            },
        }
    }

    /// Whether carrying out the intent uses up the next piece, so that a new
    /// one has to be supplied.
    pub open spec fn takes_next(self, intent: Intent, gravity: bool) -> bool {
        match self.effective(intent) {
            Intent::Quit => false,
            Intent::Drop => true,
            Intent::SpinBack => false,
            Intent::SpinOn => false,
            Intent::Save => self.saved is None,
            moving => !translation_succeeds(self.field, self.cur, direction_for(moving, gravity)),
        }
    }

    /// What is shown of the playfield: the settled cells, over them the place
    /// where the falling piece would land, and over that the piece itself.
    pub open spec fn shown(self) -> Seq<Seq<usize>> {
        painted(
            painted(self.field, dropped(self.field, self.cur).positions(), SHADOW),
            self.cur.positions(),
            self.cur.color,
        )
    }
}

/// A game in progress.
pub struct Game {
    /// The playfield.
    pub grid: Grid,
    /// The piece that is falling.
    pub cur_tetris: Tetris,
    /// The piece that comes next.
    pub next_tetris: Tetris,
    /// The piece that was put aside, if one was.
    pub saved_tetris: Option<Tetris>,
    /// The points so far.
    pub score: i32,
    /// The milliseconds until the piece falls by itself.
    pub drop_timer: i32,
    /// Whether a piece was put aside since the last one settled.
    pub save_used: bool,
}

impl View for Game {
    type V = GameView;

    open spec fn view(&self) -> GameView {
        GameView {
            field: self.grid@,
            cur: self.cur_tetris@,
            next: self.next_tetris@,
            saved: match self.saved_tetris {
                Some(held) => Some(held@),
                None => None,
            },
            score: self.score as int,
            drop_timer: self.drop_timer as int,
            save_used: self.save_used,
        }
    }
}

/// A piece that can be played can still be played after a move, a turn, a
/// drop, or a return to its canonical pose.
pub proof fn lemma_stays_playable(field: Seq<Seq<usize>>, piece: PieceView, by: Offset, turn: int)
    requires
        is_playfield(field),
        playable(piece),
        turn == 1 || turn == -1,
    ensures
        playable(translated(field, piece, by)),
        playable(rotated(field, piece, turn)),
        playable(dropped(field, piece)),
        playable(piece.at_rest()),
{
    if by != Offset::zero() && verdict(field, piece, by) is Clear {
        lemma_clear_keeps_wf(field, piece, by);
    }
    assert(translated(field, piece, by).at_rest() == piece.at_rest());
    lemma_rotated_wf(field, piece, turn);
    assert(rotated(field, piece, turn).at_rest() == piece.at_rest());
    lemma_landing_exists(field, piece);
    assert(dropped(field, piece).at_rest() == piece.at_rest());
    let rest = piece.at_rest();
    assert(rest.at_rest() == rest);
    assert forall|i: int| 0 <= i < rest.tiles.len() implies (#[trigger] rest.position(i)).is_coordinate() by {
        assert(rest.position(i).within(ROWS as int, COLS as int));
    }
}

/// A copy of the rows of a playfield.
fn copy_cells(cells: &Vec<Vec<usize>>) -> (copy: Vec<Vec<usize>>)
    ensures
        matrix_of(copy@) == matrix_of(cells@),
{
    let mut copy: Vec<Vec<usize>> = Vec::new();
    let mut r: usize = 0;
    while r < cells.len()
        invariant
            r <= cells.len(),
            copy.len() == r,
            forall|i: int| 0 <= i < r ==> (#[trigger] copy[i])@ == cells[i]@,
        decreases cells.len() - r,
    {
        let mut row: Vec<usize> = Vec::new();
        let mut c: usize = 0;
        while c < cells[r].len()
            invariant
                r < cells.len(),
                c <= cells[r as int].len(),
                row.len() == c,
                forall|k: int| 0 <= k < c ==> row[k] == cells[r as int][k],
            decreases cells[r as int].len() - c,
        {
            row.push(cells[r][c]);
            c = c + 1;
        }
        assert(row@ =~= cells[r as int]@);
        copy.push(row);
        r = r + 1;
    }
    assert(matrix_of(copy@) =~= matrix_of(cells@));
    copy
}

impl Game {
    /// A game that starts on an empty playfield with the two pieces given.
    pub fn with_pieces(cur: Tetris, next: Tetris) -> (game: Game)
        requires
            playable(cur@),
            playable(next@),
        ensures
            game@.wf(),
            game@.has_room(),
            game@.cur == cur@,
            game@.next == next@,
            game@.saved is None,
            game@.score == 0,
            game@.drop_timer == 0,
            !game@.save_used,
            forall|r: int| 0 <= r < ROWS ==> #[trigger] game@.field[r] == blank_row(),
    {
        Game {
            grid: Grid::new(),
            cur_tetris: cur,
            next_tetris: next,
            saved_tetris: None,
            score: 0,
            drop_timer: 0,
            save_used: false,
        }
    }

    /// A game that starts on an empty playfield with two pieces drawn at
    /// random, each freshly spawned at the top left corner.
    pub fn new() -> (game: Game)
        ensures
            game@.wf(),
            game@.has_room(),
            exists|number: int|
                0 <= number <= LAST_SHAPE && game@.cur == spawned(#[trigger] shape_numbered(number), Offset::zero()),
            exists|number: int|
                0 <= number <= LAST_SHAPE && game@.next == spawned(#[trigger] shape_numbered(number), Offset::zero()),
            game@.saved is None,
            game@.score == 0,
            game@.drop_timer == 0,
            !game@.save_used,
            forall|r: int| 0 <= r < ROWS ==> #[trigger] game@.field[r] == blank_row(),
    {
        let cur = build_random_tetris(0, 0);
        let next = build_random_tetris(0, 0);
        proof {
            let first = choose|number: int|
                0 <= number <= LAST_SHAPE && cur@ == spawned(#[trigger] shape_numbered(number), Offset::zero());
            let second = choose|number: int|
                0 <= number <= LAST_SHAPE && next@ == spawned(#[trigger] shape_numbered(number), Offset::zero());
            lemma_spawned_on_board(shape_numbered(first));
            lemma_spawned_on_board(shape_numbered(second));
        }
        Game::with_pieces(cur, next)
    }

    /// Moves the clock on by one frame. Returns whether the piece is due to
    /// fall by itself in this frame, in which case the clock starts again.
    pub fn tick(&mut self) -> (gravity: bool)
        requires
            old(self)@.wf(),
        ensures
            gravity == old(self)@.falls_now(),
            final(self)@ == old(self)@.ticked(),
            final(self)@.wf(),
    {
        self.drop_timer = self.drop_timer - FRAME_MILLIS;
        if self.drop_timer <= 0 {
            self.drop_timer = DROP_MILLIS;
            true
        } else {
            false
        }
    }

    /// Settles the falling piece where it lies and lets the next one fall.
    fn settle_cur(&mut self)
        requires
            old(self)@.wf(),
            old(self)@.has_room(),
        ensures
            final(self)@ == old(self)@.settle(old(self)@.cur),
            final(self)@.wf(),
    {
        proof {
            let marked = painted(self@.field, self@.cur.positions(), self@.cur.color);
            lemma_painted_shape(self@.field, self@.cur.positions(), self@.cur.color);
            lemma_settled_shape(marked);
        }
        let lines_cleared = self.grid.apply_tetris(&self.cur_tetris);
        self.score = self.score + get_score(lines_cleared);
        self.cur_tetris = self.next_tetris.clone();
        self.save_used = false;
    }

    /// Puts the falling piece aside in its canonical pose. Returns whether
    /// the next piece had to take its place.
    fn put_cur_aside(&mut self) -> (spent: bool)
        requires
            old(self)@.wf(),
        ensures
            final(self)@ == old(self)@.put_aside(),
            spent == old(self)@.saved is None,
            final(self)@.wf(),
    {
        proof {
            lemma_stays_playable(self@.field, self@.cur, Offset::zero(), 1);
        }
        self.cur_tetris.reset_tetris();
        let held = self.saved_tetris.take();
        let (mut incoming, spent) = match held {
            Some(tet) => (tet, false),
            None => (self.next_tetris.clone(), true),
        };
        core::mem::swap(&mut self.cur_tetris, &mut incoming);
        self.saved_tetris = Some(incoming);
        self.save_used = true;
        spent
    }

    /// Carries out the player's intent for one frame: a drop settles the
    /// piece where it lands; a turn or a move is tried; a move that finds the
    /// piece landed settles it; a request to put the piece aside is granted
    /// once between two pieces that settle. Returns whether the next piece
    /// was used up, so that a new one has to be supplied.
    pub fn resolve(&mut self, intent: Intent, gravity: bool) -> (spent: bool)
        requires
            old(self)@.wf(),
            old(self)@.has_room(),
        ensures
            final(self)@ == old(self)@.resolved(intent, gravity),
            spent == old(self)@.takes_next(intent, gravity),
            final(self)@.wf(),
    {
        proof {
            lemma_stays_playable(self@.field, self@.cur, direction_for(self@.effective(intent), gravity), 1);
            lemma_stays_playable(self@.field, self@.cur, direction_for(self@.effective(intent), gravity), -1);
        }
        match intent {
            Intent::Quit => false,
            Intent::Drop => {
                self.cur_tetris.drop_tetris(&self.grid.grid_vec);
                self.settle_cur();
                true
            },
            Intent::SpinBack => {
                self.cur_tetris.try_spin_tetris(-1, &self.grid);
                false
            },
            Intent::SpinOn => {
                self.cur_tetris.try_spin_tetris(1, &self.grid);
                false
            },
            Intent::Save if !self.save_used => self.put_cur_aside(),
            _ => {
                let moving = if let Intent::Save = intent {
                    Intent::Idle
                } else {
                    intent
                };
                let shift = direction_of(moving, gravity);
                if self.cur_tetris.try_move_or_set_tetris(&self.grid.grid_vec, &shift) {
                    false
                } else {
                    self.settle_cur();
                    true
                }
            },
        }
    }

    /// Hands the game the piece that comes next.
    pub fn supply(&mut self, fresh: Tetris)
        requires
            old(self)@.wf(),
            playable(fresh@),
        ensures
            final(self)@ == (GameView { next: fresh@, ..old(self)@ }),
            final(self)@.wf(),
    {
        self.next_tetris = fresh;
    }

    /// Plays one frame: moves the clock on, carries out the player's intent,
    /// and draws a new piece at random if the next one was used up. Returns
    /// whether the game goes on.
    pub fn step(&mut self, intent: Intent) -> (running: bool)
        requires
            old(self)@.wf(),
            old(self)@.has_room(),
        ensures
            running == !(intent is Quit),
            final(self)@.wf(),
            !old(self)@.ticked().takes_next(intent, old(self)@.falls_now()) ==> final(self)@ == old(
                self,
            )@.ticked().resolved(intent, old(self)@.falls_now()),
            old(self)@.ticked().takes_next(intent, old(self)@.falls_now()) ==> exists|number: int|
                0 <= number <= LAST_SHAPE && final(self)@ == (GameView {
                    next: spawned(#[trigger] shape_numbered(number), Offset::zero()),
                    ..old(self)@.ticked().resolved(intent, old(self)@.falls_now())
                }),
    {
        let gravity = self.tick();
        if self.resolve(intent, gravity) {
            let fresh = build_random_tetris(0, 0);
            proof {
                let number = choose|number: int|
                    0 <= number <= LAST_SHAPE && fresh@ == spawned(
                        #[trigger] shape_numbered(number),
                        Offset::zero(),
                    );
                lemma_spawned_on_board(shape_numbered(number));
            }
            self.supply(fresh);
        }
        match intent {
            Intent::Quit => false,
            _ => true,
        }
    }

    /// The cell values to show for the playfield: the settled cells, over
    /// them the landing preview, and over that the falling piece.
    pub fn frame(&self) -> (cells: Vec<Vec<usize>>)
        requires
            self@.wf(),
        ensures
            matrix_of(cells@) == self@.shown(),
            is_playfield(matrix_of(cells@)),
    {
        proof {
            lemma_stays_playable(self@.field, self@.cur, Offset::zero(), 1);
        }
        let mut cells = copy_cells(&self.grid.grid_vec);
        let shadow = self.cur_tetris.get_droped_tetris(&self.grid.grid_vec);
        let shadow_poses = shadow.get_poses();
        proof {
            assert forall|i: int| 0 <= i < shadow_poses.len() implies (#[trigger] offsets_of(
                shadow_poses@,
            )[i]).within(ROWS as int, COLS as int) by {
                assert(offsets_of(shadow_poses@).len() == shadow_poses.len());
                assert(shadow@.positions()[i] == shadow@.position(i));
                assert(shadow@.position(i).within(ROWS as int, COLS as int));
            }
        }
        paint(&mut cells, &shadow_poses, SHADOW);
        let poses = self.cur_tetris.get_poses();
        proof {
            assert forall|i: int| 0 <= i < poses.len() implies (#[trigger] offsets_of(poses@)[i]).within(
                ROWS as int,
                COLS as int,
            ) by {
                assert(offsets_of(poses@).len() == poses.len());
                assert(self@.cur.positions()[i] == self@.cur.position(i));
                assert(self@.cur.position(i).within(ROWS as int, COLS as int));
            }
        }
        paint(&mut cells, &poses, self.cur_tetris.get_color());
        cells
    }
}

} // verus!
