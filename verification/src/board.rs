//! The game state: the falling piece, the settled stack, score and flags,
//! and every rule that mutates them.

use vstd::prelude::*;

use crate::block::Block;
use crate::piece::{
    blocks_in_play, line_block, spec_is_blocked, spec_move_down, spec_move_x, spec_rotate, Piece,
};
use crate::{CELL, N_COLS, X_MAX, X_MIN, Y_DEATH, Y_MIN};

verus! {

/// Points awarded for one cleared row.
pub const ROW_BONUS: u64 = 1000;

/// Some settled piece has a block equal to `b`.
pub open spec fn settled_blocked(ps: Seq<Piece>, b: Block) -> bool {
    exists|k: int| 0 <= k < ps.len() && spec_is_blocked((#[trigger] ps[k]).components@, b)
}

/// Some block of `s` equals some settled block.
pub open spec fn settled_collides(ps: Seq<Piece>, s: Seq<Block>) -> bool {
    exists|i: int| 0 <= i < s.len() && settled_blocked(ps, #[trigger] s[i])
}

/// Every column of row `y` is occupied by some settled block.
pub open spec fn row_complete(ps: Seq<Piece>, y: int) -> bool {
    forall|c: int| 0 <= c < N_COLS ==> settled_blocked(ps, #[trigger] line_block(c, y))
}

/// The whole game: one falling piece, the settled stack, the two scores and
/// the session flags.
pub struct App {
    pub score: u64,
    pub highscore: u64,
    pub exit: bool,
    pub on_pause: bool,
    pub dead: bool,
    pub current_piece: Piece,
    pub pieces: Vec<Piece>,
}

impl App {
    /// Well-formed game: the falling piece is a well-formed non-empty piece on
    /// the board, and every settled piece is well-formed and on the board.
    pub open spec fn wf(self) -> bool {
        &&& self.current_piece.wf()
        &&& self.current_piece.in_board()
        &&& self.current_piece.components@.len() > 0
        &&& forall|k: int| 0 <= k < self.pieces@.len() ==> (#[trigger] self.pieces@[k]).wf()
        &&& forall|k: int| 0 <= k < self.pieces@.len() ==> (#[trigger] self.pieces@[k]).in_board()
    }

    /// A fresh game: zero scores, all flags down, no settled pieces, and the
    /// long piece falling.
    pub fn new() -> (r: App)
        ensures
            r.wf(),
            r.score == 0,
            r.highscore == 0,
            r.exit == false,
            r.on_pause == false,
            r.dead == false,
            r.pieces@.len() == 0,
            r.current_piece.components@ =~= seq![
                Block { x: 0, y: 90, width: 10, height: 10 },
                Block { x: 0, y: 80, width: 10, height: 10 },
                Block { x: 0, y: 70, width: 10, height: 10 },
                Block { x: 0, y: 60, width: 10, height: 10 },
            ],
            r.current_piece.min_y == 60,
            r.current_piece.max_y == 90,
            r.current_piece.color == 0,
    {
        App {
            score: 0,
            highscore: 0,
            exit: false,
            on_pause: false,
            dead: false,
            current_piece: Piece::long(),
            pieces: Vec::new(),
        }
    }

    /// True iff the given block coincides with a block of some settled piece.
    pub fn blocked_by_settled(&self, b: &Block) -> (r: bool)
        ensures
            r == settled_blocked(self.pieces@, *b),
    {
        let n = self.pieces.len();
        let mut k: usize = 0;
        while k < n
            invariant
                n == self.pieces@.len(),
                k <= n,
                forall|i: int|
                    0 <= i < k ==> !spec_is_blocked((#[trigger] self.pieces@[i]).components@, *b),
            decreases n - k,
        {
            if self.pieces[k].is_blocked(b) {
                return true;
            }
            k += 1;
        }
        false
    }

    /// True iff some block of `p` coincides with a block of some settled piece.
    pub fn collides_with_settled(&self, p: &Piece) -> (r: bool)
        ensures
            r == settled_collides(self.pieces@, p.components@),
    {
        let n = p.components.len();
        let mut j: usize = 0;
        while j < n
            invariant
                n == p.components@.len(),
                j <= n,
                forall|i: int|
                    0 <= i < j ==> !settled_blocked(self.pieces@, #[trigger] p.components@[i]),
            decreases n - j,
        {
            let b = p.components[j];
            if self.blocked_by_settled(&b) {
                return true;
            }
            j += 1;
        }
        false
    }

    /// Raise the high score to the score when the score has passed it.
    pub fn highscore(&mut self)
        ensures
            final(self).highscore == (if old(self).score > old(self).highscore {
                old(self).score
            } else {
                old(self).highscore
            }),
            final(self).score == old(self).score,
            final(self).exit == old(self).exit,
            final(self).on_pause == old(self).on_pause,
            final(self).dead == old(self).dead,
            final(self).current_piece == old(self).current_piece,
            final(self).pieces == old(self).pieces,
    {
        if self.score > self.highscore {
            self.highscore = self.score;
        }
    }

    /// Ask the session to end after the current tick.
    pub fn exit(&mut self)
        ensures
            final(self).exit == true,
            final(self).score == old(self).score,
            final(self).highscore == old(self).highscore,
            final(self).on_pause == old(self).on_pause,
            final(self).dead == old(self).dead,
            final(self).current_piece == old(self).current_piece,
            final(self).pieces == old(self).pieces,
    {
        self.exit = true;
    }

    /// Toggle between playing and paused; a no-op once the game is over.
    pub fn pause(&mut self)
        ensures
            final(self).on_pause == (if old(self).dead {
                old(self).on_pause
            } else {
                !old(self).on_pause
            }),
            final(self).score == old(self).score,
            final(self).highscore == old(self).highscore,
            final(self).exit == old(self).exit,
            final(self).dead == old(self).dead,
            final(self).current_piece == old(self).current_piece,
            final(self).pieces == old(self).pieces,
    {
        if !self.dead {
            if self.on_pause {
                self.on_pause = false;
            } else {
                self.on_pause = true;
            }
        }
    }

    /// Death check: the game is over once any settled piece reaches the death
    /// zone (its highest block at or above [`Y_DEATH`]).
    pub fn is_dead(&mut self)
        ensures
            final(self).dead == (old(self).dead || exists|k: int|
                0 <= k < old(self).pieces@.len() && (#[trigger] old(self).pieces@[k]).max_y
                    >= Y_DEATH),
            final(self).score == old(self).score,
            final(self).highscore == old(self).highscore,
            final(self).exit == old(self).exit,
            final(self).on_pause == old(self).on_pause,
            final(self).current_piece == old(self).current_piece,
            final(self).pieces == old(self).pieces,
    {
        let n = self.pieces.len();
        let mut k: usize = 0;
        while k < n
            invariant
                n == self.pieces@.len(),
                k <= n,
                self == old(self),
                forall|i: int| 0 <= i < k ==> (#[trigger] self.pieces@[i]).max_y < Y_DEATH,
            decreases n - k,
        {
            if self.pieces[k].max_y >= Y_DEATH {
                self.dead = true;
                return ;
            }
            k += 1;
        }
    }

    /// True iff the falling piece can fall no further: its one-step-down trial
    /// position collides with the settled stack, or it already rests on the
    /// floor.
    pub fn current_piece_at_bottom(&self) -> (r: bool)
        requires
            self.wf(),
        ensures
            r == (settled_collides(
                self.pieces@,
                spec_move_down(self.current_piece.components@),
            ) || self.current_piece.min_y == Y_MIN),
    {
        let mut trial = self.current_piece.clone();
        trial.move_down();
        self.collides_with_settled(&trial) || self.current_piece.min_y == Y_MIN
    }

    /// Gravity intent: move the falling piece one step down unless its trial
    /// position collides with the settled stack (the floor is handled inside
    /// the piece's own move, as a refused step).
    pub fn move_current_down(&mut self)
        requires
            old(self).wf(),
        ensures
            final(self).wf(),
            ({
                let moved = spec_move_down(old(self).current_piece.components@);
                if settled_collides(old(self).pieces@, moved) {
                    final(self).current_piece == old(self).current_piece
                } else {
                    final(self).current_piece.components@ == moved
                        && final(self).current_piece.color == old(self).current_piece.color
                }
            }),
            final(self).score == old(self).score,
            final(self).highscore == old(self).highscore,
            final(self).exit == old(self).exit,
            final(self).on_pause == old(self).on_pause,
            final(self).dead == old(self).dead,
            final(self).pieces == old(self).pieces,
    {
        let mut trial = self.current_piece.clone();
        trial.move_down();
        if !self.collides_with_settled(&trial) {
            self.current_piece = trial;
        }
    }

    /// Player intent: move the falling piece one step left unless the trial
    /// position collides with the settled stack or leaves the playable zone.
    pub fn move_current_left(&mut self)
        requires
            old(self).wf(),
        ensures
            final(self).wf(),
            ({
                let moved = spec_move_x(
                    old(self).current_piece.components@,
                    -(CELL as int),
                    X_MIN as int,
                );
                if settled_collides(old(self).pieces@, moved) || !(forall|i: int|
                    0 <= i < moved.len() ==> crate::piece::block_in_play(#[trigger] moved[i])) {
                    final(self).current_piece == old(self).current_piece
                } else {
                    final(self).current_piece.components@ == moved
                        && final(self).current_piece.color == old(self).current_piece.color
                }
            }),
            final(self).score == old(self).score,
            final(self).highscore == old(self).highscore,
            final(self).exit == old(self).exit,
            final(self).on_pause == old(self).on_pause,
            final(self).dead == old(self).dead,
            final(self).pieces == old(self).pieces,
    {
        let mut trial = self.current_piece.clone();
        trial.move_left();
        if !(self.collides_with_settled(&trial) || trial.out_of_bounds()) {
            self.current_piece = trial;
        }
    }

    /// Player intent: move the falling piece one step right unless the trial
    /// position collides with the settled stack or leaves the playable zone.
    pub fn move_current_right(&mut self)
        requires
            old(self).wf(),
        ensures
            final(self).wf(),
            ({
                let moved = spec_move_x(
                    old(self).current_piece.components@,
                    CELL as int,
                    X_MAX as int,
                );
                if settled_collides(old(self).pieces@, moved) || !(forall|i: int|
                    0 <= i < moved.len() ==> crate::piece::block_in_play(#[trigger] moved[i])) {
                    final(self).current_piece == old(self).current_piece
                } else {
                    final(self).current_piece.components@ == moved
                        && final(self).current_piece.color == old(self).current_piece.color
                }
            }),
            final(self).score == old(self).score,
            final(self).highscore == old(self).highscore,
            final(self).exit == old(self).exit,
            final(self).on_pause == old(self).on_pause,
            final(self).dead == old(self).dead,
            final(self).pieces == old(self).pieces,
    {
        let mut trial = self.current_piece.clone();
        trial.move_right();
        if !(self.collides_with_settled(&trial) || trial.out_of_bounds()) {
            self.current_piece = trial;
        }
    }

    /// Player intent: rotate the falling piece a quarter turn unless the trial
    /// position collides with the settled stack or leaves the playable zone.
    pub fn rotate_current(&mut self)
        requires
            old(self).wf(),
        ensures
            final(self).wf(),
            ({
                let rotated = spec_rotate(old(self).current_piece.components@);
                if settled_collides(old(self).pieces@, rotated) || !(forall|i: int|
                    0 <= i < rotated.len() ==> crate::piece::block_in_play(#[trigger] rotated[i])) {
                    final(self).current_piece == old(self).current_piece
                } else {
                    final(self).current_piece.components@ == rotated
                        && final(self).current_piece.color == old(self).current_piece.color
                }
            }),
            final(self).score == old(self).score,
            final(self).highscore == old(self).highscore,
            final(self).exit == old(self).exit,
            final(self).on_pause == old(self).on_pause,
            final(self).dead == old(self).dead,
            final(self).pieces == old(self).pieces,
    {
        let mut trial = self.current_piece.clone();
        trial.rotate();
        if !(self.collides_with_settled(&trial) || trial.out_of_bounds()) {
            self.current_piece = trial;
        }
    }
}


/// Filtering keeps a sequence unchanged when every element satisfies the
/// predicate.
pub proof fn lemma_filter_identity(s: Seq<Block>, pred: spec_fn(Block) -> bool)
    requires
        forall|i: int| 0 <= i < s.len() ==> pred(#[trigger] s[i]),
    ensures
        s.filter(pred) == s,
    decreases s.len(),
{
    reveal(Seq::filter);
    if s.len() > 0 {
        assert(forall|i: int| 0 <= i < s.drop_last().len() ==> pred(#[trigger] s.drop_last()[i]));
        lemma_filter_identity(s.drop_last(), pred);
        assert(s.filter(pred) =~= s);
    } else {
        assert(s.filter(pred) =~= s);
    }
}

/// Two pointwise-equal predicates filter a sequence to the same result.
pub proof fn lemma_filter_same_pred(s: Seq<Block>, p: spec_fn(Block) -> bool, q: spec_fn(Block) -> bool)
    requires
        forall|b: Block| #![trigger p(b)] p(b) == q(b),
    ensures
        s.filter(p) == s.filter(q),
    decreases s.len(),
{
    reveal(Seq::filter);
    if s.len() > 0 {
        lemma_filter_same_pred(s.drop_last(), p, q);
    }
}

/// Filtering twice is filtering once by the conjunction.
pub proof fn lemma_filter_compose(
    s: Seq<Block>,
    p: spec_fn(Block) -> bool,
    q: spec_fn(Block) -> bool,
    r: spec_fn(Block) -> bool,
)
    requires
        forall|b: Block| #![trigger p(b)] r(b) == (p(b) && q(b)),
    ensures
        s.filter(p).filter(q) == s.filter(r),
    decreases s.len(),
{
    reveal(Seq::filter);
    if s.len() > 0 {
        lemma_filter_compose(s.drop_last(), p, q, r);
        if p(s.last()) {
            assert(s.filter(p) == s.drop_last().filter(p).push(s.last()));
            assert(s.filter(p).drop_last() =~= s.drop_last().filter(p));
            assert(s.filter(p).last() == s.last());
        }
    }
}

/// A block satisfying the predicate is settled in the filtered stack exactly
/// when it is settled in the stack it was filtered from.
pub proof fn lemma_settled_blocked_filter(
    cur: Seq<Piece>,
    prev: Seq<Piece>,
    pred: spec_fn(Block) -> bool,
    b: Block,
)
    requires
        cur.len() == prev.len(),
        forall|k: int|
            0 <= k < prev.len() ==> (#[trigger] cur[k]).components@ == (
            #[trigger] prev[k]).components@.filter(pred),
        pred(b),
    ensures
        settled_blocked(cur, b) == settled_blocked(prev, b),
{
    if settled_blocked(cur, b) {
        let k = choose|k: int|
            0 <= k < cur.len() && spec_is_blocked((#[trigger] cur[k]).components@, b);
        assert(cur[k].components@.contains(b));
        prev[k].components@.lemma_filter_contains_rev(pred, b);
        assert(prev[k].components@.contains(b));
        let i = choose|i: int| 0 <= i < prev[k].components@.len() && prev[k].components@[i] == b;
        assert(spec_is_blocked(prev[k].components@, b));
        assert(settled_blocked(prev, b));
    }
    if settled_blocked(prev, b) {
        let k = choose|k: int|
            0 <= k < prev.len() && spec_is_blocked((#[trigger] prev[k]).components@, b);
        let i = choose|i: int| 0 <= i < prev[k].components@.len() && prev[k].components@[i] == b;
        prev[k].components@.lemma_filter_contains(pred, i);
        assert(cur[k].components@.contains(b));
        let j = choose|j: int| 0 <= j < cur[k].components@.len() && cur[k].components@[j] == b;
        assert(spec_is_blocked(cur[k].components@, b));
        assert(settled_blocked(cur, b));
    }
}

/// The predicate that keeps a block when it is not at row `row`.
pub open spec fn not_at_row(row: int) -> spec_fn(Block) -> bool {
    |b: Block| b.y != row
}

/// The predicate that keeps a block when its row was not found complete while
/// rows `10 * -9` up to (excluding) `10 * hi` of the stack `ps` were scanned.
pub open spec fn keep_pred(ps: Seq<Piece>, hi: int) -> spec_fn(Block) -> bool {
    |b: Block| !cleared_row(ps, -9, hi, b.y as int)
}

/// Row `y` was found complete while the rows `10 * lo` up to (excluding)
/// `10 * hi` were scanned.
pub open spec fn cleared_row(ps: Seq<Piece>, lo: int, hi: int, y: int) -> bool {
    exists|i: int| lo <= i < hi && y == 10 * i && #[trigger] row_complete(ps, 10 * i)
}

/// The score is raised by [`ROW_BONUS`], stopping at the largest value the
/// counter can hold.
pub open spec fn spec_sat_bonus(s: u64) -> u64 {
    if s + ROW_BONUS <= u64::MAX {
        (s + ROW_BONUS) as u64
    } else {
        u64::MAX
    }
}

/// The score after scanning rows `10 * i` up to (excluding) `10 * 8` of the
/// settled stack `ps`, starting from score `s`: one bonus for each complete row.
pub open spec fn spec_clear_score(s: u64, ps: Seq<Piece>, i: int) -> u64
    decreases 8 - i,
{
    if i >= 8 {
        s
    } else {
        spec_clear_score(
            if row_complete(ps, 10 * i) {
                spec_sat_bonus(s)
            } else {
                s
            },
            ps,
            i + 1,
        )
    }
}

impl App {
    /// Remove every settled block at row `row`, piece by piece; pieces may be
    /// left with no blocks. Each piece's cached bounds are recomputed.
    pub fn delete_row(&mut self, row: i64)
        requires
            old(self).wf(),
        ensures
            final(self).wf(),
            final(self).pieces@.len() == old(self).pieces@.len(),
            forall|k: int|
                0 <= k < old(self).pieces@.len()
                    ==> (#[trigger] final(self).pieces@[k]).components@ == old(
                self,
            ).pieces@[k].components@.filter(not_at_row(row as int)),
            forall|k: int|
                0 <= k < old(self).pieces@.len() ==> (#[trigger] final(self).pieces@[k]).color
                    == old(self).pieces@[k].color,
            final(self).score == old(self).score,
            final(self).highscore == old(self).highscore,
            final(self).exit == old(self).exit,
            final(self).on_pause == old(self).on_pause,
            final(self).dead == old(self).dead,
            final(self).current_piece == old(self).current_piece,
    {
        let n = self.pieces.len();
        let mut out: Vec<Piece> = Vec::new();
        let mut k: usize = 0;
        while k < n
            invariant
                n == self.pieces@.len(),
                k <= n,
                self == old(self),
                old(self).wf(),
                out@.len() == k,
                forall|i: int|
                    0 <= i < k ==> (#[trigger] out@[i]).components@
                        == self.pieces@[i].components@.filter(not_at_row(row as int)),
                forall|i: int| 0 <= i < k ==> (#[trigger] out@[i]).color == self.pieces@[i].color,
                forall|i: int| 0 <= i < k ==> (#[trigger] out@[i]).wf(),
                forall|i: int| 0 <= i < k ==> (#[trigger] out@[i]).in_board(),
            decreases n - k,
        {
            let p = &self.pieces[k];
            if p.max_y < row || p.min_y > row {
                let kept = p.clone();
                proof {
                    assert(forall|i: int|
                        0 <= i < p.components@.len() ==> (#[trigger] p.components@[i]).y != row);
                    lemma_filter_identity(p.components@, not_at_row(row as int));
                }
                out.push(kept);
            } else {
                let m = p.components.len();
                let mut cs: Vec<Block> = Vec::new();
                let mut j: usize = 0;
                while j < m
                    invariant
                        m == p.components@.len(),
                        j <= m,
                        p.wf(),
                        p.in_board(),
                        cs@ == p.components@.take(j as int).filter(not_at_row(row as int)),
                        forall|i: int|
                            0 <= i < cs@.len() ==> crate::piece::block_on_lattice(
                                #[trigger] cs@[i],
                            ) && crate::piece::block_in_board(cs@[i]),
                    decreases m - j,
                {
                    let b = p.components[j];
                    proof {
                        reveal(Seq::filter);
                        assert(p.components@.take(j + 1 as int).drop_last() =~= p.components@.take(
                            j as int,
                        ));
                        assert(p.components@.take(j + 1 as int).last() == b);
                    }
                    if b.y != row {
                        cs.push(b);
                    }
                    j += 1;
                }
                proof {
                    assert(p.components@.take(m as int) =~= p.components@);
                }
                let new_min = crate::piece::get_min_y(&cs);
                let new_max = crate::piece::get_max_y(&cs);
                out.push(Piece { color: p.color, components: cs, min_y: new_min, max_y: new_max });
            }
            k += 1;
        }
        self.pieces = out;
    }

    /// True iff every column of row `y` is occupied by some settled block.
    pub fn row_filled(&self, y: i64) -> (r: bool)
        requires
            Y_MIN <= y <= crate::Y_MAX,
            y % 10 == 0,
        ensures
            r == row_complete(self.pieces@, y as int),
    {
        let line = Piece::whole_line(y);
        let n = line.components.len();
        let mut c: usize = 0;
        while c < n
            invariant
                n == line.components@.len(),
                n == N_COLS,
                forall|i: int|
                    0 <= i < N_COLS ==> #[trigger] line.components@[i] == line_block(i, y as int),
                c <= n,
                forall|i: int| 0 <= i < c ==> settled_blocked(self.pieces@, #[trigger] line_block(i, y as int)),
            decreases n - c,
        {
            let b = line.components[c];
            if !self.blocked_by_settled(&b) {
                proof {
                    assert(!settled_blocked(self.pieces@, line_block(c as int, y as int)));
                }
                return false;
            }
            c += 1;
        }
        true
    }
}


impl App {
    /// Scan every candidate row from the floor upward; each complete row is
    /// deleted from every settled piece and awards [`ROW_BONUS`] points
    /// (saturating at the counter's largest value). Rows only partially
    /// filled are left untouched. Cleared rows are not compacted: blocks
    /// above a cleared row keep their position.
    pub fn row_clear(&mut self)
        requires
            old(self).wf(),
        ensures
            final(self).wf(),
            final(self).pieces@.len() == old(self).pieces@.len(),
            forall|k: int|
                0 <= k < old(self).pieces@.len()
                    ==> (#[trigger] final(self).pieces@[k]).components@ == old(
                self,
            ).pieces@[k].components@.filter(keep_pred(old(self).pieces@, 8)),
            forall|k: int|
                0 <= k < old(self).pieces@.len() ==> (#[trigger] final(self).pieces@[k]).color
                    == old(self).pieces@[k].color,
            final(self).score == spec_clear_score(old(self).score, old(self).pieces@, -9),
            final(self).highscore == old(self).highscore,
            final(self).exit == old(self).exit,
            final(self).on_pause == old(self).on_pause,
            final(self).dead == old(self).dead,
            final(self).current_piece == old(self).current_piece,
    {
        let ghost ps = old(self).pieces@;
        proof {
            assert forall|k: int| 0 <= k < ps.len() implies (
            #[trigger] self.pieces@[k]).components@ == ps[k].components@.filter(
                keep_pred(ps, -9),
            ) by {
                assert forall|i: int|
                    0 <= i < ps[k].components@.len() implies (keep_pred(ps, -9))(
                    #[trigger] ps[k].components@[i],
                ) by {
                    assert(!cleared_row(ps, -9, -9, ps[k].components@[i].y as int));
                }
                lemma_filter_identity(ps[k].components@, keep_pred(ps, -9));
            }
        }
        let mut i: i64 = -9;
        while i < 8
            invariant
                -9 <= i <= 8,
                self.wf(),
                self.pieces@.len() == ps.len(),
                forall|k: int|
                    0 <= k < ps.len() ==> (#[trigger] self.pieces@[k]).components@
                        == ps[k].components@.filter(keep_pred(ps, i as int)),
                forall|k: int|
                    0 <= k < ps.len() ==> (#[trigger] self.pieces@[k]).color == ps[k].color,
                spec_clear_score(self.score, ps, i as int) == spec_clear_score(
                    old(self).score,
                    ps,
                    -9,
                ),
                self.highscore == old(self).highscore,
                self.exit == old(self).exit,
                self.on_pause == old(self).on_pause,
                self.dead == old(self).dead,
                self.current_piece == old(self).current_piece,
            decreases 8 - i,
        {
            let y = 10 * i;
            proof {
                vstd::arithmetic::div_mod::lemma_mod_multiples_basic(i as int, 10);
                assert(y % 10 == 0);
                assert forall|c: int| 0 <= c < N_COLS implies settled_blocked(
                    self.pieces@,
                    #[trigger] line_block(c, y as int),
                ) == settled_blocked(ps, line_block(c, y as int)) by {
                    assert((keep_pred(ps, i as int))(line_block(c, y as int)));
                    lemma_settled_blocked_filter(
                        self.pieces@,
                        ps,
                        keep_pred(ps, i as int),
                        line_block(c, y as int),
                    );
                }
                assert(row_complete(self.pieces@, y as int) == row_complete(ps, y as int));
            }
            if self.row_filled(y) {
                self.delete_row(y);
                proof {
                    assert forall|b: Block| #![trigger (keep_pred(ps, i as int))(b)]
                        (keep_pred(ps, i + 1 as int))(b) == ((keep_pred(ps, i as int))(b)
                        && (not_at_row(y as int))(b)) by {
                        if cleared_row(ps, -9, i + 1 as int, b.y as int) {
                            let w = choose|w: int|
                                -9 <= w < i + 1 && b.y == 10 * w && #[trigger] row_complete(
                                    ps,
                                    10 * w,
                                );
                            if w < i {
                                assert(cleared_row(ps, -9, i as int, b.y as int));
                            } else {
                                assert(b.y == y);
                            }
                        }
                        if b.y == y {
                            assert(row_complete(ps, 10 * (i as int)));
                            assert(cleared_row(ps, -9, i + 1 as int, b.y as int));
                        }
                        if cleared_row(ps, -9, i as int, b.y as int) {
                            let w = choose|w: int|
                                -9 <= w < i && b.y == 10 * w && #[trigger] row_complete(
                                    ps,
                                    10 * w,
                                );
                            assert(cleared_row(ps, -9, i + 1 as int, b.y as int));
                        }
                    }
                    assert forall|k: int| 0 <= k < ps.len() implies (
                    #[trigger] self.pieces@[k]).components@ == ps[k].components@.filter(
                        keep_pred(ps, i + 1 as int),
                    ) by {
                        lemma_filter_compose(
                            ps[k].components@,
                            keep_pred(ps, i as int),
                            not_at_row(y as int),
                            keep_pred(ps, i + 1 as int),
                        );
                    }
                }
                if self.score <= u64::MAX - ROW_BONUS {
                    self.score = self.score + ROW_BONUS;
                } else {
                    self.score = u64::MAX;
                }
            } else {
                proof {
                    assert forall|b: Block| #![trigger (keep_pred(ps, i as int))(b)]
                        (keep_pred(ps, i + 1 as int))(b) == (keep_pred(ps, i as int))(b) by {
                        if cleared_row(ps, -9, i + 1 as int, b.y as int) {
                            let w = choose|w: int|
                                -9 <= w < i + 1 && b.y == 10 * w && #[trigger] row_complete(
                                    ps,
                                    10 * w,
                                );
                            if w == i {
                                assert(row_complete(ps, y as int));
                            }
                            assert(cleared_row(ps, -9, i as int, b.y as int));
                        }
                        if cleared_row(ps, -9, i as int, b.y as int) {
                            let w = choose|w: int|
                                -9 <= w < i && b.y == 10 * w && #[trigger] row_complete(
                                    ps,
                                    10 * w,
                                );
                            assert(cleared_row(ps, -9, i + 1 as int, b.y as int));
                        }
                    }
                    assert forall|k: int| 0 <= k < ps.len() implies (
                    #[trigger] self.pieces@[k]).components@ == ps[k].components@.filter(
                        keep_pred(ps, i + 1 as int),
                    ) by {
                        lemma_filter_same_pred(
                            ps[k].components@,
                            keep_pred(ps, i as int),
                            keep_pred(ps, i + 1 as int),
                        );
                    }
                }
            }
            i += 1;
        }
    }
}


/// The spawn-position blocks of shape number `shape`: the long bar, the
/// square, the T and the L, in that order.
pub open spec fn spec_shape(shape: int) -> Seq<Block> {
    if shape == 0 {
        seq![
            Block { x: 0, y: 90, width: 10, height: 10 },
            Block { x: 0, y: 80, width: 10, height: 10 },
            Block { x: 0, y: 70, width: 10, height: 10 },
            Block { x: 0, y: 60, width: 10, height: 10 },
        ]
    } else if shape == 1 {
        seq![
            Block { x: 0, y: 90, width: 10, height: 10 },
            Block { x: 10, y: 90, width: 10, height: 10 },
            Block { x: 0, y: 80, width: 10, height: 10 },
            Block { x: 10, y: 80, width: 10, height: 10 },
        ]
    } else if shape == 2 {
        seq![
            Block { x: 0, y: 90, width: 10, height: 10 },
            Block { x: -10i64, y: 90, width: 10, height: 10 },
            Block { x: 10, y: 90, width: 10, height: 10 },
            Block { x: 0, y: 80, width: 10, height: 10 },
        ]
    } else {
        seq![
            Block { x: 0, y: 90, width: 10, height: 10 },
            Block { x: 10, y: 90, width: 10, height: 10 },
            Block { x: 0, y: 80, width: 10, height: 10 },
            Block { x: 0, y: 70, width: 10, height: 10 },
        ]
    }
}

/// One legal-rotation attempt against the settled stack `ps`: the rotated
/// blocks when they neither collide with the stack nor leave the playable
/// zone, else the blocks unchanged (the trial-then-commit protocol of a
/// player's rotation intent).
pub open spec fn spec_try_rotate(ps: Seq<Piece>, s: Seq<Block>) -> Seq<Block> {
    let rotated = spec_rotate(s);
    if settled_collides(ps, rotated) || !blocks_in_play(rotated) {
        s
    } else {
        rotated
    }
}

/// `r` legal-rotation attempts in a row against the settled stack `ps`.
pub open spec fn spec_try_rotate_n(ps: Seq<Piece>, s: Seq<Block>, r: int) -> Seq<Block>
    decreases r,
{
    if r <= 0 {
        s
    } else {
        spec_try_rotate(ps, spec_try_rotate_n(ps, s, r - 1))
    }
}

impl App {
    /// Replace the falling piece from the three numbers an injectable source
    /// of randomness drew: the shape, how many initial quarter turns to try
    /// (each committed only if legal, as for a player intent), and the color.
    pub fn next_piece_from(&mut self, shape: u64, rotations: u64, color: u64)
        requires
            old(self).wf(),
            shape < 4,
            rotations < 3,
            color < 7,
        ensures
            final(self).wf(),
            final(self).current_piece.components@.len() == 4,
            final(self).current_piece.color == color as u8,
            final(self).current_piece.components@ == spec_try_rotate_n(
                old(self).pieces@,
                spec_shape(shape as int),
                rotations as int,
            ),
            final(self).score == old(self).score,
            final(self).highscore == old(self).highscore,
            final(self).exit == old(self).exit,
            final(self).on_pause == old(self).on_pause,
            final(self).dead == old(self).dead,
            final(self).pieces == old(self).pieces,
    {
        if shape == 0 {
            self.current_piece = Piece::long();
        } else if shape == 1 {
            self.current_piece = Piece::square();
        } else if shape == 2 {
            self.current_piece = Piece::t_piece();
        } else {
            self.current_piece = Piece::l_piece();
        }
        let mut r: u64 = 0;
        while r < rotations
            invariant
                self.wf(),
                r <= rotations,
                self.current_piece.components@.len() == 4,
                self.current_piece.components@ == spec_try_rotate_n(
                    old(self).pieces@,
                    spec_shape(shape as int),
                    r as int,
                ),
                self.score == old(self).score,
                self.highscore == old(self).highscore,
                self.exit == old(self).exit,
                self.on_pause == old(self).on_pause,
                self.dead == old(self).dead,
                self.pieces == old(self).pieces,
            decreases rotations - r,
        {
            self.rotate_current();
            r += 1;
        }
        self.current_piece.color = color as u8;
    }
}


impl App {
    /// One gravity step, with the three numbers an injectable source of
    /// randomness drew for the replacement piece. A tick either locks or
    /// moves, never both: when the falling piece can fall no further (its
    /// one-step-down trial collides with the settled stack, or it already
    /// rests on the floor) it is locked where it lies and a fresh piece is
    /// spawned from the drawn numbers; otherwise it moves one step down.
    pub fn handle_piece_with(&mut self, shape: u64, rotations: u64, color: u64)
        requires
            old(self).wf(),
            shape < 4,
            rotations < 3,
            color < 7,
        ensures
            final(self).wf(),
            ({
                let moved = spec_move_down(old(self).current_piece.components@);
                let locked = settled_collides(old(self).pieces@, moved) || old(
                    self,
                ).current_piece.min_y == Y_MIN;
                let fnew = *final(self);
                let n0 = old(self).pieces@.len() as int;
                if locked {
                    fnew.pieces@.len() == n0 + 1
                        && (forall|k: int|
                        0 <= k < n0 ==> #[trigger] fnew.pieces@[k] == old(self).pieces@[k])
                        && fnew.pieces@[n0].components@ == old(self).current_piece.components@
                        && fnew.current_piece.components@.len() == 4
                        && fnew.current_piece.components@ == spec_try_rotate_n(
                        fnew.pieces@,
                        spec_shape(shape as int),
                        rotations as int,
                    ) && fnew.current_piece.color == color as u8
                } else {
                    fnew.pieces == old(self).pieces && fnew.current_piece.components@ == moved
                }
            }),
            final(self).score == old(self).score,
            final(self).highscore == old(self).highscore,
            final(self).exit == old(self).exit,
            final(self).on_pause == old(self).on_pause,
            final(self).dead == old(self).dead,
    {
        if self.current_piece_at_bottom() {
            let settled = self.current_piece.clone();
            self.pieces.push(settled);
            self.next_piece_from(shape, rotations, color);
        } else {
            self.move_current_down();
        }
    }

    /// Begin a new life after death, with the three numbers an injectable
    /// source of randomness drew for the first piece: score back to zero, the
    /// stack cleared, the game unpaused and alive, the high score kept. A
    /// no-op unless the game is over.
    pub fn restart_with(&mut self, shape: u64, rotations: u64, color: u64)
        requires
            old(self).wf(),
            shape < 4,
            rotations < 3,
            color < 7,
        ensures
            final(self).wf(),
            !old(self).dead ==> *final(self) == *old(self),
            old(self).dead ==> ({
                let fnew = *final(self);
                fnew.score == 0 && fnew.on_pause == false && fnew.dead == false
                    && fnew.pieces@.len() == 0 && fnew.highscore == old(self).highscore
                    && fnew.exit == old(self).exit && fnew.current_piece.components@.len() == 4
                    && fnew.current_piece.components@ == spec_try_rotate_n(
                    fnew.pieces@,
                    spec_shape(shape as int),
                    rotations as int,
                ) && fnew.current_piece.color == color as u8
            }),
    {
        if self.dead {
            self.score = 0;
            self.on_pause = false;
            self.dead = false;
            self.pieces = Vec::new();
            self.next_piece_from(shape, rotations, color);
        }
    }
}


/// One abstract player or timer input, independent of physical key bindings.
#[derive(Clone, Copy, PartialEq, Eq, Structural, Debug)]
pub enum Intent {
    MoveLeft,
    MoveRight,
    SoftDrop,
    Rotate,
    TogglePause,
    Restart,
    Quit,
}

impl App {
    /// Replace the falling piece with a randomly drawn one: shape, number of
    /// initial quarter turns to try, and color all come from the game's
    /// source of randomness.
    pub fn next_piece(&mut self)
        requires
            old(self).wf(),
        ensures
            final(self).wf(),
            final(self).current_piece.components@.len() == 4,
            final(self).current_piece.color < 7,
            final(self).score == old(self).score,
            final(self).highscore == old(self).highscore,
            final(self).exit == old(self).exit,
            final(self).on_pause == old(self).on_pause,
            final(self).dead == old(self).dead,
            final(self).pieces == old(self).pieces,
    {
        let shape = crate::rng::random_below(4);
        let rotations = crate::rng::random_below(3);
        let color = crate::rng::random_below(7);
        self.next_piece_from(shape, rotations, color);
    }

    /// One gravity step. A tick either locks or moves, never both: when the
    /// falling piece can fall no further (its one-step-down trial collides
    /// with the settled stack, or it already rests on the floor) it is locked
    /// where it lies and a random fresh piece is spawned; otherwise it moves
    /// one step down.
    pub fn handle_piece(&mut self)
        requires
            old(self).wf(),
        ensures
            final(self).wf(),
            ({
                let moved = spec_move_down(old(self).current_piece.components@);
                let locked = settled_collides(old(self).pieces@, moved) || old(
                    self,
                ).current_piece.min_y == Y_MIN;
                let fnew = *final(self);
                let n0 = old(self).pieces@.len() as int;
                if locked {
                    fnew.pieces@.len() == n0 + 1
                        && (forall|k: int|
                        0 <= k < n0 ==> #[trigger] fnew.pieces@[k] == old(self).pieces@[k])
                        && fnew.pieces@[n0].components@ == old(self).current_piece.components@
                        && fnew.current_piece.components@.len() == 4
                        && fnew.current_piece.color < 7
                } else {
                    fnew.pieces == old(self).pieces && fnew.current_piece.components@ == moved
                }
            }),
            final(self).score == old(self).score,
            final(self).highscore == old(self).highscore,
            final(self).exit == old(self).exit,
            final(self).on_pause == old(self).on_pause,
            final(self).dead == old(self).dead,
    {
        let shape = crate::rng::random_below(4);
        let rotations = crate::rng::random_below(3);
        let color = crate::rng::random_below(7);
        self.handle_piece_with(shape, rotations, color);
    }

    /// Begin a new life after death with a randomly drawn first piece: score
    /// back to zero, the stack cleared, the game unpaused and alive, the high
    /// score kept. A no-op unless the game is over.
    pub fn restart(&mut self)
        requires
            old(self).wf(),
        ensures
            final(self).wf(),
            !old(self).dead ==> *final(self) == *old(self),
            old(self).dead ==> ({
                let fnew = *final(self);
                fnew.score == 0 && fnew.on_pause == false && fnew.dead == false
                    && fnew.pieces@.len() == 0 && fnew.highscore == old(self).highscore
                    && fnew.exit == old(self).exit && fnew.current_piece.components@.len() == 4
                    && fnew.current_piece.color < 7
            }),
    {
        let shape = crate::rng::random_below(4);
        let rotations = crate::rng::random_below(3);
        let color = crate::rng::random_below(7);
        self.restart_with(shape, rotations, color);
    }

    /// Consume one abstract input. Movement and rotation intents follow the
    /// trial-then-commit protocol and are silently dropped when illegal;
    /// pausing is refused once the game is over; restarting only acts once the
    /// game is over; quitting only raises the exit flag.
    pub fn handle_intent(&mut self, intent: Intent)
        requires
            old(self).wf(),
        ensures
            final(self).wf(),
            ({
                let o = *old(self);
                let f = *final(self);
                match intent {
                    Intent::MoveLeft => {
                        let moved = spec_move_x(o.current_piece.components@, -(CELL as int), X_MIN as int);
                        f.pieces == o.pieces && f.score == o.score && f.highscore == o.highscore
                            && f.dead == o.dead && f.on_pause == o.on_pause && f.exit == o.exit
                            && (if settled_collides(o.pieces@, moved) || !blocks_in_play(moved) {
                            f.current_piece == o.current_piece
                        } else {
                            f.current_piece.components@ == moved
                        })
                    },
                    Intent::MoveRight => {
                        let moved = spec_move_x(o.current_piece.components@, CELL as int, X_MAX as int);
                        f.pieces == o.pieces && f.score == o.score && f.highscore == o.highscore
                            && f.dead == o.dead && f.on_pause == o.on_pause && f.exit == o.exit
                            && (if settled_collides(o.pieces@, moved) || !blocks_in_play(moved) {
                            f.current_piece == o.current_piece
                        } else {
                            f.current_piece.components@ == moved
                        })
                    },
                    Intent::SoftDrop => {
                        let moved = spec_move_down(o.current_piece.components@);
                        f.pieces == o.pieces && f.score == o.score && f.highscore == o.highscore
                            && f.dead == o.dead && f.on_pause == o.on_pause && f.exit == o.exit
                            && (if settled_collides(o.pieces@, moved) {
                            f.current_piece == o.current_piece
                        } else {
                            f.current_piece.components@ == moved
                        })
                    },
                    Intent::Rotate => {
                        let rotated = spec_rotate(o.current_piece.components@);
                        f.pieces == o.pieces && f.score == o.score && f.highscore == o.highscore
                            && f.dead == o.dead && f.on_pause == o.on_pause && f.exit == o.exit
                            && (if settled_collides(o.pieces@, rotated) || !blocks_in_play(rotated) {
                            f.current_piece == o.current_piece
                        } else {
                            f.current_piece.components@ == rotated
                        })
                    },
                    Intent::TogglePause => {
                        f.pieces == o.pieces && f.score == o.score && f.highscore == o.highscore
                            && f.dead == o.dead && f.exit == o.exit
                            && f.current_piece == o.current_piece
                            && f.on_pause == (if o.dead { o.on_pause } else { !o.on_pause })
                    },
                    Intent::Restart => {
                        (!o.dead ==> f == o) && (o.dead ==> f.score == 0 && f.on_pause == false
                            && f.dead == false && f.pieces@.len() == 0 && f.highscore == o.highscore
                            && f.exit == o.exit && f.current_piece.components@.len() == 4)
                    },
                    Intent::Quit => {
                        f.pieces == o.pieces && f.score == o.score && f.highscore == o.highscore
                            && f.dead == o.dead && f.on_pause == o.on_pause
                            && f.current_piece == o.current_piece && f.exit == true
                    },
                }
            }),
    {
        match intent {
            Intent::MoveLeft => self.move_current_left(),
            Intent::MoveRight => self.move_current_right(),
            Intent::SoftDrop => self.move_current_down(),
            Intent::Rotate => self.rotate_current(),
            Intent::TogglePause => self.pause(),
            Intent::Restart => self.restart(),
            Intent::Quit => self.exit(),
        }
    }
}



/// What the row scan's result means block by block: after a scan of the stack
/// `prev` produced the stack `cur`, no block survives at a row that was
/// complete in `prev`, and every block of `prev` at a row that was not
/// complete survives in its piece.
pub proof fn lemma_row_clear_blocks(prev: Seq<Piece>, cur: Seq<Piece>)
    requires
        cur.len() == prev.len(),
        forall|k: int|
            0 <= k < prev.len() ==> (#[trigger] cur[k]).components@ == (
            #[trigger] prev[k]).components@.filter(keep_pred(prev, 8)),
    ensures
        forall|k: int, i: int|
            0 <= k < cur.len() && 0 <= i < cur[k].components@.len() ==> !cleared_row(
                prev,
                -9,
                8,
                (#[trigger] cur[k].components@[i]).y as int,
            ),
        forall|k: int, i: int|
            0 <= k < prev.len() && 0 <= i < prev[k].components@.len() && !cleared_row(
                prev,
                -9,
                8,
                (#[trigger] prev[k].components@[i]).y as int,
            ) ==> cur[k].components@.contains(prev[k].components@[i]),
{
    assert forall|k: int, i: int|
        0 <= k < cur.len() && 0 <= i < cur[k].components@.len() implies !cleared_row(
        prev,
        -9,
        8,
        (#[trigger] cur[k].components@[i]).y as int,
    ) by {
        prev[k].components@.lemma_filter_pred(keep_pred(prev, 8), i);
    }
    assert forall|k: int, i: int|
        0 <= k < prev.len() && 0 <= i < prev[k].components@.len() && !cleared_row(
            prev,
            -9,
            8,
            (#[trigger] prev[k].components@[i]).y as int,
        ) implies cur[k].components@.contains(prev[k].components@[i]) by {
        prev[k].components@.lemma_filter_contains(keep_pred(prev, 8), i);
    }
}


} // verus!
