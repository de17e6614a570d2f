//! A rigid group of blocks: one tetromino, falling or settled.

use vstd::prelude::*;

use crate::block::Block;
use crate::{CELL, N_COLS, X_MAX, X_MIN, Y_DEATH, Y_MAX, Y_MIN};

verus! {

/// Cached `min_y` of a piece with no blocks (plays the role of positive infinity).
pub const EMPTY_MIN_Y: i64 = 10000;

/// Cached `max_y` of a piece with no blocks (plays the role of negative infinity).
pub const EMPTY_MAX_Y: i64 = -10000;

/// The block is cell-sized and its corner lies on the step-10 lattice.
pub open spec fn block_on_lattice(b: Block) -> bool {
    &&& b.x % 10 == 0
    &&& b.y % 10 == 0
    &&& b.width == CELL
    &&& b.height == CELL
}

/// The block lies between the walls and between floor and ceiling.
pub open spec fn block_in_board(b: Block) -> bool {
    &&& X_MIN <= b.x <= X_MAX
    &&& Y_MIN <= b.y <= Y_MAX
}

/// The block lies in the playable zone: as `block_in_board`, but the two top
/// rows (above [`Y_DEATH`]) count as outside.
pub open spec fn block_in_play(b: Block) -> bool {
    &&& X_MIN <= b.x <= X_MAX
    &&& Y_MIN <= b.y <= Y_DEATH
}

/// Every block of `s` lies in the playable zone.
pub open spec fn blocks_in_play(s: Seq<Block>) -> bool {
    forall|i: int| 0 <= i < s.len() ==> block_in_play(#[trigger] s[i])
}

/// Some block of `s` equals `b`: the collision predicate of one piece
/// against one block.
pub open spec fn spec_is_blocked(s: Seq<Block>, b: Block) -> bool {
    exists|i: int| 0 <= i < s.len() && s[i] == b
}

/// Some block of `a` equals some block of `b`.
pub open spec fn spec_collides(a: Seq<Block>, b: Seq<Block>) -> bool {
    exists|i: int| 0 <= i < a.len() && spec_is_blocked(b, a[i])
}

/// One tetromino: an ordered collection of blocks with a cosmetic color
/// (an index into the renderer's palette) and cached vertical bounds.
pub struct Piece {
    pub color: u8,
    pub components: Vec<Block>,
    pub min_y: i64,
    pub max_y: i64,
}

impl Piece {
    /// The cached bounds agree with the blocks: every block's `y` lies between
    /// `min_y` and `max_y`, and both bounds are attained when any block exists;
    /// an empty piece carries the two sentinels.
    pub open spec fn bounds_ok(self) -> bool {
        &&& forall|i: int|
            0 <= i < self.components@.len()
                ==> self.min_y <= (#[trigger] self.components@[i]).y <= self.max_y
        &&& self.components@.len() > 0 ==> exists|i: int|
            0 <= i < self.components@.len() && (#[trigger] self.components@[i]).y == self.min_y
        &&& self.components@.len() > 0 ==> exists|i: int|
            0 <= i < self.components@.len() && (#[trigger] self.components@[i]).y == self.max_y
        &&& self.components@.len() == 0 ==> self.min_y == EMPTY_MIN_Y && self.max_y == EMPTY_MAX_Y
    }

    /// Well-formed piece: blocks on the lattice and bounds cached correctly.
    pub open spec fn wf(self) -> bool {
        &&& forall|i: int|
            0 <= i < self.components@.len() ==> block_on_lattice(#[trigger] self.components@[i])
        &&& self.bounds_ok()
    }

    /// Every block lies between the walls, the floor and the ceiling.
    pub open spec fn in_board(self) -> bool {
        forall|i: int|
            0 <= i < self.components@.len() ==> block_in_board(#[trigger] self.components@[i])
    }

    /// Every block lies in the playable zone (`y` at most [`Y_DEATH`]).
    pub open spec fn in_play(self) -> bool {
        forall|i: int|
            0 <= i < self.components@.len() ==> block_in_play(#[trigger] self.components@[i])
    }

    /// True iff one of this piece's blocks equals the given block: the
    /// collision predicate between a trial-moved piece and a settled piece.
    pub fn is_blocked(&self, b: &Block) -> (r: bool)
        ensures
            r == spec_is_blocked(self.components@, *b),
    {
        let n = self.components.len();
        let mut j: usize = 0;
        while j < n
            invariant
                n == self.components@.len(),
                j <= n,
                forall|i: int| 0 <= i < j ==> self.components@[i] != *b,
            decreases n - j,
        {
            if self.components[j].is_equal(b) {
                return true;
            }
            j += 1;
        }
        false
    }

    /// True iff some block lies outside the playable zone.
    pub fn out_of_bounds(&self) -> (r: bool)
        ensures
            r == !self.in_play(),
    {
        let n = self.components.len();
        let mut j: usize = 0;
        while j < n
            invariant
                n == self.components@.len(),
                j <= n,
                forall|i: int| 0 <= i < j ==> block_in_play(#[trigger] self.components@[i]),
            decreases n - j,
        {
            let c = self.components[j];
            if c.y < Y_MIN || c.y > Y_DEATH || c.x < X_MIN || c.x > X_MAX {
                return true;
            }
            j += 1;
        }
        false
    }
}

/// Smallest `y` among the blocks, or [`EMPTY_MIN_Y`] when there are none.
pub fn get_min_y(cmps: &Vec<Block>) -> (r: i64)
    requires
        forall|i: int|
            0 <= i < cmps@.len() ==> -9999 <= (#[trigger] cmps@[i]).y <= 9999,
    ensures
        forall|i: int| 0 <= i < cmps@.len() ==> r <= (#[trigger] cmps@[i]).y,
        cmps@.len() > 0 ==> exists|i: int| 0 <= i < cmps@.len() && (#[trigger] cmps@[i]).y == r,
        cmps@.len() == 0 ==> r == EMPTY_MIN_Y,
{
    let n = cmps.len();
    let mut r: i64 = EMPTY_MIN_Y;
    let mut j: usize = 0;
    while j < n
        invariant
            n == cmps@.len(),
            j <= n,
            forall|i: int| 0 <= i < cmps@.len() ==> -9999 <= (#[trigger] cmps@[i]).y <= 9999,
            forall|i: int| 0 <= i < j ==> r <= (#[trigger] cmps@[i]).y,
            j > 0 ==> exists|i: int| 0 <= i < j && (#[trigger] cmps@[i]).y == r,
            j == 0 ==> r == EMPTY_MIN_Y,
        decreases n - j,
    {
        if cmps[j].y < r {
            r = cmps[j].y;
        }
        j += 1;
    }
    r
}

/// Largest `y` among the blocks, or [`EMPTY_MAX_Y`] when there are none.
pub fn get_max_y(cmps: &Vec<Block>) -> (r: i64)
    requires
        forall|i: int|
            0 <= i < cmps@.len() ==> -9999 <= (#[trigger] cmps@[i]).y <= 9999,
    ensures
        forall|i: int| 0 <= i < cmps@.len() ==> r >= (#[trigger] cmps@[i]).y,
        cmps@.len() > 0 ==> exists|i: int| 0 <= i < cmps@.len() && (#[trigger] cmps@[i]).y == r,
        cmps@.len() == 0 ==> r == EMPTY_MAX_Y,
{
    let n = cmps.len();
    let mut r: i64 = EMPTY_MAX_Y;
    let mut j: usize = 0;
    while j < n
        invariant
            n == cmps@.len(),
            j <= n,
            forall|i: int| 0 <= i < cmps@.len() ==> -9999 <= (#[trigger] cmps@[i]).y <= 9999,
            forall|i: int| 0 <= i < j ==> r >= (#[trigger] cmps@[i]).y,
            j > 0 ==> exists|i: int| 0 <= i < j && (#[trigger] cmps@[i]).y == r,
            j == 0 ==> r == EMPTY_MAX_Y,
        decreases n - j,
    {
        if cmps[j].y > r {
            r = cmps[j].y;
        }
        j += 1;
    }
    r
}

/// The blocks of `s` translated one step in `x`; `s` itself when the step is
/// refused because a block already sits at (or beyond) the wall `limit`.
pub open spec fn spec_move_x(s: Seq<Block>, step: int, limit: int) -> Seq<Block> {
    if step > 0 && exists|i: int| 0 <= i < s.len() && (#[trigger] s[i]).x >= limit {
        s
    } else if step < 0 && exists|i: int| 0 <= i < s.len() && (#[trigger] s[i]).x <= limit {
        s
    } else {
        s.map_values(
            |b: Block| Block { x: (b.x + step) as i64, y: b.y, width: b.width, height: b.height },
        )
    }
}

/// The blocks of `s` translated one step down; `s` itself when a block
/// already rests on the floor.
pub open spec fn spec_move_down(s: Seq<Block>) -> Seq<Block> {
    if exists|i: int| 0 <= i < s.len() && (#[trigger] s[i]).y <= Y_MIN {
        s
    } else {
        s.map_values(
            |b: Block| Block { x: b.x, y: (b.y - CELL) as i64, width: b.width, height: b.height },
        )
    }
}

/// `b` rotated a quarter turn clockwise about the corner of the pivot block `p`.
pub open spec fn rot_block(p: Block, b: Block) -> Block {
    Block {
        x: (p.x + (b.y - p.y)) as i64,
        y: (p.y - (b.x - p.x)) as i64,
        width: b.width,
        height: b.height,
    }
}

/// The blocks of `s` rotated a quarter turn clockwise about the first block,
/// which acts as the piece's pivot and stays in place.
pub open spec fn spec_rotate(s: Seq<Block>) -> Seq<Block> {
    if s.len() == 0 {
        s
    } else {
        s.map_values(|b: Block| rot_block(s[0], b))
    }
}

impl Piece {
    /// Move one step right unless a block already sits at or beyond the right
    /// wall; a refused move is a silent no-op. Never leaves the board.
    pub fn move_right(&mut self)
        requires
            old(self).wf(),
            old(self).in_board(),
        ensures
            final(self).wf(),
            final(self).in_board(),
            final(self).components@ == spec_move_x(old(self).components@, CELL as int, X_MAX as int),
            final(self).color == old(self).color,
            final(self).min_y == old(self).min_y,
            final(self).max_y == old(self).max_y,
    {
        let n = self.components.len();
        let mut j: usize = 0;
        while j < n
            invariant
                n == self.components@.len(),
                j <= n,
                self == old(self),
                old(self).wf(),
                old(self).in_board(),
                forall|i: int| 0 <= i < j ==> (#[trigger] self.components@[i]).x < X_MAX,
            decreases n - j,
        {
            if self.components[j].x >= X_MAX {
                return ;
            }
            j += 1;
        }
        let mut cs: Vec<Block> = Vec::new();
        let mut k: usize = 0;
        while k < n
            invariant
                n == self.components@.len(),
                k <= n,
                self.wf(),
                self.in_board(),
                forall|i: int| 0 <= i < n ==> (#[trigger] self.components@[i]).x < X_MAX,
                cs@.len() == k,
                forall|i: int|
                    0 <= i < k ==> #[trigger] cs@[i] == (Block {
                        x: (self.components@[i].x + CELL) as i64,
                        y: self.components@[i].y,
                        width: self.components@[i].width,
                        height: self.components@[i].height,
                    }),
            decreases n - k,
        {
            let b = self.components[k];
            cs.push(Block { x: b.x + CELL, y: b.y, width: b.width, height: b.height });
            k += 1;
        }
        proof {
            assert(cs@ =~= spec_move_x(self.components@, CELL as int, X_MAX as int));
        }
        self.components = cs;
        proof {
            if self.components@.len() > 0 {
                let w = choose|i: int|
                    0 <= i < old(self).components@.len() && old(self).components@[i].y
                        == old(self).min_y;
                assert(self.components@[w].y == self.min_y);
                let v = choose|i: int|
                    0 <= i < old(self).components@.len() && old(self).components@[i].y
                        == old(self).max_y;
                assert(self.components@[v].y == self.max_y);
            }
        }
    }

    /// Move one step left unless a block already sits at or beyond the left
    /// wall; a refused move is a silent no-op. Never leaves the board.
    pub fn move_left(&mut self)
        requires
            old(self).wf(),
            old(self).in_board(),
        ensures
            final(self).wf(),
            final(self).in_board(),
            final(self).components@ == spec_move_x(
                old(self).components@,
                -(CELL as int),
                X_MIN as int,
            ),
            final(self).color == old(self).color,
            final(self).min_y == old(self).min_y,
            final(self).max_y == old(self).max_y,
    {
        let n = self.components.len();
        let mut j: usize = 0;
        while j < n
            invariant
                n == self.components@.len(),
                j <= n,
                self == old(self),
                old(self).wf(),
                old(self).in_board(),
                forall|i: int| 0 <= i < j ==> (#[trigger] self.components@[i]).x > X_MIN,
            decreases n - j,
        {
            if self.components[j].x <= X_MIN {
                return ;
            }
            j += 1;
        }
        let mut cs: Vec<Block> = Vec::new();
        let mut k: usize = 0;
        while k < n
            invariant
                n == self.components@.len(),
                k <= n,
                self.wf(),
                self.in_board(),
                forall|i: int| 0 <= i < n ==> (#[trigger] self.components@[i]).x > X_MIN,
                cs@.len() == k,
                forall|i: int|
                    0 <= i < k ==> #[trigger] cs@[i] == (Block {
                        x: (self.components@[i].x - CELL) as i64,
                        y: self.components@[i].y,
                        width: self.components@[i].width,
                        height: self.components@[i].height,
                    }),
            decreases n - k,
        {
            let b = self.components[k];
            cs.push(Block { x: b.x - CELL, y: b.y, width: b.width, height: b.height });
            k += 1;
        }
        proof {
            assert(cs@ =~= spec_move_x(self.components@, -(CELL as int), X_MIN as int));
        }
        self.components = cs;
        proof {
            if self.components@.len() > 0 {
                let w = choose|i: int|
                    0 <= i < old(self).components@.len() && old(self).components@[i].y
                        == old(self).min_y;
                assert(self.components@[w].y == self.min_y);
                let v = choose|i: int|
                    0 <= i < old(self).components@.len() && old(self).components@[i].y
                        == old(self).max_y;
                assert(self.components@[v].y == self.max_y);
            }
        }
    }

    /// Move one step down unless a block already rests on the floor; a refused
    /// move is a silent no-op. Never leaves the board; the cached vertical
    /// bounds are recomputed after a successful move.
    pub fn move_down(&mut self)
        requires
            old(self).wf(),
            old(self).in_board(),
        ensures
            final(self).wf(),
            final(self).in_board(),
            final(self).components@ == spec_move_down(old(self).components@),
            final(self).color == old(self).color,
    {
        let n = self.components.len();
        let mut j: usize = 0;
        while j < n
            invariant
                n == self.components@.len(),
                j <= n,
                self == old(self),
                old(self).wf(),
                old(self).in_board(),
                forall|i: int| 0 <= i < j ==> (#[trigger] self.components@[i]).y > Y_MIN,
            decreases n - j,
        {
            if self.components[j].y <= Y_MIN {
                return ;
            }
            j += 1;
        }
        let mut cs: Vec<Block> = Vec::new();
        let mut k: usize = 0;
        while k < n
            invariant
                n == self.components@.len(),
                k <= n,
                self.wf(),
                self.in_board(),
                forall|i: int| 0 <= i < n ==> (#[trigger] self.components@[i]).y > Y_MIN,
                cs@.len() == k,
                forall|i: int|
                    0 <= i < k ==> #[trigger] cs@[i] == (Block {
                        x: self.components@[i].x,
                        y: (self.components@[i].y - CELL) as i64,
                        width: self.components@[i].width,
                        height: self.components@[i].height,
                    }),
            decreases n - k,
        {
            let b = self.components[k];
            cs.push(Block { x: b.x, y: b.y - CELL, width: b.width, height: b.height });
            k += 1;
        }
        proof {
            assert(cs@ =~= spec_move_down(self.components@));
        }
        self.components = cs;
        self.min_y = get_min_y(&self.components);
        self.max_y = get_max_y(&self.components);
    }

    /// Rotate a quarter turn clockwise about the first block, then recompute
    /// the cached bounds. Blocks stay on the lattice but may leave the board;
    /// callers commit a rotation only after checking bounds and collisions on
    /// a trial copy.
    #[verifier::rlimit(50)]
    pub fn rotate(&mut self)
        requires
            old(self).wf(),
            old(self).in_board(),
            old(self).components@.len() > 0,
        ensures
            final(self).wf(),
            final(self).components@ == spec_rotate(old(self).components@),
            final(self).color == old(self).color,
            forall|i: int|
                0 <= i < final(self).components@.len()
                    ==> -240 <= (#[trigger] final(self).components@[i]).x <= 240
                        && -240 <= (#[trigger] final(self).components@[i]).y <= 240,
    {
        let n = self.components.len();
        let p = self.components[0];
        let mut cs: Vec<Block> = Vec::new();
        let mut k: usize = 0;
        while k < n
            invariant
                n == self.components@.len(),
                n > 0,
                k <= n,
                self.wf(),
                self.in_board(),
                p == self.components@[0],
                cs@.len() == k,
                forall|i: int|
                    0 <= i < k ==> #[trigger] cs@[i] == rot_block(p, self.components@[i]),
                forall|i: int| 0 <= i < k ==> block_on_lattice(#[trigger] cs@[i]),
                forall|i: int|
                    0 <= i < k ==> -240 <= (#[trigger] cs@[i]).x <= 240 && -240 <= (
                    #[trigger] cs@[i]).y <= 240,
            decreases n - k,
        {
            let b = self.components[k];
            let nx = p.x + (b.y - p.y);
            let ny = p.y - (b.x - p.x);
            cs.push(Block { x: nx, y: ny, width: b.width, height: b.height });
            proof {
                vstd::arithmetic::div_mod::lemma_sub_mod_noop(b.y as int, p.y as int, 10);
                vstd::arithmetic::div_mod::lemma_add_mod_noop(
                    p.x as int,
                    b.y - p.y as int,
                    10,
                );
                vstd::arithmetic::div_mod::lemma_sub_mod_noop(b.x as int, p.x as int, 10);
                vstd::arithmetic::div_mod::lemma_sub_mod_noop(
                    p.y as int,
                    b.x - p.x as int,
                    10,
                );
                assert(nx % 10 == 0);
                assert(ny % 10 == 0);
            }
            k += 1;
        }
        proof {
            assert(cs@ =~= spec_rotate(self.components@));
        }
        self.components = cs;
        self.min_y = get_min_y(&self.components);
        self.max_y = get_max_y(&self.components);
    }
}

/// The block of the full-width reference line at column `c` of row `y`.
pub open spec fn line_block(c: int, y: int) -> Block {
    Block { x: (X_MIN + 10 * c) as i64, y: y as i64, width: CELL, height: CELL }
}

impl Piece {
    /// The I tetromino: a vertical bar of four blocks spawned at the top of
    /// the board in column 0.
    pub fn long() -> (r: Piece)
        ensures
            r.wf(),
            r.in_board(),
            r.components@ =~= seq![
                Block { x: 0, y: 90, width: 10, height: 10 },
                Block { x: 0, y: 80, width: 10, height: 10 },
                Block { x: 0, y: 70, width: 10, height: 10 },
                Block { x: 0, y: 60, width: 10, height: 10 },
            ],
            r.min_y == 60,
            r.max_y == 90,
            r.color == 0,
    {
        let mut cs: Vec<Block> = Vec::new();
        cs.push(Block::new(0, 90));
        cs.push(Block::new(0, 80));
        cs.push(Block::new(0, 70));
        cs.push(Block::new(0, 60));
        proof {
            assert(cs@.len() == 4);
            assert(cs@[0] == (Block { x: 0i64, y: 90, width: 10, height: 10 }));
            assert(cs@[1] == (Block { x: 0i64, y: 80, width: 10, height: 10 }));
            assert(cs@[2] == (Block { x: 0i64, y: 70, width: 10, height: 10 }));
            assert(cs@[3] == (Block { x: 0i64, y: 60, width: 10, height: 10 }));
        }
        Piece { color: 0, components: cs, min_y: 60, max_y: 90 }
    }

    /// The O tetromino: a two-by-two square spawned at the top of the board.
    pub fn square() -> (r: Piece)
        ensures
            r.wf(),
            r.in_board(),
            r.components@ =~= seq![
                Block { x: 0, y: 90, width: 10, height: 10 },
                Block { x: 10, y: 90, width: 10, height: 10 },
                Block { x: 0, y: 80, width: 10, height: 10 },
                Block { x: 10, y: 80, width: 10, height: 10 },
            ],
            r.min_y == 80,
            r.max_y == 90,
            r.color == 0,
    {
        let mut cs: Vec<Block> = Vec::new();
        cs.push(Block::new(0, 90));
        cs.push(Block::new(10, 90));
        cs.push(Block::new(0, 80));
        cs.push(Block::new(10, 80));
        proof {
            assert(cs@.len() == 4);
            assert(cs@[0] == (Block { x: 0i64, y: 90, width: 10, height: 10 }));
            assert(cs@[1] == (Block { x: 10i64, y: 90, width: 10, height: 10 }));
            assert(cs@[2] == (Block { x: 0i64, y: 80, width: 10, height: 10 }));
            assert(cs@[3] == (Block { x: 10i64, y: 80, width: 10, height: 10 }));
        }
        Piece { color: 0, components: cs, min_y: 80, max_y: 90 }
    }

    /// The T tetromino: a three-block top row with one block hanging below
    /// its middle, spawned at the top of the board.
    pub fn t_piece() -> (r: Piece)
        ensures
            r.wf(),
            r.in_board(),
            r.components@ =~= seq![
                Block { x: 0, y: 90, width: 10, height: 10 },
                Block { x: -10i64, y: 90, width: 10, height: 10 },
                Block { x: 10, y: 90, width: 10, height: 10 },
                Block { x: 0, y: 80, width: 10, height: 10 },
            ],
            r.min_y == 80,
            r.max_y == 90,
            r.color == 0,
    {
        let mut cs: Vec<Block> = Vec::new();
        cs.push(Block::new(0, 90));
        cs.push(Block::new(-10, 90));
        cs.push(Block::new(10, 90));
        cs.push(Block::new(0, 80));
        proof {
            assert(cs@.len() == 4);
            assert(cs@[0] == (Block { x: 0i64, y: 90, width: 10, height: 10 }));
            assert(cs@[1] == (Block { x: -10i64, y: 90, width: 10, height: 10 }));
            assert(cs@[2] == (Block { x: 10i64, y: 90, width: 10, height: 10 }));
            assert(cs@[3] == (Block { x: 0i64, y: 80, width: 10, height: 10 }));
        }
        Piece { color: 0, components: cs, min_y: 80, max_y: 90 }
    }

    /// The L tetromino: a vertical bar of three blocks with one block to the
    /// right of its top, spawned at the top of the board.
    pub fn l_piece() -> (r: Piece)
        ensures
            r.wf(),
            r.in_board(),
            r.components@ =~= seq![
                Block { x: 0, y: 90, width: 10, height: 10 },
                Block { x: 10, y: 90, width: 10, height: 10 },
                Block { x: 0, y: 80, width: 10, height: 10 },
                Block { x: 0, y: 70, width: 10, height: 10 },
            ],
            r.min_y == 70,
            r.max_y == 90,
            r.color == 0,
    {
        let mut cs: Vec<Block> = Vec::new();
        cs.push(Block::new(0, 90));
        cs.push(Block::new(10, 90));
        cs.push(Block::new(0, 80));
        cs.push(Block::new(0, 70));
        proof {
            assert(cs@.len() == 4);
            assert(cs@[0] == (Block { x: 0i64, y: 90, width: 10, height: 10 }));
            assert(cs@[1] == (Block { x: 10i64, y: 90, width: 10, height: 10 }));
            assert(cs@[2] == (Block { x: 0i64, y: 80, width: 10, height: 10 }));
            assert(cs@[3] == (Block { x: 0i64, y: 70, width: 10, height: 10 }));
        }
        Piece { color: 0, components: cs, min_y: 70, max_y: 90 }
    }

    /// The full-width reference line at row `y`: one block in every column.
    /// Used only as a scanning template for row-completion testing, never as
    /// a playable or settled piece.
    pub fn whole_line(y: i64) -> (r: Piece)
        requires
            Y_MIN <= y <= Y_MAX,
            y % 10 == 0,
        ensures
            r.wf(),
            r.in_board(),
            r.components@.len() == N_COLS,
            forall|c: int| 0 <= c < N_COLS ==> #[trigger] r.components@[c] == line_block(c, y as int),
            r.min_y == y,
            r.max_y == y,
            r.color == 0,
    {
        let mut cs: Vec<Block> = Vec::new();
        cs.push(Block::new(-60, y));
        cs.push(Block::new(-50, y));
        cs.push(Block::new(-40, y));
        cs.push(Block::new(-30, y));
        cs.push(Block::new(-20, y));
        cs.push(Block::new(-10, y));
        cs.push(Block::new(0, y));
        cs.push(Block::new(10, y));
        cs.push(Block::new(20, y));
        cs.push(Block::new(30, y));
        cs.push(Block::new(40, y));
        cs.push(Block::new(50, y));
        proof {
            assert(cs@.len() == 12);
            assert forall|c: int|
                0 <= c < 12 implies #[trigger] cs@[c] == line_block(c, y as int)
                    && block_on_lattice(cs@[c]) && block_in_board(cs@[c]) && cs@[c].y == y by {
                assert(cs@[0] == (Block { x: -60i64, y: y, width: 10, height: 10 }));
                assert(cs@[1] == (Block { x: -50i64, y: y, width: 10, height: 10 }));
                assert(cs@[2] == (Block { x: -40i64, y: y, width: 10, height: 10 }));
                assert(cs@[3] == (Block { x: -30i64, y: y, width: 10, height: 10 }));
                assert(cs@[4] == (Block { x: -20i64, y: y, width: 10, height: 10 }));
                assert(cs@[5] == (Block { x: -10i64, y: y, width: 10, height: 10 }));
                assert(cs@[6] == (Block { x: 0i64, y: y, width: 10, height: 10 }));
                assert(cs@[7] == (Block { x: 10i64, y: y, width: 10, height: 10 }));
                assert(cs@[8] == (Block { x: 20i64, y: y, width: 10, height: 10 }));
                assert(cs@[9] == (Block { x: 30i64, y: y, width: 10, height: 10 }));
                assert(cs@[10] == (Block { x: 40i64, y: y, width: 10, height: 10 }));
                assert(cs@[11] == (Block { x: 50i64, y: y, width: 10, height: 10 }));
            }
            assert(cs@[0].y == y);
        }
        Piece { color: 0, components: cs, min_y: y, max_y: y }
    }
}

impl Clone for Piece {
    /// A clone has the same blocks, color and cached bounds.
    fn clone(&self) -> (r: Self)
        ensures
            r.components@ == self.components@,
            r.color == self.color,
            r.min_y == self.min_y,
            r.max_y == self.max_y,
    {
        let n = self.components.len();
        let mut cs: Vec<Block> = Vec::new();
        let mut j: usize = 0;
        while j < n
            invariant
                n == self.components@.len(),
                j <= n,
                cs@ == self.components@.take(j as int),
            decreases n - j,
        {
            cs.push(self.components[j]);
            proof {
                assert(cs@ =~= self.components@.take(j + 1 as int));
            }
            j += 1;
        }
        proof {
            assert(cs@ =~= self.components@);
        }
        Piece { color: self.color, components: cs, min_y: self.min_y, max_y: self.max_y }
    }
}

} // verus!
