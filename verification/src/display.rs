//! The sprite engine: XOR-compositing draw onto the 64x32 framebuffer with
//! per-pixel collision detection. The starting column and row wrap; inside a
//! sprite, pixels past the screen edge clip by default and wrap only under
//! the wrap quirk. The draw is specified pointwise: a cell flips exactly when
//! some set sprite bit lands on it, and a collision is a set bit landing on a
//! cell that is already on.

use vstd::prelude::*;
use crate::state::Chip8State;
use crate::state::StateView;

verus! {

/// Place value of sprite bit `j`, counted from the leftmost (most
/// significant) bit of a row byte.
pub open spec fn col_weight(j: int) -> int {
    if j == 0 {
        128
    } else if j == 1 {
        64
    } else if j == 2 {
        32
    } else if j == 3 {
        16
    } else if j == 4 {
        8
    } else if j == 5 {
        4
    } else if j == 6 {
        2
    } else {
        1
    }
}

/// True if bit `j` (from the left) of a sprite row byte is set.
pub open spec fn bit_of(b: u8, j: int) -> bool {
    (b as int / col_weight(j)) % 2 == 1
}

/// The framebuffer cell that sprite bit `j` of sprite row `r` lands on, for
/// a sprite anchored at column `x0`, row `y0`: `None` when the pixel falls
/// past the screen edge and clips. Meaningful for `0 <= x0 < 64`,
/// `0 <= y0 < 32`, `0 <= r < 16`, `0 <= j < 8`.
pub open spec fn sprite_target(x0: int, y0: int, r: int, j: int, wrap: bool) -> Option<int> {
    let col = x0 + j;
    let row = y0 + r;
    if wrap {
        let c = if col < 64 { col } else { col - 64 };
        let rw = if row < 32 { row } else { row - 32 };
        Some(rw * 64 + c)
    } else {
        if col < 64 && row < 32 {
            Some(row * 64 + col)
        } else {
            None
        }
    }
}

/// True if sprite bit `j` of row `r` is set and lands on cell `p`.
pub open spec fn hits(sprite: Seq<u8>, x0: int, y0: int, wrap: bool, r: int, j: int, p: int) -> bool {
    bit_of(sprite[r], j) && sprite_target(x0, y0, r, j, wrap) == Some(p)
}

/// True if any set bit of the sprite lands on cell `p`: the draw flips
/// exactly these cells.
pub open spec fn covers(sprite: Seq<u8>, x0: int, y0: int, wrap: bool, p: int) -> bool {
    exists|r: int, j: int|
        0 <= r < sprite.len() && 0 <= j < 8 && #[trigger] hits(sprite, x0, y0, wrap, r, j, p)
}

/// True if a set bit among those strictly before row `r`, bit `j` (rows
/// first, then bits left to right) lands on cell `p`.
pub open spec fn covers_upto(sprite: Seq<u8>, x0: int, y0: int, wrap: bool, r: int, j: int, p: int) -> bool {
    exists|r2: int, j2: int|
        0 <= r2 < sprite.len() && 0 <= j2 < 8 && (r2 < r || (r2 == r && j2 < j))
            && #[trigger] hits(sprite, x0, y0, wrap, r2, j2, p)
}

/// The framebuffer after XOR-compositing the sprite: each covered cell
/// flips, every other cell keeps its state.
pub open spec fn draw_fb(fb: Seq<bool>, sprite: Seq<u8>, x0: int, y0: int, wrap: bool) -> Seq<bool> {
    Seq::new(fb.len(), |p: int| fb[p] != covers(sprite, x0, y0, wrap, p))
}

/// True if the draw collides: some set sprite bit lands on a cell that is
/// already on.
pub open spec fn draw_collides(fb: Seq<bool>, sprite: Seq<u8>, x0: int, y0: int, wrap: bool) -> bool {
    exists|p: int| 0 <= p < fb.len() && #[trigger] covers(sprite, x0, y0, wrap, p) && fb[p]
}

/// Processing bit `j` of row `r` extends the covered-so-far cells by the
/// cell this bit lands on, if it is set and lands on screen.
proof fn lemma_covers_upto_step(sprite: Seq<u8>, x0: int, y0: int, wrap: bool, r: int, j: int, p: int)
    requires
        0 <= r,
        0 <= j < 8,
    ensures
        covers_upto(sprite, x0, y0, wrap, r, j + 1, p) == (covers_upto(sprite, x0, y0, wrap, r, j, p)
            || (r < sprite.len() && hits(sprite, x0, y0, wrap, r, j, p))),
{
    if covers_upto(sprite, x0, y0, wrap, r, j + 1, p) {
        let (r2, j2): (int, int) = choose|r2: int, j2: int|
            0 <= r2 < sprite.len() && 0 <= j2 < 8 && (r2 < r || (r2 == r && j2 < j + 1))
                && #[trigger] hits(sprite, x0, y0, wrap, r2, j2, p);
        if r2 < r || (r2 == r && j2 < j) {
            assert(covers_upto(sprite, x0, y0, wrap, r, j, p));
        } else {
            assert(r2 == r && j2 == j);
        }
    }
    if covers_upto(sprite, x0, y0, wrap, r, j, p) {
        let (r2, j2): (int, int) = choose|r2: int, j2: int|
            0 <= r2 < sprite.len() && 0 <= j2 < 8 && (r2 < r || (r2 == r && j2 < j))
                && #[trigger] hits(sprite, x0, y0, wrap, r2, j2, p);
        assert(covers_upto(sprite, x0, y0, wrap, r, j + 1, p));
    }
    if r < sprite.len() && hits(sprite, x0, y0, wrap, r, j, p) {
        assert(covers_upto(sprite, x0, y0, wrap, r, j + 1, p));
    }
}

/// Finishing the eight bits of row `r` is the same as standing at the start
/// of row `r + 1`.
proof fn lemma_covers_upto_row_end(sprite: Seq<u8>, x0: int, y0: int, wrap: bool, r: int, p: int)
    requires
        0 <= r,
    ensures
        covers_upto(sprite, x0, y0, wrap, r, 8, p) == covers_upto(sprite, x0, y0, wrap, r + 1, 0, p),
{
    if covers_upto(sprite, x0, y0, wrap, r, 8, p) {
        let (r2, j2): (int, int) = choose|r2: int, j2: int|
            0 <= r2 < sprite.len() && 0 <= j2 < 8 && (r2 < r || (r2 == r && j2 < 8))
                && #[trigger] hits(sprite, x0, y0, wrap, r2, j2, p);
        assert(r2 < r + 1);
        assert(covers_upto(sprite, x0, y0, wrap, r + 1, 0, p));
    }
    if covers_upto(sprite, x0, y0, wrap, r + 1, 0, p) {
        let (r2, j2): (int, int) = choose|r2: int, j2: int|
            0 <= r2 < sprite.len() && 0 <= j2 < 8 && (r2 < r + 1 || (r2 == r + 1 && j2 < 0))
                && #[trigger] hits(sprite, x0, y0, wrap, r2, j2, p);
        assert(covers_upto(sprite, x0, y0, wrap, r, 8, p));
    }
}

/// Once every row is processed, the covered-so-far cells are exactly the
/// covered cells of the whole sprite.
proof fn lemma_covers_upto_full(sprite: Seq<u8>, x0: int, y0: int, wrap: bool, p: int)
    ensures
        covers_upto(sprite, x0, y0, wrap, sprite.len() as int, 0, p) == covers(sprite, x0, y0, wrap, p),
{
    if covers_upto(sprite, x0, y0, wrap, sprite.len() as int, 0, p) {
        let (r2, j2): (int, int) = choose|r2: int, j2: int|
            0 <= r2 < sprite.len() && 0 <= j2 < 8 && (r2 < sprite.len() || (r2 == sprite.len() && j2 < 0))
                && #[trigger] hits(sprite, x0, y0, wrap, r2, j2, p);
        assert(covers(sprite, x0, y0, wrap, p));
    }
    if covers(sprite, x0, y0, wrap, p) {
        let (r2, j2): (int, int) = choose|r2: int, j2: int|
            0 <= r2 < sprite.len() && 0 <= j2 < 8 && #[trigger] hits(sprite, x0, y0, wrap, r2, j2, p);
        assert(covers_upto(sprite, x0, y0, wrap, sprite.len() as int, 0, p));
    }
}

/// Distinct bit positions of a short sprite land on distinct cells: within
/// one draw no framebuffer cell is touched twice.
proof fn lemma_target_injective(x0: int, y0: int, wrap: bool, r1: int, j1: int, r2: int, j2: int)
    requires
        0 <= x0 < 64,
        0 <= y0 < 32,
        0 <= r1 < 16,
        0 <= j1 < 8,
        0 <= r2 < 16,
        0 <= j2 < 8,
        sprite_target(x0, y0, r1, j1, wrap) is Some,
        sprite_target(x0, y0, r1, j1, wrap) == sprite_target(x0, y0, r2, j2, wrap),
    ensures
        r1 == r2 && j1 == j2,
{
}

/// The cell a set bit is about to flip was not touched earlier in the same
/// draw.
proof fn lemma_not_covered_before(sprite: Seq<u8>, x0: int, y0: int, wrap: bool, r: int, j: int, p: int)
    requires
        0 <= x0 < 64,
        0 <= y0 < 32,
        sprite.len() <= 15,
        0 <= r < sprite.len(),
        0 <= j < 8,
        sprite_target(x0, y0, r, j, wrap) == Some(p),
    ensures
        !covers_upto(sprite, x0, y0, wrap, r, j, p),
{
    if covers_upto(sprite, x0, y0, wrap, r, j, p) {
        let (r2, j2): (int, int) = choose|r2: int, j2: int|
            0 <= r2 < sprite.len() && 0 <= j2 < 8 && (r2 < r || (r2 == r && j2 < j))
                && #[trigger] hits(sprite, x0, y0, wrap, r2, j2, p);
        lemma_target_injective(x0, y0, wrap, r, j, r2, j2);
    }
}

/// Drawing the same sprite twice at the same anchor restores the
/// framebuffer exactly: the XOR composite is its own inverse.
pub proof fn lemma_draw_twice_restores(fb: Seq<bool>, sprite: Seq<u8>, x0: int, y0: int, wrap: bool)
    ensures
        draw_fb(draw_fb(fb, sprite, x0, y0, wrap), sprite, x0, y0, wrap) == fb,
{
    let once = draw_fb(fb, sprite, x0, y0, wrap);
    let twice = draw_fb(once, sprite, x0, y0, wrap);
    assert forall|p: int| 0 <= p < fb.len() implies twice[p] == fb[p] by {
        assert(once[p] == (fb[p] != covers(sprite, x0, y0, wrap, p)));
    }
    assert(twice =~= fb);
}

/// Repeating a draw collides exactly when the first draw turned some cell
/// on: after the first pass every covered cell holds the opposite of its
/// original state, so the repeat finds a lit cell precisely where the
/// original framebuffer was dark under a set sprite bit.
pub proof fn lemma_second_draw_collision(fb: Seq<bool>, sprite: Seq<u8>, x0: int, y0: int, wrap: bool)
    ensures
        draw_collides(draw_fb(fb, sprite, x0, y0, wrap), sprite, x0, y0, wrap)
            == exists|p: int| 0 <= p < fb.len() && #[trigger] covers(sprite, x0, y0, wrap, p) && !fb[p],
{
    let once = draw_fb(fb, sprite, x0, y0, wrap);
    if draw_collides(once, sprite, x0, y0, wrap) {
        let p = choose|p: int| 0 <= p < once.len() && #[trigger] covers(sprite, x0, y0, wrap, p) && once[p];
        assert(covers(sprite, x0, y0, wrap, p) && !fb[p]);
    }
    if exists|p: int| 0 <= p < fb.len() && #[trigger] covers(sprite, x0, y0, wrap, p) && !fb[p] {
        let p = choose|p: int| 0 <= p < fb.len() && #[trigger] covers(sprite, x0, y0, wrap, p) && !fb[p];
        assert(once[p]);
        assert(draw_collides(once, sprite, x0, y0, wrap));
    }
}

/// Place value of sprite bit `j`, as executable code.
fn bit_weight(j: usize) -> (w: u8)
    requires
        j < 8,
    ensures
        w as int == col_weight(j as int),
        w > 0,
{
    match j {
        0 => 128,
        1 => 64,
        2 => 32,
        3 => 16,
        4 => 8,
        5 => 4,
        6 => 2,
        _ => 1,
    }
}

/// The framebuffer cell sprite bit `(r, j)` lands on, as executable code.
fn target_cell(x0: usize, y0: usize, r: usize, j: usize, wrap: bool) -> (t: Option<usize>)
    requires
        x0 < 64,
        y0 < 32,
        r < 16,
        j < 8,
    ensures
        match t {
            Some(p) => p < 2048 && sprite_target(x0 as int, y0 as int, r as int, j as int, wrap)
                == Some(p as int),
            None => sprite_target(x0 as int, y0 as int, r as int, j as int, wrap) is None,
        },
{
    let col = x0 + j;
    let row = y0 + r;
    if wrap {
        let c = if col < 64 { col } else { col - 64 };
        let rw = if row < 32 { row } else { row - 32 };
        Some(rw * 64 + c)
    } else {
        if col < 64 && row < 32 {
            Some(row * 64 + col)
        } else {
            None
        }
    }
}

/// XOR-composites the sprite rows onto the framebuffer and reports whether
/// any set bit landed on a lit cell.
pub(crate) fn draw_rows(fb: &mut Vec<bool>, sprite: &Vec<u8>, x0: usize, y0: usize, wrap: bool) -> (collided: bool)
    requires
        old(fb)@.len() == 2048,
        sprite@.len() <= 15,
        x0 < 64,
        y0 < 32,
    ensures
        final(fb)@ == draw_fb(old(fb)@, sprite@, x0 as int, y0 as int, wrap),
        collided == draw_collides(old(fb)@, sprite@, x0 as int, y0 as int, wrap),
{
    let ghost fb0 = old(fb)@;
    let ghost s = sprite@;
    let ghost gx = x0 as int;
    let ghost gy = y0 as int;
    let n = sprite.len();
    let mut collided = false;
    let mut r: usize = 0;
    while r < n
        invariant
            r <= n,
            n == s.len(),
            n <= 15,
            x0 < 64,
            y0 < 32,
            gx == x0 as int,
            gy == y0 as int,
            s == sprite@,
            fb0.len() == 2048,
            fb@.len() == 2048,
            forall|p: int| 0 <= p < 2048 ==> fb@[p] == (fb0[p] != covers_upto(s, gx, gy, wrap, r as int, 0, p)),
            collided == exists|p: int| 0 <= p < 2048 && #[trigger] covers_upto(s, gx, gy, wrap, r as int, 0, p) && fb0[p],
        decreases n - r,
    {
        let byte = sprite[r];
        let mut j: usize = 0;
        while j < 8
            invariant
                j <= 8,
                r < n,
                n == s.len(),
                n <= 15,
                x0 < 64,
                y0 < 32,
                gx == x0 as int,
                gy == y0 as int,
                s == sprite@,
                byte == s[r as int],
                fb0.len() == 2048,
                fb@.len() == 2048,
                forall|p: int| 0 <= p < 2048 ==> fb@[p] == (fb0[p] != covers_upto(s, gx, gy, wrap, r as int, j as int, p)),
                collided == exists|p: int| 0 <= p < 2048 && #[trigger] covers_upto(s, gx, gy, wrap, r as int, j as int, p) && fb0[p],
            decreases 8 - j,
        {
            let ghost gr = r as int;
            let ghost gj = j as int;
            let bit = (byte / bit_weight(j)) % 2 == 1;
            if bit {
                match target_cell(x0, y0, r, j, wrap) {
                    Some(p) => {
                        proof {
                            lemma_not_covered_before(s, gx, gy, wrap, gr, gj, p as int);
                        }
                        let prev = fb[p];
                        let was_collided = collided;
                        if prev {
                            collided = true;
                        }
                        fb.set(p, !prev);
                        proof {
                            assert(hits(s, gx, gy, wrap, gr, gj, p as int));
                            assert forall|q: int| 0 <= q < 2048 implies fb@[q] == (fb0[q]
                                != covers_upto(s, gx, gy, wrap, gr, gj + 1, q)) by {
                                lemma_covers_upto_step(s, gx, gy, wrap, gr, gj, q);
                                if q == p as int {
                                    assert(covers_upto(s, gx, gy, wrap, gr, gj + 1, q));
                                } else {
                                    assert(hits(s, gx, gy, wrap, gr, gj, q)
                                        ==> sprite_target(gx, gy, gr, gj, wrap) == Some(q));
                                    assert(!hits(s, gx, gy, wrap, gr, gj, q));
                                }
                            }
                            if was_collided {
                                let q = choose|q: int| 0 <= q < 2048
                                    && #[trigger] covers_upto(s, gx, gy, wrap, gr, gj, q) && fb0[q];
                                lemma_covers_upto_step(s, gx, gy, wrap, gr, gj, q);
                                assert(covers_upto(s, gx, gy, wrap, gr, gj + 1, q) && fb0[q]);
                            }
                            if prev {
                                lemma_covers_upto_step(s, gx, gy, wrap, gr, gj, p as int);
                                assert(covers_upto(s, gx, gy, wrap, gr, gj + 1, p as int) && fb0[p as int]);
                            }
                            if !collided {
                                assert forall|q: int| 0 <= q < 2048
                                    && #[trigger] covers_upto(s, gx, gy, wrap, gr, gj + 1, q) implies !fb0[q] by {
                                    lemma_covers_upto_step(s, gx, gy, wrap, gr, gj, q);
                                    if covers_upto(s, gx, gy, wrap, gr, gj, q) {
                                        assert(!fb0[q]);
                                    } else {
                                        assert(hits(s, gx, gy, wrap, gr, gj, q));
                                        assert(q == p as int);
                                    }
                                }
                            }
                            assert(collided == exists|q: int| 0 <= q < 2048
                                && #[trigger] covers_upto(s, gx, gy, wrap, gr, gj + 1, q) && fb0[q]);
                        }
                    },
                    None => {
                        proof {
                            assert forall|q: int| 0 <= q < 2048 implies covers_upto(s, gx, gy, wrap, gr, gj + 1, q)
                                == covers_upto(s, gx, gy, wrap, gr, gj, q) by {
                                lemma_covers_upto_step(s, gx, gy, wrap, gr, gj, q);
                            }
                        }
                    },
                }
            } else {
                proof {
                    assert forall|q: int| 0 <= q < 2048 implies covers_upto(s, gx, gy, wrap, gr, gj + 1, q)
                        == covers_upto(s, gx, gy, wrap, gr, gj, q) by {
                        lemma_covers_upto_step(s, gx, gy, wrap, gr, gj, q);
                        assert(!bit_of(s[gr], gj));
                    }
                }
            }
            j += 1;
        }
        proof {
            assert forall|q: int| 0 <= q < 2048 implies covers_upto(s, gx, gy, wrap, r as int, 8, q)
                == covers_upto(s, gx, gy, wrap, r as int + 1, 0, q) by {
                lemma_covers_upto_row_end(s, gx, gy, wrap, r as int, q);
            }
        }
        r += 1;
    }
    proof {
        assert forall|q: int| 0 <= q < 2048 implies covers_upto(s, gx, gy, wrap, n as int, 0, q)
            == covers(s, gx, gy, wrap, q) by {
            lemma_covers_upto_full(s, gx, gy, wrap, q);
        }
        assert(fb@ =~= draw_fb(fb0, s, gx, gy, wrap));
    }
    collided
}

impl Chip8State {
    /// XOR-composites a sprite onto the framebuffer, anchored at column
    /// `x % 64`, row `y % 32`, and marks the framebuffer dirty; reports
    /// whether any set sprite bit landed on a lit cell.
    pub fn draw_sprite(&mut self, x: u8, y: u8, sprite: &Vec<u8>) -> (collided: bool)
        requires
            old(self)@.wf(),
            sprite@.len() <= 15,
        ensures
            final(self)@ == (StateView {
                fb: draw_fb(old(self)@.fb, sprite@, (x % 64) as int, (y % 32) as int, old(self)@.sprite_wrap),
                fb_dirty: true,
                ..old(self)@
            }),
            collided == draw_collides(old(self)@.fb, sprite@, (x % 64) as int, (y % 32) as int, old(self)@.sprite_wrap),
            final(self)@.wf(),
    {
        let x0 = (x % 64) as usize;
        let y0 = (y % 32) as usize;
        let wrap = self.sprite_wrap;
        let collided = draw_rows(&mut self.fb, sprite, x0, y0, wrap);
        self.fb_dirty = true;
        collided
    }
}

} // verus!
