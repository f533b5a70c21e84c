//! Sprite drawing: the pixel-level meaning of the draw opcode, the
//! verified blitting loop, and the XOR involution law (drawing the same
//! sprite twice restores the display).

use vstd::prelude::*;

use vstd::arithmetic::div_mod::{lemma_fundamental_div_mod, lemma_mod_multiples_vanish, lemma_small_mod};

use crate::display::pix_index;

verus! {

/// Whether bit `dx` (most significant first) of sprite byte `b` is set.
pub open spec fn sprite_bit(b: u8, dx: int) -> bool {
    (b >> ((7 - dx) as u8)) & 1 == 1
}

/// Boolean exclusive or.
pub open spec fn xor_b(a: bool, b: bool) -> bool {
    a != b
}

/// The display after the first `dy_done` sprite rows, plus the first
/// `dx_done` bits of row `dy_done`, have been painted: a pixel covered by
/// that processed part is XORed with (or, without XOR semantics, replaced
/// by) its sprite bit; every other pixel keeps its value. A pixel at flat
/// index `p` is covered by sprite position (`dy`, `dx`) exactly when its
/// column is `x0 + dx` modulo 64 and its row is `y0 + dy` modulo 32.
pub open spec fn spec_draw_partial(
    d: Seq<bool>,
    ram: Seq<u8>,
    base: int,
    n: int,
    x0: int,
    y0: int,
    xor: bool,
    dy_done: int,
    dx_done: int,
) -> Seq<bool> {
    Seq::new(2048, |p: int| {
        let dx = (p % 64 - x0) % 64;
        let dy = (p / 64 - y0) % 32;
        if dx < 8 && dy < n && (dy < dy_done || (dy == dy_done && dx < dx_done)) {
            if xor {
                xor_b(d[p], sprite_bit(ram[base + dy], dx))
            } else {
                sprite_bit(ram[base + dy], dx)
            }
        } else {
            d[p]
        }
    })
}

/// The display after the whole `n`-row sprite at memory address `base`
/// has been painted with its top-left corner at (`x0`, `y0`).
pub open spec fn spec_draw_screen(
    d: Seq<bool>,
    ram: Seq<u8>,
    base: int,
    n: int,
    x0: int,
    y0: int,
    xor: bool,
) -> Seq<bool> {
    Seq::new(2048, |p: int| {
        let dx = (p % 64 - x0) % 64;
        let dy = (p / 64 - y0) % 32;
        if dx < 8 && dy < n {
            if xor {
                xor_b(d[p], sprite_bit(ram[base + dy], dx))
            } else {
                sprite_bit(ram[base + dy], dx)
            }
        } else {
            d[p]
        }
    })
}

/// Whether painting the sprite turns some pixel from on to off: a set
/// sprite bit lands on a pixel that is already on.
pub open spec fn spec_draw_collision(
    d: Seq<bool>,
    ram: Seq<u8>,
    base: int,
    n: int,
    x0: int,
    y0: int,
) -> bool {
    exists|dy: int, dx: int|
        #![trigger sprite_bit(ram[base + dy], dx)]
        0 <= dy < n && 0 <= dx < 8 && sprite_bit(ram[base + dy], dx)
            && d[pix_index(x0 + dx, y0 + dy)]
}

/// The collision test restricted to the processed part of the sprite, as
/// in `spec_draw_partial`.
pub open spec fn spec_draw_collision_partial(
    d: Seq<bool>,
    ram: Seq<u8>,
    base: int,
    n: int,
    x0: int,
    y0: int,
    dy_done: int,
    dx_done: int,
) -> bool {
    exists|dy: int, dx: int|
        #![trigger sprite_bit(ram[base + dy], dx)]
        0 <= dy < n && 0 <= dx < 8 && (dy < dy_done || (dy == dy_done && dx < dx_done))
            && sprite_bit(ram[base + dy], dx) && d[pix_index(x0 + dx, y0 + dy)]
}

/// Subtracting the origin from a wrapped coordinate, modulo the wrap,
/// recovers the offset: `((x0 + dx) % w - x0) % w == dx` for `dx < w`.
proof fn lemma_wrap_off(x0: int, dx: int, w: int)
    requires
        0 <= x0,
        0 <= dx < w,
        0 < w,
    ensures
        ((x0 + dx) % w - x0) % w == dx,
{
    lemma_fundamental_div_mod(x0 + dx, w);
    let q = (x0 + dx) / w;
    assert((x0 + dx) % w - x0 == dx - w * q);
    lemma_mod_multiples_vanish(-q, dx, w);
    assert(w * (-q) == -(w * q)) by (nonlinear_arith);
    assert((dx - w * q) % w == dx % w);
    lemma_small_mod(dx as nat, w as nat);
}

/// A coordinate congruent to `x0 + dx` modulo the wrap, and within range,
/// is exactly the wrapped coordinate.
proof fn lemma_wrap_off_unique(x0: int, dx: int, w: int, px: int)
    requires
        0 <= x0,
        0 <= dx < w,
        0 <= px < w,
        0 < w,
        (px - x0) % w == dx,
    ensures
        px == (x0 + dx) % w,
{
    lemma_fundamental_div_mod(px - x0, w);
    let q = (px - x0) / w;
    assert(px == x0 + dx + w * q);
    lemma_mod_multiples_vanish(q, x0 + dx, w);
    assert(w * q + (x0 + dx) == px);
    assert(px % w == (x0 + dx) % w);
    lemma_small_mod(px as nat, w as nat);
}

/// The flat index of the pixel covered by sprite position (`dy`, `dx`)
/// lies in range, and its derived offsets are (`dy`, `dx`) again.
pub(crate) proof fn lemma_target_offsets(x0: int, y0: int, dx: int, dy: int)
    requires
        0 <= x0,
        0 <= y0,
        0 <= dx < 64,
        0 <= dy < 32,
    ensures
        0 <= pix_index(x0 + dx, y0 + dy) < 2048,
        (pix_index(x0 + dx, y0 + dy) % 64 - x0) % 64 == dx,
        (pix_index(x0 + dx, y0 + dy) / 64 - y0) % 32 == dy,
{
    let px = (x0 + dx) % 64;
    let py = (y0 + dy) % 32;
    let p = pix_index(x0 + dx, y0 + dy);
    assert(0 <= px < 64);
    assert(0 <= py < 32);
    assert(p == py * 64 + px);
    assert(p % 64 == px && p / 64 == py) by (nonlinear_arith)
        requires
            p == py * 64 + px,
            0 <= px < 64,
            0 <= py < 32,
    ;
    lemma_wrap_off(x0, dx, 64);
    lemma_wrap_off(y0, dy, 32);
}

/// A pixel whose derived offsets are (`dy`, `dx`) is the one covered by
/// sprite position (`dy`, `dx`): sprite positions cover distinct pixels.
pub(crate) proof fn lemma_offsets_unique(x0: int, y0: int, dx: int, dy: int, p: int)
    requires
        0 <= x0,
        0 <= y0,
        0 <= dx < 64,
        0 <= dy < 32,
        0 <= p < 2048,
        (p % 64 - x0) % 64 == dx,
        (p / 64 - y0) % 32 == dy,
    ensures
        p == pix_index(x0 + dx, y0 + dy),
{
    let px = p % 64;
    let py = p / 64;
    assert(0 <= px < 64);
    assert(0 <= py < 32) by (nonlinear_arith)
        requires
            0 <= p < 2048,
            py == p / 64,
    ;
    lemma_wrap_off_unique(x0, dx, 64, px);
    lemma_wrap_off_unique(y0, dy, 32, py);
    assert(p == py * 64 + px) by (nonlinear_arith)
        requires
            px == p % 64,
            py == p / 64,
            0 <= p,
    ;
}

/// Painting one more sprite bit: the target pixel (still holding its
/// original value) is toggled or overwritten, and nothing else changes.
pub(crate) proof fn lemma_draw_partial_step(
    d: Seq<bool>,
    ram: Seq<u8>,
    base: int,
    n: int,
    x0: int,
    y0: int,
    xor: bool,
    dy: int,
    dx: int,
)
    requires
        d.len() == 2048,
        0 <= x0,
        0 <= y0,
        0 <= dy < n <= 32,
        0 <= dx < 8,
    ensures
        ({
            let t = pix_index(x0 + dx, y0 + dy);
            let bit = sprite_bit(ram[base + dy], dx);
            let cur = spec_draw_partial(d, ram, base, n, x0, y0, xor, dy, dx);
            let next = spec_draw_partial(d, ram, base, n, x0, y0, xor, dy, dx + 1);
            &&& cur[t] == d[t]
            &&& next == cur.update(t, if xor { xor_b(d[t], bit) } else { bit })
        }),
{
    let t = pix_index(x0 + dx, y0 + dy);
    let bit = sprite_bit(ram[base + dy], dx);
    let cur = spec_draw_partial(d, ram, base, n, x0, y0, xor, dy, dx);
    let next = spec_draw_partial(d, ram, base, n, x0, y0, xor, dy, dx + 1);
    lemma_target_offsets(x0, y0, dx, dy);
    assert forall|p: int| 0 <= p < 2048 && p != t implies next[p] == cur[p] by {
        let dxp = (p % 64 - x0) % 64;
        let dyp = (p / 64 - y0) % 32;
        if dxp == dx && dyp == dy {
            lemma_offsets_unique(x0, y0, dx, dy, p);
        }
    }
    assert(next =~= cur.update(t, if xor { xor_b(d[t], bit) } else { bit }));
}

/// The collision flag after one more sprite bit: set exactly when it was
/// set before or the new bit lands on an originally lit pixel.
pub(crate) proof fn lemma_draw_collision_step(
    d: Seq<bool>,
    ram: Seq<u8>,
    base: int,
    n: int,
    x0: int,
    y0: int,
    dy: int,
    dx: int,
)
    requires
        0 <= dy < n,
        0 <= dx < 8,
    ensures
        spec_draw_collision_partial(d, ram, base, n, x0, y0, dy, dx + 1)
            == (spec_draw_collision_partial(d, ram, base, n, x0, y0, dy, dx)
                || (sprite_bit(ram[base + dy], dx) && d[pix_index(x0 + dx, y0 + dy)])),
{
    let cur = spec_draw_collision_partial(d, ram, base, n, x0, y0, dy, dx);
    let next = spec_draw_collision_partial(d, ram, base, n, x0, y0, dy, dx + 1);
    if next {
        let (dy2, dx2) = choose|dy2: int, dx2: int|
            #![trigger sprite_bit(ram[base + dy2], dx2)]
            0 <= dy2 < n && 0 <= dx2 < 8 && (dy2 < dy || (dy2 == dy && dx2 < dx + 1))
                && sprite_bit(ram[base + dy2], dx2) && d[pix_index(x0 + dx2, y0 + dy2)];
        if dy2 == dy && dx2 == dx {
            assert(sprite_bit(ram[base + dy], dx) && d[pix_index(x0 + dx, y0 + dy)]);
        } else {
            assert(cur);
        }
    }
    if cur {
        assert(next);
    }
    if sprite_bit(ram[base + dy], dx) && d[pix_index(x0 + dx, y0 + dy)] {
        assert(next);
    }
}

/// Finishing a sprite row is the same as standing at the start of the next.
pub(crate) proof fn lemma_draw_row_roll(
    d: Seq<bool>,
    ram: Seq<u8>,
    base: int,
    n: int,
    x0: int,
    y0: int,
    xor: bool,
    dy: int,
)
    requires
        d.len() == 2048,
    ensures
        spec_draw_partial(d, ram, base, n, x0, y0, xor, dy, 8)
            == spec_draw_partial(d, ram, base, n, x0, y0, xor, dy + 1, 0),
        spec_draw_collision_partial(d, ram, base, n, x0, y0, dy, 8)
            == spec_draw_collision_partial(d, ram, base, n, x0, y0, dy + 1, 0),
{
    assert(spec_draw_partial(d, ram, base, n, x0, y0, xor, dy, 8)
        =~= spec_draw_partial(d, ram, base, n, x0, y0, xor, dy + 1, 0));
    let a = spec_draw_collision_partial(d, ram, base, n, x0, y0, dy, 8);
    let b = spec_draw_collision_partial(d, ram, base, n, x0, y0, dy + 1, 0);
    if a {
        assert(b);
    }
    if b {
        assert(a);
    }
}

/// Before anything is painted the display is unchanged and no collision
/// has been seen.
pub(crate) proof fn lemma_draw_partial_zero(
    d: Seq<bool>,
    ram: Seq<u8>,
    base: int,
    n: int,
    x0: int,
    y0: int,
    xor: bool,
)
    requires
        d.len() == 2048,
    ensures
        spec_draw_partial(d, ram, base, n, x0, y0, xor, 0, 0) == d,
        !spec_draw_collision_partial(d, ram, base, n, x0, y0, 0, 0),
{
    assert(spec_draw_partial(d, ram, base, n, x0, y0, xor, 0, 0) =~= d);
}

/// Painting all `n` rows completes the draw: the partial view at (`n`, 0)
/// is the whole-screen result and the whole-sprite collision test.
pub(crate) proof fn lemma_draw_partial_full(
    d: Seq<bool>,
    ram: Seq<u8>,
    base: int,
    n: int,
    x0: int,
    y0: int,
    xor: bool,
)
    requires
        d.len() == 2048,
    ensures
        spec_draw_partial(d, ram, base, n, x0, y0, xor, n, 0)
            == spec_draw_screen(d, ram, base, n, x0, y0, xor),
        spec_draw_collision_partial(d, ram, base, n, x0, y0, n, 0)
            == spec_draw_collision(d, ram, base, n, x0, y0),
{
    assert(spec_draw_partial(d, ram, base, n, x0, y0, xor, n, 0)
        =~= spec_draw_screen(d, ram, base, n, x0, y0, xor));
    let a = spec_draw_collision_partial(d, ram, base, n, x0, y0, n, 0);
    let b = spec_draw_collision(d, ram, base, n, x0, y0);
    if a {
        assert(b);
    }
    if b {
        assert(a);
    }
}

/// Under XOR semantics, drawing the same sprite twice at the same
/// location restores the original pixel state; and whenever some set
/// sprite bit lands on a pixel that was off originally, the second draw
/// reports a collision (that bit turned the pixel on, and the second
/// pass turns it back off).
pub proof fn lemma_draw_twice_restores(
    d: Seq<bool>,
    ram: Seq<u8>,
    base: int,
    n: int,
    x0: int,
    y0: int,
)
    requires
        d.len() == 2048,
        0 <= x0 < 256,
        0 <= y0 < 256,
        0 <= n <= 32,
    ensures
        spec_draw_screen(
            spec_draw_screen(d, ram, base, n, x0, y0, true),
            ram,
            base,
            n,
            x0,
            y0,
            true,
        ) == d,
        (exists|dy: int, dx: int|
            #![trigger sprite_bit(ram[base + dy], dx)]
            0 <= dy < n && 0 <= dx < 8 && sprite_bit(ram[base + dy], dx)
                && !d[pix_index(x0 + dx, y0 + dy)]) ==> spec_draw_collision(
            spec_draw_screen(d, ram, base, n, x0, y0, true),
            ram,
            base,
            n,
            x0,
            y0,
        ),
{
    let d1 = spec_draw_screen(d, ram, base, n, x0, y0, true);
    assert(spec_draw_screen(d1, ram, base, n, x0, y0, true) =~= d);
    if exists|dy: int, dx: int|
        #![trigger sprite_bit(ram[base + dy], dx)]
        0 <= dy < n && 0 <= dx < 8 && sprite_bit(ram[base + dy], dx)
            && !d[pix_index(x0 + dx, y0 + dy)] {
        let (dy, dx) = choose|dy: int, dx: int|
            #![trigger sprite_bit(ram[base + dy], dx)]
            0 <= dy < n && 0 <= dx < 8 && sprite_bit(ram[base + dy], dx)
                && !d[pix_index(x0 + dx, y0 + dy)];
        lemma_target_offsets(x0, y0, dx, dy);
        let t = pix_index(x0 + dx, y0 + dy);
        assert(d1[t]);
        assert(spec_draw_collision(d1, ram, base, n, x0, y0));
    }
}

} // verus!
