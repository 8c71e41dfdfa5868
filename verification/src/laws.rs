//! General laws of the processor, proved once and for all over the cycle
//! specification: arithmetic on immediates, the XOR-draw round trip, the
//! call/return round trip, and timer decay.

use vstd::prelude::*;

verus! {

use crate::chip8::{
    add16, decode, draw_bit, draw_row, draw_rows, pix, spec_cycle, spec_dispatch, spec_draw,
    spec_tick, sprite_bit, word_at, wrap_add8, CpuView, Instr, MEM_SIZE,
};
use vstd::arithmetic::div_mod::lemma_small_mod;

proof fn lemma_word_fields(b0: u8, b1: u8)
    ensures
        ((((b0 as u16) << 8) | (b1 as u16)) & 0xF000) >> 12 == (b0 >> 4) as u16,
        ((((b0 as u16) << 8) | (b1 as u16)) & 0x0F00) >> 8 == (b0 & 0xF) as u16,
        ((((b0 as u16) << 8) | (b1 as u16)) & 0x00F0) >> 4 == (b1 >> 4) as u16,
        (((b0 as u16) << 8) | (b1 as u16)) & 0x000F == (b1 & 0xF) as u16,
        ((((b0 as u16) << 8) | (b1 as u16)) & 0x00FF) as u8 == b1,
        (((b0 as u16) << 8) | (b1 as u16)) & 0x0FFF == ((b0 & 0xF) as u16) * 256 + (b1 as u16),
        (((b0 as u16) << 8) | (b1 as u16)) == 0x00E0 <==> (b0 == 0 && b1 == 0xE0),
{
    assert(((((b0 as u16) << 8) | (b1 as u16)) & 0xF000) >> 12 == (b0 >> 4) as u16
        && ((((b0 as u16) << 8) | (b1 as u16)) & 0x0F00) >> 8 == (b0 & 0xF) as u16
        && ((((b0 as u16) << 8) | (b1 as u16)) & 0x00F0) >> 4 == (b1 >> 4) as u16
        && (((b0 as u16) << 8) | (b1 as u16)) & 0x000F == (b1 & 0xF) as u16
        && ((((b0 as u16) << 8) | (b1 as u16)) & 0x00FF) as u8 == b1
        && (((b0 as u16) << 8) | (b1 as u16)) & 0x0FFF == ((b0 & 0xF) as u16) * 256 + (b1 as u16)
        && ((((b0 as u16) << 8) | (b1 as u16)) == 0x00E0 <==> (b0 == 0 && b1 == 0xE0)))
        by (bit_vector);
}

proof fn lemma_mod_inj(a: int, b: int, m: int)
    requires
        m > 0,
        a <= b,
        b - a < m,
        a % m == b % m,
    ensures
        a == b,
{
    vstd::arithmetic::div_mod::lemma_fundamental_div_mod(a, m);
    vstd::arithmetic::div_mod::lemma_fundamental_div_mod(b, m);
    let d = b / m - a / m;
    assert(b - a == m * d) by (nonlinear_arith)
        requires
            a == m * (a / m) + a % m,
            b == m * (b / m) + b % m,
            a % m == b % m,
            d == b / m - a / m,
    ;
    assert(d == 0) by (nonlinear_arith)
        requires
            m > 0,
            0 <= m * d,
            m * d < m,
    ;
}

proof fn lemma_pix_bounds(x: int, y: int, r: int, c: int)
    requires
        x >= 0,
        y >= 0,
        r >= 0,
        c >= 0,
    ensures
        0 <= pix(x, y, r, c) < 2048,
{
    vstd::arithmetic::div_mod::lemma_mod_bound(x + c, 64);
    vstd::arithmetic::div_mod::lemma_mod_bound(y + r, 32);
}

proof fn lemma_pix_inj(x: int, y: int, r1: int, c1: int, r2: int, c2: int)
    requires
        x >= 0,
        y >= 0,
        0 <= c1 < 8,
        0 <= c2 < 8,
        0 <= r1,
        0 <= r2,
        r1 - r2 < 32,
        r2 - r1 < 32,
        pix(x, y, r1, c1) == pix(x, y, r2, c2),
    ensures
        r1 == r2,
        c1 == c2,
{
    vstd::arithmetic::div_mod::lemma_mod_bound(x + c1, 64);
    vstd::arithmetic::div_mod::lemma_mod_bound(x + c2, 64);
    vstd::arithmetic::div_mod::lemma_mod_bound(y + r1, 32);
    vstd::arithmetic::div_mod::lemma_mod_bound(y + r2, 32);
    assert((x + c1) % 64 == (x + c2) % 64);
    assert((y + r1) % 32 == (y + r2) % 32);
    if c1 <= c2 {
        lemma_mod_inj(x + c1, x + c2, 64);
    } else {
        lemma_mod_inj(x + c2, x + c1, 64);
    }
    if r1 <= r2 {
        lemma_mod_inj(y + r1, y + r2, 32);
    } else {
        lemma_mod_inj(y + r2, y + r1, 32);
    }
}

proof fn lemma_draw_row_pointwise(st: (Seq<bool>, u8), x: int, y: int, r: int, line: u8, c: int)
    requires
        st.0.len() == 2048,
        x >= 0,
        y >= 0,
        r >= 0,
        0 <= c <= 8,
    ensures
        draw_row(st, x, y, r, line, c).0.len() == 2048,
        forall|k: int|
            0 <= k < c ==> draw_row(st, x, y, r, line, c).0[#[trigger] pix(x, y, r, k)] == (st.0[pix(
                x,
                y,
                r,
                k,
            )] != sprite_bit(line, k)),
        forall|p: int|
            0 <= p < 2048 && (forall|k: int| 0 <= k < c ==> p != #[trigger] pix(x, y, r, k))
                ==> #[trigger] draw_row(st, x, y, r, line, c).0[p] == st.0[p],
        draw_row(st, x, y, r, line, c).1 == (if (exists|k: int|
            0 <= k < c && sprite_bit(line, k) && st.0[#[trigger] pix(x, y, r, k)]) {
            1u8
        } else {
            st.1
        }),
    decreases c,
{
    if c > 0 {
        lemma_draw_row_pointwise(st, x, y, r, line, c - 1);
        let prev = draw_row(st, x, y, r, line, c - 1);
        let out = draw_row(st, x, y, r, line, c);
        let p0 = pix(x, y, r, c - 1);
        lemma_pix_bounds(x, y, r, c - 1);
        assert forall|k: int| 0 <= k < c - 1 implies p0 != #[trigger] pix(x, y, r, k) by {
            if p0 == pix(x, y, r, k) {
                lemma_pix_inj(x, y, r, k, r, c - 1);
            }
        }
        assert(prev.0[p0] == st.0[p0]);
        assert(out == draw_bit(prev, x, y, r, line, c - 1));
        if sprite_bit(line, c - 1) {
            assert forall|k: int| 0 <= k < c implies out.0[#[trigger] pix(x, y, r, k)] == (st.0[pix(
                x,
                y,
                r,
                k,
            )] != sprite_bit(line, k)) by {
                if k < c - 1 {
                    if pix(x, y, r, k) == p0 {
                        lemma_pix_inj(x, y, r, k, r, c - 1);
                    }
                }
            }
            if st.0[p0] {
                assert(exists|k: int|
                    0 <= k < c && sprite_bit(line, k) && st.0[#[trigger] pix(x, y, r, k)]) by {
                    assert(0 <= c - 1 < c && sprite_bit(line, c - 1) && st.0[pix(x, y, r, c - 1)]);
                }
            } else {
                assert((exists|k: int|
                    0 <= k < c && sprite_bit(line, k) && st.0[#[trigger] pix(x, y, r, k)])
                    == (exists|k: int|
                    0 <= k < c - 1 && sprite_bit(line, k) && st.0[#[trigger] pix(x, y, r, k)])) by {
                    if exists|k: int|
                        0 <= k < c && sprite_bit(line, k) && st.0[#[trigger] pix(x, y, r, k)] {
                        let k = choose|k: int|
                            0 <= k < c && sprite_bit(line, k) && st.0[#[trigger] pix(x, y, r, k)];
                        assert(k != c - 1);
                        assert(0 <= k < c - 1 && sprite_bit(line, k) && st.0[pix(x, y, r, k)]);
                    }
                }
            }
        } else {
            assert(out == prev);
            assert((exists|k: int|
                0 <= k < c && sprite_bit(line, k) && st.0[#[trigger] pix(x, y, r, k)])
                == (exists|k: int|
                0 <= k < c - 1 && sprite_bit(line, k) && st.0[#[trigger] pix(x, y, r, k)])) by {
                if exists|k: int|
                    0 <= k < c && sprite_bit(line, k) && st.0[#[trigger] pix(x, y, r, k)] {
                    let k = choose|k: int|
                        0 <= k < c && sprite_bit(line, k) && st.0[#[trigger] pix(x, y, r, k)];
                    assert(k != c - 1);
                    assert(0 <= k < c - 1 && sprite_bit(line, k) && st.0[pix(x, y, r, k)]);
                }
            }
        }
    }
}

proof fn lemma_draw_rows_pointwise(
    st: (Seq<bool>, u8),
    x: int,
    y: int,
    mem: Seq<u8>,
    i: int,
    n: int,
)
    requires
        st.0.len() == 2048,
        mem.len() == MEM_SIZE,
        x >= 0,
        y >= 0,
        i >= 0,
        0 <= n <= 32,
    ensures
        draw_rows(st, x, y, mem, i, n).0.len() == 2048,
        forall|rr: int, k: int|
            0 <= rr < n && 0 <= k < 8 ==> draw_rows(st, x, y, mem, i, n).0[#[trigger] pix(
                x,
                y,
                rr,
                k,
            )] == (st.0[pix(x, y, rr, k)] != sprite_bit(mem[(i + rr) % (MEM_SIZE as int)], k)),
        forall|p: int|
            0 <= p < 2048 && (forall|rr: int, k: int|
                0 <= rr < n && 0 <= k < 8 ==> p != #[trigger] pix(x, y, rr, k))
                ==> #[trigger] draw_rows(st, x, y, mem, i, n).0[p] == st.0[p],
        draw_rows(st, x, y, mem, i, n).1 == (if (exists|rr: int, k: int|
            0 <= rr < n && 0 <= k < 8 && sprite_bit(mem[(i + rr) % (MEM_SIZE as int)], k)
                && st.0[#[trigger] pix(x, y, rr, k)]) {
            1u8
        } else {
            st.1
        }),
    decreases n,
{
    if n > 0 {
        lemma_draw_rows_pointwise(st, x, y, mem, i, n - 1);
        let prev = draw_rows(st, x, y, mem, i, n - 1);
        let line = mem[(i + n - 1) % (MEM_SIZE as int)];
        let out = draw_rows(st, x, y, mem, i, n);
        assert(out == draw_row(prev, x, y, n - 1, line, 8));
        lemma_draw_row_pointwise(prev, x, y, n - 1, line, 8);
        // The last row's cells were untouched by the earlier rows.
        assert forall|k: int| 0 <= k < 8 implies prev.0[#[trigger] pix(x, y, n - 1, k)] == st.0[pix(
            x,
            y,
            n - 1,
            k,
        )] by {
            lemma_pix_bounds(x, y, n - 1, k);
            assert forall|rr: int, k2: int| 0 <= rr < n - 1 && 0 <= k2 < 8 implies pix(
                x,
                y,
                n - 1,
                k,
            ) != #[trigger] pix(x, y, rr, k2) by {
                if pix(x, y, n - 1, k) == pix(x, y, rr, k2) {
                    lemma_pix_inj(x, y, n - 1, k, rr, k2);
                }
            }
        }
        // Cells of earlier rows were untouched by the last row.
        assert forall|rr: int, k: int| 0 <= rr < n && 0 <= k < 8 implies out.0[#[trigger] pix(
            x,
            y,
            rr,
            k,
        )] == (st.0[pix(x, y, rr, k)] != sprite_bit(mem[(i + rr) % (MEM_SIZE as int)], k)) by {
            if rr < n - 1 {
                lemma_pix_bounds(x, y, rr, k);
                assert forall|k2: int| 0 <= k2 < 8 implies pix(x, y, rr, k) != #[trigger] pix(
                    x,
                    y,
                    n - 1,
                    k2,
                ) by {
                    if pix(x, y, rr, k) == pix(x, y, n - 1, k2) {
                        lemma_pix_inj(x, y, rr, k, n - 1, k2);
                    }
                }
                assert(out.0[pix(x, y, rr, k)] == prev.0[pix(x, y, rr, k)]);
            }
        }
        // Collision flag: collisions of the last row happen against cells the
        // earlier rows did not touch.
        let hit_prev = (exists|rr: int, k: int|
            0 <= rr < n - 1 && 0 <= k < 8 && sprite_bit(mem[(i + rr) % (MEM_SIZE as int)], k)
                && st.0[#[trigger] pix(x, y, rr, k)]);
        let hit_last = (exists|k: int|
            0 <= k < 8 && sprite_bit(line, k) && prev.0[#[trigger] pix(x, y, n - 1, k)]);
        let hit_all = (exists|rr: int, k: int|
            0 <= rr < n && 0 <= k < 8 && sprite_bit(mem[(i + rr) % (MEM_SIZE as int)], k)
                && st.0[#[trigger] pix(x, y, rr, k)]);
        assert(out.1 == (if hit_last {
            1u8
        } else {
            prev.1
        }));
        assert(hit_all == (hit_prev || hit_last)) by {
            if hit_all {
                let (rr, k) = choose|rr: int, k: int|
                    0 <= rr < n && 0 <= k < 8 && sprite_bit(mem[(i + rr) % (MEM_SIZE as int)], k)
                        && st.0[#[trigger] pix(x, y, rr, k)];
                if rr == n - 1 {
                    assert(prev.0[pix(x, y, n - 1, k)] == st.0[pix(x, y, n - 1, k)]);
                    assert(hit_last);
                } else {
                    assert(hit_prev);
                }
            }
            if hit_last {
                let k = choose|k: int|
                    0 <= k < 8 && sprite_bit(line, k) && prev.0[#[trigger] pix(x, y, n - 1, k)];
                assert(st.0[pix(x, y, n - 1, k)]);
                assert(hit_all);
            }
            if hit_prev {
                assert(hit_all);
            }
        }
    }
}

/// The display compositor, cell by cell: for a sprite of the architectural
/// height, every targeted cell ends as the XOR of its old state with the
/// sprite bit that lands on it, every other cell is untouched, and the
/// collision flag is set exactly when some set sprite bit lands on an "on"
/// cell.
pub proof fn lemma_draw_pointwise(s: CpuView, x: int, y: int, n: int)
    requires
        s.wf(),
        x >= 0,
        y >= 0,
        0 <= n <= 32,
    ensures
        spec_draw(s, x, y, n).0.len() == 2048,
        forall|rr: int, k: int|
            0 <= rr < n && 0 <= k < 8 ==> spec_draw(s, x, y, n).0[#[trigger] pix(x, y, rr, k)] == (
            s.screen[pix(x, y, rr, k)] != sprite_bit(
                s.memory[(s.i + rr) % (MEM_SIZE as int)],
                k,
            )),
        forall|p: int|
            0 <= p < 2048 && (forall|rr: int, k: int|
                0 <= rr < n && 0 <= k < 8 ==> p != #[trigger] pix(x, y, rr, k))
                ==> #[trigger] spec_draw(s, x, y, n).0[p] == s.screen[p],
        spec_draw(s, x, y, n).1 == (if (exists|rr: int, k: int|
            0 <= rr < n && 0 <= k < 8 && sprite_bit(s.memory[(s.i + rr) % (MEM_SIZE as int)], k)
                && s.screen[#[trigger] pix(x, y, rr, k)]) {
            1u8
        } else {
            0u8
        }),
{
    lemma_draw_rows_pointwise((s.screen, 0u8), x, y, s.memory, s.i as int, n);
}

/// Law: drawing the identical sprite at the identical location twice in
/// succession restores every cell to its state before the first draw, and
/// the second draw's collision flag reports exactly the collisions with what
/// the first draw left on the screen.
pub proof fn lemma_draw_twice_restores(s: CpuView, x: int, y: int, n: int)
    requires
        s.wf(),
        x >= 0,
        y >= 0,
        0 <= n <= 15,
    ensures
        spec_draw(s.with_screen(spec_draw(s, x, y, n).0), x, y, n).0 == s.screen,
        spec_draw(s.with_screen(spec_draw(s, x, y, n).0), x, y, n).1 == 1 <==> (exists|
            rr: int,
            k: int,
        |
            0 <= rr < n && 0 <= k < 8 && sprite_bit(s.memory[(s.i + rr) % (MEM_SIZE as int)], k)
                && spec_draw(s, x, y, n).0[#[trigger] pix(x, y, rr, k)]),
{
    let first = spec_draw(s, x, y, n);
    let s2 = s.with_screen(first.0);
    let second = spec_draw(s2, x, y, n);
    lemma_draw_pointwise(s, x, y, n);
    lemma_draw_pointwise(s2, x, y, n);
    assert forall|p: int| 0 <= p < 2048 implies second.0[p] == s.screen[p] by {
        if exists|rr: int, k: int|
            0 <= rr < n && 0 <= k < 8 && p == #[trigger] pix(x, y, rr, k) {
            let (rr, k) = choose|rr: int, k: int|
                0 <= rr < n && 0 <= k < 8 && p == #[trigger] pix(x, y, rr, k);
            assert(first.0[pix(x, y, rr, k)] == (s.screen[pix(x, y, rr, k)] != sprite_bit(
                s.memory[(s.i + rr) % (MEM_SIZE as int)],
                k,
            )));
            assert(second.0[pix(x, y, rr, k)] == (first.0[pix(x, y, rr, k)] != sprite_bit(
                s.memory[(s.i + rr) % (MEM_SIZE as int)],
                k,
            )));
        } else {
            assert(forall|rr: int, k: int|
                0 <= rr < n && 0 <= k < 8 ==> p != #[trigger] pix(x, y, rr, k));
            assert(first.0[p] == s.screen[p]);
            assert(second.0[p] == first.0[p]);
        }
    }
    assert(second.0 =~= s.screen);
}

/// Law: a sprite drawn at the right edge wraps around. Anchored at x = 63,
/// the leftmost sprite column lands on cell column 63 and the remaining
/// seven columns wrap to cell columns 0 through 6 of the same row.
pub proof fn lemma_wraparound_at_right_edge(y: int, r: int, c: int)
    requires
        0 <= y,
        0 <= r,
        1 <= c < 8,
    ensures
        pix(63, y, r, 0) == 63 + ((y + r) % 32) * 64,
        pix(63, y, r, c) == (c - 1) + ((y + r) % 32) * 64,
{
    lemma_small_mod(63nat, 64nat);
    vstd::arithmetic::div_mod::lemma_mod_add_multiples_vanish(c - 1, 64);
    lemma_small_mod((c - 1) as nat, 64nat);
}

/// Law: loading an immediate with `6xkk` and then adding the same immediate
/// with `7xkk` leaves Vx holding (kk + kk) mod 256 and every other register,
/// the flag included, unchanged. An immediate of 0xEE is excluded: a word
/// whose low byte is 0xEE is decoded as a return, not as a load or add.
pub proof fn lemma_load_then_add(s: CpuView, x: u8, kk: u8, r1: u8, r2: u8)
    requires
        s.wf(),
        x < 16,
        kk != 0xEE,
        s.pc + 3 < MEM_SIZE,
        s.memory[s.pc as int] == (0x60u8 | x),
        s.memory[s.pc as int + 1] == kk,
        s.memory[s.pc as int + 2] == (0x70u8 | x),
        s.memory[s.pc as int + 3] == kk,
    ensures
        spec_cycle(spec_cycle(s, r1), r2).v == s.v.update(x as int, ((kk + kk) % 256) as u8),
{
    let b0 = (0x60u8 | x);
    let w1 = ((b0 as u16) << 8) | (kk as u16);
    lemma_word_fields(b0, kk);
    assert(b0 >> 4 == 6 && (b0 & 0xF) == x && b0 != 0) by (bit_vector)
        requires
            b0 == (0x60u8 | x),
            x < 16,
    ;
    assert(!((kk >> 4) == 0xE && (kk & 0xF) == 0xE)) by (bit_vector)
        requires
            kk != 0xEE,
    ;
    lemma_small_mod(s.pc as nat, MEM_SIZE as nat);
    lemma_small_mod((s.pc + 1) as nat, MEM_SIZE as nat);
    lemma_small_mod((s.pc + 2) as nat, MEM_SIZE as nat);
    lemma_small_mod((s.pc + 3) as nat, MEM_SIZE as nat);
    assert(word_at(s.memory, s.pc) == w1);
    assert(decode(w1) == Instr::LdByte(x, kk));
    let c1 = spec_cycle(s, r1);
    assert(c1.v == s.v.update(x as int, kk));
    assert(c1.pc == s.pc + 2);
    assert(c1.memory == s.memory);
    let b2 = (0x70u8 | x);
    let w2 = ((b2 as u16) << 8) | (kk as u16);
    lemma_word_fields(b2, kk);
    assert(b2 >> 4 == 7 && (b2 & 0xF) == x && b2 != 0) by (bit_vector)
        requires
            b2 == (0x70u8 | x),
            x < 16,
    ;
    assert(word_at(c1.memory, c1.pc) == w2);
    assert(decode(w2) == Instr::AddByte(x, kk));
    let c2 = spec_cycle(c1, r2);
    assert(c1.v[x as int] == kk);
    assert(c2.v == c1.v.update(x as int, wrap_add8(kk, kk)));
    assert(wrap_add8(kk, kk) == ((kk + kk) % 256) as u8);
    assert(c2.v =~= s.v.update(x as int, ((kk + kk) % 256) as u8));
}

/// Law: a call pushes the address of the instruction after itself, and a
/// later return executed with that same stack and stack pointer restores the
/// program counter to exactly that address. A call target whose low byte is
/// 0xEE is excluded: such a word is decoded as a return, not as a call.
pub proof fn lemma_call_then_ret(s: CpuView, t: CpuView, r1: u8, r2: u8)
    requires
        s.wf(),
        t.wf(),
        s.pc + 1 < MEM_SIZE,
        s.memory[s.pc as int] >> 4 == 0x2,
        s.memory[s.pc as int + 1] != 0xEE,
        s.stack_pointer < 15,
        t.stack == spec_cycle(s, r1).stack,
        t.stack_pointer == spec_cycle(s, r1).stack_pointer,
        t.pc + 1 < MEM_SIZE,
        t.memory[t.pc as int] == 0x00,
        t.memory[t.pc as int + 1] == 0xEE,
    ensures
        spec_cycle(s, r1).stack_pointer == s.stack_pointer + 1,
        spec_cycle(s, r1).stack[s.stack_pointer as int + 1] == s.pc + 2,
        spec_cycle(t, r2).pc == s.pc + 2,
{
    let b0 = s.memory[s.pc as int];
    let b1 = s.memory[s.pc as int + 1];
    let w1 = ((b0 as u16) << 8) | (b1 as u16);
    lemma_word_fields(b0, b1);
    assert(b0 != 0) by (bit_vector)
        requires
            b0 >> 4 == 0x2,
    ;
    assert(!((b1 >> 4) == 0xE && (b1 & 0xF) == 0xE)) by (bit_vector)
        requires
            b1 != 0xEE,
    ;
    lemma_small_mod(s.pc as nat, MEM_SIZE as nat);
    lemma_small_mod((s.pc + 1) as nat, MEM_SIZE as nat);
    lemma_small_mod(t.pc as nat, MEM_SIZE as nat);
    lemma_small_mod((t.pc + 1) as nat, MEM_SIZE as nat);
    assert(word_at(s.memory, s.pc) == w1);
    let nnn = w1 & 0x0FFF;
    assert(decode(w1) == Instr::Call(nnn));
    let c1 = spec_cycle(s, r1);
    assert(c1.stack_pointer == s.stack_pointer + 1);
    assert(c1.stack == s.stack.update(s.stack_pointer as int + 1, add16(s.pc, 2)));
    assert(c1.stack[s.stack_pointer as int + 1] == s.pc + 2);
    let w2 = ((0x00u8 as u16) << 8) | (0xEEu8 as u16);
    assert(w2 == 0x00EE && (w2 & 0x00F0) >> 4 == 0xE && w2 & 0x000F == 0xE && w2 != 0x00E0)
        by (bit_vector)
        requires
            w2 == ((0x00u8 as u16) << 8) | (0xEEu8 as u16),
    ;
    assert(word_at(t.memory, t.pc) == w2);
    assert(decode(w2) == Instr::Ret);
    assert(t.stack_pointer > 0);
    assert(spec_cycle(t, r2).pc == t.stack[t.stack_pointer as int]);
}

/// Law: when the fetched instruction is not a delay-timer write, one cycle
/// decrements a positive delay timer by exactly one and leaves a zero delay
/// timer at zero.
pub proof fn lemma_delay_timer_decay(s: CpuView, r: u8)
    requires
        s.wf(),
        !(decode(word_at(s.memory, s.pc)) matches Instr::LdDtVx(_)),
    ensures
        spec_cycle(s, r).delay_timer == (if s.delay_timer > 0 {
            (s.delay_timer - 1) as u8
        } else {
            0u8
        }),
{
    let w = word_at(s.memory, s.pc);
    let s1 = s.with_pc(add16(s.pc, 2));
    let mid = spec_dispatch(s1, decode(w), r);
    assert(mid.delay_timer == s.delay_timer);
    assert(spec_cycle(s, r) == spec_tick(mid));
}

} // verus!
