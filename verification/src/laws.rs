//! Laws of the instruction semantics, proved once for every machine state:
//! the carry, borrow and shift flags, the bulk-transfer round trip, the
//! double-draw identity and the call/return pairing. Each is stated over
//! `step_spec`, the meaning that `step_with_random` is proved to realise.

use vstd::prelude::*;
use crate::decode::Instr;
use crate::decode::decode_spec;
use crate::decode::lemma_decode_fields_bounded;
use crate::display::covers;
use crate::display::draw_fb;
use crate::display::lemma_draw_twice_restores;
use crate::display::lemma_second_draw_collision;
use crate::exec::load_regs;
use crate::exec::step_spec;
use crate::exec::store_regs;
use crate::exec::sub8;
use crate::exec::word_at;
use crate::exec::wrap8;
use crate::state::MEM_SIZE;
use crate::state::STACK_LIMIT;
use crate::state::StateView;
use crate::state::StepOutcome;

verus! {

/// The wrapping difference in borrow form is the difference modulo 256.
pub proof fn lemma_sub8_is_mod(a: u8, b: u8)
    ensures
        sub8(a, b) == wrap8(a - b),
{
    if a >= b {
        assert((a - b) % 256 == a - b);
    } else {
        assert((a - b) % 256 == a - b + 256);
    }
}

/// Adding two registers sets VF to 1 exactly when the unsigned sum exceeds
/// 255, and the destination receives the sum modulo 256; the flag is
/// computed from the pre-instruction operands and written last, so it
/// stands even when the destination is VF itself.
pub proof fn lemma_add_carry(s: StateView, rnd: u8, x: u8, y: u8)
    requires
        s.wf(),
        s.pc as int + 1 < MEM_SIZE,
        decode_spec(word_at(s.mem, s.pc as int)) == Instr::Add(x, y),
    ensures
        step_spec(s, rnd).1 == StepOutcome::Continuing,
        step_spec(s, rnd).0.v[15] == if s.v[x as int] + s.v[y as int] > 255 { 1u8 } else { 0u8 },
        x != 15 ==> step_spec(s, rnd).0.v[x as int] == wrap8(s.v[x as int] + s.v[y as int]),
{
    lemma_decode_fields_bounded(word_at(s.mem, s.pc as int));
}

/// Subtracting Vy from Vx sets VF to 1 exactly when Vx is at least Vy
/// before the mutation (no borrow), and the destination receives the
/// difference modulo 256.
pub proof fn lemma_sub_no_borrow(s: StateView, rnd: u8, x: u8, y: u8)
    requires
        s.wf(),
        s.pc as int + 1 < MEM_SIZE,
        decode_spec(word_at(s.mem, s.pc as int)) == Instr::Sub(x, y),
    ensures
        step_spec(s, rnd).1 == StepOutcome::Continuing,
        step_spec(s, rnd).0.v[15] == if s.v[x as int] >= s.v[y as int] { 1u8 } else { 0u8 },
        x != 15 ==> step_spec(s, rnd).0.v[x as int] == wrap8(s.v[x as int] - s.v[y as int]),
{
    lemma_decode_fields_bounded(word_at(s.mem, s.pc as int));
    lemma_sub8_is_mod(s.v[x as int], s.v[y as int]);
}

/// The reversed subtraction sets VF to 1 exactly when Vy is at least Vx
/// before the mutation, and the destination receives Vy minus Vx modulo
/// 256.
pub proof fn lemma_subn_no_borrow(s: StateView, rnd: u8, x: u8, y: u8)
    requires
        s.wf(),
        s.pc as int + 1 < MEM_SIZE,
        decode_spec(word_at(s.mem, s.pc as int)) == Instr::Subn(x, y),
    ensures
        step_spec(s, rnd).1 == StepOutcome::Continuing,
        step_spec(s, rnd).0.v[15] == if s.v[y as int] >= s.v[x as int] { 1u8 } else { 0u8 },
        x != 15 ==> step_spec(s, rnd).0.v[x as int] == wrap8(s.v[y as int] - s.v[x as int]),
{
    lemma_decode_fields_bounded(word_at(s.mem, s.pc as int));
    lemma_sub8_is_mod(s.v[y as int], s.v[x as int]);
}

/// The right shift puts into VF the bit that was shifted out of the source
/// register — its low bit before the shift, not the corresponding bit of
/// the result — and the destination receives the source halved.
pub proof fn lemma_shr_flag_is_shifted_out_bit(s: StateView, rnd: u8, x: u8, y: u8)
    requires
        s.wf(),
        s.pc as int + 1 < MEM_SIZE,
        decode_spec(word_at(s.mem, s.pc as int)) == Instr::Shr(x, y),
    ensures
        step_spec(s, rnd).1 == StepOutcome::Continuing,
        step_spec(s, rnd).0.v[15] == (if s.shift_from_vy { s.v[y as int] } else { s.v[x as int] }) % 2,
        x != 15 ==> step_spec(s, rnd).0.v[x as int] == (if s.shift_from_vy {
            s.v[y as int]
        } else {
            s.v[x as int]
        }) / 2,
{
    lemma_decode_fields_bounded(word_at(s.mem, s.pc as int));
}

/// The left shift puts into VF the bit that was shifted out of the source
/// register — its high bit before the shift, not the corresponding bit of
/// the result — and the destination receives the source doubled modulo
/// 256.
pub proof fn lemma_shl_flag_is_shifted_out_bit(s: StateView, rnd: u8, x: u8, y: u8)
    requires
        s.wf(),
        s.pc as int + 1 < MEM_SIZE,
        decode_spec(word_at(s.mem, s.pc as int)) == Instr::Shl(x, y),
    ensures
        step_spec(s, rnd).1 == StepOutcome::Continuing,
        step_spec(s, rnd).0.v[15] == (if s.shift_from_vy { s.v[y as int] } else { s.v[x as int] }) / 128,
        x != 15 ==> step_spec(s, rnd).0.v[x as int] == wrap8(
            (if s.shift_from_vy { s.v[y as int] } else { s.v[x as int] }) * 2,
        ),
{
    lemma_decode_fields_bounded(word_at(s.mem, s.pc as int));
}

/// A bulk store followed by a bulk load over the same range and the same
/// base address restores V0..=Vx exactly, whatever the registers held in
/// between, and leaves the registers above Vx as the load found them.
pub proof fn lemma_bulk_roundtrip(mem: Seq<u8>, v: Seq<u8>, between: Seq<u8>, i: int, x: int)
    requires
        mem.len() == MEM_SIZE,
        v.len() == 16,
        between.len() == 16,
        0 <= x < 16,
        0 <= i,
        i + x < MEM_SIZE,
    ensures
        forall|k: int| 0 <= k <= x ==> load_regs(store_regs(mem, v, i, x), between, i, x)[k] == v[k],
        forall|k: int| x < k < 16 ==> load_regs(store_regs(mem, v, i, x), between, i, x)[k]
            == between[k],
{
}

/// Executing the same draw instruction twice in a row returns the
/// framebuffer to its state before the first draw, and the second draw
/// raises the collision flag exactly when the first draw turned some cell
/// on — that is, when some set sprite bit landed on a cell that was dark
/// before the first draw. The coordinate registers must not be VF, which
/// the first draw overwrites with its own collision flag.
pub proof fn lemma_sprite_twice_restores_screen(s: StateView, rnd1: u8, rnd2: u8, x: u8, y: u8, n: u8)
    requires
        s.wf(),
        s.pc as int + 3 < MEM_SIZE,
        decode_spec(word_at(s.mem, s.pc as int)) == Instr::Sprite(x, y, n),
        decode_spec(word_at(s.mem, s.pc as int + 2)) == Instr::Sprite(x, y, n),
        x != 15,
        y != 15,
        s.i + n <= MEM_SIZE,
    ensures
        step_spec(s, rnd1).1 == StepOutcome::Continuing,
        step_spec(step_spec(s, rnd1).0, rnd2).1 == StepOutcome::Continuing,
        step_spec(step_spec(s, rnd1).0, rnd2).0.fb == s.fb,
        step_spec(step_spec(s, rnd1).0, rnd2).0.v[15] == 1 <==> exists|p: int|
            0 <= p < s.fb.len() && #[trigger] covers(
                s.mem.subrange(s.i as int, s.i as int + n),
                (s.v[x as int] % 64) as int,
                (s.v[y as int] % 32) as int,
                s.sprite_wrap,
                p,
            ) && !s.fb[p],
{
    lemma_decode_fields_bounded(word_at(s.mem, s.pc as int));
    let sprite = s.mem.subrange(s.i as int, s.i as int + n);
    let x0 = (s.v[x as int] % 64) as int;
    let y0 = (s.v[y as int] % 32) as int;
    let s1 = step_spec(s, rnd1).0;
    assert(s1.mem == s.mem && s1.i == s.i && s1.pc == s.pc + 2);
    assert(s1.v[x as int] == s.v[x as int] && s1.v[y as int] == s.v[y as int]);
    assert(s1.fb == draw_fb(s.fb, sprite, x0, y0, s.sprite_wrap));
    let s2 = step_spec(s1, rnd2).0;
    lemma_draw_twice_restores(s.fb, sprite, x0, y0, s.sprite_wrap);
    lemma_second_draw_collision(s.fb, sprite, x0, y0, s.sprite_wrap);
    assert(s2.fb == draw_fb(s1.fb, sprite, x0, y0, s.sprite_wrap));
}

/// A call followed at once by its return leaves the program counter at the
/// instruction after the call and the call stack, registers and memory as
/// they were.
pub proof fn lemma_call_then_ret(s: StateView, rnd1: u8, rnd2: u8, nnn: u16)
    requires
        s.wf(),
        s.pc as int + 1 < MEM_SIZE,
        decode_spec(word_at(s.mem, s.pc as int)) == Instr::Call(nnn),
        s.stack.len() < STACK_LIMIT,
        nnn as int + 1 < MEM_SIZE,
        decode_spec(word_at(s.mem, nnn as int)) == Instr::Ret,
    ensures
        step_spec(s, rnd1).1 == StepOutcome::Continuing,
        step_spec(step_spec(s, rnd1).0, rnd2).1 == StepOutcome::Continuing,
        step_spec(step_spec(s, rnd1).0, rnd2).0.pc == s.pc + 2,
        step_spec(step_spec(s, rnd1).0, rnd2).0.stack == s.stack,
        step_spec(step_spec(s, rnd1).0, rnd2).0.v == s.v,
        step_spec(step_spec(s, rnd1).0, rnd2).0.mem == s.mem,
{
    let s1 = step_spec(s, rnd1).0;
    assert(s1.pc == nnn && s1.mem == s.mem && s1.stack == s.stack.push((s.pc + 2) as u16));
    assert(s1.stack.len() == s.stack.len() + 1);
    let s2 = step_spec(s1, rnd2).0;
    assert(s2.stack =~= s.stack);
}

} // verus!
