//! Instruction execution. `step_spec` is the mathematical meaning of one
//! fetch-decode-execute cycle: it maps a machine state and the byte a random
//! source would supply to the next state and the step's outcome. The
//! executable `step_with_random` is proved to realise `step_spec` exactly,
//! for every state and every random byte; `step` merely draws the byte.

use vstd::prelude::*;
use crate::decode::Instr;
use crate::decode::decode;
use crate::decode::decode_spec;
use crate::decode::lemma_decode_fields_bounded;
use crate::display::draw_collides;
use crate::display::draw_fb;
use crate::display::draw_rows;
use crate::rng::random_byte;
use crate::state::Chip8State;
use crate::state::ErrorKind;
use crate::state::FB_LEN;
use crate::state::Fault;
use crate::state::MEM_SIZE;
use crate::state::STACK_LIMIT;
use crate::state::StateView;
use crate::state::StepOutcome;
use crate::state::filled_bool;
use crate::state::get_codes;

verus! {

/// The 16-bit big-endian instruction word at `pc`.
pub open spec fn word_at(mem: Seq<u8>, pc: int) -> u16 {
    ((mem[pc] as int) * 256 + (mem[pc + 1] as int)) as u16
}

/// A value reduced to eight bits, as register arithmetic wraps.
pub open spec fn wrap8(a: int) -> u8 {
    (a % 256) as u8
}

/// The wrapping difference of two registers: `a - b` modulo 256, written
/// in borrow form to keep the arithmetic linear.
pub open spec fn sub8(a: u8, b: u8) -> u8 {
    if a >= b {
        (a - b) as u8
    } else {
        (a - b + 256) as u8
    }
}

/// Registers after an arithmetic-group instruction: the result goes to Vx
/// first and the flag to VF last, so the flag survives even when Vx is VF.
pub open spec fn alu_apply(v: Seq<u8>, x: int, res: u8, flag: u8) -> Seq<u8> {
    v.update(x, res).update(15, flag)
}

/// Memory after the bulk store of V0..=Vx at I.
pub open spec fn store_regs(mem: Seq<u8>, v: Seq<u8>, i: int, x: int) -> Seq<u8> {
    Seq::new(mem.len(), |a: int| if i <= a <= i + x { v[a - i] } else { mem[a] })
}

/// Registers after the bulk load of V0..=Vx from I.
pub open spec fn load_regs(mem: Seq<u8>, v: Seq<u8>, i: int, x: int) -> Seq<u8> {
    Seq::new(v.len(), |k: int| if 0 <= k <= x { mem[i + k] } else { v[k] })
}

/// The halted outcome carrying a fault record.
pub open spec fn halted(kind: ErrorKind, opcode: u16, addr: u16) -> StepOutcome {
    StepOutcome::Halted(Fault { kind, opcode, addr })
}

/// The meaning of one fetch-decode-execute cycle: the state after it and
/// its outcome. `rnd` is the byte the random source supplies; only the
/// random-mask instruction reads it. Unless an instruction transfers
/// control, the program counter advances by two; a fault leaves the state
/// unchanged and halts.
pub open spec fn step_spec(s: StateView, rnd: u8) -> (StateView, StepOutcome) {
    if s.pc as int + 1 >= MEM_SIZE {
        (s, halted(ErrorKind::AddressOutOfRange, 0, s.pc))
    } else {
        let w = word_at(s.mem, s.pc as int);
        let pc2 = (s.pc + 2) as u16;
        match decode_spec(w) {
            Instr::Cls => (
                StateView { fb: Seq::new(FB_LEN as nat, |p: int| false), fb_dirty: true, pc: pc2, ..s },
                StepOutcome::Continuing,
            ),
            Instr::Ret => if s.stack.len() == 0 {
                (s, halted(ErrorKind::StackUnderflow, w, s.pc))
            } else {
                (
                    StateView { pc: s.stack.last(), stack: s.stack.drop_last(), ..s },
                    StepOutcome::Continuing,
                )
            },
            Instr::Jump(nnn) => (StateView { pc: nnn, ..s }, StepOutcome::Continuing),
            Instr::Call(nnn) => if s.stack.len() >= STACK_LIMIT {
                (s, halted(ErrorKind::StackOverflow, w, s.pc))
            } else {
                (
                    StateView { stack: s.stack.push(pc2), pc: nnn, ..s },
                    StepOutcome::Continuing,
                )
            },
            Instr::SkipEqImm(x, nn) => (
                StateView { pc: if s.v[x as int] == nn { (pc2 + 2) as u16 } else { pc2 }, ..s },
                StepOutcome::Continuing,
            ),
            Instr::SkipNeImm(x, nn) => (
                StateView { pc: if s.v[x as int] != nn { (pc2 + 2) as u16 } else { pc2 }, ..s },
                StepOutcome::Continuing,
            ),
            Instr::SkipEqReg(x, y) => (
                StateView { pc: if s.v[x as int] == s.v[y as int] { (pc2 + 2) as u16 } else { pc2 }, ..s },
                StepOutcome::Continuing,
            ),
            Instr::SetImm(x, nn) => (
                StateView { v: s.v.update(x as int, nn), pc: pc2, ..s },
                StepOutcome::Continuing,
            ),
            Instr::AddImm(x, nn) => (
                StateView { v: s.v.update(x as int, wrap8(s.v[x as int] + nn)), pc: pc2, ..s },
                StepOutcome::Continuing,
            ),
            Instr::Mov(x, y) => (
                StateView { v: s.v.update(x as int, s.v[y as int]), pc: pc2, ..s },
                StepOutcome::Continuing,
            ),
            Instr::Or(x, y) => (
                StateView { v: alu_apply(s.v, x as int, s.v[x as int] | s.v[y as int], 0), pc: pc2, ..s },
                StepOutcome::Continuing,
            ),
            Instr::And(x, y) => (
                StateView { v: alu_apply(s.v, x as int, s.v[x as int] & s.v[y as int], 0), pc: pc2, ..s },
                StepOutcome::Continuing,
            ),
            Instr::Xor(x, y) => (
                StateView { v: alu_apply(s.v, x as int, s.v[x as int] ^ s.v[y as int], 0), pc: pc2, ..s },
                StepOutcome::Continuing,
            ),
            Instr::Add(x, y) => (
                StateView {
                    v: alu_apply(
                        s.v,
                        x as int,
                        wrap8(s.v[x as int] + s.v[y as int]),
                        if s.v[x as int] + s.v[y as int] > 255 { 1u8 } else { 0u8 },
                    ),
                    pc: pc2,
                    ..s
                },
                StepOutcome::Continuing,
            ),
            Instr::Sub(x, y) => (
                StateView {
                    v: alu_apply(
                        s.v,
                        x as int,
                        sub8(s.v[x as int], s.v[y as int]),
                        if s.v[x as int] >= s.v[y as int] { 1u8 } else { 0u8 },
                    ),
                    pc: pc2,
                    ..s
                },
                StepOutcome::Continuing,
            ),
            Instr::Shr(x, y) => {
                let src = if s.shift_from_vy { s.v[y as int] } else { s.v[x as int] };
                (
                    StateView { v: alu_apply(s.v, x as int, src / 2, src % 2), pc: pc2, ..s },
                    StepOutcome::Continuing,
                )
            },
            Instr::Subn(x, y) => (
                StateView {
                    v: alu_apply(
                        s.v,
                        x as int,
                        sub8(s.v[y as int], s.v[x as int]),
                        if s.v[y as int] >= s.v[x as int] { 1u8 } else { 0u8 },
                    ),
                    pc: pc2,
                    ..s
                },
                StepOutcome::Continuing,
            ),
            Instr::Shl(x, y) => {
                let src = if s.shift_from_vy { s.v[y as int] } else { s.v[x as int] };
                (
                    StateView { v: alu_apply(s.v, x as int, wrap8(src * 2), src / 128), pc: pc2, ..s },
                    StepOutcome::Continuing,
                )
            },
            Instr::SkipNeReg(x, y) => (
                StateView { pc: if s.v[x as int] != s.v[y as int] { (pc2 + 2) as u16 } else { pc2 }, ..s },
                StepOutcome::Continuing,
            ),
            Instr::SetIndex(nnn) => (StateView { i: nnn, pc: pc2, ..s }, StepOutcome::Continuing),
            Instr::JumpPlusV0(nnn) => if nnn + s.v[0] >= MEM_SIZE {
                (s, halted(ErrorKind::AddressOutOfRange, w, s.pc))
            } else {
                (StateView { pc: (nnn + s.v[0]) as u16, ..s }, StepOutcome::Continuing)
            },
            Instr::Random(x, nn) => (
                StateView { v: s.v.update(x as int, rnd & nn), pc: pc2, ..s },
                StepOutcome::Continuing,
            ),
            Instr::Sprite(x, y, n) => if s.i + n > MEM_SIZE {
                (s, halted(ErrorKind::AddressOutOfRange, w, s.pc))
            } else {
                let sprite = s.mem.subrange(s.i as int, s.i as int + n);
                let x0 = (s.v[x as int] % 64) as int;
                let y0 = (s.v[y as int] % 32) as int;
                let collided = draw_collides(s.fb, sprite, x0, y0, s.sprite_wrap);
                (
                    StateView {
                        fb: draw_fb(s.fb, sprite, x0, y0, s.sprite_wrap),
                        v: s.v.update(15, if collided { 1u8 } else { 0u8 }),
                        fb_dirty: true,
                        pc: pc2,
                        ..s
                    },
                    StepOutcome::Continuing,
                )
            },
            Instr::SkipIfKey(x) => (
                StateView {
                    pc: if s.keys[(s.v[x as int] % 16) as int] { (pc2 + 2) as u16 } else { pc2 },
                    ..s
                },
                StepOutcome::Continuing,
            ),
            Instr::SkipIfNoKey(x) => (
                StateView {
                    pc: if !s.keys[(s.v[x as int] % 16) as int] { (pc2 + 2) as u16 } else { pc2 },
                    ..s
                },
                StepOutcome::Continuing,
            ),
            Instr::ReadDelay(x) => (
                StateView { v: s.v.update(x as int, s.delay), pc: pc2, ..s },
                StepOutcome::Continuing,
            ),
            Instr::WaitKey(x) => (StateView { pc: pc2, ..s }, StepOutcome::BlockedOnKey(x)),
            Instr::SetDelay(x) => (
                StateView { delay: s.v[x as int], pc: pc2, ..s },
                StepOutcome::Continuing,
            ),
            Instr::SetSound(x) => (
                StateView { sound: s.v[x as int], pc: pc2, ..s },
                StepOutcome::Continuing,
            ),
            Instr::AddIndex(x) => if s.i + s.v[x as int] >= MEM_SIZE {
                (s, halted(ErrorKind::AddressOutOfRange, w, s.pc))
            } else {
                (
                    StateView { i: (s.i + s.v[x as int]) as u16, pc: pc2, ..s },
                    StepOutcome::Continuing,
                )
            },
            Instr::GlyphAddr(x) => (
                StateView { i: (s.v[x as int] * 5) as u16, pc: pc2, ..s },
                StepOutcome::Continuing,
            ),
            Instr::StoreBcd(x) => if s.i + 3 > MEM_SIZE {
                (s, halted(ErrorKind::AddressOutOfRange, w, s.pc))
            } else {
                let vx = s.v[x as int];
                (
                    StateView {
                        mem: s.mem.update(s.i as int, vx / 100).update(
                            s.i as int + 1,
                            (vx / 10) % 10,
                        ).update(s.i as int + 2, vx % 10),
                        pc: pc2,
                        ..s
                    },
                    StepOutcome::Continuing,
                )
            },
            Instr::StoreRegs(x) => if s.i + x + 1 > MEM_SIZE {
                (s, halted(ErrorKind::AddressOutOfRange, w, s.pc))
            } else {
                (
                    StateView {
                        mem: store_regs(s.mem, s.v, s.i as int, x as int),
                        i: if s.bulk_advances_i { (s.i + x + 1) as u16 } else { s.i },
                        pc: pc2,
                        ..s
                    },
                    StepOutcome::Continuing,
                )
            },
            Instr::LoadRegs(x) => if s.i + x + 1 > MEM_SIZE {
                (s, halted(ErrorKind::AddressOutOfRange, w, s.pc))
            } else {
                (
                    StateView {
                        v: load_regs(s.mem, s.v, s.i as int, x as int),
                        i: if s.bulk_advances_i { (s.i + x + 1) as u16 } else { s.i },
                        pc: pc2,
                        ..s
                    },
                    StepOutcome::Continuing,
                )
            },
            Instr::Unknown(uw) => (s, halted(ErrorKind::InvalidOpcode, uw, s.pc)),
        }
    }
}

impl Chip8State {
    /// Control transfer and comparison skips: clear screen, return, jump,
    /// call, and the four conditional skips.
    fn exec_control(&mut self, w: u16, instr: Instr, Ghost(rnd): Ghost<u8>) -> (outcome: StepOutcome)
        requires
            old(self)@.wf(),
            old(self)@.pc as int + 1 < MEM_SIZE,
            w == word_at(old(self)@.mem, old(self)@.pc as int),
            instr == decode_spec(w),
            instr is Cls || instr is Ret || instr is Jump || instr is Call || instr is SkipEqImm
                || instr is SkipNeImm || instr is SkipEqReg || instr is SkipNeReg,
        ensures
            final(self)@ == step_spec(old(self)@, rnd).0,
            outcome == step_spec(old(self)@, rnd).1,
            final(self)@.wf(),
    {
        let ghost pre = self@;
        let ghost gres = step_spec(pre, rnd);
        proof {
            lemma_decode_fields_bounded(w);
        }
        let pc2: u16 = self.pc + 2;
        match instr {
            Instr::Cls => {
                self.fb = filled_bool(FB_LEN, false);
                self.fb_dirty = true;
                self.pc = pc2;
                proof {
                    assert(self@ =~= gres.0);
                }
                StepOutcome::Continuing
            },
            Instr::Ret => {
                if self.stack.len() == 0 {
                    return StepOutcome::Halted(Fault {
                        kind: ErrorKind::StackUnderflow,
                        opcode: w,
                        addr: self.pc,
                    });
                }
                match self.stack.pop() {
                    Some(ret_addr) => {
                        self.pc = ret_addr;
                        proof {
                            assert(self@.stack =~= pre.stack.drop_last());
                            assert(self@ =~= gres.0);
                        }
                        StepOutcome::Continuing
                    },
                    None => {
                        proof {
                            assert(false);
                        }
                        StepOutcome::Continuing
                    },
                }
            },
            Instr::Jump(nnn) => {
                self.pc = nnn;
                proof {
                    assert(self@ =~= gres.0);
                }
                StepOutcome::Continuing
            },
            Instr::Call(nnn) => {
                if self.stack.len() >= STACK_LIMIT {
                    return StepOutcome::Halted(Fault {
                        kind: ErrorKind::StackOverflow,
                        opcode: w,
                        addr: self.pc,
                    });
                }
                self.stack.push(pc2);
                self.pc = nnn;
                proof {
                    assert(self@ =~= gres.0);
                }
                StepOutcome::Continuing
            },
            Instr::SkipEqImm(x, nn) => {
                self.pc = if self.v[x as usize] == nn { pc2 + 2 } else { pc2 };
                proof {
                    assert(self@ =~= gres.0);
                }
                StepOutcome::Continuing
            },
            Instr::SkipNeImm(x, nn) => {
                self.pc = if self.v[x as usize] != nn { pc2 + 2 } else { pc2 };
                proof {
                    assert(self@ =~= gres.0);
                }
                StepOutcome::Continuing
            },
            Instr::SkipEqReg(x, y) => {
                self.pc = if self.v[x as usize] == self.v[y as usize] { pc2 + 2 } else { pc2 };
                proof {
                    assert(self@ =~= gres.0);
                }
                StepOutcome::Continuing
            },
            Instr::SkipNeReg(x, y) => {
                self.pc = if self.v[x as usize] != self.v[y as usize] { pc2 + 2 } else { pc2 };
                proof {
                    assert(self@ =~= gres.0);
                }
                StepOutcome::Continuing
            },
            _ => {
                proof {
                    assert(false);
                }
                StepOutcome::Continuing
            },
        }
    }

    /// Register moves and the bitwise group: load immediate, add immediate,
    /// copy, or, and, xor.
    fn exec_alu_move(&mut self, w: u16, instr: Instr, Ghost(rnd): Ghost<u8>) -> (outcome: StepOutcome)
        requires
            old(self)@.wf(),
            old(self)@.pc as int + 1 < MEM_SIZE,
            w == word_at(old(self)@.mem, old(self)@.pc as int),
            instr == decode_spec(w),
            instr is SetImm || instr is AddImm || instr is Mov || instr is Or || instr is And
                || instr is Xor,
        ensures
            final(self)@ == step_spec(old(self)@, rnd).0,
            outcome == step_spec(old(self)@, rnd).1,
            final(self)@.wf(),
    {
        let ghost pre = self@;
        let ghost gres = step_spec(pre, rnd);
        proof {
            lemma_decode_fields_bounded(w);
        }
        let pc2: u16 = self.pc + 2;
        match instr {
            Instr::SetImm(x, nn) => {
                self.v.set(x as usize, nn);
                self.pc = pc2;
                proof {
                    assert(self@ =~= gres.0);
                }
                StepOutcome::Continuing
            },
            Instr::AddImm(x, nn) => {
                let sum = self.v[x as usize] as u16 + nn as u16;
                self.v.set(x as usize, (sum % 256) as u8);
                self.pc = pc2;
                proof {
                    assert(self@ =~= gres.0);
                }
                StepOutcome::Continuing
            },
            Instr::Mov(x, y) => {
                let vy = self.v[y as usize];
                self.v.set(x as usize, vy);
                self.pc = pc2;
                proof {
                    assert(self@ =~= gres.0);
                }
                StepOutcome::Continuing
            },
            Instr::Or(x, y) => {
                let res = self.v[x as usize] | self.v[y as usize];
                self.v.set(x as usize, res);
                self.v.set(15, 0);
                self.pc = pc2;
                proof {
                    assert(self@ =~= gres.0);
                }
                StepOutcome::Continuing
            },
            Instr::And(x, y) => {
                let res = self.v[x as usize] & self.v[y as usize];
                self.v.set(x as usize, res);
                self.v.set(15, 0);
                self.pc = pc2;
                proof {
                    assert(self@ =~= gres.0);
                }
                StepOutcome::Continuing
            },
            Instr::Xor(x, y) => {
                let res = self.v[x as usize] ^ self.v[y as usize];
                self.v.set(x as usize, res);
                self.v.set(15, 0);
                self.pc = pc2;
                proof {
                    assert(self@ =~= gres.0);
                }
                StepOutcome::Continuing
            },
            _ => {
                proof {
                    assert(false);
                }
                StepOutcome::Continuing
            },
        }
    }

    /// The carrying arithmetic group: add and the two subtractions, each
    /// writing its flag to VF last.
    fn exec_alu_arith(&mut self, w: u16, instr: Instr, Ghost(rnd): Ghost<u8>) -> (outcome: StepOutcome)
        requires
            old(self)@.wf(),
            old(self)@.pc as int + 1 < MEM_SIZE,
            w == word_at(old(self)@.mem, old(self)@.pc as int),
            instr == decode_spec(w),
            instr is Add || instr is Sub || instr is Subn,
        ensures
            final(self)@ == step_spec(old(self)@, rnd).0,
            outcome == step_spec(old(self)@, rnd).1,
            final(self)@.wf(),
    {
        let ghost pre = self@;
        let ghost gres = step_spec(pre, rnd);
        proof {
            lemma_decode_fields_bounded(w);
        }
        let pc2: u16 = self.pc + 2;
        match instr {
            Instr::Add(x, y) => {
                let sum = self.v[x as usize] as u16 + self.v[y as usize] as u16;
                let flag: u8 = if sum > 255 { 1 } else { 0 };
                self.v.set(x as usize, (sum % 256) as u8);
                self.v.set(15, flag);
                self.pc = pc2;
                proof {
                    assert(self@ =~= gres.0);
                }
                StepOutcome::Continuing
            },
            Instr::Sub(x, y) => {
                let vx = self.v[x as usize];
                let vy = self.v[y as usize];
                let flag: u8 = if vx >= vy { 1 } else { 0 };
                let res: u8 = if vx >= vy {
                    vx - vy
                } else {
                    ((vx as u16 + 256) - vy as u16) as u8
                };
                self.v.set(x as usize, res);
                self.v.set(15, flag);
                self.pc = pc2;
                proof {
                    assert(res == sub8(vx, vy));
                    assert(self@ =~= gres.0);
                }
                StepOutcome::Continuing
            },
            Instr::Subn(x, y) => {
                let vx = self.v[x as usize];
                let vy = self.v[y as usize];
                let flag: u8 = if vy >= vx { 1 } else { 0 };
                let res: u8 = if vy >= vx {
                    vy - vx
                } else {
                    ((vy as u16 + 256) - vx as u16) as u8
                };
                self.v.set(x as usize, res);
                self.v.set(15, flag);
                self.pc = pc2;
                proof {
                    assert(res == sub8(vy, vx));
                    assert(self@ =~= gres.0);
                }
                StepOutcome::Continuing
            },
            _ => {
                proof {
                    assert(false);
                }
                StepOutcome::Continuing
            },
        }
    }

    /// The two shifts: the flag is the bit shifted out of the source
    /// register, written to VF last.
    fn exec_alu_shift(&mut self, w: u16, instr: Instr, Ghost(rnd): Ghost<u8>) -> (outcome: StepOutcome)
        requires
            old(self)@.wf(),
            old(self)@.pc as int + 1 < MEM_SIZE,
            w == word_at(old(self)@.mem, old(self)@.pc as int),
            instr == decode_spec(w),
            instr is Shr || instr is Shl,
        ensures
            final(self)@ == step_spec(old(self)@, rnd).0,
            outcome == step_spec(old(self)@, rnd).1,
            final(self)@.wf(),
    {
        let ghost pre = self@;
        let ghost gres = step_spec(pre, rnd);
        proof {
            lemma_decode_fields_bounded(w);
        }
        let pc2: u16 = self.pc + 2;
        match instr {
            Instr::Shr(x, y) => {
                let src = if self.shift_from_vy { self.v[y as usize] } else { self.v[x as usize] };
                self.v.set(x as usize, src / 2);
                self.v.set(15, src % 2);
                self.pc = pc2;
                proof {
                    assert(self@ =~= gres.0);
                }
                StepOutcome::Continuing
            },
            Instr::Shl(x, y) => {
                let src = if self.shift_from_vy { self.v[y as usize] } else { self.v[x as usize] };
                let res = ((src as u16 * 2) % 256) as u8;
                self.v.set(x as usize, res);
                self.v.set(15, src / 128);
                self.pc = pc2;
                proof {
                    assert(res == wrap8(src * 2));
                    assert(self@ =~= gres.0);
                }
                StepOutcome::Continuing
            },
            _ => {
                proof {
                    assert(false);
                }
                StepOutcome::Continuing
            },
        }
    }

    /// Index-register loads and jumps, timers, the key wait and the glyph
    /// lookup.
    fn exec_misc(&mut self, w: u16, instr: Instr, Ghost(rnd): Ghost<u8>) -> (outcome: StepOutcome)
        requires
            old(self)@.wf(),
            old(self)@.pc as int + 1 < MEM_SIZE,
            w == word_at(old(self)@.mem, old(self)@.pc as int),
            instr == decode_spec(w),
            instr is SetIndex || instr is JumpPlusV0 || instr is ReadDelay || instr is WaitKey
                || instr is SetDelay || instr is SetSound || instr is AddIndex
                || instr is GlyphAddr,
        ensures
            final(self)@ == step_spec(old(self)@, rnd).0,
            outcome == step_spec(old(self)@, rnd).1,
            final(self)@.wf(),
    {
        let ghost pre = self@;
        let ghost gres = step_spec(pre, rnd);
        proof {
            lemma_decode_fields_bounded(w);
        }
        let pc2: u16 = self.pc + 2;
        match instr {
            Instr::SetIndex(nnn) => {
                self.i = nnn;
                self.pc = pc2;
                proof {
                    assert(self@ =~= gres.0);
                }
                StepOutcome::Continuing
            },
            Instr::JumpPlusV0(nnn) => {
                let target = nnn as u32 + self.v[0] as u32;
                if target >= MEM_SIZE as u32 {
                    return StepOutcome::Halted(Fault {
                        kind: ErrorKind::AddressOutOfRange,
                        opcode: w,
                        addr: self.pc,
                    });
                }
                self.pc = target as u16;
                proof {
                    assert(self@ =~= gres.0);
                }
                StepOutcome::Continuing
            },
            Instr::ReadDelay(x) => {
                let d = self.delay;
                self.v.set(x as usize, d);
                self.pc = pc2;
                proof {
                    assert(self@ =~= gres.0);
                }
                StepOutcome::Continuing
            },
            Instr::WaitKey(x) => {
                self.pc = pc2;
                proof {
                    assert(self@ =~= gres.0);
                }
                StepOutcome::BlockedOnKey(x)
            },
            Instr::SetDelay(x) => {
                self.delay = self.v[x as usize];
                self.pc = pc2;
                proof {
                    assert(self@ =~= gres.0);
                }
                StepOutcome::Continuing
            },
            Instr::SetSound(x) => {
                self.sound = self.v[x as usize];
                self.pc = pc2;
                proof {
                    assert(self@ =~= gres.0);
                }
                StepOutcome::Continuing
            },
            Instr::AddIndex(x) => {
                let target = self.i as u32 + self.v[x as usize] as u32;
                if target >= MEM_SIZE as u32 {
                    return StepOutcome::Halted(Fault {
                        kind: ErrorKind::AddressOutOfRange,
                        opcode: w,
                        addr: self.pc,
                    });
                }
                self.i = target as u16;
                self.pc = pc2;
                proof {
                    assert(self@ =~= gres.0);
                }
                StepOutcome::Continuing
            },
            Instr::GlyphAddr(x) => {
                self.i = self.v[x as usize] as u16 * 5;
                self.pc = pc2;
                proof {
                    assert(self@ =~= gres.0);
                }
                StepOutcome::Continuing
            },
            _ => {
                proof {
                    assert(false);
                }
                StepOutcome::Continuing
            },
        }
    }

    /// The random mask: the supplied byte, masked, goes to Vx.
    fn exec_random(&mut self, w: u16, instr: Instr, rnd: u8) -> (outcome: StepOutcome)
        requires
            old(self)@.wf(),
            old(self)@.pc as int + 1 < MEM_SIZE,
            w == word_at(old(self)@.mem, old(self)@.pc as int),
            instr == decode_spec(w),
            instr is Random,
        ensures
            final(self)@ == step_spec(old(self)@, rnd).0,
            outcome == step_spec(old(self)@, rnd).1,
            final(self)@.wf(),
    {
        let ghost pre = self@;
        let ghost gres = step_spec(pre, rnd);
        proof {
            lemma_decode_fields_bounded(w);
        }
        let pc2: u16 = self.pc + 2;
        match instr {
            Instr::Random(x, nn) => {
                self.v.set(x as usize, rnd & nn);
                self.pc = pc2;
                proof {
                    assert(self@ =~= gres.0);
                }
                StepOutcome::Continuing
            },
            _ => {
                proof {
                    assert(false);
                }
                StepOutcome::Continuing
            },
        }
    }

    /// The two key-state skips, on the key whose code is the low nibble of
    /// Vx.
    fn exec_key_skip(&mut self, w: u16, instr: Instr, Ghost(rnd): Ghost<u8>) -> (outcome: StepOutcome)
        requires
            old(self)@.wf(),
            old(self)@.pc as int + 1 < MEM_SIZE,
            w == word_at(old(self)@.mem, old(self)@.pc as int),
            instr == decode_spec(w),
            instr is SkipIfKey || instr is SkipIfNoKey,
        ensures
            final(self)@ == step_spec(old(self)@, rnd).0,
            outcome == step_spec(old(self)@, rnd).1,
            final(self)@.wf(),
    {
        let ghost pre = self@;
        let ghost gres = step_spec(pre, rnd);
        proof {
            lemma_decode_fields_bounded(w);
        }
        let pc2: u16 = self.pc + 2;
        match instr {
            Instr::SkipIfKey(x) => {
                let code = (self.v[x as usize] % 16) as usize;
                self.pc = if self.keys[code] { pc2 + 2 } else { pc2 };
                proof {
                    assert(self@ =~= gres.0);
                }
                StepOutcome::Continuing
            },
            Instr::SkipIfNoKey(x) => {
                let code = (self.v[x as usize] % 16) as usize;
                self.pc = if !self.keys[code] { pc2 + 2 } else { pc2 };
                proof {
                    assert(self@ =~= gres.0);
                }
                StepOutcome::Continuing
            },
            _ => {
                proof {
                    assert(false);
                }
                StepOutcome::Continuing
            },
        }
    }

    /// The sprite draw: reads the sprite rows at I and XOR-composites them,
    /// with VF as the collision flag.
    fn exec_sprite(&mut self, w: u16, instr: Instr, Ghost(rnd): Ghost<u8>) -> (outcome: StepOutcome)
        requires
            old(self)@.wf(),
            old(self)@.pc as int + 1 < MEM_SIZE,
            w == word_at(old(self)@.mem, old(self)@.pc as int),
            instr == decode_spec(w),
            instr is Sprite,
        ensures
            final(self)@ == step_spec(old(self)@, rnd).0,
            outcome == step_spec(old(self)@, rnd).1,
            final(self)@.wf(),
    {
        let ghost pre = self@;
        let ghost gres = step_spec(pre, rnd);
        proof {
            lemma_decode_fields_bounded(w);
        }
        let pc2: u16 = self.pc + 2;
        match instr {
            Instr::Sprite(x, y, n) => {
                let rows = n as usize;
                let ii = self.i as usize;
                if ii + rows > MEM_SIZE {
                    return StepOutcome::Halted(Fault {
                        kind: ErrorKind::AddressOutOfRange,
                        opcode: w,
                        addr: self.pc,
                    });
                }
                let mut sprite: Vec<u8> = Vec::new();
                let mut k: usize = 0;
                while k < rows
                    invariant
                        k <= rows,
                        rows < 16,
                        ii + rows <= MEM_SIZE,
                        self@ == pre,
                        pre.mem.len() == MEM_SIZE,
                        sprite@ =~= pre.mem.subrange(ii as int, ii as int + k),
                    decreases rows - k,
                {
                    let b = self.memory[ii + k];
                    sprite.push(b);
                    k += 1;
                }
                let x0 = (self.v[x as usize] % 64) as usize;
                let y0 = (self.v[y as usize] % 32) as usize;
                let wrapq = self.sprite_wrap;
                let collided = draw_rows(&mut self.fb, &sprite, x0, y0, wrapq);
                self.v.set(15, if collided { 1 } else { 0 });
                self.fb_dirty = true;
                self.pc = pc2;
                proof {
                    assert(sprite@ =~= pre.mem.subrange(pre.i as int, pre.i as int + n));
                    assert(self@ =~= gres.0);
                }
                StepOutcome::Continuing
            },
            _ => {
                proof {
                    assert(false);
                }
                StepOutcome::Continuing
            },
        }
    }

    /// The decimal decomposition: hundreds, tens and ones of Vx go to
    /// memory at I.
    fn exec_bcd(&mut self, w: u16, instr: Instr, Ghost(rnd): Ghost<u8>) -> (outcome: StepOutcome)
        requires
            old(self)@.wf(),
            old(self)@.pc as int + 1 < MEM_SIZE,
            w == word_at(old(self)@.mem, old(self)@.pc as int),
            instr == decode_spec(w),
            instr is StoreBcd,
        ensures
            final(self)@ == step_spec(old(self)@, rnd).0,
            outcome == step_spec(old(self)@, rnd).1,
            final(self)@.wf(),
    {
        let ghost pre = self@;
        let ghost gres = step_spec(pre, rnd);
        proof {
            lemma_decode_fields_bounded(w);
        }
        let pc2: u16 = self.pc + 2;
        match instr {
            Instr::StoreBcd(x) => {
                if self.i as u32 + 3 > MEM_SIZE as u32 {
                    return StepOutcome::Halted(Fault {
                        kind: ErrorKind::AddressOutOfRange,
                        opcode: w,
                        addr: self.pc,
                    });
                }
                let ii = self.i as usize;
                let vx = self.v[x as usize];
                self.memory.set(ii, vx / 100);
                self.memory.set(ii + 1, (vx / 10) % 10);
                self.memory.set(ii + 2, vx % 10);
                self.pc = pc2;
                proof {
                    assert(self@ =~= gres.0);
                }
                StepOutcome::Continuing
            },
            _ => {
                proof {
                    assert(false);
                }
                StepOutcome::Continuing
            },
        }
    }

    /// The bulk register transfers between V0..=Vx and memory at I.
    fn exec_bulk(&mut self, w: u16, instr: Instr, Ghost(rnd): Ghost<u8>) -> (outcome: StepOutcome)
        requires
            old(self)@.wf(),
            old(self)@.pc as int + 1 < MEM_SIZE,
            w == word_at(old(self)@.mem, old(self)@.pc as int),
            instr == decode_spec(w),
            instr is StoreRegs || instr is LoadRegs,
        ensures
            final(self)@ == step_spec(old(self)@, rnd).0,
            outcome == step_spec(old(self)@, rnd).1,
            final(self)@.wf(),
    {
        let ghost pre = self@;
        let ghost gres = step_spec(pre, rnd);
        proof {
            lemma_decode_fields_bounded(w);
        }
        let pc2: u16 = self.pc + 2;
        match instr {
            Instr::StoreRegs(x) => {
                if self.i as u32 + x as u32 + 1 > MEM_SIZE as u32 {
                    return StepOutcome::Halted(Fault {
                        kind: ErrorKind::AddressOutOfRange,
                        opcode: w,
                        addr: self.pc,
                    });
                }
                let ii = self.i as usize;
                let xi = x as usize;
                let mut k: usize = 0;
                while k < xi + 1
                    invariant
                        k <= xi + 1,
                        xi < 16,
                        ii + xi + 1 <= MEM_SIZE,
                        pre.wf(),
                        ii == pre.i,
                        self@.mem.len() == MEM_SIZE,
                        self@ == (StateView { mem: self@.mem, ..pre }),
                        forall|a: int| 0 <= a < MEM_SIZE ==> self@.mem[a] == if ii <= a < ii + k {
                            pre.v[a - ii]
                        } else {
                            pre.mem[a]
                        },
                    decreases xi + 1 - k,
                {
                    let val = self.v[k];
                    self.memory.set(ii + k, val);
                    k += 1;
                }
                if self.bulk_advances_i {
                    self.i = self.i + x as u16 + 1;
                }
                self.pc = pc2;
                proof {
                    assert(self@.mem =~= store_regs(pre.mem, pre.v, pre.i as int, x as int));
                    assert(self@ =~= gres.0);
                }
                StepOutcome::Continuing
            },
            Instr::LoadRegs(x) => {
                if self.i as u32 + x as u32 + 1 > MEM_SIZE as u32 {
                    return StepOutcome::Halted(Fault {
                        kind: ErrorKind::AddressOutOfRange,
                        opcode: w,
                        addr: self.pc,
                    });
                }
                let ii = self.i as usize;
                let xi = x as usize;
                let mut k: usize = 0;
                while k < xi + 1
                    invariant
                        k <= xi + 1,
                        xi < 16,
                        ii + xi + 1 <= MEM_SIZE,
                        pre.wf(),
                        ii == pre.i,
                        self@.v.len() == 16,
                        self@ == (StateView { v: self@.v, ..pre }),
                        forall|q: int| 0 <= q < 16 ==> self@.v[q] == if 0 <= q < k {
                            pre.mem[ii + q]
                        } else {
                            pre.v[q]
                        },
                    decreases xi + 1 - k,
                {
                    let val = self.memory[ii + k];
                    self.v.set(k, val);
                    k += 1;
                }
                if self.bulk_advances_i {
                    self.i = self.i + x as u16 + 1;
                }
                self.pc = pc2;
                proof {
                    assert(self@.v =~= load_regs(pre.mem, pre.v, pre.i as int, x as int));
                    assert(self@ =~= gres.0);
                }
                StepOutcome::Continuing
            },
            _ => {
                proof {
                    assert(false);
                }
                StepOutcome::Continuing
            },
        }
    }

    /// One fetch-decode-execute cycle with the random byte supplied by the
    /// caller, so the behaviour is a function of its arguments alone: the
    /// machine moves to exactly the state `step_spec` gives and the outcome
    /// is exactly its outcome.
    pub fn step_with_random(&mut self, rnd: u8) -> (outcome: StepOutcome)
        requires
            old(self)@.wf(),
        ensures
            final(self)@ == step_spec(old(self)@, rnd).0,
            outcome == step_spec(old(self)@, rnd).1,
            final(self)@.wf(),
    {
        let ghost pre = self@;
        let ghost gres = step_spec(pre, rnd);
        if self.pc as usize + 1 >= MEM_SIZE {
            return StepOutcome::Halted(Fault {
                kind: ErrorKind::AddressOutOfRange,
                opcode: 0,
                addr: self.pc,
            });
        }
        let pc_us = self.pc as usize;
        let (hi, lo) = get_codes(&self.memory, pc_us);
        let w: u16 = (hi as u16) * 256 + (lo as u16);
        proof {
            assert(w == word_at(pre.mem, pre.pc as int));
        }
        let instr = decode(w);
        match instr {
            Instr::Cls | Instr::Ret | Instr::Jump(..) | Instr::Call(..) | Instr::SkipEqImm(..)
                | Instr::SkipNeImm(..) | Instr::SkipEqReg(..) | Instr::SkipNeReg(..) => {
                self.exec_control(w, instr, Ghost(rnd))
            },
            Instr::SetImm(..) | Instr::AddImm(..) | Instr::Mov(..) | Instr::Or(..)
                | Instr::And(..) | Instr::Xor(..) => self.exec_alu_move(w, instr, Ghost(rnd)),
            Instr::Add(..) | Instr::Sub(..) | Instr::Subn(..) => {
                self.exec_alu_arith(w, instr, Ghost(rnd))
            },
            Instr::Shr(..) | Instr::Shl(..) => self.exec_alu_shift(w, instr, Ghost(rnd)),
            Instr::SetIndex(..) | Instr::JumpPlusV0(..) | Instr::ReadDelay(..)
                | Instr::WaitKey(..) | Instr::SetDelay(..) | Instr::SetSound(..)
                | Instr::AddIndex(..) | Instr::GlyphAddr(..) => self.exec_misc(w, instr, Ghost(rnd)),
            Instr::Random(..) => self.exec_random(w, instr, rnd),
            Instr::SkipIfKey(..) | Instr::SkipIfNoKey(..) => self.exec_key_skip(w, instr, Ghost(rnd)),
            Instr::Sprite(..) => self.exec_sprite(w, instr, Ghost(rnd)),
            Instr::StoreBcd(..) => self.exec_bcd(w, instr, Ghost(rnd)),
            Instr::StoreRegs(..) | Instr::LoadRegs(..) => self.exec_bulk(w, instr, Ghost(rnd)),
            Instr::Unknown(uw) => {
                proof {
                    assert(gres.0 == pre && gres.1 == halted(ErrorKind::InvalidOpcode, uw, pre.pc));
                }
                StepOutcome::Halted(Fault { kind: ErrorKind::InvalidOpcode, opcode: uw, addr: self.pc })
            },
        }
    }

    /// One fetch-decode-execute cycle with the random byte drawn from the
    /// process-wide generator: the machine and the outcome are those of
    /// `step_spec` for whatever byte was drawn.
    pub fn step(&mut self) -> (outcome: StepOutcome)
        requires
            old(self)@.wf(),
        ensures
            exists|b: u8|
                final(self)@ == #[trigger] step_spec(old(self)@, b).0 && outcome == step_spec(
                    old(self)@,
                    b,
                ).1,
            final(self)@.wf(),
    {
        let b = random_byte();
        self.step_with_random(b)
    }
}

} // verus!
