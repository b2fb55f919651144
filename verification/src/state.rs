//! The machine state: memory, register file, call stack, timers, framebuffer
//! and key snapshot, together with its mathematical view and well-formedness.

use vstd::prelude::*;

verus! {

/// Number of addressable memory bytes.
pub const MEM_SIZE: usize = 4096;

/// First address of the program region; execution starts here.
pub const PROG_START: usize = 0x200;

/// Framebuffer width in pixels.
pub const SCREEN_W: usize = 64;

/// Framebuffer height in pixels.
pub const SCREEN_H: usize = 32;

/// Number of framebuffer cells.
pub const FB_LEN: usize = 2048;

/// Maximum call-stack depth.
pub const STACK_LIMIT: usize = 16;

/// Largest program the memory can hold behind the program start address.
pub const MAX_ROM: usize = 3584;

/// What went wrong; every kind is fatal to the running program.
#[derive(Clone, Copy, Debug, PartialEq, Eq, Structural)]
pub enum ErrorKind {
    /// The fetched word is outside the instruction set.
    InvalidOpcode,
    /// A subroutine call found the call stack already full.
    StackOverflow,
    /// A return found the call stack empty.
    StackUnderflow,
    /// The program does not fit behind the program start address.
    RomTooLarge,
    /// An instruction computed an address register or program counter
    /// outside the memory.
    AddressOutOfRange,
}

/// A fatal error, carrying the failing instruction word and its address
/// for diagnostics.
#[derive(Clone, Copy, Debug, PartialEq, Eq, Structural)]
pub struct Fault {
    /// What went wrong.
    pub kind: ErrorKind,
    /// The instruction word being executed, or 0 when none was fetched.
    pub opcode: u16,
    /// The address the failing instruction was fetched from.
    pub addr: u16,
}

/// What one execution step did: normal completion, a fatal halt, or a
/// transition into the blocked-on-key state with the register that the
/// awaited key code must go to.
#[derive(Clone, Copy, Debug, PartialEq, Eq, Structural)]
pub enum StepOutcome {
    /// The instruction completed; stepping may continue.
    Continuing,
    /// Execution halted on a fatal error; no transition leaves this.
    Halted(Fault),
    /// The machine waits for a key press; its code goes to the register.
    BlockedOnKey(u8),
}

/// Mathematical view of the whole machine state.
#[verifier::ext_equal]
pub ghost struct StateView {
    /// The sixteen general registers V0..VF.
    pub v: Seq<u8>,
    /// The address register I.
    pub i: u16,
    /// The program counter.
    pub pc: u16,
    /// Return addresses, most recent last.
    pub stack: Seq<u16>,
    /// The delay timer.
    pub delay: u8,
    /// The sound timer.
    pub sound: u8,
    /// The 4096 memory bytes.
    pub mem: Seq<u8>,
    /// The framebuffer, row-major: cell `row * 64 + col`.
    pub fb: Seq<bool>,
    /// Whether the framebuffer changed since the renderer last read it.
    pub fb_dirty: bool,
    /// Pressed state of the sixteen logical keys.
    pub keys: Seq<bool>,
    /// Quirk: shift instructions read Vy instead of shifting Vx in place.
    pub shift_from_vy: bool,
    /// Quirk: bulk register transfer advances I past the copied range.
    pub bulk_advances_i: bool,
    /// Quirk: sprite pixels wrap at the screen edge instead of clipping.
    pub sprite_wrap: bool,
}

impl StateView {
    /// Structural bounds every reachable machine state satisfies.
    pub open spec fn wf(self) -> bool {
        &&& self.v.len() == 16
        &&& self.mem.len() == MEM_SIZE
        &&& self.fb.len() == FB_LEN
        &&& self.keys.len() == 16
        &&& self.stack.len() <= STACK_LIMIT
    }
}

/// The machine state held by the run loop and mutated one instruction at a
/// time. Fields are public; every operation requires and preserves `wf`.
pub struct Chip8State {
    /// The sixteen general registers V0..VF.
    pub v: Vec<u8>,
    /// The address register I.
    pub i: u16,
    /// The program counter.
    pub pc: u16,
    /// Return addresses, most recent last.
    pub stack: Vec<u16>,
    /// The delay timer.
    pub delay: u8,
    /// The sound timer.
    pub sound: u8,
    /// The 4096 memory bytes: font table at 0x000..0x050, program at 0x200.
    pub memory: Vec<u8>,
    /// The framebuffer, row-major: cell `row * 64 + col`.
    pub fb: Vec<bool>,
    /// Whether the framebuffer changed since the renderer last read it.
    pub fb_dirty: bool,
    /// Pressed state of the sixteen logical keys.
    pub keys: Vec<bool>,
    /// Quirk: shift instructions read Vy instead of shifting Vx in place.
    /// Off by default: shifts act on Vx alone.
    pub shift_from_vy: bool,
    /// Quirk: bulk register transfer advances I past the copied range.
    /// On by default.
    pub bulk_advances_i: bool,
    /// Quirk: sprite pixels wrap at the screen edge instead of clipping.
    /// Off by default: rows and columns clip at the edge.
    pub sprite_wrap: bool,
}

impl View for Chip8State {
    type V = StateView;

    open spec fn view(&self) -> StateView {
        StateView {
            v: self.v@,
            i: self.i,
            pc: self.pc,
            stack: self.stack@,
            delay: self.delay,
            sound: self.sound,
            mem: self.memory@,
            fb: self.fb@,
            fb_dirty: self.fb_dirty,
            keys: self.keys@,
            shift_from_vy: self.shift_from_vy,
            bulk_advances_i: self.bulk_advances_i,
            sprite_wrap: self.sprite_wrap,
        }
    }
}

/// Reads the two instruction bytes at `pc`: the high byte first, as they are
/// fetched for decoding.
pub fn get_codes(memory: &Vec<u8>, pc: usize) -> (codes: (u8, u8))
    requires
        memory@.len() == MEM_SIZE,
        pc + 1 < MEM_SIZE,
    ensures
        codes.0 == memory@[pc as int],
        codes.1 == memory@[pc as int + 1],
{
    let code0 = memory[pc];
    let code1 = memory[pc + 1];
    (code0, code1)
}

impl Chip8State {
    /// True while the sound timer is running; the run loop polls this to
    /// drive the external audio collaborator.
    pub fn sound_active(&self) -> (active: bool)
        ensures
            active == (self@.sound > 0),
    {
        self.sound > 0
    }

    /// Reads one framebuffer cell.
    pub fn get_pixel(&self, x: usize, y: usize) -> (on: bool)
        requires
            self@.wf(),
            x < SCREEN_W,
            y < SCREEN_H,
        ensures
            on == self@.fb[y * SCREEN_W + x],
    {
        self.fb[y * SCREEN_W + x]
    }

    /// Records the pressed state of one logical key, as reported by the
    /// external input collaborator before a cycle.
    pub fn set_key(&mut self, code: u8, pressed: bool)
        requires
            old(self)@.wf(),
            code < 16,
        ensures
            final(self)@ == (StateView { keys: old(self)@.keys.update(code as int, pressed), ..old(self)@ }),
            final(self)@.wf(),
    {
        self.keys.set(code as usize, pressed);
    }

    /// True if the key with the given code is currently pressed.
    pub fn is_pressed(&self, code: u8) -> (pressed: bool)
        requires
            self@.wf(),
            code < 16,
        ensures
            pressed == self@.keys[code as int],
    {
        self.keys[code as usize]
    }

    /// Delivers the awaited key press while the machine is blocked on a
    /// key: writes the key code into the target register, after which
    /// stepping may resume.
    pub fn supply_key(&mut self, target: u8, code: u8)
        requires
            old(self)@.wf(),
            target < 16,
            code < 16,
        ensures
            final(self)@ == (StateView { v: old(self)@.v.update(target as int, code), ..old(self)@ }),
            final(self)@.wf(),
    {
        self.v.set(target as usize, code);
    }
}

/// The sixteen built-in 5-byte glyph sprites for the hex digits 0..F.
pub open spec fn font_seq() -> Seq<u8> {
    seq![
        0xf0u8, 0x90, 0x90, 0x90, 0xf0,
        0x20, 0x60, 0x20, 0x20, 0x70,
        0xf0, 0x10, 0xf0, 0x80, 0xf0,
        0xf0, 0x10, 0xf0, 0x10, 0xf0,
        0x90, 0x90, 0xf0, 0x10, 0x10,
        0xf0, 0x80, 0xf0, 0x10, 0xf0,
        0xf0, 0x80, 0xf0, 0x90, 0xf0,
        0xf0, 0x10, 0x20, 0x40, 0x40,
        0xf0, 0x90, 0xf0, 0x90, 0xf0,
        0xf0, 0x90, 0xf0, 0x10, 0xf0,
        0xf0, 0x90, 0xf0, 0x90, 0x90,
        0xe0, 0x90, 0xe0, 0x90, 0xe0,
        0xf0, 0x80, 0x80, 0x80, 0xf0,
        0xe0, 0x90, 0x90, 0x90, 0xe0,
        0xf0, 0x80, 0xf0, 0x80, 0xf0,
        0xf0, 0x80, 0xf0, 0x80, 0x80,
    ]
}

/// Memory at power-on: the font table in the first 80 bytes, zeros
/// everywhere else.
pub open spec fn initial_mem() -> Seq<u8> {
    Seq::new(MEM_SIZE as nat, |a: int| if 0 <= a < 80 { font_seq()[a] } else { 0u8 })
}

impl StateView {
    /// The machine at power-on, before a program is loaded: registers,
    /// timers, stack, framebuffer and keys cleared, the program counter at
    /// the program start address, and the default quirk settings.
    pub open spec fn initial() -> StateView {
        StateView {
            v: Seq::new(16, |k: int| 0u8),
            i: 0,
            pc: PROG_START as u16,
            stack: Seq::empty(),
            delay: 0,
            sound: 0,
            mem: initial_mem(),
            fb: Seq::new(FB_LEN as nat, |p: int| false),
            fb_dirty: false,
            keys: Seq::new(16, |k: int| false),
            shift_from_vy: false,
            bulk_advances_i: true,
            sprite_wrap: false,
        }
    }
}

/// A vector of `n` copies of one byte.
fn filled_u8(n: usize, val: u8) -> (v: Vec<u8>)
    ensures
        v@ == Seq::new(n as nat, |k: int| val),
{
    let mut v: Vec<u8> = Vec::new();
    let mut k: usize = 0;
    while k < n
        invariant
            k <= n,
            v@ =~= Seq::new(k as nat, |q: int| val),
        decreases n - k,
    {
        v.push(val);
        k += 1;
    }
    proof {
        assert(v@ =~= Seq::new(n as nat, |q: int| val));
    }
    v
}

/// A vector of `n` copies of one flag.
pub(crate) fn filled_bool(n: usize, val: bool) -> (v: Vec<bool>)
    ensures
        v@ == Seq::new(n as nat, |k: int| val),
{
    let mut v: Vec<bool> = Vec::new();
    let mut k: usize = 0;
    while k < n
        invariant
            k <= n,
            v@ =~= Seq::new(k as nat, |q: int| val),
        decreases n - k,
    {
        v.push(val);
        k += 1;
    }
    proof {
        assert(v@ =~= Seq::new(n as nat, |q: int| val));
    }
    v
}

/// The font table as bytes.
fn font_vec() -> (f: Vec<u8>)
    ensures
        f@ == font_seq(),
{
    let mut f: Vec<u8> = Vec::new();
    f.push(0xf0); f.push(0x90); f.push(0x90); f.push(0x90); f.push(0xf0);
    f.push(0x20); f.push(0x60); f.push(0x20); f.push(0x20); f.push(0x70);
    f.push(0xf0); f.push(0x10); f.push(0xf0); f.push(0x80); f.push(0xf0);
    f.push(0xf0); f.push(0x10); f.push(0xf0); f.push(0x10); f.push(0xf0);
    f.push(0x90); f.push(0x90); f.push(0xf0); f.push(0x10); f.push(0x10);
    f.push(0xf0); f.push(0x80); f.push(0xf0); f.push(0x10); f.push(0xf0);
    f.push(0xf0); f.push(0x80); f.push(0xf0); f.push(0x90); f.push(0xf0);
    f.push(0xf0); f.push(0x10); f.push(0x20); f.push(0x40); f.push(0x40);
    f.push(0xf0); f.push(0x90); f.push(0xf0); f.push(0x90); f.push(0xf0);
    f.push(0xf0); f.push(0x90); f.push(0xf0); f.push(0x10); f.push(0xf0);
    f.push(0xf0); f.push(0x90); f.push(0xf0); f.push(0x90); f.push(0x90);
    f.push(0xe0); f.push(0x90); f.push(0xe0); f.push(0x90); f.push(0xe0);
    f.push(0xf0); f.push(0x80); f.push(0x80); f.push(0x80); f.push(0xf0);
    f.push(0xe0); f.push(0x90); f.push(0x90); f.push(0x90); f.push(0xe0);
    f.push(0xf0); f.push(0x80); f.push(0xf0); f.push(0x80); f.push(0xf0);
    f.push(0xf0); f.push(0x80); f.push(0xf0); f.push(0x80); f.push(0x80);
    proof {
        assert(f@ =~= font_seq());
    }
    f
}

/// Memory after copying a program into the program region, the rest kept.
pub open spec fn loaded_mem(mem: Seq<u8>, rom: Seq<u8>) -> Seq<u8> {
    Seq::new(MEM_SIZE as nat, |a: int|
        if PROG_START <= a < PROG_START + rom.len() {
            rom[a - PROG_START]
        } else {
            mem[a]
        })
}

impl Chip8State {
    /// A machine at power-on: font table copied into low memory, program
    /// counter at the program start address, everything else cleared, and
    /// the documented default quirk settings (shift acts on Vx in place,
    /// bulk register transfer advances I, sprites clip at the edge).
    pub fn new() -> (machine: Chip8State)
        ensures
            machine@ == StateView::initial(),
            machine@.wf(),
    {
        let mut memory = filled_u8(MEM_SIZE, 0);
        let font = font_vec();
        let mut k: usize = 0;
        while k < 80
            invariant
                k <= 80,
                font@ == font_seq(),
                memory@.len() == MEM_SIZE,
                forall|a: int| 0 <= a < MEM_SIZE ==> memory@[a] == if 0 <= a < k { font_seq()[a] } else { 0u8 },
            decreases 80 - k,
        {
            memory.set(k, font[k]);
            k += 1;
        }
        proof {
            assert(memory@ =~= initial_mem());
        }
        let machine = Chip8State {
            v: filled_u8(16, 0),
            i: 0,
            pc: PROG_START as u16,
            stack: Vec::new(),
            delay: 0,
            sound: 0,
            memory,
            fb: filled_bool(FB_LEN, false),
            fb_dirty: false,
            keys: filled_bool(16, false),
            shift_from_vy: false,
            bulk_advances_i: true,
            sprite_wrap: false,
        };
        proof {
            assert(machine@ =~= StateView::initial());
        }
        machine
    }

    /// Copies a program into memory starting at the program start address.
    /// Fails, leaving the machine unchanged, exactly when the program does
    /// not fit.
    pub fn load_rom(&mut self, rom: &Vec<u8>) -> (res: Result<(), Fault>)
        requires
            old(self)@.wf(),
        ensures
            final(self)@.wf(),
            match res {
                Ok(()) => rom@.len() <= MAX_ROM && final(self)@ == (StateView {
                    mem: loaded_mem(old(self)@.mem, rom@),
                    ..old(self)@
                }),
                Err(f) => rom@.len() > MAX_ROM && f == (Fault {
                    kind: ErrorKind::RomTooLarge,
                    opcode: 0,
                    addr: PROG_START as u16,
                }) && final(self)@ == old(self)@,
            },
    {
        if rom.len() > MAX_ROM {
            return Err(Fault { kind: ErrorKind::RomTooLarge, opcode: 0, addr: PROG_START as u16 });
        }
        let n = rom.len();
        let mut k: usize = 0;
        while k < n
            invariant
                k <= n,
                n == rom@.len(),
                n <= MAX_ROM,
                self@.mem.len() == MEM_SIZE,
                forall|a: int| 0 <= a < MEM_SIZE ==> self@.mem[a]
                    == if PROG_START <= a < PROG_START + k { rom@[a - PROG_START] } else { old(self)@.mem[a] },
                self@ == (StateView { mem: self@.mem, ..old(self)@ }),
            decreases n - k,
        {
            self.memory.set(PROG_START + k, rom[k]);
            k += 1;
        }
        proof {
            assert(self@.mem =~= loaded_mem(old(self)@.mem, rom@));
            assert(self@ =~= (StateView { mem: loaded_mem(old(self)@.mem, rom@), ..old(self)@ }));
        }
        Ok(())
    }
}

} // verus!
