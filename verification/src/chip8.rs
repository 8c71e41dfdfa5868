//! The processor model: its state, the decoded instruction set, and the
//! specification-level meaning of one fetch-decode-execute cycle.

use rand::Rng;
use vstd::prelude::*;

verus! {

pub const MEM_SIZE: usize = 4096;
pub const ROM_START: usize = 512;
pub const NUM_REGS: usize = 16;
pub const SCREEN_WIDTH: usize = 64;
pub const SCREEN_HEIGHT: usize = 32;
pub const SCREEN_SIZE: usize = 2048;
pub const STACK_SIZE: usize = 16;
pub const NUM_KEYS: usize = 16;
pub const FONTSET_SIZE: usize = 80;

/// The processor state. Fields are public so that a host, debugger or
/// disassembler can inspect registers, memory and the display, and can
/// overwrite the key snapshot before each cycle.
pub struct Cpu {
    pub fontset: Vec<u8>,
    pub memory: Vec<u8>,
    pub v: Vec<u8>,
    pub i: u16,
    pub pc: u16,
    pub screen: Vec<bool>,
    pub delay_timer: u8,
    pub sound_timer: u8,
    pub stack: Vec<u16>,
    pub stack_pointer: u16,
    pub keys: Vec<bool>,
    pub is_wating: bool,
    pub key_register: usize,
}

/// The mathematical model of a processor state: the same fields with
/// sequences in place of vectors.
#[verifier::ext_equal]
pub ghost struct CpuView {
    pub fontset: Seq<u8>,
    pub memory: Seq<u8>,
    pub v: Seq<u8>,
    pub i: u16,
    pub pc: u16,
    pub screen: Seq<bool>,
    pub delay_timer: u8,
    pub sound_timer: u8,
    pub stack: Seq<u16>,
    pub stack_pointer: u16,
    pub keys: Seq<bool>,
    pub is_wating: bool,
    pub key_register: usize,
}

impl View for Cpu {
    type V = CpuView;

    open spec fn view(&self) -> CpuView {
        CpuView {
            fontset: self.fontset@,
            memory: self.memory@,
            v: self.v@,
            i: self.i,
            pc: self.pc,
            screen: self.screen@,
            delay_timer: self.delay_timer,
            sound_timer: self.sound_timer,
            stack: self.stack@,
            stack_pointer: self.stack_pointer,
            keys: self.keys@,
            is_wating: self.is_wating,
            key_register: self.key_register,
        }
    }
}

impl CpuView {
    /// All fixed-size buffers have their architectural sizes and the two
    /// index-like fields stay inside them.
    pub open spec fn wf(self) -> bool {
        &&& self.fontset.len() == FONTSET_SIZE
        &&& self.memory.len() == MEM_SIZE
        &&& self.v.len() == NUM_REGS
        &&& self.screen.len() == SCREEN_SIZE
        &&& self.stack.len() == STACK_SIZE
        &&& self.keys.len() == NUM_KEYS
        &&& self.stack_pointer < STACK_SIZE
        &&& self.key_register < NUM_REGS
    }

    pub open spec fn with_memory(self, memory: Seq<u8>) -> CpuView {
        CpuView { memory, ..self }
    }

    pub open spec fn with_screen(self, screen: Seq<bool>) -> CpuView {
        CpuView { screen, ..self }
    }

    pub open spec fn with_v(self, v: Seq<u8>) -> CpuView {
        CpuView { v, ..self }
    }

    pub open spec fn with_pc(self, pc: u16) -> CpuView {
        CpuView { pc, ..self }
    }
}

impl Cpu {
    pub open spec fn wf(&self) -> bool {
        self@.wf()
    }
}

/// The built-in font: sixteen glyphs of five bytes each.
pub open spec fn spec_fontset() -> Seq<u8> {
    seq![
        0xF0u8, 0x90, 0x90, 0x90, 0xF0, 0x20, 0x60, 0x20, 0x20, 0x70, 0xF0, 0x10, 0xF0, 0x80,
        0xF0, 0xF0, 0x10, 0xF0, 0x10, 0xF0, 0x90, 0x90, 0xF0, 0x10, 0x10, 0xF0, 0x80, 0xF0,
        0x10, 0xF0, 0xF0, 0x80, 0xF0, 0x90, 0xF0, 0xF0, 0x10, 0x20, 0x40, 0x40, 0xF0, 0x90,
        0xF0, 0x90, 0xF0, 0xF0, 0x90, 0xF0, 0x10, 0xF0, 0xF0, 0x90, 0xF0, 0x90, 0x90, 0xE0,
        0x90, 0xE0, 0x90, 0xE0, 0xF0, 0x80, 0x80, 0x80, 0xF0, 0xE0, 0x90, 0x90, 0x90, 0xE0,
        0xF0, 0x80, 0xF0, 0x80, 0xF0, 0xF0, 0x80, 0xF0, 0x80, 0x80,
    ]
}

fn filled<T: Copy>(len: usize, val: T) -> (v: Vec<T>)
    ensures
        v@ == Seq::new(len as nat, |k: int| val),
{
    let mut v: Vec<T> = Vec::new();
    let mut k: usize = 0;
    while k < len
        invariant
            k <= len,
            v@ == Seq::new(k as nat, |j: int| val),
        decreases len - k,
    {
        v.push(val);
        k = k + 1;
        proof {
            assert(v@ =~= Seq::new(k as nat, |j: int| val));
        }
    }
    v
}

/// A freshly constructed processor: font data held aside, memory and all
/// registers zeroed, and the program counter at the start of the program
/// image.
pub fn create_cpu() -> (cpu: Cpu)
    ensures
        cpu.wf(),
        cpu@.fontset == spec_fontset(),
        cpu@.memory == Seq::new(MEM_SIZE as nat, |k: int| 0u8),
        cpu@.v == Seq::new(NUM_REGS as nat, |k: int| 0u8),
        cpu@.i == 0,
        cpu@.pc == 0x200,
        cpu@.screen == Seq::new(SCREEN_SIZE as nat, |k: int| false),
        cpu@.delay_timer == 0,
        cpu@.sound_timer == 0,
        cpu@.stack == Seq::new(STACK_SIZE as nat, |k: int| 0u16),
        cpu@.stack_pointer == 0,
        cpu@.keys == Seq::new(NUM_KEYS as nat, |k: int| false),
        cpu@.is_wating == false,
        cpu@.key_register == 0,
{
    let fontset: Vec<u8> = vec![
        0xF0u8, 0x90, 0x90, 0x90, 0xF0, 0x20, 0x60, 0x20, 0x20, 0x70, 0xF0, 0x10, 0xF0, 0x80,
        0xF0, 0xF0, 0x10, 0xF0, 0x10, 0xF0, 0x90, 0x90, 0xF0, 0x10, 0x10, 0xF0, 0x80, 0xF0,
        0x10, 0xF0, 0xF0, 0x80, 0xF0, 0x90, 0xF0, 0xF0, 0x10, 0x20, 0x40, 0x40, 0xF0, 0x90,
        0xF0, 0x90, 0xF0, 0xF0, 0x90, 0xF0, 0x10, 0xF0, 0xF0, 0x90, 0xF0, 0x90, 0x90, 0xE0,
        0x90, 0xE0, 0x90, 0xE0, 0xF0, 0x80, 0x80, 0x80, 0xF0, 0xE0, 0x90, 0x90, 0x90, 0xE0,
        0xF0, 0x80, 0xF0, 0x80, 0xF0, 0xF0, 0x80, 0xF0, 0x80, 0x80,
    ];
    proof {
        assert(fontset@ =~= spec_fontset());
    }
    Cpu {
        fontset,
        memory: filled(MEM_SIZE, 0u8),
        v: filled(NUM_REGS, 0u8),
        i: 0,
        pc: 0x200,
        screen: filled(SCREEN_SIZE, false),
        delay_timer: 0,
        sound_timer: 0,
        stack: filled(STACK_SIZE, 0u16),
        stack_pointer: 0,
        keys: filled(NUM_KEYS, false),
        is_wating: false,
        key_register: 0,
    }
}

/// An attempted program load that does not fit above the reserved region.
#[derive(Clone, Copy, PartialEq, Eq, Structural, Debug)]
pub enum RomError {
    TooLarge,
}

impl Cpu {
    /// Copies the built-in font into the low bytes of memory; everything else
    /// is untouched.
    pub fn initialize(&mut self)
        requires
            old(self).wf(),
        ensures
            final(self).wf(),
            final(self)@ == old(self)@.with_memory(
                old(self)@.fontset + old(self)@.memory.skip(FONTSET_SIZE as int),
            ),
    {
        let mut k: usize = 0;
        while k < FONTSET_SIZE
            invariant
                old(self).wf(),
                self.wf(),
                k <= FONTSET_SIZE,
                self@ == old(self)@.with_memory(self@.memory),
                forall|j: int| 0 <= j < k ==> self@.memory[j] == old(self)@.fontset[j],
                forall|j: int| k <= j < MEM_SIZE ==> self@.memory[j] == old(self)@.memory[j],
            decreases FONTSET_SIZE - k,
        {
            let b = self.fontset[k];
            self.memory.set(k, b);
            k = k + 1;
        }
        proof {
            assert(self@.memory =~= old(self)@.fontset + old(self)@.memory.skip(
                FONTSET_SIZE as int,
            ));
            assert(self@ =~= old(self)@.with_memory(
                old(self)@.fontset + old(self)@.memory.skip(FONTSET_SIZE as int),
            ));
        }
    }

    /// Copies a program image verbatim into memory starting at the program
    /// region. An image longer than the space above that region is rejected
    /// whole and the processor is left unchanged.
    pub fn load_rom(&mut self, rom: &Vec<u8>) -> (r: Result<(), RomError>)
        requires
            old(self).wf(),
        ensures
            final(self).wf(),
            r is Ok <==> rom@.len() <= MEM_SIZE - ROM_START,
            r is Err ==> r == Err::<(), RomError>(RomError::TooLarge) && final(self)@ == old(
                self,
            )@,
            r is Ok ==> final(self)@ == old(self)@.with_memory(
                old(self)@.memory.take(ROM_START as int) + rom@ + old(self)@.memory.skip(
                    ROM_START + rom@.len(),
                ),
            ),
    {
        if rom.len() > MEM_SIZE - ROM_START {
            return Err(RomError::TooLarge);
        }
        let mut k: usize = 0;
        while k < rom.len()
            invariant
                old(self).wf(),
                self.wf(),
                k <= rom@.len(),
                rom@.len() <= MEM_SIZE - ROM_START,
                self@ == old(self)@.with_memory(self@.memory),
                forall|j: int| 0 <= j < ROM_START ==> self@.memory[j] == old(self)@.memory[j],
                forall|j: int| 0 <= j < k ==> self@.memory[ROM_START + j] == rom@[j],
                forall|j: int|
                    ROM_START + k <= j < MEM_SIZE ==> self@.memory[j] == old(self)@.memory[j],
            decreases rom@.len() - k,
        {
            let b = rom[k];
            self.memory.set(ROM_START + k, b);
            k = k + 1;
        }
        proof {
            assert(self@.memory =~= old(self)@.memory.take(ROM_START as int) + rom@ + old(
                self,
            )@.memory.skip(ROM_START + rom@.len()));
            assert(self@ =~= old(self)@.with_memory(
                old(self)@.memory.take(ROM_START as int) + rom@ + old(self)@.memory.skip(
                    ROM_START + rom@.len(),
                ),
            ));
        }
        Ok(())
    }

    /// Turns every display cell off.
    pub fn clear_screen(&mut self)
        requires
            old(self).wf(),
        ensures
            final(self).wf(),
            final(self)@ == old(self)@.with_screen(Seq::new(SCREEN_SIZE as nat, |k: int| false)),
    {
        let mut k: usize = 0;
        while k < SCREEN_SIZE
            invariant
                old(self).wf(),
                self.wf(),
                k <= SCREEN_SIZE,
                self@ == old(self)@.with_screen(self@.screen),
                forall|j: int| 0 <= j < k ==> self@.screen[j] == false,
            decreases SCREEN_SIZE - k,
        {
            self.screen.set(k, false);
            k = k + 1;
        }
        proof {
            assert(self@.screen =~= Seq::new(SCREEN_SIZE as nat, |k: int| false));
            assert(self@ =~= old(self)@.with_screen(Seq::new(SCREEN_SIZE as nat, |k: int| false)));
        }
    }
}

/// The display cell a sprite row's column `c` and row `r` land on when the
/// sprite is anchored at `(x, y)`: both axes wrap independently.
pub open spec fn pix(x: int, y: int, r: int, c: int) -> int {
    (x + c) % 64 + ((y + r) % 32) * 64
}

/// Whether column `c` (0 = leftmost, most significant bit) of a sprite row is
/// set.
pub open spec fn sprite_bit(line: u8, c: int) -> bool {
    line & (0x80u8 >> (c as u8)) != 0
}

/// XOR-composites a single sprite bit onto the screen: a set bit flips its
/// cell, and turning an "on" cell off records a collision in the flag.
pub open spec fn draw_bit(
    st: (Seq<bool>, u8),
    x: int,
    y: int,
    r: int,
    line: u8,
    c: int,
) -> (Seq<bool>, u8) {
    if sprite_bit(line, c) {
        let p = pix(x, y, r, c);
        if st.0[p] {
            (st.0.update(p, false), 1u8)
        } else {
            (st.0.update(p, true), st.1)
        }
    } else {
        st
    }
}

/// Composites the first `c` columns of one sprite row, leftmost first.
pub open spec fn draw_row(
    st: (Seq<bool>, u8),
    x: int,
    y: int,
    r: int,
    line: u8,
    c: int,
) -> (Seq<bool>, u8)
    decreases c,
{
    if c <= 0 {
        st
    } else {
        draw_bit(draw_row(st, x, y, r, line, c - 1), x, y, r, line, c - 1)
    }
}

/// Composites the first `r` sprite rows, read from memory starting at
/// address `i` (addresses wrap around the memory image), top row first.
pub open spec fn draw_rows(
    st: (Seq<bool>, u8),
    x: int,
    y: int,
    mem: Seq<u8>,
    i: int,
    r: int,
) -> (Seq<bool>, u8)
    decreases r,
{
    if r <= 0 {
        st
    } else {
        let prev = draw_rows(st, x, y, mem, i, r - 1);
        draw_row(prev, x, y, r - 1, mem[(i + r - 1) % (MEM_SIZE as int)], 8)
    }
}

/// The screen and collision flag after drawing an `n`-row sprite taken from
/// memory at the index register, anchored at `(x, y)`, over a clear flag.
pub open spec fn spec_draw(s: CpuView, x: int, y: int, n: int) -> (Seq<bool>, u8) {
    draw_rows((s.screen, 0u8), x, y, s.memory, s.i as int, n)
}

impl Cpu {
    /// XOR-blits an `height`-row sprite, read from memory at the index
    /// register, onto the screen at `(x, y)` with toroidal wraparound; VF is
    /// reset and then set exactly when some "on" cell was turned off.
    pub fn draw(&mut self, x: usize, y: usize, height: u16)
        requires
            old(self).wf(),
        ensures
            final(self).wf(),
            final(self)@ == old(self)@.with_screen(
                spec_draw(old(self)@, x as int, y as int, height as int).0,
            ).with_v(
                old(self)@.v.update(
                    15,
                    spec_draw(old(self)@, x as int, y as int, height as int).1,
                ),
            ),
    {
        let ghost s0 = old(self)@;
        let ghost xi = x as int;
        let ghost yi = y as int;
        let bx = x % SCREEN_WIDTH;
        let by = y % SCREEN_HEIGHT;
        self.v.set(15, 0);
        proof {
            assert(self@ =~= s0.with_screen(self@.screen).with_v(s0.v.update(15, self@.v[15])));
        }
        let mut j: usize = 0;
        while j < height as usize
            invariant
                s0.wf(),
                self.wf(),
                j <= height,
                bx == xi % 64,
                by == yi % 32,
                self@ == s0.with_screen(self@.screen).with_v(s0.v.update(15, self@.v[15])),
                self@.screen == draw_rows((s0.screen, 0u8), xi, yi, s0.memory, s0.i as int, j as int).0,
                self@.v[15] == draw_rows((s0.screen, 0u8), xi, yi, s0.memory, s0.i as int, j as int).1,
            decreases height - j,
        {
            let line = self.memory[((self.i as usize) + j) % MEM_SIZE];
            let ghost row_start = draw_rows((s0.screen, 0u8), xi, yi, s0.memory, s0.i as int, j as int);
            let mut c: usize = 0;
            while c < 8
                invariant
                    s0.wf(),
                    self.wf(),
                    c <= 8,
                    j < height,
                    bx == xi % 64,
                    by == yi % 32,
                    line == s0.memory[(s0.i as int + j as int) % (MEM_SIZE as int)],
                    self@ == s0.with_screen(self@.screen).with_v(s0.v.update(15, self@.v[15])),
                    self@.screen == draw_row(row_start, xi, yi, j as int, line, c as int).0,
                    self@.v[15] == draw_row(row_start, xi, yi, j as int, line, c as int).1,
                decreases 8 - c,
            {
                if line & (0x80u8 >> (c as u8)) != 0 {
                    let p = (bx + c) % SCREEN_WIDTH + ((by + j) % SCREEN_HEIGHT) * SCREEN_WIDTH;
                    proof {
                        vstd::arithmetic::div_mod::lemma_add_mod_noop(xi, c as int, 64);
                        vstd::arithmetic::div_mod::lemma_add_mod_noop(xi % 64, c as int, 64);
                        vstd::arithmetic::div_mod::lemma_mod_twice(xi, 64);
                        vstd::arithmetic::div_mod::lemma_add_mod_noop(yi, j as int, 32);
                        vstd::arithmetic::div_mod::lemma_add_mod_noop(yi % 32, j as int, 32);
                        vstd::arithmetic::div_mod::lemma_mod_twice(yi, 32);
                        vstd::arithmetic::div_mod::lemma_mod_bound(xi + c, 64);
                        vstd::arithmetic::div_mod::lemma_mod_bound(yi + j, 32);
                        assert(p as int == pix(xi, yi, j as int, c as int));
                        assert(p < SCREEN_SIZE);
                    }
                    if self.screen[p] {
                        self.v.set(15, 1);
                        self.screen.set(p, false);
                    } else {
                        self.screen.set(p, true);
                    }
                }
                c = c + 1;
                proof {
                    assert(draw_row(row_start, xi, yi, j as int, line, c as int) == draw_bit(
                        draw_row(row_start, xi, yi, j as int, line, c as int - 1),
                        xi,
                        yi,
                        j as int,
                        line,
                        c as int - 1,
                    ));
                    assert(self@.screen == draw_row(row_start, xi, yi, j as int, line, c as int).0);
                }
            }
            j = j + 1;
            proof {
                assert(draw_rows((s0.screen, 0u8), xi, yi, s0.memory, s0.i as int, j as int)
                    == draw_row(
                    draw_rows((s0.screen, 0u8), xi, yi, s0.memory, s0.i as int, j as int - 1),
                    xi,
                    yi,
                    j as int - 1,
                    s0.memory[(s0.i as int + j as int - 1) % (MEM_SIZE as int)],
                    8,
                ));
            }
        }
        proof {
            assert(self@ =~= s0.with_screen(
                spec_draw(s0, xi, yi, height as int).0,
            ).with_v(s0.v.update(15, spec_draw(s0, xi, yi, height as int).1)));
        }
    }
}

/// One instruction, decoded: the operation together with its operand fields.
/// The interpreter and the disassembler both work from this decoding, so the
/// two can never disagree on the pattern set or on operand extraction.
#[derive(Clone, Copy, PartialEq, Eq, Structural, Debug)]
pub enum Instr {
    Cls,
    Ret,
    Jp(u16),
    Call(u16),
    SeByte(u8, u8),
    SneByte(u8, u8),
    SeReg(u8, u8),
    LdByte(u8, u8),
    AddByte(u8, u8),
    LdReg(u8, u8),
    OrReg(u8, u8),
    AndReg(u8, u8),
    XorReg(u8, u8),
    AddReg(u8, u8),
    SubReg(u8, u8),
    ShrReg(u8, u8),
    SubnReg(u8, u8),
    ShlReg(u8, u8),
    SneReg(u8, u8),
    LdI(u16),
    JpV0(u16),
    Rnd(u8, u8),
    Drw(u8, u8, u8),
    Skp(u8),
    Sknp(u8),
    LdVxDt(u8),
    LdVxKey(u8),
    LdDtVx(u8),
    LdStVx(u8),
    AddIVx(u8),
    LdFontVx(u8),
    LdBcd(u8),
    LdMemVx(u8),
    LdVxMem(u8),
    Unknown(u16),
}

/// The fixed instruction encoding: four-nibble pattern match, with a low byte
/// of 0xEE taken as a return whatever the high nibbles hold.
pub open spec fn decode(w: u16) -> Instr {
    let op1 = (w & 0xF000) >> 12;
    let op3 = (w & 0x00F0) >> 4;
    let op4 = w & 0x000F;
    let nnn = w & 0x0FFF;
    let kk = (w & 0x00FF) as u8;
    let n = (w & 0x000F) as u8;
    let x = ((w & 0x0F00) >> 8) as u8;
    let y = ((w & 0x00F0) >> 4) as u8;
    if w == 0x00E0 {
        Instr::Cls
    } else if op3 == 0xE && op4 == 0xE {
        Instr::Ret
    } else if op1 == 0x1 {
        Instr::Jp(nnn)
    } else if op1 == 0x2 {
        Instr::Call(nnn)
    } else if op1 == 0x3 {
        Instr::SeByte(x, kk)
    } else if op1 == 0x4 {
        Instr::SneByte(x, kk)
    } else if op1 == 0x5 && op4 == 0x0 {
        Instr::SeReg(x, y)
    } else if op1 == 0x6 {
        Instr::LdByte(x, kk)
    } else if op1 == 0x7 {
        Instr::AddByte(x, kk)
    } else if op1 == 0x8 && op4 == 0x0 {
        Instr::LdReg(x, y)
    } else if op1 == 0x8 && op4 == 0x1 {
        Instr::OrReg(x, y)
    } else if op1 == 0x8 && op4 == 0x2 {
        Instr::AndReg(x, y)
    } else if op1 == 0x8 && op4 == 0x3 {
        Instr::XorReg(x, y)
    } else if op1 == 0x8 && op4 == 0x4 {
        Instr::AddReg(x, y)
    } else if op1 == 0x8 && op4 == 0x5 {
        Instr::SubReg(x, y)
    } else if op1 == 0x8 && op4 == 0x6 {
        Instr::ShrReg(x, y)
    } else if op1 == 0x8 && op4 == 0x7 {
        Instr::SubnReg(x, y)
    } else if op1 == 0x8 && op4 == 0xE {
        Instr::ShlReg(x, y)
    } else if op1 == 0x9 && op4 == 0x0 {
        Instr::SneReg(x, y)
    } else if op1 == 0xA {
        Instr::LdI(nnn)
    } else if op1 == 0xB {
        Instr::JpV0(nnn)
    } else if op1 == 0xC {
        Instr::Rnd(x, kk)
    } else if op1 == 0xD {
        Instr::Drw(x, y, n)
    } else if op1 == 0xE && op3 == 0x9 && op4 == 0xE {
        Instr::Skp(x)
    } else if op1 == 0xE && op3 == 0xA && op4 == 0x1 {
        Instr::Sknp(x)
    } else if op1 == 0xF && op3 == 0x0 && op4 == 0x7 {
        Instr::LdVxDt(x)
    } else if op1 == 0xF && op3 == 0x0 && op4 == 0xA {
        Instr::LdVxKey(x)
    } else if op1 == 0xF && op3 == 0x1 && op4 == 0x5 {
        Instr::LdDtVx(x)
    } else if op1 == 0xF && op3 == 0x1 && op4 == 0x8 {
        Instr::LdStVx(x)
    } else if op1 == 0xF && op3 == 0x1 && op4 == 0xE {
        Instr::AddIVx(x)
    } else if op1 == 0xF && op3 == 0x2 && op4 == 0x9 {
        Instr::LdFontVx(x)
    } else if op1 == 0xF && op3 == 0x3 && op4 == 0x3 {
        Instr::LdBcd(x)
    } else if op1 == 0xF && op3 == 0x5 && op4 == 0x5 {
        Instr::LdMemVx(x)
    } else if op1 == 0xF && op3 == 0x6 && op4 == 0x5 {
        Instr::LdVxMem(x)
    } else {
        Instr::Unknown(w)
    }
}

/// Executable decoding, equal to the specification-level one.
pub fn decode_instr(w: u16) -> (instr: Instr)
    ensures
        instr == decode(w),
{
    let op1 = (w & 0xF000) >> 12;
    let op3 = (w & 0x00F0) >> 4;
    let op4 = w & 0x000F;
    let nnn = w & 0x0FFF;
    let kk = (w & 0x00FF) as u8;
    let n = (w & 0x000F) as u8;
    let x = ((w & 0x0F00) >> 8) as u8;
    let y = ((w & 0x00F0) >> 4) as u8;
    if w == 0x00E0 {
        Instr::Cls
    } else if op3 == 0xE && op4 == 0xE {
        Instr::Ret
    } else if op1 == 0x1 {
        Instr::Jp(nnn)
    } else if op1 == 0x2 {
        Instr::Call(nnn)
    } else if op1 == 0x3 {
        Instr::SeByte(x, kk)
    } else if op1 == 0x4 {
        Instr::SneByte(x, kk)
    } else if op1 == 0x5 && op4 == 0x0 {
        Instr::SeReg(x, y)
    } else if op1 == 0x6 {
        Instr::LdByte(x, kk)
    } else if op1 == 0x7 {
        Instr::AddByte(x, kk)
    } else if op1 == 0x8 && op4 == 0x0 {
        Instr::LdReg(x, y)
    } else if op1 == 0x8 && op4 == 0x1 {
        Instr::OrReg(x, y)
    } else if op1 == 0x8 && op4 == 0x2 {
        Instr::AndReg(x, y)
    } else if op1 == 0x8 && op4 == 0x3 {
        Instr::XorReg(x, y)
    } else if op1 == 0x8 && op4 == 0x4 {
        Instr::AddReg(x, y)
    } else if op1 == 0x8 && op4 == 0x5 {
        Instr::SubReg(x, y)
    } else if op1 == 0x8 && op4 == 0x6 {
        Instr::ShrReg(x, y)
    } else if op1 == 0x8 && op4 == 0x7 {
        Instr::SubnReg(x, y)
    } else if op1 == 0x8 && op4 == 0xE {
        Instr::ShlReg(x, y)
    } else if op1 == 0x9 && op4 == 0x0 {
        Instr::SneReg(x, y)
    } else if op1 == 0xA {
        Instr::LdI(nnn)
    } else if op1 == 0xB {
        Instr::JpV0(nnn)
    } else if op1 == 0xC {
        Instr::Rnd(x, kk)
    } else if op1 == 0xD {
        Instr::Drw(x, y, n)
    } else if op1 == 0xE && op3 == 0x9 && op4 == 0xE {
        Instr::Skp(x)
    } else if op1 == 0xE && op3 == 0xA && op4 == 0x1 {
        Instr::Sknp(x)
    } else if op1 == 0xF && op3 == 0x0 && op4 == 0x7 {
        Instr::LdVxDt(x)
    } else if op1 == 0xF && op3 == 0x0 && op4 == 0xA {
        Instr::LdVxKey(x)
    } else if op1 == 0xF && op3 == 0x1 && op4 == 0x5 {
        Instr::LdDtVx(x)
    } else if op1 == 0xF && op3 == 0x1 && op4 == 0x8 {
        Instr::LdStVx(x)
    } else if op1 == 0xF && op3 == 0x1 && op4 == 0xE {
        Instr::AddIVx(x)
    } else if op1 == 0xF && op3 == 0x2 && op4 == 0x9 {
        Instr::LdFontVx(x)
    } else if op1 == 0xF && op3 == 0x3 && op4 == 0x3 {
        Instr::LdBcd(x)
    } else if op1 == 0xF && op3 == 0x5 && op4 == 0x5 {
        Instr::LdMemVx(x)
    } else if op1 == 0xF && op3 == 0x6 && op4 == 0x5 {
        Instr::LdVxMem(x)
    } else {
        Instr::Unknown(w)
    }
}

/// 8-bit addition wrapping modulo 256.
pub open spec fn wrap_add8(a: u8, b: u8) -> u8 {
    if a + b > 255 {
        (a + b - 256) as u8
    } else {
        (a + b) as u8
    }
}

/// 8-bit subtraction wrapping modulo 256.
pub open spec fn wrap_sub8(a: u8, b: u8) -> u8 {
    if a - b < 0 {
        (a - b + 256) as u8
    } else {
        (a - b) as u8
    }
}

/// 16-bit addition wrapping modulo 65536.
pub open spec fn add16(a: u16, b: u16) -> u16 {
    if a + b > 0xFFFF {
        (a + b - 0x10000) as u16
    } else {
        (a + b) as u16
    }
}

/// The big-endian instruction word fetched at `pc`; addresses wrap around the
/// memory image.
pub open spec fn word_at(mem: Seq<u8>, pc: u16) -> u16 {
    ((mem[(pc as int) % (MEM_SIZE as int)] as u16) << 8) | (mem[((pc as int) + 1) % (
    MEM_SIZE as int)] as u16)
}

/// The three decimal digits of a byte written to memory at `i`, `i+1`, `i+2`
/// (hundreds, tens, ones); addresses wrap around the memory image.
pub open spec fn store_bcd(mem: Seq<u8>, i: int, vx: u8) -> Seq<u8> {
    mem.update(i % (MEM_SIZE as int), (vx / 100) as u8).update(
        (i + 1) % (MEM_SIZE as int),
        ((vx / 10) % 10) as u8,
    ).update((i + 2) % (MEM_SIZE as int), ((vx % 100) % 10) as u8)
}

/// Memory after registers `V0..=Vk` are stored at addresses `i..`, in order;
/// addresses wrap around the memory image.
pub open spec fn store_regs(mem: Seq<u8>, v: Seq<u8>, i: int, k: int) -> Seq<u8>
    decreases k + 1,
{
    if k < 0 {
        mem
    } else {
        store_regs(mem, v, i, k - 1).update((i + k) % (MEM_SIZE as int), v[k])
    }
}

/// Registers after `V0..=Vk` are loaded from memory addresses `i..`, in
/// order; addresses wrap around the memory image.
pub open spec fn load_regs(v: Seq<u8>, mem: Seq<u8>, i: int, k: int) -> Seq<u8>
    decreases k + 1,
{
    if k < 0 {
        v
    } else {
        load_regs(v, mem, i, k - 1).update(k, mem[(i + k) % (MEM_SIZE as int)])
    }
}

/// Every operand field of a decoded instruction is inside its 4- or 12-bit
/// range.
pub open spec fn instr_wf(instr: Instr) -> bool {
    match instr {
        Instr::Cls => true,
        Instr::Ret => true,
        Instr::Jp(nnn) => nnn < 0x1000,
        Instr::Call(nnn) => nnn < 0x1000,
        Instr::SeByte(x, _) => x < 16,
        Instr::SneByte(x, _) => x < 16,
        Instr::SeReg(x, y) => x < 16 && y < 16,
        Instr::LdByte(x, _) => x < 16,
        Instr::AddByte(x, _) => x < 16,
        Instr::LdReg(x, y) => x < 16 && y < 16,
        Instr::OrReg(x, y) => x < 16 && y < 16,
        Instr::AndReg(x, y) => x < 16 && y < 16,
        Instr::XorReg(x, y) => x < 16 && y < 16,
        Instr::AddReg(x, y) => x < 16 && y < 16,
        Instr::SubReg(x, y) => x < 16 && y < 16,
        Instr::ShrReg(x, y) => x < 16 && y < 16,
        Instr::SubnReg(x, y) => x < 16 && y < 16,
        Instr::ShlReg(x, y) => x < 16 && y < 16,
        Instr::SneReg(x, y) => x < 16 && y < 16,
        Instr::LdI(nnn) => nnn < 0x1000,
        Instr::JpV0(nnn) => nnn < 0x1000,
        Instr::Rnd(x, _) => x < 16,
        Instr::Drw(x, y, n) => x < 16 && y < 16 && n < 16,
        Instr::Skp(x) => x < 16,
        Instr::Sknp(x) => x < 16,
        Instr::LdVxDt(x) => x < 16,
        Instr::LdVxKey(x) => x < 16,
        Instr::LdDtVx(x) => x < 16,
        Instr::LdStVx(x) => x < 16,
        Instr::AddIVx(x) => x < 16,
        Instr::LdFontVx(x) => x < 16,
        Instr::LdBcd(x) => x < 16,
        Instr::LdMemVx(x) => x < 16,
        Instr::LdVxMem(x) => x < 16,
        Instr::Unknown(_) => true,
    }
}

pub proof fn lemma_decode_wf(w: u16)
    ensures
        instr_wf(decode(w)),
{
    assert(((w & 0x0F00) >> 8) < 16) by (bit_vector);
    assert(((w & 0x00F0) >> 4) < 16) by (bit_vector);
    assert((w & 0x000F) < 16) by (bit_vector);
    assert((w & 0x0FFF) < 0x1000) by (bit_vector);
}

/// The state change one dispatched instruction makes, given the state with
/// the program counter already advanced past it and the random byte drawn for
/// a possible RND.
pub open spec fn spec_dispatch(s: CpuView, instr: Instr, rand: u8) -> CpuView {
    match instr {
        Instr::Cls => s.with_screen(Seq::new(SCREEN_SIZE as nat, |k: int| false)),
        Instr::Ret => if s.stack_pointer > 0 {
            CpuView {
                pc: s.stack[s.stack_pointer as int],
                stack_pointer: (s.stack_pointer - 1) as u16,
                ..s
            }
        } else {
            s
        },
        Instr::Jp(nnn) => s.with_pc(nnn),
        Instr::Call(nnn) => if s.stack_pointer < 15 {
            CpuView {
                stack_pointer: (s.stack_pointer + 1) as u16,
                stack: s.stack.update(s.stack_pointer as int + 1, s.pc),
                pc: nnn,
                ..s
            }
        } else {
            s
        },
        Instr::SeByte(x, kk) => if s.v[x as int] == kk {
            s.with_pc(add16(s.pc, 2))
        } else {
            s
        },
        Instr::SneByte(x, kk) => if s.v[x as int] != kk {
            s.with_pc(add16(s.pc, 2))
        } else {
            s
        },
        Instr::SeReg(x, y) => if s.v[x as int] == s.v[y as int] {
            s.with_pc(add16(s.pc, 2))
        } else {
            s
        },
        Instr::LdByte(x, kk) => s.with_v(s.v.update(x as int, kk)),
        Instr::AddByte(x, kk) => s.with_v(s.v.update(x as int, wrap_add8(s.v[x as int], kk))),
        Instr::LdReg(x, y) => s.with_v(s.v.update(x as int, s.v[y as int])),
        Instr::OrReg(x, y) => s.with_v(s.v.update(x as int, s.v[x as int] | s.v[y as int])),
        Instr::AndReg(x, y) => s.with_v(s.v.update(x as int, s.v[x as int] & s.v[y as int])),
        Instr::XorReg(x, y) => s.with_v(s.v.update(x as int, s.v[x as int] ^ s.v[y as int])),
        Instr::AddReg(x, y) => {
            let flag: u8 = if s.v[x as int] + s.v[y as int] > 255 {
                1
            } else {
                0
            };
            s.with_v(s.v.update(15, flag).update(x as int, wrap_add8(s.v[x as int], s.v[y as int])))
        },
        Instr::SubReg(x, y) => {
            let flag: u8 = if s.v[x as int] >= s.v[y as int] {
                1
            } else {
                0
            };
            s.with_v(s.v.update(15, flag).update(x as int, wrap_sub8(s.v[x as int], s.v[y as int])))
        },
        Instr::ShrReg(x, _y) => {
            let v1 = s.v.update(15, s.v[x as int] & 1);
            s.with_v(v1.update(x as int, v1[x as int] >> 1))
        },
        Instr::SubnReg(x, y) => {
            let flag: u8 = if s.v[y as int] >= s.v[x as int] {
                1
            } else {
                0
            };
            s.with_v(s.v.update(15, flag).update(x as int, wrap_sub8(s.v[y as int], s.v[x as int])))
        },
        Instr::ShlReg(x, _y) => {
            let v1 = s.v.update(15, (s.v[x as int] & 0x80) >> 7);
            s.with_v(v1.update(x as int, v1[x as int] << 1))
        },
        Instr::SneReg(x, y) => if s.v[x as int] != s.v[y as int] {
            s.with_pc(add16(s.pc, 2))
        } else {
            s
        },
        Instr::LdI(nnn) => CpuView { i: nnn, ..s },
        Instr::JpV0(nnn) => s.with_pc((nnn + s.v[0]) as u16),
        Instr::Rnd(x, kk) => s.with_v(s.v.update(x as int, rand & kk)),
        Instr::Drw(x, y, n) => {
            let d = spec_draw(s, s.v[x as int] as int, s.v[y as int] as int, n as int);
            s.with_screen(d.0).with_v(s.v.update(15, d.1))
        },
        Instr::Skp(x) => if s.keys[(s.v[x as int] & 0xF) as int] {
            s.with_pc(add16(s.pc, 2))
        } else {
            s
        },
        Instr::Sknp(x) => if !s.keys[(s.v[x as int] & 0xF) as int] {
            s.with_pc(add16(s.pc, 2))
        } else {
            s
        },
        Instr::LdVxDt(x) => s.with_v(s.v.update(x as int, s.delay_timer)),
        Instr::LdVxKey(x) => CpuView { is_wating: true, key_register: x as usize, ..s },
        Instr::LdDtVx(x) => CpuView { delay_timer: s.v[x as int], ..s },
        Instr::LdStVx(x) => CpuView { sound_timer: s.v[x as int], ..s },
        Instr::AddIVx(x) => CpuView { i: add16(s.i, s.v[x as int] as u16), ..s },
        Instr::LdFontVx(x) => CpuView { i: (s.v[x as int] * 5) as u16, ..s },
        Instr::LdBcd(x) => s.with_memory(store_bcd(s.memory, s.i as int, s.v[x as int])),
        Instr::LdMemVx(x) => s.with_memory(store_regs(s.memory, s.v, s.i as int, x as int)),
        Instr::LdVxMem(x) => s.with_v(load_regs(s.v, s.memory, s.i as int, x as int)),
        Instr::Unknown(_) => s,
    }
}

/// The end-of-cycle timer rule: each nonzero timer counts down by one.
pub open spec fn spec_tick(s: CpuView) -> CpuView {
    CpuView {
        delay_timer: if s.delay_timer > 0 {
            (s.delay_timer - 1) as u8
        } else {
            0
        },
        sound_timer: if s.sound_timer > 0 {
            (s.sound_timer - 1) as u8
        } else {
            0
        },
        ..s
    }
}

/// One whole cycle: fetch the word at the program counter, advance the
/// counter by two, dispatch the decoded instruction, then tick the timers.
pub open spec fn spec_cycle(pre: CpuView, rand: u8) -> CpuView {
    let w = word_at(pre.memory, pre.pc);
    let s1 = pre.with_pc(add16(pre.pc, 2));
    spec_tick(spec_dispatch(s1, decode(w), rand))
}

/// Whether a cycle from `pre` requests a tone: the sound timer is nonzero
/// after dispatch, before the end-of-cycle tick.
pub open spec fn spec_tone(pre: CpuView, rand: u8) -> bool {
    let w = word_at(pre.memory, pre.pc);
    let s1 = pre.with_pc(add16(pre.pc, 2));
    spec_dispatch(s1, decode(w), rand).sound_timer > 0
}

/// The lowest pressed key index at or above `k`, or 16 when none is pressed.
pub open spec fn first_pressed_key(keys: Seq<bool>, k: int) -> int
    decreases 16 - k,
{
    if k < 0 || k >= 16 {
        16
    } else if keys[k] {
        k
    } else {
        first_pressed_key(keys, k + 1)
    }
}

/// Relies on rand::thread_rng and rand::Rng::gen::<u8>: one byte drawn from
/// the thread-local generator. Nothing is assumed about its value.
#[verifier::external_body]
fn random_byte() -> u8 {
    rand::thread_rng().gen::<u8>()
}

impl Cpu {
    /// One fetch-decode-execute cycle, with the random byte for a possible
    /// RND instruction passed in so that the whole step is a function of the
    /// argument. Returns whether a tone is requested for this cycle.
    ///
    /// Accesses the reference architecture leaves undefined get an explicit
    /// policy here: memory addresses wrap around the 4096-byte image, a key
    /// index is masked to its low nibble, a call with a full stack and a
    /// return with an empty one leave the state unchanged (beyond the usual
    /// program-counter advance), and the index register wraps at 16 bits.
    pub fn do_cycle_with_rand(&mut self, rand: u8) -> (tone: bool)
        requires
            old(self).wf(),
        ensures
            final(self).wf(),
            final(self)@ == spec_cycle(old(self)@, rand),
            tone == spec_tone(old(self)@, rand),
    {
        let ghost pre = old(self)@;
        let hi = self.memory[(self.pc as usize) % MEM_SIZE];
        let lo = self.memory[((self.pc as usize) + 1) % MEM_SIZE];
        let opcode: u16 = ((hi as u16) << 8) | (lo as u16);
        proof {
            assert(opcode == word_at(pre.memory, pre.pc));
        }
        let instr = decode_instr(opcode);
        proof {
            lemma_decode_wf(opcode);
        }
        self.pc = self.pc.wrapping_add(2);
        let ghost s1 = pre.with_pc(add16(pre.pc, 2));
        proof {
            assert(self@ =~= s1);
        }
        match instr {
            Instr::Cls => {
                self.clear_screen();
                proof {
                    assert(self@ =~= spec_dispatch(s1, instr, rand));
                }
            },
            Instr::Ret => {
                if self.stack_pointer > 0 {
                    self.pc = self.stack[self.stack_pointer as usize];
                    self.stack_pointer = self.stack_pointer - 1;
                }
                proof {
                    assert(self@ =~= spec_dispatch(s1, instr, rand));
                }
            },
            Instr::Jp(nnn) => {
                self.pc = nnn;
                proof {
                    assert(self@ =~= spec_dispatch(s1, instr, rand));
                }
            },
            Instr::Call(nnn) => {
                if self.stack_pointer < 15 {
                    self.stack_pointer = self.stack_pointer + 1;
                    let pc = self.pc;
                    self.stack.set(self.stack_pointer as usize, pc);
                    self.pc = nnn;
                }
                proof {
                    assert(self@ =~= spec_dispatch(s1, instr, rand));
                }
            },
            Instr::SeByte(x, kk) => {
                if self.v[x as usize] == kk {
                    self.pc = self.pc.wrapping_add(2);
                }
                proof {
                    assert(self@ =~= spec_dispatch(s1, instr, rand));
                }
            },
            Instr::SneByte(x, kk) => {
                if self.v[x as usize] != kk {
                    self.pc = self.pc.wrapping_add(2);
                }
                proof {
                    assert(self@ =~= spec_dispatch(s1, instr, rand));
                }
            },
            Instr::SeReg(x, y) => {
                if self.v[x as usize] == self.v[y as usize] {
                    self.pc = self.pc.wrapping_add(2);
                }
                proof {
                    assert(self@ =~= spec_dispatch(s1, instr, rand));
                }
            },
            Instr::LdByte(x, kk) => {
                self.v.set(x as usize, kk);
                proof {
                    assert(self@ =~= spec_dispatch(s1, instr, rand));
                }
            },
            Instr::AddByte(x, kk) => {
                let vx = self.v[x as usize];
                self.v.set(x as usize, vx.wrapping_add(kk));
                proof {
                    assert(self@ =~= spec_dispatch(s1, instr, rand));
                }
            },
            Instr::LdReg(x, y) => {
                let vy = self.v[y as usize];
                self.v.set(x as usize, vy);
                proof {
                    assert(self@ =~= spec_dispatch(s1, instr, rand));
                }
            },
            Instr::OrReg(x, y) => {
                let vx = self.v[x as usize];
                let vy = self.v[y as usize];
                self.v.set(x as usize, vx | vy);
                proof {
                    assert(self@ =~= spec_dispatch(s1, instr, rand));
                }
            },
            Instr::AndReg(x, y) => {
                let vx = self.v[x as usize];
                let vy = self.v[y as usize];
                self.v.set(x as usize, vx & vy);
                proof {
                    assert(self@ =~= spec_dispatch(s1, instr, rand));
                }
            },
            Instr::XorReg(x, y) => {
                let vx = self.v[x as usize];
                let vy = self.v[y as usize];
                self.v.set(x as usize, vx ^ vy);
                proof {
                    assert(self@ =~= spec_dispatch(s1, instr, rand));
                }
            },
            Instr::AddReg(x, y) => {
                let vx = self.v[x as usize];
                let vy = self.v[y as usize];
                let flag: u8 = if (vx as u16) + (vy as u16) > 255 {
                    1
                } else {
                    0
                };
                self.v.set(15, flag);
                self.v.set(x as usize, vx.wrapping_add(vy));
                proof {
                    assert(self@ =~= spec_dispatch(s1, instr, rand));
                }
            },
            Instr::SubReg(x, y) => {
                let vx = self.v[x as usize];
                let vy = self.v[y as usize];
                let flag: u8 = if vx >= vy {
                    1
                } else {
                    0
                };
                self.v.set(15, flag);
                self.v.set(x as usize, vx.wrapping_sub(vy));
                proof {
                    assert(self@ =~= spec_dispatch(s1, instr, rand));
                }
            },
            Instr::ShrReg(x, _y) => {
                let vx = self.v[x as usize];
                self.v.set(15, vx & 1);
                let cur = self.v[x as usize];
                self.v.set(x as usize, cur >> 1u8);
                proof {
                    assert(self@ =~= spec_dispatch(s1, instr, rand));
                }
            },
            Instr::SubnReg(x, y) => {
                let vx = self.v[x as usize];
                let vy = self.v[y as usize];
                let flag: u8 = if vy >= vx {
                    1
                } else {
                    0
                };
                self.v.set(15, flag);
                self.v.set(x as usize, vy.wrapping_sub(vx));
                proof {
                    assert(self@ =~= spec_dispatch(s1, instr, rand));
                }
            },
            Instr::ShlReg(x, _y) => {
                let vx = self.v[x as usize];
                self.v.set(15, (vx & 0x80) >> 7u8);
                let cur = self.v[x as usize];
                self.v.set(x as usize, cur << 1u8);
                proof {
                    assert(self@ =~= spec_dispatch(s1, instr, rand));
                }
            },
            Instr::SneReg(x, y) => {
                if self.v[x as usize] != self.v[y as usize] {
                    self.pc = self.pc.wrapping_add(2);
                }
                proof {
                    assert(self@ =~= spec_dispatch(s1, instr, rand));
                }
            },
            Instr::LdI(nnn) => {
                self.i = nnn;
                proof {
                    assert(self@ =~= spec_dispatch(s1, instr, rand));
                }
            },
            Instr::JpV0(nnn) => {
                self.pc = nnn + (self.v[0] as u16);
                proof {
                    assert(self@ =~= spec_dispatch(s1, instr, rand));
                }
            },
            Instr::Rnd(x, kk) => {
                self.v.set(x as usize, rand & kk);
                proof {
                    assert(self@ =~= spec_dispatch(s1, instr, rand));
                }
            },
            Instr::Drw(x, y, n) => {
                let vx = self.v[x as usize];
                let vy = self.v[y as usize];
                self.draw(vx as usize, vy as usize, n as u16);
                proof {
                    assert(self@ =~= spec_dispatch(s1, instr, rand));
                }
            },
            Instr::Skp(x) => {
                let vx = self.v[x as usize];
                proof {
                    assert(vx & 0xF < 16) by (bit_vector);
                }
                if self.keys[(vx & 0xF) as usize] {
                    self.pc = self.pc.wrapping_add(2);
                }
                proof {
                    assert(self@ =~= spec_dispatch(s1, instr, rand));
                }
            },
            Instr::Sknp(x) => {
                let vx = self.v[x as usize];
                proof {
                    assert(vx & 0xF < 16) by (bit_vector);
                }
                if !self.keys[(vx & 0xF) as usize] {
                    self.pc = self.pc.wrapping_add(2);
                }
                proof {
                    assert(self@ =~= spec_dispatch(s1, instr, rand));
                }
            },
            Instr::LdVxDt(x) => {
                let dt = self.delay_timer;
                self.v.set(x as usize, dt);
                proof {
                    assert(self@ =~= spec_dispatch(s1, instr, rand));
                }
            },
            Instr::LdVxKey(x) => {
                self.is_wating = true;
                self.key_register = x as usize;
                proof {
                    assert(self@ =~= spec_dispatch(s1, instr, rand));
                }
            },
            Instr::LdDtVx(x) => {
                self.delay_timer = self.v[x as usize];
                proof {
                    assert(self@ =~= spec_dispatch(s1, instr, rand));
                }
            },
            Instr::LdStVx(x) => {
                self.sound_timer = self.v[x as usize];
                proof {
                    assert(self@ =~= spec_dispatch(s1, instr, rand));
                }
            },
            Instr::AddIVx(x) => {
                let vx = self.v[x as usize];
                self.i = self.i.wrapping_add(vx as u16);
                proof {
                    assert(self@ =~= spec_dispatch(s1, instr, rand));
                }
            },
            Instr::LdFontVx(x) => {
                let vx = self.v[x as usize];
                self.i = (vx as u16) * 5;
                proof {
                    assert(self@ =~= spec_dispatch(s1, instr, rand));
                }
            },
            Instr::LdBcd(x) => {
                let vx = self.v[x as usize];
                let i0 = (self.i as usize) % MEM_SIZE;
                let i1 = ((self.i as usize) + 1) % MEM_SIZE;
                let i2 = ((self.i as usize) + 2) % MEM_SIZE;
                self.memory.set(i0, vx / 100);
                self.memory.set(i1, (vx / 10) % 10);
                self.memory.set(i2, (vx % 100) % 10);
                proof {
                    assert(self@ =~= spec_dispatch(s1, instr, rand));
                }
            },
            Instr::LdMemVx(x) => {
                let mut k: usize = 0;
                while k <= x as usize
                    invariant
                        s1.wf(),
                        self.wf(),
                        instr == Instr::LdMemVx(x),
                        x < 16,
                        k <= x + 1,
                        self@ == s1.with_memory(self@.memory),
                        self@.memory == store_regs(s1.memory, s1.v, s1.i as int, k as int - 1),
                    decreases x + 1 - k,
                {
                    let b = self.v[k];
                    let addr = ((self.i as usize) + k) % MEM_SIZE;
                    self.memory.set(addr, b);
                    k = k + 1;
                    proof {
                        assert(store_regs(s1.memory, s1.v, s1.i as int, k as int - 1)
                            == store_regs(s1.memory, s1.v, s1.i as int, k as int - 2).update(
                            (s1.i as int + k as int - 1) % (MEM_SIZE as int),
                            s1.v[k as int - 1],
                        ));
                    }
                }
                proof {
                    assert(self@ =~= spec_dispatch(s1, instr, rand));
                }
            },
            Instr::LdVxMem(x) => {
                let mut k: usize = 0;
                while k <= x as usize
                    invariant
                        s1.wf(),
                        self.wf(),
                        instr == Instr::LdVxMem(x),
                        x < 16,
                        k <= x + 1,
                        self@ == s1.with_v(self@.v),
                        self@.v == load_regs(s1.v, s1.memory, s1.i as int, k as int - 1),
                    decreases x + 1 - k,
                {
                    let addr = ((self.i as usize) + k) % MEM_SIZE;
                    let b = self.memory[addr];
                    self.v.set(k, b);
                    k = k + 1;
                    proof {
                        assert(load_regs(s1.v, s1.memory, s1.i as int, k as int - 1)
                            == load_regs(s1.v, s1.memory, s1.i as int, k as int - 2).update(
                            k as int - 1,
                            s1.memory[(s1.i as int + k as int - 1) % (MEM_SIZE as int)],
                        ));
                    }
                }
                proof {
                    assert(self@ =~= spec_dispatch(s1, instr, rand));
                }
            },
            Instr::Unknown(_) => {
                proof {
                    assert(self@ =~= spec_dispatch(s1, instr, rand));
                }
            },
        }
        let ghost mid = spec_dispatch(s1, instr, rand);
        let tone = self.sound_timer > 0;
        if self.delay_timer > 0 {
            self.delay_timer = self.delay_timer - 1;
        }
        if self.sound_timer > 0 {
            self.sound_timer = self.sound_timer - 1;
        }
        proof {
            assert(self@ =~= spec_tick(mid));
            assert(spec_cycle(pre, rand) == spec_tick(mid));
            assert(tone == spec_tone(pre, rand));
        }
        tone
    }

    /// One fetch-decode-execute cycle with a freshly drawn random byte: every
    /// possible outcome is a cycle for some byte value.
    pub fn do_cycle(&mut self) -> (tone: bool)
        requires
            old(self).wf(),
        ensures
            final(self).wf(),
            exists|r: u8|
                #[trigger] spec_cycle(old(self)@, r) == final(self)@ && tone == spec_tone(
                    old(self)@,
                    r,
                ),
    {
        let r = random_byte();
        let tone = self.do_cycle_with_rand(r);
        tone
    }

    /// The input gate's resumption rule: while the processor waits on a key,
    /// the lowest-numbered pressed key is written to the recorded register
    /// and the wait ends. Returns whether the processor is free to advance
    /// (true whenever no wait is pending afterwards).
    pub fn resolve_key_wait(&mut self) -> (resolved: bool)
        requires
            old(self).wf(),
        ensures
            final(self).wf(),
            !old(self)@.is_wating ==> final(self)@ == old(self)@ && resolved,
            old(self)@.is_wating && first_pressed_key(old(self)@.keys, 0) < 16 ==> resolved
                && final(self)@ == (CpuView {
                v: old(self)@.v.update(
                    old(self)@.key_register as int,
                    first_pressed_key(old(self)@.keys, 0) as u8,
                ),
                is_wating: false,
                ..old(self)@
            }),
            old(self)@.is_wating && first_pressed_key(old(self)@.keys, 0) == 16 ==> !resolved
                && final(self)@ == old(self)@,
    {
        if !self.is_wating {
            return true;
        }
        let mut k: usize = 0;
        while k < NUM_KEYS
            invariant
                old(self).wf(),
                self.wf(),
                old(self)@.is_wating,
                k <= NUM_KEYS,
                self@ == old(self)@,
                first_pressed_key(old(self)@.keys, 0) == first_pressed_key(
                    old(self)@.keys,
                    k as int,
                ),
            decreases NUM_KEYS - k,
        {
            if self.keys[k] {
                let reg = self.key_register;
                self.v.set(reg, k as u8);
                self.is_wating = false;
                proof {
                    assert(first_pressed_key(old(self)@.keys, k as int) == k as int);
                    assert(self@ =~= (CpuView {
                        v: old(self)@.v.update(old(self)@.key_register as int, k as u8),
                        is_wating: false,
                        ..old(self)@
                    }));
                }
                return true;
            }
            k = k + 1;
        }
        false
    }
}

} // verus!
