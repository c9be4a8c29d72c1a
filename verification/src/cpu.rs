use vstd::prelude::*;

use crate::display::{
    draw_collides, draw_seq, Display, Pixel,
};
use crate::instr::{decode_s, nib1, nib4, nib_x, nib_y, Instr};
use crate::keyboard::Keyboard;

verus! {

/// The mathematical state of the interpreter core: every register, the
/// stack, both timers, memory, the framebuffer cells, the key table, and
/// the random byte stored for the current cycle.
#[verifier::ext_equal]
pub ghost struct St {
    pub i: u16,
    pub pc: u16,
    pub sp: u8,
    pub stack: Seq<u16>,
    pub delay: u8,
    pub sound: u8,
    pub regs: Seq<u8>,
    pub mem: Seq<u8>,
    pub disp: Seq<Pixel>,
    pub keys: Seq<u8>,
    pub rng: u8,
}

/// All fixed-size parts of the state have their power-on sizes.
pub open spec fn wf_st(s: St) -> bool {
    &&& s.sp < 16
    &&& s.stack.len() == 16
    &&& s.regs.len() == 16
    &&& s.mem.len() == 4096
    &&& s.disp.len() == 2048
    &&& s.keys.len() == 16
}

/// The built-in character font: sixteen glyphs of five bytes each, the
/// hexadecimal digits 0-F as 4-by-5 pixel sprites.
pub open spec fn font_data() -> Seq<u8> {
    seq![
        0xF0u8, 0x90, 0x90, 0x90, 0xF0, // 0
        0x20, 0x60, 0x20, 0x20, 0x70, // 1
        0xF0, 0x10, 0xF0, 0x80, 0xF0, // 2
        0xF0, 0x10, 0xF0, 0x10, 0xF0, // 3
        0x90, 0x90, 0xF0, 0x10, 0x10, // 4
        0xF0, 0x80, 0xF0, 0x10, 0xF0, // 5
        0xF0, 0x80, 0xF0, 0x90, 0xF0, // 6
        0xF0, 0x10, 0x20, 0x40, 0x40, // 7
        0xF0, 0x90, 0xF0, 0x90, 0xF0, // 8
        0xF0, 0x90, 0xF0, 0x10, 0xF0, // 9
        0xF0, 0x90, 0xF0, 0x90, 0x90, // A
        0xE0, 0x90, 0xE0, 0x90, 0xE0, // B
        0xF0, 0x80, 0x80, 0x80, 0xF0, // C
        0xE0, 0x90, 0x90, 0x90, 0xE0, // D
        0xF0, 0x80, 0xF0, 0x80, 0xF0, // E
        0xF0, 0x80, 0xF0, 0x80, 0x80, // F
    ]
}

/// Memory with the font table seeded over its first eighty bytes.
pub open spec fn with_font(mem: Seq<u8>) -> Seq<u8> {
    Seq::new(mem.len(), |j: int| if j < 80 {
        font_data()[j]
    } else {
        mem[j]
    })
}

/// Memory with a program image written at offset `0x200`.
pub open spec fn with_program(mem: Seq<u8>, prog: Seq<u8>) -> Seq<u8> {
    Seq::new(mem.len(), |j: int| if 0x200 <= j < 0x200 + prog.len() {
        prog[j - 0x200]
    } else {
        mem[j]
    })
}

/// The power-on state: `PC` at `0x200`, everything else zeroed, the font
/// seeded at the bottom of memory.
pub open spec fn init_st() -> St {
    St {
        i: 0,
        pc: 0x200,
        sp: 0,
        stack: Seq::new(16, |k: int| 0u16),
        delay: 0,
        sound: 0,
        regs: Seq::new(16, |k: int| 0u8),
        mem: with_font(Seq::new(4096, |j: int| 0u8)),
        disp: Seq::new(2048, |k: int| Pixel::Off),
        keys: Seq::new(16, |k: int| 0u8),
        rng: 0,
    }
}

/// Memory after the three decimal digits of `v` are written at `addr`.
pub open spec fn bcd_write(mem: Seq<u8>, addr: int, v: u8) -> Seq<u8> {
    mem.update(addr, ((v / 100) % 10) as u8).update(addr + 1, ((v / 10) % 10) as u8).update(
        addr + 2,
        (v % 10) as u8,
    )
}

/// Memory after registers `V0..=Vupto` are copied in starting at `addr`.
pub open spec fn store_regs_mem(mem: Seq<u8>, regs: Seq<u8>, addr: int, upto: int) -> Seq<u8> {
    Seq::new(mem.len(), |j: int| if addr <= j <= addr + upto {
        regs[j - addr]
    } else {
        mem[j]
    })
}

/// The register file after `V0..=Vupto` are loaded from memory at `addr`.
pub open spec fn load_regs_file(regs: Seq<u8>, mem: Seq<u8>, addr: int, upto: int) -> Seq<u8> {
    Seq::new(regs.len(), |j: int| if j <= upto {
        mem[addr + j]
    } else {
        regs[j]
    })
}

/// The lowest pressed key at or above index `k`, or 16 when none is.
pub open spec fn first_pressed(keys: Seq<u8>, k: int) -> int
    decreases 16 - k,
{
    if k >= 16 {
        16
    } else if keys[k] != 0 {
        k
    } else {
        first_pressed(keys, k + 1)
    }
}

/// Whether any of the sixteen keys is pressed.
pub open spec fn any_pressed(keys: Seq<u8>) -> bool {
    exists|k: int| 0 <= k < 16 && keys[k] != 0
}

/// The big-endian sixteen-bit instruction word at address `pc`.
pub open spec fn fetch_op(mem: Seq<u8>, pc: int) -> u16 {
    ((mem[pc] as u16) << 8) | (mem[pc + 1] as u16)
}

/// What executing `instr` on state `pre` yields.  `pre.pc` has already been
/// advanced past the instruction word, so jumps and calls overwrite the
/// advanced value and the wait-key stall rewinds it.
pub open spec fn step(pre: St, instr: Instr) -> St {
    match instr {
        Instr::Cls => St { disp: Seq::new(pre.disp.len(), |k: int| Pixel::Off), ..pre },
        Instr::Ret => St { pc: pre.stack[pre.sp as int], sp: (pre.sp - 1) as u8, ..pre },
        Instr::Jump(nnn) => St { pc: nnn, ..pre },
        Instr::Call(nnn) => St {
            sp: (pre.sp + 1) as u8,
            stack: pre.stack.update(pre.sp + 1, pre.pc),
            pc: nnn,
            ..pre
        },
        Instr::SkipEqImm(x, kk) => if pre.regs[x as int] == kk {
            St { pc: (pre.pc + 2) as u16, ..pre }
        } else {
            pre
        },
        Instr::SkipNeImm(x, kk) => if pre.regs[x as int] != kk {
            St { pc: (pre.pc + 2) as u16, ..pre }
        } else {
            pre
        },
        Instr::SkipEqReg(x, y) => if pre.regs[x as int] == pre.regs[y as int] {
            St { pc: (pre.pc + 2) as u16, ..pre }
        } else {
            pre
        },
        Instr::LoadImm(x, kk) => St { regs: pre.regs.update(x as int, kk), ..pre },
        Instr::AddImm(x, kk) => St {
            regs: pre.regs.update(x as int, ((pre.regs[x as int] + kk) % 256) as u8),
            ..pre
        },
        Instr::Move(x, y) => St { regs: pre.regs.update(x as int, pre.regs[y as int]), ..pre },
        Instr::Or(x, y) => St {
            regs: pre.regs.update(x as int, pre.regs[x as int] | pre.regs[y as int]),
            ..pre
        },
        Instr::And(x, y) => St {
            regs: pre.regs.update(x as int, pre.regs[x as int] & pre.regs[y as int]),
            ..pre
        },
        Instr::Xor(x, y) => St {
            regs: pre.regs.update(x as int, pre.regs[x as int] ^ pre.regs[y as int]),
            ..pre
        },
        Instr::Add(x, y) => {
            let sum = pre.regs[x as int] + pre.regs[y as int];
            let carry: u8 = if sum > 255 {
                1
            } else {
                0
            };
            St { regs: pre.regs.update(15, carry).update(x as int, (sum % 256) as u8), ..pre }
        },
        Instr::Sub(x, y) => St {
            regs: sub_regs(pre.regs, x as int, x as int, y as int),
            ..pre
        },
        Instr::Shr(x) => {
            let vx = pre.regs[x as int];
            St {
                regs: pre.regs.update(15, (vx % 2) as u8).update(x as int, (vx / 2) as u8),
                ..pre
            }
        },
        Instr::Subn(x, y) => St {
            regs: sub_regs(pre.regs, x as int, y as int, x as int),
            ..pre
        },
        Instr::Shl(x) => {
            let vx = pre.regs[x as int];
            St {
                regs: pre.regs.update(15, (vx / 128) as u8).update(
                    x as int,
                    ((vx * 2) % 256) as u8,
                ),
                ..pre
            }
        },
        Instr::SkipNeReg(x, y) => if pre.regs[x as int] != pre.regs[y as int] {
            St { pc: (pre.pc + 2) as u16, ..pre }
        } else {
            pre
        },
        Instr::LoadIndex(nnn) => St { i: nnn, ..pre },
        Instr::JumpOffset(nnn) => St { pc: (nnn + pre.regs[0]) as u16, ..pre },
        Instr::Rand(x, kk) => St { regs: pre.regs.update(x as int, kk & pre.rng), ..pre },
        Instr::Draw(x, y, n) => {
            let sprite = pre.mem.subrange(pre.i as int, pre.i + n);
            let hit = draw_collides(pre.disp, sprite, pre.regs[x as int], pre.regs[y as int], 64, 32);
            St {
                disp: draw_seq(pre.disp, sprite, pre.regs[x as int], pre.regs[y as int], 64, 32),
                regs: pre.regs.update(15, if hit {
                    1u8
                } else {
                    0u8
                }),
                ..pre
            }
        },
        Instr::SkipKey(x) => if pre.keys[pre.regs[x as int] as int] != 0 {
            St { pc: (pre.pc + 2) as u16, ..pre }
        } else {
            pre
        },
        Instr::SkipNoKey(x) => if pre.keys[pre.regs[x as int] as int] == 0 {
            St { pc: (pre.pc + 2) as u16, ..pre }
        } else {
            pre
        },
        Instr::LoadDelay(x) => St { regs: pre.regs.update(x as int, pre.delay), ..pre },
        Instr::WaitKey(x) => if any_pressed(pre.keys) {
            St { regs: pre.regs.update(x as int, first_pressed(pre.keys, 0) as u8), ..pre }
        } else {
            St { pc: (pre.pc - 2) as u16, ..pre }
        },
        Instr::SetDelay(x) => St { delay: pre.regs[x as int], ..pre },
        Instr::SetSound(x) => St { sound: pre.regs[x as int], ..pre },
        Instr::AddIndex(x) => St { i: (pre.i + pre.regs[x as int]) as u16, ..pre },
        Instr::FontAddr(x) => St { i: (pre.regs[x as int] * 5) as u16, ..pre },
        Instr::Bcd(x) => St { mem: bcd_write(pre.mem, pre.i as int, pre.regs[x as int]), ..pre },
        Instr::StoreRegs(x) => St {
            mem: store_regs_mem(pre.mem, pre.regs, pre.i as int, x as int),
            ..pre
        },
        Instr::LoadRegs(x) => St {
            regs: load_regs_file(pre.regs, pre.mem, pre.i as int, x as int),
            ..pre
        },
        Instr::Nop => pre,
    }
}

/// The register file after a flagged subtraction: `Vdst := Va - Vb`
/// wrapping, with `VF := 1` exactly when no borrow occurs (`Va >= Vb`).
/// The flag is written first, so a destination of `VF` keeps the
/// difference, as the execution order of the core dictates.
pub open spec fn sub_regs(regs: Seq<u8>, dst: int, a: int, b: int) -> Seq<u8> {
    let va = regs[a];
    let vb = regs[b];
    let diff: u8 = if va >= vb {
        (va - vb) as u8
    } else {
        (va + 256 - vb) as u8
    };
    let flag: u8 = if va >= vb {
        1
    } else {
        0
    };
    regs.update(15, flag).update(dst, diff)
}

/// The inputs on which `instr` executes without touching anything out of
/// range: stack depth for call and return, memory bounds for sprite and
/// register transfers, key numbers, and program-counter arithmetic.
/// Anything outside these bounds is a caller contract violation that the
/// core refuses rather than corrupting state.
pub open spec fn step_ok(pre: St, instr: Instr) -> bool {
    match instr {
        Instr::Ret => pre.sp >= 1,
        Instr::Call(_nnn) => pre.sp < 15,
        Instr::SkipEqImm(x, kk) => pre.regs[x as int] == kk ==> pre.pc + 2 <= u16::MAX,
        Instr::SkipNeImm(x, kk) => pre.regs[x as int] != kk ==> pre.pc + 2 <= u16::MAX,
        Instr::SkipEqReg(x, y) => pre.regs[x as int] == pre.regs[y as int] ==> pre.pc + 2
            <= u16::MAX,
        Instr::SkipNeReg(x, y) => pre.regs[x as int] != pre.regs[y as int] ==> pre.pc + 2
            <= u16::MAX,
        Instr::JumpOffset(nnn) => nnn + pre.regs[0] <= u16::MAX,
        Instr::Draw(_x, _y, n) => pre.i + n <= 4096,
        Instr::SkipKey(x) => pre.regs[x as int] < 16 && (pre.keys[pre.regs[x as int] as int] != 0
            ==> pre.pc + 2 <= u16::MAX),
        Instr::SkipNoKey(x) => pre.regs[x as int] < 16 && (pre.keys[pre.regs[x as int] as int] == 0
            ==> pre.pc + 2 <= u16::MAX),
        Instr::WaitKey(_x) => pre.pc >= 2,
        Instr::AddIndex(x) => pre.i + pre.regs[x as int] <= u16::MAX,
        Instr::Bcd(_x) => pre.i + 2 < 4096,
        Instr::StoreRegs(x) => pre.i + x < 4096,
        Instr::LoadRegs(x) => pre.i + x < 4096,
        _ => true,
    }
}

/// One full fetch-decode-execute cycle: fetch the word at `pc`, advance
/// `pc` by two, latch the random byte, then execute.
pub open spec fn cycle(pre: St, random_num: u8) -> St {
    let op = fetch_op(pre.mem, pre.pc as int);
    step(St { pc: (pre.pc + 2) as u16, rng: random_num, ..pre }, decode_s(op))
}

/// When a cycle from `pre` stays in bounds: the fetch itself must lie in
/// memory and the fetched instruction must satisfy `step_ok` on the
/// advanced state.
pub open spec fn cycle_ok(pre: St, random_num: u8) -> bool {
    &&& pre.pc + 2 <= 4096
    &&& step_ok(
        St { pc: (pre.pc + 2) as u16, rng: random_num, ..pre },
        decode_s(fetch_op(pre.mem, pre.pc as int)),
    )
}

/// The state after a whole sequence of cycles, one random byte per cycle.
pub open spec fn run_cycles(pre: St, rngs: Seq<u8>) -> St
    decreases rngs.len(),
{
    if rngs.len() == 0 {
        pre
    } else {
        run_cycles(cycle(pre, rngs[0]), rngs.drop_first())
    }
}

/// The interpreter core: registers, stack, timers, memory, and the two
/// attached devices.  `registers[0xF]` is `VF`, the implicit
/// carry/borrow/collision flag.
pub struct Cpu {
    pub i: u16,
    pub pc: u16,
    pub s_ptr: u8,
    pub stack: Vec<u16>,
    pub delay_timer: u8,
    pub sound_timer: u8,
    pub registers: Vec<u8>,
    pub memory: Vec<u8>,
    pub display: Display,
    pub keyboard: Keyboard,
    pub rng: u8,
}

impl View for Cpu {
    type V = St;

    open spec fn view(&self) -> St {
        St {
            i: self.i,
            pc: self.pc,
            sp: self.s_ptr,
            stack: self.stack@,
            delay: self.delay_timer,
            sound: self.sound_timer,
            regs: self.registers@,
            mem: self.memory@,
            disp: self.display.pixels@,
            keys: self.keyboard.keys@,
            rng: self.rng,
        }
    }
}

/// Builds a vector of `n` zero bytes.
fn zero_bytes(n: usize) -> (v: Vec<u8>)
    ensures
        v@ == Seq::new(n as nat, |k: int| 0u8),
{
    let mut v: Vec<u8> = Vec::new();
    let mut k: usize = 0;
    while k < n
        invariant
            k <= n,
            v@.len() == k,
            forall|j: int| 0 <= j < k ==> v@[j] == 0u8,
        decreases n - k,
    {
        v.push(0u8);
        k = k + 1;
    }
    assert(v@ =~= Seq::new(n as nat, |k: int| 0u8));
    v
}

/// Builds a vector of `n` zero words.
fn zero_words(n: usize) -> (v: Vec<u16>)
    ensures
        v@ == Seq::new(n as nat, |k: int| 0u16),
{
    let mut v: Vec<u16> = Vec::new();
    let mut k: usize = 0;
    while k < n
        invariant
            k <= n,
            v@.len() == k,
            forall|j: int| 0 <= j < k ==> v@[j] == 0u16,
        decreases n - k,
    {
        v.push(0u16);
        k = k + 1;
    }
    assert(v@ =~= Seq::new(n as nat, |k: int| 0u16));
    v
}

/// The eighty font bytes as an executable table.
fn font_set() -> (v: Vec<u8>)
    ensures
        v@ == font_data(),
{
    let v: Vec<u8> = vec![
        0xF0u8, 0x90, 0x90, 0x90, 0xF0, // 0
        0x20, 0x60, 0x20, 0x20, 0x70, // 1
        0xF0, 0x10, 0xF0, 0x80, 0xF0, // 2
        0xF0, 0x10, 0xF0, 0x10, 0xF0, // 3
        0x90, 0x90, 0xF0, 0x10, 0x10, // 4
        0xF0, 0x80, 0xF0, 0x10, 0xF0, // 5
        0xF0, 0x80, 0xF0, 0x90, 0xF0, // 6
        0xF0, 0x10, 0x20, 0x40, 0x40, // 7
        0xF0, 0x90, 0xF0, 0x90, 0xF0, // 8
        0xF0, 0x90, 0xF0, 0x10, 0xF0, // 9
        0xF0, 0x90, 0xF0, 0x90, 0x90, // A
        0xE0, 0x90, 0xE0, 0x90, 0xE0, // B
        0xF0, 0x80, 0x80, 0x80, 0xF0, // C
        0xE0, 0x90, 0x90, 0x90, 0xE0, // D
        0xF0, 0x80, 0xF0, 0x80, 0xF0, // E
        0xF0, 0x80, 0xF0, 0x80, 0x80, // F
    ];
    assert(v@ =~= font_data());
    v
}

impl Cpu {
    /// The machine is well formed when every fixed-size store has its
    /// power-on size and the framebuffer is the standard 64-by-32 grid.
    pub open spec fn wf(&self) -> bool {
        &&& wf_st(self@)
        &&& self.display.wf()
        &&& self.display.width == 64
        &&& self.display.height == 32
        &&& self.keyboard.wf()
    }

    /// Constructs the core in its power-on state, with the font seeded at
    /// the bottom of memory.
    pub fn new() -> (cpu: Cpu)
        ensures
            cpu.wf(),
            cpu@ == init_st(),
    {
        let mut cpu = Cpu {
            i: 0,
            pc: 0x200,
            s_ptr: 0,
            stack: zero_words(16),
            delay_timer: 0,
            sound_timer: 0,
            registers: zero_bytes(16),
            memory: zero_bytes(4096),
            display: Display::new_empty(),
            keyboard: Keyboard::new(),
            rng: 0,
        };
        cpu.load_sprites();
        proof {
            assert(cpu@.mem =~= init_st().mem);
            assert(cpu@ == init_st());
        }
        cpu
    }

    /// Returns every field to its power-on default and re-seeds the font.
    pub fn reset(&mut self)
        requires
            old(self).wf(),
        ensures
            final(self).wf(),
            final(self)@ == init_st(),
    {
        self.i = 0;
        self.pc = 0x200;
        self.s_ptr = 0;
        self.stack = zero_words(16);
        self.delay_timer = 0;
        self.sound_timer = 0;
        self.registers = zero_bytes(16);
        self.memory = zero_bytes(4096);
        self.rng = 0;
        self.display.cls();
        self.keyboard.reset_keys();
        self.load_sprites();
        proof {
            assert(self@ =~= init_st());
        }
    }

    /// Copies the font table into the low eighty bytes of memory.
    pub fn load_sprites(&mut self)
        requires
            old(self).memory@.len() == 4096,
        ensures
            final(self)@ == (St { mem: with_font(old(self)@.mem), ..old(self)@ }),
            final(self).display == old(self).display,
            final(self).keyboard == old(self).keyboard,
    {
        let font = font_set();
        let mut k: usize = 0;
        while k < 80
            invariant
                k <= 80,
                font@ == font_data(),
                self.memory@.len() == 4096,
                self.i == old(self).i,
                self.pc == old(self).pc,
                self.s_ptr == old(self).s_ptr,
                self.stack == old(self).stack,
                self.delay_timer == old(self).delay_timer,
                self.sound_timer == old(self).sound_timer,
                self.registers == old(self).registers,
                self.display == old(self).display,
                self.keyboard == old(self).keyboard,
                self.rng == old(self).rng,
                forall|j: int| 0 <= j < k ==> self.memory@[j] == font_data()[j],
                forall|j: int| k <= j < 4096 ==> self.memory@[j] == old(self).memory@[j],
            decreases 80 - k,
        {
            self.memory[k] = font[k];
            k = k + 1;
        }
        proof {
            assert(self@.mem =~= with_font(old(self)@.mem));
            assert(self@ == (St { mem: with_font(old(self)@.mem), ..old(self)@ }));
        }
    }

    /// Replaces all of memory with the supplied 4096-byte image and
    /// re-seeds the font over its low eighty bytes.
    pub fn load_memory(&mut self, bytes: Vec<u8>)
        requires
            old(self).wf(),
            bytes@.len() == 4096,
        ensures
            final(self).wf(),
            final(self)@ == (St { mem: with_font(bytes@), ..old(self)@ }),
    {
        self.memory = bytes;
        self.load_sprites();
    }

    /// Decrements each timer that is nonzero; both saturate at zero.
    pub fn decrement_timers(&mut self)
        requires
            old(self).wf(),
        ensures
            final(self).wf(),
            final(self)@ == (St {
                delay: if old(self).delay_timer > 0 {
                    (old(self).delay_timer - 1) as u8
                } else {
                    0
                },
                sound: if old(self).sound_timer > 0 {
                    (old(self).sound_timer - 1) as u8
                } else {
                    0
                },
                ..old(self)@
            }),
    {
        if self.delay_timer > 0 {
            self.delay_timer = self.delay_timer - 1;
        }
        if self.sound_timer > 0 {
            self.sound_timer = self.sound_timer - 1;
        }
    }

    /// Marks `key` as pressed on the attached keyboard.
    pub fn set_key(&mut self, key: u8)
        requires
            old(self).wf(),
            key < 16,
        ensures
            final(self).wf(),
            final(self)@ == (St { keys: old(self)@.keys.update(key as int, 1u8), ..old(self)@ }),
    {
        self.keyboard.set_key(key);
    }

    /// Marks `key` as released on the attached keyboard.
    pub fn unset_key(&mut self, key: u8)
        requires
            old(self).wf(),
            key < 16,
        ensures
            final(self).wf(),
            final(self)@ == (St { keys: old(self)@.keys.update(key as int, 0u8), ..old(self)@ }),
    {
        self.keyboard.unset_key(key);
    }

    /// Read-back access to all of memory for a host renderer or debugger.
    pub fn get_memory(&self) -> (mem: &Vec<u8>)
        ensures
            mem@ == self.memory@,
    {
        &self.memory
    }

    /// Read-back access to the framebuffer cells.
    pub fn get_display(&self) -> (pixels: &Vec<Pixel>)
        ensures
            pixels@ == self.display.pixels@,
    {
        self.display.pixels()
    }

    /// Read-back access to the key table.
    pub fn get_keyboard(&self) -> (keys: &Vec<u8>)
        ensures
            keys@ == self.keyboard.keys@,
    {
        self.keyboard.get_internal_array()
    }

    /// Splits an instruction word into its four nibbles; the middle two
    /// are returned as register indices.
    pub fn get_nibbles(opcode: u16) -> (nibbles: (u8, usize, usize, u8))
        ensures
            nibbles.0 == nib1(opcode),
            nibbles.1 == nib_x(opcode) as usize,
            nibbles.2 == nib_y(opcode) as usize,
            nibbles.3 == nib4(opcode),
    {
        proof {
            crate::instr::lemma_field_bounds(opcode);
        }
        (
            ((opcode >> 12) & 0xF) as u8,
            ((opcode >> 8) & 0xF) as usize,
            ((opcode >> 4) & 0xF) as usize,
            (opcode & 0xF) as u8,
        )
    }
}


/// The error a program load reports: the image does not fit in the 3584
/// bytes of memory above the program origin.
#[derive(Clone, Copy, Debug, PartialEq, Eq, Structural)]
pub enum LoadError {
    TooLarge,
}

/// Scanning for the lowest pressed key can start at any index whose prefix
/// holds only released keys.
proof fn lemma_first_pressed_skip(keys: Seq<u8>, k: int)
    requires
        0 <= k <= 16,
        forall|j: int| 0 <= j < k ==> keys[j] == 0,
    ensures
        first_pressed(keys, 0) == first_pressed(keys, k),
    decreases k,
{
    if k > 0 {
        lemma_first_pressed_skip(keys, k - 1);
    }
}

impl Cpu {
    /// Pushes the current `PC` and jumps to the subroutine at `nnn`.
    fn call_subroutine(&mut self, nnn: u16)
        requires
            old(self).wf(),
            old(self).s_ptr < 15,
        ensures
            final(self).wf(),
            final(self)@ == (St {
                sp: (old(self)@.sp + 1) as u8,
                stack: old(self)@.stack.update(old(self)@.sp + 1, old(self)@.pc),
                pc: nnn,
                ..old(self)@
            }),
    {
        self.s_ptr = self.s_ptr + 1;
        self.stack[self.s_ptr as usize] = self.pc;
        self.pc = nnn;
    }

    /// Pops the saved address back into `PC`.
    fn ret_subroutine(&mut self)
        requires
            old(self).wf(),
            old(self).s_ptr >= 1,
        ensures
            final(self).wf(),
            final(self)@ == (St {
                pc: old(self)@.stack[old(self)@.sp as int],
                sp: (old(self)@.sp - 1) as u8,
                ..old(self)@
            }),
    {
        self.pc = self.stack[self.s_ptr as usize];
        self.s_ptr = self.s_ptr - 1;
    }

    /// Adds `Vy` into the flag-free sum of `Vx`, latches the carry into
    /// `VF`, and returns the wrapped sum for the caller to store.
    fn safe_add_registers(&mut self, x: usize, y: usize) -> (sum: u8)
        requires
            old(self).wf(),
            x < 16,
            y < 16,
        ensures
            final(self).wf(),
            final(self)@ == (St {
                regs: old(self)@.regs.update(15, if old(self)@.regs[x as int] + old(self)@.regs[y as int] > 255 {
                    1u8
                } else {
                    0u8
                }),
                ..old(self)@
            }),
            sum == ((old(self)@.regs[x as int] + old(self)@.regs[y as int]) % 256) as u8,
    {
        let a = self.registers[x];
        let b = self.registers[y];
        let wide: u16 = a as u16 + b as u16;
        self.registers[15] = if wide > 255 {
            1
        } else {
            0
        };
        (wide % 256) as u8
    }

    /// Computes the wrapped difference of two registers, latches the
    /// no-borrow flag into `VF`, and returns the difference.
    fn safe_sub_registers(&mut self, first: usize, second: usize) -> (diff: u8)
        requires
            old(self).wf(),
            first < 16,
            second < 16,
        ensures
            final(self).wf(),
            final(self)@ == (St {
                regs: old(self)@.regs.update(15, if old(self)@.regs[first as int] >= old(self)@.regs[second as int] {
                    1u8
                } else {
                    0u8
                }),
                ..old(self)@
            }),
            diff == (if old(self)@.regs[first as int] >= old(self)@.regs[second as int] {
                (old(self)@.regs[first as int] - old(self)@.regs[second as int]) as u8
            } else {
                (old(self)@.regs[first as int] + 256 - old(self)@.regs[second as int]) as u8
            }),
    {
        let a = self.registers[first];
        let b = self.registers[second];
        if a >= b {
            self.registers[15] = 1;
            a - b
        } else {
            self.registers[15] = 0;
            ((a as u16 + 256) - b as u16) as u8
        }
    }

    /// Latches the least significant bit of `Vx` into `VF` and returns the
    /// halved value.
    fn halve(&mut self, x: usize) -> (halved: u8)
        requires
            old(self).wf(),
            x < 16,
        ensures
            final(self).wf(),
            final(self)@ == (St {
                regs: old(self)@.regs.update(15, (old(self)@.regs[x as int] % 2) as u8),
                ..old(self)@
            }),
            halved == (old(self)@.regs[x as int] / 2) as u8,
    {
        let v = self.registers[x];
        self.registers[15] = v % 2;
        v / 2
    }

    /// Latches the most significant bit of `Vx` into `VF` and returns the
    /// wrapped doubled value.
    fn double(&mut self, x: usize) -> (doubled: u8)
        requires
            old(self).wf(),
            x < 16,
        ensures
            final(self).wf(),
            final(self)@ == (St {
                regs: old(self)@.regs.update(15, (old(self)@.regs[x as int] / 128) as u8),
                ..old(self)@
            }),
            doubled == ((old(self)@.regs[x as int] * 2) % 256) as u8,
    {
        let v = self.registers[x];
        self.registers[15] = v / 128;
        ((v as u16 * 2) % 256) as u8
    }

    /// The wait-key stall: rewinds `PC` so the same instruction re-executes
    /// unless some key is pressed, in which case the lowest pressed key's
    /// index is stored in `Vx` and execution proceeds.
    fn wait_for_keypress(&mut self, x: usize)
        requires
            old(self).wf(),
            x < 16,
            old(self).pc >= 2,
        ensures
            final(self).wf(),
            final(self)@ == (if any_pressed(old(self)@.keys) {
                St {
                    regs: old(self)@.regs.update(x as int, first_pressed(old(self)@.keys, 0) as u8),
                    ..old(self)@
                }
            } else {
                St { pc: (old(self)@.pc - 2) as u16, ..old(self)@ }
            }),
    {
        self.pc = self.pc - 2;
        let mut key: u8 = 0;
        while key < 16
            invariant
                old(self).wf(),
                old(self).pc >= 2,
                x < 16,
                key <= 16,
                self.display == old(self).display,
                self.keyboard == old(self).keyboard,
                self@ == (St { pc: (old(self)@.pc - 2) as u16, ..old(self)@ }),
                forall|j: int| 0 <= j < key ==> old(self)@.keys[j] == 0,
            decreases 16 - key,
        {
            if self.keyboard.key_is_pressed(key) {
                self.pc = self.pc + 2;
                self.registers[x] = key;
                proof {
                    lemma_first_pressed_skip(old(self)@.keys, key as int);
                    assert(any_pressed(old(self)@.keys));
                    assert(first_pressed(old(self)@.keys, 0) == key);
                }
                return;
            }
            key = key + 1;
        }
        proof {
            assert(!any_pressed(old(self)@.keys));
        }
    }

    /// Reads the `n`-byte sprite at `memory[I..I+n]`, XOR-composites it at
    /// `(x, y)`, and latches the collision signal into `VF`.
    fn display_sprite(&mut self, x: u8, y: u8, bytes: u8)
        requires
            old(self).wf(),
            bytes < 16,
            old(self)@.i + bytes <= 4096,
        ensures
            final(self).wf(),
            final(self)@ == (St {
                disp: draw_seq(
                    old(self)@.disp,
                    old(self)@.mem.subrange(old(self)@.i as int, old(self)@.i + bytes),
                    x,
                    y,
                    64,
                    32,
                ),
                regs: old(self)@.regs.update(15, if draw_collides(
                    old(self)@.disp,
                    old(self)@.mem.subrange(old(self)@.i as int, old(self)@.i + bytes),
                    x,
                    y,
                    64,
                    32,
                ) {
                    1u8
                } else {
                    0u8
                }),
                ..old(self)@
            }),
    {
        let i = self.i as usize;
        let n = bytes as usize;
        let mut sprite: Vec<u8> = Vec::new();
        let mut j: usize = 0;
        while j < n
            invariant
                old(self).wf(),
                i == old(self)@.i,
                n == bytes,
                i + n <= 4096,
                j <= n,
                self == old(self),
                sprite@ =~= old(self)@.mem.subrange(i as int, i + j),
            decreases n - j,
        {
            sprite.push(self.memory[i + j]);
            j = j + 1;
        }
        assert(sprite@ =~= self@.mem.subrange(self@.i as int, self@.i + bytes));
        let collision_flag = self.display.draw_bytes(x, y, &sprite);
        self.registers[15] = if collision_flag {
            1
        } else {
            0
        };
    }

    /// Writes the hundreds, tens, and ones digits of `value` to
    /// `memory[address..address+3]`.
    fn write_bcd_to_memory(&mut self, value: u8, address: usize)
        requires
            old(self).wf(),
            address + 2 < 4096,
        ensures
            final(self).wf(),
            final(self)@ == (St {
                mem: bcd_write(old(self)@.mem, address as int, value),
                ..old(self)@
            }),
    {
        self.memory[address] = (value / 100) % 10;
        self.memory[address + 1] = (value / 10) % 10;
        self.memory[address + 2] = value % 10;
    }

    /// Copies `V0..=Vupto` into memory starting at `address`.
    fn store_registers(&mut self, upto: usize, address: usize)
        requires
            old(self).wf(),
            upto < 16,
            address + upto < 4096,
        ensures
            final(self).wf(),
            final(self)@ == (St {
                mem: store_regs_mem(old(self)@.mem, old(self)@.regs, address as int, upto as int),
                ..old(self)@
            }),
    {
        let mut k: usize = 0;
        while k < upto + 1
            invariant
                old(self).wf(),
                upto < 16,
                address + upto < 4096,
                k <= upto + 1,
                self.display == old(self).display,
                self.keyboard == old(self).keyboard,
                self.i == old(self).i,
                self.pc == old(self).pc,
                self.s_ptr == old(self).s_ptr,
                self.stack == old(self).stack,
                self.delay_timer == old(self).delay_timer,
                self.sound_timer == old(self).sound_timer,
                self.registers == old(self).registers,
                self.rng == old(self).rng,
                self.memory@.len() == 4096,
                forall|j: int| address <= j < address + k ==> self.memory@[j]
                    == old(self)@.regs[j - address],
                forall|j: int| 0 <= j < 4096 && !(address <= j < address + k) ==> self.memory@[j]
                    == old(self)@.mem[j],
            decreases upto + 1 - k,
        {
            self.memory[address + k] = self.registers[k];
            k = k + 1;
        }
        proof {
            assert(self@.mem =~= store_regs_mem(
                old(self)@.mem,
                old(self)@.regs,
                address as int,
                upto as int,
            ));
        }
    }

    /// Loads `V0..=Vupto` from memory starting at `address`.
    fn load_registers(&mut self, upto: usize, address: usize)
        requires
            old(self).wf(),
            upto < 16,
            address + upto < 4096,
        ensures
            final(self).wf(),
            final(self)@ == (St {
                regs: load_regs_file(old(self)@.regs, old(self)@.mem, address as int, upto as int),
                ..old(self)@
            }),
    {
        let mut k: usize = 0;
        while k < upto + 1
            invariant
                old(self).wf(),
                upto < 16,
                address + upto < 4096,
                k <= upto + 1,
                self.display == old(self).display,
                self.keyboard == old(self).keyboard,
                self.i == old(self).i,
                self.pc == old(self).pc,
                self.s_ptr == old(self).s_ptr,
                self.stack == old(self).stack,
                self.delay_timer == old(self).delay_timer,
                self.sound_timer == old(self).sound_timer,
                self.memory == old(self).memory,
                self.rng == old(self).rng,
                self.registers@.len() == 16,
                forall|j: int| 0 <= j < k ==> self.registers@[j] == old(self)@.mem[address + j],
                forall|j: int| k <= j < 16 ==> self.registers@[j] == old(self)@.regs[j],
            decreases upto + 1 - k,
        {
            self.registers[k] = self.memory[address + k];
            k = k + 1;
        }
        proof {
            assert(self@.regs =~= load_regs_file(
                old(self)@.regs,
                old(self)@.mem,
                address as int,
                upto as int,
            ));
        }
    }

    /// Decodes and executes exactly one instruction on the current state.
    /// `PC` must already have been advanced past the instruction word.
    /// Unrecognized opcodes leave the state unchanged.
    pub fn run_opcode(&mut self, opcode: u16)
        requires
            old(self).wf(),
            step_ok(old(self)@, decode_s(opcode)),
        ensures
            final(self).wf(),
            final(self)@ == step(old(self)@, decode_s(opcode)),
    {
        let instr = crate::instr::decode(opcode);
        match instr {
            Instr::Cls => self.display.cls(),
            Instr::Ret => self.ret_subroutine(),
            Instr::Jump(nnn) => self.pc = nnn,
            Instr::Call(nnn) => self.call_subroutine(nnn),
            Instr::SkipEqImm(x, kk) => if self.registers[x as usize] == kk {
                self.pc = self.pc + 2;
            },
            Instr::SkipNeImm(x, kk) => if self.registers[x as usize] != kk {
                self.pc = self.pc + 2;
            },
            Instr::SkipEqReg(x, y) => if self.registers[x as usize] == self.registers[y as usize] {
                self.pc = self.pc + 2;
            },
            Instr::LoadImm(x, kk) => self.registers[x as usize] = kk,
            Instr::AddImm(x, kk) => {
                let v = self.registers[x as usize];
                self.registers[x as usize] = ((v as u16 + kk as u16) % 256) as u8;
            },
            Instr::Move(x, y) => self.registers[x as usize] = self.registers[y as usize],
            Instr::Or(x, y) => {
                let v = self.registers[x as usize] | self.registers[y as usize];
                self.registers[x as usize] = v;
            },
            Instr::And(x, y) => {
                let v = self.registers[x as usize] & self.registers[y as usize];
                self.registers[x as usize] = v;
            },
            Instr::Xor(x, y) => {
                let v = self.registers[x as usize] ^ self.registers[y as usize];
                self.registers[x as usize] = v;
            },
            Instr::Add(x, y) => {
                let sum = self.safe_add_registers(x as usize, y as usize);
                self.registers[x as usize] = sum;
            },
            Instr::Sub(x, y) => {
                let diff = self.safe_sub_registers(x as usize, y as usize);
                self.registers[x as usize] = diff;
            },
            Instr::Shr(x) => {
                let halved = self.halve(x as usize);
                self.registers[x as usize] = halved;
            },
            Instr::Subn(x, y) => {
                let diff = self.safe_sub_registers(y as usize, x as usize);
                self.registers[x as usize] = diff;
            },
            Instr::Shl(x) => {
                let doubled = self.double(x as usize);
                self.registers[x as usize] = doubled;
            },
            Instr::SkipNeReg(x, y) => if self.registers[x as usize] != self.registers[y as usize] {
                self.pc = self.pc + 2;
            },
            Instr::LoadIndex(nnn) => self.i = nnn,
            Instr::JumpOffset(nnn) => self.pc = nnn + self.registers[0] as u16,
            Instr::Rand(x, kk) => self.registers[x as usize] = kk & self.rng,
            Instr::Draw(x, y, n) => {
                let vx = self.registers[x as usize];
                let vy = self.registers[y as usize];
                self.display_sprite(vx, vy, n);
            },
            Instr::SkipKey(x) => {
                let vx = self.registers[x as usize];
                if self.keyboard.key_is_pressed(vx) {
                    self.pc = self.pc + 2;
                }
            },
            Instr::SkipNoKey(x) => {
                let vx = self.registers[x as usize];
                if !self.keyboard.key_is_pressed(vx) {
                    self.pc = self.pc + 2;
                }
            },
            Instr::LoadDelay(x) => self.registers[x as usize] = self.delay_timer,
            Instr::WaitKey(x) => self.wait_for_keypress(x as usize),
            Instr::SetDelay(x) => self.delay_timer = self.registers[x as usize],
            Instr::SetSound(x) => self.sound_timer = self.registers[x as usize],
            Instr::AddIndex(x) => self.i = self.i + self.registers[x as usize] as u16,
            Instr::FontAddr(x) => self.i = self.registers[x as usize] as u16 * 5,
            Instr::Bcd(x) => {
                let v = self.registers[x as usize];
                let addr = self.i as usize;
                self.write_bcd_to_memory(v, addr);
            },
            Instr::StoreRegs(x) => {
                let addr = self.i as usize;
                self.store_registers(x as usize, addr);
            },
            Instr::LoadRegs(x) => {
                let addr = self.i as usize;
                self.load_registers(x as usize, addr);
            },
            Instr::Nop => {},
        }
    }

    /// One full cycle: fetches the big-endian word at `PC`, advances `PC`
    /// by two before executing, latches `random_num` for the duration of
    /// the call, then decodes and executes the instruction.
    pub fn execute_cycle(&mut self, random_num: u8)
        requires
            old(self).wf(),
            cycle_ok(old(self)@, random_num),
        ensures
            final(self).wf(),
            final(self)@ == cycle(old(self)@, random_num),
    {
        let hi = self.memory[self.pc as usize];
        let lo = self.memory[(self.pc + 1) as usize];
        let opcode: u16 = ((hi as u16) << 8) | (lo as u16);
        self.pc = self.pc + 2;
        self.rng = random_num;
        proof {
            assert(self@ =~= (St {
                pc: (old(self)@.pc + 2) as u16,
                rng: random_num,
                ..old(self)@
            }));
        }
        self.run_opcode(opcode);
    }

    /// A guarded cycle: performs `execute_cycle` when the next instruction
    /// stays inside every bound, and otherwise reports the integrity fault
    /// by returning false with the state untouched.
    pub fn try_execute_cycle(&mut self, random_num: u8) -> (stepped: bool)
        requires
            old(self).wf(),
        ensures
            final(self).wf(),
            stepped == cycle_ok(old(self)@, random_num),
            stepped ==> final(self)@ == cycle(old(self)@, random_num),
            !stepped ==> final(self)@ == old(self)@,
    {
        if self.pc > 4094 {
            return false;
        }
        let hi = self.memory[self.pc as usize];
        let lo = self.memory[(self.pc + 1) as usize];
        let opcode: u16 = ((hi as u16) << 8) | (lo as u16);
        let instr = crate::instr::decode(opcode);
        let ok = match instr {
            Instr::Ret => self.s_ptr >= 1,
            Instr::Call(_) => self.s_ptr < 15,
            Instr::Draw(_, _, n) => self.i as u32 + n as u32 <= 4096,
            Instr::SkipKey(x) => self.registers[x as usize] < 16,
            Instr::SkipNoKey(x) => self.registers[x as usize] < 16,
            Instr::AddIndex(x) => self.i as u32 + self.registers[x as usize] as u32 <= 65535,
            Instr::Bcd(_) => self.i < 4094,
            Instr::StoreRegs(x) => (self.i as u32) + (x as u32) < 4096,
            Instr::LoadRegs(x) => (self.i as u32) + (x as u32) < 4096,
            _ => true,
        };
        if ok {
            self.execute_cycle(random_num);
            true
        } else {
            false
        }
    }

    /// Writes a program image at offset `0x200` and re-seeds the font.
    /// Registers, timers, and `PC` are left as they are; an image larger
    /// than the memory above the program origin is rejected unwritten.
    pub fn load_program(&mut self, program: &Vec<u8>) -> (r: Result<(), LoadError>)
        requires
            old(self).wf(),
        ensures
            final(self).wf(),
            program@.len() <= 3584 ==> r == Ok::<(), LoadError>(()) && final(self)@ == (St {
                mem: with_font(with_program(old(self)@.mem, program@)),
                ..old(self)@
            }),
            program@.len() > 3584 ==> r == Err::<(), LoadError>(LoadError::TooLarge)
                && final(self)@ == old(self)@,
    {
        if program.len() > 3584 {
            return Err(LoadError::TooLarge);
        }
        let n: usize = program.len();
        let mut k: usize = 0;
        while k < n
            invariant
                old(self).wf(),
                n == program@.len(),
                n <= 3584,
                k <= n,
                self.display == old(self).display,
                self.keyboard == old(self).keyboard,
                self.i == old(self).i,
                self.pc == old(self).pc,
                self.s_ptr == old(self).s_ptr,
                self.stack == old(self).stack,
                self.delay_timer == old(self).delay_timer,
                self.sound_timer == old(self).sound_timer,
                self.registers == old(self).registers,
                self.rng == old(self).rng,
                self.memory@.len() == 4096,
                forall|j: int| 0x200 <= j < 0x200 + k ==> self.memory@[j]
                    == program@[j - 0x200],
                forall|j: int| 0 <= j < 4096 && !(0x200 <= j < 0x200 + k) ==> self.memory@[j]
                    == old(self)@.mem[j],
            decreases n - k,
        {
            self.memory[0x200 + k] = program[k];
            k = k + 1;
        }
        proof {
            assert(self@.mem =~= with_program(old(self)@.mem, program@));
            assert(self@ =~= (St { mem: with_program(old(self)@.mem, program@), ..old(self)@ }));
        }
        self.load_sprites();
        Ok(())
    }
}


/// `add-imm` never touches the flag register: for any destination other
/// than `VF` itself, `VF` is exactly what it was before.
pub proof fn lemma_add_imm_never_sets_flag(pre: St, x: u8, kk: u8)
    requires
        wf_st(pre),
        x < 16,
        x != 15,
    ensures
        step(pre, Instr::AddImm(x, kk)).regs[15] == pre.regs[15],
{
}

/// Register-register `add` sets `VF` to 1 exactly when the unsigned sum
/// exceeds 255, for any destination other than `VF` itself.
pub proof fn lemma_add_sets_flag_iff_carry(pre: St, x: u8, y: u8)
    requires
        wf_st(pre),
        x < 16,
        y < 16,
        x != 15,
    ensures
        step(pre, Instr::Add(x, y)).regs[15] == (if pre.regs[x as int] + pre.regs[y as int] > 255 {
            1u8
        } else {
            0u8
        }),
{
}

/// `sub Vx,Vy` sets `VF` to 1 exactly when no borrow occurs, that is when
/// the minuend `Vx` is at least the subtrahend `Vy`.
pub proof fn lemma_sub_flag_iff_no_borrow(pre: St, x: u8, y: u8)
    requires
        wf_st(pre),
        x < 16,
        y < 16,
        x != 15,
    ensures
        step(pre, Instr::Sub(x, y)).regs[15] == (if pre.regs[x as int] >= pre.regs[y as int] {
            1u8
        } else {
            0u8
        }),
{
}

/// `subn Vx,Vy` sets `VF` to 1 exactly when no borrow occurs, that is when
/// the minuend `Vy` is at least the subtrahend `Vx`.
pub proof fn lemma_subn_flag_iff_no_borrow(pre: St, x: u8, y: u8)
    requires
        wf_st(pre),
        x < 16,
        y < 16,
        x != 15,
    ensures
        step(pre, Instr::Subn(x, y)).regs[15] == (if pre.regs[y as int] >= pre.regs[x as int] {
            1u8
        } else {
            0u8
        }),
{
}

/// `shr` moves the least significant bit of `Vx` into `VF` before halving,
/// for any destination other than `VF` itself.
pub proof fn lemma_shr_flag_is_lsb(pre: St, x: u8)
    requires
        wf_st(pre),
        x < 16,
        x != 15,
    ensures
        step(pre, Instr::Shr(x)).regs[15] == (pre.regs[x as int] % 2) as u8,
        step(pre, Instr::Shr(x)).regs[x as int] == (pre.regs[x as int] / 2) as u8,
{
}

/// `shl` moves the most significant bit of `Vx` into `VF` before doubling,
/// for any destination other than `VF` itself.
pub proof fn lemma_shl_flag_is_msb(pre: St, x: u8)
    requires
        wf_st(pre),
        x < 16,
        x != 15,
    ensures
        step(pre, Instr::Shl(x)).regs[15] == (pre.regs[x as int] / 128) as u8,
        step(pre, Instr::Shl(x)).regs[x as int] == ((pre.regs[x as int] * 2) % 256) as u8,
{
}

/// `store-regs` followed by `load-regs` with the same `I` and the same `x`
/// reproduces the register file exactly.
pub proof fn lemma_store_load_round_trip(pre: St, x: u8)
    requires
        wf_st(pre),
        x < 16,
        pre.i + x < 4096,
    ensures
        step(step(pre, Instr::StoreRegs(x)), Instr::LoadRegs(x)).regs == pre.regs,
{
    let mid = step(pre, Instr::StoreRegs(x));
    let post = step(mid, Instr::LoadRegs(x));
    assert(post.regs =~= pre.regs);
}

/// After `call nnn` and then `return`, `PC` holds the value it held
/// immediately before the call and the stack depth is back to what it was.
pub proof fn lemma_call_return_round_trip(pre: St, nnn: u16)
    requires
        wf_st(pre),
        pre.sp < 15,
    ensures
        step(step(pre, Instr::Call(nnn)), Instr::Ret).pc == pre.pc,
        step(step(pre, Instr::Call(nnn)), Instr::Ret).sp == pre.sp,
{
}

/// The lowest pressed key at or above `k` really is the lowest: every key
/// before it is released, it is pressed when one exists, and a result of
/// 16 means the whole table from `k` up is released.
pub proof fn lemma_first_pressed_lowest(keys: Seq<u8>, k: int)
    requires
        0 <= k <= 16,
    ensures
        k <= first_pressed(keys, k) <= 16,
        first_pressed(keys, k) < 16 ==> keys[first_pressed(keys, k)] != 0,
        forall|j: int| k <= j < first_pressed(keys, k) ==> keys[j] == 0,
        first_pressed(keys, k) == 16 ==> forall|j: int| k <= j < 16 ==> keys[j] == 0,
    decreases 16 - k,
{
    if k < 16 && keys[k] == 0 {
        lemma_first_pressed_lowest(keys, k + 1);
    }
}

/// While no key is pressed, a cycle that fetches `wait-key` changes
/// nothing but the latched random byte: `PC` is back where it started, so
/// the same instruction re-executes on the next cycle.
pub proof fn lemma_wait_key_stalls(pre: St, random_num: u8)
    requires
        wf_st(pre),
        cycle_ok(pre, random_num),
        decode_s(fetch_op(pre.mem, pre.pc as int)) is WaitKey,
        !any_pressed(pre.keys),
    ensures
        cycle(pre, random_num) == (St { rng: random_num, ..pre }),
{
    assert(cycle(pre, random_num) =~= (St { rng: random_num, ..pre }));
}

/// While no key is pressed, any number of cycles that keep fetching the
/// same `wait-key` instruction leave the whole machine where it was, save
/// for the random byte latched by the last cycle: the stall holds for as
/// long as the keyboard stays silent.
pub proof fn lemma_wait_key_stalls_repeatedly(pre: St, rngs: Seq<u8>)
    requires
        wf_st(pre),
        pre.pc + 2 <= 4096,
        decode_s(fetch_op(pre.mem, pre.pc as int)) is WaitKey,
        !any_pressed(pre.keys),
    ensures
        rngs.len() == 0 ==> run_cycles(pre, rngs) == pre,
        rngs.len() > 0 ==> run_cycles(pre, rngs) == (St { rng: rngs.last(), ..pre }),
    decreases rngs.len(),
{
    if rngs.len() > 0 {
        assert(cycle_ok(pre, rngs[0]));
        lemma_wait_key_stalls(pre, rngs[0]);
        let mid = cycle(pre, rngs[0]);
        lemma_wait_key_stalls_repeatedly(mid, rngs.drop_first());
        if rngs.len() > 1 {
            assert(rngs.drop_first().last() == rngs.last());
            assert(run_cycles(pre, rngs) =~= (St { rng: rngs.last(), ..pre }));
        }
    }
}

/// Once some key is pressed, a cycle that fetches `wait-key Vx` advances
/// `PC` exactly once (by one instruction) and stores the lowest-indexed
/// pressed key in `Vx`.
pub proof fn lemma_wait_key_advances(pre: St, random_num: u8, x: u8)
    requires
        wf_st(pre),
        cycle_ok(pre, random_num),
        decode_s(fetch_op(pre.mem, pre.pc as int)) == Instr::WaitKey(x),
        any_pressed(pre.keys),
    ensures
        cycle(pre, random_num).pc == pre.pc + 2,
        cycle(pre, random_num).regs == pre.regs.update(
            x as int,
            first_pressed(pre.keys, 0) as u8,
        ),
        pre.keys[first_pressed(pre.keys, 0)] != 0,
        forall|j: int| 0 <= j < first_pressed(pre.keys, 0) ==> pre.keys[j] == 0,
{
    lemma_first_pressed_lowest(pre.keys, 0);
}

} // verus!
