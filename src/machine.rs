//! The interpreter state and the operations a host drives it with.
use vstd::prelude::*;

use crate::return_stack::{ReturnStack, STACK_DEPTH};
use crate::semantics::{
    alu, any_pressed, bcd, drawn, erases, is_alu_op, is_lowest_pressed, lemma_sprite_target,
    lowest_pressed, next_f, pow2_8, pressed, skip_if, sprite_at, steps_to, word_at,
};

verus! {

/// Width of the display, in pixels.
pub const SCREEN_WIDTH: usize = 64;

/// Height of the display, in pixels.
pub const SCREEN_HEIGHT: usize = 32;

/// Number of pixels of the display.
pub const DISPLAY_SIZE: usize = 2048;

/// Bytes of addressable memory.
pub const MEMORY_SIZE: usize = 4096;

/// Address at which programs are loaded and execution starts.
pub const PROGRAM_START: u16 = 0x200;

/// Largest program that fits between `PROGRAM_START` and the end of memory.
pub const MAX_ROM_SIZE: usize = 3584;

/// Why a load or an instruction was refused. The machine is left as it was.
#[derive(Debug, Clone, Copy, PartialEq, Eq, Structural)]
pub enum Chip8Error {
    /// A program longer than `MAX_ROM_SIZE` bytes.
    RomTooLarge,
    /// CALL with `STACK_DEPTH` return addresses already held.
    StackOverflow,
    /// RET with no return address held.
    StackUnderflow,
    /// PC or I names a byte outside memory.
    MemoryAccessViolation,
}

/// The sixteen general registers V0..VF, the index register and the program counter.
pub struct Registers {
    pub v: [u8; 16],
    pub i: u16,
    pub pc: u16,
}

impl Registers {
    /// Moves the program counter to the next instruction.
    pub fn inc_pc(&mut self)
        requires
            old(self).pc <= 0xFFFD,
        ensures
            final(self).pc == old(self).pc + 2,
            final(self).v == old(self).v,
            final(self).i == old(self).i,
    {
        self.pc = self.pc + 2;
    }
}

/// The delay and sound timers, both counting down toward zero.
pub struct Timers {
    pub delay_timer: u8,
    pub sound_timer: u8,
}

/// The built-in glyphs of the hexadecimal digits 0..F, five rows each.
pub open spec fn font() -> Seq<u8> {
    seq![
        0xF0u8, 0x90, 0x90, 0x90, 0xF0, 0x20, 0x60, 0x20, 0x20, 0x70,
        0xF0, 0x10, 0xF0, 0x80, 0xF0, 0xF0, 0x10, 0xF0, 0x10, 0xF0,
        0x90, 0x90, 0xF0, 0x10, 0x10, 0xF0, 0x80, 0xF0, 0x10, 0xF0,
        0xF0, 0x80, 0xF0, 0x90, 0xF0, 0xF0, 0x10, 0x20, 0x40, 0x40,
        0xF0, 0x90, 0xF0, 0x90, 0xF0, 0xF0, 0x90, 0xF0, 0x10, 0xF0,
        0xF0, 0x90, 0xF0, 0x90, 0x90, 0xE0, 0x90, 0xE0, 0x90, 0xE0,
        0xF0, 0x80, 0x80, 0x80, 0xF0, 0xE0, 0x90, 0x90, 0x90, 0xE0,
        0xF0, 0x80, 0xF0, 0x80, 0xF0, 0xF0, 0x80, 0xF0, 0x80, 0x80,
    ]
}

/// `mem` with `data` written from address `offset` on.
pub open spec fn written(mem: Seq<u8>, offset: int, data: Seq<u8>) -> Seq<u8> {
    Seq::new(mem.len(), |a: int| if offset <= a < offset + data.len() { data[a - offset] } else { mem[a] })
}

/// A timer after one tick: one less, but never below zero.
pub open spec fn ticked(t: u8) -> u8 {
    if t > 0 { (t - 1) as u8 } else { 0 }
}

/// What a machine holds, as mathematical values.
pub struct Model {
    /// The 4096 bytes of memory.
    pub memory: Seq<u8>,
    /// The registers V0..VF.
    pub v: Seq<u8>,
    /// The index register I.
    pub i: u16,
    /// The program counter.
    pub pc: u16,
    /// The return addresses, oldest first.
    pub stack: Seq<u16>,
    pub delay: u8,
    pub sound: u8,
    /// The pixels, row by row, `SCREEN_WIDTH` to a row; each 0 or 1.
    pub display: Seq<u8>,
    /// One entry per key 0..F: nonzero while that key is pressed.
    pub keys: Seq<u8>,
}

/// What every reachable state satisfies: the lengths the machine's types fix, a
/// stack within its depth, and pixels of 0 or 1.
pub open spec fn valid_model(m: Model) -> bool {
    &&& m.memory.len() == MEMORY_SIZE
    &&& m.v.len() == 16
    &&& m.display.len() == DISPLAY_SIZE
    &&& m.keys.len() == 16
    &&& m.stack.len() <= STACK_DEPTH
    &&& forall|p: int| 0 <= p < DISPLAY_SIZE ==> #[trigger] m.display[p] <= 1
}

/// The whole interpreter state.
pub struct Chip8 {
    memory: [u8; 4096],
    registers: Registers,
    return_stack: ReturnStack,
    timers: Timers,
    gfx: [u8; 2048],
    keys: [u8; 16],
}

/// Pixel `p` lies within the first `r` rows of a sprite drawn at (`x`, `y`), or
/// within the first `c` columns of row `r`.
spec fn visited(x: int, y: int, r: int, c: int, p: int) -> bool {
    let dr = (p / 64 - y) % 32;
    let dc = (p % 64 - x) % 64;
    dr < r || (dr == r && dc < c)
}

/// The display while a sprite is being drawn: the visited pixels done, the rest not yet.
spec fn drawn_upto(g0: Seq<u8>, sprite: Seq<u8>, x: int, y: int, r: int, c: int) -> Seq<u8> {
    Seq::new(
        DISPLAY_SIZE as nat,
        |p: int|
            if visited(x, y, r, c, p) {
                g0[p] ^ sprite_at(sprite, x, y, p)
            } else {
                g0[p]
            },
    )
}

/// Some visited pixel was lit and gets a set sprite bit.
spec fn erased_upto(g0: Seq<u8>, sprite: Seq<u8>, x: int, y: int, r: int, c: int) -> bool {
    exists|p: int|
        0 <= p < DISPLAY_SIZE && #[trigger] visited(x, y, r, c, p) && g0[p] == 1 && sprite_at(
            sprite,
            x,
            y,
            p,
        ) == 1
}

impl View for Chip8 {
    type V = Model;

    closed spec fn view(&self) -> Model {
        Model {
            memory: self.memory@,
            v: self.registers.v@,
            i: self.registers.i,
            pc: self.registers.pc,
            stack: self.return_stack@,
            delay: self.timers.delay_timer,
            sound: self.timers.sound_timer,
            display: self.gfx@,
            keys: self.keys@,
        }
    }
}

impl Chip8 {
    /// The stack is well formed and every pixel is 0 or 1.
    pub closed spec fn wf(&self) -> bool {
        &&& self.return_stack.wf()
        &&& self.return_stack@.len() <= STACK_DEPTH
        &&& forall|p: int| 0 <= p < DISPLAY_SIZE ==> #[trigger] self.gfx@[p] <= 1
    }

    /// A well-formed machine has a valid model.
    pub proof fn lemma_valid(&self)
        requires
            self.wf(),
        ensures
            valid_model(self@),
    {
    }

    /// A machine with the font at 0x000, everything else zero, and PC at `PROGRAM_START`.
    pub fn new() -> (r: Self)
        ensures
            r.wf(),
            r@ == (Model {
                memory: written(Seq::new(MEMORY_SIZE as nat, |a: int| 0u8), 0, font()),
                v: Seq::new(16, |j: int| 0u8),
                i: 0,
                pc: PROGRAM_START,
                stack: Seq::empty(),
                delay: 0,
                sound: 0,
                display: Seq::new(DISPLAY_SIZE as nat, |p: int| 0u8),
                keys: Seq::new(16, |k: int| 0u8),
            }),
    {
        let mut chip8 = Chip8 {
            memory: [0u8; 4096],
            registers: Registers { v: [0u8; 16], i: 0, pc: PROGRAM_START },
            return_stack: ReturnStack::new(),
            timers: Timers { delay_timer: 0, sound_timer: 0 },
            gfx: [0u8; 2048],
            keys: [0u8; 16],
        };
        assert(chip8@.memory =~= Seq::new(MEMORY_SIZE as nat, |a: int| 0u8));
        assert(chip8@.stack =~= Seq::empty());
        chip8.load_sprite_font();
        assert(chip8@.v =~= Seq::new(16, |j: int| 0u8));
        assert(chip8@.display =~= Seq::new(DISPLAY_SIZE as nat, |p: int| 0u8));
        assert(chip8@.keys =~= Seq::new(16, |k: int| 0u8));
        chip8
    }

    /// Copies the font into addresses 0x000..0x04F.
    fn load_sprite_font(&mut self)
        requires
            old(self).wf(),
        ensures
            final(self).wf(),
            final(self)@ == (Model { memory: written(old(self)@.memory, 0, font()), ..old(self)@ }),
    {
        let sprite_font: [u8; 80] = [
            0xF0, 0x90, 0x90, 0x90, 0xF0, // 0
            0x20, 0x60, 0x20, 0x20, 0x70, // 1
            0xF0, 0x10, 0xF0, 0x80, 0xF0, // 2
            0xF0, 0x10, 0xF0, 0x10, 0xF0, // 3
            0x90, 0x90, 0xF0, 0x10, 0x10, // 4
            0xF0, 0x80, 0xF0, 0x10, 0xF0, // 5
            0xF0, 0x80, 0xF0, 0x90, 0xF0, // 6
            0xF0, 0x10, 0x20, 0x40, 0x40, // 7
            0xF0, 0x90, 0xF0, 0x90, 0xF0, // 8
            0xF0, 0x90, 0xF0, 0x10, 0xF0, // 9
            0xF0, 0x90, 0xF0, 0x90, 0x90, // A
            0xE0, 0x90, 0xE0, 0x90, 0xE0, // B
            0xF0, 0x80, 0x80, 0x80, 0xF0, // C
            0xE0, 0x90, 0x90, 0x90, 0xE0, // D
            0xF0, 0x80, 0xF0, 0x80, 0xF0, // E
            0xF0, 0x80, 0xF0, 0x80, 0x80, // F
        ];
        assert(sprite_font@ =~= font());
        self.load_into_memory(&sprite_font, 0);
    }

    /// Copies `data` into memory from address `offset` on.
    pub fn load_into_memory(&mut self, data: &[u8], offset: u16)
        requires
            old(self).wf(),
            offset + data@.len() <= MEMORY_SIZE,
        ensures
            final(self).wf(),
            final(self)@ == (Model {
                memory: written(old(self)@.memory, offset as int, data@),
                ..old(self)@
            }),
    {
        let ghost mem0 = self.memory@;
        let start: usize = offset as usize;
        let mut k: usize = 0;
        while k < data.len()
            invariant
                start + data@.len() <= MEMORY_SIZE,
                k <= data@.len(),
                self.memory@.len() == MEMORY_SIZE,
                forall|a: int|
                    0 <= a < MEMORY_SIZE ==> #[trigger] self.memory@[a] == if start <= a < start + k {
                        data@[a - start]
                    } else {
                        mem0[a]
                    },
                self.registers == old(self).registers,
                self.return_stack == old(self).return_stack,
                self.timers == old(self).timers,
                self.gfx == old(self).gfx,
                self.keys == old(self).keys,
            decreases data@.len() - k,
        {
            self.memory[start + k] = data[k];
            k = k + 1;
        }
        assert(self.memory@ =~= written(mem0, offset as int, data@));
    }
    /// XORs the `n`-row sprite stored at I into the display at (`x`, `y`),
    /// wrapping at the edges; returns whether some lit pixel went dark.
    fn draw_sprite(&mut self, x: u8, y: u8, n: u16) -> (erased: bool)
        requires
            old(self).wf(),
            n < 16,
            old(self)@.i + n <= MEMORY_SIZE,
        ensures
            final(self).wf(),
            final(self)@ == (Model {
                display: drawn(
                    old(self)@.display,
                    old(self)@.memory.subrange(old(self)@.i as int, old(self)@.i + n),
                    x as int,
                    y as int,
                ),
                ..old(self)@
            }),
            erased == erases(
                old(self)@.display,
                old(self)@.memory.subrange(old(self)@.i as int, old(self)@.i + n),
                x as int,
                y as int,
            ),
    {
        let ghost g0 = self.gfx@;
        let ghost sprite = self.memory@.subrange(self.registers.i as int, self.registers.i + n);
        let ghost xi = x as int;
        let ghost yi = y as int;
        let base: usize = self.registers.i as usize;
        let mut erased = false;
        let mut r: usize = 0;
        assert(self.gfx@ =~= drawn_upto(g0, sprite, xi, yi, 0, 0));
        while r < n as usize
            invariant
                n < 16,
                base + n <= MEMORY_SIZE,
                base == old(self)@.i,
                r <= n,
                sprite == self.memory@.subrange(base as int, base + n),
                g0 == old(self).gfx@,
                xi == x as int,
                yi == y as int,
                forall|p: int| 0 <= p < DISPLAY_SIZE ==> #[trigger] g0[p] <= 1,
                self.gfx@ == drawn_upto(g0, sprite, xi, yi, r as int, 0),
                erased == erased_upto(g0, sprite, xi, yi, r as int, 0),
                self.memory == old(self).memory,
                self.registers == old(self).registers,
                self.return_stack == old(self).return_stack,
                self.timers == old(self).timers,
                self.keys == old(self).keys,
            decreases n - r,
        {
            let row_bits: u8 = self.memory[base + r];
            let row: usize = (y as usize + r) % 32;
            let mut c: usize = 0;
            let mut div: u8 = 128;
            while c < 8
                invariant
                    n < 16,
                    r < n,
                    c <= 8,
                    c < 8 ==> div as int == pow2_8(7 - c as int),
                    row == (yi + r) % 32,
                    row_bits == sprite[r as int],
                    xi == x as int,
                    yi == y as int,
                    g0 == old(self).gfx@,
                    sprite.len() == n,
                    forall|p: int| 0 <= p < DISPLAY_SIZE ==> #[trigger] g0[p] <= 1,
                    self.gfx@ == drawn_upto(g0, sprite, xi, yi, r as int, c as int),
                    erased == erased_upto(g0, sprite, xi, yi, r as int, c as int),
                    self.memory == old(self).memory,
                    self.registers == old(self).registers,
                    self.return_stack == old(self).return_stack,
                    self.timers == old(self).timers,
                    self.keys == old(self).keys,
                decreases 8 - c,
            {
                let col: usize = (x as usize + c) % 64;
                let idx: usize = row * 64 + col;
                proof {
                    lemma_sprite_target(idx as int, xi, yi, r as int, c as int);
                }
                let bit: u8 = (row_bits / div) % 2;
                let old_px: u8 = self.gfx[idx];
                proof {
                    assert(sprite_at(sprite, xi, yi, idx as int) == bit);
                    assert(old_px == g0[idx as int]);
                }
                self.gfx[idx] = old_px ^ bit;
                if old_px == 1 && bit == 1 {
                    erased = true;
                }
                proof {
                    let next = drawn_upto(g0, sprite, xi, yi, r as int, c + 1);
                    assert forall|p: int| 0 <= p < DISPLAY_SIZE implies #[trigger] self.gfx@[p]
                        == next[p] by {
                        lemma_sprite_target(p, xi, yi, r as int, c as int);
                    }
                    assert(self.gfx@ =~= next);
                    if erased {
                        if old_px == 1 && bit == 1 {
                            assert(visited(xi, yi, r as int, c + 1, idx as int));
                        } else {
                            let w = choose|p: int|
                                0 <= p < DISPLAY_SIZE && #[trigger] visited(xi, yi, r as int, c as int, p)
                                    && g0[p] == 1 && sprite_at(sprite, xi, yi, p) == 1;
                            assert(visited(xi, yi, r as int, c + 1, w));
                        }
                    }
                    if erased_upto(g0, sprite, xi, yi, r as int, c + 1) {
                        let w = choose|p: int|
                            0 <= p < DISPLAY_SIZE && #[trigger] visited(xi, yi, r as int, c + 1, p)
                                && g0[p] == 1 && sprite_at(sprite, xi, yi, p) == 1;
                        lemma_sprite_target(w, xi, yi, r as int, c as int);
                        if w != idx {
                            assert(visited(xi, yi, r as int, c as int, w));
                        }
                    }
                }
                c = c + 1;
                div = div / 2;
            }
            proof {
                let next = drawn_upto(g0, sprite, xi, yi, r + 1, 0);
                assert forall|p: int| 0 <= p < DISPLAY_SIZE implies #[trigger] self.gfx@[p]
                    == next[p] by {
                    let a = g0[p];
                    assert(a ^ 0u8 == a) by (bit_vector);
                }
                assert(self.gfx@ =~= next);
                if erased_upto(g0, sprite, xi, yi, r + 1, 0) {
                    let w = choose|p: int|
                        0 <= p < DISPLAY_SIZE && #[trigger] visited(xi, yi, r + 1, 0, p) && g0[p]
                            == 1 && sprite_at(sprite, xi, yi, p) == 1;
                    assert(visited(xi, yi, r as int, 8, w));
                }
                if erased {
                    let w = choose|p: int|
                        0 <= p < DISPLAY_SIZE && #[trigger] visited(xi, yi, r as int, 8, p) && g0[p]
                            == 1 && sprite_at(sprite, xi, yi, p) == 1;
                    assert(visited(xi, yi, r + 1, 0, w));
                }
            }
            r = r + 1;
        }
        proof {
            let full = drawn(g0, sprite, xi, yi);
            assert forall|p: int| 0 <= p < DISPLAY_SIZE implies #[trigger] self.gfx@[p]
                == full[p] by {
                let a = g0[p];
                assert(a ^ 0u8 == a) by (bit_vector);
                vstd::arithmetic::div_mod::lemma_mod_bound(p / 64 - yi, 32);
            }
            assert(self.gfx@ =~= full);
            if erased {
                let w = choose|p: int|
                    0 <= p < DISPLAY_SIZE && #[trigger] visited(xi, yi, n as int, 0, p) && g0[p]
                        == 1 && sprite_at(sprite, xi, yi, p) == 1;
                assert(g0[w] == 1);
            }
            if erases(g0, sprite, xi, yi) {
                let w = choose|p: int|
                    0 <= p < DISPLAY_SIZE && #[trigger] g0[p] == 1 && sprite_at(sprite, xi, yi, p) == 1;
                vstd::arithmetic::div_mod::lemma_mod_bound(w / 64 - yi, 32);
                assert(visited(xi, yi, n as int, 0, w));
            }
            assert forall|p: int| 0 <= p < DISPLAY_SIZE implies #[trigger] self.gfx@[p] <= 1 by {
                let a = g0[p];
                let b = sprite_at(sprite, xi, yi, p);
                assert(a <= 1 && b <= 1 ==> a ^ b <= 1) by (bit_vector);
            }
        }
        erased
    }
    /// The 16-bit word stored big-endian at `addr`.
    fn read_word(&self, addr: u16) -> (r: u16)
        requires
            addr + 1 < MEMORY_SIZE,
        ensures
            r == word_at(self@.memory, addr as int),
    {
        let hi: u16 = self.memory[addr as usize] as u16;
        let lo: u16 = self.memory[addr as usize + 1] as u16;
        hi * 256 + lo
    }

    /// Moves PC past the current instruction, and past the next one too where `skip`.
    fn skip_next(&mut self, skip: bool)
        requires
            old(self)@.pc + 4 <= 0xFFFF,
        ensures
            final(self)@ == skip_if(old(self)@, skip),
            final(self).return_stack == old(self).return_stack,
            final(self).gfx == old(self).gfx,
    {
        if skip {
            self.registers.inc_pc();
        }
        self.registers.inc_pc();
    }

    /// Runs the arithmetic or logic instruction 8xyn.
    fn exec_alu(&mut self, x: usize, y: usize, n: u16)
        requires
            x < 16,
            y < 16,
            is_alu_op(n as int),
            old(self)@.pc + 2 <= 0xFFFF,
        ensures
            final(self)@ == (Model {
                v: alu(old(self)@.v, x as int, y as int, n as int),
                pc: (old(self)@.pc + 2) as u16,
                ..old(self)@
            }),
            final(self).return_stack == old(self).return_stack,
            final(self).gfx == old(self).gfx,
    {
        let vx: u8 = self.registers.v[x];
        let vy: u8 = self.registers.v[y];
        let ghost v0 = self.registers.v@;
        if n <= 3 {
            let res: u8 = if n == 0 {
                vy
            } else if n == 1 {
                vx | vy
            } else if n == 2 {
                vx & vy
            } else {
                vx ^ vy
            };
            self.registers.v[x] = res;
        } else {
            let (flag, res) = alu_flag_result(vx, vy, n);
            self.registers.v[15] = flag;
            self.registers.v[x] = res;
        }
        assert(self.registers.v@ == alu(v0, x as int, y as int, n as int));
        self.registers.inc_pc();
    }

    /// The lowest key pressed, if any.
    fn lowest_key(&self) -> (r: Option<u8>)
        ensures
            r is None <==> !any_pressed(self@.keys),
            r matches Some(k) ==> k as int == lowest_pressed(self@.keys),
    {
        let mut k: usize = 0;
        while k < 16
            invariant
                k <= 16,
                forall|j: int| 0 <= j < k ==> !#[trigger] pressed(self@.keys, j),
            decreases 16 - k,
        {
            if self.keys[k] != 0 {
                assert(is_lowest_pressed(self@.keys, k as int));
                assert(any_pressed(self@.keys));
                assert(lowest_pressed(self@.keys) == k) by {
                    let l = lowest_pressed(self@.keys);
                    assert(is_lowest_pressed(self@.keys, l));
                    if l < k {
                        assert(!pressed(self@.keys, l));
                    } else if l > k {
                        assert(!pressed(self@.keys, k as int));
                    }
                }
                return Some(k as u8);
            }
            k = k + 1;
        }
        assert(!any_pressed(self@.keys)) by {
            if any_pressed(self@.keys) {
                let w = choose|j: int| pressed(self@.keys, j);
                assert(!pressed(self@.keys, w));
            }
        }
        None
    }

    /// Runs an instruction of family F whose low byte is `kk`.
    fn exec_f(&mut self, x: usize, kk: u8) -> (r: Result<(), Chip8Error>)
        requires
            old(self).wf(),
            x < 16,
            old(self)@.pc + 2 <= 0xFFFF,
        ensures
            final(self).wf(),
            match next_f(old(self)@, x as int, kk) {
                Ok(m) => r is Ok && final(self)@ == m,
                Err(e) => r == Err::<(), Chip8Error>(e) && final(self)@ == old(self)@,
            },
    {
        let vx: u8 = self.registers.v[x];
        if kk == 0x07 {
            self.registers.v[x] = self.timers.delay_timer;
        } else if kk == 0x0A {
            match self.lowest_key() {
                Some(k) => {
                    self.registers.v[x] = k;
                },
                None => {
                    return Ok(());
                },
            }
        } else if kk == 0x15 {
            self.timers.delay_timer = vx;
        } else if kk == 0x18 {
            self.timers.sound_timer = vx;
        } else if kk == 0x1E {
            self.registers.i = ((self.registers.i as u32 + vx as u32) % 0x10000) as u16;
        } else if kk == 0x29 {
            self.registers.i = vx as u16 * 5;
        } else if kk == 0x33 {
            let i: usize = self.registers.i as usize;
            if i + 3 > MEMORY_SIZE {
                return Err(Chip8Error::MemoryAccessViolation);
            }
            let ghost mem0 = self.memory@;
            self.memory[i] = vx / 100;
            self.memory[i + 1] = (vx / 10) % 10;
            self.memory[i + 2] = vx % 10;
            assert(self.memory@ =~= written(mem0, i as int, bcd(vx)));
        } else if kk == 0x55 {
            let i: usize = self.registers.i as usize;
            if i + x + 1 > MEMORY_SIZE {
                return Err(Chip8Error::MemoryAccessViolation);
            }
            let ghost mem0 = self.memory@;
            let mut j: usize = 0;
            while j <= x
                invariant
                    x < 16,
                    i + x + 1 <= MEMORY_SIZE,
                    i == old(self)@.i,
                    j <= x + 1,
                    self.memory@ == written(mem0, i as int, self.registers.v@.subrange(0, j as int)),
                    self.registers == old(self).registers,
                    self.return_stack == old(self).return_stack,
                    self.timers == old(self).timers,
                    self.gfx == old(self).gfx,
                    self.keys == old(self).keys,
                    forall|p: int| 0 <= p < DISPLAY_SIZE ==> #[trigger] self.gfx@[p] <= 1,
                decreases x + 1 - j,
            {
                self.memory[i + j] = self.registers.v[j];
                assert(self.memory@ =~= written(mem0, i as int, self.registers.v@.subrange(0, j + 1)));
                j = j + 1;
            }
        } else if kk == 0x65 {
            let i: usize = self.registers.i as usize;
            if i + x + 1 > MEMORY_SIZE {
                return Err(Chip8Error::MemoryAccessViolation);
            }
            let ghost v0 = self.registers.v@;
            let mut j: usize = 0;
            while j <= x
                invariant
                    x < 16,
                    i + x + 1 <= MEMORY_SIZE,
                    i == self.registers.i,
                    j <= x + 1,
                    self.registers.v@ == written(v0, 0, self.memory@.subrange(i as int, i + j)),
                    self.registers.i == old(self).registers.i,
                    self.registers.pc == old(self).registers.pc,
                    self.memory == old(self).memory,
                    self.return_stack == old(self).return_stack,
                    self.timers == old(self).timers,
                    self.gfx == old(self).gfx,
                    self.keys == old(self).keys,
                    forall|p: int| 0 <= p < DISPLAY_SIZE ==> #[trigger] self.gfx@[p] <= 1,
                decreases x + 1 - j,
            {
                self.registers.v[j] = self.memory[i + j];
                assert(self.registers.v@ =~= written(v0, 0, self.memory@.subrange(i as int, i + j + 1)));
                j = j + 1;
            }
        }
        self.registers.inc_pc();
        Ok(())
    }

    /// Executes the instruction at PC, with `rnd` as the byte that RND draws.
    /// On failure nothing changes.
    pub fn step(&mut self, rnd: u8) -> (r: Result<(), Chip8Error>)
        requires
            old(self).wf(),
        ensures
            final(self).wf(),
            steps_to(old(self)@, rnd, r, final(self)@),
    {
        if self.registers.pc as usize + 1 >= MEMORY_SIZE {
            return Err(Chip8Error::MemoryAccessViolation);
        }
        let op: u16 = self.read_word(self.registers.pc);
        let f: u16 = op / 4096;
        let x: usize = ((op / 256) % 16) as usize;
        let y: usize = ((op / 16) % 16) as usize;
        let n: u16 = op % 16;
        let nnn: u16 = op % 4096;
        let kk: u8 = (op % 256) as u8;
        let vx: u8 = self.registers.v[x];
        let vy: u8 = self.registers.v[y];
        if op == 0x00E0 {
            self.gfx = [0u8; 2048];
            self.registers.inc_pc();
            assert(self@.display =~= Seq::new(DISPLAY_SIZE as nat, |p: int| 0u8));
        } else if op == 0x00EE {
            match self.return_stack.pop() {
                Ok(addr) => {
                    self.registers.pc = addr;
                },
                Err(_) => {
                    return Err(Chip8Error::StackUnderflow);
                },
            }
        } else if f == 1 {
            self.registers.pc = nnn;
        } else if f == 2 {
            let ret: u16 = self.registers.pc + 2;
            match self.return_stack.push(ret) {
                Ok(()) => {
                    self.registers.pc = nnn;
                },
                Err(_) => {
                    return Err(Chip8Error::StackOverflow);
                },
            }
        } else if f == 3 {
            self.skip_next(vx == kk);
        } else if f == 4 {
            self.skip_next(vx != kk);
        } else if f == 5 && n == 0 {
            self.skip_next(vx == vy);
        } else if f == 6 {
            self.registers.v[x] = kk;
            self.registers.inc_pc();
        } else if f == 7 {
            self.registers.v[x] = ((vx as u16 + kk as u16) % 256) as u8;
            self.registers.inc_pc();
        } else if f == 8 && (n <= 7 || n == 0xE) {
            self.exec_alu(x, y, n);
        } else if f == 9 && n == 0 {
            self.skip_next(vx != vy);
        } else if f == 0xA {
            self.registers.i = nnn;
            self.registers.inc_pc();
        } else if f == 0xB {
            self.registers.pc = self.registers.v[0] as u16 + nnn;
        } else if f == 0xC {
            self.registers.v[x] = rnd & kk;
            self.registers.inc_pc();
        } else if f == 0xD {
            if self.registers.i as usize + n as usize > MEMORY_SIZE {
                return Err(Chip8Error::MemoryAccessViolation);
            }
            let erased = self.draw_sprite(vx, vy, n);
            self.registers.v[15] = if erased { 1 } else { 0 };
            self.registers.inc_pc();
        } else if f == 0xE && kk == 0x9E {
            self.skip_next(vx < 16 && self.keys[vx as usize] != 0);
        } else if f == 0xE && kk == 0xA1 {
            self.skip_next(!(vx < 16 && self.keys[vx as usize] != 0));
        } else if f == 0xF {
            return self.exec_f(x, kk);
        } else {
            self.registers.inc_pc();
        }
        Ok(())
    }
    /// Loads a program at `PROGRAM_START`; a program longer than `MAX_ROM_SIZE`
    /// bytes is refused and nothing is written.
    pub fn load_rom(&mut self, rom: &[u8]) -> (r: Result<(), Chip8Error>)
        requires
            old(self).wf(),
        ensures
            final(self).wf(),
            rom@.len() > MAX_ROM_SIZE ==> r == Err::<(), Chip8Error>(Chip8Error::RomTooLarge)
                && final(self)@ == old(self)@,
            rom@.len() <= MAX_ROM_SIZE ==> r is Ok && final(self)@ == (Model {
                memory: written(old(self)@.memory, PROGRAM_START as int, rom@),
                ..old(self)@
            }),
    {
        if rom.len() > MAX_ROM_SIZE {
            return Err(Chip8Error::RomTooLarge);
        }
        self.load_into_memory(rom, PROGRAM_START);
        Ok(())
    }

    /// One tick of the 60 Hz timers: each counts down by one, stopping at zero.
    pub fn update_timers(&mut self)
        requires
            old(self).wf(),
        ensures
            final(self).wf(),
            final(self)@ == (Model {
                delay: ticked(old(self)@.delay),
                sound: ticked(old(self)@.sound),
                ..old(self)@
            }),
    {
        if self.timers.delay_timer > 0 {
            self.timers.delay_timer = self.timers.delay_timer - 1;
        }
        if self.timers.sound_timer > 0 {
            self.timers.sound_timer = self.timers.sound_timer - 1;
        }
    }

    /// Replaces the key snapshot: entry `k` nonzero while key `k` is pressed.
    pub fn set_keys(&mut self, keys: &[u8; 16])
        requires
            old(self).wf(),
        ensures
            final(self).wf(),
            final(self)@ == (Model { keys: keys@, ..old(self)@ }),
    {
        self.keys = *keys;
    }

    /// The pixels, row by row, each 0 or 1.
    pub fn get_display_buffer(&self) -> (r: &[u8; 2048])
        requires
            self.wf(),
        ensures
            r@ == self@.display,
            forall|p: int| 0 <= p < DISPLAY_SIZE ==> #[trigger] r@[p] <= 1,
    {
        &self.gfx
    }

    /// Whether the host should sound its tone: while the sound timer runs.
    pub fn should_play_sound(&self) -> (r: bool)
        ensures
            r == (self@.sound > 0),
    {
        self.timers.sound_timer > 0
    }

    /// The general registers, I and PC.
    pub fn registers(&self) -> (r: &Registers)
        ensures
            r.v@ == self@.v,
            r.i == self@.i,
            r.pc == self@.pc,
    {
        &self.registers
    }

    /// The 4096 bytes of memory.
    pub fn memory(&self) -> (r: &[u8; 4096])
        ensures
            r@ == self@.memory,
    {
        &self.memory
    }

    pub fn delay_timer(&self) -> (r: u8)
        ensures
            r == self@.delay,
    {
        self.timers.delay_timer
    }

    pub fn sound_timer(&self) -> (r: u8)
        ensures
            r == self@.sound,
    {
        self.timers.sound_timer
    }

    /// Executes the instruction at PC, drawing the byte that RND uses from the
    /// thread's random generator. On failure nothing changes.
    pub fn execute_cycle(&mut self) -> (r: Result<(), Chip8Error>)
        requires
            old(self).wf(),
        ensures
            final(self).wf(),
            exists|rnd: u8| steps_to(old(self)@, rnd, r, final(self)@),
    {
        let rnd = random_byte();
        self.step(rnd)
    }
}

/// VF and the new Vx of the flag-setting instructions 8xy4..8xy7 and 8xyE.
fn alu_flag_result(vx: u8, vy: u8, n: u16) -> (r: (u8, u8))
    requires
        4 <= n <= 7 || n == 0xE,
    ensures
        n == 4 ==> r == ((if vx + vy > 255 { 1u8 } else { 0u8 }), ((vx + vy) % 256) as u8),
        n == 5 ==> r == ((if vx > vy { 1u8 } else { 0u8 }), ((vx - vy) % 256) as u8),
        n == 6 ==> r == ((vx % 2) as u8, (vx / 2) as u8),
        n == 7 ==> r == ((if vy > vx { 1u8 } else { 0u8 }), ((vy - vx) % 256) as u8),
        n == 0xE ==> r == ((vx / 128) as u8, ((vx * 2) % 256) as u8),
{
    if n == 4 {
        let sum: u16 = vx as u16 + vy as u16;
        (if sum > 255 { 1 } else { 0 }, (sum % 256) as u8)
    } else if n == 5 {
        (if vx > vy { 1 } else { 0 }, ((vx as u16 + 256 - vy as u16) % 256) as u8)
    } else if n == 6 {
        (vx % 2, vx / 2)
    } else if n == 7 {
        (if vy > vx { 1 } else { 0 }, ((vy as u16 + 256 - vx as u16) % 256) as u8)
    } else {
        (vx / 128, ((vx as u16 * 2) % 256) as u8)
    }
}

/// Relies on rand::random::<u8>: a byte from the thread-local generator,
/// uniform over 0..=255.
#[verifier::external_body]
fn random_byte() -> u8 {
    rand::random::<u8>()
}

} // verus!
