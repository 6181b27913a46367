//! What one instruction does, stated over the machine's model.
use vstd::prelude::*;

use crate::machine::{valid_model, Chip8Error, Model, DISPLAY_SIZE, MEMORY_SIZE, SCREEN_HEIGHT, SCREEN_WIDTH};
use crate::return_stack::STACK_DEPTH;
use vstd::arithmetic::div_mod::{
    lemma_fundamental_div_mod, lemma_fundamental_div_mod_converse, lemma_mod_multiples_vanish,
    lemma_small_mod,
};

verus! {

/// The 16-bit word stored big-endian at `addr`.
pub open spec fn word_at(memory: Seq<u8>, addr: int) -> u16 {
    (memory[addr] as int * 256 + memory[addr + 1] as int) as u16
}

/// The top nibble: the instruction family.
pub open spec fn family(op: u16) -> int {
    op as int / 4096
}

/// The second nibble: a register index.
pub open spec fn nib_x(op: u16) -> int {
    (op as int / 256) % 16
}

/// The third nibble: a register index.
pub open spec fn nib_y(op: u16) -> int {
    (op as int / 16) % 16
}

/// The bottom nibble.
pub open spec fn nib_n(op: u16) -> int {
    op as int % 16
}

/// The low 12 bits: an address.
pub open spec fn addr_nnn(op: u16) -> u16 {
    (op as int % 4096) as u16
}

/// The low 8 bits: an immediate byte.
pub open spec fn byte_kk(op: u16) -> u8 {
    (op as int % 256) as u8
}

/// Bit `c` of a sprite row, counting from the most significant bit.
pub open spec fn sprite_bit(row: u8, c: int) -> u8 {
    ((row as int / pow2_8(7 - c)) % 2) as u8
}

/// 2 to the power `e`, for `0 <= e < 8`.
pub open spec fn pow2_8(e: int) -> int {
    if e <= 0 { 1 } else if e == 1 { 2 } else if e == 2 { 4 } else if e == 3 { 8 }
    else if e == 4 { 16 } else if e == 5 { 32 } else if e == 6 { 64 } else { 128 }
}

/// The sprite bit that lands on the pixel at (`row`, `col`) when `sprite` is drawn
/// with its top-left corner at (`x`, `y`), wrapping at the edges; 0 where none does.
pub open spec fn sprite_pixel(sprite: Seq<u8>, x: int, y: int, row: int, col: int) -> u8 {
    let dr = (row - y) % (SCREEN_HEIGHT as int);
    let dc = (col - x) % (SCREEN_WIDTH as int);
    if dr < sprite.len() && dc < 8 {
        sprite_bit(sprite[dr], dc)
    } else {
        0
    }
}

/// The sprite bit that lands on pixel `p`.
pub open spec fn sprite_at(sprite: Seq<u8>, x: int, y: int, p: int) -> u8 {
    sprite_pixel(sprite, x, y, p / (SCREEN_WIDTH as int), p % (SCREEN_WIDTH as int))
}

/// The display after XOR-ing `sprite` into it at (`x`, `y`).
pub open spec fn drawn(display: Seq<u8>, sprite: Seq<u8>, x: int, y: int) -> Seq<u8> {
    Seq::new(DISPLAY_SIZE as nat, |p: int| display[p] ^ sprite_at(sprite, x, y, p))
}

/// Drawing `sprite` at (`x`, `y`) turns some lit pixel off.
pub open spec fn erases(display: Seq<u8>, sprite: Seq<u8>, x: int, y: int) -> bool {
    exists|p: int| 0 <= p < DISPLAY_SIZE && #[trigger] display[p] == 1 && sprite_at(sprite, x, y, p) == 1
}

/// Drawing `sprite` at (`x`, `y`) turns some dark pixel on.
pub open spec fn lights(display: Seq<u8>, sprite: Seq<u8>, x: int, y: int) -> bool {
    exists|p: int| 0 <= p < DISPLAY_SIZE && #[trigger] display[p] == 0 && sprite_at(sprite, x, y, p) == 1
}

/// Key `k` is pressed in the snapshot `keys`.
pub open spec fn pressed(keys: Seq<u8>, k: int) -> bool {
    0 <= k < 16 && keys[k] != 0
}

/// `k` is the lowest key pressed.
pub open spec fn is_lowest_pressed(keys: Seq<u8>, k: int) -> bool {
    pressed(keys, k) && forall|j: int| 0 <= j < k ==> !#[trigger] pressed(keys, j)
}

/// Some key is pressed.
pub open spec fn any_pressed(keys: Seq<u8>) -> bool {
    exists|k: int| pressed(keys, k)
}

/// The lowest key pressed, where one is.
pub open spec fn lowest_pressed(keys: Seq<u8>) -> int {
    choose|k: int| is_lowest_pressed(keys, k)
}

/// The registers after an arithmetic or logic instruction 8xyn. Where an
/// instruction sets a flag, VF is written first and Vx second.
pub open spec fn alu(v: Seq<u8>, x: int, y: int, n: int) -> Seq<u8> {
    let vx = v[x] as int;
    let vy = v[y] as int;
    if n == 0 {
        v.update(x, vy as u8)
    } else if n == 1 {
        v.update(x, v[x] | v[y])
    } else if n == 2 {
        v.update(x, v[x] & v[y])
    } else if n == 3 {
        v.update(x, v[x] ^ v[y])
    } else if n == 4 {
        v.update(15, if vx + vy > 255 { 1u8 } else { 0u8 }).update(x, ((vx + vy) % 256) as u8)
    } else if n == 5 {
        v.update(15, if vx > vy { 1u8 } else { 0u8 }).update(x, ((vx - vy) % 256) as u8)
    } else if n == 6 {
        v.update(15, (vx % 2) as u8).update(x, (vx / 2) as u8)
    } else if n == 7 {
        v.update(15, if vy > vx { 1u8 } else { 0u8 }).update(x, ((vy - vx) % 256) as u8)
    } else {
        v.update(15, (vx / 128) as u8).update(x, ((vx * 2) % 256) as u8)
    }
}

/// The n of the 8xyn instructions.
pub open spec fn is_alu_op(n: int) -> bool {
    0 <= n <= 7 || n == 0xE
}

/// PC moved past the current instruction, and past the next one too where `skip`.
pub open spec fn skip_if(s: Model, skip: bool) -> Model {
    Model { pc: (s.pc + if skip { 4int } else { 2int }) as u16, ..s }
}

/// Register `x` set to `val`, PC moved to the next instruction.
pub open spec fn set_vx(s: Model, x: int, val: u8) -> Model {
    Model { v: s.v.update(x, val), pc: (s.pc + 2) as u16, ..s }
}

/// The three decimal digits of `b`: hundreds, tens, ones.
pub open spec fn bcd(b: u8) -> Seq<u8> {
    seq![(b / 100) as u8, ((b / 10) % 10) as u8, (b % 10) as u8]
}

/// `s` after an instruction of family F with low byte `kk`.
pub open spec fn next_f(s: Model, x: int, kk: u8) -> Result<Model, Chip8Error> {
    let vx = s.v[x];
    let pc2 = (s.pc + 2) as u16;
    if kk == 0x07 {
        Ok(set_vx(s, x, s.delay))
    } else if kk == 0x0A {
        if any_pressed(s.keys) {
            Ok(set_vx(s, x, lowest_pressed(s.keys) as u8))
        } else {
            Ok(s)
        }
    } else if kk == 0x15 {
        Ok(Model { delay: vx, pc: pc2, ..s })
    } else if kk == 0x18 {
        Ok(Model { sound: vx, pc: pc2, ..s })
    } else if kk == 0x1E {
        Ok(Model { i: ((s.i + vx) % 0x10000) as u16, pc: pc2, ..s })
    } else if kk == 0x29 {
        Ok(Model { i: (vx * 5) as u16, pc: pc2, ..s })
    } else if kk == 0x33 {
        if s.i + 3 > MEMORY_SIZE {
            Err(Chip8Error::MemoryAccessViolation)
        } else {
            Ok(Model { memory: crate::machine::written(s.memory, s.i as int, bcd(vx)), pc: pc2, ..s })
        }
    } else if kk == 0x55 {
        if s.i + x + 1 > MEMORY_SIZE {
            Err(Chip8Error::MemoryAccessViolation)
        } else {
            Ok(
                Model {
                    memory: crate::machine::written(s.memory, s.i as int, s.v.subrange(0, x + 1)),
                    pc: pc2,
                    ..s
                },
            )
        }
    } else if kk == 0x65 {
        if s.i + x + 1 > MEMORY_SIZE {
            Err(Chip8Error::MemoryAccessViolation)
        } else {
            Ok(
                Model {
                    v: crate::machine::written(s.v, 0, s.memory.subrange(s.i as int, s.i + x + 1)),
                    pc: pc2,
                    ..s
                },
            )
        }
    } else {
        Ok(Model { pc: pc2, ..s })
    }
}

/// `s` after executing the instruction at PC, where RND draws `rnd`; or why it
/// cannot be executed.
pub open spec fn next(s: Model, rnd: u8) -> Result<Model, Chip8Error> {
    if s.pc + 1 >= MEMORY_SIZE {
        Err(Chip8Error::MemoryAccessViolation)
    } else {
        let op = word_at(s.memory, s.pc as int);
        let f = family(op);
        let x = nib_x(op);
        let y = nib_y(op);
        let n = nib_n(op);
        let nnn = addr_nnn(op);
        let kk = byte_kk(op);
        let vx = s.v[x];
        let vy = s.v[y];
        let pc2 = (s.pc + 2) as u16;
        if op == 0x00E0 {
            Ok(Model { display: Seq::new(DISPLAY_SIZE as nat, |p: int| 0u8), pc: pc2, ..s })
        } else if op == 0x00EE {
            if s.stack.len() == 0 {
                Err(Chip8Error::StackUnderflow)
            } else {
                Ok(Model { pc: s.stack.last(), stack: s.stack.drop_last(), ..s })
            }
        } else if f == 1 {
            Ok(Model { pc: nnn, ..s })
        } else if f == 2 {
            if s.stack.len() >= STACK_DEPTH {
                Err(Chip8Error::StackOverflow)
            } else {
                Ok(Model { pc: nnn, stack: s.stack.push(pc2), ..s })
            }
        } else if f == 3 {
            Ok(skip_if(s, vx == kk))
        } else if f == 4 {
            Ok(skip_if(s, vx != kk))
        } else if f == 5 && n == 0 {
            Ok(skip_if(s, vx == vy))
        } else if f == 6 {
            Ok(set_vx(s, x, kk))
        } else if f == 7 {
            Ok(set_vx(s, x, ((vx + kk) % 256) as u8))
        } else if f == 8 && is_alu_op(n) {
            Ok(Model { v: alu(s.v, x, y, n), pc: pc2, ..s })
        } else if f == 9 && n == 0 {
            Ok(skip_if(s, vx != vy))
        } else if f == 0xA {
            Ok(Model { i: nnn, pc: pc2, ..s })
        } else if f == 0xB {
            Ok(Model { pc: (s.v[0] + nnn) as u16, ..s })
        } else if f == 0xC {
            Ok(set_vx(s, x, rnd & kk))
        } else if f == 0xD {
            if s.i + n > MEMORY_SIZE {
                Err(Chip8Error::MemoryAccessViolation)
            } else {
                let sprite = s.memory.subrange(s.i as int, s.i + n);
                Ok(
                    Model {
                        display: drawn(s.display, sprite, vx as int, vy as int),
                        v: s.v.update(
                            15,
                            if erases(s.display, sprite, vx as int, vy as int) { 1u8 } else { 0u8 },
                        ),
                        pc: pc2,
                        ..s
                    },
                )
            }
        } else if f == 0xE && kk == 0x9E {
            Ok(skip_if(s, pressed(s.keys, vx as int)))
        } else if f == 0xE && kk == 0xA1 {
            Ok(skip_if(s, !pressed(s.keys, vx as int)))
        } else if f == 0xF {
            next_f(s, x, kk)
        } else {
            Ok(Model { pc: pc2, ..s })
        }
    }
}

/// Stepping `off` cells from `base` on a ring of `m` cells and measuring back
/// from `base` gives `off`; and each cell is reached from `base` by its distance.
pub proof fn lemma_ring_offset(base: int, cell: int, off: int, m: int)
    requires
        0 <= base,
        0 <= off < m,
        0 <= cell < m,
    ensures
        ((base + off) % m - base) % m == off,
        (cell == (base + off) % m) <==> ((cell - base) % m == off),
{
    lemma_fundamental_div_mod(base + off, m);
    let q = (base + off) / m;
    assert((base + off) % m - base == m * (-q) + off) by (nonlinear_arith)
        requires
            base + off == m * q + (base + off) % m,
    ;
    lemma_mod_multiples_vanish(-q, off, m);
    lemma_small_mod(off as nat, m as nat);
    lemma_fundamental_div_mod(cell - base, m);
    let q2 = (cell - base) / m;
    let d = (cell - base) % m;
    assert(base + d == m * (-q2) + cell) by (nonlinear_arith)
        requires
            cell - base == m * q2 + d,
    ;
    lemma_mod_multiples_vanish(-q2, cell, m);
    lemma_small_mod(cell as nat, m as nat);
}

/// The pixel at (`row`, `col`) is number `row * SCREEN_WIDTH + col`, and back.
pub proof fn lemma_pixel_index(p: int, row: int, col: int)
    requires
        0 <= row < SCREEN_HEIGHT,
        0 <= col < SCREEN_WIDTH,
        0 <= p < DISPLAY_SIZE,
    ensures
        0 <= row * 64 + col < DISPLAY_SIZE,
        (row * 64 + col) / 64 == row,
        (row * 64 + col) % 64 == col,
        0 <= p / 64 < SCREEN_HEIGHT,
        0 <= p % 64 < SCREEN_WIDTH,
        (p == row * 64 + col) <==> (p / 64 == row && p % 64 == col),
{
    lemma_fundamental_div_mod_converse(row * 64 + col, 64, row, col);
    lemma_fundamental_div_mod(p, 64);
    assert(0 <= p / 64 < 32 && 0 <= p % 64 < 64) by {
        vstd::arithmetic::div_mod::lemma_mod_bound(p, 64);
        vstd::arithmetic::div_mod::lemma_div_pos_is_pos(p, 64);
        assert(p / 64 < 32) by (nonlinear_arith)
            requires
                p == 64 * (p / 64) + p % 64,
                p % 64 >= 0,
                p < 2048,
        ;
    }
}

/// Pixel `p` is the one that sprite row `r`, column `c` lands on when the sprite
/// is drawn at (`x`, `y`), exactly when its distances from (`x`, `y`) are `r` and `c`.
pub proof fn lemma_sprite_target(p: int, x: int, y: int, r: int, c: int)
    requires
        0 <= p < DISPLAY_SIZE,
        0 <= x,
        0 <= y,
        0 <= r < SCREEN_HEIGHT,
        0 <= c < SCREEN_WIDTH,
    ensures
        0 <= ((y + r) % 32) * 64 + (x + c) % 64 < DISPLAY_SIZE,
        (p == ((y + r) % 32) * 64 + (x + c) % 64) <==> ((p / 64 - y) % 32 == r && (p % 64 - x)
            % 64 == c),
        ((((y + r) % 32) * 64 + (x + c) % 64) / 64 - y) % 32 == r,
        ((((y + r) % 32) * 64 + (x + c) % 64) % 64 - x) % 64 == c,
{
    let row = (y + r) % 32;
    let col = (x + c) % 64;
    vstd::arithmetic::div_mod::lemma_mod_bound(y + r, 32);
    vstd::arithmetic::div_mod::lemma_mod_bound(x + c, 64);
    lemma_pixel_index(p, row, col);
    lemma_ring_offset(y, p / 64, r, 32);
    lemma_ring_offset(x, p % 64, c, 64);
}

/// The instruction at PC of `s`.
pub open spec fn current_op(s: Model) -> u16 {
    word_at(s.memory, s.pc as int)
}

/// ADD Vx, Vy (8xy4), for x other than F: Vx becomes (a + b) mod 256 and VF is 1
/// exactly when a + b > 255, where a and b are Vx and Vy before.
pub proof fn lemma_add_carry(s: Model, rnd: u8)
    requires
        valid_model(s),
        s.pc + 1 < MEMORY_SIZE,
        family(current_op(s)) == 8,
        nib_n(current_op(s)) == 4,
        nib_x(current_op(s)) != 15,
    ensures
        next(s, rnd) is Ok,
        ({
            let (a, b) = (s.v[nib_x(current_op(s))] as int, s.v[nib_y(current_op(s))] as int);
            let t = next(s, rnd)->Ok_0;
            &&& t.v[nib_x(current_op(s))] == (a + b) % 256
            &&& (t.v[15] == 1) == (a + b > 255)
            &&& t.v[15] <= 1
        }),
{
}

/// SUB Vx, Vy (8xy5), for x other than F: VF is 1 exactly when a > b, and Vx
/// becomes (a - b) mod 256, where a and b are Vx and Vy before.
pub proof fn lemma_sub_borrow(s: Model, rnd: u8)
    requires
        valid_model(s),
        s.pc + 1 < MEMORY_SIZE,
        family(current_op(s)) == 8,
        nib_n(current_op(s)) == 5,
        nib_x(current_op(s)) != 15,
    ensures
        next(s, rnd) is Ok,
        ({
            let (a, b) = (s.v[nib_x(current_op(s))] as int, s.v[nib_y(current_op(s))] as int);
            let t = next(s, rnd)->Ok_0;
            &&& t.v[nib_x(current_op(s))] == (a - b) % 256
            &&& (t.v[15] == 1) == (a > b)
            &&& t.v[15] <= 1
        }),
{
}

/// SHR Vx (8xy6) and SHL Vx (8xyE), for x other than F: VF receives the bit
/// shifted out, bit 0 for SHR and bit 7 for SHL, and Vx the shifted value.
pub proof fn lemma_shift_flag(s: Model, rnd: u8)
    requires
        valid_model(s),
        s.pc + 1 < MEMORY_SIZE,
        family(current_op(s)) == 8,
        nib_n(current_op(s)) == 6 || nib_n(current_op(s)) == 0xE,
        nib_x(current_op(s)) != 15,
    ensures
        next(s, rnd) is Ok,
        ({
            let a = s.v[nib_x(current_op(s))];
            let t = next(s, rnd)->Ok_0;
            nib_n(current_op(s)) == 6 ==> t.v[15] == a & 1 && t.v[nib_x(current_op(s))] == a >> 1u8
        }),
        ({
            let a = s.v[nib_x(current_op(s))];
            let t = next(s, rnd)->Ok_0;
            nib_n(current_op(s)) == 0xE ==> t.v[15] == (a >> 7u8) & 1 && t.v[nib_x(current_op(s))]
                == ((a as u16) << 1u16) as u8
        }),
{
    let a = s.v[nib_x(current_op(s))];
    assert(a % 2 == a & 1 && a / 2 == a >> 1u8) by (bit_vector);
    assert(a / 128 == (a >> 7u8) & 1 && (a * 2) % 256 == ((a as u16) << 1u16) as u8) by (bit_vector);
}

/// Drawing a sprite twice at one place gives back the display it started from,
/// and the second drawing erases a pixel exactly when the first lit one.
pub proof fn lemma_draw_twice(display: Seq<u8>, sprite: Seq<u8>, x: int, y: int)
    requires
        display.len() == DISPLAY_SIZE,
        forall|p: int| 0 <= p < DISPLAY_SIZE ==> #[trigger] display[p] <= 1,
    ensures
        drawn(drawn(display, sprite, x, y), sprite, x, y) == display,
        erases(drawn(display, sprite, x, y), sprite, x, y) == lights(display, sprite, x, y),
{
    let once = drawn(display, sprite, x, y);
    assert forall|p: int| 0 <= p < DISPLAY_SIZE implies #[trigger] drawn(once, sprite, x, y)[p]
        == display[p] && (once[p] == 1 && sprite_at(sprite, x, y, p) == 1 <==> display[p] == 0
        && sprite_at(sprite, x, y, p) == 1) by {
        let a = display[p];
        let b = sprite_at(sprite, x, y, p);
        assert(b <= 1);
        assert(a <= 1 && b <= 1 ==> (a ^ b) ^ b == a && ((a ^ b == 1 && b == 1) <==> (a == 0 && b == 1)))
            by (bit_vector);
    }
    assert(drawn(once, sprite, x, y) =~= display);
    if erases(once, sprite, x, y) {
        let w = choose|p: int| 0 <= p < DISPLAY_SIZE && #[trigger] once[p] == 1 && sprite_at(sprite, x, y, p) == 1;
        assert(drawn(once, sprite, x, y)[w] == display[w]);
    }
    if lights(display, sprite, x, y) {
        let w = choose|p: int| 0 <= p < DISPLAY_SIZE && #[trigger] display[p] == 0 && sprite_at(sprite, x, y, p) == 1;
        assert(drawn(once, sprite, x, y)[w] == display[w]);
    }
}

/// Executing a DRW Vx, Vy, n (Dxyn, x and y other than F) and then executing it
/// again from the same address restores the display exactly, and the second VF is
/// 1 exactly when the first drawing lit some pixel.
pub proof fn lemma_draw_instruction_twice(s: Model, rnd: u8, rnd2: u8)
    requires
        valid_model(s),
        s.pc + 1 < MEMORY_SIZE,
        family(current_op(s)) == 0xD,
        nib_x(current_op(s)) != 15,
        nib_y(current_op(s)) != 15,
        s.i + nib_n(current_op(s)) <= MEMORY_SIZE,
    ensures
        next(s, rnd) is Ok,
        next((Model { pc: s.pc, ..next(s, rnd)->Ok_0 }), rnd2) is Ok,
        ({
            let op = current_op(s);
            let again = next((Model { pc: s.pc, ..next(s, rnd)->Ok_0 }), rnd2)->Ok_0;
            let sprite = s.memory.subrange(s.i as int, s.i + nib_n(op));
            &&& again.display == s.display
            &&& (again.v[15] == 1) == lights(
                s.display,
                sprite,
                s.v[nib_x(op)] as int,
                s.v[nib_y(op)] as int,
            )
        }),
{
    let op = current_op(s);
    let sprite = s.memory.subrange(s.i as int, s.i + nib_n(op));
    lemma_draw_twice(s.display, sprite, s.v[nib_x(op)] as int, s.v[nib_y(op)] as int);
}

/// A CALL (2nnn) with room on the stack, followed by a RET (00EE) at the called
/// address, comes back to the instruction after the CALL with the stack as before.
pub proof fn lemma_call_then_return(s: Model, rnd: u8, rnd2: u8)
    requires
        valid_model(s),
        s.pc + 1 < MEMORY_SIZE,
        family(current_op(s)) == 2,
        s.stack.len() < STACK_DEPTH,
        addr_nnn(current_op(s)) + 1 < MEMORY_SIZE,
        word_at(s.memory, addr_nnn(current_op(s)) as int) == 0x00EE,
    ensures
        next(s, rnd) is Ok,
        next(next(s, rnd)->Ok_0, rnd2) is Ok,
        next(next(s, rnd)->Ok_0, rnd2)->Ok_0 == (Model { pc: (s.pc + 2) as u16, ..s }),
{
    let t = next(s, rnd)->Ok_0;
    assert(t.stack.drop_last() =~= s.stack);
}

/// `r` and `t` are what executing one instruction of `s` gives: on success the
/// state `next` names, on failure its error with the state untouched.
pub open spec fn steps_to(s: Model, rnd: u8, r: Result<(), Chip8Error>, t: Model) -> bool {
    match next(s, rnd) {
        Ok(m) => r is Ok && t == m,
        Err(e) => r == Err::<(), Chip8Error>(e) && t == s,
    }
}

} // verus!
