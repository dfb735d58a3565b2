use vstd::prelude::*;

use vstd::arithmetic::div_mod::{
    lemma_fundamental_div_mod, lemma_mod_multiples_vanish, lemma_small_mod,
};

use crate::program_counter::{pc_dest, ProgramCounter};

verus! {

/// Offsetting `base` by `d` and wrapping, then subtracting the base and
/// wrapping again, recovers the offset `d`.
pub proof fn lemma_wrap_inverse(base: int, d: int, m: int)
    requires
        0 < m,
        0 <= base,
        0 <= d < m,
    ensures
        (((base + d) % m) - base) % m == d,
{
    let s = (base + d) % m;
    lemma_fundamental_div_mod(base + d, m);
    let q = (base + d) / m;
    assert(s - base == m * (-q) + d) by (nonlinear_arith)
        requires
            base + d == m * q + s,
    ;
    lemma_mod_multiples_vanish(-q, d, m);
    lemma_small_mod(d as nat, m as nat);
}

/// A cell `c` below the modulus is recovered by adding its wrapped offset
/// from `base` back onto the base and wrapping.
pub proof fn lemma_wrap_recover(base: int, c: int, m: int)
    requires
        0 < m,
        0 <= base,
        0 <= c < m,
    ensures
        (base + ((c - base) % m)) % m == c,
{
    let t = (c - base) % m;
    lemma_fundamental_div_mod(c - base, m);
    let q = (c - base) / m;
    assert(base + t == m * (-q) + c) by (nonlinear_arith)
        requires
            c - base == m * q + t,
    ;
    lemma_mod_multiples_vanish(-q, c, m);
    lemma_small_mod(c as nat, m as nat);
}

/// The two ways a step can fail: an opcode that the machine cannot
/// dispatch (fatal: continuing past it would execute undefined behavior),
/// and a call stack driven past its fixed capacity or popped while empty
/// (a defined failure rather than silent corruption).
#[derive(Clone, Copy, PartialEq, Eq, Structural, Debug)]
pub enum VmError {
    Unrecognized(u16),
    StackOverflow,
    StackUnderflow,
}

/// The mathematical value of a whole machine state.
///
/// The display is a flat row-major grid: the cell at column `px`, row `py`
/// is `gfx[py * 64 + px]`, `true` when lit.
#[verifier::ext_equal]
pub ghost struct EngineView {
    pub memory: Seq<u8>,
    pub v: Seq<u8>,
    pub i: u16,
    pub pc: u16,
    pub gfx: Seq<bool>,
    pub delay_timer: u8,
    pub sound_timer: u8,
    pub stack: Seq<u16>,
    pub sp: u8,
    pub key: Seq<bool>,
    pub pressed_key: u8,
    pub pending_register: u8,
    pub waiting_for_input: bool,
    pub waiting_for_draw: bool,
    pub draw_flag: bool,
}

impl EngineView {
    /// Well-formedness: every container has its fixed capacity, the stack
    /// pointer never exceeds that capacity, the pending wait-for-key target
    /// names one of the sixteen registers, and the counter stays inside the
    /// 4096-byte memory. The index register is a free 16-bit value — the
    /// add-to-index opcode keeps the raw sum — and every memory access
    /// through it wraps at the point of use instead.
    pub open spec fn wf(self) -> bool {
        &&& self.memory.len() == 4096
        &&& self.v.len() == 16
        &&& self.gfx.len() == 2048
        &&& self.stack.len() == 16
        &&& self.key.len() == 16
        &&& self.sp <= 16
        &&& self.pending_register < 16
        &&& self.pc < 4096
    }
}

/// The machine as it comes up: all-zero memory, registers, timers and stack,
/// an unlit display, no key down, the counter at the program base 0x200,
/// and the pending-key value at its conventional placeholder.
pub open spec fn initial_view(draw: bool) -> EngineView {
    EngineView {
        memory: Seq::new(4096, |j: int| 0u8),
        v: Seq::new(16, |j: int| 0u8),
        i: 0,
        pc: 0x200,
        gfx: Seq::new(2048, |j: int| false),
        delay_timer: 0,
        sound_timer: 0,
        stack: Seq::new(16, |j: int| 0u16),
        sp: 0,
        key: Seq::new(16, |j: int| false),
        pressed_key: 2,
        pending_register: 0,
        waiting_for_input: false,
        waiting_for_draw: false,
        draw_flag: draw,
    }
}

/// `mem` with the range starting at `at` overwritten by `data`.
pub open spec fn load_at(mem: Seq<u8>, data: Seq<u8>, at: int) -> Seq<u8> {
    Seq::new(mem.len(), |j: int| {
        if at <= j < at + data.len() {
            data[j - at]
        } else {
            mem[j]
        }
    })
}

// ---------------------------------------------------------------------------
// Instruction fetch and field decoding
// ---------------------------------------------------------------------------

/// The 2-byte big-endian instruction word at the current counter. The low
/// byte wraps around the end of memory, so a fetch is defined in every
/// well-formed state.
pub open spec fn fetch(m: EngineView) -> u16 {
    ((m.memory[m.pc as int] as u16) << 8) | (m.memory[(m.pc as int + 1) % 4096] as u16)
}

/// High nibble, the primary dispatch key.
pub open spec fn op_high(op: u16) -> u16 {
    op >> 12
}

/// The 12-bit address operand.
pub open spec fn op_nnn(op: u16) -> u16 {
    op & 0xFFF
}

/// The 8-bit immediate operand.
pub open spec fn op_kk(op: u16) -> u8 {
    (op & 0xFF) as u8
}

/// The 4-bit count operand.
pub open spec fn op_n(op: u16) -> u8 {
    (op & 0xF) as u8
}

/// The first 4-bit register-index operand.
pub open spec fn op_x(op: u16) -> usize {
    ((op >> 8) & 0xF) as usize
}

/// The second 4-bit register-index operand.
pub open spec fn op_y(op: u16) -> usize {
    ((op >> 4) & 0xF) as usize
}

/// Every decoded field lies in its range: register indices and the count
/// below 16, the address below 4096, the immediate below 256.
pub proof fn lemma_decode_bounds(op: u16)
    ensures
        op >> 12 < 16,
        op & 0xFFF < 4096,
        op & 0xFF < 256,
        op & 0xF < 16,
        (op >> 8) & 0xF < 16,
        (op >> 4) & 0xF < 16,
{
    assert(op >> 12 < 16 && op & 0xFFF < 4096 && op & 0xFF < 256 && op & 0xF < 16 && (op >> 8)
        & 0xF < 16 && (op >> 4) & 0xF < 16) by (bit_vector);
}

/// The low nibble of a byte is below 16.
pub proof fn lemma_low_nibble(b: u8)
    ensures
        b & 0xF < 16,
{
    assert(b & 0xF < 16) by (bit_vector);
}

/// The value of a byte read as a two's-complement signed quantity.
pub open spec fn signed(b: u8) -> int {
    if b < 128 {
        b as int
    } else {
        b - 256
    }
}

// ---------------------------------------------------------------------------
// Sprite drawing
// ---------------------------------------------------------------------------

/// Bit `dx` (most significant first) of sprite row `dy`, read from memory
/// starting at `i`, wrapping around the end of memory.
pub open spec fn sprite_bit(mem: Seq<u8>, i: u16, dy: int, dx: int) -> bool {
    (mem[(i as int + dy) % 4096] >> ((7 - dx) as u8)) & 1 == 1
}

/// The flat display index that sprite cell (`dy`, `dx`) lands on when the
/// sprite is anchored at column `vx`, row `vy`; both coordinates wrap.
pub open spec fn cell_index(vx: u8, vy: u8, dy: int, dx: int) -> int {
    ((vy as int + dy) % 32) * 64 + ((vx as int + dx) % 64)
}

/// One display cell after the sprite has been composited: each covered cell
/// is XORed with its sprite bit, every other cell keeps its value. `p` is a
/// flat index; the sprite row and column that cover it, if any, are
/// recovered by inverting the wrapped anchor offsets.
pub open spec fn draw_cell(
    gfx: Seq<bool>,
    mem: Seq<u8>,
    i: u16,
    vx: u8,
    vy: u8,
    n: int,
    p: int,
) -> bool {
    let dy = (p / 64 - vy as int) % 32;
    let dx = (p % 64 - vx as int) % 64;
    if dy < n && dx < 8 {
        gfx[p] != sprite_bit(mem, i, dy, dx)
    } else {
        gfx[p]
    }
}

/// The whole display after an `n`-row sprite is drawn at (`vx`, `vy`).
pub open spec fn draw_gfx(gfx: Seq<bool>, mem: Seq<u8>, i: u16, vx: u8, vy: u8, n: int) -> Seq<
    bool,
> {
    Seq::new(2048, |p: int| draw_cell(gfx, mem, i, vx, vy, n, p))
}

/// Sprite cell (`dy`, `dx`) turns a lit display cell off.
pub open spec fn hits(gfx: Seq<bool>, mem: Seq<u8>, i: u16, vx: u8, vy: u8, dy: int, dx: int) -> bool {
    gfx[cell_index(vx, vy, dy, dx)] && sprite_bit(mem, i, dy, dx)
}

/// The draw reports a collision: some sprite bit lands on a lit cell.
pub open spec fn draw_collision(
    gfx: Seq<bool>,
    mem: Seq<u8>,
    i: u16,
    vx: u8,
    vy: u8,
    n: int,
) -> bool {
    exists|dy: int, dx: int|
        0 <= dy < n && 0 <= dx < 8 && #[trigger] hits(gfx, mem, i, vx, vy, dy, dx)
}

/// Sprite cell (`dy`, `dx`) turns an unlit display cell on.
pub open spec fn lights_new(
    gfx: Seq<bool>,
    mem: Seq<u8>,
    i: u16,
    vx: u8,
    vy: u8,
    dy: int,
    dx: int,
) -> bool {
    !gfx[cell_index(vx, vy, dy, dx)] && sprite_bit(mem, i, dy, dx)
}

/// The draw lights at least one previously unlit cell.
pub open spec fn draw_lights_any_new(
    gfx: Seq<bool>,
    mem: Seq<u8>,
    i: u16,
    vx: u8,
    vy: u8,
    n: int,
) -> bool {
    exists|dy: int, dx: int|
        0 <= dy < n && 0 <= dx < 8 && #[trigger] lights_new(gfx, mem, i, vx, vy, dy, dx)
}

// ---------------------------------------------------------------------------
// Register dump and load
// ---------------------------------------------------------------------------

/// Memory after registers 0 through `x` are copied to addresses `i`,
/// `i + 1`, ... (wrapping around the end of memory).
pub open spec fn dump_regs(mem: Seq<u8>, v: Seq<u8>, i: u16, x: int) -> Seq<u8> {
    Seq::new(mem.len(), |a: int| {
        let j = (a - i as int) % 4096;
        if j <= x {
            v[j]
        } else {
            mem[a]
        }
    })
}

/// Registers after 0 through `x` are refilled from addresses `i`, `i + 1`,
/// ... (wrapping around the end of memory); the rest keep their values.
pub open spec fn load_regs(v: Seq<u8>, mem: Seq<u8>, i: u16, x: int) -> Seq<u8> {
    Seq::new(v.len(), |r: int| {
        if r <= x {
            mem[(i as int + r) % 4096]
        } else {
            v[r]
        }
    })
}

// ---------------------------------------------------------------------------
// Per-opcode state transformers (the counter outcome is handled separately)
// ---------------------------------------------------------------------------

/// Clear screen: every cell unlit; the display changed, so draw is pending.
pub open spec fn spec_cls(pre: EngineView) -> EngineView {
    EngineView { gfx: Seq::new(2048, |p: int| false), waiting_for_draw: true, ..pre }
}

/// Add reg+reg with carry: destination takes the low 8 bits of the sum, and
/// the flag register then records whether the sum exceeded 255.
pub open spec fn spec_add_carry(v: Seq<u8>, x: int, y: int) -> Seq<u8> {
    let sum = v[x] + v[y];
    v.update(x, ((sum % 256) as u8)).update(15, if sum > 255 { 1u8 } else { 0u8 })
}

/// Subtract Vy from Vx: the flag register first records "no borrow"
/// (strictly greater, unsigned), then the destination takes the wrapped
/// difference of the registers as they then stand.
pub open spec fn spec_sub(v: Seq<u8>, x: int, y: int) -> Seq<u8> {
    let flag: u8 = if v[x] > v[y] { 1 } else { 0 };
    let v1 = v.update(15, flag);
    v1.update(x, (((v1[x] - v1[y]) % 256) as u8))
}

/// Reverse subtract, Vy minus Vx: the flag records whether the signed
/// difference is negative — deliberately a different comparison direction
/// than the non-reverse form, a documented quirk of the instruction set —
/// and the destination takes the low 8 bits of the difference.
pub open spec fn spec_sub_rev(v: Seq<u8>, x: int, y: int) -> Seq<u8> {
    let flag: u8 = if signed(v[y]) < signed(v[x]) { 1 } else { 0 };
    let diff = ((v[y] - v[x]) % 256) as u8;
    v.update(15, flag).update(x, diff)
}

/// Shift right: the flag register first takes the least-significant bit,
/// then the destination (as it then stands) is shifted right once.
pub open spec fn spec_shr(v: Seq<u8>, x: int) -> Seq<u8> {
    let v1 = v.update(15, (v[x] & 1));
    v1.update(x, v1[x] >> 1)
}

/// Shift left: the flag register first takes the most-significant bit, then
/// the destination (as it then stands) is shifted left once, truncated.
pub open spec fn spec_shl(v: Seq<u8>, x: int) -> Seq<u8> {
    let v1 = v.update(15, ((v[x] & 0x80) >> 7));
    v1.update(x, v1[x] << 1)
}

/// Draw sprite: the flag register is cleared first, the anchor registers are
/// read as they then stand, the sprite is XOR-composited onto the display,
/// and the flag is set exactly when a lit cell went dark. Draw is pending.
pub open spec fn spec_draw(pre: EngineView, x: int, y: int, n: int) -> EngineView {
    let v0 = pre.v.update(15, 0u8);
    let vx = v0[x];
    let vy = v0[y];
    let coll = draw_collision(pre.gfx, pre.memory, pre.i, vx, vy, n);
    EngineView {
        v: if coll {
            v0.update(15, 1u8)
        } else {
            v0
        },
        gfx: draw_gfx(pre.gfx, pre.memory, pre.i, vx, vy, n),
        waiting_for_draw: true,
        ..pre
    }
}

/// Store BCD: the three decimal digits of Vx at I, I+1, I+2 (wrapping).
pub open spec fn spec_bcd(pre: EngineView, x: int) -> EngineView {
    let b = pre.v[x];
    let m1 = pre.memory.update((pre.i as int) % 4096, b / 100);
    let m2 = m1.update((pre.i as int + 1) % 4096, (b % 100) / 10);
    let m3 = m2.update((pre.i as int + 2) % 4096, b % 10);
    EngineView { memory: m3, ..pre }
}

/// Register dump: V0..Vx go to memory at I (each address wrapping at use),
/// and I then advances past the written range, keeping the raw sum within
/// its 16 bits.
pub open spec fn spec_dump(pre: EngineView, x: int) -> EngineView {
    EngineView {
        memory: dump_regs(pre.memory, pre.v, pre.i, x),
        i: (((pre.i as int + x + 1) % 0x10000) as u16),
        ..pre
    }
}

/// Register load: V0..Vx are refilled from memory at I; I is left unchanged.
pub open spec fn spec_load(pre: EngineView, x: int) -> EngineView {
    EngineView { v: load_regs(pre.v, pre.memory, pre.i, x), ..pre }
}

// ---------------------------------------------------------------------------
// The step function
// ---------------------------------------------------------------------------

/// Decode and execute the instruction at the current counter against state
/// `pre`, without yet moving the counter: the state the opcode leaves behind
/// together with the counter outcome it decided, or the error that aborts
/// the step (in which case the machine is left untouched). `rnd` is the byte
/// the random source hands the random-AND opcode; no other opcode reads it.
pub open spec fn step_arm(pre: EngineView, rnd: u8) -> Result<
    (EngineView, ProgramCounter),
    VmError,
> {
    let op = fetch(pre);
    let nnn = op_nnn(op);
    let kk = op_kk(op);
    let n = op_n(op);
    let x = op_x(op) as int;
    let y = op_y(op) as int;
    if op_high(op) == 0x0 {
        if kk == 0xE0 {
            Ok((spec_cls(pre), ProgramCounter::Next))
        } else if kk == 0xEE {
            if pre.sp == 0 {
                Err(VmError::StackUnderflow)
            } else {
                Ok(
                    (
                        EngineView { sp: ((pre.sp - 1) as u8), ..pre },
                        ProgramCounter::Jump(pre.stack[pre.sp - 1]),
                    ),
                )
            }
        } else {
            Err(VmError::Unrecognized(op))
        }
    } else if op_high(op) == 0x1 {
        Ok((pre, ProgramCounter::Jump(nnn)))
    } else if op_high(op) == 0x2 {
        if pre.sp >= 16 {
            Err(VmError::StackOverflow)
        } else {
            Ok(
                (
                    EngineView {
                        stack: pre.stack.update(pre.sp as int, (((pre.pc + 2) % 4096) as u16)),
                        sp: ((pre.sp + 1) as u8),
                        ..pre
                    },
                    ProgramCounter::Jump(nnn),
                ),
            )
        }
    } else if op_high(op) == 0x3 {
        Ok((pre, spec_skip_when(pre.v[x] == kk)))
    } else if op_high(op) == 0x4 {
        Ok((pre, spec_skip_when(pre.v[x] != kk)))
    } else if op_high(op) == 0x5 {
        Ok((pre, spec_skip_when(pre.v[x] == pre.v[y])))
    } else if op_high(op) == 0x6 {
        Ok((EngineView { v: pre.v.update(x, kk), ..pre }, ProgramCounter::Next))
    } else if op_high(op) == 0x7 {
        Ok(
            (
                EngineView { v: pre.v.update(x, (((pre.v[x] + kk) % 256) as u8)), ..pre },
                ProgramCounter::Next,
            ),
        )
    } else if op_high(op) == 0x8 {
        if n == 0x0 {
            Ok((EngineView { v: pre.v.update(x, pre.v[y]), ..pre }, ProgramCounter::Next))
        } else if n == 0x1 {
            Ok(
                (
                    EngineView { v: pre.v.update(x, pre.v[x] | pre.v[y]), ..pre },
                    ProgramCounter::Next,
                ),
            )
        } else if n == 0x2 {
            Ok(
                (
                    EngineView { v: pre.v.update(x, pre.v[x] & pre.v[y]), ..pre },
                    ProgramCounter::Next,
                ),
            )
        } else if n == 0x3 {
            Ok(
                (
                    EngineView { v: pre.v.update(x, pre.v[x] ^ pre.v[y]), ..pre },
                    ProgramCounter::Next,
                ),
            )
        } else if n == 0x4 {
            Ok((EngineView { v: spec_add_carry(pre.v, x, y), ..pre }, ProgramCounter::Next))
        } else if n == 0x5 {
            Ok((EngineView { v: spec_sub(pre.v, x, y), ..pre }, ProgramCounter::Next))
        } else if n == 0x6 {
            Ok((EngineView { v: spec_shr(pre.v, x), ..pre }, ProgramCounter::Next))
        } else if n == 0x7 {
            Ok((EngineView { v: spec_sub_rev(pre.v, x, y), ..pre }, ProgramCounter::Next))
        } else if n == 0xE {
            Ok((EngineView { v: spec_shl(pre.v, x), ..pre }, ProgramCounter::Next))
        } else {
            Err(VmError::Unrecognized(op))
        }
    } else if op_high(op) == 0x9 {
        Ok((pre, spec_skip_when(pre.v[x] != pre.v[y])))
    } else if op_high(op) == 0xA {
        Ok((EngineView { i: nnn, ..pre }, ProgramCounter::Next))
    } else if op_high(op) == 0xB {
        Ok((pre, ProgramCounter::Jump(((nnn + pre.v[0]) as u16))))
    } else if op_high(op) == 0xC {
        Ok((EngineView { v: pre.v.update(x, rnd & kk), ..pre }, ProgramCounter::Next))
    } else if op_high(op) == 0xD {
        Ok((spec_draw(pre, x, y, n as int), ProgramCounter::Next))
    } else if op_high(op) == 0xE {
        if kk == 0x9E {
            Ok((pre, spec_skip_when(pre.key[(pre.v[x] & 0xF) as int])))
        } else if kk == 0xA1 {
            Ok((pre, spec_skip_when(!pre.key[(pre.v[x] & 0xF) as int])))
        } else {
            Err(VmError::Unrecognized(op))
        }
    } else if op_high(op) == 0xF {
        if kk == 0x07 {
            Ok((EngineView { v: pre.v.update(x, pre.delay_timer), ..pre }, ProgramCounter::Next))
        } else if kk == 0x0A {
            Ok(
                (
                    EngineView {
                        pending_register: (op_x(op) as u8),
                        waiting_for_input: true,
                        ..pre
                    },
                    ProgramCounter::Next,
                ),
            )
        } else if kk == 0x15 {
            Ok((EngineView { delay_timer: pre.v[x], ..pre }, ProgramCounter::Next))
        } else if kk == 0x18 {
            Ok((EngineView { sound_timer: pre.v[x], ..pre }, ProgramCounter::Next))
        } else if kk == 0x1E {
            Ok(
                (
                    EngineView {
                        i: (((pre.i + pre.v[x]) % 0x10000) as u16),
                        v: pre.v.update(
                            15,
                            if pre.i + pre.v[x] > 0xFFF {
                                1u8
                            } else {
                                0u8
                            },
                        ),
                        ..pre
                    },
                    ProgramCounter::Next,
                ),
            )
        } else if kk == 0x29 {
            Ok((EngineView { i: ((pre.v[x] * 5) as u16), ..pre }, ProgramCounter::Next))
        } else if kk == 0x33 {
            Ok((spec_bcd(pre, x), ProgramCounter::Next))
        } else if kk == 0x55 {
            Ok((spec_dump(pre, x), ProgramCounter::Next))
        } else if kk == 0x65 {
            Ok((spec_load(pre, x), ProgramCounter::Next))
        } else {
            Err(VmError::Unrecognized(op))
        }
    } else {
        Err(VmError::Unrecognized(op))
    }
}

/// The outcome a conditional-skip opcode decides.
pub open spec fn spec_skip_when(condition: bool) -> ProgramCounter {
    if condition {
        ProgramCounter::Skip
    } else {
        ProgramCounter::Next
    }
}

/// The state an opcode left behind, with its counter outcome committed: the
/// counter is resolved against the value it had when the instruction was
/// fetched and folded back into the 12-bit address space. Jump targets are
/// otherwise unconstrained and callers keep them inside memory; the fold
/// makes the boundary total, so an advance or an offset jump past the top
/// of memory lands on a low address rather than leaving the next fetch
/// undefined.
pub open spec fn commit(m: EngineView, out: ProgramCounter) -> EngineView {
    EngineView { pc: ((pc_dest(out, m.pc) % 4096) as u16), ..m }
}

/// One whole fetch-decode-execute step of the machine: the next state, or
/// the error that aborts the step leaving the machine untouched.
pub open spec fn step_spec(pre: EngineView, rnd: u8) -> Result<EngineView, VmError> {
    match step_arm(pre, rnd) {
        Ok((m, out)) => Ok(commit(m, out)),
        Err(e) => Err(e),
    }
}

} // verus!
