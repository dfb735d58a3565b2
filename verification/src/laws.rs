use vstd::prelude::*;

use vstd::arithmetic::div_mod::{
    lemma_fundamental_div_mod_converse_div, lemma_fundamental_div_mod_converse_mod,
    lemma_mod_bound, lemma_small_mod,
};

use crate::semantics::{
    cell_index, draw_cell, draw_collision, draw_gfx, draw_lights_any_new, dump_regs, fetch, hits,
    lemma_decode_bounds, lemma_wrap_inverse, lights_new, load_regs, op_nnn, op_x, spec_add_carry,
    spec_dump, spec_load, spec_sub, sprite_bit, step_spec, EngineView, VmError,
};

verus! {

/// A step that succeeds leaves the machine well-formed: every container
/// keeps its fixed capacity, the stack pointer stays within it, and both
/// address registers stay inside memory.
pub proof fn lemma_step_wf(pre: EngineView, rnd: u8)
    requires
        pre.wf(),
        step_spec(pre, rnd) is Ok,
    ensures
        step_spec(pre, rnd)->Ok_0.wf(),
{
    broadcast use lemma_mod_bound;

    lemma_decode_bounds(fetch(pre));
}

/// Add-with-carry: the flag register reads 1 exactly when the true sum of
/// the two operands exceeds 255, and the destination (when it is not the
/// flag register itself, which the flag write overrides) holds the sum
/// reduced mod 256.
pub proof fn lemma_add_with_carry(v: Seq<u8>, x: int, y: int)
    requires
        v.len() == 16,
        0 <= x < 16,
        0 <= y < 16,
    ensures
        (spec_add_carry(v, x, y)[15] == 1) <==> (v[x] + v[y] > 255),
        (spec_add_carry(v, x, y)[15] == 0) <==> (v[x] + v[y] <= 255),
        x != 15 ==> spec_add_carry(v, x, y)[x] == ((v[x] + v[y]) % 256) as u8,
{
}

/// Subtract: on distinct operand registers away from the flag register,
/// a strictly greater minuend sets the flag (no borrow) and leaves the
/// exact difference; a strictly smaller one clears the flag and leaves the
/// difference wrapped mod 256.
pub proof fn lemma_subtract(v: Seq<u8>, x: int, y: int)
    requires
        v.len() == 16,
        0 <= x < 16,
        0 <= y < 16,
        x != 15,
        y != 15,
    ensures
        v[x] > v[y] ==> spec_sub(v, x, y)[15] == 1 && spec_sub(v, x, y)[x] == v[x] - v[y],
        v[x] < v[y] ==> spec_sub(v, x, y)[15] == 0 && spec_sub(v, x, y)[x] == ((v[x] - v[y])
            % 256) as u8,
{
    if v[x] > v[y] {
        lemma_small_mod((v[x] - v[y]) as nat, 256);
    }
}

/// Clear-screen: after the clear-screen instruction executes, every cell
/// of the display reads unlit, whatever the machine held before.
pub proof fn lemma_clear_screen_all_unlit(pre: EngineView, rnd: u8)
    requires
        pre.wf(),
        fetch(pre) == 0x00E0,
    ensures
        step_spec(pre, rnd) is Ok,
        forall|p: int| 0 <= p < 2048 ==> !(#[trigger] step_spec(pre, rnd)->Ok_0.gfx[p]),
{
    assert(0x00E0u16 >> 12 == 0x0 && (0x00E0u16 & 0xFF) as u8 == 0xE0) by (bit_vector);
}

/// Call then return: with the call's target holding the return
/// instruction, the two steps together bring the counter to the call-site
/// address plus one instruction and leave the stack pointer where it was
/// before the call.
pub proof fn lemma_call_then_return(pre: EngineView, rnd1: u8, rnd2: u8)
    requires
        pre.wf(),
        fetch(pre) >> 12 == 0x2,
        pre.sp < 16,
        pre.pc + 2 < 4096,
        pre.memory[op_nnn(fetch(pre)) as int] == 0x00,
        pre.memory[(op_nnn(fetch(pre)) as int + 1) % 4096] == 0xEE,
    ensures
        step_spec(pre, rnd1) is Ok,
        step_spec(step_spec(pre, rnd1)->Ok_0, rnd2) is Ok,
        step_spec(step_spec(pre, rnd1)->Ok_0, rnd2)->Ok_0.pc == pre.pc + 2,
        step_spec(step_spec(pre, rnd1)->Ok_0, rnd2)->Ok_0.sp == pre.sp,
{
    lemma_decode_bounds(fetch(pre));
    lemma_small_mod(op_nnn(fetch(pre)) as nat, 4096);
    lemma_small_mod((pre.pc + 2) as nat, 4096);
    let mid = step_spec(pre, rnd1)->Ok_0;
    assert(((0x00u8 as u16) << 8) | (0xEEu8 as u16) == 0x00EE) by (bit_vector);
    assert(fetch(mid) == 0x00EE);
    assert(0x00EEu16 >> 12 == 0x0 && (0x00EEu16 & 0xFF) as u8 == 0xEE) by (bit_vector);
}

/// Drawing the same sprite at the same anchor twice restores the display
/// exactly (XOR is its own inverse), and the second draw reports a
/// collision exactly when the first draw lit at least one new cell.
pub proof fn lemma_draw_self_inverse(gfx: Seq<bool>, mem: Seq<u8>, i: u16, vx: u8, vy: u8, n: int)
    requires
        gfx.len() == 2048,
        0 <= n < 16,
    ensures
        draw_gfx(draw_gfx(gfx, mem, i, vx, vy, n), mem, i, vx, vy, n) == gfx,
        draw_collision(draw_gfx(gfx, mem, i, vx, vy, n), mem, i, vx, vy, n)
            == draw_lights_any_new(gfx, mem, i, vx, vy, n),
{
    let g1 = draw_gfx(gfx, mem, i, vx, vy, n);
    assert forall|p: int| 0 <= p < 2048 implies draw_cell(g1, mem, i, vx, vy, n, p) == gfx[p] by {
        assert(g1[p] == draw_cell(gfx, mem, i, vx, vy, n, p));
    }
    assert(draw_gfx(g1, mem, i, vx, vy, n) =~= gfx);
    assert forall|dy: int, dx: int| 0 <= dy < n && 0 <= dx < 8 implies (hits(
        g1,
        mem,
        i,
        vx,
        vy,
        dy,
        dx,
    ) == lights_new(gfx, mem, i, vx, vy, dy, dx)) by {
        lemma_mod_bound(vy as int + dy, 32);
        lemma_mod_bound(vx as int + dx, 64);
        let ci = cell_index(vx, vy, dy, dx);
        lemma_fundamental_div_mod_converse_div(
            ci,
            64,
            (vy as int + dy) % 32,
            (vx as int + dx) % 64,
        );
        lemma_fundamental_div_mod_converse_mod(
            ci,
            64,
            (vy as int + dy) % 32,
            (vx as int + dx) % 64,
        );
        lemma_wrap_inverse(vy as int, dy, 32);
        lemma_wrap_inverse(vx as int, dx, 64);
        assert(g1[ci] == draw_cell(gfx, mem, i, vx, vy, n, ci));
        assert(g1[ci] == (gfx[ci] != sprite_bit(mem, i, dy, dx)));
    }
    if draw_collision(g1, mem, i, vx, vy, n) {
        let (dy, dx) = choose|dy: int, dx: int|
            0 <= dy < n && 0 <= dx < 8 && #[trigger] hits(g1, mem, i, vx, vy, dy, dx);
        assert(lights_new(gfx, mem, i, vx, vy, dy, dx));
        assert(draw_lights_any_new(gfx, mem, i, vx, vy, n));
    }
    if draw_lights_any_new(gfx, mem, i, vx, vy, n) {
        let (dy, dx) = choose|dy: int, dx: int|
            0 <= dy < n && 0 <= dx < 8 && #[trigger] lights_new(gfx, mem, i, vx, vy, dy, dx);
        assert(hits(g1, mem, i, vx, vy, dy, dx));
        assert(draw_collision(g1, mem, i, vx, vy, n));
    }
}

/// Register dump then register load through the same index register value
/// and the same register count round-trips V0..Vx exactly; the dump
/// advances I past the written range, the load leaves I unchanged.
pub proof fn lemma_dump_load_round_trip(pre: EngineView, x: int)
    requires
        pre.wf(),
        0 <= x < 16,
    ensures
        load_regs(pre.v, spec_dump(pre, x).memory, pre.i, x) == pre.v,
        spec_load(EngineView { memory: spec_dump(pre, x).memory, ..pre }, x).v == pre.v,
        spec_dump(pre, x).v == pre.v,
        spec_dump(pre, x).i == (((pre.i + x + 1) % 0x10000) as u16),
        pre.i + x + 1 <= u16::MAX ==> spec_dump(pre, x).i == pre.i + x + 1,
        spec_load(pre, x).i == pre.i,
{
    if pre.i + x + 1 <= u16::MAX {
        lemma_small_mod((pre.i + x + 1) as nat, 0x10000);
    }
    let dumped = dump_regs(pre.memory, pre.v, pre.i, x);
    assert forall|r: int| 0 <= r < 16 implies load_regs(pre.v, dumped, pre.i, x)[r] == pre.v[r] by {
        if r <= x {
            lemma_mod_bound(pre.i as int + r, 4096);
            lemma_wrap_inverse(pre.i as int, r, 4096);
        }
    }
    assert(load_regs(pre.v, dumped, pre.i, x) =~= pre.v);
    assert(spec_load(EngineView { memory: spec_dump(pre, x).memory, ..pre }, x).v =~= pre.v);
}

/// Add-to-index: the index register takes the true sum I + Vx (held in its
/// sixteen bits), and the flag register records whether that sum left the
/// 12-bit address space. Memory accesses through I wrap at use instead.
pub proof fn lemma_add_to_index(pre: EngineView, rnd: u8)
    requires
        pre.wf(),
        fetch(pre) >> 12 == 0xF,
        (fetch(pre) & 0xFF) as u8 == 0x1E,
        pre.i + pre.v[op_x(fetch(pre)) as int] <= u16::MAX,
    ensures
        step_spec(pre, rnd) is Ok,
        step_spec(pre, rnd)->Ok_0.i == pre.i + pre.v[op_x(fetch(pre)) as int],
        step_spec(pre, rnd)->Ok_0.v[15] == (if pre.i + pre.v[op_x(fetch(pre)) as int] > 0xFFF {
            1u8
        } else {
            0u8
        }),
{
    lemma_decode_bounds(fetch(pre));
    lemma_small_mod((pre.i + pre.v[op_x(fetch(pre)) as int]) as nat, 0x10000);
}

/// A step is deterministic: the next state is a function of the machine
/// state and the byte the random source supplies, and every opcode other
/// than random-AND ignores that byte.
pub proof fn lemma_step_deterministic(pre: EngineView, rnd1: u8, rnd2: u8)
    requires
        pre.wf(),
        fetch(pre) >> 12 != 0xC,
    ensures
        step_spec(pre, rnd1) == step_spec(pre, rnd2),
{
}

/// The call stack holds sixteen nested calls; a seventeenth call attempt
/// is the defined stack-overflow failure, not silent corruption.
pub proof fn lemma_call_stack_capacity(pre: EngineView, rnd: u8)
    requires
        pre.wf(),
        fetch(pre) >> 12 == 0x2,
    ensures
        pre.sp < 16 ==> step_spec(pre, rnd) is Ok && step_spec(pre, rnd)->Ok_0.sp == pre.sp + 1,
        pre.sp == 16 ==> step_spec(pre, rnd) == Err::<EngineView, VmError>(VmError::StackOverflow),
{
}

} // verus!
