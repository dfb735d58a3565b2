use vstd::prelude::*;

use vstd::arithmetic::div_mod::{
    lemma_fundamental_div_mod, lemma_fundamental_div_mod_converse_div,
    lemma_fundamental_div_mod_converse_mod, lemma_mod_bound, lemma_mod_multiples_vanish,
    lemma_small_mod,
};

use rand::Rng;

use crate::font::FONT_SET;
use crate::program_counter::ProgramCounter;
use crate::semantics::{
    cell_index, draw_cell, draw_collision, draw_gfx, dump_regs, fetch, hits, initial_view,
    lemma_decode_bounds, lemma_low_nibble, lemma_wrap_inverse, lemma_wrap_recover, load_at,
    load_regs, op_kk, op_n, op_nnn, op_x, op_y, signed, spec_bcd, spec_cls, spec_draw, spec_dump,
    commit, spec_load, sprite_bit, step_arm, step_spec, EngineView, VmError,
};

verus! {

/// Relies on `rand::thread_rng` and `rand::Rng::gen::<u8>`: one byte drawn
/// from the thread-local generator. The value depends on the generator's
/// hidden state, so nothing is promised of it.
#[verifier::external_body]
fn random_byte() -> (r: u8) {
    rand::thread_rng().gen::<u8>()
}

/// The decoded fields of the current instruction word, recomputed on every
/// step and discarded afterwards.
pub struct CPUCycle {
    pub opcode: u16,
    pub nnn: u16,
    pub nn: u8,
    pub n: u8,
    pub x: usize,
    pub y: usize,
}

impl CPUCycle {
    /// The 8-bit immediate operand of the instruction word.
    pub fn get_kk(&self) -> (r: u8)
        ensures
            r == op_kk(self.opcode),
    {
        (self.opcode & 0x00FF) as u8
    }
}

/// The display as it stands after the first `done` sprite cells, in
/// row-major sprite order, have been composited; the remaining cells keep
/// their pre-draw values.
spec fn partial_cell(
    gfx: Seq<bool>,
    mem: Seq<u8>,
    i: u16,
    vx: u8,
    vy: u8,
    done: int,
    p: int,
) -> bool {
    let dy = (p / 64 - vy as int) % 32;
    let dx = (p % 64 - vx as int) % 64;
    if dx < 8 && dy * 8 + dx < done {
        gfx[p] != sprite_bit(mem, i, dy, dx)
    } else {
        gfx[p]
    }
}

spec fn partial_gfx(gfx: Seq<bool>, mem: Seq<u8>, i: u16, vx: u8, vy: u8, done: int) -> Seq<bool> {
    Seq::new(2048, |p: int| partial_cell(gfx, mem, i, vx, vy, done, p))
}

/// A collision among the first `done` sprite cells in row-major order.
spec fn partial_coll(gfx: Seq<bool>, mem: Seq<u8>, i: u16, vx: u8, vy: u8, done: int) -> bool {
    exists|dy: int, dx: int|
        0 <= dy && 0 <= dx < 8 && dy * 8 + dx < done && #[trigger] hits(gfx, mem, i, vx, vy, dy, dx)
}

/// The machine state and its fetch-decode-execute engine.
pub struct Engine {
    memory: Vec<u8>,
    v: Vec<u8>,
    i: u16,
    pc: u16,
    gfx: Vec<bool>,
    delay_timer: u8,
    sound_timer: u8,
    stack: Vec<u16>,
    stackpointer: u8,
    key: Vec<bool>,
    pub pressed_key: u8,
    pending_register: u8,
    pub waiting_for_input: bool,
    pub waiting_for_draw: bool,
    pub draw_flag: bool,
}

impl View for Engine {
    type V = EngineView;

    closed spec fn view(&self) -> EngineView {
        EngineView {
            memory: self.memory@,
            v: self.v@,
            i: self.i,
            pc: self.pc,
            gfx: self.gfx@,
            delay_timer: self.delay_timer,
            sound_timer: self.sound_timer,
            stack: self.stack@,
            sp: self.stackpointer,
            key: self.key@,
            pressed_key: self.pressed_key,
            pending_register: self.pending_register,
            waiting_for_input: self.waiting_for_input,
            waiting_for_draw: self.waiting_for_draw,
            draw_flag: self.draw_flag,
        }
    }
}

/// A vector of `n` copies of `t`.
fn filled<T: Copy>(n: usize, t: T) -> (r: Vec<T>)
    ensures
        r@.len() == n,
        forall|j: int| 0 <= j < n ==> r@[j] == t,
{
    let mut r: Vec<T> = Vec::new();
    let mut k: usize = 0;
    while k < n
        invariant
            k <= n,
            r@.len() == k,
            forall|j: int| 0 <= j < k ==> r@[j] == t,
        decreases n - k,
    {
        r.push(t);
        k = k + 1;
    }
    r
}

impl Engine {
    /// A fresh machine: all-zero state, counter at the program base.
    /// `draw` only sets the host-facing rendering flag.
    pub fn new(draw: bool) -> (r: Engine)
        ensures
            r@ == initial_view(draw),
    {
        let r = Engine {
            memory: filled(4096, 0u8),
            v: filled(16, 0u8),
            i: 0,
            pc: 0x200,
            gfx: filled(2048, false),
            delay_timer: 0,
            sound_timer: 0,
            stack: filled(16, 0u16),
            stackpointer: 0,
            key: filled(16, false),
            pressed_key: 2,
            pending_register: 0,
            waiting_for_input: false,
            waiting_for_draw: false,
            draw_flag: draw,
        };
        proof {
            assert(r@.memory =~= initial_view(draw).memory);
            assert(r@.v =~= initial_view(draw).v);
            assert(r@.gfx =~= initial_view(draw).gfx);
            assert(r@.stack =~= initial_view(draw).stack);
            assert(r@.key =~= initial_view(draw).key);
            assert(r@ =~= initial_view(draw));
        }
        r
    }

    /// Rewind the machine to the program base: counter, index register and
    /// stack pointer are reset; memory, registers and display keep their
    /// contents.
    pub fn clear(&mut self)
        ensures
            final(self)@ == (EngineView { pc: 0x200, i: 0, sp: 0, ..old(self)@ }),
    {
        self.pc = 0x200;
        self.i = 0;
        self.stackpointer = 0;
    }

    /// Load the glyph table into the reserved low region of memory.
    pub fn read_font(&mut self)
        requires
            old(self)@.wf(),
        ensures
            final(self)@ == (EngineView {
                memory: load_at(old(self)@.memory, FONT_SET@, 0),
                ..old(self)@
            }),
    {
        let mut k: usize = 0;
        while k < 80
            invariant
                k <= 80,
                self.memory@.len() == 4096,
                self@ == (EngineView { memory: self.memory@, ..old(self)@ }),
                forall|j: int| 0 <= j < k ==> self.memory@[j] == FONT_SET@[j],
                forall|j: int| k <= j < 4096 ==> self.memory@[j] == old(self)@.memory[j],
            decreases 80 - k,
        {
            self.memory.set(k, FONT_SET[k]);
            k = k + 1;
        }
        proof {
            assert(self.memory@ =~= load_at(old(self)@.memory, FONT_SET@, 0));
            assert(self@ =~= (EngineView {
                memory: load_at(old(self)@.memory, FONT_SET@, 0),
                ..old(self)@
            }));
        }
    }

    /// Copy a program image into memory starting at the program base 0x200.
    /// The loader owns keeping the image inside memory, so an image longer
    /// than the space above the base is refused by precondition.
    pub fn read_game(&mut self, buffer: &Vec<u8>)
        requires
            old(self)@.wf(),
            buffer@.len() <= 4096 - 512,
        ensures
            final(self)@ == (EngineView {
                memory: load_at(old(self)@.memory, buffer@, 512),
                ..old(self)@
            }),
    {
        let mut k: usize = 0;
        while k < buffer.len()
            invariant
                k <= buffer@.len() <= 4096 - 512,
                self.memory@.len() == 4096,
                self@ == (EngineView { memory: self.memory@, ..old(self)@ }),
                forall|j: int| 512 <= j < 512 + k ==> self.memory@[j] == buffer@[j - 512],
                forall|j: int|
                    0 <= j < 4096 && !(512 <= j < 512 + k) ==> self.memory@[j] == old(
                        self,
                    )@.memory[j],
            decreases buffer@.len() - k,
        {
            self.memory.set(512 + k, buffer[k]);
            k = k + 1;
        }
        proof {
            assert(self.memory@ =~= load_at(old(self)@.memory, buffer@, 512));
            assert(self@ =~= (EngineView {
                memory: load_at(old(self)@.memory, buffer@, 512),
                ..old(self)@
            }));
        }
    }

    /// Clear screen: every display cell goes unlit and draw is pending.
    fn op_cls(&mut self)
        requires
            old(self)@.wf(),
        ensures
            final(self)@ == spec_cls(old(self)@),
    {
        let mut k: usize = 0;
        while k < 2048
            invariant
                k <= 2048,
                self.gfx@.len() == 2048,
                self@ == (EngineView { gfx: self.gfx@, ..old(self)@ }),
                forall|j: int| 0 <= j < k ==> !self.gfx@[j],
            decreases 2048 - k,
        {
            self.gfx.set(k, false);
            k = k + 1;
        }
        self.waiting_for_draw = true;
        proof {
            assert(self.gfx@ =~= spec_cls(old(self)@).gfx);
            assert(self@ =~= spec_cls(old(self)@));
        }
    }

    /// Store BCD: the decimal digits of Vx at I, I+1, I+2 (wrapping).
    fn op_bcd(&mut self, x: usize)
        requires
            old(self)@.wf(),
            x < 16,
        ensures
            final(self)@ == spec_bcd(old(self)@, x as int),
    {
        let b: u8 = self.v[x];
        self.memory.set((self.i as usize) % 4096, b / 100);
        self.memory.set(((self.i as usize) + 1) % 4096, (b % 100) / 10);
        self.memory.set(((self.i as usize) + 2) % 4096, b % 10);
        proof {
            assert(self@ =~= spec_bcd(old(self)@, x as int));
        }
    }

    /// Register dump: V0..Vx to memory at I, then I moves past the range.
    fn op_dump(&mut self, x: usize)
        requires
            old(self)@.wf(),
            x < 16,
        ensures
            final(self)@ == spec_dump(old(self)@, x as int),
    {
        let ghost i0: u16 = self.i;
        let ghost m0: Seq<u8> = self.memory@;
        let mut k: usize = 0;
        while k <= x
            invariant
                old(self)@.wf(),
                x < 16,
                k <= x + 1,
                i0 == old(self)@.i,
                m0 == old(self)@.memory,
                self@ == (EngineView { memory: self.memory@, ..old(self)@ }),
                self.memory@.len() == 4096,
                forall|a: int|
                    0 <= a < 4096 ==> #[trigger] self.memory@[a] == (if (a - i0 as int) % 4096
                        < k {
                        old(self)@.v[(a - i0 as int) % 4096]
                    } else {
                        m0[a]
                    }),
            decreases x + 1 - k,
        {
            let addr: usize = ((self.i as usize) + k) % 4096;
            let val: u8 = self.v[k];
            self.memory.set(addr, val);
            proof {
                lemma_wrap_inverse(i0 as int, k as int, 4096);
                assert forall|a: int| 0 <= a < 4096 implies #[trigger] self.memory@[a] == (if (a
                    - i0 as int) % 4096 < k + 1 {
                    old(self)@.v[(a - i0 as int) % 4096]
                } else {
                    m0[a]
                }) by {
                    let j = (a - i0 as int) % 4096;
                    lemma_mod_bound(a - i0 as int, 4096);
                    if a != addr as int && j == k as int {
                        lemma_wrap_recover(i0 as int, a, 4096);
                        assert(false);
                    }
                }
            }
            k = k + 1;
        }
        let sum: u32 = (self.i as u32) + (x as u32) + 1;
        self.i = (sum % 0x10000) as u16;
        proof {
            assert(self.memory@ =~= dump_regs(m0, old(self)@.v, i0, x as int));
            assert(self@ =~= spec_dump(old(self)@, x as int));
        }
    }

    /// Register load: V0..Vx refilled from memory at I; I stays put.
    fn op_load(&mut self, x: usize)
        requires
            old(self)@.wf(),
            x < 16,
        ensures
            final(self)@ == spec_load(old(self)@, x as int),
    {
        let mut k: usize = 0;
        while k <= x
            invariant
                old(self)@.wf(),
                x < 16,
                k <= x + 1,
                self@ == (EngineView { v: self.v@, ..old(self)@ }),
                self.v@.len() == 16,
                forall|r: int|
                    0 <= r < 16 ==> #[trigger] self.v@[r] == (if r < k {
                        old(self)@.memory[(old(self)@.i as int + r) % 4096]
                    } else {
                        old(self)@.v[r]
                    }),
            decreases x + 1 - k,
        {
            let val: u8 = self.memory[((self.i as usize) + k) % 4096];
            self.v.set(k, val);
            k = k + 1;
        }
        proof {
            assert(self.v@ =~= load_regs(old(self)@.v, old(self)@.memory, old(self)@.i, x as int));
            assert(self@ =~= spec_load(old(self)@, x as int));
        }
    }

    /// Draw sprite: clear the flag register, XOR-composite `n` sprite rows
    /// read from memory at I onto the display anchored at (Vx, Vy) with both
    /// coordinates wrapping, then set the flag exactly when some lit cell
    /// went dark. Draw becomes pending.
    fn op_draw(&mut self, x: usize, y: usize, n: u8)
        requires
            old(self)@.wf(),
            x < 16,
            y < 16,
            n < 16,
        ensures
            final(self)@ == spec_draw(old(self)@, x as int, y as int, n as int),
    {
        self.v.set(15, 0);
        let vx: u8 = self.v[x];
        let vy: u8 = self.v[y];
        let ghost g0: Seq<bool> = self.gfx@;
        let ghost mem: Seq<u8> = self.memory@;
        let ghost i0: u16 = self.i;
        let mut collision: bool = false;
        let mut row: u8 = 0;
        proof {
            assert(self.gfx@ =~= partial_gfx(g0, mem, i0, vx, vy, 0));
        }
        while row < n
            invariant
                old(self)@.wf(),
                x < 16,
                y < 16,
                n < 16,
                row <= n,
                self@ == (EngineView {
                    v: old(self)@.v.update(15, 0u8),
                    gfx: self.gfx@,
                    ..old(self)@
                }),
                g0 == old(self)@.gfx,
                mem == old(self)@.memory,
                i0 == old(self)@.i,
                vx == old(self)@.v.update(15, 0u8)[x as int],
                vy == old(self)@.v.update(15, 0u8)[y as int],
                self.gfx@ == partial_gfx(g0, mem, i0, vx, vy, (row as int) * 8),
                collision == partial_coll(g0, mem, i0, vx, vy, (row as int) * 8),
            decreases n - row,
        {
            let sprite_byte: u8 = self.memory[((self.i as usize) + (row as usize)) % 4096];
            let py: usize = ((vy as usize) + (row as usize)) % 32;
            let mut bit: u8 = 0;
            while bit < 8
                invariant
                    old(self)@.wf(),
                    x < 16,
                    y < 16,
                    n < 16,
                    row < n,
                    bit <= 8,
                    self@ == (EngineView {
                        v: old(self)@.v.update(15, 0u8),
                        gfx: self.gfx@,
                        ..old(self)@
                    }),
                    g0 == old(self)@.gfx,
                    mem == old(self)@.memory,
                    i0 == old(self)@.i,
                    vx == old(self)@.v.update(15, 0u8)[x as int],
                    vy == old(self)@.v.update(15, 0u8)[y as int],
                    sprite_byte == mem[(i0 as int + row) % 4096],
                    py == (vy as int + row) % 32,
                    self.gfx@ == partial_gfx(g0, mem, i0, vx, vy, (row as int) * 8 + bit),
                    collision == partial_coll(g0, mem, i0, vx, vy, (row as int) * 8 + bit),
                decreases 8 - bit,
            {
                proof {
                    lemma_mod_bound(vy as int + row, 32);
                    lemma_mod_bound(vx as int + bit, 64);
                }
                let px: usize = ((vx as usize) + (bit as usize)) % 64;
                let idx: usize = py * 64 + px;
                let colour: bool = ((sprite_byte >> (7 - bit)) & 1) == 1;
                let cur: bool = self.gfx[idx];
                let ghost done: int = (row as int) * 8 + bit;
                let ghost coll_prev: bool = collision;
                proof {
                    lemma_wrap_inverse(vy as int, row as int, 32);
                    lemma_wrap_inverse(vx as int, bit as int, 64);
                    lemma_fundamental_div_mod_converse_div(
                        idx as int,
                        64,
                        py as int,
                        px as int,
                    );
                    lemma_fundamental_div_mod_converse_mod(
                        idx as int,
                        64,
                        py as int,
                        px as int,
                    );
                    assert(idx as int == cell_index(vx, vy, row as int, bit as int));
                    assert(colour == sprite_bit(mem, i0, row as int, bit as int));
                    assert(partial_cell(g0, mem, i0, vx, vy, done, idx as int) == g0[idx as int]);
                    assert(cur == g0[idx as int]);
                }
                if colour && cur {
                    collision = true;
                }
                self.gfx.set(idx, cur != colour);
                proof {
                    assert forall|p: int| 0 <= p < 2048 && p != idx as int implies partial_cell(
                        g0,
                        mem,
                        i0,
                        vx,
                        vy,
                        done + 1,
                        p,
                    ) == partial_cell(g0, mem, i0, vx, vy, done, p) by {
                        lemma_fundamental_div_mod(p, 64);
                        lemma_mod_bound(p, 64);
                        let py2 = p / 64;
                        let px2 = p % 64;
                        let dy2 = (py2 - vy as int) % 32;
                        let dx2 = (px2 - vx as int) % 64;
                        lemma_mod_bound(py2 - vy as int, 32);
                        lemma_mod_bound(px2 - vx as int, 64);
                        if dx2 < 8 && dy2 * 8 + dx2 == done {
                            assert(dy2 == row as int && dx2 == bit as int);
                            lemma_wrap_recover(vy as int, py2, 32);
                            lemma_wrap_recover(vx as int, px2, 64);
                            assert(py2 == (vy as int + row) % 32);
                            assert(px2 == (vx as int + bit) % 64);
                            assert(false);
                        }
                    }
                    assert(partial_gfx(g0, mem, i0, vx, vy, done + 1) =~= self.gfx@);
                    if colour && cur {
                        assert(hits(g0, mem, i0, vx, vy, row as int, bit as int));
                        assert(partial_coll(g0, mem, i0, vx, vy, done + 1));
                    }
                    if coll_prev {
                        let (dy3, dx3) = choose|dy3: int, dx3: int|
                            0 <= dy3 && 0 <= dx3 < 8 && dy3 * 8 + dx3 < done && #[trigger] hits(
                                g0,
                                mem,
                                i0,
                                vx,
                                vy,
                                dy3,
                                dx3,
                            );
                        assert(partial_coll(g0, mem, i0, vx, vy, done + 1));
                    }
                    if !coll_prev && !(colour && cur) {
                        assert(!partial_coll(g0, mem, i0, vx, vy, done + 1)) by {
                            if partial_coll(g0, mem, i0, vx, vy, done + 1) {
                                let (dy3, dx3) = choose|dy3: int, dx3: int|
                                    0 <= dy3 && 0 <= dx3 < 8 && dy3 * 8 + dx3 < done + 1
                                        && #[trigger] hits(g0, mem, i0, vx, vy, dy3, dx3);
                                if dy3 * 8 + dx3 < done {
                                    assert(partial_coll(g0, mem, i0, vx, vy, done));
                                } else {
                                    assert(dy3 == row as int && dx3 == bit as int);
                                    assert(cur && colour);
                                }
                                assert(false);
                            }
                        }
                    }
                    assert(collision == partial_coll(g0, mem, i0, vx, vy, done + 1));
                }
                bit = bit + 1;
            }
            row = row + 1;
        }
        self.waiting_for_draw = true;
        proof {
            assert forall|p: int| 0 <= p < 2048 implies partial_cell(
                g0,
                mem,
                i0,
                vx,
                vy,
                (n as int) * 8,
                p,
            ) == draw_cell(g0, mem, i0, vx, vy, n as int, p) by {
                lemma_fundamental_div_mod(p, 64);
                lemma_mod_bound(p, 64);
                lemma_mod_bound(p / 64 - vy as int, 32);
                lemma_mod_bound(p % 64 - vx as int, 64);
            }
            assert(self.gfx@ =~= draw_gfx(g0, mem, i0, vx, vy, n as int));
            if collision {
                let (dy3, dx3) = choose|dy3: int, dx3: int|
                    0 <= dy3 && 0 <= dx3 < 8 && dy3 * 8 + dx3 < (n as int) * 8 && #[trigger] hits(
                        g0,
                        mem,
                        i0,
                        vx,
                        vy,
                        dy3,
                        dx3,
                    );
                assert(0 <= dy3 < n);
                assert(draw_collision(g0, mem, i0, vx, vy, n as int));
            }
            if draw_collision(g0, mem, i0, vx, vy, n as int) {
                let (dy3, dx3) = choose|dy3: int, dx3: int|
                    0 <= dy3 < n && 0 <= dx3 < 8 && #[trigger] hits(g0, mem, i0, vx, vy, dy3, dx3);
                assert(dy3 * 8 + dx3 < (n as int) * 8);
                assert(partial_coll(g0, mem, i0, vx, vy, (n as int) * 8));
            }
            assert(collision == draw_collision(g0, mem, i0, vx, vy, n as int));
        }
        if collision {
            self.v.set(15, 1);
        }
        proof {
            assert(self@ =~= spec_draw(old(self)@, x as int, y as int, n as int));
        }
    }

    /// Supply-key: record the given key value as the most recent key and as
    /// the result of a pending wait-for-key instruction — when the machine
    /// is awaiting input, the value lands in the register that instruction
    /// named — then clear the awaiting-input condition.
    pub fn supply_key(&mut self, input_key: u8)
        requires
            old(self)@.wf(),
        ensures
            final(self)@ == (EngineView {
                pressed_key: input_key,
                waiting_for_input: false,
                v: if old(self)@.waiting_for_input {
                    old(self)@.v.update(old(self)@.pending_register as int, input_key)
                } else {
                    old(self)@.v
                },
                ..old(self)@
            }),
    {
        if self.waiting_for_input {
            let reg: usize = self.pending_register as usize;
            self.v.set(reg, input_key);
        }
        self.pressed_key = input_key;
        self.waiting_for_input = false;
    }

    /// Zero all sixteen general-purpose registers.
    pub(crate) fn zero_registers(&mut self)
        requires
            old(self)@.wf(),
        ensures
            final(self)@ == (EngineView { v: Seq::new(16, |j: int| 0u8), ..old(self)@ }),
    {
        let mut k: usize = 0;
        while k < 16
            invariant
                k <= 16,
                self.v@.len() == 16,
                self@ == (EngineView { v: self.v@, ..old(self)@ }),
                forall|j: int| 0 <= j < k ==> self.v@[j] == 0u8,
            decreases 16 - k,
        {
            self.v.set(k, 0);
            k = k + 1;
        }
        proof {
            assert(self.v@ =~= Seq::new(16, |j: int| 0u8));
            assert(self@ =~= (EngineView { v: Seq::new(16, |j: int| 0u8), ..old(self)@ }));
        }
    }

    /// The value of general-purpose register `idx`.
    pub fn get_v(&self, idx: usize) -> (r: u8)
        requires
            self@.wf(),
            idx < 16,
        ensures
            r == self@.v[idx as int],
    {
        self.v[idx]
    }

    /// The current program counter.
    pub fn get_pc(&self) -> (r: u16)
        ensures
            r == self@.pc,
    {
        self.pc
    }

    /// The current index register.
    pub fn get_i(&self) -> (r: u16)
        ensures
            r == self@.i,
    {
        self.i
    }

    /// The current stack pointer.
    pub fn get_sp(&self) -> (r: u8)
        ensures
            r == self@.sp,
    {
        self.stackpointer
    }

    /// The delay timer value.
    pub fn get_delay_timer(&self) -> (r: u8)
        ensures
            r == self@.delay_timer,
    {
        self.delay_timer
    }

    /// The sound timer value.
    pub fn get_sound_timer(&self) -> (r: u8)
        ensures
            r == self@.sound_timer,
    {
        self.sound_timer
    }

    /// The byte of memory at `addr`.
    pub fn mem_at(&self, addr: usize) -> (r: u8)
        requires
            self@.wf(),
            addr < 4096,
        ensures
            r == self@.memory[addr as int],
    {
        self.memory[addr]
    }

    /// Whether the display cell at column `px`, row `py` is lit.
    pub fn pixel(&self, px: usize, py: usize) -> (r: bool)
        requires
            self@.wf(),
            px < 64,
            py < 32,
        ensures
            r == self@.gfx[py as int * 64 + px as int],
    {
        self.gfx[py * 64 + px]
    }

    /// Record one key of the input pad as down or up.
    pub fn set_key(&mut self, k: usize, down: bool)
        requires
            old(self)@.wf(),
            k < 16,
        ensures
            final(self)@ == (EngineView {
                key: old(self)@.key.update(k as int, down),
                ..old(self)@
            }),
    {
        self.key.set(k, down);
        proof {
            assert(self@ =~= (EngineView {
                key: old(self)@.key.update(k as int, down),
                ..old(self)@
            }));
        }
    }

    /// One fetch-decode-execute step: fetch the 2-byte big-endian
    /// instruction at the counter, decode its fields, dispatch on them,
    /// mutate the state, and commit the resolved counter, all exactly as
    /// `step_spec` describes. On an error the machine is left untouched.
    ///
    /// The random-AND opcode draws a byte from the random source, so the
    /// contract fixes the next state up to the choice of that byte and pins
    /// it completely for every other opcode.
    #[verifier::rlimit(80)]
    pub fn cycle(&mut self) -> (r: Result<(), VmError>)
        requires
            old(self)@.wf(),
        ensures
            final(self)@.wf(),
            r is Ok ==> exists|rnd: u8|
                #[trigger] step_spec(old(self)@, rnd) == Ok::<EngineView, VmError>(final(self)@),
            r is Err ==> final(self)@ == old(self)@ && forall|rnd: u8|
                #[trigger] step_spec(old(self)@, rnd) == Err::<EngineView, VmError>(r->Err_0),
    {
        let ghost pre: EngineView = self@;
        let hi_byte: u8 = self.memory[self.pc as usize];
        let lo_byte: u8 = self.memory[((self.pc as usize) + 1) % 4096];
        let opcode: u16 = ((hi_byte as u16) << 8) | (lo_byte as u16);
        proof {
            assert(opcode == fetch(pre));
            lemma_decode_bounds(opcode);
        }
        let cycle = CPUCycle {
            opcode,
            nnn: opcode & 0x0FFF,
            nn: (opcode & 0x0FF) as u8,
            n: (opcode & 0x00F) as u8,
            x: ((opcode >> 8) & 0x000F) as usize,
            y: ((opcode >> 4) & 0x000F) as usize,
        };
        let kk: u8 = cycle.get_kk();
        let x: usize = cycle.x;
        let y: usize = cycle.y;
        proof {
            assert(cycle.nnn == op_nnn(fetch(pre)));
            assert(kk == op_kk(fetch(pre)));
            assert(cycle.n == op_n(fetch(pre)));
            assert(x == op_x(fetch(pre)));
            assert(y == op_y(fetch(pre)));
            assert(x < 16 && y < 16 && cycle.n < 16 && cycle.nnn < 4096);
        }
        let ghost mut rnd_g: u8 = 0;
        let next_pc: ProgramCounter = match opcode >> 12 {
            0x0 => {
                if kk == 0xE0 {
                    self.op_cls();
                    proof {
                        assert(step_arm(pre, rnd_g) == Ok::<(EngineView, ProgramCounter), VmError>(
                            (self@, ProgramCounter::Next),
                        ));
                    }
                    ProgramCounter::Next
                } else if kk == 0xEE {
                    if self.stackpointer == 0 {
                        proof {
                            assert(forall|rr: u8|
                                step_spec(pre, rr) == Err::<EngineView, VmError>(
                                    VmError::StackUnderflow,
                                ));
                        }
                        return Err(VmError::StackUnderflow);
                    }
                    self.stackpointer = self.stackpointer - 1;
                    let addr: u16 = self.stack[self.stackpointer as usize];
                    proof {
                        assert(self@ =~= (EngineView { sp: (pre.sp - 1) as u8, ..pre }));
                        assert(step_arm(pre, rnd_g) == Ok::<(EngineView, ProgramCounter), VmError>(
                            (self@, ProgramCounter::Jump(addr)),
                        ));
                    }
                    ProgramCounter::Jump(addr)
                } else {
                    proof {
                        assert(forall|rr: u8|
                            step_spec(pre, rr) == Err::<EngineView, VmError>(
                                VmError::Unrecognized(opcode),
                            ));
                    }
                    return Err(VmError::Unrecognized(opcode));
                }
            },
            0x1 => {
                proof {
                    assert(step_arm(pre, rnd_g) == Ok::<(EngineView, ProgramCounter), VmError>(
                        (self@, ProgramCounter::Jump(cycle.nnn)),
                    ));
                }
                ProgramCounter::Jump(cycle.nnn)
            },
            0x2 => {
                if self.stackpointer >= 16 {
                    proof {
                        assert(forall|rr: u8|
                            step_spec(pre, rr) == Err::<EngineView, VmError>(
                                VmError::StackOverflow,
                            ));
                    }
                    return Err(VmError::StackOverflow);
                }
                let ret_addr: u16 = (self.pc + 2) % 4096;
                let sp_now: usize = self.stackpointer as usize;
                self.stack.set(sp_now, ret_addr);
                self.stackpointer = self.stackpointer + 1;
                proof {
                    assert(self@ =~= (EngineView {
                        stack: pre.stack.update(pre.sp as int, (((pre.pc + 2) % 4096) as u16)),
                        sp: (pre.sp + 1) as u8,
                        ..pre
                    }));
                    assert(step_arm(pre, rnd_g) == Ok::<(EngineView, ProgramCounter), VmError>(
                        (self@, ProgramCounter::Jump(cycle.nnn)),
                    ));
                }
                ProgramCounter::Jump(cycle.nnn)
            },
            0x3 => {
                let out = ProgramCounter::skip_when(self.v[x] == kk);
                proof {
                    assert(step_arm(pre, rnd_g) == Ok::<(EngineView, ProgramCounter), VmError>(
                        (self@, out),
                    ));
                }
                out
            },
            0x4 => {
                let out = ProgramCounter::skip_when(self.v[x] != kk);
                proof {
                    assert(step_arm(pre, rnd_g) == Ok::<(EngineView, ProgramCounter), VmError>(
                        (self@, out),
                    ));
                }
                out
            },
            0x5 => {
                let out = ProgramCounter::skip_when(self.v[x] == self.v[y]);
                proof {
                    assert(step_arm(pre, rnd_g) == Ok::<(EngineView, ProgramCounter), VmError>(
                        (self@, out),
                    ));
                }
                out
            },
            0x6 => {
                self.v.set(x, kk);
                proof {
                    assert(step_arm(pre, rnd_g) == Ok::<(EngineView, ProgramCounter), VmError>(
                        (self@, ProgramCounter::Next),
                    ));
                }
                ProgramCounter::Next
            },
            0x7 => {
                let vx: u8 = self.v[x];
                let sum: u16 = (vx as u16) + (kk as u16);
                self.v.set(x, (sum % 256) as u8);
                proof {
                    assert(step_arm(pre, rnd_g) == Ok::<(EngineView, ProgramCounter), VmError>(
                        (self@, ProgramCounter::Next),
                    ));
                }
                ProgramCounter::Next
            },
            0x8 => {
                match cycle.n {
                    0x0 => {
                        let vy: u8 = self.v[y];
                        self.v.set(x, vy);
                        proof {
                            assert(step_arm(pre, rnd_g) == Ok::<
                                (EngineView, ProgramCounter),
                                VmError,
                            >((self@, ProgramCounter::Next)));
                        }
                        ProgramCounter::Next
                    },
                    0x1 => {
                        let a: u8 = self.v[x];
                        let b: u8 = self.v[y];
                        self.v.set(x, a | b);
                        proof {
                            assert(step_arm(pre, rnd_g) == Ok::<
                                (EngineView, ProgramCounter),
                                VmError,
                            >((self@, ProgramCounter::Next)));
                        }
                        ProgramCounter::Next
                    },
                    0x2 => {
                        let a: u8 = self.v[x];
                        let b: u8 = self.v[y];
                        self.v.set(x, a & b);
                        proof {
                            assert(step_arm(pre, rnd_g) == Ok::<
                                (EngineView, ProgramCounter),
                                VmError,
                            >((self@, ProgramCounter::Next)));
                        }
                        ProgramCounter::Next
                    },
                    0x3 => {
                        let a: u8 = self.v[x];
                        let b: u8 = self.v[y];
                        self.v.set(x, a ^ b);
                        proof {
                            assert(step_arm(pre, rnd_g) == Ok::<
                                (EngineView, ProgramCounter),
                                VmError,
                            >((self@, ProgramCounter::Next)));
                        }
                        ProgramCounter::Next
                    },
                    0x4 => {
                        let a: u8 = self.v[x];
                        let b: u8 = self.v[y];
                        let sum: u16 = (a as u16) + (b as u16);
                        self.v.set(x, (sum % 256) as u8);
                        self.v.set(15, if sum > 0xFF { 1 } else { 0 });
                        proof {
                            assert(step_arm(pre, rnd_g) == Ok::<
                                (EngineView, ProgramCounter),
                                VmError,
                            >((self@, ProgramCounter::Next)));
                        }
                        ProgramCounter::Next
                    },
                    0x5 => {
                        let a0: u8 = self.v[x];
                        let b0: u8 = self.v[y];
                        let flag: u8 = if a0 > b0 {
                            1
                        } else {
                            0
                        };
                        self.v.set(15, flag);
                        let a: u8 = self.v[x];
                        let b: u8 = self.v[y];
                        let diff: u8 = if a >= b {
                            a - b
                        } else {
                            (((a as u16) + 256) - (b as u16)) as u8
                        };
                        proof {
                            if a >= b {
                                lemma_small_mod((a - b) as nat, 256);
                            } else {
                                lemma_mod_multiples_vanish(-1, a + 256 - b, 256);
                                lemma_small_mod((a + 256 - b) as nat, 256);
                            }
                            assert(diff as int == (a - b) % 256);
                        }
                        self.v.set(x, diff);
                        proof {
                            assert(step_arm(pre, rnd_g) == Ok::<
                                (EngineView, ProgramCounter),
                                VmError,
                            >((self@, ProgramCounter::Next)));
                        }
                        ProgramCounter::Next
                    },
                    0x6 => {
                        let vx0: u8 = self.v[x];
                        self.v.set(15, vx0 & 1);
                        let cur: u8 = self.v[x];
                        self.v.set(x, cur >> 1);
                        proof {
                            assert(step_arm(pre, rnd_g) == Ok::<
                                (EngineView, ProgramCounter),
                                VmError,
                            >((self@, ProgramCounter::Next)));
                        }
                        ProgramCounter::Next
                    },
                    0x7 => {
                        let a0: u8 = self.v[x];
                        let b0: u8 = self.v[y];
                        let flag: u8 = if (b0 < 128) == (a0 < 128) {
                            if b0 < a0 {
                                1
                            } else {
                                0
                            }
                        } else {
                            if b0 >= 128 {
                                1
                            } else {
                                0
                            }
                        };
                        let diff: u8 = if b0 >= a0 {
                            b0 - a0
                        } else {
                            (((b0 as u16) + 256) - (a0 as u16)) as u8
                        };
                        proof {
                            assert(flag == (if signed(pre.v[y as int]) < signed(pre.v[x as int]) {
                                1u8
                            } else {
                                0u8
                            }));
                            if b0 >= a0 {
                                lemma_small_mod((b0 - a0) as nat, 256);
                            } else {
                                lemma_mod_multiples_vanish(-1, b0 + 256 - a0, 256);
                                lemma_small_mod((b0 + 256 - a0) as nat, 256);
                            }
                            assert(diff as int == (b0 - a0) % 256);
                        }
                        self.v.set(15, flag);
                        self.v.set(x, diff);
                        proof {
                            assert(step_arm(pre, rnd_g) == Ok::<
                                (EngineView, ProgramCounter),
                                VmError,
                            >((self@, ProgramCounter::Next)));
                        }
                        ProgramCounter::Next
                    },
                    0xE => {
                        let vx0: u8 = self.v[x];
                        self.v.set(15, (vx0 & 0x80) >> 7);
                        let cur: u8 = self.v[x];
                        self.v.set(x, cur << 1);
                        proof {
                            assert(step_arm(pre, rnd_g) == Ok::<
                                (EngineView, ProgramCounter),
                                VmError,
                            >((self@, ProgramCounter::Next)));
                        }
                        ProgramCounter::Next
                    },
                    _ => {
                        proof {
                            assert(forall|rr: u8|
                                step_spec(pre, rr) == Err::<EngineView, VmError>(
                                    VmError::Unrecognized(opcode),
                                ));
                        }
                        return Err(VmError::Unrecognized(opcode));
                    },
                }
            },
            0x9 => {
                let out = ProgramCounter::skip_when(self.v[x] != self.v[y]);
                proof {
                    assert(step_arm(pre, rnd_g) == Ok::<(EngineView, ProgramCounter), VmError>(
                        (self@, out),
                    ));
                }
                out
            },
            0xA => {
                self.i = cycle.nnn;
                proof {
                    assert(step_arm(pre, rnd_g) == Ok::<(EngineView, ProgramCounter), VmError>(
                        (self@, ProgramCounter::Next),
                    ));
                }
                ProgramCounter::Next
            },
            0xB => {
                let target: u16 = cycle.nnn + (self.v[0] as u16);
                proof {
                    assert(step_arm(pre, rnd_g) == Ok::<(EngineView, ProgramCounter), VmError>(
                        (self@, ProgramCounter::Jump(target)),
                    ));
                }
                ProgramCounter::Jump(target)
            },
            0xC => {
                let rb: u8 = random_byte();
                proof {
                    rnd_g = rb;
                }
                self.v.set(x, rb & kk);
                proof {
                    assert(step_arm(pre, rnd_g) == Ok::<(EngineView, ProgramCounter), VmError>(
                        (self@, ProgramCounter::Next),
                    ));
                }
                ProgramCounter::Next
            },
            0xD => {
                self.op_draw(x, y, cycle.n);
                proof {
                    assert(step_arm(pre, rnd_g) == Ok::<(EngineView, ProgramCounter), VmError>(
                        (self@, ProgramCounter::Next),
                    ));
                }
                ProgramCounter::Next
            },
            0xE => {
                if kk == 0x9E {
                    let vxv: u8 = self.v[x];
                    proof {
                        lemma_low_nibble(vxv);
                    }
                    let out = ProgramCounter::skip_when(self.key[(vxv & 0xF) as usize]);
                    proof {
                        assert(step_arm(pre, rnd_g) == Ok::<(EngineView, ProgramCounter), VmError>(
                            (self@, out),
                        ));
                    }
                    out
                } else if kk == 0xA1 {
                    let vxv: u8 = self.v[x];
                    proof {
                        lemma_low_nibble(vxv);
                    }
                    let out = ProgramCounter::skip_when(!self.key[(vxv & 0xF) as usize]);
                    proof {
                        assert(step_arm(pre, rnd_g) == Ok::<(EngineView, ProgramCounter), VmError>(
                            (self@, out),
                        ));
                    }
                    out
                } else {
                    proof {
                        assert(forall|rr: u8|
                            step_spec(pre, rr) == Err::<EngineView, VmError>(
                                VmError::Unrecognized(opcode),
                            ));
                    }
                    return Err(VmError::Unrecognized(opcode));
                }
            },
            0xF => {
                if kk == 0x07 {
                    let t: u8 = self.delay_timer;
                    self.v.set(x, t);
                    proof {
                        assert(step_arm(pre, rnd_g) == Ok::<(EngineView, ProgramCounter), VmError>(
                            (self@, ProgramCounter::Next),
                        ));
                    }
                    ProgramCounter::Next
                } else if kk == 0x0A {
                    self.waiting_for_input = true;
                    self.pending_register = x as u8;
                    proof {
                        assert(step_arm(pre, rnd_g) == Ok::<(EngineView, ProgramCounter), VmError>(
                            (self@, ProgramCounter::Next),
                        ));
                    }
                    ProgramCounter::Next
                } else if kk == 0x15 {
                    self.delay_timer = self.v[x];
                    proof {
                        assert(step_arm(pre, rnd_g) == Ok::<(EngineView, ProgramCounter), VmError>(
                            (self@, ProgramCounter::Next),
                        ));
                    }
                    ProgramCounter::Next
                } else if kk == 0x18 {
                    self.sound_timer = self.v[x];
                    proof {
                        assert(step_arm(pre, rnd_g) == Ok::<(EngineView, ProgramCounter), VmError>(
                            (self@, ProgramCounter::Next),
                        ));
                    }
                    ProgramCounter::Next
                } else if kk == 0x1E {
                    let sum: u32 = (self.i as u32) + (self.v[x] as u32);
                    self.i = (sum % 0x10000) as u16;
                    let flag: u8 = if sum > 0xFFF {
                        1
                    } else {
                        0
                    };
                    self.v.set(15, flag);
                    proof {
                        assert(step_arm(pre, rnd_g) == Ok::<(EngineView, ProgramCounter), VmError>(
                            (self@, ProgramCounter::Next),
                        ));
                    }
                    ProgramCounter::Next
                } else if kk == 0x29 {
                    self.i = (self.v[x] as u16) * 5;
                    proof {
                        assert(step_arm(pre, rnd_g) == Ok::<(EngineView, ProgramCounter), VmError>(
                            (self@, ProgramCounter::Next),
                        ));
                    }
                    ProgramCounter::Next
                } else if kk == 0x33 {
                    self.op_bcd(x);
                    proof {
                        assert(step_arm(pre, rnd_g) == Ok::<(EngineView, ProgramCounter), VmError>(
                            (self@, ProgramCounter::Next),
                        ));
                    }
                    ProgramCounter::Next
                } else if kk == 0x55 {
                    self.op_dump(x);
                    proof {
                        assert(step_arm(pre, rnd_g) == Ok::<(EngineView, ProgramCounter), VmError>(
                            (self@, ProgramCounter::Next),
                        ));
                    }
                    ProgramCounter::Next
                } else if kk == 0x65 {
                    self.op_load(x);
                    proof {
                        assert(step_arm(pre, rnd_g) == Ok::<(EngineView, ProgramCounter), VmError>(
                            (self@, ProgramCounter::Next),
                        ));
                    }
                    ProgramCounter::Next
                } else {
                    proof {
                        assert(forall|rr: u8|
                            step_spec(pre, rr) == Err::<EngineView, VmError>(
                                VmError::Unrecognized(opcode),
                            ));
                    }
                    return Err(VmError::Unrecognized(opcode));
                }
            },
            _ => {
                proof {
                    assert(false);
                }
                unreached()
            },
        };
        proof {
            assert(step_arm(pre, rnd_g) == Ok::<(EngineView, ProgramCounter), VmError>(
                (self@, next_pc),
            ));
            assert(!(next_pc is Unknown));
            assert(self.pc == pre.pc && self.pc < 4096);
        }
        let ghost mid: EngineView = self@;
        let resolved: u16 = next_pc.resolve(self.pc);
        self.pc = resolved % 4096;
        proof {
            assert(self@ =~= commit(mid, next_pc));
            assert(step_spec(pre, rnd_g) == Ok::<EngineView, VmError>(self@));
            assert(self@.wf());
        }
        Ok(())
    }
}

} // verus!
