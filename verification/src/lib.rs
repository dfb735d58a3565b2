//! A verified interpreter core for an 8-bit two-byte-instruction virtual
//! machine: 4096 bytes of memory, sixteen 8-bit registers, a 64x32 one-bit
//! display, a sixteen-entry call stack, two countdown timers and a
//! sixteen-key input pad. The engine executes one instruction per `cycle`
//! call; loading a program image from disk and presenting the display are
//! left to the host around the library.

use vstd::prelude::*;

pub mod program_counter;
pub mod engine;
pub mod font;
pub mod laws;
pub mod semantics;

use crate::engine::Engine;
use crate::font::FONT_SET;
use crate::semantics::{initial_view, load_at, step_spec, EngineView, VmError};

verus! {

/// Display width in pixels.
pub const WIDTH: usize = 64;

/// Display height in pixels.
pub const HEIGHT: usize = 32;

/// A thin host-facing handle around the engine, for embedders that drive
/// the machine one step at a time and feed key input back in.
pub struct Js {
    pub engine: Engine,
}

impl Js {
    /// A handle around a fresh machine with rendering left to the host.
    pub fn new() -> (r: Js)
        ensures
            r.engine@ == initial_view(false),
    {
        Js { engine: Engine::new(false) }
    }

    /// Bring the machine up: the glyph table goes into the reserved low
    /// region of memory, the program image starts at the program base, the
    /// counter returns to that base, and registers, index register and
    /// stack pointer are zeroed. The display is left as it is — callers
    /// decide whether a fresh display is wanted.
    pub fn engine_init(&mut self, program: &Vec<u8>)
        requires
            old(self).engine@.wf(),
            program@.len() <= 4096 - 512,
        ensures
            final(self).engine@ == (EngineView {
                memory: load_at(
                    load_at(old(self).engine@.memory, FONT_SET@, 0),
                    program@,
                    512,
                ),
                v: Seq::new(16, |j: int| 0u8),
                pc: 0x200,
                i: 0,
                sp: 0,
                ..old(self).engine@
            }),
    {
        self.engine.read_font();
        self.engine.read_game(program);
        self.engine.clear();
        self.engine.zero_registers();
    }

    /// Execute one instruction; see `Engine::cycle`.
    pub fn engine_cycle(&mut self) -> (r: Result<(), VmError>)
        requires
            old(self).engine@.wf(),
        ensures
            final(self).engine@.wf(),
            r is Ok ==> exists|rnd: u8|
                #[trigger] step_spec(old(self).engine@, rnd) == Ok::<EngineView, VmError>(
                    final(self).engine@,
                ),
            r is Err ==> final(self).engine@ == old(self).engine@ && forall|rnd: u8|
                #[trigger] step_spec(old(self).engine@, rnd) == Err::<EngineView, VmError>(
                    r->Err_0,
                ),
    {
        self.engine.cycle()
    }

    /// Supply the machine with the key a pending wait-for-key asked for:
    /// the value reaches the register that instruction named and the
    /// awaiting-input condition is cleared.
    pub fn send_input(&mut self, input_key: u8)
        requires
            old(self).engine@.wf(),
        ensures
            final(self).engine@ == (EngineView {
                pressed_key: input_key,
                waiting_for_input: false,
                v: if old(self).engine@.waiting_for_input {
                    old(self).engine@.v.update(
                        old(self).engine@.pending_register as int,
                        input_key,
                    )
                } else {
                    old(self).engine@.v
                },
                ..old(self).engine@
            }),
    {
        self.engine.supply_key(input_key);
    }
}

} // verus!
