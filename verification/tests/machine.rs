use chip8::engine::{CPUCycle, Engine};
use chip8::program_counter::ProgramCounter;
use chip8::semantics::VmError;
use chip8::Js;

fn boot(program: &[u8]) -> Engine {
    let mut e = Engine::new(false);
    e.read_font();
    e.read_game(&program.to_vec());
    e
}

fn run(e: &mut Engine, steps: usize) {
    for _ in 0..steps {
        e.cycle().unwrap();
    }
}

#[test]
fn load_then_add_immediate() {
    // Set V0 = 5, then add 3: after two steps V0 = 8 and the counter has
    // moved past both instructions.
    let mut e = boot(&[0x60, 0x05, 0x70, 0x03]);
    run(&mut e, 2);
    assert_eq!(e.get_v(0), 8);
    assert_eq!(e.get_pc(), 0x204);
}

#[test]
fn draw_font_glyph_zero() {
    // Point I at the pre-loaded glyph "0" (at address 0) and draw its five
    // rows at (V0, V1) = (0, 0): the display shows the glyph pattern
    // F0 90 90 90 F0 and no collision is reported.
    let mut e = boot(&[0xA0, 0x00, 0xD0, 0x05]);
    run(&mut e, 2);
    let glyph: [u8; 5] = [0xF0, 0x90, 0x90, 0x90, 0xF0];
    for (row, bits) in glyph.iter().enumerate() {
        for col in 0..8 {
            let expected = (bits >> (7 - col)) & 1 == 1;
            assert_eq!(e.pixel(col, row), expected);
        }
    }
    assert_eq!(e.get_v(0xF), 0);
    assert!(e.waiting_for_draw);
}

#[test]
fn add_with_carry_sets_flag() {
    // 200 + 100 = 300: V0 takes 44 and VF reports the carry.
    let mut e = boot(&[0x60, 0xC8, 0x61, 0x64, 0x80, 0x14]);
    run(&mut e, 3);
    assert_eq!(e.get_v(0), 44);
    assert_eq!(e.get_v(0xF), 1);
}

#[test]
fn add_without_carry_clears_flag() {
    let mut e = boot(&[0x60, 0x01, 0x61, 0x02, 0x80, 0x14]);
    run(&mut e, 3);
    assert_eq!(e.get_v(0), 3);
    assert_eq!(e.get_v(0xF), 0);
}

#[test]
fn add_immediate_wraps_without_flag() {
    // The immediate add truncates silently: no carry flag on this form.
    let mut e = boot(&[0x60, 0xFF, 0x70, 0x02]);
    run(&mut e, 2);
    assert_eq!(e.get_v(0), 1);
    assert_eq!(e.get_v(0xF), 0);
}

#[test]
fn subtract_no_borrow() {
    // V0 = 10, V1 = 3: V0 - V1 = 7 exactly, VF = 1 (no borrow).
    let mut e = boot(&[0x60, 0x0A, 0x61, 0x03, 0x80, 0x15]);
    run(&mut e, 3);
    assert_eq!(e.get_v(0), 7);
    assert_eq!(e.get_v(0xF), 1);
}

#[test]
fn subtract_with_borrow_wraps() {
    // V0 = 3, V1 = 10: V0 - V1 wraps to 249, VF = 0 (borrow).
    let mut e = boot(&[0x60, 0x03, 0x61, 0x0A, 0x80, 0x15]);
    run(&mut e, 3);
    assert_eq!(e.get_v(0), 249);
    assert_eq!(e.get_v(0xF), 0);
}

#[test]
fn subtract_flag_asymmetry() {
    // Documented ambiguity of this instruction set: the two subtract forms
    // use different flag conventions. With Vx = 5, Vy = 3:
    // - Vx - Vy (no borrow) sets VF = 1;
    // - the reverse form computes Vy - Vx = -2, and because the signed
    //   difference is negative it ALSO sets VF = 1, although here a borrow
    //   did occur. The asymmetry is preserved, not "fixed".
    let mut e = boot(&[0x60, 0x05, 0x61, 0x03, 0x80, 0x15]);
    run(&mut e, 3);
    assert_eq!(e.get_v(0), 2);
    assert_eq!(e.get_v(0xF), 1);

    let mut e2 = boot(&[0x60, 0x05, 0x61, 0x03, 0x80, 0x17]);
    run(&mut e2, 3);
    assert_eq!(e2.get_v(0), 254); // low 8 bits of -2
    assert_eq!(e2.get_v(0xF), 1); // negative signed difference
}

#[test]
fn reverse_subtract_positive_difference() {
    // Vy - Vx with Vy > Vx: positive difference, VF = 0.
    let mut e = boot(&[0x60, 0x03, 0x61, 0x0A, 0x80, 0x17]);
    run(&mut e, 3);
    assert_eq!(e.get_v(0), 7);
    assert_eq!(e.get_v(0xF), 0);
}

#[test]
fn clear_screen_unlights_everything() {
    // Draw the glyph, then clear: every cell of the display reads unlit.
    let mut e = boot(&[0xA0, 0x00, 0xD0, 0x05, 0x00, 0xE0]);
    run(&mut e, 3);
    for py in 0..32 {
        for px in 0..64 {
            assert!(!e.pixel(px, py));
        }
    }
    assert!(e.waiting_for_draw);
}

#[test]
fn draw_twice_restores_display() {
    // Drawing the same sprite at the same anchor twice is the identity on
    // the display, and the second draw reports VF = 1 exactly because the
    // first draw lit new cells.
    let mut e = boot(&[0xA2, 0x06, 0xD0, 0x02, 0xD0, 0x02, 0xAA, 0x55]);
    run(&mut e, 2);
    assert_eq!(e.get_v(0xF), 0);
    assert!(e.pixel(0, 0));
    run(&mut e, 1);
    assert_eq!(e.get_v(0xF), 1);
    for py in 0..32 {
        for px in 0..64 {
            assert!(!e.pixel(px, py));
        }
    }
}

#[test]
fn draw_wraps_around_edges() {
    // Anchored at column 62, row 31: the sprite wraps to column 0 and row 0.
    let mut e = boot(&[0x60, 0x3E, 0x61, 0x1F, 0xA2, 0x08, 0xD0, 0x12, 0xFF, 0x00]);
    run(&mut e, 4);
    assert!(e.pixel(62, 31));
    assert!(e.pixel(63, 31));
    assert!(e.pixel(0, 31));
    assert!(e.pixel(5, 31));
    assert!(!e.pixel(6, 31));
    assert!(!e.pixel(62, 0));
}

#[test]
fn draw_from_program_image() {
    // Point I at the program base itself and draw five rows: the display
    // shows the program's own bytes A2 00 D0 05 00, MSB leftmost, with no
    // collision on the fresh display.
    let mut e = boot(&[0xA2, 0x00, 0xD0, 0x05]);
    run(&mut e, 2);
    let rows: [u8; 5] = [0xA2, 0x00, 0xD0, 0x05, 0x00];
    for (row, bits) in rows.iter().enumerate() {
        for col in 0..8 {
            let expected = (bits >> (7 - col)) & 1 == 1;
            assert_eq!(e.pixel(col, row), expected);
        }
    }
    assert_eq!(e.get_v(0xF), 0);
    assert_eq!(e.get_pc(), 0x204);
    assert!(e.waiting_for_draw);
}

#[test]
fn call_then_return() {
    // Call from 0x200 to 0x206, then return: the counter comes back to the
    // call site plus one instruction and the stack pointer to its old value.
    let mut e = boot(&[0x22, 0x06, 0x00, 0x00, 0x00, 0x00, 0x00, 0xEE]);
    run(&mut e, 1);
    assert_eq!(e.get_pc(), 0x206);
    assert_eq!(e.get_sp(), 1);
    run(&mut e, 1);
    assert_eq!(e.get_pc(), 0x202);
    assert_eq!(e.get_sp(), 0);
}

#[test]
fn sixteen_nested_calls_then_defined_overflow() {
    // Sixteen nested calls fill the stack; the seventeenth is a defined
    // stack-overflow failure that leaves the machine untouched.
    let mut program: Vec<u8> = Vec::new();
    for k in 0..17u16 {
        let target = 0x202 + 2 * k;
        program.push(0x22);
        program.push((target & 0xFF) as u8);
    }
    let mut e = boot(&program);
    for _ in 0..16 {
        assert!(e.cycle().is_ok());
    }
    assert_eq!(e.get_sp(), 16);
    let pc_before = e.get_pc();
    assert_eq!(e.cycle(), Err(VmError::StackOverflow));
    assert_eq!(e.get_sp(), 16);
    assert_eq!(e.get_pc(), pc_before);
}

#[test]
fn return_on_empty_stack_is_defined_underflow() {
    let mut e = boot(&[0x00, 0xEE]);
    assert_eq!(e.cycle(), Err(VmError::StackUnderflow));
    assert_eq!(e.get_pc(), 0x200);
    assert_eq!(e.get_sp(), 0);
}

#[test]
fn unrecognized_opcodes_are_fatal() {
    let mut e = boot(&[0x00, 0x00]);
    assert_eq!(e.cycle(), Err(VmError::Unrecognized(0x0000)));
    assert_eq!(e.get_pc(), 0x200);

    let mut e2 = boot(&[0x80, 0x08]);
    assert_eq!(e2.cycle(), Err(VmError::Unrecognized(0x8008)));

    let mut e3 = boot(&[0xE0, 0x00]);
    assert_eq!(e3.cycle(), Err(VmError::Unrecognized(0xE000)));

    let mut e4 = boot(&[0xF0, 0xFF]);
    assert_eq!(e4.cycle(), Err(VmError::Unrecognized(0xF0FF)));
}

#[test]
fn register_dump_then_load_round_trips() {
    // Dump V0..V2 at I = 0x300 (I advances past the range), reset I, zero
    // the registers, load V0..V2 back: the values round-trip exactly and
    // the load leaves I unchanged.
    let mut e = boot(&[
        0x60, 0x0B, 0x61, 0x16, 0x62, 0x21, // V0=11, V1=22, V2=33
        0xA3, 0x00, 0xF2, 0x55, // I=0x300, dump V0..V2
        0x60, 0x00, 0x61, 0x00, 0x62, 0x00, // zero them
        0xA3, 0x00, 0xF2, 0x65, // I=0x300, load V0..V2
    ]);
    run(&mut e, 5);
    assert_eq!(e.mem_at(0x300), 11);
    assert_eq!(e.mem_at(0x301), 22);
    assert_eq!(e.mem_at(0x302), 33);
    assert_eq!(e.get_i(), 0x303);
    run(&mut e, 5);
    assert_eq!(e.get_v(0), 11);
    assert_eq!(e.get_v(1), 22);
    assert_eq!(e.get_v(2), 33);
    assert_eq!(e.get_i(), 0x300);
}

#[test]
fn skip_equal_immediate() {
    let mut taken = boot(&[0x60, 0x07, 0x30, 0x07]);
    run(&mut taken, 2);
    assert_eq!(taken.get_pc(), 0x206);

    let mut not_taken = boot(&[0x60, 0x07, 0x30, 0x08]);
    run(&mut not_taken, 2);
    assert_eq!(not_taken.get_pc(), 0x204);
}

#[test]
fn skip_not_equal_immediate() {
    let mut taken = boot(&[0x60, 0x07, 0x40, 0x08]);
    run(&mut taken, 2);
    assert_eq!(taken.get_pc(), 0x206);

    let mut not_taken = boot(&[0x60, 0x07, 0x40, 0x07]);
    run(&mut not_taken, 2);
    assert_eq!(not_taken.get_pc(), 0x204);
}

#[test]
fn skip_on_register_comparison() {
    let mut eq = boot(&[0x60, 0x05, 0x61, 0x05, 0x50, 0x10]);
    run(&mut eq, 3);
    assert_eq!(eq.get_pc(), 0x208);

    let mut ne = boot(&[0x60, 0x05, 0x61, 0x06, 0x90, 0x10]);
    run(&mut ne, 3);
    assert_eq!(ne.get_pc(), 0x208);

    let mut ne_not_taken = boot(&[0x60, 0x05, 0x61, 0x05, 0x90, 0x10]);
    run(&mut ne_not_taken, 3);
    assert_eq!(ne_not_taken.get_pc(), 0x206);
}

#[test]
fn register_copy_and_bitwise_ops() {
    let mut cp = boot(&[0x61, 0x2A, 0x80, 0x10]);
    run(&mut cp, 2);
    assert_eq!(cp.get_v(0), 0x2A);

    let mut or = boot(&[0x60, 0xF0, 0x61, 0x0F, 0x80, 0x11]);
    run(&mut or, 3);
    assert_eq!(or.get_v(0), 0xFF);

    let mut and = boot(&[0x60, 0xF6, 0x61, 0x0F, 0x80, 0x12]);
    run(&mut and, 3);
    assert_eq!(and.get_v(0), 0x06);

    let mut xor = boot(&[0x60, 0xFF, 0x61, 0x0F, 0x80, 0x13]);
    run(&mut xor, 3);
    assert_eq!(xor.get_v(0), 0xF0);
}

#[test]
fn shifts_capture_shifted_out_bit() {
    let mut shr = boot(&[0x60, 0x05, 0x80, 0x06]);
    run(&mut shr, 2);
    assert_eq!(shr.get_v(0), 2);
    assert_eq!(shr.get_v(0xF), 1);

    let mut shl = boot(&[0x60, 0x81, 0x80, 0x0E]);
    run(&mut shl, 2);
    assert_eq!(shl.get_v(0), 2);
    assert_eq!(shl.get_v(0xF), 1);
}

#[test]
fn jumps_direct_and_with_offset() {
    let mut jp = boot(&[0x13, 0x45]);
    run(&mut jp, 1);
    assert_eq!(jp.get_pc(), 0x345);

    let mut jo = boot(&[0x60, 0x04, 0xB3, 0x00]);
    run(&mut jo, 2);
    assert_eq!(jo.get_pc(), 0x304);
}

#[test]
fn set_index_and_add_to_index() {
    let mut e = boot(&[0xA0, 0x10, 0x60, 0x05, 0xF0, 0x1E]);
    run(&mut e, 3);
    assert_eq!(e.get_i(), 0x15);
    assert_eq!(e.get_v(0xF), 0);
}

#[test]
fn add_to_index_flags_twelve_bit_overflow() {
    // I = 0xFFF plus 2 exceeds the 12-bit range: VF = 1 and I keeps the
    // true sum; a following memory access through I wraps at use, so the
    // BCD digits of V0 = 2 land at 0x1001 mod 4096 = 1 and onward.
    let mut e = boot(&[0xAF, 0xFF, 0x60, 0x02, 0xF0, 0x1E, 0xF0, 0x33]);
    run(&mut e, 3);
    assert_eq!(e.get_v(0xF), 1);
    assert_eq!(e.get_i(), 0x1001);
    run(&mut e, 1);
    assert_eq!(e.mem_at(1), 0);
    assert_eq!(e.mem_at(2), 0);
    assert_eq!(e.mem_at(3), 2);
}

#[test]
fn font_character_address() {
    // Each glyph is five bytes, so the glyph for 0xA starts at 50.
    let mut e = boot(&[0x60, 0x0A, 0xF0, 0x29]);
    run(&mut e, 2);
    assert_eq!(e.get_i(), 50);
}

#[test]
fn store_bcd_digits() {
    let mut e = boot(&[0x60, 0xFE, 0xA3, 0x00, 0xF0, 0x33]);
    run(&mut e, 3);
    assert_eq!(e.mem_at(0x300), 2);
    assert_eq!(e.mem_at(0x301), 5);
    assert_eq!(e.mem_at(0x302), 4);
    assert_eq!(e.get_i(), 0x300);
}

#[test]
fn timers_set_and_read() {
    let mut e = boot(&[0x60, 0x30, 0xF0, 0x15, 0xF0, 0x18, 0xF1, 0x07]);
    run(&mut e, 4);
    assert_eq!(e.get_delay_timer(), 0x30);
    assert_eq!(e.get_sound_timer(), 0x30);
    assert_eq!(e.get_v(1), 0x30);
}

#[test]
fn skip_on_key_state() {
    let mut down = boot(&[0x60, 0x04, 0xE0, 0x9E]);
    down.set_key(4, true);
    run(&mut down, 2);
    assert_eq!(down.get_pc(), 0x206);

    let mut up = boot(&[0x60, 0x04, 0xE0, 0x9E]);
    run(&mut up, 2);
    assert_eq!(up.get_pc(), 0x204);

    let mut not_pressed = boot(&[0x60, 0x04, 0xE0, 0xA1]);
    run(&mut not_pressed, 2);
    assert_eq!(not_pressed.get_pc(), 0x206);
}

#[test]
fn wait_for_key_raises_flag_and_supply_fills_register() {
    let mut e = boot(&[0xF3, 0x0A]);
    run(&mut e, 1);
    assert!(e.waiting_for_input);
    // Nothing reaches V3 until the host supplies the key it waited for.
    assert_eq!(e.get_v(3), 0);
    e.supply_key(7);
    assert!(!e.waiting_for_input);
    assert_eq!(e.pressed_key, 7);
    assert_eq!(e.get_v(3), 7);
    // A key supplied while nothing is pending only updates the record.
    e.supply_key(9);
    assert_eq!(e.pressed_key, 9);
    assert_eq!(e.get_v(3), 7);
}

#[test]
fn random_and_masks_to_immediate() {
    // Whatever byte the random source hands back, the AND mask holds.
    let mut e = boot(&[0xC0, 0x0F]);
    run(&mut e, 1);
    assert_eq!(e.get_v(0) & 0xF0, 0);
}

#[test]
fn fresh_machine_state() {
    let e = Engine::new(true);
    assert_eq!(e.get_pc(), 0x200);
    assert_eq!(e.get_i(), 0);
    assert_eq!(e.get_sp(), 0);
    assert_eq!(e.pressed_key, 2);
    assert!(!e.waiting_for_input);
    assert!(!e.waiting_for_draw);
    assert!(e.draw_flag);
    for r in 0..16 {
        assert_eq!(e.get_v(r), 0);
    }
}

#[test]
fn clear_rewinds_counter_but_keeps_memory() {
    let mut e = boot(&[0x60, 0x05, 0xA3, 0x00]);
    run(&mut e, 2);
    assert_eq!(e.get_i(), 0x300);
    e.clear();
    assert_eq!(e.get_pc(), 0x200);
    assert_eq!(e.get_i(), 0);
    assert_eq!(e.get_sp(), 0);
    assert_eq!(e.mem_at(0x200), 0x60);
    assert_eq!(e.get_v(0), 5);
}

#[test]
fn font_is_loaded_at_bottom_of_memory() {
    let e = boot(&[]);
    assert_eq!(e.mem_at(0), 0xF0);
    assert_eq!(e.mem_at(4), 0xF0);
    assert_eq!(e.mem_at(79), 0x80);
}

#[test]
fn program_counter_resolution() {
    assert_eq!(ProgramCounter::skip_when(true), ProgramCounter::Skip);
    assert_eq!(ProgramCounter::skip_when(false), ProgramCounter::Next);
    assert_eq!(ProgramCounter::Next.resolve(0x200), 0x202);
    assert_eq!(ProgramCounter::Skip.resolve(0x200), 0x204);
    assert_eq!(ProgramCounter::Jump(0x123).resolve(0x200), 0x123);
}

#[test]
fn cycle_fields_decode_immediate() {
    let c = CPUCycle { opcode: 0xABCD, nnn: 0xBCD, nn: 0xCD, n: 0xD, x: 0xB, y: 0xC };
    assert_eq!(c.get_kk(), 0xCD);
}

#[test]
fn host_handle_runs_the_machine() {
    let mut js = Js::new();
    js.engine_init(&vec![0x60, 0x05, 0x70, 0x03]);
    assert_eq!(js.engine.mem_at(0), 0xF0);
    assert_eq!(js.engine.mem_at(0x200), 0x60);
    js.engine_cycle().unwrap();
    js.engine_cycle().unwrap();
    assert_eq!(js.engine.get_v(0), 8);
    assert_eq!(js.engine.get_pc(), 0x204);
    js.send_input(0xB);
    assert_eq!(js.engine.pressed_key, 0xB);
    assert!(!js.engine.waiting_for_input);
    // Initializing again resets counter, registers, index and stack
    // pointer while the loaded memory stays.
    js.engine_init(&vec![0x60, 0x05, 0x70, 0x03]);
    assert_eq!(js.engine.get_pc(), 0x200);
    assert_eq!(js.engine.get_i(), 0);
    assert_eq!(js.engine.get_sp(), 0);
    for r in 0..16 {
        assert_eq!(js.engine.get_v(r), 0);
    }
    assert_eq!(js.engine.mem_at(0x200), 0x60);
}
