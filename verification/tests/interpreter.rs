//! Behavioral tests of the interpreter: opcode semantics, faults, timers,
//! and the fetch-decode-execute cycle.

use chip8::cycle::CycleOutcome;
use chip8::machine::timer_tick_due;
use chip8::machine::Machine;
use chip8::ops::Fault;

fn no_keys() -> Vec<bool> {
    vec![false; 16]
}

#[test]
fn cls_clears_every_cell() {
    let mut m = Machine::new();
    // Light some pixels first: sprite 0xFF at (0, 0), read from the program
    // region.
    m.load_program(&vec![0xFF, 0xFF]);
    m.set_index_register(2, 0, 0);
    assert_eq!(m.draw_sprite(0, 1, 2), Ok(()));
    assert!(m.pixel(0, 0));
    // Execute CLS through a full cycle: 00E0 fetched at 0x202.
    m.jump_to_address(2, 0, 2);
    m.load_program(&vec![0xFF, 0xFF, 0x00, 0xE0]);
    assert_eq!(m.step(&no_keys(), 0), Ok(CycleOutcome::Executed));
    for row in 0..32 {
        for col in 0..64 {
            assert!(!m.pixel(row, col));
        }
    }
}

#[test]
fn jump_sets_pc_to_encoded_target() {
    let mut m = Machine::new();
    m.jump_to_address(0xA, 0xB, 0xC);
    assert_eq!(m.get_pc(), 0xABC);
    // Independent of the prior counter value.
    m.jump_to_address(0x3, 0x0, 0x0);
    assert_eq!(m.get_pc(), 0x300);
    // Through a fetched 1nnn instruction.
    let mut m2 = Machine::new();
    m2.load_program(&vec![0x12, 0x34]);
    assert_eq!(m2.step(&no_keys(), 0), Ok(CycleOutcome::Executed));
    assert_eq!(m2.get_pc(), 0x234);
}

#[test]
fn call_then_return_round_trip() {
    let mut m = Machine::new();
    // 0x200: 2300 (call 0x300); 0x300: 00EE (return).
    let mut program = vec![0x23, 0x00];
    program.resize(0x100, 0x00);
    program.push(0x00);
    program.push(0xEE);
    m.load_program(&program);
    assert_eq!(m.step(&no_keys(), 0), Ok(CycleOutcome::Executed));
    assert_eq!(m.get_pc(), 0x300);
    assert_eq!(m.stack_depth(), 1);
    assert_eq!(m.step(&no_keys(), 0), Ok(CycleOutcome::Executed));
    // Back to the address just past the call instruction.
    assert_eq!(m.get_pc(), 0x202);
    assert_eq!(m.stack_depth(), 0);
}

#[test]
fn add_with_carry_flag() {
    let mut m = Machine::new();
    m.set_register(1, 0xF, 0xA); // V1 = 250
    m.set_register(2, 0x0, 0xA); // V2 = 10
    assert!(m.register_operation(1, 2, 4));
    assert_eq!(m.get_register(1), 4);
    assert_eq!(m.get_register(15), 1);
    m.set_register(1, 0, 1);
    m.set_register(2, 0, 1);
    assert!(m.register_operation(1, 2, 4));
    assert_eq!(m.get_register(1), 2);
    assert_eq!(m.get_register(15), 0);
}

#[test]
fn subtract_with_borrow_flag() {
    let mut m = Machine::new();
    m.set_register(1, 0, 5); // V1 = 5
    m.set_register(2, 0, 0xA); // V2 = 10
    assert!(m.register_operation(1, 2, 5));
    assert_eq!(m.get_register(1), 251);
    assert_eq!(m.get_register(15), 0);
    m.set_register(1, 0, 0xA); // V1 = 10
    m.set_register(2, 0, 5); // V2 = 5
    assert!(m.register_operation(1, 2, 5));
    assert_eq!(m.get_register(1), 5);
    assert_eq!(m.get_register(15), 1);
}

#[test]
fn subtract_reversed_with_borrow_flag() {
    let mut m = Machine::new();
    m.set_register(1, 0, 5); // V1 = 5
    m.set_register(2, 0, 0xA); // V2 = 10
    assert!(m.register_operation(1, 2, 7)); // V1 = V2 - V1 = 5
    assert_eq!(m.get_register(1), 5);
    assert_eq!(m.get_register(15), 1);
    m.set_register(1, 0, 0xA);
    m.set_register(2, 0, 5);
    assert!(m.register_operation(1, 2, 7)); // V1 = 5 - 10 = 251
    assert_eq!(m.get_register(1), 251);
    assert_eq!(m.get_register(15), 0);
}

#[test]
fn bitwise_operations() {
    let mut m = Machine::new();
    m.set_register(1, 0xC, 0x3); // V1 = 0xC3
    m.set_register(2, 0xA, 0x5); // V2 = 0xA5
    assert!(m.register_operation(1, 2, 1)); // OR
    assert_eq!(m.get_register(1), 0xE7);
    m.set_register(1, 0xC, 0x3);
    assert!(m.register_operation(1, 2, 2)); // AND
    assert_eq!(m.get_register(1), 0x81);
    m.set_register(1, 0xC, 0x3);
    assert!(m.register_operation(1, 2, 3)); // XOR
    assert_eq!(m.get_register(1), 0x66);
    assert!(m.register_operation(1, 2, 0)); // load
    assert_eq!(m.get_register(1), 0xA5);
}

#[test]
fn shifts_read_register_y() {
    let mut m = Machine::new();
    m.set_register(2, 0, 5); // V2 = 5
    assert!(m.register_operation(1, 2, 6)); // V1 = V2 >> 1
    assert_eq!(m.get_register(1), 2);
    assert_eq!(m.get_register(15), 1);
    m.set_register(2, 8, 1); // V2 = 0x81
    assert!(m.register_operation(1, 2, 0xE)); // V1 = V2 << 1
    assert_eq!(m.get_register(1), 2);
    assert_eq!(m.get_register(15), 1);
    m.set_register(2, 0, 2);
    assert!(m.register_operation(1, 2, 0xE));
    assert_eq!(m.get_register(1), 4);
    assert_eq!(m.get_register(15), 0);
}

#[test]
fn unknown_alu_selector_changes_nothing() {
    let mut m = Machine::new();
    m.set_register(1, 0, 7);
    assert!(!m.register_operation(1, 2, 0x9));
    assert_eq!(m.get_register(1), 7);
    assert_eq!(m.get_register(15), 0);
}

#[test]
fn add_immediate_wraps_without_flag() {
    let mut m = Machine::new();
    m.set_register(1, 0xF, 0xF); // V1 = 255
    m.set_register(15, 0, 1); // VF = 1, must be preserved
    m.add_register(1, 0, 2); // V1 = 255 + 2 = 1 (mod 256)
    assert_eq!(m.get_register(1), 1);
    assert_eq!(m.get_register(15), 1);
}

#[test]
fn sprite_drawn_twice_collides_and_clears() {
    let mut m = Machine::new();
    m.load_program(&vec![0xFF]);
    m.set_index_register(2, 0, 0); // sprite at 0x200
    m.set_register(0, 0, 4); // x = 4
    m.set_register(1, 0, 2); // y = 2
    assert_eq!(m.draw_sprite(0, 1, 1), Ok(()));
    assert_eq!(m.get_register(15), 0);
    for col in 4..12 {
        assert!(m.pixel(2, col));
    }
    assert_eq!(m.draw_sprite(0, 1, 1), Ok(()));
    assert_eq!(m.get_register(15), 1);
    for col in 4..12 {
        assert!(!m.pixel(2, col));
    }
}

#[test]
fn sprite_clips_at_display_edges() {
    let mut m = Machine::new();
    m.load_program(&vec![0xFF, 0xFF]);
    m.set_index_register(2, 0, 0);
    m.set_register(0, 3, 0xC); // x = 60
    m.set_register(1, 1, 0xF); // y = 31
    assert_eq!(m.draw_sprite(0, 1, 2), Ok(()));
    assert_eq!(m.get_register(15), 0);
    // Only the first row's four leftmost sprite bits land on the display.
    for col in 60..64 {
        assert!(m.pixel(31, col));
    }
    // Nothing wrapped to row 0 or column 0.
    for col in 0..64 {
        assert!(!m.pixel(0, col));
    }
    for row in 0..31 {
        assert!(!m.pixel(row, 0));
    }
}

#[test]
fn sprite_outside_memory_faults() {
    let mut m = Machine::new();
    m.set_index_register(0xF, 0xF, 0xF); // ir = 0xFFF
    m.set_register(0, 0, 0);
    assert_eq!(m.draw_sprite(0, 0, 2), Err(Fault::MemoryFault));
    assert!(!m.pixel(0, 0));
}

#[test]
fn timers_decay_to_zero_and_stay() {
    let mut m = Machine::new();
    m.set_register(1, 0, 5);
    assert_eq!(m.special_register_operation(1, 1, 5, &no_keys()), Ok(true)); // delay = 5
    assert_eq!(m.get_delay(), 5);
    assert_eq!(m.get_sound(), 0);
    for _ in 0..5 {
        m.decrement_timers();
    }
    assert_eq!(m.get_delay(), 0);
    m.decrement_timers();
    assert_eq!(m.get_delay(), 0);
    assert_eq!(m.get_sound(), 0);
}

#[test]
fn timer_cadence_threshold() {
    assert!(!timer_tick_due(0));
    assert!(!timer_tick_due(16665));
    assert!(timer_tick_due(16666));
    assert!(timer_tick_due(1_000_000));
}

#[test]
fn timer_reads_back_into_register() {
    let mut m = Machine::new();
    m.set_register(1, 0, 7);
    assert_eq!(m.special_register_operation(1, 1, 5, &no_keys()), Ok(true)); // delay = 7
    assert_eq!(m.special_register_operation(2, 0, 7, &no_keys()), Ok(true)); // V2 = delay
    assert_eq!(m.get_register(2), 7);
    assert_eq!(m.special_register_operation(1, 1, 8, &no_keys()), Ok(true)); // sound = 7
    assert_eq!(m.get_sound(), 7);
}

#[test]
fn bcd_decomposition() {
    let mut m = Machine::new();
    m.set_register(3, 0xF, 0xF); // V3 = 255
    m.set_index_register(3, 0, 0); // ir = 0x300
    assert_eq!(m.special_register_operation(3, 3, 3, &no_keys()), Ok(true));
    assert_eq!(m.read_memory(0x300), 2);
    assert_eq!(m.read_memory(0x301), 5);
    assert_eq!(m.read_memory(0x302), 5);
    m.set_register(3, 0, 9); // V3 = 9
    m.set_index_register(3, 1, 0);
    assert_eq!(m.special_register_operation(3, 3, 3, &no_keys()), Ok(true));
    assert_eq!(m.read_memory(0x310), 0);
    assert_eq!(m.read_memory(0x311), 0);
    assert_eq!(m.read_memory(0x312), 9);
}

#[test]
fn bcd_outside_memory_faults() {
    let mut m = Machine::new();
    m.set_index_register(0xF, 0xF, 0xE); // ir = 0xFFE
    assert_eq!(m.special_register_operation(0, 3, 3, &no_keys()), Err(Fault::MemoryFault));
}

#[test]
fn stack_underflow_halts_without_touching_pc() {
    let mut m = Machine::new();
    m.load_program(&vec![0x00, 0xEE]);
    assert_eq!(m.step(&no_keys(), 0), Err(Fault::StackUnderflow));
    // The counter keeps its already-advanced value and nothing else moved.
    assert_eq!(m.get_pc(), 0x202);
    assert_eq!(m.stack_depth(), 0);
}

#[test]
fn unknown_opcode_is_reported_and_skipped() {
    let mut m = Machine::new();
    m.load_program(&vec![0x51, 0x21, 0x00, 0x00]); // 5xy1: no instruction
    assert_eq!(m.step(&no_keys(), 0), Ok(CycleOutcome::UnknownOpcode(5, 1, 2, 1)));
    assert_eq!(m.get_pc(), 0x202);
    // Execution continues with the next instruction.
    assert_eq!(m.step(&no_keys(), 0), Ok(CycleOutcome::Executed));
    assert_eq!(m.get_pc(), 0x204);
}

#[test]
fn all_zero_instruction_is_a_no_op() {
    let mut m = Machine::new();
    assert_eq!(m.step(&no_keys(), 0), Ok(CycleOutcome::Executed));
    assert_eq!(m.get_pc(), 0x202);
}

#[test]
fn fetch_past_memory_end_faults() {
    let mut m = Machine::new();
    m.jump_to_address(0xF, 0xF, 0xF); // pc = 0xFFF: the pair leaves memory
    assert_eq!(m.step(&no_keys(), 0), Err(Fault::MemoryFault));
    assert_eq!(m.get_pc(), 0xFFF);
}

#[test]
fn conditional_skips_on_literals() {
    let mut m = Machine::new();
    m.set_register(1, 2, 0xA); // V1 = 0x2A
    m.skip_instruction_eq_literal(1, 2, 0xA);
    assert_eq!(m.get_pc(), 0x202);
    m.skip_instruction_eq_literal(1, 2, 0xB);
    assert_eq!(m.get_pc(), 0x202);
    m.skip_instruction_ne_literal(1, 2, 0xB);
    assert_eq!(m.get_pc(), 0x204);
    m.skip_instruction_ne_literal(1, 2, 0xA);
    assert_eq!(m.get_pc(), 0x204);
}

#[test]
fn conditional_skips_on_registers() {
    let mut m = Machine::new();
    m.set_register(1, 0, 7);
    m.set_register(2, 0, 7);
    m.skip_instruction_eq_register(1, 2);
    assert_eq!(m.get_pc(), 0x202);
    m.skip_instruction_ne_register(1, 2);
    assert_eq!(m.get_pc(), 0x202);
    m.set_register(2, 0, 8);
    m.skip_instruction_eq_register(1, 2);
    assert_eq!(m.get_pc(), 0x202);
    m.skip_instruction_ne_register(1, 2);
    assert_eq!(m.get_pc(), 0x204);
}

#[test]
fn key_skips_follow_the_snapshot() {
    let mut m = Machine::new();
    let mut keys = no_keys();
    keys[7] = true;
    m.set_register(1, 0, 7); // V1 selects key 7
    m.skip_instruction_key_pressed(&keys, 1);
    assert_eq!(m.get_pc(), 0x202);
    m.skip_instruction_key_not_pressed(&keys, 1);
    assert_eq!(m.get_pc(), 0x202);
    m.set_register(1, 0, 8); // key 8 is up
    m.skip_instruction_key_pressed(&keys, 1);
    assert_eq!(m.get_pc(), 0x202);
    m.skip_instruction_key_not_pressed(&keys, 1);
    assert_eq!(m.get_pc(), 0x204);
}

#[test]
fn key_wait_stalls_until_a_key_is_down() {
    let mut m = Machine::new();
    m.load_program(&vec![0xF1, 0x0A]); // wait for a key into V1
    assert_eq!(m.step(&no_keys(), 0), Ok(CycleOutcome::Executed));
    // No key: the cycle stalls on the same instruction.
    assert_eq!(m.get_pc(), 0x200);
    let mut keys = no_keys();
    keys[5] = true;
    keys[9] = true;
    assert_eq!(m.step(&keys, 0), Ok(CycleOutcome::Executed));
    assert_eq!(m.get_pc(), 0x202);
    assert_eq!(m.get_register(1), 5); // the smallest pressed index
}

#[test]
fn index_register_operations() {
    let mut m = Machine::new();
    m.set_index_register(1, 2, 3);
    assert_eq!(m.get_index_register(), 0x123);
    m.set_register(1, 0, 5);
    assert_eq!(m.special_register_operation(1, 1, 0xE, &no_keys()), Ok(true)); // ir += V1
    assert_eq!(m.get_index_register(), 0x128);
}

#[test]
fn index_add_outside_memory_faults() {
    let mut m = Machine::new();
    m.set_index_register(0xF, 0xF, 0xF); // ir = 0xFFF
    m.set_register(1, 0, 1);
    assert_eq!(m.special_register_operation(1, 1, 0xE, &no_keys()), Err(Fault::MemoryFault));
    assert_eq!(m.get_index_register(), 0xFFF);
}

#[test]
fn font_lookup_addresses_five_byte_glyphs() {
    let mut m = Machine::new();
    m.set_register(1, 0, 3); // glyph for digit 3
    assert_eq!(m.special_register_operation(1, 2, 9, &no_keys()), Ok(true));
    assert_eq!(m.get_index_register(), 0x50 + 15);
}

#[test]
fn register_block_store_and_load() {
    let mut m = Machine::new();
    m.set_register(0, 0, 1);
    m.set_register(1, 0, 2);
    m.set_register(2, 0, 3);
    m.set_index_register(3, 0, 0); // ir = 0x300
    assert_eq!(m.special_register_operation(2, 5, 5, &no_keys()), Ok(true)); // store V0..V2
    assert_eq!(m.read_memory(0x300), 1);
    assert_eq!(m.read_memory(0x301), 2);
    assert_eq!(m.read_memory(0x302), 3);
    assert_eq!(m.get_index_register(), 0x303);
    m.set_register(0, 0, 0);
    m.set_register(1, 0, 0);
    m.set_index_register(3, 0, 0);
    assert_eq!(m.special_register_operation(1, 6, 5, &no_keys()), Ok(true)); // load V0..V1
    assert_eq!(m.get_register(0), 1);
    assert_eq!(m.get_register(1), 2);
    assert_eq!(m.get_register(2), 3); // untouched beyond x
    assert_eq!(m.get_index_register(), 0x302);
}

#[test]
fn register_block_outside_memory_faults() {
    let mut m = Machine::new();
    m.set_index_register(0xF, 0xF, 0xE); // ir = 0xFFE
    assert_eq!(m.special_register_operation(5, 5, 5, &no_keys()), Err(Fault::MemoryFault));
    assert_eq!(m.special_register_operation(5, 6, 5, &no_keys()), Err(Fault::MemoryFault));
}

#[test]
fn unknown_special_pattern_is_reported() {
    let mut m = Machine::new();
    assert_eq!(m.special_register_operation(1, 4, 2, &no_keys()), Ok(false));
    m.load_program(&vec![0xF1, 0x42]);
    assert_eq!(m.step(&no_keys(), 0), Ok(CycleOutcome::UnknownOpcode(0xF, 1, 4, 2)));
    assert_eq!(m.get_pc(), 0x202);
}

#[test]
fn masked_random_store() {
    let mut m = Machine::new();
    // Through the deterministic cycle: Cxkk with the random byte supplied.
    m.load_program(&vec![0xC1, 0x0F]);
    assert_eq!(m.step(&no_keys(), 0xAB), Ok(CycleOutcome::Executed));
    assert_eq!(m.get_register(1), 0x0B);
    // With a zero mask every drawn byte stores zero.
    m.set_register(1, 0xF, 0xF);
    m.set_register_random(1, 0, 0);
    assert_eq!(m.get_register(1), 0);
}

#[test]
fn register_set_and_jump_with_offset() {
    let mut m = Machine::new();
    m.set_register(0, 0, 5); // V0 = 5
    m.jump_v0_offset(3, 0, 0);
    assert_eq!(m.get_pc(), 0x305);
}

#[test]
fn program_loads_at_program_offset_and_truncates() {
    let mut m = Machine::new();
    let mut image = vec![0xAB; 4000];
    image[0] = 0x12;
    m.load_program(&image);
    assert_eq!(m.read_memory(0x200), 0x12);
    assert_eq!(m.read_memory(0x201), 0xAB);
    assert_eq!(m.read_memory(0xFFF), 0xAB);
    // Exactly 3584 bytes fit; the rest is silently left off.
    assert_eq!(m.get_pc(), 0x200);
}

#[test]
fn font_loads_at_font_offset() {
    let mut m = Machine::new();
    let mut font = vec![0u8; 80];
    font[0] = 0xF0;
    font[79] = 0x80;
    m.load_font(&font);
    assert_eq!(m.read_memory(0x50), 0xF0);
    assert_eq!(m.read_memory(0x50 + 79), 0x80);
    assert_eq!(m.read_memory(0x4F), 0);
    assert_eq!(m.read_memory(0x50 + 80), 0);
}

#[test]
fn rendered_text_shows_lit_cells() {
    let mut m = Machine::new();
    m.load_program(&vec![0x80]); // one lit bit at the sprite's left edge
    m.set_index_register(2, 0, 0);
    m.set_register(0, 0, 0);
    m.set_register(1, 0, 0);
    assert_eq!(m.draw_sprite(0, 1, 1), Ok(()));
    let text = m.render_text();
    assert_eq!(text.len(), 32 * 65);
    let first: Vec<char> = text.chars().take(65).collect();
    assert_eq!(first[0], '@');
    assert_eq!(first[1], ' ');
    assert_eq!(first[64], '\n');
}

#[test]
fn full_cycle_program_runs_arithmetic() {
    let mut m = Machine::new();
    // 6105: V1 = 5; 6203: V2 = 3; 8124: V1 += V2; 3108: skip if V1 == 8;
    // 0000 (skipped); 1200: jump home.
    m.load_program(&vec![0x61, 0x05, 0x62, 0x03, 0x81, 0x24, 0x31, 0x08, 0x00, 0x00, 0x12, 0x00]);
    for _ in 0..4 {
        assert_eq!(m.step(&no_keys(), 0), Ok(CycleOutcome::Executed));
    }
    assert_eq!(m.get_register(1), 8);
    assert_eq!(m.get_register(15), 0);
    assert_eq!(m.get_pc(), 0x20A); // the skip jumped over 0x208
    assert_eq!(m.step(&no_keys(), 0), Ok(CycleOutcome::Executed));
    assert_eq!(m.get_pc(), 0x200);
}

#[test]
fn step_random_masks_like_the_spec() {
    let mut m = Machine::new();
    m.load_program(&vec![0xC1, 0x00]); // Cx00: any byte masked to zero
    assert_eq!(m.step_random(&no_keys()), Ok(CycleOutcome::Executed));
    assert_eq!(m.get_register(1), 0);
    assert_eq!(m.get_pc(), 0x202);
}
