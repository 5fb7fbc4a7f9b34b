use libchip8::cpu::Opcode;
use libchip8::display::Scr;
use libchip8::emulator::{Emulator, Stop};
use libchip8::input::Keyboard;
use libchip8::mem::Mem;

#[test]
fn arithmetic_program_leaves_no_carry() {
    let mut e = Emulator::new();
    e.store_bytes(&[0x61, 0x05, 0x62, 0x09, 0x81, 0x24]);
    assert_eq!(e.run(1000), Stop::Halted);
    assert_eq!(e.cpu.regs[1], 14);
    assert_eq!(e.cpu.regs[0xF], 0);
    assert_eq!(e.cpu.pc, 0x206);
    assert_eq!(e.cpu.instr, None);
}

#[test]
fn run_stops_when_the_steps_are_used_up() {
    let mut e = Emulator::new();
    e.store(&[Opcode::ADD(1, 1), Opcode::JP(0x200)]);
    assert_eq!(e.run(10), Stop::OutOfSteps);
    assert_eq!(e.cpu.regs[1], 5);
    assert_eq!(e.cpu.pc, 0x200);
    assert_eq!(e.resume(1), Stop::OutOfSteps);
    assert_eq!(e.cpu.regs[1], 6);
    assert_eq!(e.cpu.pc, 0x202);
    assert_eq!(e.run(0), Stop::OutOfSteps);
    assert_eq!(e.cpu.pc, 0x200);
}

#[test]
fn run_stops_where_the_next_word_lies_past_memory() {
    let mut e = Emulator::new();
    e.store(&[Opcode::JP(0xFFF)]);
    assert_eq!(e.run(10), Stop::Faulted);
    assert_eq!(e.cpu.pc, 0xFFF);
    assert_eq!(e.cpu.instr, Some(Opcode::JP(0xFFF)));
    assert_eq!(e.ready(), false);
}

#[test]
fn run_stops_before_an_operation_that_cannot_be_carried_out() {
    let mut e = Emulator::new();
    e.store(&[Opcode::LDI(0xFFE), Opcode::BCD(1)]);
    assert_eq!(e.run(10), Stop::Faulted);
    assert_eq!(e.cpu.pc, 0x202);
    assert_eq!(e.cpu.i, 0xFFE);
    assert_eq!(e.cpu.instr, Some(Opcode::BCD(1)));
    assert_eq!(e.admits(Opcode::BCD(1)), false);
    assert_eq!(e.admits(Opcode::LD(16, 0)), false);
    assert_eq!(e.admits(Opcode::LD(15, 0)), true);
}

#[test]
fn step_fetches_decodes_and_executes() {
    let mut e = Emulator::new();
    e.store_instr(&[0x6A07, 0x0000]);
    assert_eq!(e.ready(), true);
    e.step();
    assert_eq!(e.cpu.regs[0xA], 7);
    assert_eq!(e.cpu.pc, 0x202);
    assert_eq!(e.cpu.instr, Some(Opcode::LD(0xA, 7)));
    assert_eq!(e.ready(), true);
    e.step();
    assert_eq!(e.cpu.pc, 0x202);
    assert_eq!(e.cpu.instr, None);
    assert_eq!(e.fetch(), None);
}

#[test]
fn return_goes_back_to_the_call_and_moves_on() {
    let mut e = Emulator::new();
    e.store(&[Opcode::CALL(0x204), Opcode::JP(0x209), Opcode::CLS, Opcode::RET]);
    assert_eq!(e.resume(1), Stop::OutOfSteps);
    assert_eq!((e.cpu.pc, e.cpu.sp), (0x204, 1));
    assert_eq!(e.cpu.stack, vec![0x200]);
    assert_eq!(e.resume(2), Stop::OutOfSteps);
    assert_eq!((e.cpu.pc, e.cpu.sp), (0x202, 0));
    assert_eq!(e.resume(5), Stop::Halted);
    assert_eq!(e.cpu.pc, 0x209);
}

#[test]
fn return_without_call_only_moves_on() {
    let mut e = Emulator::new();
    e.cpu.pc(0x300);
    e.exec(Opcode::RET);
    assert_eq!((e.cpu.pc, e.cpu.sp), (0x302, 0));
}

#[test]
fn draw_sets_the_flag_on_collision() {
    let mut e = Emulator::new();
    e.store_font();
    e.cpu.regs[2] = 1;
    e.cpu.regs[3] = 2;
    e.cpu.regs[0xF] = 9;
    e.exec(Opcode::DRW(2, 3, 2));
    assert_eq!(e.cpu.regs[0xF], 0);
    for x in 1..5 {
        assert_eq!(e.scr.get(x, 2), true);
    }
    assert_eq!(e.scr.get(1, 3), true);
    assert_eq!(e.scr.get(2, 3), false);
    assert_eq!(e.scr.get(4, 3), true);
    assert_eq!(e.scr.get(5, 2), false);
    e.exec(Opcode::DRW(2, 3, 2));
    assert_eq!(e.cpu.regs[0xF], 1);
    assert_eq!(e.scr.get(1, 2), false);
    assert_eq!(e.cpu.pc, 4);
    e.exec(Opcode::DRW(2, 3, 0));
    assert_eq!(e.cpu.regs[0xF], 0);
}

#[test]
fn draw_wraps_at_the_edges() {
    let mut e = Emulator::new();
    e.store_font();
    e.cpu.regs[0] = 254;
    e.cpu.regs[1] = 255;
    e.exec(Opcode::DRW(0, 1, 1));
    assert_eq!(e.scr.get(62, 31), true);
    assert_eq!(e.scr.get(63, 31), true);
    assert_eq!(e.scr.get(0, 31), true);
    assert_eq!(e.scr.get(1, 31), true);
    assert_eq!(e.scr.get(2, 31), false);
}

#[test]
fn clear_blanks_the_display() {
    let mut e = Emulator::new();
    e.scr.xor(3, 3, true);
    e.exec(Opcode::CLS);
    assert_eq!(e.scr.get(3, 3), false);
    assert_eq!(e.cpu.pc, 2);
}

#[test]
fn digits_are_stored_hundreds_first() {
    let mut e = Emulator::new();
    e.cpu.regs[4] = 145;
    e.cpu.i = 0x300;
    e.exec(Opcode::BCD(4));
    assert_eq!(e.mem.get(0x300..0x303), Some(&[1u8, 4, 5][..]));
    assert_eq!(Emulator::split_val(0), [0, 0, 0]);
    assert_eq!(Emulator::split_val(255), [2, 5, 5]);
    assert_eq!(Emulator::split_val(9), [0, 0, 9]);
}

#[test]
fn registers_load_only_from_inside_memory() {
    let mut e = Emulator::new();
    e.mem.store(0xFFE, 7);
    e.mem.store(0xFFF, 8);
    e.cpu.i = 0xFFE;
    for k in 0..16 {
        e.cpu.regs[k] = 0x40 + k as u8;
    }
    e.regsload(3);
    assert_eq!(&e.cpu.regs[0..5], &[7, 8, 0x42, 0x43, 0x44][..]);
}

#[test]
fn registers_store_up_to_the_named_one() {
    let mut e = Emulator::new();
    for k in 0..16 {
        e.cpu.regs[k] = 0x10 + k as u8;
    }
    e.cpu.i = 0x400;
    e.exec(Opcode::REGSSTORE(2));
    assert_eq!(e.mem.get(0x3FF..0x404), Some(&[0u8, 0x10, 0x11, 0x12, 0][..]));
    let mut f = Emulator::new();
    f.mem.store_arr(0x400, &[1, 2, 3]);
    f.cpu.i = 0x400;
    f.exec(Opcode::REGLOAD(1));
    assert_eq!(&f.cpu.regs[0..3], &[1, 2, 0][..]);
    assert_eq!(f.cpu.pc, 2);
}

#[test]
fn glyph_addresses_follow_the_installed_table() {
    let mut m = Mem::new();
    assert_eq!(m.addr_of_font(3), 15);
    m.store_font(0x100);
    assert_eq!(m.addr_of_font(0), 0x100);
    assert_eq!(m.addr_of_font(0xF), 0x100 + 75);
    assert_eq!(m.get(0x100 + 75..0x100 + 80), Some(&[0xF0u8, 0x80, 0xF0, 0x80, 0x80][..]));
    assert_eq!(m.load(0x100 + 80), 0);
    assert_eq!(m.load(0xFF), 0);
    let mut e = Emulator::new();
    e.store_font();
    e.cpu.regs[1] = 0xA;
    e.exec(Opcode::IDIG(1));
    assert_eq!(e.cpu.i, 50);
    assert_eq!(e.start_addr(), 0x200);
}

#[test]
fn memory_ranges_outside_memory_are_absent() {
    let m = Mem::default();
    assert_eq!(m.get(4000..5000), None);
    assert_eq!(m.get(4096..4097), None);
    assert_eq!(m.get(5..4), None);
    assert_eq!(m.get(4096..4096), Some(&[][..]));
    assert_eq!(m.get(4090..4096), Some(&[0u8; 6][..]));
}

#[test]
fn words_are_stored_high_byte_first() {
    let mut e = Emulator::new();
    e.cpu.pc(0x300);
    e.store_instr(&[0xABCD, 0x0102]);
    assert_eq!(e.mem.get(0x200..0x205), Some(&[0xAB, 0xCD, 0x01, 0x02, 0x00][..]));
    assert_eq!(e.load_instr(0x201), 0xCD01);
    assert_eq!(e.cpu.pc, 0x200);
    assert_eq!(e.fetch(), Some(Opcode::LDI(0xBCD)));
    assert_eq!(e.cpu.instr, Some(Opcode::LDI(0xBCD)));
}

#[test]
fn timers_stop_at_zero() {
    let mut e = Emulator::new();
    e.cpu.dt = 2;
    e.cpu.st = 1;
    assert_eq!(e.tick(), (1, 0));
    assert_eq!(e.tick(), (0, 0));
    for _ in 0..300 {
        assert_eq!(e.tick(), (0, 0));
    }
    assert_eq!((e.cpu.dt, e.cpu.st), (0, 0));
}

#[test]
fn key_hooks_toggle_on_transitions() {
    let mut e = Emulator::new();
    e.key_pressed(None, 5);
    assert_eq!(e.kbd.get(5), true);
    e.key_pressed(Some(5), 5);
    assert_eq!(e.kbd.get(5), true);
    e.key_pressed(Some(5), 9);
    assert_eq!(e.kbd.get(5), false);
    assert_eq!(e.kbd.get(9), true);
    assert_eq!(e.kbd.down_key(), Some(9));
    e.key_released();
    assert_eq!(e.kbd.down_key(), None);
    e.key_released();
    assert_eq!(e.kbd.down_key(), None);
}

#[test]
fn lowest_key_that_is_down() {
    let mut k = Keyboard::default();
    assert_eq!(k.down_key(), None);
    k.switch(15);
    assert_eq!(k.down_key(), Some(15));
    k.switch(7);
    k.switch(0);
    assert_eq!(k.down_key(), Some(0));
    k.switch(0);
    assert_eq!(k.down_key(), Some(7));
    assert_eq!(k.get(8), false);
}

#[test]
fn key_operations_read_the_keypad_at_once() {
    let mut e = Emulator::new();
    e.cpu.regs[1] = 7;
    e.cpu.regs[3] = 0xEE;
    e.exec(Opcode::KEYSET(3));
    assert_eq!(e.cpu.regs[3], 0xEE);
    assert_eq!(e.cpu.pc, 2);
    e.exec(Opcode::SKP(1));
    assert_eq!(e.cpu.pc, 4);
    e.exec(Opcode::SKNP(1));
    assert_eq!(e.cpu.pc, 8);
    e.key_pressed(None, 7);
    e.exec(Opcode::SKP(1));
    assert_eq!(e.cpu.pc, 12);
    e.exec(Opcode::SKNP(1));
    assert_eq!(e.cpu.pc, 14);
    e.exec(Opcode::KEYSET(3));
    assert_eq!(e.cpu.regs[3], 7);
    e.cpu.regs[1] = 16;
    assert_eq!(e.admits(Opcode::SKP(1)), false);
}

#[test]
fn random_operation_masks_and_moves_on() {
    for _ in 0..100 {
        let mut e = Emulator::new();
        e.cpu.regs[2] = 0xFF;
        e.exec(Opcode::RND(2, 0x81));
        assert_eq!(e.cpu.regs[2] & 0x7E, 0);
        assert_eq!(e.cpu.pc, 2);
    }
}

#[test]
fn every_other_operation_moves_on_by_two() {
    let ops = [
        Opcode::LD(1, 3),
        Opcode::ADD(1, 3),
        Opcode::LDR(1, 2),
        Opcode::OR(1, 2),
        Opcode::AND(1, 2),
        Opcode::XOR(1, 2),
        Opcode::ADDR(1, 2),
        Opcode::SUBR(1, 2),
        Opcode::SHR(1, 2),
        Opcode::SUBRN(1, 2),
        Opcode::SHL(1, 2),
        Opcode::LDI(0x300),
        Opcode::DTSET(1),
        Opcode::DTGET(1),
        Opcode::STSET(1),
        Opcode::IINC(1),
    ];
    let mut e = Emulator::new();
    let mut pc = 0;
    for op in ops {
        e.exec(op);
        pc += 2;
        assert_eq!(e.cpu.pc, pc);
    }
    e.exec(Opcode::JPOFF(0x400));
    assert_eq!(e.cpu.pc, 0x400 + e.cpu.regs[0] as u16);
    e.exec(Opcode::SNE(1, 0xEE));
    assert_eq!(e.cpu.pc, 0x404 + e.cpu.regs[0] as u16);
    e.exec(Opcode::SER(1, 1));
    assert_eq!(e.cpu.pc, 0x408 + e.cpu.regs[0] as u16);
    e.exec(Opcode::SNER(1, 1));
    assert_eq!(e.cpu.pc, 0x40A + e.cpu.regs[0] as u16);
}

#[test]
fn default_machine_is_a_new_machine() {
    let e = Emulator::default();
    assert_eq!(e.cpu.pc, 0);
    assert_eq!(e.mem.get(0..4), Some(&[0u8, 0, 0, 0][..]));
    assert_eq!(e.scr.get(0, 0), false);
    assert_eq!(e.kbd.down_key(), None);
}
