use libchip8::cpu::{Opcode, CPU};

#[test]
fn add_reg_flag_is_carry_for_all_bytes() {
    for a in 0..=255u8 {
        for b in 0..=255u8 {
            let mut cpu = CPU::new();
            cpu.load(1, a);
            cpu.load(2, b);
            cpu.addr(1, 2);
            let sum = a as u16 + b as u16;
            assert_eq!(cpu.regs[1], (sum % 256) as u8);
            assert_eq!(cpu.regs[0xF], if sum > 255 { 1 } else { 0 });
        }
    }
}

#[test]
fn sub_reg_flag_is_no_borrow_for_all_bytes() {
    for a in 0..=255u8 {
        for b in 0..=255u8 {
            let mut cpu = CPU::new();
            cpu.load(1, a);
            cpu.load(2, b);
            cpu.subr(1, 2);
            assert_eq!(cpu.regs[1], a.wrapping_sub(b));
            assert_eq!(cpu.regs[0xF], if a >= b { 1 } else { 0 });

            let mut cpu = CPU::new();
            cpu.load(1, a);
            cpu.load(2, b);
            cpu.subrn(1, 2);
            assert_eq!(cpu.regs[1], b.wrapping_sub(a));
            assert_eq!(cpu.regs[0xF], if b >= a { 1 } else { 0 });
        }
    }
}

#[test]
fn flag_is_written_after_the_result() {
    let mut cpu = CPU::new();
    cpu.load(0xF, 200);
    cpu.load(1, 100);
    cpu.addr(0xF, 1);
    assert_eq!(cpu.regs[0xF], 1);

    let mut cpu = CPU::new();
    cpu.load(0xF, 7);
    cpu.load(1, 9);
    cpu.subr(0xF, 1);
    assert_eq!(cpu.regs[0xF], 0);

    let mut cpu = CPU::new();
    cpu.load(0xF, 3);
    cpu.shr(0xF);
    assert_eq!(cpu.regs[0xF], 1);
}

#[test]
fn shifts_report_the_bit_that_left() {
    for v in 0..=255u8 {
        let mut cpu = CPU::new();
        cpu.load(4, v);
        cpu.shr(4);
        assert_eq!(cpu.regs[4], v >> 1);
        assert_eq!(cpu.regs[0xF], v & 1);

        let mut cpu = CPU::new();
        cpu.load(4, v);
        cpu.shl(4);
        assert_eq!(cpu.regs[4], v << 1);
        assert_eq!(cpu.regs[0xF], v >> 7);
    }
}

#[test]
fn add_immediate_wraps_and_leaves_the_flag() {
    let mut cpu = CPU::new();
    cpu.load(0xF, 9);
    cpu.load(6, 0x2B);
    cpu.add(6, 0xFF);
    assert_eq!(cpu.regs[6], 0x2A);
    assert_eq!(cpu.regs[0xF], 9);
}

#[test]
fn bitwise_operations() {
    let mut cpu = CPU::new();
    cpu.load(1, 0b1100);
    cpu.load(2, 0b1010);
    cpu.or(1, 2);
    assert_eq!(cpu.regs[1], 0b1110);
    cpu.load(1, 0b1100);
    cpu.and(1, 2);
    assert_eq!(cpu.regs[1], 0b1000);
    cpu.load(1, 0b1100);
    cpu.xor(1, 2);
    assert_eq!(cpu.regs[1], 0b0110);
    cpu.load_r(3, 2);
    assert_eq!(cpu.regs[3], 0b1010);
}

#[test]
fn call_and_return_pair_up() {
    let mut cpu = CPU::new();
    cpu.pc(0x300);
    cpu.call(0x400);
    assert_eq!((cpu.pc, cpu.sp), (0x400, 1));
    assert_eq!(cpu.stack, vec![0x300]);
    cpu.call(0x500);
    assert_eq!((cpu.pc, cpu.sp), (0x500, 2));
    cpu.ret();
    assert_eq!((cpu.pc, cpu.sp), (0x400, 1));
    cpu.ret();
    assert_eq!((cpu.pc, cpu.sp), (0x300, 0));
    assert_eq!(cpu.stack, Vec::<u16>::new());
}

#[test]
fn return_without_call_changes_nothing() {
    let mut cpu = CPU::new();
    cpu.pc(0x300);
    cpu.load(3, 7);
    cpu.ret();
    let mut same = CPU::new();
    same.pc(0x300);
    same.load(3, 7);
    assert_eq!(cpu, same);
}

#[test]
fn skips_move_by_four_or_two() {
    let mut cpu = CPU::new();
    cpu.load(1, 5);
    cpu.load(2, 5);
    cpu.skip_if(true);
    assert_eq!(cpu.pc, 4);
    cpu.skip_if(false);
    assert_eq!(cpu.pc, 6);
    cpu.skip_eq(1, 5);
    assert_eq!(cpu.pc, 10);
    cpu.skip_eq(1, 6);
    assert_eq!(cpu.pc, 12);
    cpu.skip_neq(1, 5);
    assert_eq!(cpu.pc, 14);
    cpu.skip_neq(1, 6);
    assert_eq!(cpu.pc, 18);
    cpu.skip_eq_reg(1, 2);
    assert_eq!(cpu.pc, 22);
    cpu.skip_neq_reg(1, 2);
    assert_eq!(cpu.pc, 24);
    cpu.inc_pc();
    assert_eq!(cpu.pc, 26);
}

#[test]
fn timers_and_address_register() {
    let mut cpu = CPU::new();
    cpu.load(1, 33);
    cpu.dtset(1);
    cpu.stset(1);
    assert_eq!((cpu.dt, cpu.st), (33, 33));
    cpu.dtget(2);
    assert_eq!(cpu.regs[2], 33);
    cpu.ldi(0x123);
    cpu.iinc(1);
    assert_eq!(cpu.i, 0x123 + 33);
    cpu.load(0, 2);
    cpu.jpoff(0x300);
    assert_eq!(cpu.pc, 0x302);
}

#[test]
fn random_byte_is_masked() {
    for _ in 0..200 {
        let mut cpu = CPU::new();
        cpu.load(1, 0xFF);
        cpu.rnd(1, 0x0F);
        assert_eq!(cpu.regs[1] & 0xF0, 0);
        cpu.rnd(1, 0);
        assert_eq!(cpu.regs[1], 0);
    }
    let mut cpu = CPU::new();
    cpu.rnd_with(1, 0x3C, 0xA5);
    assert_eq!(cpu.regs[1], 0x24);
}

#[test]
fn from_takes_every_register() {
    let mut regs = [0u8; 16];
    regs[3] = 9;
    let cpu = CPU::from(0x200, 0x300, regs, 0, Some(Opcode::CLS), 4, 5);
    assert_eq!(cpu.pc, 0x200);
    assert_eq!(cpu.i, 0x300);
    assert_eq!(cpu.regs, regs);
    assert_eq!(cpu.sp, 0);
    assert_eq!(cpu.stack, Vec::<u16>::new());
    assert_eq!(cpu.instr, Some(Opcode::CLS));
    assert_eq!((cpu.dt, cpu.st), (4, 5));
    assert_eq!(CPU::default(), CPU::new());
}
