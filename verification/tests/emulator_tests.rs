use libchip8::display::Scr;
use libchip8::emulator::Emulator;

#[test]
fn simple_test() {
    let mut e = Emulator::new();
    e.store_bytes(&vec![0x61, 0x05, 0x62, 0x09, 0x81, 0x24]);
    assert_eq!(0x6105, e.load_instr(0x200));
    e.run(1000);
    assert_eq!(e.cpu.regs[1], 14);
}

#[test]
fn emulator_ldi_test() {
    let mut e = Emulator::new();
    e.store_instr(&[0xA124]);
    assert_eq!(0xA124, e.load_instr(0x200));
    e.run(1000);
    assert_eq!(e.cpu.i, 0x124);
}

#[test]
fn emulator_jpoff_test() {
    let mut e = Emulator::new();
    e.store_instr(&[0x6001, 0xB124]);
    assert_eq!(0x6001, e.load_instr(0x200));
    assert_eq!(0xB124, e.load_instr(0x202));
    e.run(1000);
    assert_eq!(e.cpu.pc, 0x125);
}

#[test]
fn draw_test() {
    let mut e = Emulator::new();
    e.store_font();
    e.store_instr(&[0x6201, 0x6302, 0xD232]);
    e.run(1000);
    assert_eq!(0, e.cpu.i);
    assert_eq!(true, e.scr.get(1, 2), "checking scr(1,2) is true");
    assert_eq!(e.cpu.pc, 0x200 + 6);
}

#[test]
fn split_test() {
    match Emulator::split_val(145) {
        [s, d, j] => {
            assert_eq!(1, s);
            assert_eq!(4, d);
            assert_eq!(5, j);
        }
    }
}

#[test]
fn regsstore_test() {
    let mut e = Emulator::new();
    for i in 0..16 {
        e.cpu.regs[i as usize] = i;
    }

    e.regsstore(5);
    assert_eq!(
        Some(
            &[0u8, 1u8, 2u8, 3u8, 4u8, 5u8, 0u8, 0u8, 0u8, 0u8, 0u8, 0u8, 0u8, 0u8, 0u8, 0u8,]
                [..]
        ),
        e.mem.get(0..16)
    );
}

#[test]
fn regload_test() {
    let mut e = Emulator::new();
    e.store_font();
    e.regsload(6);
    assert_eq!(
        &[
            0xF0, 0x90, 0x90, 0x90, 0xF0, 0x20, 0x60, 0u8, 0u8, 0u8, 0u8, 0u8, 0u8, 0u8, 0u8,
            0u8,
        ][..],
        e.cpu.regs
    );
}

#[test]
fn add_6ff_test() {
    let mut e = Emulator::new();
    e.cpu.regs[6] = 0x002B;
    e.store_instr(&[0x76FF]);
    e.run(1000);
    assert_eq!(0x002A, e.cpu.regs[6]);
    assert_eq!(e.cpu.i, 0);
}
