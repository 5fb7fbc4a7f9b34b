use libchip8::cpu::Opcode;

#[test]
fn cls_test() {
    assert_eq!(Opcode::from(0x00E0), Some(Opcode::CLS));
    assert_eq!(0x00E0, Opcode::CLS.to_instr());
}

#[test]
fn ret_test() {
    assert_eq!(Opcode::from(0x00EE), Some(Opcode::RET));
    assert_eq!(0x00EE, Opcode::RET.to_instr());
}

#[test]
fn jp_test() {
    assert_eq!(Opcode::from(0x1ABC), Some(Opcode::JP(0xABC)));
    assert_eq!(0x1ABC, Opcode::JP(0xABC).to_instr());
}

#[test]
fn call_test() {
    assert_eq!(Opcode::from(0x2DEF), Some(Opcode::CALL(0xDEF)));
    assert_eq!(0x2DEF, Opcode::CALL(0xDEF).to_instr());
}

#[test]
fn se_test() {
    assert_eq!(Opcode::from(0x30AB), Some(Opcode::SE(0, 0xAB)));
    assert_eq!(0x30AB, Opcode::SE(0, 0xAB).to_instr());
}

#[test]
fn sne_test() {
    assert_eq!(Opcode::from(0x40AB), Some(Opcode::SNE(0, 0xAB)));
    assert_eq!(0x40AB, Opcode::SNE(0, 0xAB).to_instr());
}

#[test]
fn ser_test() {
    assert_eq!(Opcode::from(0x5DA0), Some(Opcode::SER(0xD, 0xA)));
    assert_eq!(0x5DA0, Opcode::SER(0xD, 0xA).to_instr());
}

#[test]
fn ld_test() {
    assert_eq!(Opcode::from(0x6DA0), Some(Opcode::LD(0xD, 0xA0)));
    assert_eq!(0x6DA0, Opcode::LD(0xD, 0xA0).to_instr());
}

#[test]
fn add_test() {
    assert_eq!(Opcode::from(0x7DA0), Some(Opcode::ADD(0xD, 0xA0)));
    assert_eq!(0x7DA0, Opcode::ADD(0xD, 0xA0).to_instr());
}

#[test]
fn add_76ff_test() {
    assert_eq!(Opcode::from(0x76FF), Some(Opcode::ADD(0x6, 0xFF)));
    assert_eq!(0x76FF, Opcode::ADD(0x6, 0xFF).to_instr());
}

#[test]
fn ldr_test() {
    assert_eq!(Opcode::from(0x8DA0), Some(Opcode::LDR(0xD, 0xA)));
    assert_eq!(0x8DA0, Opcode::LDR(0xD, 0xA).to_instr());
}

#[test]
fn or_test() {
    assert_eq!(Opcode::from(0x8DA1), Some(Opcode::OR(0xD, 0xA)));
    assert_eq!(0x8DA1, Opcode::OR(0xD, 0xA).to_instr());
}

#[test]
fn and_test() {
    assert_eq!(Opcode::from(0x8DA2), Some(Opcode::AND(0xD, 0xA)));
    assert_eq!(0x8DA2, Opcode::AND(0xD, 0xA).to_instr());
}

#[test]
fn xor_test() {
    assert_eq!(Opcode::from(0x8DA3), Some(Opcode::XOR(0xD, 0xA)));
    assert_eq!(0x8DA3, Opcode::XOR(0xD, 0xA).to_instr());
}

#[test]
fn addr_test() {
    assert_eq!(Opcode::from(0x8DA4), Some(Opcode::ADDR(0xD, 0xA)));
    assert_eq!(0x8DA4, Opcode::ADDR(0xD, 0xA).to_instr());
}

#[test]
fn subr_test() {
    assert_eq!(Opcode::from(0x8DA5), Some(Opcode::SUBR(0xD, 0xA)));
    assert_eq!(0x8DA5, Opcode::SUBR(0xD, 0xA).to_instr());
}

#[test]
fn shr_test() {
    assert_eq!(Opcode::from(0x8DA6), Some(Opcode::SHR(0xD, 0xA)));
    assert_eq!(0x8DA6, Opcode::SHR(0xD, 0xA).to_instr());
}

#[test]
fn subrn_test() {
    assert_eq!(Opcode::from(0x8DA7), Some(Opcode::SUBRN(0xD, 0xA)));
    assert_eq!(0x8DA7, Opcode::SUBRN(0xD, 0xA).to_instr());
}

#[test]
fn shl_test() {
    assert_eq!(Opcode::from(0x8DAE), Some(Opcode::SHL(0xD, 0xA)));
    assert_eq!(0x8DAE, Opcode::SHL(0xD, 0xA).to_instr());
}

#[test]
fn sner_test() {
    assert_eq!(Opcode::from(0x9DA0), Some(Opcode::SNER(0xD, 0xA)));
    assert_eq!(0x9DA0, Opcode::SNER(0xD, 0xA).to_instr());
}

#[test]
fn cpu_ldi_test() {
    assert_eq!(Opcode::from(0xADA0), Some(Opcode::LDI(0xDA0)));
    assert_eq!(0xADA0, Opcode::LDI(0xDA0).to_instr());
}

#[test]
fn cpu_jpoff_test() {
    assert_eq!(Opcode::from(0xBDB0), Some(Opcode::JPOFF(0xDB0)));
    assert_eq!(0xBDB0, Opcode::JPOFF(0xDB0).to_instr());
}

#[test]
fn drw_test() {
    assert_eq!(Opcode::from(0xDDB1), Some(Opcode::DRW(0xD, 0xB, 1)));
    assert_eq!(0xDDB1, Opcode::DRW(0xD, 0xB, 1).to_instr());
}

#[test]
fn skp_test() {
    assert_eq!(Opcode::from(0xE19E), Some(Opcode::SKP(1)));
    assert_eq!(0xE19E, Opcode::SKP(1).to_instr());
}

#[test]
fn sknp_test() {
    assert_eq!(Opcode::from(0xE1A1), Some(Opcode::SKNP(1)));
    assert_eq!(0xE1A1, Opcode::SKNP(1).to_instr());
}
