use libchip8::cpu::Opcode;

#[test]
fn every_decoded_word_encodes_back() {
    let mut decoded = 0u32;
    for w in 0..=0xFFFFu16 {
        if let Some(op) = Opcode::from(w) {
            decoded += 1;
            assert_eq!(op.to_instr(), w);
        }
    }
    // 2 fixed words, 10 families of 4096 words, 11 forms of 256, 11 of 16.
    assert_eq!(decoded, 2 + 10 * 4096 + 11 * 256 + 11 * 16);
}

#[test]
fn round_trip_spans_operand_ranges() {
    for x in 0..16usize {
        for kk in [0x00u8, 0x01, 0x7F, 0x80, 0xFF] {
            for op in [
                Opcode::SE(x, kk),
                Opcode::SNE(x, kk),
                Opcode::LD(x, kk),
                Opcode::ADD(x, kk),
                Opcode::RND(x, kk),
            ] {
                assert_eq!(Opcode::from(op.to_instr()), Some(op));
            }
        }
        for y in 0..16usize {
            for op in [
                Opcode::SER(x, y),
                Opcode::LDR(x, y),
                Opcode::OR(x, y),
                Opcode::AND(x, y),
                Opcode::XOR(x, y),
                Opcode::ADDR(x, y),
                Opcode::SUBR(x, y),
                Opcode::SHR(x, y),
                Opcode::SUBRN(x, y),
                Opcode::SHL(x, y),
                Opcode::SNER(x, y),
            ] {
                assert_eq!(Opcode::from(op.to_instr()), Some(op));
            }
            for n in 0..16u8 {
                let op = Opcode::DRW(x, y, n);
                assert_eq!(Opcode::from(op.to_instr()), Some(op));
            }
        }
        for op in [
            Opcode::SKP(x),
            Opcode::SKNP(x),
            Opcode::KEYSET(x),
            Opcode::DTSET(x),
            Opcode::DTGET(x),
            Opcode::STSET(x),
            Opcode::IINC(x),
            Opcode::IDIG(x),
            Opcode::BCD(x),
            Opcode::REGSSTORE(x),
            Opcode::REGLOAD(x),
        ] {
            assert_eq!(Opcode::from(op.to_instr()), Some(op));
        }
    }
    for a in [0x000u16, 0x001, 0x200, 0x7FF, 0x800, 0xFFF] {
        for op in [Opcode::JP(a), Opcode::CALL(a), Opcode::LDI(a), Opcode::JPOFF(a)] {
            assert_eq!(Opcode::from(op.to_instr()), Some(op));
        }
    }
    assert_eq!(Opcode::from(Opcode::CLS.to_instr()), Some(Opcode::CLS));
    assert_eq!(Opcode::from(Opcode::RET.to_instr()), Some(Opcode::RET));
}

#[test]
fn words_outside_the_table_decode_to_none() {
    for w in [
        0x0000u16, 0x00E1, 0x00EF, 0x0123, 0x5DA1, 0x5DAF, 0x8DA8, 0x8DA9, 0x8DAD, 0x8DAF,
        0x9DA1, 0x9DAF, 0xE100, 0xE19F, 0xE1A0, 0xF000, 0xF108, 0xF166, 0xF1FF, 0xFFFF,
    ] {
        assert_eq!(Opcode::from(w), None);
    }
}

#[test]
fn exact_words_of_the_table() {
    assert_eq!(Opcode::RND(0xA, 0x5C).to_instr(), 0xCA5C);
    assert_eq!(Opcode::SHR(0x1, 0x2).to_instr(), 0x8126);
    assert_eq!(Opcode::SHL(0x1, 0x2).to_instr(), 0x812E);
    assert_eq!(Opcode::from(0x8D06), Some(Opcode::SHR(0xD, 0)));
    assert_eq!(Opcode::from(Opcode::SHR(0xD, 0xA).to_instr()), Some(Opcode::SHR(0xD, 0xA)));
    assert_eq!(Opcode::from(Opcode::SHL(0xD, 0xA).to_instr()), Some(Opcode::SHL(0xD, 0xA)));
    assert_eq!(Opcode::from(0xCA5C), Some(Opcode::RND(0xA, 0x5C)));
    assert_eq!(Opcode::from(0xF207), Some(Opcode::DTGET(2)));
    assert_eq!(Opcode::from(0xF20A), Some(Opcode::KEYSET(2)));
    assert_eq!(Opcode::from(0xF215), Some(Opcode::DTSET(2)));
    assert_eq!(Opcode::from(0xF218), Some(Opcode::STSET(2)));
    assert_eq!(Opcode::from(0xF21E), Some(Opcode::IINC(2)));
    assert_eq!(Opcode::from(0xF229), Some(Opcode::IDIG(2)));
    assert_eq!(Opcode::from(0xF233), Some(Opcode::BCD(2)));
    assert_eq!(Opcode::from(0xF255), Some(Opcode::REGSSTORE(2)));
    assert_eq!(Opcode::from(0xF265), Some(Opcode::REGLOAD(2)));
    assert_eq!(Opcode::DTGET(2).to_instr(), 0xF207);
    assert_eq!(Opcode::KEYSET(2).to_instr(), 0xF20A);
    assert_eq!(Opcode::DTSET(2).to_instr(), 0xF215);
    assert_eq!(Opcode::STSET(2).to_instr(), 0xF218);
    assert_eq!(Opcode::IINC(2).to_instr(), 0xF21E);
    assert_eq!(Opcode::IDIG(2).to_instr(), 0xF229);
    assert_eq!(Opcode::BCD(2).to_instr(), 0xF233);
    assert_eq!(Opcode::REGSSTORE(2).to_instr(), 0xF255);
    assert_eq!(Opcode::REGLOAD(2).to_instr(), 0xF265);
}
