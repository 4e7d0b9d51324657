use bfc::instr::{decode, Instr};

#[test]
fn decodes_the_eight_instructions() {
    assert_eq!(decode(b'>'), Instr::Right);
    assert_eq!(decode(b'<'), Instr::Left);
    assert_eq!(decode(b'+'), Instr::Inc);
    assert_eq!(decode(b'-'), Instr::Dec);
    assert_eq!(decode(b'.'), Instr::Output);
    assert_eq!(decode(b','), Instr::Input);
    assert_eq!(decode(b'['), Instr::LoopOpen);
    assert_eq!(decode(b']'), Instr::LoopClose);
}

#[test]
fn other_bytes_are_no_ops() {
    for b in [b' ', b'\n', b'a', b'(', b'{', 0u8, 255u8] {
        assert_eq!(decode(b), Instr::Skip);
    }
}
