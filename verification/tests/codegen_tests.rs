use rxasm::codegen::{Codegen, VMInstruction};
use rxasm::parser::Instructions;

#[test]
fn codegen_test1() {
    let insts = vec![
        Instructions::Mov { dest: 1, source: 1 },
        Instructions::Add { dest: 1, source: 1 },
        Instructions::Sub { dest: 1, source: 1 },
        Instructions::Mult { dest: 1, source: 1 },
        Instructions::Div { dest: 1, source: 1 },
        Instructions::Xor { dest: 1, source: 1 },
        Instructions::Cmp { dest: 1, source: 1 },
        Instructions::Out { source: 1 },
        Instructions::In { dest: 1 },
        Instructions::Hlt,
    ];
    let mut codegen = Codegen::new(insts);
    codegen.generate();
}

#[test]
fn codegen_test2() {
    let insts = vec![];
    let mut codegen = Codegen::new(insts);
    codegen.generate();
}

#[test]
fn codegen_test3() {
    let insts = vec![
        Instructions::Mov { dest: 1024, source: 768 },
        Instructions::Add { dest: 512, source: 1024 },
        Instructions::Sub { dest: 768, source: 512 },
        Instructions::Mult { dest: 1024, source: 768 },
        Instructions::Div { dest: 512, source: 1024 },
        Instructions::Xor { dest: 768, source: 512 },
        Instructions::Cmp { dest: 1024, source: 768 },
        Instructions::Out { source: 512 },
        Instructions::In { dest: 1024 },
        Instructions::Hlt,
    ];
    let mut codegen = Codegen::new(insts);
    codegen.generate();
}

#[test]
fn vminst_test1() {
    let inst = VMInstruction::new(0, 0, 0).encode();
    assert_eq!(inst, 0);
}

#[test]
fn vminst_test2() {
    let inst = VMInstruction::new(128, 128, 128).encode();
    assert_eq!(inst, 0x80);
}

#[test]
fn vminst_test3() {
    let inst = VMInstruction::new(255, 255, 255).encode();
    assert_eq!(inst, 0xFF)
}

#[test]
fn vminst_test4() {
    let inst = VMInstruction::new(16, 8, 32).encode();
    assert_eq!(inst, 0x20)
}

#[test]
fn vminst_from_encode_round_trip() {
    assert_eq!(VMInstruction::from(0x26).encode(), 0x26);
    assert_eq!(VMInstruction::from(0xDC).encode(), 0xDC);
    assert_eq!(VMInstruction::from(0xFF).encode(), 0xFF);
}

#[test]
fn opcode_table_exact_bytes() {
    let insts = vec![
        Instructions::Add { dest: 1, source: 2 },
        Instructions::Sub { dest: 1, source: 2 },
        Instructions::Mult { dest: 1, source: 2 },
        Instructions::Div { dest: 1, source: 2 },
        Instructions::Xor { dest: 1, source: 2 },
        Instructions::Cmp { dest: 1, source: 2 },
        Instructions::Out { source: 3 },
        Instructions::In { dest: 2 },
        Instructions::Hlt,
    ];
    let mut codegen = Codegen::new(insts);
    let bytes = codegen.generate();
    assert_eq!(bytes, vec![0x26, 0x36, 0x46, 0x56, 0x76, 0x86, 0xDC, 0xE8, 0xFF]);
}

#[test]
fn round_trip_shape_one_byte_each() {
    for (inst, opcode) in [
        (Instructions::Add { dest: 3, source: 1 }, 2u8),
        (Instructions::Sub { dest: 0, source: 2 }, 3),
        (Instructions::Mult { dest: 1, source: 1 }, 4),
        (Instructions::Div { dest: 2, source: 3 }, 5),
        (Instructions::Xor { dest: 3, source: 3 }, 7),
        (Instructions::Cmp { dest: 0, source: 0 }, 8),
        (Instructions::Out { source: 2 }, 13),
        (Instructions::In { dest: 1 }, 14),
    ] {
        let mut codegen = Codegen::new(vec![inst]);
        let bytes = codegen.generate();
        assert_eq!(bytes.len(), 1);
        assert_eq!(bytes[0] >> 4, opcode);
    }
}

#[test]
fn mov_always_two_bytes_immediate_mod_256() {
    let mut codegen = Codegen::new(vec![Instructions::Mov { dest: 1, source: 768 }]);
    let bytes = codegen.generate();
    assert_eq!(bytes.len(), 2);
    assert_eq!(bytes[0] >> 4, 1);
    assert_eq!(bytes[1], 0);

    let mut codegen = Codegen::new(vec![Instructions::Mov { dest: 0, source: 300 }]);
    let bytes = codegen.generate();
    assert_eq!(bytes, vec![0x10, 44]);
}

#[test]
fn hlt_sentinel_byte() {
    let mut codegen = Codegen::new(vec![
        Instructions::Add { dest: 1, source: 1 },
        Instructions::Hlt,
        Instructions::Mov { dest: 0, source: 9 },
        Instructions::Hlt,
    ]);
    let bytes = codegen.generate();
    assert_eq!(bytes[1], 0xFF);
    assert_eq!(bytes[4], 0xFF);
    assert_eq!(bytes.len(), 5);
}

#[test]
fn stream_length_counts_mov_twice() {
    let insts = vec![
        Instructions::Mov { dest: 0, source: 1 },
        Instructions::Add { dest: 0, source: 1 },
        Instructions::Mov { dest: 2, source: 3 },
        Instructions::Hlt,
    ];
    let mut codegen = Codegen::new(insts);
    let bytes = codegen.generate();
    assert_eq!(bytes.len(), 6);
}

#[test]
fn out_of_range_register_spills_into_opcode_field() {
    let mut codegen = Codegen::new(vec![Instructions::Add { dest: 16, source: 0 }]);
    let bytes = codegen.generate();
    assert_eq!(bytes, vec![0x60]);
}
