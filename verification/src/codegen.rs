//! Bit-packed encoding of instructions into the machine-code byte stream.

use crate::parser::Instructions;
use vstd::prelude::*;

verus! {

/// One encoded machine word: a 4-bit opcode and two 2-bit register fields,
/// packed as `(opcode << 4) | (r0 << 2) | r1`.
pub struct VMInstruction {
    opcode: u8,
    r0: u8,
    r1: u8,
}

/// The value of the packed byte for the given field values.  Field values
/// wider than their declared bit width spill into neighbouring fields: the
/// shifts discard only what leaves the byte.
pub open spec fn pack_byte(opcode: u8, r0: u8, r1: u8) -> u8 {
    (opcode << 4) | (r0 << 2) | r1
}

impl VMInstruction {
    pub closed spec fn spec_opcode(self) -> u8 {
        self.opcode
    }

    pub closed spec fn spec_r0(self) -> u8 {
        self.r0
    }

    pub closed spec fn spec_r1(self) -> u8 {
        self.r1
    }

    pub fn new(opcode: u8, r0: u8, r1: u8) -> (r: VMInstruction)
        ensures
            r.spec_opcode() == opcode,
            r.spec_r0() == r0,
            r.spec_r1() == r1,
    {
        VMInstruction { opcode, r0, r1 }
    }

    /// The inverse field splitting: recover the three fields of a packed byte.
    pub fn from(inst: u8) -> (r: VMInstruction)
        ensures
            r.spec_opcode() == (inst >> 4) & 0b1111,
            r.spec_r0() == (inst >> 2) & 0b11,
            r.spec_r1() == inst & 0b11,
    {
        VMInstruction { opcode: (inst >> 4) & 0b1111, r0: (inst >> 2) & 0b11, r1: inst & 0b11 }
    }

    pub fn encode(self) -> (r: u8)
        ensures
            r == pack_byte(self.spec_opcode(), self.spec_r0(), self.spec_r1()),
    {
        (self.opcode << 4) | (self.r0 << 2) | self.r1
    }
}

/// The bytes of one encoded instruction.  Operand values are truncated to
/// a byte before packing, and the packing shifts can spill a register
/// value wider than two bits into the neighbouring fields; both are the
/// encoder's defined behaviour, kept for binary compatibility.  `Hlt`
/// bypasses the field layout: it is the literal sentinel byte `0xFF`.
pub open spec fn encode_inst(i: Instructions) -> Seq<u8> {
    match i {
        Instructions::Mov { dest, source } => seq![
            pack_byte(1, dest as u8, 0),
            source as u8,
        ],
        Instructions::Add { dest, source } => seq![
            pack_byte(2, dest as u8, source as u8),
        ],
        Instructions::Sub { dest, source } => seq![
            pack_byte(3, dest as u8, source as u8),
        ],
        Instructions::Mult { dest, source } => seq![
            pack_byte(4, dest as u8, source as u8),
        ],
        Instructions::Div { dest, source } => seq![
            pack_byte(5, dest as u8, source as u8),
        ],
        Instructions::Xor { dest, source } => seq![
            pack_byte(7, dest as u8, source as u8),
        ],
        Instructions::Cmp { dest, source } => seq![
            pack_byte(8, dest as u8, source as u8),
        ],
        Instructions::Out { source } => seq![pack_byte(13, source as u8, 0)],
        Instructions::In { dest } => seq![pack_byte(14, dest as u8, 0)],
        Instructions::Hlt => seq![0xffu8],
    }
}

/// The byte stream of an instruction sequence: the concatenation of each
/// instruction's bytes, in order.
pub open spec fn encode_seq(s: Seq<Instructions>) -> Seq<u8>
    decreases s.len(),
{
    if s.len() == 0 {
        Seq::empty()
    } else {
        encode_inst(s[0]) + encode_seq(s.skip(1))
    }
}

pub proof fn lemma_encode_seq_snoc(s: Seq<Instructions>, x: Instructions)
    ensures
        encode_seq(s.push(x)) == encode_seq(s) + encode_inst(x),
    decreases s.len(),
{
    let p = s.push(x);
    assert(p.len() == s.len() + 1);
    if s.len() == 0 {
        assert(p[0] == x);
        assert(p.skip(1) =~= Seq::<Instructions>::empty());
        assert(encode_seq(p.skip(1)) == Seq::<u8>::empty());
        assert(encode_seq(p) == encode_inst(x) + Seq::<u8>::empty());
        assert(encode_seq(s) == Seq::<u8>::empty());
        assert(encode_inst(x) + Seq::<u8>::empty() =~= Seq::<u8>::empty() + encode_inst(x));
    } else {
        lemma_encode_seq_snoc(s.skip(1), x);
        assert(p[0] == s[0]);
        assert(p.skip(1) =~= s.skip(1).push(x));
        assert(encode_seq(p) == encode_inst(s[0]) + (encode_seq(s.skip(1)) + encode_inst(x)));
        assert(encode_inst(s[0]) + (encode_seq(s.skip(1)) + encode_inst(x)) =~= (encode_inst(
            s[0],
        ) + encode_seq(s.skip(1))) + encode_inst(x));
    }
}

/// The opcode field value of each variant, with `Hlt` standing at its
/// sentinel byte.
pub open spec fn opcode_byte(i: Instructions) -> u8 {
    match i {
        Instructions::Mov { .. } => 1,
        Instructions::Add { .. } => 2,
        Instructions::Sub { .. } => 3,
        Instructions::Mult { .. } => 4,
        Instructions::Div { .. } => 5,
        Instructions::Xor { .. } => 7,
        Instructions::Cmp { .. } => 8,
        Instructions::Out { .. } => 13,
        Instructions::In { .. } => 14,
        Instructions::Hlt => 0xff,
    }
}

/// The value carried in the r0 field of an instruction's packed byte.
pub open spec fn r0_val(i: Instructions) -> u8 {
    match i {
        Instructions::Mov { dest, .. } => dest as u8,
        Instructions::Add { dest, .. } => dest as u8,
        Instructions::Sub { dest, .. } => dest as u8,
        Instructions::Mult { dest, .. } => dest as u8,
        Instructions::Div { dest, .. } => dest as u8,
        Instructions::Xor { dest, .. } => dest as u8,
        Instructions::Cmp { dest, .. } => dest as u8,
        Instructions::Out { source } => source as u8,
        Instructions::In { dest } => dest as u8,
        Instructions::Hlt => 0,
    }
}

/// The value carried in the r1 field of an instruction's packed byte:
/// zero except for the two-register instructions.
pub open spec fn r1_val(i: Instructions) -> u8 {
    match i {
        Instructions::Add { source, .. } => source as u8,
        Instructions::Sub { source, .. } => source as u8,
        Instructions::Mult { source, .. } => source as u8,
        Instructions::Div { source, .. } => source as u8,
        Instructions::Xor { source, .. } => source as u8,
        Instructions::Cmp { source, .. } => source as u8,
        _ => 0,
    }
}

/// Whether every register operand of `i` fits its 2-bit field.  The `Mov`
/// immediate is exempt: it gets a byte of its own.
pub open spec fn operands_in_range(i: Instructions) -> bool {
    match i {
        Instructions::Mov { dest, .. } => dest <= 3,
        Instructions::Add { dest, source } => dest <= 3 && source <= 3,
        Instructions::Sub { dest, source } => dest <= 3 && source <= 3,
        Instructions::Mult { dest, source } => dest <= 3 && source <= 3,
        Instructions::Div { dest, source } => dest <= 3 && source <= 3,
        Instructions::Xor { dest, source } => dest <= 3 && source <= 3,
        Instructions::Cmp { dest, source } => dest <= 3 && source <= 3,
        Instructions::Out { source } => source <= 3,
        Instructions::In { dest } => dest <= 3,
        Instructions::Hlt => true,
    }
}

/// The number of `Mov` instructions in a sequence.
pub open spec fn mov_count(s: Seq<Instructions>) -> int
    decreases s.len(),
{
    if s.len() == 0 {
        0
    } else {
        (if s[0] is Mov {
            1int
        } else {
            0int
        }) + mov_count(s.skip(1))
    }
}

/// The opcode stream read back from an encoded byte stream: `0xFF` stands
/// for `Hlt`, a byte whose top four bits are 1 opens a two-byte `Mov`
/// whose immediate byte is skipped, and every other byte's top four bits
/// are its opcode.
pub open spec fn decode_opcodes(bytes: Seq<u8>) -> Seq<u8>
    decreases bytes.len(),
{
    if bytes.len() == 0 {
        Seq::empty()
    } else {
        let b = bytes[0];
        if b == 0xff {
            seq![0xffu8] + decode_opcodes(bytes.skip(1))
        } else if b >> 4 == 1 {
            if bytes.len() >= 2 {
                seq![1u8] + decode_opcodes(bytes.skip(2))
            } else {
                seq![1u8]
            }
        } else {
            seq![b >> 4] + decode_opcodes(bytes.skip(1))
        }
    }
}

proof fn lemma_pack_fields(op: u8, a: u8, b: u8)
    requires
        1 <= op <= 14,
        a <= 3,
        b <= 3,
    ensures
        (pack_byte(op, a, b) >> 4) & 0b1111 == op,
        (pack_byte(op, a, b) >> 2) & 0b11 == a,
        pack_byte(op, a, b) & 0b11 == b,
        pack_byte(op, a, b) >> 4 == op,
        pack_byte(op, a, b) != 0xff,
{
    assert((((op << 4) | (a << 2) | b) >> 4) & 0b1111 == op && (((op << 4) | (a << 2) | b)
        >> 2) & 0b11 == a && ((op << 4) | (a << 2) | b) & 0b11 == b && ((op << 4) | (a << 2)
        | b) >> 4 == op && ((op << 4) | (a << 2) | b) != 0xff) by (bit_vector)
        requires
            1 <= op <= 14,
            a <= 3,
            b <= 3,
    ;
}

/// Round-trip shape: every variant other than `Mov` encodes to exactly
/// one byte.  When both register operands lie in [0, 3], the byte's top
/// four bits are the variant's fixed opcode and the inverse field
/// splitting recovers the opcode, r0 and r1 values exactly.  `Hlt` has no
/// operand fields: its byte is the all-ones sentinel.
pub proof fn lemma_round_trip_shape(i: Instructions)
    requires
        !(i is Mov),
        operands_in_range(i),
    ensures
        encode_inst(i).len() == 1,
        i is Hlt ==> encode_inst(i)[0] == 0xff,
        !(i is Hlt) ==> {
            let b = encode_inst(i)[0];
            &&& b >> 4 == opcode_byte(i)
            &&& (b >> 4) & 0b1111 == opcode_byte(i)
            &&& (b >> 2) & 0b11 == r0_val(i)
            &&& b & 0b11 == r1_val(i)
        },
{
    if !(i is Hlt) {
        lemma_pack_fields(opcode_byte(i), r0_val(i), r1_val(i));
    }
}

/// Mov width: a `Mov` encodes to exactly two bytes whatever its operand
/// values, and the second byte is the immediate value modulo 256.
pub proof fn lemma_mov_width(dest: usize, source: usize)
    ensures
        encode_inst(Instructions::Mov { dest, source }).len() == 2,
        encode_inst(Instructions::Mov { dest, source })[1] == source % 256,
{
    assert(source as u8 == source % 256) by (bit_vector);
}

/// Mov opcode: the first byte of an encoded `Mov` has opcode 1 in its top
/// four bits whenever the destination's two field bits stay inside their
/// field after truncation, that is whenever `dest % 64 < 4`.  A
/// destination such as 16 spills into the opcode field instead.
pub proof fn lemma_mov_opcode(dest: usize, source: usize)
    requires
        dest % 64 < 4,
    ensures
        encode_inst(Instructions::Mov { dest, source })[0] >> 4 == 1,
{
    assert(((1u8 << 4) | ((dest as u8) << 2) | 0) >> 4 == 1) by (bit_vector)
        requires
            dest % 64 < 4,
    ;
}

/// Hlt sentinel: `Hlt` encodes to the single byte `0xFF`, independently of
/// whatever other instructions stand in the sequence.
pub proof fn lemma_hlt_sentinel(insts: Seq<Instructions>)
    ensures
        encode_inst(Instructions::Hlt) == seq![0xffu8],
        encode_seq(insts.push(Instructions::Hlt)) == encode_seq(insts) + seq![0xffu8],
{
    lemma_encode_seq_snoc(insts, Instructions::Hlt);
}

/// Order preservation, width part: the byte stream of a sequence of N
/// instructions holds exactly N bytes plus one more for each `Mov`.
pub proof fn lemma_stream_length(insts: Seq<Instructions>)
    ensures
        encode_seq(insts).len() == insts.len() + mov_count(insts),
    decreases insts.len(),
{
    if insts.len() > 0 {
        lemma_stream_length(insts.skip(1));
    }
}

/// Order preservation, decode part: when every register operand lies in
/// [0, 3], reading the encoded stream back sequentially — skipping the
/// immediate byte of each `Mov` — recovers each instruction's opcode in
/// the original order, with `0xFF` standing for `Hlt`.
pub proof fn lemma_stream_decode(insts: Seq<Instructions>)
    requires
        forall|j: int| 0 <= j < insts.len() ==> operands_in_range(#[trigger] insts[j]),
    ensures
        decode_opcodes(encode_seq(insts)) == insts.map_values(|i: Instructions| opcode_byte(i)),
    decreases insts.len(),
{
    let ops = insts.map_values(|i: Instructions| opcode_byte(i));
    if insts.len() == 0 {
        assert(ops =~= Seq::<u8>::empty());
    } else {
        assert(operands_in_range(insts[0]));
        assert(forall|j: int|
            0 <= j < insts.skip(1).len() ==> operands_in_range(#[trigger] insts.skip(1)[j]));
        lemma_stream_decode(insts.skip(1));
        let i0 = insts[0];
        let bytes = encode_seq(insts);
        let tail = encode_seq(insts.skip(1));
        assert(bytes == encode_inst(i0) + tail);
        assert(ops =~= seq![opcode_byte(i0)] + insts.skip(1).map_values(
            |i: Instructions| opcode_byte(i),
        ));
        if i0 is Hlt {
            assert(bytes[0] == 0xff);
            assert(bytes.skip(1) =~= tail);
        } else if i0 is Mov {
            lemma_pack_fields(1, r0_val(i0), r1_val(i0));
            assert(bytes[0] == encode_inst(i0)[0]);
            assert(bytes.len() == 2 + tail.len());
            assert(bytes.skip(2) =~= tail);
        } else {
            lemma_pack_fields(opcode_byte(i0), r0_val(i0), r1_val(i0));
            assert(bytes[0] == encode_inst(i0)[0]);
            assert(bytes[0] >> 4 == opcode_byte(i0));
            assert(bytes.skip(1) =~= tail);
        }
    }
}

/// Emits machine code for a sequence of instructions.
pub struct Codegen {
    inst: Vec<Instructions>,
}

impl View for Codegen {
    type V = Seq<Instructions>;

    closed spec fn view(&self) -> Seq<Instructions> {
        self.inst@
    }
}

impl Codegen {
    pub fn new(inst: Vec<Instructions>) -> (r: Codegen)
        ensures
            r@ == inst@,
    {
        Codegen { inst }
    }

    /// The byte stream encoding the held instructions, in order.  The
    /// encoder is total: out-of-range operand values truncate silently
    /// rather than fail.
    pub fn generate(&mut self) -> (r: Vec<u8>)
        ensures
            final(self)@ == old(self)@,
            r@ == encode_seq(old(self)@),
    {
        let mut bytes: Vec<u8> = Vec::new();
        let mut i: usize = 0;
        while i < self.inst.len()
            invariant
                i <= self.inst.len(),
                self.inst@ == old(self).inst@,
                bytes@ == encode_seq(self.inst@.take(i as int)),
            decreases self.inst.len() - i,
        {
            let ghost pre = self.inst@.take(i as int);
            let instruction = self.inst[i];
            match instruction {
                Instructions::Mov { dest, source } => {
                    let vm_inst = VMInstruction::new(
                        0b001,
                        #[verifier::truncate] (dest as u8),
                        0,
                    ).encode();
                    bytes.push(vm_inst);
                    bytes.push(#[verifier::truncate] (source as u8));
                },
                Instructions::Add { dest, source } => {
                    let vm_inst = VMInstruction::new(
                        0b0010,
                        #[verifier::truncate] (dest as u8),
                        #[verifier::truncate] (source as u8),
                    ).encode();
                    bytes.push(vm_inst);
                },
                Instructions::Sub { dest, source } => {
                    let vm_inst = VMInstruction::new(
                        0b0011,
                        #[verifier::truncate] (dest as u8),
                        #[verifier::truncate] (source as u8),
                    ).encode();
                    bytes.push(vm_inst);
                },
                Instructions::Mult { dest, source } => {
                    let vm_inst = VMInstruction::new(
                        0b0100,
                        #[verifier::truncate] (dest as u8),
                        #[verifier::truncate] (source as u8),
                    ).encode();
                    bytes.push(vm_inst);
                },
                Instructions::Div { dest, source } => {
                    let vm_inst = VMInstruction::new(
                        0b0101,
                        #[verifier::truncate] (dest as u8),
                        #[verifier::truncate] (source as u8),
                    ).encode();
                    bytes.push(vm_inst);
                },
                Instructions::Xor { dest, source } => {
                    let vm_inst = VMInstruction::new(
                        0b0111,
                        #[verifier::truncate] (dest as u8),
                        #[verifier::truncate] (source as u8),
                    ).encode();
                    bytes.push(vm_inst);
                },
                Instructions::Cmp { dest, source } => {
                    let vm_inst = VMInstruction::new(
                        0b1000,
                        #[verifier::truncate] (dest as u8),
                        #[verifier::truncate] (source as u8),
                    ).encode();
                    bytes.push(vm_inst);
                },
                Instructions::Out { source } => {
                    let vm_inst = VMInstruction::new(
                        0b1101,
                        #[verifier::truncate] (source as u8),
                        0,
                    ).encode();
                    bytes.push(vm_inst);
                },
                Instructions::In { dest } => {
                    let vm_inst = VMInstruction::new(
                        0b1110,
                        #[verifier::truncate] (dest as u8),
                        0,
                    ).encode();
                    bytes.push(vm_inst);
                },
                Instructions::Hlt => {
                    bytes.push(0xff);
                },
            }
            i += 1;
            proof {
                assert(self.inst@.take(i as int) =~= pre.push(instruction));
                lemma_encode_seq_snoc(pre, instruction);
                assert(bytes@ =~= encode_seq(pre) + encode_inst(instruction));
            }
        }
        proof {
            assert(self.inst@.take(self.inst@.len() as int) =~= self.inst@);
        }
        bytes
    }
}

} // verus!
