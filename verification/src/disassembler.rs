//! Decoding of captured byte windows into display lines.
//!
//! The decoding itself is the work of the Capstone engine. What this module
//! adds is the shape of a line, `<address>: <mnemonic>\t<operands>`, and the
//! promise that a window that cannot be decoded yields fewer lines, never a
//! failure.

use crate::hex::{short_address, to_hex};
use capstone::arch::x86::{ArchMode, ArchSyntax};
use capstone::arch::{BuildsCapstone, BuildsCapstoneSyntax};
use capstone::Capstone;
use vstd::prelude::*;

verus! {

/// One decoded instruction: where it sits and how it reads.
#[derive(Debug, Clone)]
pub struct Instruction {
    /// The address of the instruction's first byte.
    pub address: u64,
    /// The name of the operation; empty when the engine has none.
    pub mnemonic: String,
    /// The operands as text; empty when the engine has none.
    pub operands: String,
}

/// The mathematical content of an [`Instruction`].
pub struct InstructionView {
    pub address: u64,
    pub mnemonic: Seq<char>,
    pub operands: Seq<char>,
}

impl View for Instruction {
    type V = InstructionView;

    open spec fn view(&self) -> InstructionView {
        InstructionView {
            address: self.address,
            mnemonic: self.mnemonic@,
            operands: self.operands@,
        }
    }
}

impl DeepView for Instruction {
    type V = InstructionView;

    open spec fn deep_view(&self) -> InstructionView {
        self@
    }
}

/// The instructions that the engine decodes from `code` placed at `address`,
/// in 64-bit x86 mode with Intel syntax. Decoding stops at the first byte
/// sequence that is no instruction, so the result may cover only a prefix of
/// `code`, or nothing.
pub uninterp spec fn decoded_x86_64(code: Seq<u8>, address: u64) -> Seq<InstructionView>;

/// Capstone's `Capstone::disasm_all`, on an engine built for 64-bit x86 with
/// Intel syntax: the instructions decoded from `code`, each with the address,
/// mnemonic and operand text that `Insn::address`, `Insn::mnemonic` and
/// `Insn::op_str` report. A missing mnemonic or operand text comes back
/// empty. Should the engine fail to start or to decode, no instruction is
/// returned. The contract only names the result; it claims nothing about
/// which instructions a given byte sequence decodes to.
#[verifier::external_body]
fn decode_instructions(code: &[u8], address: u64) -> (decoded: Vec<Instruction>)
    ensures
        decoded.deep_view() == decoded_x86_64(code@, address),
{
    let built = Capstone::new().x86().mode(ArchMode::Mode64).syntax(ArchSyntax::Intel).build();
    let Ok(engine) = built else { return Vec::new(); };
    let Ok(instructions) = engine.disasm_all(code, address) else { return Vec::new(); };
    instructions.iter().map(|insn| Instruction {
        address: insn.address(),
        mnemonic: insn.mnemonic().unwrap_or("").to_owned(),
        operands: insn.op_str().unwrap_or("").to_owned(),
    }).collect()
}

/// The display line of one instruction: its address in hexadecimal, a colon
/// and a space, the mnemonic, a tab, the operands.
pub open spec fn instruction_line(instruction: InstructionView) -> Seq<char> {
    short_address(instruction.address as nat) + ": "@ + instruction.mnemonic + "\t"@
        + instruction.operands
}

/// The display lines of a sequence of instructions, one line each, in order.
pub open spec fn listing(instructions: Seq<InstructionView>) -> Seq<Seq<char>> {
    Seq::new(instructions.len(), |i: int| instruction_line(instructions[i]))
}

/// The display lines for `code` placed at `address`.
pub open spec fn disassembly_of(code: Seq<u8>, address: u64) -> Seq<Seq<char>> {
    listing(decoded_x86_64(code, address))
}

/// Renders one instruction as a display line.
pub fn render_instruction(instruction: &Instruction) -> (line: String)
    ensures
        line@ == instruction_line(instruction@),
{
    let mut line: String = "0x".to_owned();
    let digits: String = to_hex(instruction.address, 1);
    line.append(digits.as_str());
    line.append(": ");
    line.append(instruction.mnemonic.as_str());
    line.append("\t");
    line.append(instruction.operands.as_str());
    line
}

/// Renders a sequence of instructions, one display line each.
pub fn render_listing(instructions: &Vec<Instruction>) -> (lines: Vec<String>)
    ensures
        lines.deep_view() == listing(instructions.deep_view()),
{
    let mut lines: Vec<String> = Vec::new();
    let mut i: usize = 0;
    while i < instructions.len()
        invariant
            i <= instructions@.len(),
            lines.deep_view() =~= Seq::new(
                i as nat,
                |k: int| instruction_line(instructions@[k]@),
            ),
        decreases instructions@.len() - i,
    {
        let line: String = render_instruction(&instructions[i]);
        let ghost before = lines.deep_view();
        let ghost added = line@;
        lines.push(line);
        assert(lines.deep_view() =~= before.push(added));
        i += 1;
    }
    assert(lines.deep_view() =~= listing(instructions.deep_view()));
    lines
}

/// Decodes `bytes` as code placed at `address` and renders each instruction
/// as a display line. Bytes that cannot be decoded end the listing; they
/// never fail the call.
pub fn disassemble_bytes(bytes: &[u8], address: usize) -> (lines: Vec<String>)
    ensures
        lines.deep_view() == disassembly_of(bytes@, address as u64),
{
    let decoded: Vec<Instruction> = decode_instructions(bytes, address as u64);
    render_listing(&decoded)
}

} // verus!
