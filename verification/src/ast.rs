//! The instruction tree produced by the parser, and the spec-level mapping
//! from a tree back to the source text it was parsed from.

use vstd::prelude::*;

verus! {

/// One node of the parsed program tree: either a primitive single-symbol
/// action or a loop holding an ordered body of further instructions.
#[derive(Debug, PartialEq)]
pub enum Instruction {
    RightShift,
    LeftShift,
    Increment,
    Decrement,
    Output,
    Input,
    Loop(Vec<Instruction>),
}

/// The complete ordered top-level instruction sequence of a parsed source
/// unit.
#[derive(Debug, PartialEq)]
pub struct BrainfuckProgram(Vec<Instruction>);

impl View for BrainfuckProgram {
    type V = Seq<Instruction>;

    closed spec fn view(&self) -> Seq<Instruction> {
        self.0@
    }
}

impl BrainfuckProgram {
    /// Wraps a top-level instruction sequence as a program.
    pub fn new(instructions: Vec<Instruction>) -> (p: BrainfuckProgram)
        ensures
            p@ == instructions@,
    {
        BrainfuckProgram(instructions)
    }

    /// The ordered instructions of the program, for read-only traversal.
    pub fn instructions(&self) -> (r: &Vec<Instruction>)
        ensures
            r@ == self@,
    {
        &self.0
    }
}

/// The source text that denotes one instruction: a single symbol for a leaf,
/// and the bracketed source of the body for a loop.
pub open spec fn inst_source(i: Instruction) -> Seq<char>
    decreases i,
{
    match i {
        Instruction::RightShift => seq!['>'],
        Instruction::LeftShift => seq!['<'],
        Instruction::Increment => seq!['+'],
        Instruction::Decrement => seq!['-'],
        Instruction::Output => seq!['.'],
        Instruction::Input => seq![','],
        Instruction::Loop(body) => seq!['['] + insts_source(body@) + seq![']'],
    }
}

/// The source text that denotes an instruction sequence: the concatenation of
/// the sources of its elements, in order.
pub open spec fn insts_source(s: Seq<Instruction>) -> Seq<char>
    decreases s,
{
    if s.len() == 0 {
        Seq::empty()
    } else {
        inst_source(s[0]) + insts_source(s.drop_first())
    }
}

/// Appending an instruction to a sequence appends its source text.
pub proof fn lemma_insts_source_push(s: Seq<Instruction>, i: Instruction)
    ensures
        insts_source(s.push(i)) == insts_source(s) + inst_source(i),
    decreases s.len(),
{
    if s.len() == 0 {
        assert(s.push(i).drop_first() =~= Seq::<Instruction>::empty());
        assert(s.push(i)[0] == i);
        assert(insts_source(Seq::<Instruction>::empty()) == Seq::<char>::empty());
        assert(insts_source(s.push(i)) == inst_source(i) + Seq::<char>::empty());
        assert(insts_source(s.push(i)) =~= insts_source(s) + inst_source(i));
    } else {
        lemma_insts_source_push(s.drop_first(), i);
        assert(s.push(i).drop_first() =~= s.drop_first().push(i));
        assert(s.push(i)[0] == s[0]);
        assert(insts_source(s.push(i)) == inst_source(s[0]) + insts_source(s.drop_first().push(i)));
        assert(insts_source(s.push(i)) == inst_source(s[0]) + (insts_source(s.drop_first()) + inst_source(i)));
        assert(insts_source(s.push(i)) =~= insts_source(s) + inst_source(i));
    }
}

} // verus!
