use vstd::prelude::*;

use crate::function::FnSignature;
use crate::optimizer::InstructionKind;
use crate::variable::{VarV, Variable};

verus! {

/// Ghost model of a pre-inlining instruction; identifiers are character
/// sequences and nested bodies are sequences of the same model.
#[verifier::ext_equal]
pub enum InstV {
    Noop,
    Print,
    Add(VarV),
    Sub(VarV),
    SetConst(VarV),
    Goto(VarV),
    Left(VarV),
    Right(VarV),
    Reset,
    FnCall(Seq<char>, Seq<VarV>),
    Fn(Seq<char>, Seq<Seq<char>>, Seq<InstV>),
    Loop(Seq<InstV>),
}

/// A pre-inlining instruction, as produced by the parser: operands may still
/// be named parameters, and function declarations and calls are present.
#[derive(Debug)]
pub enum Instruction {
    Noop,
    Print,
    Add(Variable),
    Sub(Variable),
    SetConst(Variable),
    Goto(Variable),
    Left(Variable),
    Right(Variable),
    Reset,
    FnCall(String, Vec<Variable>),
    Fn(String, FnSignature, Vec<Instruction>),
    Loop(Vec<Instruction>),
}

pub open spec fn vars_view(s: Seq<Variable>) -> Seq<VarV> {
    s.map_values(|v: Variable| v@)
}

pub open spec fn inst_view(i: Instruction) -> InstV
    decreases i,
{
    match i {
        Instruction::Noop => InstV::Noop,
        Instruction::Print => InstV::Print,
        Instruction::Add(v) => InstV::Add(v@),
        Instruction::Sub(v) => InstV::Sub(v@),
        Instruction::SetConst(v) => InstV::SetConst(v@),
        Instruction::Goto(v) => InstV::Goto(v@),
        Instruction::Left(v) => InstV::Left(v@),
        Instruction::Right(v) => InstV::Right(v@),
        Instruction::Reset => InstV::Reset,
        Instruction::FnCall(name, args) => InstV::FnCall(name@, vars_view(args@)),
        Instruction::Fn(name, sig, body) => InstV::Fn(name@, sig@, insts_view(body@)),
        Instruction::Loop(inner) => InstV::Loop(insts_view(inner@)),
    }
}

pub open spec fn insts_view(s: Seq<Instruction>) -> Seq<InstV>
    decreases s,
{
    if s.len() == 0 {
        Seq::empty()
    } else {
        insts_view(s.drop_last()).push(inst_view(s.last()))
    }
}

impl View for Instruction {
    type V = InstV;

    open spec fn view(&self) -> InstV {
        inst_view(*self)
    }
}

pub broadcast proof fn lemma_insts_view_len(s: Seq<Instruction>)
    ensures
        (#[trigger] insts_view(s)).len() == s.len(),
    decreases s,
{
    if s.len() > 0 {
        lemma_insts_view_len(s.drop_last());
    }
}

pub broadcast proof fn lemma_insts_view_index(s: Seq<Instruction>, i: int)
    requires
        0 <= i < s.len(),
    ensures
        #[trigger] insts_view(s)[i] == inst_view(s[i]),
    decreases s,
{
    lemma_insts_view_len(s);
    if i < s.len() - 1 {
        lemma_insts_view_index(s.drop_last(), i);
    }
}

pub broadcast proof fn lemma_insts_view_push(s: Seq<Instruction>, x: Instruction)
    ensures
        #[trigger] insts_view(s.push(x)) == insts_view(s).push(inst_view(x)),
{
    assert(s.push(x).drop_last() =~= s);
    assert(s.push(x).last() == x);
}

pub proof fn lemma_insts_view_drop_first(s: Seq<Instruction>)
    requires
        s.len() > 0,
    ensures
        insts_view(s.drop_first()) == insts_view(s).drop_first(),
        insts_view(s).first() == inst_view(s.first()),
        insts_view(s).len() == s.len(),
{
    lemma_insts_view_len(s);
    lemma_insts_view_len(s.drop_first());
    assert(insts_view(s.drop_first()) =~= insts_view(s).drop_first()) by {
        assert forall|i: int| 0 <= i < s.len() - 1 implies insts_view(s.drop_first())[i]
            == insts_view(s).drop_first()[i] by {
            lemma_insts_view_index(s.drop_first(), i);
            lemma_insts_view_index(s, i + 1);
            assert(s.drop_first()[i] == s[i + 1]);
        }
    };
    lemma_insts_view_index(s, 0);
}

/// Structural size of a pre-inlining instruction tree; the termination
/// measure for the passes that recurse into nested bodies.
pub open spec fn inst_size(i: InstV) -> nat
    decreases i,
{
    match i {
        InstV::Loop(b) => 2 + insts_size(b),
        InstV::Fn(_, _, b) => 2 + insts_size(b),
        _ => 1,
    }
}

pub open spec fn insts_size(s: Seq<InstV>) -> nat
    decreases s,
{
    if s.len() == 0 {
        0
    } else {
        insts_size(s.drop_last()) + inst_size(s.last())
    }
}

pub proof fn lemma_inst_size_pos(i: InstV)
    ensures
        inst_size(i) >= 1,
{
}

pub proof fn lemma_insts_size_index(s: Seq<InstV>, i: int)
    requires
        0 <= i < s.len(),
    ensures
        inst_size(s[i]) <= insts_size(s),
    decreases s,
{
    if i < s.len() - 1 {
        lemma_insts_size_index(s.drop_last(), i);
    }
}

/// An instruction tree that holds no function declaration at any depth.
/// Declarations are hoisted out before inlining; the design does not support
/// nested ones, and the passes past the table builder never meet one.
pub open spec fn decl_free_inst(i: InstV) -> bool
    decreases i,
{
    match i {
        InstV::Fn(_, _, _) => false,
        InstV::Loop(b) => decl_free_seq(b),
        _ => true,
    }
}

pub open spec fn decl_free_seq(s: Seq<InstV>) -> bool
    decreases s,
{
    if s.len() == 0 {
        true
    } else {
        decl_free_seq(s.drop_last()) && decl_free_inst(s.last())
    }
}

pub proof fn lemma_decl_free_index(s: Seq<InstV>, i: int)
    requires
        decl_free_seq(s),
        0 <= i < s.len(),
    ensures
        decl_free_inst(s[i]),
    decreases s,
{
    if i < s.len() - 1 {
        lemma_decl_free_index(s.drop_last(), i);
    }
}

/// The optimizer-facing classification of a pre-inlining instruction.
pub open spec fn kind_of(i: InstV) -> InstructionKind {
    match i {
        InstV::Add(_) | InstV::Sub(_) | InstV::Left(_) | InstV::Right(_) => InstructionKind::Linear,
        InstV::Noop | InstV::SetConst(_) | InstV::Goto(_) => InstructionKind::Replaceable,
        _ => InstructionKind::Any,
    }
}

impl Instruction {
    /// Classifies this instruction for the peephole optimizer's pairwise
    /// rules.
    #[inline]
    pub fn get_type(&self) -> (k: InstructionKind)
        ensures
            k == kind_of(self@),
    {
        match self {
            Self::Add(_) | Self::Sub(_) | Self::Left(_) | Self::Right(_) => InstructionKind::Linear,
            Self::Noop | Self::SetConst(_) | Self::Goto(_) => InstructionKind::Replaceable,
            _ => InstructionKind::Any,
        }
    }
}

} // verus!
