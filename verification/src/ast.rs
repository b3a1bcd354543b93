//! The instruction tree of the eight-symbol tape language, together with its
//! mathematical mirror used by every contract in this crate.

use vstd::prelude::*;

verus! {

/// One node of the instruction tree.
///
/// `ChangePtr` and `ChangeVal` carry a raw signed 8-bit delta; the consumers
/// take the delta modulo 256, the tree itself stores it untouched. `Loop`
/// exclusively owns its body. `Noop` marks an unrecognized source character
/// and survives only until the optimizer runs.
#[derive(Debug)]
pub enum Instruction {
    ChangePtr(i8),
    ChangeVal(i8),
    Loop(Vec<Instruction>),
    Print,
    Input,
    Noop,
}

/// The mathematical mirror of `Instruction`: a `Loop` body is a `Seq` instead
/// of a `Vec`, so the contracts can speak of trees as pure values.
pub enum SpecInstr {
    ChangePtr(i8),
    ChangeVal(i8),
    Loop(Seq<SpecInstr>),
    Print,
    Input,
    Noop,
}

/// The deep view of one instruction: every `Vec` below it becomes a `Seq`.
pub open spec fn deep(i: Instruction) -> SpecInstr
    decreases i,
{
    match i {
        Instruction::ChangePtr(d) => SpecInstr::ChangePtr(d),
        Instruction::ChangeVal(d) => SpecInstr::ChangeVal(d),
        Instruction::Loop(b) => SpecInstr::Loop(deep_seq(b@)),
        Instruction::Print => SpecInstr::Print,
        Instruction::Input => SpecInstr::Input,
        Instruction::Noop => SpecInstr::Noop,
    }
}

/// The deep view of a whole instruction sequence.
pub open spec fn deep_seq(s: Seq<Instruction>) -> Seq<SpecInstr>
    decreases s,
{
    if s.len() == 0 {
        Seq::empty()
    } else {
        seq![deep(s[0])] + deep_seq(s.drop_first())
    }
}

pub proof fn lemma_deep_seq(s: Seq<Instruction>)
    ensures
        deep_seq(s).len() == s.len(),
        forall|i: int| 0 <= i < s.len() ==> deep_seq(s)[i] == deep(s[i]),
    decreases s.len(),
{
    if s.len() > 0 {
        lemma_deep_seq(s.drop_first());
    }
}

pub proof fn lemma_deep_seq_push(s: Seq<Instruction>, x: Instruction)
    ensures
        deep_seq(s.push(x)) == deep_seq(s).push(deep(x)),
{
    lemma_deep_seq(s);
    lemma_deep_seq(s.push(x));
    assert(deep_seq(s.push(x)) =~= deep_seq(s).push(deep(x)));
}

pub proof fn lemma_deep_seq_update(s: Seq<Instruction>, i: int, x: Instruction)
    requires
        0 <= i < s.len(),
    ensures
        deep_seq(s.update(i, x)) == deep_seq(s).update(i, deep(x)),
{
    lemma_deep_seq(s);
    lemma_deep_seq(s.update(i, x));
    assert(deep_seq(s.update(i, x)) =~= deep_seq(s).update(i, deep(x)));
}

/// The number of nodes in one instruction, loop bodies included. Never zero.
pub open spec fn instr_weight(i: SpecInstr) -> nat
    decreases i,
{
    1 + match i {
        SpecInstr::Loop(b) => seq_weight(b),
        _ => 0,
    }
}

/// The number of nodes in a sequence, loop bodies included.
pub open spec fn seq_weight(s: Seq<SpecInstr>) -> nat
    decreases s,
{
    if s.len() == 0 {
        0
    } else {
        instr_weight(s[0]) + seq_weight(s.drop_first())
    }
}

pub proof fn lemma_seq_weight_push(s: Seq<SpecInstr>, x: SpecInstr)
    ensures
        seq_weight(s.push(x)) == seq_weight(s) + instr_weight(x),
    decreases s.len(),
{
    if s.len() == 0 {
        assert(s.push(x).drop_first() =~= s);
    } else {
        assert(s.push(x).drop_first() =~= s.drop_first().push(x));
        lemma_seq_weight_push(s.drop_first(), x);
    }
}

pub proof fn lemma_seq_weight_update(s: Seq<SpecInstr>, i: int, x: SpecInstr)
    requires
        0 <= i < s.len(),
    ensures
        seq_weight(s.update(i, x)) == seq_weight(s) - instr_weight(s[i]) + instr_weight(x),
    decreases s.len(),
{
    if i == 0 {
        assert(s.update(0, x).drop_first() =~= s.drop_first());
    } else {
        assert(s.update(i, x).drop_first() =~= s.drop_first().update(i - 1, x));
        lemma_seq_weight_update(s.drop_first(), i - 1, x);
    }
}

/// Structural equality of two instructions, decided as the deep views demand.
pub fn instr_eq(a: &Instruction, b: &Instruction) -> (r: bool)
    ensures
        r == (deep(*a) == deep(*b)),
    decreases instr_weight(deep(*a)), 0int,
{
    match (a, b) {
        (Instruction::ChangePtr(x), Instruction::ChangePtr(y)) => x == y,
        (Instruction::ChangeVal(x), Instruction::ChangeVal(y)) => x == y,
        (Instruction::Loop(ba), Instruction::Loop(bb)) => {
            proof {
                assert(instr_weight(deep(*a)) == 1 + seq_weight(deep_seq(ba@)));
            }
            ast_eq(ba, bb)
        },
        (Instruction::Print, Instruction::Print) => true,
        (Instruction::Input, Instruction::Input) => true,
        (Instruction::Noop, Instruction::Noop) => true,
        _ => false,
    }
}

/// Structural equality of two instruction sequences.
#[verifier::loop_isolation(false)]
pub fn ast_eq(a: &Vec<Instruction>, b: &Vec<Instruction>) -> (r: bool)
    ensures
        r == (deep_seq(a@) == deep_seq(b@)),
    decreases seq_weight(deep_seq(a@)), 1int,
{
    proof {
        lemma_deep_seq(a@);
        lemma_deep_seq(b@);
    }
    if a.len() != b.len() {
        return false;
    }
    let mut i: usize = 0;
    while i < a.len()
        invariant
            i <= a.len(),
            a@.len() == b@.len(),
            forall|j: int| 0 <= j < i ==> deep_seq(a@)[j] == deep_seq(b@)[j],
        decreases a@.len() - i,
    {
        proof {
            lemma_seq_weight_elem(deep_seq(a@), i as int);
        }
        if !instr_eq(&a[i], &b[i]) {
            proof {
                assert(deep_seq(a@)[i as int] != deep_seq(b@)[i as int]);
            }
            return false;
        }
        i = i + 1;
    }
    proof {
        assert(deep_seq(a@) =~= deep_seq(b@));
    }
    true
}

/// Every element of a sequence weighs no more than the whole sequence.
pub proof fn lemma_seq_weight_elem(s: Seq<SpecInstr>, i: int)
    requires
        0 <= i < s.len(),
    ensures
        instr_weight(s[i]) <= seq_weight(s),
    decreases s.len(),
{
    if i > 0 {
        lemma_seq_weight_elem(s.drop_first(), i - 1);
    }
}

} // verus!
