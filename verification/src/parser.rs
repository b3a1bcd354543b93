//! The parser: a character stream becomes an instruction tree.
//!
//! Bracket handling is deliberately permissive: a stray `]` at the top level
//! is ignored, and an unterminated `[` absorbs the rest of the input into its
//! body while the enclosing invocation keeps scanning after it. Both are part
//! of the contract, not defects.

use crate::ast::Instruction;
use crate::ast::SpecInstr;
use crate::ast::deep;
use crate::ast::deep_seq;
use crate::ast::lemma_deep_seq_push;
use vstd::prelude::*;

verus! {

/// The instruction one source character stands for. Every character outside
/// the eight recognized ones becomes `Noop`.
pub open spec fn spec_char_instr(c: char) -> SpecInstr {
    if c == '+' {
        SpecInstr::ChangeVal(1)
    } else if c == '-' {
        SpecInstr::ChangeVal(-1i8)
    } else if c == '>' {
        SpecInstr::ChangePtr(1)
    } else if c == '<' {
        SpecInstr::ChangePtr(-1i8)
    } else if c == '.' {
        SpecInstr::Print
    } else if c == ',' {
        SpecInstr::Input
    } else {
        SpecInstr::Noop
    }
}

/// One parsing invocation over `s`, scanning from absolute index `i`.
///
/// `start` is the absolute index at which this invocation began: the consumed
/// count returned on `]` is relative to it. `skip` is the absolute index below
/// which characters were already consumed by an inner invocation. The result
/// is the instruction sequence from `i` on, and the consumed count: position
/// of the terminating `]` relative to `start`, plus two, or zero when the end
/// of the input is reached.
///
/// `[` hands the rest of the input to a fresh invocation, wraps what it got
/// back in a `Loop`, and skips the characters that invocation consumed. `]`
/// ends a non-top-level invocation; at the top level it is ignored.
pub open spec fn spec_parse_from(s: Seq<char>, i: int, skip: int, base: bool, start: int) -> (Seq<
    SpecInstr,
>, int)
    decreases s.len() - i,
{
    if i >= s.len() {
        (Seq::empty(), 0)
    } else if i < skip {
        spec_parse_from(s, i + 1, skip, base, start)
    } else if s[i] == '[' {
        let (body, c) = spec_parse_from(s, i + 1, 0, false, i + 1);
        let (rest, consumed) = spec_parse_from(s, i + 1, i + c, base, start);
        (seq![SpecInstr::Loop(body)] + rest, consumed)
    } else if s[i] == ']' {
        if base {
            spec_parse_from(s, i + 1, skip, base, start)
        } else {
            (Seq::empty(), i - start + 2)
        }
    } else {
        let (rest, consumed) = spec_parse_from(s, i + 1, skip, base, start);
        (seq![spec_char_instr(s[i])] + rest, consumed)
    }
}

/// What parsing a whole input yields: the instruction sequence and the
/// consumed count of the outermost invocation.
pub open spec fn spec_parse(s: Seq<char>, base: bool) -> (Seq<SpecInstr>, int) {
    spec_parse_from(s, 0, 0, base, 0)
}

/// The consumed count never exceeds the scanned suffix length plus one.
proof fn lemma_parse_consumed_bound(s: Seq<char>, i: int, skip: int, base: bool, start: int)
    requires
        start <= i,
        start <= s.len(),
    ensures
        0 <= spec_parse_from(s, i, skip, base, start).1 <= s.len() - start + 1,
    decreases s.len() - i,
{
    if i >= s.len() {
    } else if i < skip {
        lemma_parse_consumed_bound(s, i + 1, skip, base, start);
    } else if s[i] == '[' {
        lemma_parse_consumed_bound(s, i + 1, i + spec_parse_from(s, i + 1, 0, false, i + 1).1, base, start);
    } else if s[i] == ']' {
        if base {
            lemma_parse_consumed_bound(s, i + 1, skip, base, start);
        }
    } else {
        lemma_parse_consumed_bound(s, i + 1, skip, base, start);
    }
}

/// Parses the source text into an instruction tree.
///
/// Returns the tree together with the consumed count of the outermost
/// invocation, which is meaningful only when `base` is false (it is how a
/// recursive invocation tells its caller how far the loop body reached).
pub fn generate_ast(program: &str, base: bool) -> (r: (Vec<Instruction>, usize))
    requires
        program@.len() + 2 <= usize::MAX,
    ensures
        deep_seq(r.0@) == spec_parse(program@, base).0,
        r.1 == spec_parse(program@, base).1,
{
    parse_at(program, 0, base)
}

/// One exec parsing invocation, mirroring `spec_parse_from` from `start`.
fn parse_at(s: &str, start: usize, base: bool) -> (r: (Vec<Instruction>, usize))
    requires
        s@.len() + 2 <= usize::MAX,
        start <= s@.len(),
    ensures
        deep_seq(r.0@) == spec_parse_from(s@, start as int, 0, base, start as int).0,
        r.1 == spec_parse_from(s@, start as int, 0, base, start as int).1,
    decreases s@.len() - start,
{
    let n = s.unicode_len();
    let mut ast: Vec<Instruction> = Vec::new();
    let mut i: usize = start;
    let mut skip: usize = 0;
    while i < n
        invariant
            s@.len() + 2 <= usize::MAX,
            n == s@.len(),
            start <= i,
            spec_parse_from(s@, start as int, 0, base, start as int) == {
                let (rest, consumed) = spec_parse_from(s@, i as int, skip as int, base, start as int);
                (deep_seq(ast@) + rest, consumed)
            },
        decreases n - i,
    {
        let ghost pre = spec_parse_from(s@, i as int, skip as int, base, start as int);
        if i < skip {
            i = i + 1;
        } else {
            let c = s.get_char(i);
            match c {
                '[' => {
                    let (body, consumed) = parse_at(s, i + 1, false);
                    proof {
                        lemma_parse_consumed_bound(s@, i + 1, 0, false, i + 1);
                        lemma_deep_seq_push(ast@, Instruction::Loop(body));
                        let inner = spec_parse_from(s@, i as int + 1, i + consumed, base, start as int);
                        assert(pre.0 =~= seq![deep(Instruction::Loop(body))] + inner.0);
                        assert(deep_seq(ast@) + pre.0 =~= deep_seq(ast@).push(
                            deep(Instruction::Loop(body)),
                        ) + inner.0);
                    }
                    skip = i + consumed;
                    ast.push(Instruction::Loop(body));
                    i = i + 1;
                },
                ']' => {
                    if !base {
                        proof {
                            assert(deep_seq(ast@) + pre.0 =~= deep_seq(ast@));
                        }
                        return (ast, i - start + 2);
                    }
                    i = i + 1;
                },
                _ => {
                    let ins = match c {
                        '+' => Instruction::ChangeVal(1),
                        '-' => Instruction::ChangeVal(-1),
                        '>' => Instruction::ChangePtr(1),
                        '<' => Instruction::ChangePtr(-1),
                        '.' => Instruction::Print,
                        ',' => Instruction::Input,
                        _ => Instruction::Noop,
                    };
                    proof {
                        lemma_deep_seq_push(ast@, ins);
                        let inner = spec_parse_from(s@, i as int + 1, skip as int, base, start as int);
                        assert(pre.0 =~= seq![spec_char_instr(s@[i as int])] + inner.0);
                        assert(deep_seq(ast@) + pre.0 =~= deep_seq(ast@).push(deep(ins)) + inner.0);
                    }
                    ast.push(ins);
                    i = i + 1;
                },
            }
        }
    }
    proof {
        assert(deep_seq(ast@) + spec_parse_from(s@, i as int, skip as int, base, start as int).0
            =~= deep_seq(ast@));
    }
    (ast, 0)
}

} // verus!
