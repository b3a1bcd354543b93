//! Properties of the optimizer's fixed point.

use crate::ast::SpecInstr;
use crate::ast::instr_weight;
use crate::ast::seq_weight;
use crate::optimizer::one_pass;
use crate::optimizer::opt_fuel;
use crate::optimizer::optimize_spec;
use crate::optimizer::pass_step;
use vstd::prelude::*;

verus! {

/// Two instructions fuse when they are both cell changes or both pointer
/// moves.
pub open spec fn same_kind(a: SpecInstr, b: SpecInstr) -> bool {
    (a is ChangeVal && b is ChangeVal) || (a is ChangePtr && b is ChangePtr)
}

/// A single instruction the pass would keep as it is: not a placeholder, not
/// a zero cell change, and every loop body in it fully fused.
pub open spec fn fused_instr(i: SpecInstr) -> bool
    decreases i,
{
    match i {
        SpecInstr::Noop => false,
        SpecInstr::ChangeVal(d) => d != 0,
        SpecInstr::Loop(b) => fused_seq(b),
        _ => true,
    }
}

/// A sequence the pass would reproduce unchanged, except that loops with
/// emptied bodies may still be dropped: every element kept as it is and no
/// two adjacent elements fusible.
pub open spec fn fused_seq(s: Seq<SpecInstr>) -> bool
    decreases s,
{
    s.len() == 0 || (fused_instr(s[0]) && (s.len() == 1 || !same_kind(s[0], s[1]))
        && fused_seq(s.drop_first()))
}

/// No loop anywhere in the sequence has an empty body.
pub open spec fn no_empty_loops_instr(i: SpecInstr) -> bool
    decreases i,
{
    match i {
        SpecInstr::Loop(b) => b.len() > 0 && no_empty_loops_seq(b),
        _ => true,
    }
}

pub open spec fn no_empty_loops_seq(s: Seq<SpecInstr>) -> bool
    decreases s,
{
    s.len() == 0 || (no_empty_loops_instr(s[0]) && no_empty_loops_seq(s.drop_first()))
}

/// No placeholder remains anywhere in the sequence.
pub open spec fn placeholder_free_instr(i: SpecInstr) -> bool
    decreases i,
{
    match i {
        SpecInstr::Noop => false,
        SpecInstr::Loop(b) => placeholder_free_seq(b),
        _ => true,
    }
}

pub open spec fn placeholder_free_seq(s: Seq<SpecInstr>) -> bool
    decreases s,
{
    s.len() == 0 || (placeholder_free_instr(s[0]) && placeholder_free_seq(s.drop_first()))
}

/// Appending an instruction that does not fuse with the last one keeps a
/// sequence fused.
proof fn lemma_fused_push(acc: Seq<SpecInstr>, x: SpecInstr)
    requires
        fused_seq(acc),
        fused_instr(x),
        acc.len() > 0 ==> !same_kind(acc.last(), x),
    ensures
        fused_seq(acc.push(x)),
    decreases acc.len(),
{
    if acc.len() > 0 {
        assert(acc.push(x).drop_first() =~= acc.drop_first().push(x));
        if acc.len() == 1 {
            assert(acc.last() == acc[0]);
        }
        lemma_fused_push(acc.drop_first(), x);
        assert(fused_seq(acc.push(x)));
    } else {
        let p = acc.push(x);
        assert(p.len() == 1);
        assert(p[0] == x);
        assert(p.drop_first() =~= Seq::<SpecInstr>::empty());
        assert(fused_seq(p.drop_first()));
        assert(fused_seq(p));
    }
}

/// A step on a fused, non-empty-loop instruction whose kind differs from the
/// last emitted one only appends it.
proof fn lemma_step_fixed(acc: Seq<SpecInstr>, i: SpecInstr, fuel: nat)
    requires
        fused_instr(i),
        no_empty_loops_instr(i),
        acc.len() > 0 ==> !same_kind(acc.last(), i),
    ensures
        pass_step(acc, false, i, fuel) == (acc.push(i), false),
    decreases instr_weight(i), 0int,
{
    match i {
        SpecInstr::Loop(b) => {
            lemma_opt_fixed(b, fuel);
        },
        _ => {},
    }
}

/// A pass over a fused sequence with no empty loop bodies reproduces it and
/// reports no change.
proof fn lemma_pass_fixed(acc: Seq<SpecInstr>, s: Seq<SpecInstr>, fuel: nat)
    requires
        fused_seq(s),
        no_empty_loops_seq(s),
        acc.len() > 0 && s.len() > 0 ==> !same_kind(acc.last(), s[0]),
    ensures
        one_pass(acc, false, s, fuel) == (acc + s, false),
    decreases seq_weight(s), 1int,
{
    if s.len() == 0 {
        assert(acc + s =~= acc);
    } else {
        lemma_step_fixed(acc, s[0], fuel);
        assert(seq_weight(s) == instr_weight(s[0]) + seq_weight(s.drop_first()));
        lemma_pass_fixed(acc.push(s[0]), s.drop_first(), fuel);
        assert(acc.push(s[0]) + s.drop_first() =~= acc + s);
    }
}

/// The driver leaves a fused sequence with no empty loop bodies untouched.
proof fn lemma_opt_fixed(s: Seq<SpecInstr>, fuel: nat)
    requires
        fused_seq(s),
        no_empty_loops_seq(s),
    ensures
        opt_fuel(s, fuel) == s,
    decreases seq_weight(s), 2int,
{
    if fuel > 0 {
        lemma_pass_fixed(Seq::empty(), s, fuel);
        assert(Seq::empty() + s =~= s);
    }
}

/// A step keeps the output fused as long as no change has been reported, and
/// never withdraws a reported change.
proof fn lemma_step_fused(acc: Seq<SpecInstr>, changed: bool, i: SpecInstr, fuel: nat)
    requires
        !changed ==> fused_seq(acc),
        fuel >= instr_weight(i),
    ensures
        ({
            let (r, ch) = pass_step(acc, changed, i, fuel);
            &&& (changed ==> ch)
            &&& (!ch ==> fused_seq(r))
        }),
    decreases fuel, instr_weight(i), 0int,
{
    match i {
        SpecInstr::ChangeVal(d) => {
            if d != 0 && !(acc.len() > 0 && acc.last() is ChangeVal) && !changed {
                lemma_fused_push(acc, i);
            }
        },
        SpecInstr::ChangePtr(d) => {
            if !(acc.len() > 0 && acc.last() is ChangePtr) && !changed {
                lemma_fused_push(acc, i);
            }
        },
        SpecInstr::Loop(b) => {
            if b.len() > 0 && !changed {
                lemma_opt_fused(b, fuel);
                lemma_fused_push(acc, SpecInstr::Loop(opt_fuel(b, fuel)));
            }
        },
        SpecInstr::Noop => {},
        _ => {
            if !changed {
                lemma_fused_push(acc, i);
            }
        },
    }
}

/// A pass that reports no change leaves a fused output behind.
proof fn lemma_pass_fused(acc: Seq<SpecInstr>, changed: bool, s: Seq<SpecInstr>, fuel: nat)
    requires
        !changed ==> fused_seq(acc),
        fuel >= seq_weight(s),
    ensures
        ({
            let (r, ch) = one_pass(acc, changed, s, fuel);
            &&& (changed ==> ch)
            &&& (!ch ==> fused_seq(r))
        }),
    decreases fuel, seq_weight(s), 1int,
{
    if s.len() > 0 {
        assert(seq_weight(s) == instr_weight(s[0]) + seq_weight(s.drop_first()));
        lemma_step_fused(acc, changed, s[0], fuel);
        let (acc2, ch2) = pass_step(acc, changed, s[0], fuel);
        lemma_pass_fused(acc2, ch2, s.drop_first(), fuel);
    }
}

/// With enough fuel the driver reaches a fused sequence.
proof fn lemma_opt_fused(s: Seq<SpecInstr>, fuel: nat)
    requires
        fuel >= seq_weight(s) + 1,
    ensures
        fused_seq(opt_fuel(s, fuel)),
    decreases fuel, seq_weight(s), 2int,
{
    crate::optimizer::lemma_pass_weight(Seq::empty(), false, s, fuel);
    lemma_pass_fused(Seq::empty(), false, s, fuel);
    let (r, ch) = one_pass(Seq::empty(), false, s, fuel);
    if ch {
        lemma_opt_fused(r, (fuel - 1) as nat);
    }
}

/// Fused sequences hold no placeholder anywhere.
proof fn lemma_fused_placeholder_free(s: Seq<SpecInstr>)
    requires
        fused_seq(s),
    ensures
        placeholder_free_seq(s),
    decreases s,
{
    if s.len() > 0 {
        assert(fused_instr(s[0]));
        match s[0] {
            SpecInstr::Loop(b) => {
                assert(fused_seq(b));
                lemma_fused_placeholder_free(b);
            },
            _ => {},
        }
        lemma_fused_placeholder_free(s.drop_first());
        assert(placeholder_free_instr(s[0]));
        assert(placeholder_free_seq(s));
    }
}

/// Law: an optimized tree is fully fused — no placeholder, no zero cell
/// change, and no two adjacent fusible instructions remain, at any depth.
pub proof fn lemma_optimize_fused(s: Seq<SpecInstr>)
    ensures
        fused_seq(optimize_spec(s)),
{
    lemma_opt_fused(s, seq_weight(s) + 1);
}

/// Law: every placeholder parsed from an unrecognized character disappears
/// after optimization.
pub proof fn lemma_optimize_strips_placeholders(s: Seq<SpecInstr>)
    ensures
        placeholder_free_seq(optimize_spec(s)),
{
    lemma_optimize_fused(s);
    lemma_fused_placeholder_free(optimize_spec(s));
}

/// Law: optimization is idempotent on every input whose optimized form keeps
/// no loop with an empty body. The restriction is needed: a loop whose body
/// fuses away entirely survives one optimization as a loop node with an empty
/// body, and a second optimization then drops that node.
pub proof fn lemma_optimize_idempotent(s: Seq<SpecInstr>)
    requires
        no_empty_loops_seq(optimize_spec(s)),
    ensures
        optimize_spec(optimize_spec(s)) == optimize_spec(s),
{
    lemma_optimize_fused(s);
    lemma_opt_fixed(optimize_spec(s), seq_weight(optimize_spec(s)) + 1);
}

} // verus!
