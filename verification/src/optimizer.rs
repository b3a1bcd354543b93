//! The optimizer: iterated peephole fusion over an instruction tree.
//!
//! A single pass walks the sequence left to right, building a new sequence:
//! a zero `ChangeVal` and a `Noop` are dropped, two adjacent same-kind
//! arithmetic instructions fuse into one with the summed delta (the sum wraps
//! as a signed byte), a `Loop` whose body was empty before optimization is
//! dropped, and every other instruction is kept. Fusion — and only fusion —
//! marks the pass as having changed something, and the driver repeats passes
//! until one changes nothing.
//!
//! The specification mirrors that driver with an explicit fuel argument so
//! that it is total; one pass strictly shrinks the tree whenever it reports a
//! change, so `seq_weight(s) + 1` passes always reach the fixed point and the
//! fuel never runs out on the path the executable code takes.

use crate::ast::Instruction;
use crate::ast::SpecInstr;
use crate::ast::deep;
use crate::ast::deep_seq;
use crate::ast::instr_weight;
use crate::ast::lemma_deep_seq;
use crate::ast::lemma_deep_seq_push;
use crate::ast::lemma_seq_weight_push;
use crate::ast::lemma_seq_weight_update;
use crate::ast::seq_weight;
use vstd::prelude::*;

verus! {

/// How one already-scanned instruction lands on the output sequence `acc`:
/// dropped, fused into the last emitted instruction, or appended.
pub open spec fn pass_step(acc: Seq<SpecInstr>, changed: bool, i: SpecInstr, fuel: nat) -> (Seq<
    SpecInstr,
>, bool)
    decreases fuel, instr_weight(i), 0int,
{
    match i {
        SpecInstr::ChangeVal(d) => if d == 0 {
            (acc, changed)
        } else if acc.len() > 0 && acc.last() is ChangeVal {
            (acc.update(acc.len() - 1, SpecInstr::ChangeVal(acc.last()->ChangeVal_0.wrapping_add(d))), true)
        } else {
            (acc.push(i), changed)
        },
        SpecInstr::ChangePtr(d) => if acc.len() > 0 && acc.last() is ChangePtr {
            (acc.update(acc.len() - 1, SpecInstr::ChangePtr(acc.last()->ChangePtr_0.wrapping_add(d))), true)
        } else {
            (acc.push(i), changed)
        },
        SpecInstr::Loop(b) => if b.len() == 0 {
            (acc, changed)
        } else {
            (acc.push(SpecInstr::Loop(opt_fuel(b, fuel))), changed)
        },
        SpecInstr::Noop => (acc, changed),
        _ => (acc.push(i), changed),
    }
}

/// One full pass over `s`, appending to `acc`, with `changed` carried along.
pub open spec fn one_pass(acc: Seq<SpecInstr>, changed: bool, s: Seq<SpecInstr>, fuel: nat) -> (
    Seq<SpecInstr>,
    bool,
)
    decreases fuel, seq_weight(s), 1int,
    via one_pass_decreases
{
    if s.len() == 0 {
        (acc, changed)
    } else {
        let (acc2, ch2) = pass_step(acc, changed, s[0], fuel);
        one_pass(acc2, ch2, s.drop_first(), fuel)
    }
}

#[via_fn]
proof fn one_pass_decreases(acc: Seq<SpecInstr>, changed: bool, s: Seq<SpecInstr>, fuel: nat) {
    if s.len() > 0 {
        assert(seq_weight(s) == instr_weight(s[0]) + seq_weight(s.drop_first()));
        assert(instr_weight(s[0]) >= 1);
    }
}

/// The driver: repeat passes until one reports no fusion, or the fuel runs
/// out (with fuel at least `seq_weight(s) + 1` it never does).
pub open spec fn opt_fuel(s: Seq<SpecInstr>, fuel: nat) -> Seq<SpecInstr>
    decreases fuel, seq_weight(s), 2int,
{
    if fuel == 0 {
        s
    } else {
        let (r, ch) = one_pass(Seq::empty(), false, s, fuel);
        if ch {
            opt_fuel(r, (fuel - 1) as nat)
        } else {
            r
        }
    }
}

/// What optimization yields: the fixed point of the pass.
pub open spec fn optimize_spec(s: Seq<SpecInstr>) -> Seq<SpecInstr> {
    opt_fuel(s, seq_weight(s) + 1)
}

/// One step never grows the output, shrinks it strictly when it is the step
/// that first reports a change, and never withdraws a reported change.
proof fn lemma_step_weight(acc: Seq<SpecInstr>, changed: bool, i: SpecInstr, fuel: nat)
    ensures
        ({
            let (r, ch) = pass_step(acc, changed, i, fuel);
            &&& seq_weight(r) <= seq_weight(acc) + instr_weight(i)
            &&& (changed ==> ch)
            &&& ((!changed && ch) ==> seq_weight(r) < seq_weight(acc) + instr_weight(i))
        }),
    decreases fuel, instr_weight(i), 0int,
{
    match i {
        SpecInstr::ChangeVal(d) => {
            if d != 0 && acc.len() > 0 && acc.last() is ChangeVal {
                lemma_seq_weight_update(
                    acc,
                    acc.len() - 1,
                    SpecInstr::ChangeVal(acc.last()->ChangeVal_0.wrapping_add(d)),
                );
            } else {
                lemma_seq_weight_push(acc, i);
            }
        },
        SpecInstr::ChangePtr(d) => {
            if acc.len() > 0 && acc.last() is ChangePtr {
                lemma_seq_weight_update(
                    acc,
                    acc.len() - 1,
                    SpecInstr::ChangePtr(acc.last()->ChangePtr_0.wrapping_add(d)),
                );
            } else {
                lemma_seq_weight_push(acc, i);
            }
        },
        SpecInstr::Loop(b) => {
            if b.len() > 0 {
                lemma_opt_weight(b, fuel);
                lemma_seq_weight_push(acc, SpecInstr::Loop(opt_fuel(b, fuel)));
            }
        },
        SpecInstr::Noop => {},
        _ => {
            lemma_seq_weight_push(acc, i);
        },
    }
}

/// A pass never grows the output and shrinks it strictly when it reports the
/// first change.
pub proof fn lemma_pass_weight(acc: Seq<SpecInstr>, changed: bool, s: Seq<SpecInstr>, fuel: nat)
    ensures
        ({
            let (r, ch) = one_pass(acc, changed, s, fuel);
            &&& seq_weight(r) <= seq_weight(acc) + seq_weight(s)
            &&& (changed ==> ch)
            &&& ((!changed && ch) ==> seq_weight(r) < seq_weight(acc) + seq_weight(s))
        }),
    decreases fuel, seq_weight(s), 1int,
{
    if s.len() > 0 {
        lemma_step_weight(acc, changed, s[0], fuel);
        let (acc2, ch2) = pass_step(acc, changed, s[0], fuel);
        lemma_pass_weight(acc2, ch2, s.drop_first(), fuel);
    }
}

/// The driver never grows the tree.
proof fn lemma_opt_weight(s: Seq<SpecInstr>, fuel: nat)
    ensures
        seq_weight(opt_fuel(s, fuel)) <= seq_weight(s),
    decreases fuel, seq_weight(s), 2int,
{
    if fuel > 0 {
        lemma_pass_weight(Seq::empty(), false, s, fuel);
        let (r, ch) = one_pass(Seq::empty(), false, s, fuel);
        if ch {
            lemma_opt_weight(r, (fuel - 1) as nat);
        }
    }
}

/// The fuel does not show once it covers the instruction's own weight.
proof fn lemma_step_fuel(acc: Seq<SpecInstr>, changed: bool, i: SpecInstr, f1: nat, f2: nat)
    requires
        f1 >= instr_weight(i),
        f2 >= instr_weight(i),
    ensures
        pass_step(acc, changed, i, f1) == pass_step(acc, changed, i, f2),
    decreases f1 + f2, instr_weight(i), 0int,
{
    match i {
        SpecInstr::Loop(b) => {
            if b.len() > 0 {
                lemma_opt_fuel_irrel(b, f1, f2);
            }
        },
        _ => {},
    }
}

/// The fuel does not show in a pass once it covers the sequence's weight.
proof fn lemma_pass_fuel(acc: Seq<SpecInstr>, changed: bool, s: Seq<SpecInstr>, f1: nat, f2: nat)
    requires
        f1 >= seq_weight(s),
        f2 >= seq_weight(s),
    ensures
        one_pass(acc, changed, s, f1) == one_pass(acc, changed, s, f2),
    decreases f1 + f2, seq_weight(s), 1int,
{
    if s.len() > 0 {
        lemma_step_fuel(acc, changed, s[0], f1, f2);
        let (acc2, ch2) = pass_step(acc, changed, s[0], f1);
        lemma_pass_fuel(acc2, ch2, s.drop_first(), f1, f2);
    }
}

/// The driver's result does not depend on the fuel once the fuel exceeds the
/// tree's weight.
pub proof fn lemma_opt_fuel_irrel(s: Seq<SpecInstr>, f1: nat, f2: nat)
    requires
        f1 >= seq_weight(s) + 1,
        f2 >= seq_weight(s) + 1,
    ensures
        opt_fuel(s, f1) == opt_fuel(s, f2),
    decreases f1 + f2, seq_weight(s), 2int,
{
    lemma_pass_fuel(Seq::empty(), false, s, f1, f2);
    lemma_pass_weight(Seq::empty(), false, s, f1);
    let (r, ch) = one_pass(Seq::empty(), false, s, f1);
    if ch {
        lemma_opt_fuel_irrel(r, (f1 - 1) as nat, (f2 - 1) as nat);
    }
}

/// One executable pass: walks the sequence once, fusing and dropping, and
/// reports whether a fusion occurred. Loop bodies are fully optimized.
#[verifier::loop_isolation(false)]
fn optimize_pass(ast: Vec<Instruction>) -> (r: (Vec<Instruction>, bool))
    ensures
        ({
            let (rs, ch) = one_pass(
                Seq::empty(),
                false,
                deep_seq(ast@),
                seq_weight(deep_seq(ast@)) + 1,
            );
            deep_seq(r.0@) == rs && r.1 == ch
        }),
    decreases seq_weight(deep_seq(ast@)), 0int,
{
    let ghost s0 = deep_seq(ast@);
    let ghost fuelv: nat = seq_weight(s0) + 1;
    let mut rest = ast;
    let mut new_ast: Vec<Instruction> = Vec::new();
    let mut changed = false;
    while rest.len() > 0
        invariant
            seq_weight(deep_seq(rest@)) <= seq_weight(s0),
            one_pass(Seq::empty(), false, s0, fuelv) == one_pass(
                deep_seq(new_ast@),
                changed,
                deep_seq(rest@),
                fuelv,
            ),
            fuelv == seq_weight(s0) + 1,
        decreases rest.len(),
    {
        let ghost prev_rest_v: Seq<Instruction> = rest@;
        let ghost prev_acc_v: Seq<Instruction> = new_ast@;
        let ghost prev_acc: Seq<SpecInstr> = deep_seq(prev_acc_v);
        let ghost prev_changed: bool = changed;
        let ins = rest.remove(0);
        let ghost insg = ins;
        proof {
            assert(rest@ =~= prev_rest_v.drop_first());
            assert(deep_seq(prev_rest_v) == seq![deep(insg)] + deep_seq(rest@));
            assert(deep_seq(prev_rest_v).drop_first() =~= deep_seq(rest@));
            assert(seq_weight(deep_seq(prev_rest_v)) == instr_weight(deep(insg)) + seq_weight(
                deep_seq(rest@),
            ));
            lemma_deep_seq(prev_acc_v);
        }
        let ghost step = pass_step(prev_acc, prev_changed, deep(insg), fuelv);
        match ins {
            Instruction::ChangeVal(d) => {
                if d != 0 {
                    if new_ast.len() > 0 {
                        let last = new_ast.pop().unwrap();
                        let ghost lastg = last;
                        proof {
                            assert(prev_acc.len() == prev_acc_v.len());
                            assert(prev_acc.last() == deep(lastg));
                        }
                        match last {
                            Instruction::ChangeVal(d2) => {
                                new_ast.push(Instruction::ChangeVal(d2.wrapping_add(d)));
                                changed = true;
                                proof {
                                    let y = Instruction::ChangeVal(d2.wrapping_add(d));
                                    assert(new_ast@ =~= prev_acc_v.update(
                                        prev_acc_v.len() - 1,
                                        y,
                                    ));
                                    crate::ast::lemma_deep_seq_update(
                                        prev_acc_v,
                                        prev_acc_v.len() - 1,
                                        y,
                                    );
                                    assert(deep_seq(new_ast@) == step.0);
                                }
                            },
                            other => {
                                let ghost otherg = other;
                                new_ast.push(other);
                                new_ast.push(Instruction::ChangeVal(d));
                                proof {
                                    assert(!(deep(otherg) is ChangeVal));
                                    assert(new_ast@ =~= prev_acc_v.push(
                                        Instruction::ChangeVal(d),
                                    ));
                                    lemma_deep_seq_push(prev_acc_v, Instruction::ChangeVal(d));
                                    assert(deep_seq(new_ast@) == step.0);
                                }
                            },
                        }
                    } else {
                        new_ast.push(Instruction::ChangeVal(d));
                        proof {
                            lemma_deep_seq_push(prev_acc_v, Instruction::ChangeVal(d));
                            assert(deep_seq(new_ast@) == step.0);
                        }
                    }
                }
            },
            Instruction::ChangePtr(d) => {
                if new_ast.len() > 0 {
                    let last = new_ast.pop().unwrap();
                    let ghost lastg = last;
                    proof {
                        assert(prev_acc.len() == prev_acc_v.len());
                        assert(prev_acc.last() == deep(lastg));
                    }
                    match last {
                        Instruction::ChangePtr(d2) => {
                            new_ast.push(Instruction::ChangePtr(d2.wrapping_add(d)));
                            changed = true;
                            proof {
                                let y = Instruction::ChangePtr(d2.wrapping_add(d));
                                assert(new_ast@ =~= prev_acc_v.update(prev_acc_v.len() - 1, y));
                                crate::ast::lemma_deep_seq_update(
                                    prev_acc_v,
                                    prev_acc_v.len() - 1,
                                    y,
                                );
                                assert(deep_seq(new_ast@) == step.0);
                            }
                        },
                        other => {
                            let ghost otherg = other;
                            new_ast.push(other);
                            new_ast.push(Instruction::ChangePtr(d));
                            proof {
                                assert(!(deep(otherg) is ChangePtr));
                                assert(new_ast@ =~= prev_acc_v.push(Instruction::ChangePtr(d)));
                                lemma_deep_seq_push(prev_acc_v, Instruction::ChangePtr(d));
                                assert(deep_seq(new_ast@) == step.0);
                            }
                        },
                    }
                } else {
                    new_ast.push(Instruction::ChangePtr(d));
                    proof {
                        lemma_deep_seq_push(prev_acc_v, Instruction::ChangePtr(d));
                        assert(deep_seq(new_ast@) == step.0);
                    }
                }
            },
            Instruction::Loop(b) => {
                proof {
                    crate::ast::lemma_deep_seq(b@);
                    assert(deep(insg) == SpecInstr::Loop(deep_seq(b@)));
                    assert(instr_weight(deep(insg)) == 1 + seq_weight(deep_seq(b@)));
                }
                if b.len() > 0 {
                    let ghost bv = deep_seq(b@);
                    let ob = optimize_ast(b);
                    proof {
                        lemma_opt_fuel_irrel(bv, seq_weight(bv) + 1, fuelv);
                    }
                    new_ast.push(Instruction::Loop(ob));
                    proof {
                        let ghost y = SpecInstr::Loop(opt_fuel(bv, fuelv));
                        lemma_deep_seq_push(prev_acc_v, new_ast@[new_ast@.len() - 1]);
                        assert(new_ast@ =~= prev_acc_v.push(new_ast@[new_ast@.len() - 1]));
                        assert(deep(new_ast@[new_ast@.len() - 1]) == y);
                        assert(deep_seq(new_ast@) == step.0);
                    }
                }
            },
            Instruction::Print => {
                new_ast.push(Instruction::Print);
                proof {
                    lemma_deep_seq_push(prev_acc_v, Instruction::Print);
                    assert(deep_seq(new_ast@) == step.0);
                }
            },
            Instruction::Input => {
                new_ast.push(Instruction::Input);
                proof {
                    lemma_deep_seq_push(prev_acc_v, Instruction::Input);
                    assert(deep_seq(new_ast@) == step.0);
                }
            },
            Instruction::Noop => {},
        }
        proof {
            assert(deep_seq(new_ast@) == step.0 && changed == step.1);
            assert(one_pass(prev_acc, prev_changed, deep_seq(prev_rest_v), fuelv) == one_pass(
                step.0,
                step.1,
                deep_seq(rest@),
                fuelv,
            ));
        }
    }
    (new_ast, changed)
}

/// Rewrites an instruction tree into an equivalent, smaller one: passes are
/// repeated until one produces no fusion.
pub fn optimize_ast(ast: Vec<Instruction>) -> (r: Vec<Instruction>)
    ensures
        deep_seq(r@) == optimize_spec(deep_seq(ast@)),
    decreases seq_weight(deep_seq(ast@)), 1int,
{
    let ghost s0 = deep_seq(ast@);
    let (new_ast, was_changed) = optimize_pass(ast);
    if was_changed {
        proof {
            lemma_pass_weight(Seq::empty(), false, s0, seq_weight(s0) + 1);
            lemma_opt_fuel_irrel(
                deep_seq(new_ast@),
                seq_weight(s0),
                seq_weight(deep_seq(new_ast@)) + 1,
            );
        }
        optimize_ast(new_ast)
    } else {
        new_ast
    }
}

} // verus!
