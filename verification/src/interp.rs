//! The interpreter: executes an instruction tree against a 256-byte tape with
//! an 8-bit cursor; all cell and cursor arithmetic wraps modulo 256.
//!
//! Two peculiarities of the execution model are deliberate and kept exactly:
//! a loop body starts with the cursor forced to 0 (not the enclosing cursor),
//! and the enclosing cursor is left unchanged by a loop, while the tape, the
//! input stream and the output carry through. After a sequence run inside a
//! loop, the whole sequence is re-executed from cursor 0 when the cell at the
//! current cursor is nonzero.
//!
//! Input and output are plain values here: the input stream is a sequence of
//! byte codes, one consumed per `Input` instruction (0 is stored once the
//! stream is exhausted), and the output is the sequence of emitted byte
//! codes. Loops need not terminate, so execution takes a fuel bound on loop
//! entries and restarts and reports `None` when it runs out.

use crate::ast::Instruction;
use crate::ast::SpecInstr;
use crate::ast::deep_seq;
use crate::ast::lemma_deep_seq;
use vstd::prelude::*;

verus! {

/// The mathematical machine state: cursor, tape, remaining input, output.
pub struct MachState {
    pub ptr: u8,
    pub tape: Seq<u8>,
    pub inp: Seq<u8>,
    pub out: Seq<u8>,
}

/// The executable machine state. `pos` counts the inputs consumed so far.
pub struct InterpState {
    pub ptr: u8,
    pub tape: Vec<u8>,
    pub pos: usize,
    pub out: Vec<u8>,
}

/// What an executable state means, given the whole input stream.
pub open spec fn abs_state(st: InterpState, inputs: Seq<u8>) -> MachState {
    MachState { ptr: st.ptr, tape: st.tape@, inp: inputs.skip(st.pos as int), out: st.out@ }
}

pub open spec fn wf_state(st: InterpState, inputs: Seq<u8>) -> bool {
    st.tape@.len() == 256 && st.pos <= inputs.len()
}

/// Runs `s` from index `i` in state `st`. `in_loop` marks an invocation that
/// came from a `Loop` node: when the sequence ends and the cell at the
/// current cursor is nonzero, the whole sequence restarts from cursor 0.
/// Every loop entry and restart consumes one unit of fuel; `None` means the
/// fuel ran out.
pub open spec fn run_from(
    s: Seq<SpecInstr>,
    i: int,
    st: MachState,
    in_loop: bool,
    fuel: nat,
) -> Option<MachState>
    recommends
        st.tape.len() == 256,
    decreases fuel, s.len() - i,
{
    if i >= s.len() {
        if in_loop && st.tape[st.ptr as int] > 0 {
            if fuel == 0 {
                None
            } else {
                run_from(s, 0, MachState { ptr: 0, ..st }, true, (fuel - 1) as nat)
            }
        } else {
            Some(st)
        }
    } else {
        match s[i] {
            SpecInstr::ChangePtr(d) => run_from(
                s,
                i + 1,
                MachState { ptr: st.ptr.wrapping_add_signed(d), ..st },
                in_loop,
                fuel,
            ),
            SpecInstr::ChangeVal(d) => run_from(
                s,
                i + 1,
                MachState {
                    tape: st.tape.update(
                        st.ptr as int,
                        st.tape[st.ptr as int].wrapping_add_signed(d),
                    ),
                    ..st
                },
                in_loop,
                fuel,
            ),
            SpecInstr::Loop(b) => if fuel == 0 {
                None
            } else {
                match run_from(b, 0, MachState { ptr: 0, ..st }, true, (fuel - 1) as nat) {
                    Option::None => None,
                    Option::Some(st2) => run_from(
                        s,
                        i + 1,
                        MachState { ptr: st.ptr, ..st2 },
                        in_loop,
                        fuel,
                    ),
                }
            },
            SpecInstr::Print => run_from(
                s,
                i + 1,
                MachState { out: st.out.push(st.tape[st.ptr as int]), ..st },
                in_loop,
                fuel,
            ),
            SpecInstr::Input => run_from(
                s,
                i + 1,
                MachState {
                    tape: st.tape.update(
                        st.ptr as int,
                        if st.inp.len() > 0 {
                            st.inp[0]
                        } else {
                            0
                        },
                    ),
                    inp: if st.inp.len() > 0 {
                        st.inp.drop_first()
                    } else {
                        st.inp
                    },
                    ..st
                },
                in_loop,
                fuel,
            ),
            SpecInstr::Noop => run_from(s, i + 1, st, in_loop, fuel),
        }
    }
}

/// The machine state a whole program run reaches: zeroed 256-byte tape,
/// cursor 0, the given input stream, empty output.
pub open spec fn run_program(s: Seq<SpecInstr>, inputs: Seq<u8>, fuel: nat) -> Option<MachState> {
    run_from(
        s,
        0,
        MachState { ptr: 0, tape: Seq::new(256, |j: int| 0u8), inp: inputs, out: Seq::empty() },
        false,
        fuel,
    )
}

/// One executable invocation, mirroring `run_from` from index 0.
#[verifier::loop_isolation(false)]
fn run_rec(ast: &Vec<Instruction>, inputs: &Vec<u8>, state: InterpState, in_loop: bool, fuel: u64)
    -> (r: Option<InterpState>)
    requires
        wf_state(state, inputs@),
    ensures
        ({
            let rr = run_from(deep_seq(ast@), 0, abs_state(state, inputs@), in_loop, fuel as nat);
            match r {
                Option::Some(st2) => wf_state(st2, inputs@) && rr == Some(abs_state(st2, inputs@)),
                Option::None => rr is None,
            }
        }),
    decreases fuel,
{
    let ghost ds = deep_seq(ast@);
    let ghost a0 = abs_state(state, inputs@);
    proof {
        lemma_deep_seq(ast@);
    }
    let mut st = state;
    let mut i: usize = 0;
    while i < ast.len()
        invariant
            i <= ast.len(),
            wf_state(st, inputs@),
            run_from(ds, 0, a0, in_loop, fuel as nat) == run_from(
                ds,
                i as int,
                abs_state(st, inputs@),
                in_loop,
                fuel as nat,
            ),
        decreases ast.len() - i,
    {
        let ghost pre = abs_state(st, inputs@);
        match &ast[i] {
            Instruction::ChangePtr(d) => {
                st.ptr = st.ptr.wrapping_add_signed(*d);
            },
            Instruction::ChangeVal(d) => {
                let idx = st.ptr as usize;
                let v = st.tape[idx];
                st.tape[idx] = v.wrapping_add_signed(*d);
            },
            Instruction::Loop(b) => {
                proof {
                    assert(ds[i as int] == SpecInstr::Loop(deep_seq(b@)));
                }
                if fuel == 0 {
                    return None;
                }
                let saved_ptr = st.ptr;
                st.ptr = 0;
                let res = run_rec(b, inputs, st, true, fuel - 1);
                match res {
                    Option::None => {
                        return None;
                    },
                    Option::Some(st2) => {
                        st = st2;
                        st.ptr = saved_ptr;
                    },
                }
            },
            Instruction::Print => {
                let v = st.tape[st.ptr as usize];
                st.out.push(v);
            },
            Instruction::Input => {
                let v: u8 = if st.pos < inputs.len() {
                    let x = inputs[st.pos];
                    st.pos = st.pos + 1;
                    x
                } else {
                    0
                };
                let idx = st.ptr as usize;
                st.tape[idx] = v;
                proof {
                    if pre.inp.len() > 0 {
                        assert(inputs@.skip(st.pos as int) =~= pre.inp.drop_first());
                        assert(pre.inp[0] == inputs@[st.pos - 1]);
                    }
                }
            },
            Instruction::Noop => {},
        }
        proof {
            assert(run_from(ds, i as int, pre, in_loop, fuel as nat) == run_from(
                ds,
                i as int + 1,
                abs_state(st, inputs@),
                in_loop,
                fuel as nat,
            ));
        }
        i = i + 1;
    }
    if in_loop {
        let cell = st.tape[st.ptr as usize];
        if cell > 0 {
            if fuel == 0 {
                return None;
            }
            st.ptr = 0;
            return run_rec(ast, inputs, st, true, fuel - 1);
        }
    }
    Some(st)
}

/// Executes an instruction tree from the zeroed initial state against the
/// given input stream, with a fuel bound on loop entries and restarts.
/// Returns the final state — cursor, tape, inputs consumed, output — or
/// `None` when the fuel ran out.
pub fn interpret_ast(ast: &Vec<Instruction>, inputs: &Vec<u8>, fuel: u64) -> (r: Option<
    InterpState,
>)
    ensures
        ({
            let rr = run_program(deep_seq(ast@), inputs@, fuel as nat);
            match r {
                Option::Some(st) => wf_state(st, inputs@) && rr == Some(abs_state(st, inputs@)),
                Option::None => rr is None,
            }
        }),
{
    let mut tape: Vec<u8> = Vec::new();
    while tape.len() < 256
        invariant
            tape@.len() <= 256,
            forall|j: int| 0 <= j < tape@.len() ==> tape@[j] == 0,
        decreases 256 - tape@.len(),
    {
        tape.push(0);
    }
    let st = InterpState { ptr: 0, tape, pos: 0, out: Vec::new() };
    proof {
        assert(st.tape@ =~= Seq::new(256, |j: int| 0u8));
        assert(inputs@.skip(0) =~= inputs@);
        assert(abs_state(st, inputs@) == MachState {
            ptr: 0,
            tape: Seq::new(256, |j: int| 0u8),
            inp: inputs@,
            out: Seq::empty(),
        });
    }
    run_rec(ast, inputs, st, false, fuel)
}

} // verus!
