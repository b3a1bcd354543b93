//! The code generator: renders an optimized instruction tree as source text
//! for a host scripting environment with a 128-byte tape and a cursor.
//!
//! A `Loop` whose body is empty emits nothing at all — not even an empty loop
//! construct. Generation is total: any tree lowers to text.

use crate::ast::Instruction;
use crate::ast::SpecInstr;
use crate::ast::deep_seq;
use crate::ast::instr_weight;
use crate::ast::lemma_deep_seq;
use crate::ast::lemma_seq_weight_elem;
use crate::ast::seq_weight;
use vstd::prelude::*;
use vstd::string::StrSliceExecFns;
use vstd::string::StringExecFns;

verus! {

/// The decimal digit character for `n`.
pub open spec fn digit_char(n: int) -> char {
    if n == 0 {
        '0'
    } else if n == 1 {
        '1'
    } else if n == 2 {
        '2'
    } else if n == 3 {
        '3'
    } else if n == 4 {
        '4'
    } else if n == 5 {
        '5'
    } else if n == 6 {
        '6'
    } else if n == 7 {
        '7'
    } else if n == 8 {
        '8'
    } else {
        '9'
    }
}

/// The decimal digits of a non-negative number, most significant first.
pub open spec fn dec_digits(n: int) -> Seq<char>
    recommends
        0 <= n,
    decreases n,
{
    if n < 10 {
        seq![digit_char(n)]
    } else {
        dec_digits(n / 10).push(digit_char(n % 10))
    }
}

/// The decimal rendering of a signed 8-bit delta, as the host language's
/// number literal: a minus sign followed by the magnitude when negative.
pub open spec fn dec_i8(d: i8) -> Seq<char> {
    if d < 0 {
        seq!['-'] + dec_digits(-(d as int))
    } else {
        dec_digits(d as int)
    }
}

/// The text one instruction lowers to.
pub open spec fn gen_instr(i: SpecInstr) -> Seq<char>
    decreases i,
{
    match i {
        SpecInstr::ChangePtr(d) => "p+="@ + dec_i8(d) + ";"@,
        SpecInstr::ChangeVal(d) => "d[p]+="@ + dec_i8(d) + ";"@,
        SpecInstr::Loop(b) => if b.len() == 0 {
            Seq::empty()
        } else {
            "while(d[p]!=0){"@ + gen_seq(b) + "}"@
        },
        SpecInstr::Print => "console.log(String.fromCharCode(d[p]));"@,
        SpecInstr::Input => "d[p]=prompt('Type a char').charCodeAt(0)||0;"@,
        SpecInstr::Noop => Seq::empty(),
    }
}

/// The text a sequence lowers to: each instruction's text in order.
pub open spec fn gen_seq(s: Seq<SpecInstr>) -> Seq<char>
    decreases s,
{
    if s.len() == 0 {
        Seq::empty()
    } else {
        gen_instr(s[0]) + gen_seq(s.drop_first())
    }
}

/// The whole program text: at the outermost call only, the declaration of the
/// tape and the cursor comes first.
pub open spec fn gen_program(s: Seq<SpecInstr>, base: bool) -> Seq<char> {
    if base {
        "let d=new Uint8Array(128), p=0;"@ + gen_seq(s)
    } else {
        gen_seq(s)
    }
}

/// Law: a loop node whose body is empty lowers to no text at all — not even
/// an empty loop construct.
pub proof fn lemma_empty_loop_emits_nothing(b: Seq<SpecInstr>)
    requires
        b.len() == 0,
    ensures
        gen_instr(SpecInstr::Loop(b)) == Seq::<char>::empty(),
{
}

proof fn lemma_gen_seq_take_step(s: Seq<SpecInstr>, i: int)
    requires
        0 <= i < s.len(),
    ensures
        gen_seq(s.take(i + 1)) == gen_seq(s.take(i)) + gen_instr(s[i]),
    decreases i,
{
    if i == 0 {
        assert(s.take(1).drop_first() =~= Seq::<SpecInstr>::empty());
        assert(s.take(0) =~= Seq::<SpecInstr>::empty());
        assert(s.take(1)[0] == s[0]);
        assert(gen_seq(s.take(1)) =~= gen_seq(s.take(0)) + gen_instr(s[0]));
    } else {
        lemma_gen_seq_take_step(s.drop_first(), i - 1);
        assert(s.take(i + 1).drop_first() =~= s.drop_first().take(i));
        assert(s.take(i).drop_first() =~= s.drop_first().take(i - 1));
        assert(s.take(i + 1)[0] == s[0]);
        assert(s.take(i)[0] == s[0]);
        assert(s.drop_first()[i - 1] == s[i]);
        assert(gen_seq(s.take(i + 1)) == gen_instr(s[0]) + gen_seq(s.drop_first().take(i)));
        assert(gen_seq(s.take(i)) == gen_instr(s[0]) + gen_seq(s.drop_first().take(i - 1)));
        assert(gen_instr(s[0]) + (gen_seq(s.drop_first().take(i - 1)) + gen_instr(s[i])) =~= (
        gen_instr(s[0]) + gen_seq(s.drop_first().take(i - 1))) + gen_instr(s[i]));
    }
}

/// Appends one decimal digit.
fn push_digit(n: u16, out: &mut String)
    requires
        n < 10,
    ensures
        final(out)@ == old(out)@ + seq![digit_char(n as int)],
{
    proof {
        reveal_strlit("0");
        reveal_strlit("1");
        reveal_strlit("2");
        reveal_strlit("3");
        reveal_strlit("4");
        reveal_strlit("5");
        reveal_strlit("6");
        reveal_strlit("7");
        reveal_strlit("8");
        reveal_strlit("9");
    }
    if n == 0 {
        out.append("0");
        proof {
            assert(out@ =~= old(out)@ + seq![digit_char(n as int)]);
        }
    } else if n == 1 {
        out.append("1");
        proof {
            assert(out@ =~= old(out)@ + seq![digit_char(n as int)]);
        }
    } else if n == 2 {
        out.append("2");
        proof {
            assert(out@ =~= old(out)@ + seq![digit_char(n as int)]);
        }
    } else if n == 3 {
        out.append("3");
        proof {
            assert(out@ =~= old(out)@ + seq![digit_char(n as int)]);
        }
    } else if n == 4 {
        out.append("4");
        proof {
            assert(out@ =~= old(out)@ + seq![digit_char(n as int)]);
        }
    } else if n == 5 {
        out.append("5");
        proof {
            assert(out@ =~= old(out)@ + seq![digit_char(n as int)]);
        }
    } else if n == 6 {
        out.append("6");
        proof {
            assert(out@ =~= old(out)@ + seq![digit_char(n as int)]);
        }
    } else if n == 7 {
        out.append("7");
        proof {
            assert(out@ =~= old(out)@ + seq![digit_char(n as int)]);
        }
    } else if n == 8 {
        out.append("8");
        proof {
            assert(out@ =~= old(out)@ + seq![digit_char(n as int)]);
        }
    } else {
        out.append("9");
        proof {
            assert(out@ =~= old(out)@ + seq![digit_char(n as int)]);
        }
    }
}

/// Appends the decimal digits of `n`.
fn push_dec_u16(n: u16, out: &mut String)
    ensures
        final(out)@ == old(out)@ + dec_digits(n as int),
    decreases n,
{
    if n < 10 {
        push_digit(n, out);
    } else {
        push_dec_u16(n / 10, out);
        push_digit(n % 10, out);
        proof {
            assert(out@ =~= old(out)@ + dec_digits(n as int));
        }
    }
}

/// Appends the rendering of a signed 8-bit delta.
fn push_dec_i8(d: i8, out: &mut String)
    ensures
        final(out)@ == old(out)@ + dec_i8(d),
{
    if d < 0 {
        out.append("-");
        let m: u16 = (-(d as i16)) as u16;
        push_dec_u16(m, out);
        proof {
            reveal_strlit("-");
            assert("-"@ =~= seq!['-']);
            assert(out@ =~= old(out)@ + dec_i8(d));
        }
    } else {
        push_dec_u16(d as u16, out);
    }
}

/// Appends the text of every instruction of `ast`, in order.
#[verifier::loop_isolation(false)]
fn gen_into(ast: &Vec<Instruction>, out: &mut String)
    ensures
        final(out)@ == old(out)@ + gen_seq(deep_seq(ast@)),
    decreases seq_weight(deep_seq(ast@)), 0int,
{
    let ghost ds = deep_seq(ast@);
    proof {
        lemma_deep_seq(ast@);
    }
    let mut i: usize = 0;
    while i < ast.len()
        invariant
            out@ == old(out)@ + gen_seq(ds.take(i as int)),
            i <= ast.len(),
        decreases ast.len() - i,
    {
        let ghost pre = out@;
        match &ast[i] {
            Instruction::ChangePtr(d) => {
                out.append("p+=");
                push_dec_i8(*d, out);
                out.append(";");
                proof {
                    assert(out@ =~= pre + gen_instr(ds[i as int]));
                }
            },
            Instruction::ChangeVal(d) => {
                out.append("d[p]+=");
                push_dec_i8(*d, out);
                out.append(";");
                proof {
                    assert(out@ =~= pre + gen_instr(ds[i as int]));
                }
            },
            Instruction::Loop(b) => {
                proof {
                    lemma_deep_seq(b@);
                    lemma_seq_weight_elem(ds, i as int);
                    assert(instr_weight(ds[i as int]) == 1 + seq_weight(deep_seq(b@)));
                }
                if b.len() > 0 {
                    out.append("while(d[p]!=0){");
                    gen_into(b, out);
                    out.append("}");
                    proof {
                        assert(out@ =~= pre + gen_instr(ds[i as int]));
                    }
                } else {
                    proof {
                        assert(gen_instr(ds[i as int]) =~= Seq::<char>::empty());
                        assert(out@ =~= pre + gen_instr(ds[i as int]));
                    }
                }
            },
            Instruction::Print => {
                out.append("console.log(String.fromCharCode(d[p]));");
                proof {
                    assert(out@ =~= pre + gen_instr(ds[i as int]));
                }
            },
            Instruction::Input => {
                out.append("d[p]=prompt('Type a char').charCodeAt(0)||0;");
                proof {
                    assert(out@ =~= pre + gen_instr(ds[i as int]));
                }
            },
            Instruction::Noop => {
                proof {
                    assert(gen_instr(ds[i as int]) =~= Seq::<char>::empty());
                    assert(out@ =~= pre + gen_instr(ds[i as int]));
                }
            },
        }
        proof {
            lemma_gen_seq_take_step(ds, i as int);
            assert(out@ =~= old(out)@ + gen_seq(ds.take(i as int + 1)));
        }
        i = i + 1;
    }
    proof {
        assert(ds.take(i as int) =~= ds);
    }
}

/// Renders an instruction tree as source text for the host scripting
/// environment; at the outermost call the tape and cursor declaration comes
/// first.
pub fn generate_javascript_from_ast(ast: Vec<Instruction>, base: bool) -> (out: String)
    ensures
        out@ == gen_program(deep_seq(ast@), base),
{
    let mut out = String::new();
    if base {
        out.append("let d=new Uint8Array(128), p=0;");
    }
    gen_into(&ast, &mut out);
    out
}

} // verus!
