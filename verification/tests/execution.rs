use bfc::interp::interpret_ast;
use bfc::optimizer::optimize_ast;
use bfc::parser::generate_ast;

#[test]
fn decrementing_a_zero_cell_wraps_to_255() {
    let (ast, _) = generate_ast("-", true);
    let st = interpret_ast(&ast, &Vec::new(), 100).expect("enough fuel");
    assert_eq!(st.tape[0], 255);
}

#[test]
fn incrementing_a_cell_at_255_wraps_to_zero() {
    let (ast, _) = generate_ast("-+", true);
    let st = interpret_ast(&ast, &Vec::new(), 100).expect("enough fuel");
    assert_eq!(st.tape[0], 0);
}

#[test]
fn end_to_end_prints_code_point_two_once() {
    let (ast, _) = generate_ast("++.", true);
    let optimized = optimize_ast(ast);
    let st = interpret_ast(&optimized, &Vec::new(), 100).expect("enough fuel");
    assert_eq!(st.out, vec![2u8]);
}

#[test]
fn countdown_loop_stops_after_one_repetition() {
    let (ast, _) = generate_ast("+[-]", true);
    // one unit of fuel covers the single loop entry; no restart happens
    let st = interpret_ast(&ast, &Vec::new(), 1).expect("one entry suffices");
    assert_eq!(st.tape[0], 0);
    assert!(st.out.is_empty());
}

#[test]
fn loop_on_nonzero_cell_exhausts_fuel() {
    let (ast, _) = generate_ast("+[]", true);
    assert!(interpret_ast(&ast, &Vec::new(), 50).is_none());
}

#[test]
fn input_stores_byte_and_echoes_it() {
    let (ast, _) = generate_ast(",.", true);
    let st = interpret_ast(&ast, &vec![65u8], 100).expect("enough fuel");
    assert_eq!(st.tape[0], 65);
    assert_eq!(st.out, vec![65u8]);
    assert_eq!(st.pos, 1);
}

#[test]
fn exhausted_input_stores_zero() {
    let (ast, _) = generate_ast(",.", true);
    let st = interpret_ast(&ast, &Vec::new(), 100).expect("enough fuel");
    assert_eq!(st.tape[0], 0);
    assert_eq!(st.out, vec![0u8]);
    assert_eq!(st.pos, 0);
}

#[test]
fn loop_body_starts_at_cursor_zero_and_cursor_is_restored() {
    // the loop body moves the cursor from its forced start at 0 to cell 1,
    // which is zero, so the loop runs once; the enclosing cursor stays at 0
    // and the print reads cell 0
    let (ast, _) = generate_ast("++[>].", true);
    let st = interpret_ast(&ast, &Vec::new(), 100).expect("enough fuel");
    assert_eq!(st.ptr, 0);
    assert_eq!(st.out, vec![2u8]);
}

#[test]
fn cursor_arithmetic_wraps_modulo_256() {
    let (ast, _) = generate_ast("<+", true);
    let st = interpret_ast(&ast, &Vec::new(), 100).expect("enough fuel");
    assert_eq!(st.ptr, 255);
    assert_eq!(st.tape[255], 1);
    assert_eq!(st.tape.len(), 256);
}

#[test]
fn countdown_from_input_produces_output_per_repetition() {
    // each repetition prints the current cell then decrements it
    let (ast, _) = generate_ast("+++[.-]", true);
    let optimized = optimize_ast(ast);
    let st = interpret_ast(&optimized, &Vec::new(), 100).expect("enough fuel");
    assert_eq!(st.out, vec![3u8, 2, 1]);
    assert_eq!(st.tape[0], 0);
}
