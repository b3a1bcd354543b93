use bfc::ast::Instruction;
use bfc::ast::ast_eq;
use bfc::codegen::generate_javascript_from_ast;
use bfc::optimizer::optimize_ast;
use bfc::parser::generate_ast;

fn parse(source: &str) -> Vec<Instruction> {
    generate_ast(source, true).0
}

#[test]
fn round_trip_plus_minus_fuses_to_nothing() {
    let optimized = optimize_ast(parse("+-"));
    assert!(optimized.is_empty());
}

#[test]
fn optimize_is_idempotent_on_fused_trees() {
    let once = optimize_ast(parse("+++>><<--a.,"));
    let twice = optimize_ast(parse("+++>><<--a.,"));
    let twice = optimize_ast(twice);
    assert!(ast_eq(&once, &twice));

    let once = optimize_ast(parse("++[->+<]."));
    let twice = optimize_ast(parse("++[->+<]."));
    let twice = optimize_ast(twice);
    assert!(ast_eq(&once, &twice));
}

#[test]
fn empty_input_parses_to_nothing() {
    let (ast, consumed) = generate_ast("", true);
    assert!(ast.is_empty());
    assert_eq!(consumed, 0);
}

#[test]
fn optimize_again_drops_emptied_loop() {
    // The one shape on which a second optimization still changes the tree:
    // a loop whose body fused away keeps its node once, and loses it next.
    let once = optimize_ast(parse("[+-]"));
    assert_eq!(once.len(), 1);
    assert!(matches!(&once[0], Instruction::Loop(body) if body.is_empty()));
    let twice = optimize_ast(once);
    assert!(twice.is_empty());
}

#[test]
fn bracket_nesting_builds_nested_loops() {
    let ast = parse("[[+]]");
    assert_eq!(ast.len(), 1);
    match &ast[0] {
        Instruction::Loop(outer) => {
            assert_eq!(outer.len(), 1);
            match &outer[0] {
                Instruction::Loop(inner) => {
                    assert_eq!(inner.len(), 1);
                    assert!(matches!(inner[0], Instruction::ChangeVal(1)));
                },
                other => panic!("expected an inner loop, got {:?}", other),
            }
        },
        other => panic!("expected a loop, got {:?}", other),
    }
}

#[test]
fn empty_loop_survives_optimization_and_emits_nothing() {
    let optimized = optimize_ast(parse("[+-]"));
    assert_eq!(optimized.len(), 1);
    assert!(matches!(&optimized[0], Instruction::Loop(body) if body.is_empty()));
    let text = generate_javascript_from_ast(optimized, false);
    assert_eq!(text, "");
}

#[test]
fn placeholders_disappear_after_optimization() {
    let with_comments = optimize_ast(parse("a+b"));
    let plain = optimize_ast(parse("+"));
    assert!(ast_eq(&with_comments, &plain));
    assert_eq!(with_comments.len(), 1);
    assert!(matches!(with_comments[0], Instruction::ChangeVal(1)));
}

#[test]
fn unrecognized_characters_parse_as_placeholders() {
    let ast = parse("a+b");
    assert_eq!(ast.len(), 3);
    assert!(matches!(ast[0], Instruction::Noop));
    assert!(matches!(ast[1], Instruction::ChangeVal(1)));
    assert!(matches!(ast[2], Instruction::Noop));
}

#[test]
fn stray_closing_bracket_is_ignored_at_top_level() {
    let ast = parse("]+");
    assert_eq!(ast.len(), 1);
    assert!(matches!(ast[0], Instruction::ChangeVal(1)));
}

#[test]
fn closing_bracket_reports_consumed_count_to_caller() {
    let (ast, consumed) = generate_ast("+]", false);
    assert_eq!(ast.len(), 1);
    assert!(matches!(ast[0], Instruction::ChangeVal(1)));
    assert_eq!(consumed, 3);
}

#[test]
fn unterminated_bracket_absorbs_rest_and_caller_rescans() {
    let ast = parse("+[>>");
    assert_eq!(ast.len(), 4);
    assert!(matches!(ast[0], Instruction::ChangeVal(1)));
    match &ast[1] {
        Instruction::Loop(body) => {
            assert_eq!(body.len(), 2);
            assert!(matches!(body[0], Instruction::ChangePtr(1)));
            assert!(matches!(body[1], Instruction::ChangePtr(1)));
        },
        other => panic!("expected a loop, got {:?}", other),
    }
    assert!(matches!(ast[2], Instruction::ChangePtr(1)));
    assert!(matches!(ast[3], Instruction::ChangePtr(1)));
}

#[test]
fn move_pointer_keeps_fused_zero_delta() {
    let optimized = optimize_ast(parse("><"));
    assert_eq!(optimized.len(), 1);
    assert!(matches!(optimized[0], Instruction::ChangePtr(0)));
}

#[test]
fn generated_text_for_simple_program() {
    let optimized = optimize_ast(parse("++>."));
    let text = generate_javascript_from_ast(optimized, true);
    assert_eq!(
        text,
        "let d=new Uint8Array(128), p=0;d[p]+=2;p+=1;console.log(String.fromCharCode(d[p]));"
    );
}

#[test]
fn generated_text_renders_negative_deltas() {
    let ast = parse("<--");
    let text = generate_javascript_from_ast(ast, false);
    assert_eq!(text, "p+=-1;d[p]+=-1;d[p]+=-1;");
    let fused = optimize_ast(parse("<--"));
    let text = generate_javascript_from_ast(fused, false);
    assert_eq!(text, "p+=-1;d[p]+=-2;");
}

#[test]
fn generated_text_for_loop_and_input() {
    let ast = optimize_ast(parse("+[,.]"));
    let text = generate_javascript_from_ast(ast, false);
    assert_eq!(
        text,
        "d[p]+=1;while(d[p]!=0){d[p]=prompt('Type a char').charCodeAt(0)||0;console.log(String.fromCharCode(d[p]));}"
    );
}

#[test]
fn placeholder_emits_nothing_in_generated_text() {
    let ast = parse("a");
    let text = generate_javascript_from_ast(ast, false);
    assert_eq!(text, "");
}

#[test]
fn fused_delta_wraps_as_signed_byte() {
    let source: String = std::iter::repeat('+').take(128).collect();
    let optimized = optimize_ast(parse(&source));
    assert_eq!(optimized.len(), 1);
    assert!(matches!(optimized[0], Instruction::ChangeVal(-128)));
    let text = generate_javascript_from_ast(optimized, false);
    assert_eq!(text, "d[p]+=-128;");
}

#[test]
fn ast_eq_distinguishes_different_trees() {
    assert!(!ast_eq(&parse("+"), &parse("-")));
    assert!(!ast_eq(&parse("[+]"), &parse("[-]")));
    assert!(ast_eq(&parse("[+]"), &parse("[+]")));
}
