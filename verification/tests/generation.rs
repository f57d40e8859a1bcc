use brainfuck2c::codegen::{Line, Value};
use brainfuck2c::stream::Stream;
use brainfuck2c::{
    add, brainfuck_codegen, brainfuck_interpreter, brainfuck_optimizer, brainfuck_parser,
    prettify_memory, BfError, CodeGen, Function, RunStatus, Token, TAPE_LEN,
};

fn parse(src: &str) -> Vec<Token> {
    brainfuck_parser(src.to_string()).expect("source should parse")
}

const PRELUDE: &str = "#include <stdio.h>\nint main() {\n\tint memory[30000];\n\tint memPointer = 0;";

#[test]
fn generated_text_for_empty_program() {
    let toks = brainfuck_optimizer(parse("[-]"));
    assert_eq!(toks, vec![]);
    let text = brainfuck_codegen(&toks).expect("codegen should succeed");
    assert_eq!(text, format!("{}\n}}", PRELUDE));
}

#[test]
fn generated_text_for_move_and_print() {
    let toks = brainfuck_optimizer(parse("++>+."));
    let text = brainfuck_codegen(&toks).expect("codegen should succeed");
    let expected = format!(
        "{}\n\tmemory[memPointer] += 2;\n\tmemPointer += 1;\n\tmemory[memPointer] += 1;\n\tputchar(memory[memPointer]);\n}}",
        PRELUDE
    );
    assert_eq!(text, expected);
}

#[test]
fn move_and_print_semantics() {
    let toks = brainfuck_optimizer(parse("++>+."));
    let mut memory = vec![0i32; TAPE_LEN];
    let mut pointer = 0usize;
    let mut output: Vec<i32> = Vec::new();
    let status = brainfuck_interpreter(&toks, &mut memory, &mut pointer, &mut output, 1000);
    assert_eq!(status, RunStatus::Finished);
    assert_eq!(memory[0], 2);
    assert_eq!(memory[1], 1);
    assert_eq!(pointer, 1);
    assert_eq!(output, vec![1]);
}

#[test]
fn generated_text_for_loop_nests_one_level() {
    let toks = brainfuck_optimizer(parse("++[-.]"));
    let text = brainfuck_codegen(&toks).expect("codegen should succeed");
    let expected = format!(
        "{}\n\tmemory[memPointer] += 2;\n\twhile (memory[memPointer] != 0) {{\n\t\tmemory[memPointer] += -1;\n\t\tputchar(memory[memPointer]);\n\t}}\n}}",
        PRELUDE
    );
    assert_eq!(text, expected);
}

#[test]
fn generated_text_renders_negative_deltas() {
    let toks = brainfuck_optimizer(parse("---"));
    let text = brainfuck_codegen(&toks).expect("codegen should succeed");
    assert_eq!(text, format!("{}\n\tmemory[memPointer] += -3;\n}}", PRELUDE));
}

#[test]
fn generated_text_for_set_idiom() {
    let toks = brainfuck_optimizer(parse("+[-]"));
    let text = brainfuck_codegen(&toks).expect("codegen should succeed");
    assert_eq!(
        text,
        format!("{}\n\tmemory[memPointer] += 1;\n\tmemory[memPointer] = 0;\n}}", PRELUDE)
    );
}

#[test]
fn codegen_refuses_input_token() {
    assert_eq!(
        brainfuck_codegen(&vec![Token::Input]),
        Err(BfError::UnsupportedOperation)
    );
    assert_eq!(
        brainfuck_codegen(&vec![Token::Loop(vec![Token::Input])]),
        Err(BfError::UnsupportedOperation)
    );
}

#[test]
fn codegen_skips_noop_tokens() {
    let toks = vec![Token::NoOp, Token::ChangeMem(5), Token::NoOp];
    let text = brainfuck_codegen(&toks).expect("codegen should succeed");
    assert_eq!(text, format!("{}\n\tmemory[memPointer] += 5;\n}}", PRELUDE));
}

#[test]
fn builders_render_vardefs_and_calls() {
    let mut cg = CodeGen::new();
    cg.add_import("stdio.h");
    let mut f = Function::new("main", "int");
    f.scope.add_line(Line::new_vardef("flag", "bool", Value::Bool(true)));
    f.scope.add_line(Line::new_vardef("name", "char*", Value::Str("tape".to_string())));
    f.scope.add_line(Line::new_arrdef("memory", "int", 8));
    cg.add_function(f);
    let text = cg.render();
    assert_eq!(
        text,
        "#include <stdio.h>\nint main() {\n\tbool flag = true;\n\tchar* name = \"tape\";\n\tint memory[8];\n}"
    );
}

#[test]
fn prettify_drops_trailing_zeros() {
    assert_eq!(prettify_memory(&[1, 2, 0, 3, 0, 0]), "[1][2][0][3]");
    assert_eq!(prettify_memory(&[0, 0, 0]), "");
    assert_eq!(prettify_memory(&[]), "");
    assert_eq!(prettify_memory(&[-7, 10]), "[-7][10]");
}

#[test]
fn add_moves_index_both_ways() {
    assert_eq!(add(5, -3), 2);
    assert_eq!(add(5, 3), 8);
    assert_eq!(add(0, 0), 0);
}

#[test]
fn stream_peek_and_next() {
    let mut s = Stream::new(vec![1u8, 2, 3]);
    assert_eq!(s.peek(), Some(&1));
    assert_eq!(s.peekn(2), Some(&3));
    assert_eq!(s.peekn(3), None);
    assert_eq!(s.next(), Some(1));
    assert_eq!(s.next(), Some(2));
    assert_eq!(s.peek(), Some(&3));
    assert_eq!(s.next(), Some(3));
    assert_eq!(s.next(), None);
    assert_eq!(s.peek(), None);
}

#[test]
fn prettify_renders_extreme_cells() {
    assert_eq!(
        prettify_memory(&[i32::MIN, i32::MAX]),
        "[-2147483648][2147483647]"
    );
}
