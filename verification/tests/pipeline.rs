use brainfuck2c::{
    brainfuck_interpreter, brainfuck_optimizer, brainfuck_parser, BfError,
    RunStatus, Token, TAPE_LEN,
};

fn parse(src: &str) -> Vec<Token> {
    brainfuck_parser(src.to_string()).expect("source should parse")
}

fn run(toks: &Vec<Token>, fuel: u64) -> (Vec<i32>, usize, Vec<i32>, RunStatus) {
    let mut memory = vec![0i32; TAPE_LEN];
    let mut pointer = 0usize;
    let mut output: Vec<i32> = Vec::new();
    let status = brainfuck_interpreter(toks, &mut memory, &mut pointer, &mut output, fuel);
    (memory, pointer, output, status)
}

#[test]
fn parse_three_increments_and_print() {
    let toks = parse("+++.");
    assert_eq!(
        toks,
        vec![
            Token::ChangeMem(1),
            Token::ChangeMem(1),
            Token::ChangeMem(1),
            Token::Print
        ]
    );
}

#[test]
fn parse_ignores_comment_characters() {
    let toks = parse("+ hello\n+world+ .");
    assert_eq!(
        toks,
        vec![
            Token::ChangeMem(1),
            Token::ChangeMem(1),
            Token::ChangeMem(1),
            Token::Print
        ]
    );
}

#[test]
fn parse_nested_brackets() {
    let toks = parse("+[>[-]<]");
    assert_eq!(
        toks,
        vec![
            Token::ChangeMem(1),
            Token::Loop(vec![
                Token::MovePointer(1),
                Token::Loop(vec![Token::ChangeMem(-1)]),
                Token::MovePointer(-1),
            ]),
        ]
    );
}

#[test]
fn lone_close_bracket_is_an_error() {
    assert_eq!(
        brainfuck_parser("]".to_string()),
        Err(BfError::UnmatchedCloseBracket)
    );
    assert_eq!(
        brainfuck_parser("+]+".to_string()),
        Err(BfError::UnmatchedCloseBracket)
    );
}

#[test]
fn unclosed_bracket_is_an_error() {
    assert_eq!(
        brainfuck_parser("[".to_string()),
        Err(BfError::UnterminatedLoop)
    );
    assert_eq!(
        brainfuck_parser("++[->".to_string()),
        Err(BfError::UnterminatedLoop)
    );
}

#[test]
fn optimize_fuses_increment_run() {
    let toks = brainfuck_optimizer(parse("+++."));
    assert_eq!(toks, vec![Token::ChangeMem(3), Token::Print]);
}

#[test]
fn optimize_fuses_mixed_runs() {
    let toks = brainfuck_optimizer(parse("++-->><"));
    assert_eq!(toks, vec![Token::ChangeMem(0), Token::MovePointer(1)]);
}

#[test]
fn optimize_elides_leading_loop() {
    let toks = brainfuck_optimizer(parse("[-]"));
    assert_eq!(toks, vec![]);
}

#[test]
fn optimize_rewrites_zero_idiom() {
    let toks = brainfuck_optimizer(parse("+++[-]"));
    assert_eq!(toks, vec![Token::ChangeMem(3), Token::SetMemTo(0)]);
}

#[test]
fn optimize_recurses_into_loop_bodies() {
    let toks = brainfuck_optimizer(parse("+[>>++<<-]"));
    assert_eq!(
        toks,
        vec![
            Token::ChangeMem(1),
            Token::Loop(vec![
                Token::MovePointer(2),
                Token::ChangeMem(2),
                Token::MovePointer(-2),
                Token::ChangeMem(-1),
            ]),
        ]
    );
}

#[test]
fn optimize_twice_equals_optimize_once() {
    for src in ["+++.", "++>+.", "+++[-]", "+++[>++<-]>.", "", ".,.", "+[>>++<<-]"] {
        let once = brainfuck_optimizer(parse(src));
        let twice = brainfuck_optimizer(clone_tokens(&once));
        assert_eq!(twice, once, "not a fixed point for {:?}", src);
    }
}

#[test]
fn interpret_three_increments_prints_three() {
    let toks = brainfuck_optimizer(parse("+++."));
    let (memory, pointer, output, status) = run(&toks, 1000);
    assert_eq!(status, RunStatus::Finished);
    assert_eq!(output, vec![3]);
    assert_eq!(memory[0], 3);
    assert_eq!(pointer, 0);
}

#[test]
fn zero_idiom_leaves_starting_cell_at_zero() {
    let toks = brainfuck_optimizer(parse("+++[-]"));
    let (memory, _, _, status) = run(&toks, 1000);
    assert_eq!(status, RunStatus::Finished);
    assert_eq!(memory[0], 0);
}

#[test]
fn raw_zero_idiom_also_leaves_cell_at_zero() {
    let toks = parse("+++[-]");
    let (memory, _, _, status) = run(&toks, 1000);
    assert_eq!(status, RunStatus::Finished);
    assert_eq!(memory[0], 0);
}

#[test]
fn raw_and_optimized_tapes_agree() {
    for src in ["+++.", "++>+.", "+++[-]", "+++[>++<-]>.", "++[>+++[>++<-]<-]>>."] {
        let raw = parse(src);
        let opt = brainfuck_optimizer(parse(src));
        let (mem_raw, _, out_raw, st_raw) = run(&raw, 100000);
        let (mem_opt, _, out_opt, st_opt) = run(&opt, 100000);
        assert_eq!(st_raw, RunStatus::Finished);
        assert_eq!(st_opt, RunStatus::Finished);
        assert_eq!(mem_raw, mem_opt, "tapes differ for {:?}", src);
        assert_eq!(out_raw, out_opt, "outputs differ for {:?}", src);
    }
}

#[test]
fn interpreter_refuses_input_token() {
    let toks = parse(",");
    let (_, _, output, status) = run(&toks, 1000);
    assert_eq!(status, RunStatus::Unsupported);
    assert_eq!(output, vec![]);
}

#[test]
fn interpreter_rejects_pointer_underflow() {
    let toks = parse("<");
    let (_, pointer, _, status) = run(&toks, 1000);
    assert_eq!(status, RunStatus::PointerOutOfRange);
    assert_eq!(pointer, 0);
}

#[test]
fn interpreter_runs_out_of_fuel_on_endless_loop() {
    let toks = parse("+[]");
    let (_, _, _, status) = run(&toks, 50);
    assert_eq!(status, RunStatus::OutOfFuel);
}

#[test]
fn cells_wrap_like_two_complement() {
    let toks = vec![Token::SetMemTo(i32::MAX), Token::ChangeMem(1), Token::Print];
    let (memory, _, output, status) = run(&toks, 10);
    assert_eq!(status, RunStatus::Finished);
    assert_eq!(memory[0], i32::MIN);
    assert_eq!(output, vec![i32::MIN]);
}

fn clone_tokens(v: &Vec<Token>) -> Vec<Token> {
    v.iter().map(clone_token).collect()
}

fn clone_token(t: &Token) -> Token {
    match t {
        Token::MovePointer(d) => Token::MovePointer(*d),
        Token::ChangeMem(d) => Token::ChangeMem(*d),
        Token::SetMemTo(v) => Token::SetMemTo(*v),
        Token::Loop(body) => Token::Loop(body.iter().map(clone_token).collect()),
        Token::Input => Token::Input,
        Token::Print => Token::Print,
        Token::NoOp => Token::NoOp,
    }
}

#[test]
fn pointer_may_reach_last_cell_but_not_beyond() {
    let at_edge = vec![Token::MovePointer(29999), Token::ChangeMem(7)];
    let (memory, pointer, _, status) = run(&at_edge, 10);
    assert_eq!(status, RunStatus::Finished);
    assert_eq!(pointer, 29999);
    assert_eq!(memory[29999], 7);

    let beyond = vec![Token::MovePointer(30000)];
    let (_, pointer, _, status) = run(&beyond, 10);
    assert_eq!(status, RunStatus::PointerOutOfRange);
    assert_eq!(pointer, 0);
}

#[test]
fn noop_tokens_change_nothing() {
    let toks = vec![Token::NoOp, Token::ChangeMem(4), Token::NoOp, Token::Print];
    let (memory, pointer, output, status) = run(&toks, 10);
    assert_eq!(status, RunStatus::Finished);
    assert_eq!(memory[0], 4);
    assert_eq!(pointer, 0);
    assert_eq!(output, vec![4]);
}
