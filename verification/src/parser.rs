use vstd::prelude::*;
use crate::error::BfError;
use crate::token::{deep_seq, Tok, Token};

verus! {

/// The token, if any, that a single character denotes. The six simple
/// commands map to their tokens; brackets and comment characters map to
/// nothing here and are handled by the bracket stack.
pub open spec fn simple_tok(c: char) -> Option<Tok> {
    if c == '+' {
        Some(Tok::ChangeMem(1))
    } else if c == '-' {
        Some(Tok::ChangeMem(-1i32))
    } else if c == '>' {
        Some(Tok::MovePointer(1))
    } else if c == '<' {
        Some(Tok::MovePointer(-1i32))
    } else if c == ',' {
        Some(Tok::Input)
    } else if c == '.' {
        Some(Tok::Print)
    } else {
        Option::None
    }
}

/// Appends a token to the sequence at the top of the stack.
pub open spec fn stack_push_tok(stack: Seq<Seq<Tok>>, t: Tok) -> Seq<Seq<Tok>>
    recommends
        stack.len() >= 1,
{
    stack.update(stack.len() - 1, stack.last().push(t))
}

/// One step of parsing: how a single character transforms the stack of
/// in-progress sequences. `None` is the unmatched-close-bracket failure:
/// a `]` arrived while only the root sequence was open.
pub open spec fn parse_step(stack: Seq<Seq<Tok>>, c: char) -> Option<Seq<Seq<Tok>>>
    recommends
        stack.len() >= 1,
{
    if c == '[' {
        Some(stack.push(Seq::empty()))
    } else if c == ']' {
        if stack.len() >= 2 {
            Some(stack_push_tok(stack.drop_last(), Tok::Loop(stack.last())))
        } else {
            Option::None
        }
    } else {
        match simple_tok(c) {
            Some(t) => Some(stack_push_tok(stack, t)),
            Option::None => Some(stack),
        }
    }
}

/// The stack after consuming the whole character sequence, starting from
/// `stack`; `None` as soon as any step fails.
pub open spec fn parse_chars(stack: Seq<Seq<Tok>>, s: Seq<char>) -> Option<Seq<Seq<Tok>>>
    decreases s.len(),
{
    if s.len() == 0 {
        Some(stack)
    } else {
        match parse_chars(stack, s.drop_last()) {
            Some(st) => parse_step(st, s.last()),
            Option::None => Option::None,
        }
    }
}

/// What parsing a full source text yields: the root token sequence, or the
/// first structural error. The stack starts with one empty root sequence; a
/// failed step is an unmatched `]`, and a stack still holding an open loop at
/// the end is an unterminated `[`.
pub open spec fn parse_spec(s: Seq<char>) -> Result<Seq<Tok>, BfError> {
    match parse_chars(seq![Seq::empty()], s) {
        Some(st) => if st.len() == 1 {
            Ok(st[0])
        } else {
            Err(BfError::UnterminatedLoop)
        },
        Option::None => Err(BfError::UnmatchedCloseBracket),
    }
}

/// The ghost stack that an executable stack of token vectors stands for.
pub open spec fn deep_stack(s: Seq<Vec<Token>>) -> Seq<Seq<Tok>> {
    Seq::new(s.len(), |i: int| deep_seq(s[i]@))
}

/// Turns a source text into its token tree, one token per command character,
/// every other character ignored; brackets must balance, and each `[` ... `]`
/// pair becomes a `Loop` owning the tokens between them.
pub fn brainfuck_parser(input: String) -> (r: Result<Vec<Token>, BfError>)
    ensures
        match r {
            Ok(toks) => parse_spec(input@) == Ok::<Seq<Tok>, BfError>(deep_seq(toks@)),
            Err(e) => parse_spec(input@) == Err::<Seq<Tok>, BfError>(e),
        },
{
    let n: usize = input.as_str().unicode_len();
    let mut stack: Vec<Vec<Token>> = Vec::new();
    stack.push(Vec::new());
    let mut i: usize = 0;
    while i < n
        invariant
            n == input@.len(),
            stack.len() >= 1,
            i <= n,
            parse_chars(seq![Seq::empty()], input@.take(i as int)) == Some(deep_stack(stack@)),
        decreases n - i,
    {
        let c = input.as_str().get_char(i);
        proof {
            assert(input@.take(i + 1).drop_last() =~= input@.take(i as int));
            assert(input@.take(i + 1).last() == c);
        }
        let ghost prev = deep_stack(stack@);
        if c == '[' {
            stack.push(Vec::new());
            proof {
                assert(deep_stack(stack@) =~= prev.push(Seq::empty()));
            }
        } else if c == ']' {
            if stack.len() < 2 {
                proof {
                    assert(parse_chars(seq![Seq::empty()], input@.take(i + 1)) is None);
                    lemma_parse_none_prefix(seq![Seq::empty()], input@, i + 1);
                }
                return Err(BfError::UnmatchedCloseBracket);
            }
            let top = stack.pop().unwrap();
            let wrapped = Token::Loop(top);
            let mut receiver = stack.pop().unwrap();
            let ghost rv: Seq<Token> = receiver@;
            receiver.push(wrapped);
            stack.push(receiver);
            proof {
                lemma_deep_push(receiver@);
                assert(receiver@.drop_last() =~= rv);
                assert(deep_stack(stack@) =~= stack_push_tok(
                    prev.drop_last(),
                    Tok::Loop(prev.last()),
                ));
            }
        } else {
            let tok: Option<Token> = if c == '+' {
                Some(Token::ChangeMem(1))
            } else if c == '-' {
                Some(Token::ChangeMem(-1))
            } else if c == '>' {
                Some(Token::MovePointer(1))
            } else if c == '<' {
                Some(Token::MovePointer(-1))
            } else if c == ',' {
                Some(Token::Input)
            } else if c == '.' {
                Some(Token::Print)
            } else {
                None
            };
            if let Some(t) = tok {
                let ghost tdeep = t.deep();
                let mut receiver = stack.pop().unwrap();
                let ghost rv: Seq<Token> = receiver@;
                receiver.push(t);
                stack.push(receiver);
                proof {
                    lemma_deep_push(receiver@);
                    assert(receiver@.drop_last() =~= rv);
                    assert(deep_stack(stack@) =~= stack_push_tok(prev, tdeep));
                }
            }
        }
        i = i + 1;
    }
    proof {
        assert(input@.take(n as int) =~= input@);
    }
    if stack.len() == 1 {
        let root = stack.pop().unwrap();
        Ok(root)
    } else {
        Err(BfError::UnterminatedLoop)
    }
}

/// Parsing fails atomically: once a prefix has failed, the whole text fails.
pub proof fn lemma_parse_none_prefix(stack: Seq<Seq<Tok>>, s: Seq<char>, j: int)
    requires
        0 <= j <= s.len(),
        parse_chars(stack, s.take(j)) is None,
    ensures
        parse_chars(stack, s) is None,
    decreases s.len() - j,
{
    if j < s.len() {
        assert(s.take(j + 1).drop_last() =~= s.take(j));
        lemma_parse_none_prefix(stack, s, j + 1);
    } else {
        assert(s.take(j) =~= s);
    }
}

/// Unfolding `deep_seq` at the back: the ghost trees of `s` are the ghost
/// trees of all but the last element, then the last element's tree.
pub proof fn lemma_deep_push(s: Seq<Token>)
    requires
        s.len() >= 1,
    ensures
        deep_seq(s) == deep_seq(s.drop_last()).push(s.last().deep()),
{
    crate::token::lemma_deep_seq_len(s);
    crate::token::lemma_deep_seq_len(s.drop_last());
    assert(deep_seq(s) =~= deep_seq(s.drop_last()).push(s.last().deep()));
}

} // verus!
