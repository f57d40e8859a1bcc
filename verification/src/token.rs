use vstd::prelude::*;

verus! {

/// A parsed program is an ordered sequence of tokens; a `Loop` owns its body
/// exclusively, so the tree nesting mirrors the bracket nesting of the source.
#[derive(Debug, PartialEq)]
pub enum Token {
    MovePointer(i32),
    ChangeMem(i32),
    SetMemTo(i32),
    Loop(Vec<Token>),
    Input,
    Print,
    NoOp,
}

/// Ghost mirror of `Token`, used by every specification: loop bodies are
/// `Seq` values, so contracts can speak of whole trees structurally.
pub enum Tok {
    MovePointer(i32),
    ChangeMem(i32),
    SetMemTo(i32),
    Loop(Seq<Tok>),
    Input,
    Print,
    NoOp,
}

impl Token {
    /// The ghost tree that this token stands for.
    pub open spec fn deep(self) -> Tok
        decreases self,
    {
        match self {
            Token::MovePointer(d) => Tok::MovePointer(d),
            Token::ChangeMem(d) => Tok::ChangeMem(d),
            Token::SetMemTo(v) => Tok::SetMemTo(v),
            Token::Loop(body) => Tok::Loop(deep_seq(body@)),
            Token::Input => Tok::Input,
            Token::Print => Tok::Print,
            Token::NoOp => Tok::NoOp,
        }
    }
}

/// The ghost trees of a whole token sequence.
pub open spec fn deep_seq(s: Seq<Token>) -> Seq<Tok>
    decreases s,
{
    if s.len() == 0 {
        Seq::empty()
    } else {
        seq![s[0].deep()] + deep_seq(s.drop_first())
    }
}

/// Structural height of a token tree, the measure that recursion over
/// loop bodies decreases.
pub open spec fn tok_height(t: Tok) -> nat
    decreases t, 0int,
{
    match t {
        Tok::Loop(body) => 1 + seq_height(body),
        _ => 1,
    }
}

/// Structural height of a token sequence.
pub open spec fn seq_height(s: Seq<Tok>) -> nat
    decreases s, 1int,
{
    if s.len() == 0 {
        0
    } else {
        tok_height(s[0]) + seq_height(s.drop_first())
    }
}

/// An element never outweighs the sequence holding it.
pub proof fn lemma_seq_height_elem(s: Seq<Tok>, i: int)
    requires
        0 <= i < s.len(),
    ensures
        tok_height(s[i]) <= seq_height(s),
    decreases i,
{
    if i > 0 {
        lemma_seq_height_elem(s.drop_first(), i - 1);
    }
}

/// Dropping the head commutes with taking ghost trees.
pub proof fn lemma_deep_drop_first(s: Seq<Token>)
    requires
        s.len() > 0,
    ensures
        deep_seq(s.drop_first()) == deep_seq(s).drop_first(),
{
    assert(deep_seq(s).drop_first() =~= deep_seq(s.drop_first()));
}

pub proof fn lemma_deep_seq_len(s: Seq<Token>)
    ensures
        deep_seq(s).len() == s.len(),
        forall|i: int| 0 <= i < s.len() ==> #[trigger] deep_seq(s)[i] == s[i].deep(),
    decreases s.len(),
{
    if s.len() > 0 {
        lemma_deep_seq_len(s.drop_first());
    }
}

} // verus!
