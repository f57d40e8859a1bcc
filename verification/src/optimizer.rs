use vstd::prelude::*;
use crate::stream::Stream;
use crate::token::{deep_seq, Tok, Token};

verus! {

/// Two's-complement 32-bit addition, the arithmetic both the optimizer's
/// run-length fusion and the tape cells use.
pub open spec fn wrap_add(a: i32, b: i32) -> i32 {
    vstd::wrapping::i32_specs::wrapping_add(a, b)
}

/// Length of the maximal leading run of `ChangeMem` tokens.
pub open spec fn cm_run(s: Seq<Tok>) -> int
    decreases s.len(),
{
    if s.len() > 0 && s[0] is ChangeMem {
        1 + cm_run(s.drop_first())
    } else {
        0
    }
}

/// The fused delta of the leading `ChangeMem` run, folded left from `acc`.
pub open spec fn cm_sum(acc: i32, s: Seq<Tok>) -> i32
    decreases s.len(),
{
    if s.len() > 0 && s[0] is ChangeMem {
        cm_sum(wrap_add(acc, s[0]->ChangeMem_0), s.drop_first())
    } else {
        acc
    }
}

/// Length of the maximal leading run of `MovePointer` tokens.
pub open spec fn mp_run(s: Seq<Tok>) -> int
    decreases s.len(),
{
    if s.len() > 0 && s[0] is MovePointer {
        1 + mp_run(s.drop_first())
    } else {
        0
    }
}

/// The fused delta of the leading `MovePointer` run, folded left from `acc`.
pub open spec fn mp_sum(acc: i32, s: Seq<Tok>) -> i32
    decreases s.len(),
{
    if s.len() > 0 && s[0] is MovePointer {
        mp_sum(wrap_add(acc, s[0]->MovePointer_0), s.drop_first())
    } else {
        acc
    }
}

/// A loop whose body is exactly one `ChangeMem(-1)`: it zeroes the current
/// cell, so it is rewritten to `SetMemTo(0)`.
pub open spec fn is_zero_idiom(t: Tok) -> bool {
    &&& t is Loop
    &&& t->Loop_0.len() == 1
    &&& t->Loop_0[0] == Tok::ChangeMem(-1i32)
}

/// Leading-loop elision: a loop standing first in the sequence being
/// optimized is discarded without looking inside it.
pub open spec fn elide(s: Seq<Tok>) -> Seq<Tok> {
    if s.len() > 0 && s[0] is Loop {
        s.drop_first()
    } else {
        s
    }
}

pub proof fn lemma_cm_run_bounds(s: Seq<Tok>)
    ensures
        0 <= cm_run(s) <= s.len(),
        s.len() > 0 && s[0] is ChangeMem ==> cm_run(s) >= 1,
    decreases s.len(),
{
    if s.len() > 0 && s[0] is ChangeMem {
        lemma_cm_run_bounds(s.drop_first());
    }
}

pub proof fn lemma_mp_run_bounds(s: Seq<Tok>)
    ensures
        0 <= mp_run(s) <= s.len(),
        s.len() > 0 && s[0] is MovePointer ==> mp_run(s) >= 1,
    decreases s.len(),
{
    if s.len() > 0 && s[0] is MovePointer {
        lemma_mp_run_bounds(s.drop_first());
    }
}

/// What the optimizer yields for a token sequence: leading-loop elision,
/// then the three local rewrites over what remains.
pub open spec fn opt_spec(s: Seq<Tok>) -> Seq<Tok>
    decreases s, 2int,
{
    fuse(elide(s))
}

/// The rewrite pass after elision: zero-idiom loops become `SetMemTo(0)`,
/// maximal runs of `ChangeMem` or `MovePointer` fuse to one token, other
/// loops are optimized recursively, everything else passes through.
pub open spec fn fuse(s: Seq<Tok>) -> Seq<Tok>
    decreases s, 1int,
    via fuse_dec
{
    if s.len() == 0 {
        Seq::empty()
    } else if is_zero_idiom(s[0]) {
        seq![Tok::SetMemTo(0i32)] + fuse(s.drop_first())
    } else if s[0] is ChangeMem {
        seq![Tok::ChangeMem(cm_sum(0i32, s))] + fuse(s.subrange(cm_run(s), s.len() as int))
    } else if s[0] is MovePointer {
        seq![Tok::MovePointer(mp_sum(0i32, s))] + fuse(s.subrange(mp_run(s), s.len() as int))
    } else if s[0] is Loop {
        seq![opt_loop(s[0])] + fuse(s.drop_first())
    } else {
        seq![s[0]] + fuse(s.drop_first())
    }
}

#[via_fn]
proof fn fuse_dec(s: Seq<Tok>) {
    if s.len() > 0 {
        lemma_cm_run_bounds(s);
        lemma_mp_run_bounds(s);
    }
}

/// A single token in optimized shape: no zero-idiom loop survives, and a
/// surviving loop's body neither begins with a loop (the elision applied on
/// entering it would drop that loop) nor holds anything unoptimized.
pub open spec fn stable_tok(t: Tok) -> bool
    decreases t, 0int,
{
    match t {
        Tok::Loop(body) => {
            &&& !is_zero_idiom(t)
            &&& !(body.len() > 0 && body[0] is Loop)
            &&& stable_seq(body)
        },
        _ => true,
    }
}

/// A sequence in optimized shape: no two adjacent tokens that run-length
/// fusion would merge, and every token itself in optimized shape.
pub open spec fn stable_seq(s: Seq<Tok>) -> bool
    decreases s, 1int,
{
    if s.len() == 0 {
        true
    } else {
        &&& stable_tok(s[0])
        &&& (s.len() > 1 ==> !(s[0] is ChangeMem && s[1] is ChangeMem))
        &&& (s.len() > 1 ==> !(s[0] is MovePointer && s[1] is MovePointer))
        &&& stable_seq(s.drop_first())
    }
}

/// A whole program in optimized shape: additionally, it does not begin with
/// a loop, which leading-loop elision would drop.
pub open spec fn stable_prog(s: Seq<Tok>) -> bool {
    &&& !(s.len() > 0 && s[0] is Loop)
    &&& stable_seq(s)
}

/// The rewrite pass leaves a sequence in optimized shape untouched.
pub proof fn lemma_fuse_stable(s: Seq<Tok>)
    requires
        stable_seq(s),
    ensures
        fuse(s) == s,
    decreases s, 1int,
{
    if s.len() == 0 {
        assert(fuse(s) =~= s);
    } else {
        let t = s[0];
        lemma_fuse_stable(s.drop_first());
        if t is ChangeMem {
            assert(s.subrange(1, s.len() as int) =~= s.drop_first());
            assert(s.len() > 1 ==> s.drop_first()[0] == s[1]);
            assert(cm_run(s.drop_first()) == 0);
            assert(cm_run(s) == 1);
            assert(cm_sum(wrap_add(0i32, t->ChangeMem_0), s.drop_first()) == wrap_add(
                0i32,
                t->ChangeMem_0,
            ));
            assert(wrap_add(0i32, t->ChangeMem_0) == t->ChangeMem_0);
            assert(cm_sum(0i32, s) == t->ChangeMem_0);
            assert(seq![s[0]] + s.drop_first() =~= s);
            assert(fuse(s) == s);
        } else if t is MovePointer {
            assert(s.subrange(1, s.len() as int) =~= s.drop_first());
            assert(s.len() > 1 ==> s.drop_first()[0] == s[1]);
            assert(mp_run(s.drop_first()) == 0);
            assert(mp_run(s) == 1);
            assert(mp_sum(wrap_add(0i32, t->MovePointer_0), s.drop_first()) == wrap_add(
                0i32,
                t->MovePointer_0,
            ));
            assert(wrap_add(0i32, t->MovePointer_0) == t->MovePointer_0);
            assert(mp_sum(0i32, s) == t->MovePointer_0);
            assert(seq![s[0]] + s.drop_first() =~= s);
            assert(fuse(s) == s);
        } else if t is Loop {
            lemma_opt_loop_stable(t);
            assert(seq![s[0]] + s.drop_first() =~= s);
            assert(fuse(s) == s);
        } else {
            assert(seq![s[0]] + s.drop_first() =~= s);
            assert(fuse(s) == s);
        }
    }
}

/// A surviving loop in optimized shape is left untouched by recursion.
pub proof fn lemma_opt_loop_stable(t: Tok)
    requires
        t is Loop,
        stable_tok(t),
    ensures
        opt_loop(t) == t,
    decreases t, 2int,
{
    let body = t->Loop_0;
    lemma_fuse_stable(body);
}

/// The optimizer leaves a program in optimized shape untouched.
pub proof fn lemma_optimize_stable(s: Seq<Tok>)
    requires
        stable_prog(s),
    ensures
        opt_spec(s) == s,
{
    lemma_fuse_stable(s);
}

/// The rewrite pass never grows a sequence.
pub proof fn lemma_fuse_shrinks(s: Seq<Tok>)
    ensures
        fuse(s).len() <= s.len(),
    decreases s, 1int,
{
    if s.len() > 0 {
        if !is_zero_idiom(s[0]) && s[0] is ChangeMem {
            lemma_cm_run_bounds(s);
            lemma_fuse_shrinks(s.subrange(cm_run(s), s.len() as int));
        } else if !is_zero_idiom(s[0]) && s[0] is MovePointer {
            lemma_mp_run_bounds(s);
            lemma_fuse_shrinks(s.subrange(mp_run(s), s.len() as int));
        } else {
            lemma_fuse_shrinks(s.drop_first());
        }
    }
}

/// The optimizer never grows a program.
pub proof fn lemma_optimize_shrinks(s: Seq<Tok>)
    ensures
        opt_spec(s).len() <= s.len(),
{
    lemma_fuse_shrinks(elide(s));
}

/// Optimizing reaches a fixed point in one pass: wherever one pass has
/// produced a program in optimized shape, a second pass returns it
/// unchanged. (A first pass can leave that shape only behind a discarded or
/// newly formed leading loop, or around a loop body that fuses to the zero
/// idiom only after its own rewrite.)
pub proof fn lemma_optimize_fixed_point(s: Seq<Tok>)
    requires
        stable_prog(opt_spec(s)),
    ensures
        opt_spec(opt_spec(s)) == opt_spec(s),
{
    lemma_optimize_stable(opt_spec(s));
}

/// A sequence without any loop token at its top level.
pub open spec fn loop_free(s: Seq<Tok>) -> bool
    decreases s.len(),
{
    if s.len() == 0 {
        true
    } else {
        !(s[0] is Loop) && loop_free(s.drop_first())
    }
}

/// What the rewrite pass emits first, for a loop-free head: a token of the
/// head's own kind, never a loop.
proof fn lemma_fuse_head_kind(s: Seq<Tok>)
    requires
        s.len() > 0,
        !(s[0] is Loop),
    ensures
        fuse(s).len() > 0,
        s[0] is ChangeMem ==> fuse(s)[0] is ChangeMem,
        s[0] is MovePointer ==> fuse(s)[0] is MovePointer,
        !(s[0] is ChangeMem) && !(s[0] is MovePointer) ==> fuse(s)[0] == s[0],
        !(fuse(s)[0] is Loop),
{
}

/// Loop-freedom carries over to every suffix.
proof fn lemma_loop_free_suffix(s: Seq<Tok>, k: int)
    requires
        0 <= k <= s.len(),
        loop_free(s),
    ensures
        loop_free(s.subrange(k, s.len() as int)),
    decreases k,
{
    if k == 0 {
        assert(s.subrange(0, s.len() as int) =~= s);
    } else {
        lemma_loop_free_suffix(s.drop_first(), k - 1);
        assert(s.drop_first().subrange(k - 1, s.drop_first().len() as int) =~= s.subrange(
            k,
            s.len() as int,
        ));
    }
}

/// One pass over a loop-free sequence already leaves it in optimized shape.
#[verifier::rlimit(100)]
#[verifier::spinoff_prover]
proof fn lemma_fuse_loop_free_stable(s: Seq<Tok>)
    requires
        loop_free(s),
    ensures
        stable_seq(fuse(s)),
        loop_free(fuse(s)),
    decreases s.len(),
{
    if s.len() > 0 {
        let t = s[0];
        if t is ChangeMem {
            lemma_cm_run_bounds(s);
            let k = cm_run(s);
            let suffix = s.subrange(k, s.len() as int);
            lemma_loop_free_suffix(s, k);
            lemma_fuse_loop_free_stable(suffix);
            lemma_cm_shift(s, k);
            if suffix.len() > 0 {
                lemma_cm_run_bounds(suffix);
                assert(!(suffix[0] is ChangeMem));
                lemma_fuse_head_kind(suffix);
            }
            let f = seq![Tok::ChangeMem(cm_sum(0i32, s))] + fuse(suffix);
            assert(f[0] == Tok::ChangeMem(cm_sum(0i32, s)));
            assert(suffix.len() > 0 ==> !(suffix[0] is Loop));
            assert(f.drop_first() =~= fuse(suffix));
            assert(f.len() > 1 ==> f[1] == fuse(suffix)[0]);
            assert(f.len() > 1 ==> !(f[1] is ChangeMem));
            assert(stable_tok(f[0]));
            assert(stable_seq(f.drop_first()));
            assert(stable_seq(f));
            assert(loop_free(f));
        } else if t is MovePointer {
            lemma_mp_run_bounds(s);
            let k = mp_run(s);
            let suffix = s.subrange(k, s.len() as int);
            lemma_loop_free_suffix(s, k);
            lemma_fuse_loop_free_stable(suffix);
            lemma_mp_shift(s, k);
            if suffix.len() > 0 {
                lemma_mp_run_bounds(suffix);
                assert(!(suffix[0] is MovePointer));
                lemma_fuse_head_kind(suffix);
            }
            let f = seq![Tok::MovePointer(mp_sum(0i32, s))] + fuse(suffix);
            assert(f[0] == Tok::MovePointer(mp_sum(0i32, s)));
            assert(suffix.len() > 0 ==> !(suffix[0] is Loop));
            assert(f.drop_first() =~= fuse(suffix));
            assert(f.len() > 1 ==> f[1] == fuse(suffix)[0]);
            assert(f.len() > 1 ==> !(f[1] is MovePointer));
            assert(stable_tok(f[0]));
            assert(stable_seq(f.drop_first()));
            assert(stable_seq(f));
            assert(loop_free(f));
        } else {
            let rest = s.drop_first();
            lemma_fuse_loop_free_stable(rest);
            let f = seq![t] + fuse(rest);
            assert(f[0] == t);
            assert(f.drop_first() =~= fuse(rest));
            assert(stable_tok(f[0]));
            assert(stable_seq(f.drop_first()));
            assert(stable_seq(f));
            assert(loop_free(f));
        }
    }
}

/// For a program without loops, no side condition is needed: one pass of the
/// optimizer reaches its fixed point.
pub proof fn lemma_optimize_loop_free_fixed_point(s: Seq<Tok>)
    requires
        loop_free(s),
    ensures
        opt_spec(opt_spec(s)) == opt_spec(s),
{
    assert(elide(s) == s);
    lemma_fuse_loop_free_stable(s);
    if fuse(s).len() > 0 {
        assert(!(fuse(s)[0] is Loop));
    }
    lemma_optimize_fixed_point(s);
}

/// Whether a loop body is the zero idiom: exactly one `ChangeMem(-1)`.
fn vec_is_zero_idiom(body: &Vec<Token>) -> (b: bool)
    ensures
        b == is_zero_idiom(Tok::Loop(deep_seq(body@))),
{
    proof {
        crate::token::lemma_deep_seq_len(body@);
    }
    if body.len() != 1 {
        return false;
    }
    match &body[0] {
        Token::ChangeMem(v) => *v == -1,
        _ => false,
    }
}

/// A non-idiom loop is kept, its body optimized recursively.
pub open spec fn opt_loop(t: Tok) -> Tok
    decreases t, 3int,
{
    match t {
        Tok::Loop(body) => Tok::Loop(opt_spec(body)),
        _ => t,
    }
}

/// Consuming `j` tokens of a `ChangeMem` run leaves the rest of the run.
pub proof fn lemma_cm_shift(s: Seq<Tok>, j: int)
    requires
        0 <= j <= cm_run(s),
    ensures
        cm_run(s) == j + cm_run(s.subrange(j, s.len() as int)),
    decreases j,
{
    lemma_cm_run_bounds(s);
    if j == 0 {
        assert(s.subrange(0, s.len() as int) =~= s);
    } else {
        lemma_cm_shift(s.drop_first(), j - 1);
        assert(s.drop_first().subrange(j - 1, s.drop_first().len() as int) =~= s.subrange(
            j,
            s.len() as int,
        ));
    }
}

/// Consuming `j` tokens of a `MovePointer` run leaves the rest of the run.
pub proof fn lemma_mp_shift(s: Seq<Tok>, j: int)
    requires
        0 <= j <= mp_run(s),
    ensures
        mp_run(s) == j + mp_run(s.subrange(j, s.len() as int)),
    decreases j,
{
    lemma_mp_run_bounds(s);
    if j == 0 {
        assert(s.subrange(0, s.len() as int) =~= s);
    } else {
        lemma_mp_shift(s.drop_first(), j - 1);
        assert(s.drop_first().subrange(j - 1, s.drop_first().len() as int) =~= s.subrange(
            j,
            s.len() as int,
        ));
    }
}

/// Whether the next token is a `ChangeMem`.
fn peek_is_cm(data: &Stream<Token>) -> (b: bool)
    ensures
        b == (data@.len() > 0 && data@[0] is ChangeMem),
{
    match data.peek() {
        Some(Token::ChangeMem(_)) => true,
        _ => false,
    }
}

/// Whether the next token is a `MovePointer`.
fn peek_is_mp(data: &Stream<Token>) -> (b: bool)
    ensures
        b == (data@.len() > 0 && data@[0] is MovePointer),
{
    match data.peek() {
        Some(Token::MovePointer(_)) => true,
        _ => false,
    }
}

/// Whether the next token is a `Loop`.
fn peek_is_loop(data: &Stream<Token>) -> (b: bool)
    ensures
        b == (data@.len() > 0 && data@[0] is Loop),
{
    match data.peek() {
        Some(Token::Loop(_)) => true,
        _ => false,
    }
}

/// Rewrites a token sequence by the four peephole rules: a loop standing
/// first is discarded, a loop around exactly `ChangeMem(-1)` becomes
/// `SetMemTo(0)`, maximal runs of `ChangeMem` or of `MovePointer` fuse into
/// one token carrying the two's-complement sum of their deltas, and every
/// remaining loop body is rewritten recursively.
#[verifier::rlimit(100)]
#[verifier::spinoff_prover]
#[verifier::loop_isolation(false)]
pub fn brainfuck_optimizer(input: Vec<Token>) -> (r: Vec<Token>)
    ensures
        deep_seq(r@) == opt_spec(deep_seq(input@)),
    decreases crate::token::seq_height(deep_seq(input@)),
{
    let ghost input0: Seq<Tok> = deep_seq(input@);
    let mut data = Stream::new(input);
    let mut output: Vec<Token> = Vec::new();
    proof {
        crate::token::lemma_deep_seq_len(data@);
    }
    if peek_is_loop(&data) {
        let ghost before = data@;
        let _ = data.next();
        proof {
            crate::token::lemma_deep_drop_first(before);
            assert(deep_seq(data@) == elide(input0));
        }
    } else {
        proof {
            assert(deep_seq(data@) == elide(input0));
        }
    }
    let ghost base: Seq<Tok> = deep_seq(data@);
    let ghost mut pos: int = 0;
    proof {
        assert(base.subrange(0, base.len() as int) =~= base);
        assert(deep_seq(output@) + fuse(base) =~= fuse(base));
    }
    while data.len() > 0
        invariant
            0 <= pos <= base.len(),
            deep_seq(data@) == base.subrange(pos, base.len() as int),
            deep_seq(output@) + fuse(deep_seq(data@)) == fuse(base),
        decreases data@.len(),
    {
        let ghost d0: Seq<Tok> = deep_seq(data@);
        let ghost ov: Seq<Token> = output@;
        let ghost out0: Seq<Tok> = deep_seq(output@);
        let ghost p0: int = pos;
        proof {
            crate::token::lemma_deep_seq_len(data@);
        }
        let ghost before = data@;
        let t = match data.next() {
            Some(t) => t,
            None => { vstd::pervasive::unreached() },
        };
        proof {
            crate::token::lemma_deep_drop_first(before);
            pos = pos + 1;
            assert(base.subrange(pos - 1, base.len() as int).drop_first() =~= base.subrange(
                pos,
                base.len() as int,
            ));
        }
        match t {
            Token::Loop(body) => {
                if vec_is_zero_idiom(&body) {
                    output.push(Token::SetMemTo(0));
                    proof {
                        assert(output@.drop_last() =~= ov);
                        crate::parser::lemma_deep_push(output@);
                        assert(is_zero_idiom(d0[0]));
                        assert(deep_seq(output@) + fuse(deep_seq(data@)) =~= out0 + fuse(d0));
                    }
                } else {
                    proof {
                        crate::token::lemma_seq_height_elem(base, pos - 1);
                        assert(base[pos - 1] == Tok::Loop(deep_seq(body@)));
                        assert(crate::token::seq_height(deep_seq(body@))
                            < crate::token::tok_height(base[pos - 1]));
                        assert(crate::token::seq_height(base) <= crate::token::seq_height(input0));
                    }
                    let opt_body = brainfuck_optimizer(body);
                    output.push(Token::Loop(opt_body));
                    proof {
                        assert(output@.drop_last() =~= ov);
                        crate::parser::lemma_deep_push(output@);
                        assert(output@.last().deep() == opt_loop(d0[0]));
                        assert(deep_seq(output@) + fuse(deep_seq(data@)) =~= out0 + fuse(d0));
                    }
                }
            },
            Token::ChangeMem(b) => {
                let mut acc: i32 = b;
                let ghost mut j: int = 1;
                proof {
                    lemma_cm_run_bounds(d0);
                    assert(d0.drop_first() =~= d0.subrange(1, d0.len() as int));
                    lemma_cm_shift(d0, 1);
                }
                while peek_is_cm(&data)
                    invariant
                        1 <= j <= cm_run(d0),
                        deep_seq(data@) == d0.subrange(j, d0.len() as int),
                        cm_sum(acc, d0.subrange(j, d0.len() as int)) == cm_sum(0i32, d0),
                        pos == p0 + j,
                        deep_seq(data@) == base.subrange(pos, base.len() as int),
                    decreases data@.len(),
                {
                    proof {
                        crate::token::lemma_deep_seq_len(data@);
                        lemma_cm_shift(d0, j);
                        lemma_cm_run_bounds(d0.subrange(j, d0.len() as int));
                    }
                    let ghost before2 = data@;
                    let b2 = match data.next() {
                        Some(Token::ChangeMem(b2)) => b2,
                        _ => { vstd::pervasive::unreached() },
                    };
                    acc = acc.wrapping_add(b2);
                    proof {
                        crate::token::lemma_deep_drop_first(before2);
                        assert(d0.subrange(j, d0.len() as int).drop_first() =~= d0.subrange(
                            j + 1,
                            d0.len() as int,
                        ));
                        assert(base.subrange(pos, base.len() as int).drop_first() =~= base.subrange(
                            pos + 1,
                            base.len() as int,
                        ));
                        j = j + 1;
                        pos = pos + 1;
                    }
                }
                proof {
                    crate::token::lemma_deep_seq_len(data@);
                    lemma_cm_shift(d0, j);
                    assert(j == cm_run(d0));
                    assert(acc == cm_sum(0i32, d0));
                }
                output.push(Token::ChangeMem(acc));
                proof {
                    assert(output@.drop_last() =~= ov);
                    crate::parser::lemma_deep_push(output@);
                    assert(fuse(d0) == seq![Tok::ChangeMem(cm_sum(0i32, d0))] + fuse(
                        d0.subrange(cm_run(d0), d0.len() as int),
                    ));
                    assert(deep_seq(output@) + fuse(deep_seq(data@)) =~= out0 + fuse(d0));
                }
            },
            Token::MovePointer(b) => {
                let mut acc: i32 = b;
                let ghost mut j: int = 1;
                proof {
                    lemma_mp_run_bounds(d0);
                    assert(d0.drop_first() =~= d0.subrange(1, d0.len() as int));
                    lemma_mp_shift(d0, 1);
                }
                while peek_is_mp(&data)
                    invariant
                        1 <= j <= mp_run(d0),
                        deep_seq(data@) == d0.subrange(j, d0.len() as int),
                        mp_sum(acc, d0.subrange(j, d0.len() as int)) == mp_sum(0i32, d0),
                        pos == p0 + j,
                        deep_seq(data@) == base.subrange(pos, base.len() as int),
                    decreases data@.len(),
                {
                    proof {
                        crate::token::lemma_deep_seq_len(data@);
                        lemma_mp_shift(d0, j);
                        lemma_mp_run_bounds(d0.subrange(j, d0.len() as int));
                    }
                    let ghost before2 = data@;
                    let b2 = match data.next() {
                        Some(Token::MovePointer(b2)) => b2,
                        _ => { vstd::pervasive::unreached() },
                    };
                    acc = acc.wrapping_add(b2);
                    proof {
                        crate::token::lemma_deep_drop_first(before2);
                        assert(d0.subrange(j, d0.len() as int).drop_first() =~= d0.subrange(
                            j + 1,
                            d0.len() as int,
                        ));
                        assert(base.subrange(pos, base.len() as int).drop_first() =~= base.subrange(
                            pos + 1,
                            base.len() as int,
                        ));
                        j = j + 1;
                        pos = pos + 1;
                    }
                }
                proof {
                    crate::token::lemma_deep_seq_len(data@);
                    lemma_mp_shift(d0, j);
                    assert(j == mp_run(d0));
                    assert(acc == mp_sum(0i32, d0));
                }
                output.push(Token::MovePointer(acc));
                proof {
                    assert(output@.drop_last() =~= ov);
                    crate::parser::lemma_deep_push(output@);
                    assert(fuse(d0) == seq![Tok::MovePointer(mp_sum(0i32, d0))] + fuse(
                        d0.subrange(mp_run(d0), d0.len() as int),
                    ));
                    assert(deep_seq(output@) + fuse(deep_seq(data@)) =~= out0 + fuse(d0));
                }
            },
            other => {
                output.push(other);
                proof {
                    assert(output@.drop_last() =~= ov);
                    crate::parser::lemma_deep_push(output@);
                    assert(deep_seq(output@) + fuse(deep_seq(data@)) =~= out0 + fuse(d0));
                }
            },
        }
    }
    proof {
        crate::token::lemma_deep_seq_len(data@);
        assert(deep_seq(output@) =~= deep_seq(output@) + fuse(deep_seq(data@)));
    }
    output
}

} // verus!
