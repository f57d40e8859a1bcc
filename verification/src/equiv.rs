//! Why optimizing preserves meaning: running the optimized token tree from a
//! state whose current cell is zero yields exactly what running the raw tree
//! yields, whenever the raw run finishes and no loop body begins with a loop
//! (leading-loop elision discards such a body's first loop although it may be
//! live).
use vstd::prelude::*;
use crate::interp::{cell, run_loop, run_seq, step_simple, wf_state, MachineState, RunOutcome,
    TAPE_LEN};
use crate::optimizer::{cm_run, cm_sum, elide, fuse, is_zero_idiom, mp_run, mp_sum, opt_loop,
    opt_spec, wrap_add, lemma_cm_run_bounds, lemma_mp_run_bounds};
use crate::codegen::{seq_has_input, tok_has_input};
use crate::token::Tok;

verus! {

/// The state after adding `d` to the current cell.
pub open spec fn bump(st: MachineState, d: i32) -> MachineState {
    MachineState { tape: st.tape.update(st.ptr, wrap_add(cell(st), d)), ..st }
}

/// The state after moving the pointer by `k`.
pub open spec fn shift(st: MachineState, k: int) -> MachineState {
    MachineState { ptr: st.ptr + k, ..st }
}

/// Two's-complement addition associates.
pub proof fn lemma_wrap_assoc(a: i32, b: i32, c: i32)
    ensures
        wrap_add(wrap_add(a, b), c) == wrap_add(a, wrap_add(b, c)),
{
}

/// Two cell additions collapse into one.
pub proof fn lemma_bump_bump(st: MachineState, a: i32, b: i32)
    requires
        wf_state(st),
    ensures
        bump(bump(st, a), b) == bump(st, wrap_add(a, b)),
{
    lemma_wrap_assoc(cell(st), a, b);
    assert(bump(bump(st, a), b).tape =~= bump(st, wrap_add(a, b)).tape);
}

/// Adding nothing to the current cell changes nothing.
pub proof fn lemma_bump_zero(st: MachineState)
    requires
        wf_state(st),
    ensures
        bump(st, 0i32) == st,
{
    assert(bump(st, 0i32).tape =~= st.tape);
    assert(st == MachineState { tape: st.tape, ptr: st.ptr, out: st.out });
}

/// Moving the pointer by nothing changes nothing.
pub proof fn lemma_shift_zero(st: MachineState)
    ensures
        shift(st, 0) == st,
{
    assert(st == MachineState { tape: st.tape, ptr: st.ptr, out: st.out });
}

/// Every state a run passes through, or ends in, stays well formed.
pub proof fn lemma_run_seq_wf(prog: Seq<Tok>, st: MachineState, fuel: nat)
    requires
        wf_state(st),
    ensures
        match run_seq(prog, st, fuel) {
            RunOutcome::Done(s2) => wf_state(s2),
            RunOutcome::Fail(_, s2) => wf_state(s2),
            RunOutcome::NoFuel(s2) => wf_state(s2),
        },
    decreases fuel, prog, 1int,
{
    if prog.len() > 0 {
        if prog[0] is Loop {
            lemma_run_loop_wf(prog[0], st, fuel);
            match run_loop(prog[0], st, fuel) {
                RunOutcome::Done(st2) => lemma_run_seq_wf(prog.drop_first(), st2, fuel),
                _ => {},
            }
        } else {
            match step_simple(prog[0], st) {
                RunOutcome::Done(st2) => lemma_run_seq_wf(prog.drop_first(), st2, fuel),
                _ => {},
            }
        }
    }
}

/// Every state a loop run passes through, or ends in, stays well formed.
pub proof fn lemma_run_loop_wf(t: Tok, st: MachineState, fuel: nat)
    requires
        wf_state(st),
    ensures
        match run_loop(t, st, fuel) {
            RunOutcome::Done(s2) => wf_state(s2),
            RunOutcome::Fail(_, s2) => wf_state(s2),
            RunOutcome::NoFuel(s2) => wf_state(s2),
        },
    decreases fuel, t, 2int,
{
    match t {
        Tok::Loop(body) => {
            if cell(st) != 0 && fuel > 0 {
                lemma_run_seq_wf(body, st, (fuel - 1) as nat);
                match run_seq(body, st, (fuel - 1) as nat) {
                    RunOutcome::Done(st2) => lemma_run_loop_wf(t, st2, (fuel - 1) as nat),
                    _ => {},
                }
            }
        },
        _ => {},
    }
}

/// No loop body anywhere in the token, recursively, begins with a loop.
pub open spec fn loops_ok_tok(t: Tok) -> bool
    decreases t, 0int,
{
    match t {
        Tok::Loop(body) => {
            &&& !(body.len() > 0 && body[0] is Loop)
            &&& loops_ok_seq(body)
        },
        _ => true,
    }
}

/// No loop body anywhere in the sequence, recursively, begins with a loop.
pub open spec fn loops_ok_seq(s: Seq<Tok>) -> bool
    decreases s, 1int,
{
    if s.len() == 0 {
        true
    } else {
        loops_ok_tok(s[0]) && loops_ok_seq(s.drop_first())
    }
}

/// Both side conditions carry over to every suffix.
pub proof fn lemma_suffix_props(s: Seq<Tok>, k: int)
    requires
        0 <= k <= s.len(),
    ensures
        loops_ok_seq(s) ==> loops_ok_seq(s.subrange(k, s.len() as int)),
        !seq_has_input(s) ==> !seq_has_input(s.subrange(k, s.len() as int)),
    decreases k,
{
    if k == 0 {
        assert(s.subrange(0, s.len() as int) =~= s);
    } else {
        lemma_suffix_props(s.drop_first(), k - 1);
        assert(s.drop_first().subrange(k - 1, s.drop_first().len() as int) =~= s.subrange(
            k,
            s.len() as int,
        ));
    }
}

/// Running a leading `ChangeMem` run is the same as adding its fused delta
/// to the current cell at once. `acc` carries what has been folded already.
pub proof fn lemma_cm_fold(s: Seq<Tok>, st: MachineState, acc: i32, fuel: nat)
    requires
        wf_state(st),
    ensures
        run_seq(s, bump(st, acc), fuel) == run_seq(
            s.subrange(cm_run(s), s.len() as int),
            bump(st, cm_sum(acc, s)),
            fuel,
        ),
    decreases s.len(),
{
    lemma_cm_run_bounds(s);
    if s.len() > 0 && s[0] is ChangeMem {
        let d = s[0]->ChangeMem_0;
        lemma_bump_bump(st, acc, d);
        assert(step_simple(s[0], bump(st, acc)) == RunOutcome::Done(bump(st, wrap_add(acc, d))));
        lemma_cm_fold(s.drop_first(), st, wrap_add(acc, d), fuel);
        assert(s.drop_first().subrange(
            cm_run(s.drop_first()),
            s.drop_first().len() as int,
        ) =~= s.subrange(cm_run(s), s.len() as int));
    } else {
        assert(s.subrange(0, s.len() as int) =~= s);
    }
}

/// Running a leading `MovePointer` run is the same as moving the pointer by
/// its fused delta at once; since every intermediate pointer stayed on the
/// tape, the fused delta never wraps, and the one fused move stays on the
/// tape too. `acc` carries the displacement folded already.
pub proof fn lemma_mp_fold(s: Seq<Tok>, st: MachineState, acc: i32, fuel: nat)
    requires
        wf_state(st),
        0 <= st.ptr + acc < TAPE_LEN,
        run_seq(s, shift(st, acc as int), fuel) is Done,
    ensures
        0 <= st.ptr + mp_sum(acc, s) < TAPE_LEN,
        run_seq(s, shift(st, acc as int), fuel) == run_seq(
            s.subrange(mp_run(s), s.len() as int),
            shift(st, mp_sum(acc, s) as int),
            fuel,
        ),
    decreases s.len(),
{
    lemma_mp_run_bounds(s);
    if s.len() > 0 && s[0] is MovePointer {
        let d = s[0]->MovePointer_0;
        let cur = shift(st, acc as int);
        assert(0 <= cur.ptr + d < TAPE_LEN) by {
            assert(step_simple(s[0], cur) is Done);
        }
        assert(wrap_add(acc, d) == acc + d);
        assert(step_simple(s[0], cur) == RunOutcome::Done(shift(st, (acc + d) as int)));
        lemma_mp_fold(s.drop_first(), st, wrap_add(acc, d), fuel);
        assert(s.drop_first().subrange(
            mp_run(s.drop_first()),
            s.drop_first().len() as int,
        ) =~= s.subrange(mp_run(s), s.len() as int));
    } else {
        assert(s.subrange(0, s.len() as int) =~= s);
    }
}

/// A loop around exactly `ChangeMem(-1)` can only finish with the current
/// cell at zero and nothing else changed: exactly what `SetMemTo(0)` does.
pub proof fn lemma_zero_idiom_run(t: Tok, st: MachineState, fuel: nat)
    requires
        wf_state(st),
        t == Tok::Loop(seq![Tok::ChangeMem(-1i32)]),
        run_loop(t, st, fuel) is Done,
    ensures
        run_loop(t, st, fuel) == RunOutcome::Done(
            MachineState { tape: st.tape.update(st.ptr, 0i32), ..st },
        ),
    decreases fuel,
{
    let body = seq![Tok::ChangeMem(-1i32)];
    if cell(st) == 0 {
        assert(MachineState { tape: st.tape.update(st.ptr, 0i32), ..st }.tape =~= st.tape);
        assert(st == MachineState { tape: st.tape, ptr: st.ptr, out: st.out });
    } else {
        let st1 = bump(st, -1i32);
        assert(body.drop_first() =~= Seq::<Tok>::empty());
        assert(run_seq(Seq::<Tok>::empty(), st1, (fuel - 1) as nat) == RunOutcome::Done(st1));
        assert(step_simple(body[0], st) == RunOutcome::Done(st1));
        assert(run_seq(body, st, (fuel - 1) as nat) == RunOutcome::Done(st1));
        lemma_zero_idiom_run(t, st1, (fuel - 1) as nat);
        assert(st1.tape.update(st1.ptr, 0i32) =~= st.tape.update(st.ptr, 0i32));
    }
}

/// The rewrite pass preserves a finished run: running `fuse(prog)` from the
/// same state yields the same outcome.
pub proof fn lemma_fuse_preserves(prog: Seq<Tok>, st: MachineState, fuel: nat)
    requires
        wf_state(st),
        !seq_has_input(prog),
        loops_ok_seq(prog),
        run_seq(prog, st, fuel) is Done,
    ensures
        run_seq(fuse(prog), st, fuel) == run_seq(prog, st, fuel),
    decreases fuel, prog.len(), 1int,
{
    if prog.len() == 0 {
        assert(fuse(prog) =~= prog);
    } else {
        let t = prog[0];
        let rest = prog.drop_first();
        if is_zero_idiom(t) {
            let lr = run_loop(t, st, fuel);
            assert(lr is Done);
            assert(t->Loop_0 =~= seq![Tok::ChangeMem(-1i32)]);
            assert(t == Tok::Loop(t->Loop_0));
            lemma_zero_idiom_run(t, st, fuel);
            let st2 = MachineState { tape: st.tape.update(st.ptr, 0i32), ..st };
            assert(wf_state(st2));
            lemma_fuse_preserves(rest, st2, fuel);
            assert((seq![Tok::SetMemTo(0i32)] + fuse(rest)).drop_first() =~= fuse(rest));
            assert(step_simple(Tok::SetMemTo(0i32), st) == RunOutcome::Done(st2));
        } else if t is ChangeMem {
            lemma_bump_zero(st);
            lemma_cm_fold(prog, st, 0i32, fuel);
            lemma_cm_run_bounds(prog);
            let k = cm_run(prog);
            let suffix = prog.subrange(k, prog.len() as int);
            let s2 = bump(st, cm_sum(0i32, prog));
            lemma_suffix_props(prog, k);
            assert(wf_state(s2));
            lemma_fuse_preserves(suffix, s2, fuel);
            assert((seq![Tok::ChangeMem(cm_sum(0i32, prog))] + fuse(suffix)).drop_first()
                =~= fuse(suffix));
            assert(step_simple(Tok::ChangeMem(cm_sum(0i32, prog)), st) == RunOutcome::Done(s2));
        } else if t is MovePointer {
            lemma_shift_zero(st);
            lemma_mp_fold(prog, st, 0i32, fuel);
            lemma_mp_run_bounds(prog);
            let k = mp_run(prog);
            let suffix = prog.subrange(k, prog.len() as int);
            let s2 = shift(st, mp_sum(0i32, prog) as int);
            lemma_suffix_props(prog, k);
            assert(wf_state(s2));
            lemma_fuse_preserves(suffix, s2, fuel);
            assert((seq![Tok::MovePointer(mp_sum(0i32, prog))] + fuse(suffix)).drop_first()
                =~= fuse(suffix));
            assert(step_simple(Tok::MovePointer(mp_sum(0i32, prog)), st) == RunOutcome::Done(s2));
        } else if t is Loop {
            let lr = run_loop(t, st, fuel);
            assert(lr is Done);
            let st2 = lr->Done_0;
            lemma_loop_preserves(t, st, fuel);
            lemma_run_loop_wf(t, st, fuel);
            lemma_fuse_preserves(rest, st2, fuel);
            assert((seq![opt_loop(t)] + fuse(rest)).drop_first() =~= fuse(rest));
            assert(run_loop(opt_loop(t), st, fuel) == RunOutcome::Done(st2));
        } else {
            let sr = step_simple(t, st);
            assert(sr is Done);
            let st2 = sr->Done_0;
            assert(wf_state(st2));
            lemma_fuse_preserves(rest, st2, fuel);
            assert((seq![t] + fuse(rest)).drop_first() =~= fuse(rest));
        }
    }
}

/// A surviving loop with its body rewritten runs exactly as the raw loop
/// does, iteration by iteration.
pub proof fn lemma_loop_preserves(t: Tok, st: MachineState, fuel: nat)
    requires
        wf_state(st),
        t is Loop,
        !tok_has_input(t),
        loops_ok_tok(t),
        run_loop(t, st, fuel) is Done,
    ensures
        run_loop(opt_loop(t), st, fuel) == run_loop(t, st, fuel),
    decreases fuel, 0int, 0int,
{
    let b = t->Loop_0;
    let fb = fuse(b);
    assert(elide(b) == b);
    assert(t == Tok::Loop(b));
    assert(opt_loop(t) == Tok::Loop(fb));
    if cell(st) != 0 {
        assert(fuel > 0);
        let br = run_seq(b, st, (fuel - 1) as nat);
        assert(br is Done);
        let st1 = br->Done_0;
        lemma_fuse_preserves(b, st, (fuel - 1) as nat);
        lemma_run_seq_wf(b, st, (fuel - 1) as nat);
        lemma_loop_preserves(t, st1, (fuel - 1) as nat);
        assert(run_loop(Tok::Loop(fb), st, fuel) == run_loop(t, st1, (fuel - 1) as nat));
    }
}

/// Optimizing preserves meaning. For a program free of `Input` whose loop
/// bodies never begin with a loop, started from a well-formed state whose
/// current cell is zero — as the fresh all-zero tape is — a finished raw run
/// and the optimized program's run end in the same tape, the same pointer
/// and the same output. (A loop at the very start of a nested body would be
/// discarded by elision even though the body is entered with a non-zero
/// cell, so such programs are left out; so are unfinished runs, since only
/// the raw run's completion bounds how much fuel both need.)
pub proof fn lemma_optimize_preserves_run(prog: Seq<Tok>, st: MachineState, fuel: nat)
    requires
        wf_state(st),
        cell(st) == 0,
        !seq_has_input(prog),
        loops_ok_seq(prog),
        run_seq(prog, st, fuel) is Done,
    ensures
        run_seq(opt_spec(prog), st, fuel) == run_seq(prog, st, fuel),
{
    if prog.len() > 0 && prog[0] is Loop {
        assert(run_loop(prog[0], st, fuel) == RunOutcome::Done(st));
        lemma_suffix_props(prog, 1);
        assert(prog.subrange(1, prog.len() as int) =~= prog.drop_first());
        lemma_fuse_preserves(prog.drop_first(), st, fuel);
    } else {
        assert(elide(prog) == prog);
        lemma_fuse_preserves(prog, st, fuel);
    }
}

/// The machine as every run of a whole program begins: an all-zero tape,
/// the pointer on the first cell, nothing printed yet.
pub open spec fn initial_state() -> MachineState {
    MachineState {
        tape: Seq::new(TAPE_LEN as nat, |i: int| 0i32),
        ptr: 0,
        out: Seq::empty(),
    }
}

/// The same preservation, stated for runs from the fresh machine: whenever
/// the raw program finishes there, the optimized program finishes there with
/// the same tape and the same output.
pub proof fn lemma_optimize_preserves_from_start(prog: Seq<Tok>, fuel: nat)
    requires
        !seq_has_input(prog),
        loops_ok_seq(prog),
        run_seq(prog, initial_state(), fuel) is Done,
    ensures
        run_seq(opt_spec(prog), initial_state(), fuel) == run_seq(prog, initial_state(), fuel),
{
    lemma_optimize_preserves_run(prog, initial_state(), fuel);
}

} // verus!
