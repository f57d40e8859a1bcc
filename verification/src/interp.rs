use vstd::prelude::*;
use crate::optimizer::wrap_add;
use crate::token::{deep_seq, Tok, Token};

verus! {

/// Number of cells on the tape.
pub const TAPE_LEN: usize = 30000;

/// The whole machine at one instant: the tape, the cell pointer, and every
/// value printed so far.
pub struct MachineState {
    pub tape: Seq<i32>,
    pub ptr: int,
    pub out: Seq<i32>,
}

/// Why a run stopped before its program ended.
pub enum FailKind {
    /// The pointer would have moved outside the tape. Out-of-range movement
    /// is rejected, uniformly, the moment it happens.
    OutOfRange,
    /// An `Input` token was reached; no execution path defines input.
    Unsupported,
}

/// What running a program yields: the final state, a failure together with
/// the state at the moment of failure, or the state in which the fuel bound
/// on loop unrolling ran out.
pub enum RunOutcome {
    Done(MachineState),
    Fail(FailKind, MachineState),
    NoFuel(MachineState),
}

/// A machine state is well formed when the tape has its fixed length and the
/// pointer rests on it.
pub open spec fn wf_state(st: MachineState) -> bool {
    &&& st.tape.len() == TAPE_LEN
    &&& 0 <= st.ptr < TAPE_LEN
}

/// The currently addressed cell.
pub open spec fn cell(st: MachineState) -> i32 {
    st.tape[st.ptr]
}

/// One non-loop token: how it transforms the machine.
pub open spec fn step_simple(t: Tok, st: MachineState) -> RunOutcome {
    match t {
        Tok::MovePointer(d) => {
            let ptr2 = st.ptr + d;
            if 0 <= ptr2 < TAPE_LEN {
                RunOutcome::Done(MachineState { ptr: ptr2, ..st })
            } else {
                RunOutcome::Fail(FailKind::OutOfRange, st)
            }
        },
        Tok::ChangeMem(d) => RunOutcome::Done(
            MachineState { tape: st.tape.update(st.ptr, wrap_add(cell(st), d)), ..st },
        ),
        Tok::SetMemTo(v) => RunOutcome::Done(
            MachineState { tape: st.tape.update(st.ptr, v), ..st },
        ),
        Tok::Print => RunOutcome::Done(MachineState { out: st.out.push(cell(st)), ..st }),
        Tok::Input => RunOutcome::Fail(FailKind::Unsupported, st),
        _ => RunOutcome::Done(st),
    }
}

/// Runs a token sequence. The fuel bounds how deeply loops may unroll; it is
/// not consumed by moving from one token to the next.
pub open spec fn run_seq(prog: Seq<Tok>, st: MachineState, fuel: nat) -> RunOutcome
    decreases fuel, prog, 1int,
{
    if prog.len() == 0 {
        RunOutcome::Done(st)
    } else {
        let outcome = if prog[0] is Loop {
            run_loop(prog[0], st, fuel)
        } else {
            step_simple(prog[0], st)
        };
        match outcome {
            RunOutcome::Done(st2) => run_seq(prog.drop_first(), st2, fuel),
            o => o,
        }
    }
}

/// Runs one loop token: while the current cell is not zero, run the body,
/// spending one unit of fuel per iteration.
pub open spec fn run_loop(t: Tok, st: MachineState, fuel: nat) -> RunOutcome
    decreases fuel, t, 2int,
{
    match t {
        Tok::Loop(body) => {
            if cell(st) == 0 {
                RunOutcome::Done(st)
            } else if fuel == 0 {
                RunOutcome::NoFuel(st)
            } else {
                match run_seq(body, st, (fuel - 1) as nat) {
                    RunOutcome::Done(st2) => run_loop(t, st2, (fuel - 1) as nat),
                    o => o,
                }
            }
        },
        _ => RunOutcome::Done(st),
    }
}

/// How a finished run reports itself to a caller.
#[derive(Debug, Clone, Copy, PartialEq, Eq, Structural)]
pub enum RunStatus {
    Finished,
    OutOfFuel,
    PointerOutOfRange,
    Unsupported,
}

/// Moves an index by a signed offset.
pub fn add(u: usize, i: i32) -> (r: usize)
    requires
        i > i32::MIN,
        i < 0 ==> -(i as int) <= u as int,
        i >= 0 ==> u + i <= usize::MAX,
    ensures
        r as int == u + i,
{
    if i < 0 {
        u - ((-i) as usize)
    } else {
        u + (i as usize)
    }
}

/// Runs a token tree directly against a tape, appending every printed cell
/// value to `output`; `fuel` bounds loop unrolling so that the run always
/// returns. The final tape, pointer, output and status are exactly what the
/// specification-level run yields.
#[verifier::rlimit(100)]
#[verifier::loop_isolation(false)]
pub fn brainfuck_interpreter(
    input: &Vec<Token>,
    memory: &mut Vec<i32>,
    mem_pointer: &mut usize,
    output: &mut Vec<i32>,
    fuel: u64,
) -> (status: RunStatus)
    requires
        old(memory)@.len() == TAPE_LEN,
        *old(mem_pointer) < TAPE_LEN,
    ensures
        final(memory)@.len() == TAPE_LEN,
        *final(mem_pointer) < TAPE_LEN,
        ({
            let start = MachineState {
                tape: old(memory)@,
                ptr: *old(mem_pointer) as int,
                out: old(output)@,
            };
            let end = MachineState {
                tape: final(memory)@,
                ptr: *final(mem_pointer) as int,
                out: final(output)@,
            };
            match run_seq(deep_seq(input@), start, fuel as nat) {
                RunOutcome::Done(st) => status == RunStatus::Finished && end == st,
                RunOutcome::Fail(FailKind::OutOfRange, st) => status
                    == RunStatus::PointerOutOfRange && end == st,
                RunOutcome::Fail(FailKind::Unsupported, st) => status == RunStatus::Unsupported
                    && end == st,
                RunOutcome::NoFuel(st) => status == RunStatus::OutOfFuel && end == st,
            }
        }),
    decreases fuel,
{
    let ghost prog0: Seq<Tok> = deep_seq(input@);
    let ghost start = MachineState {
        tape: old(memory)@,
        ptr: *old(mem_pointer) as int,
        out: old(output)@,
    };
    let n = input.len();
    let mut i: usize = 0;
    proof {
        crate::token::lemma_deep_seq_len(input@);
        assert(input@.subrange(0, n as int) =~= input@);
    }
    while i < n
        invariant
            i <= n,
            memory@.len() == TAPE_LEN,
            *mem_pointer < TAPE_LEN,
            run_seq(prog0, start, fuel as nat) == run_seq(
                deep_seq(input@.subrange(i as int, n as int)),
                MachineState { tape: memory@, ptr: *mem_pointer as int, out: output@ },
                fuel as nat,
            ),
        decreases n - i,
    {
        let ghost cur = MachineState { tape: memory@, ptr: *mem_pointer as int, out: output@ };
        let ghost suffix = deep_seq(input@.subrange(i as int, n as int));
        proof {
            crate::token::lemma_deep_seq_len(input@.subrange(i as int, n as int));
            crate::token::lemma_deep_drop_first(input@.subrange(i as int, n as int));
            assert(input@.subrange(i as int, n as int).drop_first() =~= input@.subrange(
                i + 1,
                n as int,
            ));
            assert(suffix[0] == input@[i as int].deep());
        }
        match &input[i] {
            Token::MovePointer(d) => {
                let d = *d;
                let p = *mem_pointer;
                let moved_ok: bool = if d >= 0 {
                    d < TAPE_LEN as i32 && p < TAPE_LEN - (d as usize)
                } else {
                    d > i32::MIN && ((-d) as usize) <= p
                };
                if !moved_ok {
                    proof {
                        assert(step_simple(suffix[0], cur) == RunOutcome::Fail(
                            FailKind::OutOfRange,
                            cur,
                        ));
                    }
                    return RunStatus::PointerOutOfRange;
                }
                *mem_pointer = crate::interp::add(p, d);
            },
            Token::ChangeMem(d) => {
                let p = *mem_pointer;
                let v = memory[p];
                memory[p] = v.wrapping_add(*d);
                proof {
                    assert(memory@ =~= cur.tape.update(cur.ptr, wrap_add(cell(cur), *d)));
                }
            },
            Token::SetMemTo(v) => {
                let p = *mem_pointer;
                memory[p] = *v;
                proof {
                    assert(memory@ =~= cur.tape.update(cur.ptr, *v));
                }
            },
            Token::Print => {
                let p = *mem_pointer;
                let v = memory[p];
                output.push(v);
            },
            Token::Input => {
                return RunStatus::Unsupported;
            },
            Token::NoOp => {},
            Token::Loop(body) => {
                let ghost ld: Tok = suffix[0];
                let ghost st_in = cur;
                let mut fl: u64 = fuel;
                while memory[*mem_pointer] != 0
                    invariant
                        memory@.len() == TAPE_LEN,
                        *mem_pointer < TAPE_LEN,
                        fl <= fuel,
                        run_loop(ld, st_in, fuel as nat) == run_loop(
                            ld,
                            MachineState { tape: memory@, ptr: *mem_pointer as int, out: output@ },
                            fl as nat,
                        ),
                    decreases fl,
                {
                    let ghost it = MachineState {
                        tape: memory@,
                        ptr: *mem_pointer as int,
                        out: output@,
                    };
                    if fl == 0 {
                        proof {
                            assert(run_loop(ld, it, 0nat) == RunOutcome::NoFuel(it));
                        }
                        return RunStatus::OutOfFuel;
                    }
                    let st = brainfuck_interpreter(body, memory, mem_pointer, output, fl - 1);
                    if !matches!(st, RunStatus::Finished) {
                        return st;
                    }
                    fl = fl - 1;
                }
                proof {
                    let it = MachineState {
                        tape: memory@,
                        ptr: *mem_pointer as int,
                        out: output@,
                    };
                    assert(run_loop(ld, it, fl as nat) == RunOutcome::Done(it));
                }
            },
        }
        i = i + 1;
    }
    proof {
        assert(input@.subrange(n as int, n as int) =~= Seq::<Token>::empty());
        crate::token::lemma_deep_seq_len(input@.subrange(n as int, n as int));
    }
    RunStatus::Finished
}

} // verus!
