use vstd::prelude::*;
use crate::engine::well_formed;
use crate::engine::Instruction;

verus! {

/// Failures of evaluation. `InvalidPC` marks a control transfer outside
/// the program: malformed bytecode, which generated programs never show.
/// `StackExhausted` reports that the evaluation's resource budget ran out.
#[derive(Clone, Copy, Debug, PartialEq, Eq, Structural)]
pub enum EvalError {
    InvalidPC,
    StackExhausted,
}

/// A backtrack record: resume at instruction `pc` with the input cursor at
/// `sp`.
#[derive(Clone, Copy, Debug, PartialEq, Eq, Structural)]
pub struct Frame {
    pub pc: usize,
    pub sp: usize,
}

/// The answer of a bounded backtracking search.
pub enum Outcome {
    /// Some path reached `Match`.
    Accepted,
    /// Every path failed.
    Rejected,
    /// A program counter left the program: malformed bytecode.
    Fault,
    /// The fuel ran out before a answer.
    OutOfFuel,
}

/// How many nested calls the call-stack strategy may make before it
/// reports exhaustion instead of overrunning the native stack.
pub const STACK_LIMIT: u64 = 4096;

/// One backtracking search step at a time, over an explicit stack of
/// backtrack records: the top record runs; a failing consume instruction
/// discards it; `Split` pushes the fallback under the preferred
/// continuation, which fixes the exploration order (preferred first).
pub open spec fn search(
    code: Seq<Instruction>,
    text: Seq<char>,
    stack: Seq<Frame>,
    fuel: nat,
) -> Outcome
    decreases fuel,
{
    if fuel == 0 {
        Outcome::OutOfFuel
    } else if stack.len() == 0 {
        Outcome::Rejected
    } else {
        let t = stack.last();
        let rest = stack.drop_last();
        if t.pc >= code.len() {
            Outcome::Fault
        } else {
            match code[t.pc as int] {
                Instruction::Char(c) => if t.sp < text.len() && text[t.sp as int] == c {
                    search(
                        code,
                        text,
                        rest.push(Frame { pc: (t.pc + 1) as usize, sp: (t.sp + 1) as usize }),
                        (fuel - 1) as nat,
                    )
                } else {
                    search(code, text, rest, (fuel - 1) as nat)
                },
                Instruction::Dot => if t.sp < text.len() {
                    search(
                        code,
                        text,
                        rest.push(Frame { pc: (t.pc + 1) as usize, sp: (t.sp + 1) as usize }),
                        (fuel - 1) as nat,
                    )
                } else {
                    search(code, text, rest, (fuel - 1) as nat)
                },
                Instruction::Match => Outcome::Accepted,
                Instruction::Jump(a) => search(
                    code,
                    text,
                    rest.push(Frame { pc: a, sp: t.sp }),
                    (fuel - 1) as nat,
                ),
                Instruction::Split(a, b) => search(
                    code,
                    text,
                    rest.push(Frame { pc: b, sp: t.sp }).push(Frame { pc: a, sp: t.sp }),
                    (fuel - 1) as nat,
                ),
            }
        }
    }
}

/// The stack the search starts from: program counter and input cursor both
/// at zero, so matching is anchored at the first character of the text.
pub open spec fn start_stack() -> Seq<Frame> {
    seq![Frame { pc: 0, sp: 0 }]
}

/// Some fuel suffices for the search to accept.
pub open spec fn accepts(code: Seq<Instruction>, text: Seq<char>) -> bool {
    exists|f: nat| search(code, text, start_stack(), f) == Outcome::Accepted
}

/// Some fuel suffices for the search to reject.
pub open spec fn rejects(code: Seq<Instruction>, text: Seq<char>) -> bool {
    exists|f: nat| search(code, text, start_stack(), f) == Outcome::Rejected
}

/// Some fuel suffices for the search to fault on a bad address.
pub open spec fn faults(code: Seq<Instruction>, text: Seq<char>) -> bool {
    exists|f: nat| search(code, text, start_stack(), f) == Outcome::Fault
}

/// The depth-first search exactly as the call-stack strategy runs it, with
/// the recursion depth as fuel. At a `Split` the preferred branch is tried
/// first; the fallback runs only when the preferred branch rejects.
pub open spec fn dfs(
    code: Seq<Instruction>,
    text: Seq<char>,
    pc: usize,
    sp: usize,
    depth: nat,
) -> Outcome
    decreases depth,
{
    if depth == 0 {
        Outcome::OutOfFuel
    } else if pc >= code.len() {
        Outcome::Fault
    } else {
        match code[pc as int] {
            Instruction::Char(c) => if sp < text.len() && text[sp as int] == c {
                dfs(code, text, (pc + 1) as usize, (sp + 1) as usize, (depth - 1) as nat)
            } else {
                Outcome::Rejected
            },
            Instruction::Dot => if sp < text.len() {
                dfs(code, text, (pc + 1) as usize, (sp + 1) as usize, (depth - 1) as nat)
            } else {
                Outcome::Rejected
            },
            Instruction::Match => Outcome::Accepted,
            Instruction::Jump(a) => dfs(code, text, a, sp, (depth - 1) as nat),
            Instruction::Split(a, b) => ({
                let r1 = dfs(code, text, a, sp, (depth - 1) as nat);
                if r1 == Outcome::Rejected {
                    dfs(code, text, b, sp, (depth - 1) as nat)
                } else {
                    r1
                }
            }),
        }
    }
}

/// The result the evaluator reports for a search answer.
pub open spec fn outcome_result(o: Outcome) -> Result<bool, EvalError> {
    match o {
        Outcome::Accepted => Ok(true),
        Outcome::Rejected => Ok(false),
        Outcome::Fault => Err(EvalError::InvalidPC),
        Outcome::OutOfFuel => Err(EvalError::StackExhausted),
    }
}

/// After `k` fuel the search has discarded the top frame `t` and behaves
/// as the search over the rest of the stack.
pub open spec fn consumes(
    code: Seq<Instruction>,
    text: Seq<char>,
    rest: Seq<Frame>,
    t: Frame,
    k: nat,
) -> bool {
    forall|f: nat|
        search(code, text, rest.push(t), k + f) == #[trigger] search(code, text, rest, f)
}

/// One unfolded step of `search` on a stack whose top frame is `t` and
/// whose rest is `rest`.
pub open spec fn search_step(
    code: Seq<Instruction>,
    text: Seq<char>,
    rest: Seq<Frame>,
    t: Frame,
    fuel: nat,
) -> Outcome
    recommends
        fuel > 0,
{
    if t.pc >= code.len() {
        Outcome::Fault
    } else {
        match code[t.pc as int] {
            Instruction::Char(c) => if t.sp < text.len() && text[t.sp as int] == c {
                search(
                    code,
                    text,
                    rest.push(Frame { pc: (t.pc + 1) as usize, sp: (t.sp + 1) as usize }),
                    (fuel - 1) as nat,
                )
            } else {
                search(code, text, rest, (fuel - 1) as nat)
            },
            Instruction::Dot => if t.sp < text.len() {
                search(
                    code,
                    text,
                    rest.push(Frame { pc: (t.pc + 1) as usize, sp: (t.sp + 1) as usize }),
                    (fuel - 1) as nat,
                )
            } else {
                search(code, text, rest, (fuel - 1) as nat)
            },
            Instruction::Match => Outcome::Accepted,
            Instruction::Jump(a) => search(
                code,
                text,
                rest.push(Frame { pc: a, sp: t.sp }),
                (fuel - 1) as nat,
            ),
            Instruction::Split(a, b) => search(
                code,
                text,
                rest.push(Frame { pc: b, sp: t.sp }).push(Frame { pc: a, sp: t.sp }),
                (fuel - 1) as nat,
            ),
        }
    }
}

/// With fuel left, the search on `rest.push(t)` takes exactly one step on
/// `t`.
pub proof fn lemma_search_unfold(
    code: Seq<Instruction>,
    text: Seq<char>,
    rest: Seq<Frame>,
    t: Frame,
    fuel: nat,
)
    requires
        fuel > 0,
    ensures
        search(code, text, rest.push(t), fuel) == search_step(code, text, rest, t, fuel),
{
    let stack = rest.push(t);
    assert(stack.last() == t);
    assert(stack.drop_last() =~= rest);
}

/// More fuel never changes a answer, it only turns `OutOfFuel` into one.
pub proof fn lemma_search_fuel_mono(
    code: Seq<Instruction>,
    text: Seq<char>,
    stack: Seq<Frame>,
    f1: nat,
    f2: nat,
)
    requires
        f1 <= f2,
        search(code, text, stack, f1) != Outcome::OutOfFuel,
    ensures
        search(code, text, stack, f2) == search(code, text, stack, f1),
    decreases f1,
{
    if f1 > 0 && stack.len() > 0 {
        let t = stack.last();
        let rest = stack.drop_last();
        if t.pc < code.len() {
            match code[t.pc as int] {
                Instruction::Char(c) => {
                    if t.sp < text.len() && text[t.sp as int] == c {
                        lemma_search_fuel_mono(
                            code,
                            text,
                            rest.push(Frame { pc: (t.pc + 1) as usize, sp: (t.sp + 1) as usize }),
                            (f1 - 1) as nat,
                            (f2 - 1) as nat,
                        );
                    } else {
                        lemma_search_fuel_mono(code, text, rest, (f1 - 1) as nat, (f2 - 1) as nat);
                    }
                },
                Instruction::Dot => {
                    if t.sp < text.len() {
                        lemma_search_fuel_mono(
                            code,
                            text,
                            rest.push(Frame { pc: (t.pc + 1) as usize, sp: (t.sp + 1) as usize }),
                            (f1 - 1) as nat,
                            (f2 - 1) as nat,
                        );
                    } else {
                        lemma_search_fuel_mono(code, text, rest, (f1 - 1) as nat, (f2 - 1) as nat);
                    }
                },
                Instruction::Match => {},
                Instruction::Jump(a) => {
                    lemma_search_fuel_mono(
                        code,
                        text,
                        rest.push(Frame { pc: a, sp: t.sp }),
                        (f1 - 1) as nat,
                        (f2 - 1) as nat,
                    );
                },
                Instruction::Split(a, b) => {
                    lemma_search_fuel_mono(
                        code,
                        text,
                        rest.push(Frame { pc: b, sp: t.sp }).push(Frame { pc: a, sp: t.sp }),
                        (f1 - 1) as nat,
                        (f2 - 1) as nat,
                    );
                },
            }
        }
    }
}

/// Determinism across fuels: two searches that both reach a answer reach
/// the same answer.
pub proof fn lemma_search_deterministic(
    code: Seq<Instruction>,
    text: Seq<char>,
    stack: Seq<Frame>,
    f1: nat,
    f2: nat,
)
    requires
        search(code, text, stack, f1) != Outcome::OutOfFuel,
        search(code, text, stack, f2) != Outcome::OutOfFuel,
    ensures
        search(code, text, stack, f1) == search(code, text, stack, f2),
{
    if f1 <= f2 {
        lemma_search_fuel_mono(code, text, stack, f1, f2);
    } else {
        lemma_search_fuel_mono(code, text, stack, f2, f1);
    }
}

/// A program and a text have at most one answer: never two of accepted,
/// rejected and faulted at once, whatever fuel each takes.
pub proof fn lemma_answer_unique(code: Seq<Instruction>, text: Seq<char>)
    ensures
        !(accepts(code, text) && rejects(code, text)),
        !(accepts(code, text) && faults(code, text)),
        !(rejects(code, text) && faults(code, text)),
{
    if accepts(code, text) && rejects(code, text) {
        let f1 = choose|f: nat| search(code, text, start_stack(), f) == Outcome::Accepted;
        let f2 = choose|f: nat| search(code, text, start_stack(), f) == Outcome::Rejected;
        lemma_search_deterministic(code, text, start_stack(), f1, f2);
    }
    if accepts(code, text) && faults(code, text) {
        let f1 = choose|f: nat| search(code, text, start_stack(), f) == Outcome::Accepted;
        let f2 = choose|f: nat| search(code, text, start_stack(), f) == Outcome::Fault;
        lemma_search_deterministic(code, text, start_stack(), f1, f2);
    }
    if rejects(code, text) && faults(code, text) {
        let f1 = choose|f: nat| search(code, text, start_stack(), f) == Outcome::Rejected;
        let f2 = choose|f: nat| search(code, text, start_stack(), f) == Outcome::Fault;
        lemma_search_deterministic(code, text, start_stack(), f1, f2);
    }
}

/// Every program counter on the stack points into the program.
pub open spec fn stack_ok(code: Seq<Instruction>, stack: Seq<Frame>) -> bool {
    forall|i: int| 0 <= i < stack.len() ==> (#[trigger] stack[i]).pc < code.len()
}

/// On a well-formed program the search never faults: its addresses stay in
/// range, so the malformed-bytecode error is out of reach.
pub proof fn lemma_search_no_fault(
    code: Seq<Instruction>,
    text: Seq<char>,
    stack: Seq<Frame>,
    fuel: nat,
)
    requires
        well_formed(code),
        stack_ok(code, stack),
    ensures
        search(code, text, stack, fuel) != Outcome::Fault,
    decreases fuel,
{
    if fuel > 0 && stack.len() > 0 {
        let t = stack.last();
        let rest = stack.drop_last();
        assert(stack[stack.len() - 1].pc < code.len());
        assert(stack_ok(code, rest)) by {
            assert forall|i: int| 0 <= i < rest.len() implies (#[trigger] rest[i]).pc < code.len() by {
                assert(rest[i] == stack[i]);
            }
        }
        match code[t.pc as int] {
            Instruction::Char(c) => {
                assert(code[code.len() - 1] == Instruction::Match);
                assert(t.pc + 1 < code.len());
                if t.sp < text.len() && text[t.sp as int] == c {
                    let t2 = Frame { pc: (t.pc + 1) as usize, sp: (t.sp + 1) as usize };
                    assert(stack_ok(code, rest.push(t2)));
                    lemma_search_no_fault(code, text, rest.push(t2), (fuel - 1) as nat);
                } else {
                    lemma_search_no_fault(code, text, rest, (fuel - 1) as nat);
                }
            },
            Instruction::Dot => {
                assert(code[code.len() - 1] == Instruction::Match);
                assert(t.pc + 1 < code.len());
                if t.sp < text.len() {
                    let t2 = Frame { pc: (t.pc + 1) as usize, sp: (t.sp + 1) as usize };
                    assert(stack_ok(code, rest.push(t2)));
                    lemma_search_no_fault(code, text, rest.push(t2), (fuel - 1) as nat);
                } else {
                    lemma_search_no_fault(code, text, rest, (fuel - 1) as nat);
                }
            },
            Instruction::Match => {},
            Instruction::Jump(a) => {
                assert(stack_ok(code, rest.push(Frame { pc: a, sp: t.sp })));
                lemma_search_no_fault(code, text, rest.push(Frame { pc: a, sp: t.sp }), (fuel - 1) as nat);
            },
            Instruction::Split(a, b) => {
                let s2 = rest.push(Frame { pc: b, sp: t.sp }).push(Frame { pc: a, sp: t.sp });
                assert(stack_ok(code, s2));
                lemma_search_no_fault(code, text, s2, (fuel - 1) as nat);
            },
        }
    }
}

/// On a well-formed program the depth-first search never faults either.
pub proof fn lemma_dfs_no_fault(
    code: Seq<Instruction>,
    text: Seq<char>,
    pc: usize,
    sp: usize,
    depth: nat,
)
    requires
        well_formed(code),
        pc < code.len(),
    ensures
        dfs(code, text, pc, sp, depth) != Outcome::Fault,
    decreases depth,
{
    if depth > 0 {
        match code[pc as int] {
            Instruction::Char(c) => {
                assert(code[code.len() - 1] == Instruction::Match);
                if sp < text.len() && text[sp as int] == c {
                    lemma_dfs_no_fault(code, text, (pc + 1) as usize, (sp + 1) as usize, (depth - 1) as nat);
                }
            },
            Instruction::Dot => {
                assert(code[code.len() - 1] == Instruction::Match);
                if sp < text.len() {
                    lemma_dfs_no_fault(code, text, (pc + 1) as usize, (sp + 1) as usize, (depth - 1) as nat);
                }
            },
            Instruction::Match => {},
            Instruction::Jump(a) => {
                lemma_dfs_no_fault(code, text, a, sp, (depth - 1) as nat);
            },
            Instruction::Split(a, b) => {
                lemma_dfs_no_fault(code, text, a, sp, (depth - 1) as nat);
                lemma_dfs_no_fault(code, text, b, sp, (depth - 1) as nat);
            },
        }
    }
}

/// Strategy agreement, one frame at a time: a answer of the depth-first
/// search is a answer of the stack search run from the same frame on top
/// of any rest-stack; a rejection consumes the frame and leaves the rest.
pub proof fn lemma_dfs_search(
    code: Seq<Instruction>,
    text: Seq<char>,
    pc: usize,
    sp: usize,
    depth: nat,
    rest: Seq<Frame>,
)
    ensures
        dfs(code, text, pc, sp, depth) == Outcome::Accepted ==> (exists|f: nat|
            search(code, text, rest.push(Frame { pc, sp }), f) == Outcome::Accepted),
        dfs(code, text, pc, sp, depth) == Outcome::Rejected ==> (exists|k: nat|
            consumes(code, text, rest, Frame { pc, sp }, k)),
        dfs(code, text, pc, sp, depth) == Outcome::Fault ==> (exists|f: nat|
            search(code, text, rest.push(Frame { pc, sp }), f) == Outcome::Fault),
    decreases depth, 1int,
{
    let t = Frame { pc, sp };
    let s = rest.push(t);
    if depth == 0 {
    } else if pc >= code.len() {
        lemma_search_unfold(code, text, rest, t, 1);
        assert(search(code, text, s, 1) == Outcome::Fault);
    } else {
        match code[pc as int] {
            Instruction::Char(c) => {
                if sp < text.len() && text[sp as int] == c {
                    lemma_dfs_step_consume(code, text, pc, sp, depth, rest);
                } else {
                    assert forall|f: nat|
                        search(code, text, rest.push(t), 1 + f) == #[trigger] search(
                            code,
                            text,
                            rest,
                            f,
                        ) by {
                        lemma_search_unfold(code, text, rest, t, 1 + f);
                    }
                    assert(consumes(code, text, rest, t, 1));
                }
            },
            Instruction::Dot => {
                if sp < text.len() {
                    lemma_dfs_step_consume(code, text, pc, sp, depth, rest);
                } else {
                    assert forall|f: nat|
                        search(code, text, rest.push(t), 1 + f) == #[trigger] search(
                            code,
                            text,
                            rest,
                            f,
                        ) by {
                        lemma_search_unfold(code, text, rest, t, 1 + f);
                    }
                    assert(consumes(code, text, rest, t, 1));
                }
            },
            Instruction::Match => {
                lemma_search_unfold(code, text, rest, t, 1);
                assert(search(code, text, s, 1) == Outcome::Accepted);
            },
            Instruction::Jump(a) => {
                let t2 = Frame { pc: a, sp };
                lemma_dfs_search(code, text, a, sp, (depth - 1) as nat, rest);
                assert forall|f: nat|
                    search(code, text, rest.push(t), f + 1) == #[trigger] search(
                        code,
                        text,
                        rest.push(t2),
                        f,
                    )
                by {
                    lemma_search_unfold(code, text, rest, t, f + 1);
                }
                lemma_lift_step(code, text, rest, t, t2, (depth - 1) as nat, a, sp);
            },
            Instruction::Split(a, b) => {
                let ta = Frame { pc: a, sp };
                let tb = Frame { pc: b, sp };
                let r1 = dfs(code, text, a, sp, (depth - 1) as nat);
                lemma_dfs_search(code, text, a, sp, (depth - 1) as nat, rest.push(tb));
                if r1 == Outcome::Accepted {
                    let f0 = choose|f: nat|
                        search(code, text, rest.push(tb).push(ta), f) == Outcome::Accepted;
                    lemma_search_unfold(code, text, rest, t, f0 + 1);
                    assert(search(code, text, s, f0 + 1) == search(
                        code,
                        text,
                        rest.push(tb).push(ta),
                        f0,
                    ));
                } else if r1 == Outcome::Fault {
                    let f0 = choose|f: nat|
                        search(code, text, rest.push(tb).push(ta), f) == Outcome::Fault;
                    lemma_search_unfold(code, text, rest, t, f0 + 1);
                    assert(search(code, text, s, f0 + 1) == search(
                        code,
                        text,
                        rest.push(tb).push(ta),
                        f0,
                    ));
                } else if r1 == Outcome::Rejected {
                    let k1 = choose|k: nat| consumes(code, text, rest.push(tb), ta, k);
                    let r2 = dfs(code, text, b, sp, (depth - 1) as nat);
                    lemma_dfs_search(code, text, b, sp, (depth - 1) as nat, rest);
                    if r2 == Outcome::Accepted || r2 == Outcome::Fault {
                        let f2 = choose|f: nat| search(code, text, rest.push(tb), f) == r2
                            && (r2 == Outcome::Accepted || r2 == Outcome::Fault);
                        assert(search(code, text, rest.push(tb).push(ta), k1 + f2) == search(
                            code,
                            text,
                            rest.push(tb),
                            f2,
                        ));
                        lemma_search_unfold(code, text, rest, t, (k1 + f2) + 1);
                        assert(search(code, text, s, (k1 + f2) + 1) == search(
                            code,
                            text,
                            rest.push(tb).push(ta),
                            k1 + f2,
                        ));
                        assert(search(code, text, s, (k1 + f2) + 1) == r2);
                    } else if r2 == Outcome::Rejected {
                        let k2 = choose|k: nat| consumes(code, text, rest, tb, k);
                        assert forall|f: nat|
                            search(code, text, rest.push(t), (k1 + k2 + 1) + f)
                                == #[trigger] search(code, text, rest, f) by {
                            assert(search(code, text, rest.push(tb), k2 + f) == search(
                                code,
                                text,
                                rest,
                                f,
                            ));
                            assert(search(code, text, rest.push(tb).push(ta), k1 + (k2 + f))
                                == search(code, text, rest.push(tb), k2 + f));
                            lemma_search_unfold(code, text, rest, t, (k1 + (k2 + f)) + 1);
                            assert(search(code, text, s, (k1 + (k2 + f)) + 1) == search(
                                code,
                                text,
                                rest.push(tb).push(ta),
                                k1 + (k2 + f),
                            ));
                        }
                        assert(consumes(code, text, rest, t, k1 + k2 + 1));
                    }
                }
            },
        }
    }
}

/// The consume step shared by `Char` and `Dot` when the character is
/// taken: the answer of the next frame lifts through one fuel unit.
proof fn lemma_dfs_step_consume(
    code: Seq<Instruction>,
    text: Seq<char>,
    pc: usize,
    sp: usize,
    depth: nat,
    rest: Seq<Frame>,
)
    requires
        depth > 0,
        pc < code.len(),
        sp < text.len(),
        (code[pc as int] matches Instruction::Char(c) && text[sp as int] == c)
            || code[pc as int] is Dot,
    ensures
        dfs(code, text, pc, sp, depth) == Outcome::Accepted ==> (exists|f: nat|
            search(code, text, rest.push(Frame { pc, sp }), f) == Outcome::Accepted),
        dfs(code, text, pc, sp, depth) == Outcome::Rejected ==> (exists|k: nat|
            consumes(code, text, rest, Frame { pc, sp }, k)),
        dfs(code, text, pc, sp, depth) == Outcome::Fault ==> (exists|f: nat|
            search(code, text, rest.push(Frame { pc, sp }), f) == Outcome::Fault),
    decreases depth, 0int,
{
    let t = Frame { pc, sp };
    let t2 = Frame { pc: (pc + 1) as usize, sp: (sp + 1) as usize };
    lemma_dfs_search(code, text, t2.pc, t2.sp, (depth - 1) as nat, rest);
    assert forall|f: nat|
        search(code, text, rest.push(t), f + 1) == #[trigger] search(code, text, rest.push(t2), f)
    by {
        lemma_search_unfold(code, text, rest, t, f + 1);
    }
    lemma_lift_step(code, text, rest, t, t2, (depth - 1) as nat, t2.pc, t2.sp);
}

/// Lifts a answer of the frame `t2` to the frame `t` when one search step
/// turns `t` into `t2` without touching the rest of the stack.
proof fn lemma_lift_step(
    code: Seq<Instruction>,
    text: Seq<char>,
    rest: Seq<Frame>,
    t: Frame,
    t2: Frame,
    depth: nat,
    pc2: usize,
    sp2: usize,
)
    requires
        t2 == (Frame { pc: pc2, sp: sp2 }),
        (forall|f: nat|
            search(code, text, rest.push(t), f + 1) == #[trigger] search(
                code,
                text,
                rest.push(t2),
                f,
            )),
        dfs(code, text, pc2, sp2, depth) == Outcome::Accepted ==> (exists|f: nat|
            search(code, text, rest.push(t2), f) == Outcome::Accepted),
        dfs(code, text, pc2, sp2, depth) == Outcome::Rejected ==> (exists|k: nat|
            consumes(code, text, rest, t2, k)),
        dfs(code, text, pc2, sp2, depth) == Outcome::Fault ==> (exists|f: nat|
            search(code, text, rest.push(t2), f) == Outcome::Fault),
    ensures
        dfs(code, text, pc2, sp2, depth) == Outcome::Accepted ==> (exists|f: nat|
            search(code, text, rest.push(t), f) == Outcome::Accepted),
        dfs(code, text, pc2, sp2, depth) == Outcome::Rejected ==> (exists|k: nat|
            consumes(code, text, rest, t, k)),
        dfs(code, text, pc2, sp2, depth) == Outcome::Fault ==> (exists|f: nat|
            search(code, text, rest.push(t), f) == Outcome::Fault),
{
    let d = dfs(code, text, pc2, sp2, depth);
    if d == Outcome::Accepted {
        let f0 = choose|f: nat| search(code, text, rest.push(t2), f) == Outcome::Accepted;
        assert(search(code, text, rest.push(t), f0 + 1) == search(code, text, rest.push(t2), f0));
    } else if d == Outcome::Fault {
        let f0 = choose|f: nat| search(code, text, rest.push(t2), f) == Outcome::Fault;
        assert(search(code, text, rest.push(t), f0 + 1) == search(code, text, rest.push(t2), f0));
    } else if d == Outcome::Rejected {
        let k0 = choose|k: nat| consumes(code, text, rest, t2, k);
        assert forall|f: nat|
            search(code, text, rest.push(t), (k0 + 1) + f) == #[trigger] search(
                code,
                text,
                rest,
                f,
            ) by {
            assert(search(code, text, rest.push(t2), k0 + f) == search(code, text, rest, f));
            assert(search(code, text, rest.push(t), (k0 + f) + 1) == search(
                code,
                text,
                rest.push(t2),
                k0 + f,
            ));
        }
        assert(consumes(code, text, rest, t, k0 + 1));
    }
}


/// The call-stack strategy: backtracking by native recursion, mirroring
/// `dfs` step for step. The depth bound turns a too-deep recursion into
/// the recoverable `StackExhausted` error instead of a crash.
fn eval_depth(
    code: &Vec<Instruction>,
    text: &Vec<char>,
    pc: usize,
    sp: usize,
    depth: u64,
) -> (r: Result<bool, EvalError>)
    ensures
        r == outcome_result(dfs(code@, text@, pc, sp, depth as nat)),
    decreases depth,
{
    if depth == 0 {
        return Err(EvalError::StackExhausted);
    }
    if pc >= code.len() {
        return Err(EvalError::InvalidPC);
    }
    match code[pc] {
        Instruction::Char(c) => {
            if sp < text.len() && text[sp] == c {
                eval_depth(code, text, pc + 1, sp + 1, depth - 1)
            } else {
                Ok(false)
            }
        },
        Instruction::Dot => {
            if sp < text.len() {
                eval_depth(code, text, pc + 1, sp + 1, depth - 1)
            } else {
                Ok(false)
            }
        },
        Instruction::Match => Ok(true),
        Instruction::Jump(a) => eval_depth(code, text, a, sp, depth - 1),
        Instruction::Split(a, b) => {
            match eval_depth(code, text, a, sp, depth - 1) {
                Ok(false) => eval_depth(code, text, b, sp, depth - 1),
                other => other,
            }
        },
    }
}

/// The explicit-stack strategy: backtrack records live on a heap-resident
/// stack, so no recursion depth limits the search; the step budget is so
/// large that it never runs out in practice.
fn eval_width(code: &Vec<Instruction>, text: &Vec<char>) -> (r: Result<bool, EvalError>)
    ensures
        r == outcome_result(search(code@, text@, start_stack(), u64::MAX as nat)),
        r == Ok::<bool, EvalError>(true) ==> accepts(code@, text@),
        r == Ok::<bool, EvalError>(false) ==> rejects(code@, text@),
        r == Err::<bool, EvalError>(EvalError::InvalidPC) ==> faults(code@, text@),
        well_formed(code@) ==> r != Err::<bool, EvalError>(EvalError::InvalidPC),
{
    let mut stack: Vec<Frame> = Vec::new();
    stack.push(Frame { pc: 0, sp: 0 });
    let ghost mut steps: nat = 0;
    let mut budget: u64 = u64::MAX;
    proof {
        assert(stack@ =~= start_stack());
    }
    loop
        invariant
            steps + budget == u64::MAX,
            forall|f: nat|
                search(code@, text@, start_stack(), steps + f) == #[trigger] search(
                    code@,
                    text@,
                    stack@,
                    f,
                ),
        decreases budget,
    {
        if budget == 0 {
            proof {
                assert(search(code@, text@, stack@, 0) == Outcome::OutOfFuel);
            }
            return Err(EvalError::StackExhausted);
        }
        budget = budget - 1;
        if stack.len() == 0 {
            proof {
                assert(search(code@, text@, stack@, 1) == Outcome::Rejected);
                lemma_search_fuel_mono(code@, text@, start_stack(), steps + 1, u64::MAX as nat);
            }
            return Ok(false);
        }
        let ghost s0 = stack@;
        let t = match stack.pop() {
            Some(t) => t,
            None => {
                return Err(EvalError::InvalidPC);
            },
        };
        if t.pc >= code.len() {
            proof {
                assert(s0.drop_last().push(t) =~= s0);
                lemma_search_unfold(code@, text@, s0.drop_last(), t, 1);
                assert(search(code@, text@, s0, 1) == Outcome::Fault);
                lemma_search_fuel_mono(code@, text@, start_stack(), steps + 1, u64::MAX as nat);
                if well_formed(code@) {
                    assert(stack_ok(code@, start_stack())) by {
                        assert(start_stack()[0].pc == 0);
                    }
                    lemma_search_no_fault(code@, text@, start_stack(), steps + 1);
                }
            }
            return Err(EvalError::InvalidPC);
        }
        match code[t.pc] {
            Instruction::Char(c) => {
                if t.sp < text.len() && text[t.sp] == c {
                    stack.push(Frame { pc: t.pc + 1, sp: t.sp + 1 });
                }
            },
            Instruction::Dot => {
                if t.sp < text.len() {
                    stack.push(Frame { pc: t.pc + 1, sp: t.sp + 1 });
                }
            },
            Instruction::Match => {
                proof {
                    assert(s0.drop_last().push(t) =~= s0);
                    lemma_search_unfold(code@, text@, s0.drop_last(), t, 1);
                    assert(search(code@, text@, s0, 1) == Outcome::Accepted);
                    lemma_search_fuel_mono(code@, text@, start_stack(), steps + 1, u64::MAX as nat);
                }
                return Ok(true);
            },
            Instruction::Jump(a) => {
                stack.push(Frame { pc: a, sp: t.sp });
            },
            Instruction::Split(a, b) => {
                stack.push(Frame { pc: b, sp: t.sp });
                stack.push(Frame { pc: a, sp: t.sp });
            },
        }
        proof {
            assert forall|f: nat|
                search(code@, text@, start_stack(), (steps + 1) + f) == #[trigger] search(
                    code@,
                    text@,
                    stack@,
                    f,
                ) by {
                assert(search(code@, text@, start_stack(), steps + (f + 1)) == search(
                    code@,
                    text@,
                    s0,
                    f + 1,
                ));
                assert(s0.drop_last().push(t) =~= s0);
                lemma_search_unfold(code@, text@, s0.drop_last(), t, f + 1);
                assert(search(code@, text@, s0, f + 1) == search(code@, text@, stack@, f));
            }
            steps = steps + 1;
        }
    }
}

/// Decides whether the compiled program matches the text anchored at its
/// first character, with the strategy the caller picks: native recursion
/// when `is_depth` holds, the explicit heap stack otherwise. A answer is
/// always a answer of the backtracking search, so the two strategies can
/// never disagree; on a well-formed program the malformed-bytecode error
/// never appears.
pub fn eval(code: &Vec<Instruction>, line: &Vec<char>, is_depth: bool) -> (r: Result<
    bool,
    EvalError,
>)
    ensures
        is_depth ==> r == outcome_result(dfs(code@, line@, 0, 0, STACK_LIMIT as nat)),
        !is_depth ==> r == outcome_result(search(code@, line@, start_stack(), u64::MAX as nat)),
        r == Ok::<bool, EvalError>(true) ==> accepts(code@, line@),
        r == Ok::<bool, EvalError>(false) ==> rejects(code@, line@),
        r == Err::<bool, EvalError>(EvalError::InvalidPC) ==> faults(code@, line@),
        well_formed(code@) ==> r != Err::<bool, EvalError>(EvalError::InvalidPC),
{
    if is_depth {
        let r = eval_depth(code, line, 0, 0, STACK_LIMIT);
        proof {
            let d = dfs(code@, line@, 0, 0, STACK_LIMIT as nat);
            let t0 = Frame { pc: 0, sp: 0 };
            lemma_dfs_search(code@, line@, 0, 0, STACK_LIMIT as nat, Seq::empty());
            assert(Seq::<Frame>::empty().push(t0) =~= start_stack());
            if d == Outcome::Rejected {
                let k = choose|k: nat| consumes(code@, line@, Seq::<Frame>::empty(), t0, k);
                assert(search(code@, line@, Seq::<Frame>::empty(), 1) == Outcome::Rejected);
                assert(search(code@, line@, start_stack(), k + 1) == Outcome::Rejected);
            }
            if well_formed(code@) && d == Outcome::Fault {
                lemma_dfs_no_fault(code@, line@, 0, 0, STACK_LIMIT as nat);
            }
        }
        r
    } else {
        eval_width(code, line)
    }
}


/// Strategy equivalence: whenever the call-stack search reaches a answer
/// within some depth, the explicit-stack search reaches the same answer
/// and no other, so the two evaluation strategies agree on every program
/// and text on which both answer.
pub proof fn lemma_strategy_equivalence(code: Seq<Instruction>, text: Seq<char>, depth: nat)
    requires
        dfs(code, text, 0, 0, depth) != Outcome::OutOfFuel,
    ensures
        dfs(code, text, 0, 0, depth) == Outcome::Accepted <==> accepts(code, text),
        dfs(code, text, 0, 0, depth) == Outcome::Rejected <==> rejects(code, text),
        dfs(code, text, 0, 0, depth) == Outcome::Fault <==> faults(code, text),
{
    let d = dfs(code, text, 0, 0, depth);
    let t0 = Frame { pc: 0, sp: 0 };
    lemma_dfs_search(code, text, 0, 0, depth, Seq::empty());
    assert(Seq::<Frame>::empty().push(t0) =~= start_stack());
    if d == Outcome::Rejected {
        let k = choose|k: nat| consumes(code, text, Seq::<Frame>::empty(), t0, k);
        assert(search(code, text, Seq::<Frame>::empty(), 1) == Outcome::Rejected);
        assert(search(code, text, start_stack(), k + 1) == Outcome::Rejected);
    }
    lemma_answer_unique(code, text);
}


/// Strategy equivalence in the form the two evaluators' contracts use:
/// when the call-stack search reaches an answer within its depth and the
/// explicit-stack search within its fuel, the reported results are one.
pub proof fn lemma_strategies_same_result(
    code: Seq<Instruction>,
    text: Seq<char>,
    depth: nat,
    fuel: nat,
)
    requires
        dfs(code, text, 0, 0, depth) != Outcome::OutOfFuel,
        search(code, text, start_stack(), fuel) != Outcome::OutOfFuel,
    ensures
        outcome_result(dfs(code, text, 0, 0, depth)) == outcome_result(
            search(code, text, start_stack(), fuel),
        ),
{
    lemma_strategy_equivalence(code, text, depth);
    let w = search(code, text, start_stack(), fuel);
    if w == Outcome::Accepted {
        assert(accepts(code, text));
    } else if w == Outcome::Rejected {
        assert(rejects(code, text));
    } else if w == Outcome::Fault {
        assert(faults(code, text));
    }
}

} // verus!
