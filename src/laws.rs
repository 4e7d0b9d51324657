use vstd::prelude::*;
use crate::codegen::{
    block_next, block_run_from, body_code, code_of, epilogue, generated_of, heads_loop, prologue,
};
use crate::instr::{instr_of, Instr, LEFT, LOOP_CLOSE, LOOP_OPEN};
use crate::interp::{
    cell_at, find_close, initial, lemma_find_close_bound, next, run_from, Fault, InterpModel,
    Status,
};

verus! {

/// Every byte of `p` is a comment: none of them is an instruction.
pub open spec fn comments_only(p: Seq<u8>) -> bool {
    forall|i: int| 0 <= i < p.len() ==> instr_of(#[trigger] p[i]) == Instr::Skip
}

proof fn lemma_comments_from(s: InterpModel, fuel: nat)
    requires
        comments_only(s.program),
        0 <= s.pc <= s.program.len(),
        fuel > s.program.len() - s.pc,
    ensures
        run_from(s, fuel) == (InterpModel { pc: s.program.len() as int, ..s }, Status::Halted),
    decreases s.program.len() - s.pc,
{
    if s.pc < s.program.len() {
        assert(instr_of(s.program[s.pc]) == Instr::Skip);
        let t = InterpModel { pc: s.pc + 1, ..s };
        assert(next(s) == (t, Status::Running));
        lemma_comments_from(t, (fuel - 1) as nat);
    } else {
        assert(s == InterpModel { pc: s.program.len() as int, ..s });
    }
}

/// A program of comments alone, whatever its length, runs to its end
/// without touching the tape or writing anything.
pub proof fn lemma_comments_only_run(p: Seq<u8>, input: Seq<u8>, fuel: nat)
    requires
        comments_only(p),
        fuel > p.len(),
    ensures
        run_from(initial(p, input), fuel).1 == Status::Halted,
        run_from(initial(p, input), fuel).0.tape.len() == 0,
        run_from(initial(p, input), fuel).0.out.len() == 0,
        run_from(initial(p, input), fuel).0.ptr == 0,
{
    lemma_comments_from(initial(p, input), fuel);
}

/// A program of comments alone generates no code between the fixed head
/// and tail of the C++ file.
pub proof fn lemma_comments_only_code(p: Seq<u8>)
    requires
        comments_only(p),
    ensures
        body_code(p) == Seq::<char>::empty(),
        generated_of(p) == prologue() + epilogue(),
    decreases p.len(),
{
    if p.len() > 0 {
        assert(comments_only(p.drop_last()));
        lemma_comments_only_code(p.drop_last());
        assert(instr_of(p[p.len() - 1]) == Instr::Skip);
        assert(code_of(Instr::Skip) == Seq::<char>::empty());
        assert(body_code(p) =~= Seq::<char>::empty());
    }
    assert(generated_of(p) =~= prologue() + epilogue());
}

/// The program sits at a `[` whose `]` follows right after it.
pub open spec fn at_empty_loop(s: InterpModel) -> bool {
    &&& 0 <= s.pc
    &&& s.pc + 1 < s.program.len()
    &&& s.program[s.pc] == LOOP_OPEN
    &&& s.program[s.pc + 1] == LOOP_CLOSE
}

/// An empty loop on a zero cell is passed over in one step, and nothing
/// but the position in the program changes.
pub proof fn lemma_empty_loop_on_zero(s: InterpModel)
    requires
        at_empty_loop(s),
        cell_at(s.tape, s.ptr) == 0,
    ensures
        next(s) == (InterpModel { pc: s.pc + 2, ..s }, Status::Running),
{
    assert(instr_of(s.program[s.pc]) == Instr::LoopOpen);
    assert(s.program[s.pc + 1] == LOOP_CLOSE);
    assert(crate::interp::find_close(s.program, s.pc + 1, 1) == Some(s.pc + 2));
}

/// An empty loop on a nonzero cell never ends: however many steps are
/// taken, the interpreter is still running and has written nothing more.
pub proof fn lemma_empty_loop_spins(s: InterpModel, fuel: nat)
    requires
        at_empty_loop(s),
        cell_at(s.tape, s.ptr) != 0,
    ensures
        run_from(s, fuel).1 == Status::Running,
        run_from(s, fuel).0.out == s.out,
    decreases fuel,
{
    if fuel > 0 {
        assert(instr_of(s.program[s.pc]) == Instr::LoopOpen);
        let t = InterpModel { stack: s.stack.push(s.pc), pc: s.pc + 1, ..s };
        assert(next(s) == (t, Status::Running));
        assert(instr_of(t.program[t.pc]) == Instr::LoopClose);
        assert(t.stack.drop_last() =~= s.stack);
        assert(next(t) == (s, Status::Running));
        assert(run_from(s, fuel) == run_from(t, (fuel - 1) as nat));
        if fuel > 1 {
            assert(run_from(t, (fuel - 1) as nat) == run_from(s, (fuel - 2) as nat));
            lemma_empty_loop_spins(s, (fuel - 2) as nat);
        } else {
            assert(run_from(t, 0) == (t, Status::Running));
        }
    }
}

/// Moving left from the origin is fatal: the program `<` stops on its
/// first step with nothing written and the tape untouched.
pub proof fn lemma_left_at_origin(input: Seq<u8>, fuel: nat)
    requires
        fuel >= 1,
    ensures
        run_from(initial(seq![LEFT], input), fuel) == (
            initial(seq![LEFT], input),
            Status::Failed(Fault::PointerUnderflow),
        ),
{
    assert(instr_of(seq![LEFT][0]) == Instr::Left);
}

/// Scanning with `d + e` loops open ends where a scan with `d` ends, started
/// just after the scan with `e` open.
proof fn lemma_find_close_split(p: Seq<u8>, i: int, d: nat, e: nat)
    requires
        d >= 1,
        e >= 1,
    ensures
        find_close(p, i, d + e) == match find_close(p, i, e) {
            Some(c) => find_close(p, c, d),
            None => None,
        },
    decreases p.len() - i,
{
    if 0 <= i < p.len() {
        if p[i] == LOOP_CLOSE {
            if e > 1 {
                lemma_find_close_split(p, i + 1, d, (e - 1) as nat);
                assert((d + e - 1) as nat == d + (e - 1) as nat);
            }
        } else if p[i] == LOOP_OPEN {
            lemma_find_close_split(p, i + 1, d, e + 1);
            assert(d + e + 1 == d + (e + 1));
        } else {
            lemma_find_close_split(p, i + 1, d, e);
        }
    }
}

/// A scan that ends at `c` passes every position before `c` with a loop
/// still open.
proof fn lemma_find_close_passes(p: Seq<u8>, i: int, d: nat, j: int, c: int)
    requires
        d >= 1,
        find_close(p, i, d) == Some(c),
        i <= j < c,
    ensures
        exists|e: nat| e >= 1 && find_close(p, j, e) == Some(c),
    decreases j - i,
{
    if j == i {
        assert(find_close(p, j, d) == Some(c));
    } else {
        if p[i] == LOOP_CLOSE {
            if d > 1 {
                lemma_find_close_passes(p, i + 1, (d - 1) as nat, j, c);
            }
        } else if p[i] == LOOP_OPEN {
            lemma_find_close_passes(p, i + 1, d + 1, j, c);
        } else {
            lemma_find_close_passes(p, i + 1, d, j, c);
        }
    }
}

/// A `]` closes at most one loop.
proof fn lemma_heads_loop_unique(p: Seq<u8>, o1: int, o2: int, pc: int)
    requires
        heads_loop(p, o1, pc),
        heads_loop(p, o2, pc),
    ensures
        o1 == o2,
{
    if o1 != o2 {
        let (a, b) = if o1 < o2 {
            (o1, o2)
        } else {
            (o2, o1)
        };
        lemma_find_close_passes(p, a + 1, 1, b, pc + 1);
        let e = choose|e: nat| e >= 1 && find_close(p, b, e) == Some(pc + 1);
        assert(find_close(p, b + 1, e + 1) == Some(pc + 1));
        lemma_find_close_split(p, b + 1, e, 1);
        lemma_find_close_bound(p, pc + 1, e);
    }
}

/// Every loop that opens before position `i` closes at or before it.
pub open spec fn closed_before(p: Seq<u8>, i: int) -> bool {
    forall|o: int|
        0 <= o < i && #[trigger] p[o] == LOOP_OPEN ==> (find_close(p, o + 1, 1) matches Some(
            c,
        ) && c <= i)
}

/// A loop skipped as a whole closes every loop inside it.
proof fn lemma_skip_closes_inner(p: Seq<u8>, i: int, j: int)
    requires
        0 <= i < p.len(),
        p[i] == LOOP_OPEN,
        closed_before(p, i),
        find_close(p, i + 1, 1) == Some(j),
    ensures
        closed_before(p, j),
{
    lemma_find_close_bound(p, i + 1, 1);
    assert forall|o: int| 0 <= o < j && #[trigger] p[o] == LOOP_OPEN implies (find_close(
        p,
        o + 1,
        1,
    ) matches Some(c) && c <= j) by {
        if o > i {
            lemma_find_close_passes(p, i + 1, 1, o, j);
            let e = choose|e: nat| e >= 1 && find_close(p, o, e) == Some(j);
            assert(find_close(p, o + 1, e + 1) == Some(j));
            lemma_find_close_split(p, o + 1, e, 1);
            if let Some(c) = find_close(p, o + 1, 1) {
                lemma_find_close_bound(p, c, e);
            }
        }
    }
}

/// The loop stack of a run matches the text: each entry is a `[`; the scan
/// from the program position ends where the innermost loop's own scan ends;
/// and each loop's scan ends where the scan from the next inner `[` ends.
pub open spec fn stack_fits(s: InterpModel) -> bool {
    &&& forall|k: int|
        0 <= k < s.stack.len() ==> 0 <= #[trigger] s.stack[k] < s.program.len()
            && s.program[s.stack[k]] == LOOP_OPEN
    &&& s.stack.len() > 0 ==> find_close(s.program, s.pc, 1) == find_close(
        s.program,
        s.stack.last() + 1,
        1,
    )
    &&& forall|k: int|
        0 < k < s.stack.len() ==> find_close(s.program, #[trigger] s.stack[k - 1] + 1, 1)
            == find_close(s.program, s.stack[k], 1)
    &&& s.stack.len() == 0 ==> closed_before(s.program, s.pc)
    &&& s.stack.len() > 0 ==> closed_before(s.program, s.stack[0])
}

/// The state without its loop stack.
pub open spec fn unstacked(s: InterpModel) -> InterpModel {
    InterpModel { stack: Seq::empty(), ..s }
}

proof fn lemma_step_agrees(s: InterpModel)
    requires
        stack_fits(s),
    ensures
        block_next(unstacked(s)) == (unstacked(next(s).0), next(s).1),
        stack_fits(next(s).0),
{
    let p = s.program;
    let t = next(s).0;
    if 0 <= s.pc < p.len() {
        match instr_of(p[s.pc]) {
            Instr::LoopOpen => {
                if cell_at(s.tape, s.ptr) != 0 {
                    assert forall|k: int| 0 <= k < t.stack.len() implies 0 <= #[trigger] t.stack[k]
                        < t.program.len() && t.program[t.stack[k]] == LOOP_OPEN by {
                        if k < s.stack.len() {
                            assert(t.stack[k] == s.stack[k]);
                        }
                    }
                    assert forall|k: int| 0 < k < t.stack.len() implies find_close(
                        p,
                        #[trigger] t.stack[k - 1] + 1,
                        1,
                    ) == find_close(p, t.stack[k], 1) by {
                        if k < s.stack.len() {
                            assert(t.stack[k] == s.stack[k]);
                            assert(t.stack[k - 1] == s.stack[k - 1]);
                        } else {
                            assert(t.stack[k - 1] == s.stack.last());
                        }
                    }
                    assert(unstacked(t) == InterpModel { pc: s.pc + 1, ..unstacked(s) });
                    assert(t.stack[0] == if s.stack.len() == 0 {
                        s.pc
                    } else {
                        s.stack[0]
                    });
                } else {
                    match find_close(p, s.pc + 1, 1) {
                        Some(j) => {
                            lemma_find_close_split(p, s.pc + 1, 1, 1);
                            assert(find_close(p, s.pc, 1) == find_close(p, s.pc + 1, 2));
                            if s.stack.len() == 0 {
                                lemma_skip_closes_inner(p, s.pc, j);
                            }
                        },
                        None => {},
                    }
                }
            },
            Instr::LoopClose => {
                if s.stack.len() == 0 {
                    assert forall|o: int| !heads_loop(p, o, s.pc) by {
                        if heads_loop(p, o, s.pc) {
                            assert(p[o] == LOOP_OPEN);
                        }
                    }
                } else {
                    let top = s.stack.last();
                    assert(find_close(p, s.pc, 1) == Some(s.pc + 1));
                    lemma_find_close_bound(p, top + 1, 1);
                    assert(heads_loop(p, top, s.pc));
                    assert forall|o: int| heads_loop(p, o, s.pc) implies o == top by {
                        lemma_heads_loop_unique(p, o, top, s.pc);
                    }
                    assert(t.stack =~= s.stack.drop_last());
                    assert forall|k: int| 0 <= k < t.stack.len() implies 0 <= #[trigger] t.stack[k]
                        < t.program.len() && t.program[t.stack[k]] == LOOP_OPEN by {
                        assert(t.stack[k] == s.stack[k]);
                    }
                    assert forall|k: int| 0 < k < t.stack.len() implies find_close(
                        p,
                        #[trigger] t.stack[k - 1] + 1,
                        1,
                    ) == find_close(p, t.stack[k], 1) by {
                        assert(t.stack[k] == s.stack[k]);
                        assert(t.stack[k - 1] == s.stack[k - 1]);
                    }
                    if t.stack.len() > 0 {
                        let k = s.stack.len() - 1;
                        assert(s.stack[k - 1] == t.stack.last());
                        assert(find_close(p, s.stack[k - 1] + 1, 1) == find_close(p, s.stack[k], 1));
                        assert(t.stack[0] == s.stack[0]);
                    }
                }
            },
            _ => {
                if s.stack.len() > 0 {
                    assert(find_close(p, s.pc, 1) == find_close(p, s.pc + 1, 1));
                } else {
                    assert(p[s.pc] != LOOP_OPEN);
                    assert forall|o: int| 0 <= o < t.pc && #[trigger] p[o] == LOOP_OPEN implies (find_close(
                        p,
                        o + 1,
                        1,
                    ) matches Some(c) && c <= t.pc) by {
                        assert(o < s.pc);
                    }
                }
            },
        }
    }
}

proof fn lemma_runs_agree(s: InterpModel, fuel: nat)
    requires
        stack_fits(s),
    ensures
        block_run_from(unstacked(s), fuel) == (unstacked(run_from(s, fuel).0), run_from(s, fuel).1),
    decreases fuel,
{
    if fuel > 0 {
        lemma_step_agrees(s);
        if next(s).1 == Status::Running {
            lemma_runs_agree(next(s).0, (fuel - 1) as nat);
        }
    }
}

/// The interpreter and the generated program agree. From the same program
/// and input, over the same number of steps, the generated program's nested
/// `while` blocks reach the interpreter's tape, pointer, input position and
/// output, and stop or fail in the same way.
pub proof fn lemma_realizations_agree(p: Seq<u8>, input: Seq<u8>, fuel: nat)
    ensures
        block_run_from(initial(p, input), fuel).1 == run_from(initial(p, input), fuel).1,
        block_run_from(initial(p, input), fuel).0 == unstacked(run_from(initial(p, input), fuel).0),
        block_run_from(initial(p, input), fuel).0.out == run_from(initial(p, input), fuel).0.out,
{
    assert(unstacked(initial(p, input)) == initial(p, input));
    lemma_runs_agree(initial(p, input), fuel);
}

} // verus!
