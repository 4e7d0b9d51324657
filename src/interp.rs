use vstd::prelude::*;
use crate::instr::{decode, instr_of, Instr, LOOP_CLOSE, LOOP_OPEN};

verus! {

/// Why a run stopped abnormally.
#[derive(Clone, Copy, Debug, PartialEq, Eq, Structural)]
pub enum Fault {
    /// `<` with the pointer at the origin.
    PointerUnderflow,
    /// `>` with the pointer at the largest address this machine can hold.
    PointerOverflow,
    /// `]` with no loop open.
    UnmatchedClose,
    /// `[` on a zero cell with no matching `]` after it.
    UnmatchedOpen,
    /// `,` with the input used up.
    InputExhausted,
}

/// What one step did.
#[derive(Clone, Copy, Debug, PartialEq, Eq, Structural)]
pub enum Status {
    /// An instruction ran; there may be more.
    Running,
    /// The program is used up; nothing changed.
    Halted,
    /// The instruction could not run; nothing changed.
    Failed(Fault),
}

/// The state of an interpreter, as mathematics.
pub struct InterpModel {
    pub program: Seq<u8>,
    pub input: Seq<u8>,
    pub pc: int,
    pub ptr: int,
    pub tape: Seq<u8>,
    pub stack: Seq<int>,
    pub in_pos: int,
    pub out: Seq<u8>,
}

/// The cell under the pointer; a cell the tape has not reached yet reads as zero.
pub open spec fn cell_at(tape: Seq<u8>, ptr: int) -> u8 {
    if 0 <= ptr < tape.len() {
        tape[ptr]
    } else {
        0
    }
}

/// The tape made at least `n` cells long, new cells zero.
pub open spec fn grown(tape: Seq<u8>, n: int) -> Seq<u8> {
    if tape.len() >= n {
        tape
    } else {
        tape + Seq::new((n - tape.len()) as nat, |i: int| 0u8)
    }
}

/// A byte cell incremented, 255 wrapping to 0.
pub open spec fn succ(x: u8) -> u8 {
    if x == 255 {
        0
    } else {
        (x + 1) as u8
    }
}

/// A byte cell decremented, 0 wrapping to 255.
pub open spec fn pred(x: u8) -> u8 {
    if x == 0 {
        255
    } else {
        (x - 1) as u8
    }
}

/// Scanning from `i` with `depth` loops open, the position just after the `]`
/// that closes the outermost of them, if there is one. Only `[` and `]`
/// change the depth.
pub open spec fn find_close(p: Seq<u8>, i: int, depth: nat) -> Option<int>
    decreases p.len() - i,
{
    if i >= p.len() || i < 0 {
        None
    } else if p[i] == LOOP_CLOSE {
        if depth <= 1 {
            Some(i + 1)
        } else {
            find_close(p, i + 1, (depth - 1) as nat)
        }
    } else if p[i] == LOOP_OPEN {
        find_close(p, i + 1, depth + 1)
    } else {
        find_close(p, i + 1, depth)
    }
}

/// A matching `]` lies ahead of where the scan starts, inside the program.
pub proof fn lemma_find_close_bound(p: Seq<u8>, i: int, depth: nat)
    ensures
        find_close(p, i, depth) matches Some(j) ==> i < j <= p.len(),
    decreases p.len() - i,
{
    if 0 <= i < p.len() {
        if p[i] == LOOP_CLOSE {
            if depth > 1 {
                lemma_find_close_bound(p, i + 1, (depth - 1) as nat);
            }
        } else if p[i] == LOOP_OPEN {
            lemma_find_close_bound(p, i + 1, depth + 1);
        } else {
            lemma_find_close_bound(p, i + 1, depth);
        }
    }
}

/// The tape of `s` with the cell under the pointer set to `v`, grown first.
pub open spec fn with_cell(s: InterpModel, v: u8) -> Seq<u8> {
    grown(s.tape, s.ptr + 1).update(s.ptr, v)
}

/// One step of the interpreter. A loop that is entered records the position
/// of its `[`; its `]` jumps back there so that the condition is read again.
/// A loop whose cell is zero is skipped past its matching `]`.
pub open spec fn next(s: InterpModel) -> (InterpModel, Status) {
    if s.pc < 0 || s.pc >= s.program.len() {
        (s, Status::Halted)
    } else {
        let adv = InterpModel { pc: s.pc + 1, ..s };
        match instr_of(s.program[s.pc]) {
            Instr::Right => if s.ptr + 1 >= usize::MAX {
                (s, Status::Failed(Fault::PointerOverflow))
            } else {
                (InterpModel { ptr: s.ptr + 1, ..adv }, Status::Running)
            },
            Instr::Left => if s.ptr <= 0 {
                (s, Status::Failed(Fault::PointerUnderflow))
            } else {
                (InterpModel { ptr: s.ptr - 1, ..adv }, Status::Running)
            },
            Instr::Inc => (
                InterpModel { tape: with_cell(s, succ(cell_at(s.tape, s.ptr))), ..adv },
                Status::Running,
            ),
            Instr::Dec => (
                InterpModel { tape: with_cell(s, pred(cell_at(s.tape, s.ptr))), ..adv },
                Status::Running,
            ),
            Instr::Output => (
                InterpModel { out: s.out.push(cell_at(s.tape, s.ptr)), ..adv },
                Status::Running,
            ),
            Instr::Input => if s.in_pos >= s.input.len() {
                (s, Status::Failed(Fault::InputExhausted))
            } else {
                (
                    InterpModel {
                        tape: with_cell(s, s.input[s.in_pos]),
                        in_pos: s.in_pos + 1,
                        ..adv
                    },
                    Status::Running,
                )
            },
            Instr::LoopOpen => if cell_at(s.tape, s.ptr) != 0 {
                (InterpModel { stack: s.stack.push(s.pc), ..adv }, Status::Running)
            } else {
                match find_close(s.program, s.pc + 1, 1) {
                    Some(j) => (InterpModel { pc: j, ..s }, Status::Running),
                    None => (s, Status::Failed(Fault::UnmatchedOpen)),
                }
            },
            Instr::LoopClose => if s.stack.len() == 0 {
                (s, Status::Failed(Fault::UnmatchedClose))
            } else {
                (
                    InterpModel { pc: s.stack.last(), stack: s.stack.drop_last(), ..s },
                    Status::Running,
                )
            },
            Instr::Skip => (adv, Status::Running),
        }
    }
}

/// The state in which a run of `program` on `input` starts.
pub open spec fn initial(program: Seq<u8>, input: Seq<u8>) -> InterpModel {
    InterpModel {
        program,
        input,
        pc: 0,
        ptr: 0,
        tape: Seq::empty(),
        stack: Seq::empty(),
        in_pos: 0,
        out: Seq::empty(),
    }
}

/// At most `fuel` steps from `s`: the state reached and the status of the
/// last step, or `Running` if the fuel ran out first.
pub open spec fn run_from(s: InterpModel, fuel: nat) -> (InterpModel, Status)
    decreases fuel,
{
    if fuel == 0 {
        (s, Status::Running)
    } else {
        let (t, st) = next(s);
        if st == Status::Running {
            run_from(t, (fuel - 1) as nat)
        } else {
            (t, st)
        }
    }
}

/// How a bounded run ended.
#[derive(Debug, PartialEq, Eq)]
pub enum Outcome {
    /// The program ran to its end; the output, with the closing newline.
    Finished(Vec<u8>),
    /// The run stopped on a fault; the output written before it.
    Failed(Fault, Vec<u8>),
    /// The step budget ran out while the program was still running.
    OutOfFuel,
}

/// `r` is what a run of at most `fuel` steps of `program` on `input` ends in.
pub open spec fn outcome_of(r: Outcome, program: Seq<u8>, input: Seq<u8>, fuel: nat) -> bool {
    let t = run_from(initial(program, input), fuel).0;
    let st = run_from(initial(program, input), fuel).1;
    match r {
        Outcome::Finished(o) => st == Status::Halted && o@ == t.out.push(10),
        Outcome::Failed(f, o) => st == Status::Failed(f) && o@ == t.out,
        Outcome::OutOfFuel => st == Status::Running,
    }
}

/// The tape-language interpreter.
pub struct Interp {
    program: Vec<u8>,
    input: Vec<u8>,
    pc: usize,
    ptr: usize,
    tape: Vec<u8>,
    stack: Vec<usize>,
    in_pos: usize,
    out: Vec<u8>,
}

impl View for Interp {
    type V = InterpModel;

    closed spec fn view(&self) -> InterpModel {
        InterpModel {
            program: self.program@,
            input: self.input@,
            pc: self.pc as int,
            ptr: self.ptr as int,
            tape: self.tape@,
            stack: self.stack@.map_values(|x: usize| x as int),
            in_pos: self.in_pos as int,
            out: self.out@,
        }
    }
}

/// The bounds a state keeps: the counters stay in range and every recorded
/// loop position lies inside the program.
pub open spec fn model_wf(s: InterpModel) -> bool {
    &&& 0 <= s.pc <= s.program.len()
    &&& 0 <= s.ptr < usize::MAX
    &&& 0 <= s.in_pos <= s.input.len()
    &&& forall|k: int| 0 <= k < s.stack.len() ==> 0 <= #[trigger] s.stack[k] < s.program.len()
}

/// A step keeps the bounds of a state.
pub proof fn lemma_next_wf(s: InterpModel)
    requires
        model_wf(s),
    ensures
        model_wf(next(s).0),
{
    if 0 <= s.pc < s.program.len() {
        let t = next(s).0;
        match instr_of(s.program[s.pc]) {
            Instr::LoopOpen => {
                if cell_at(s.tape, s.ptr) != 0 {
                    assert forall|k: int| 0 <= k < t.stack.len() implies 0 <= #[trigger] t.stack[k]
                        < t.program.len() by {
                        if k < s.stack.len() {
                            assert(t.stack[k] == s.stack[k]);
                        }
                    }
                } else {
                    lemma_find_close_bound(s.program, s.pc + 1, 1);
                }
            },
            Instr::LoopClose => {
                if s.stack.len() > 0 {
                    assert(t.stack.len() < s.stack.len());
                    assert(forall|k: int| 0 <= k < t.stack.len() ==> t.stack[k] == s.stack[k]);
                    assert(s.stack[s.stack.len() - 1] < s.program.len());
                }
            },
            _ => {},
        }
    }
}

impl Interp {
    /// The interpreter's invariant: its state keeps the bounds of `model_wf`.
    pub open spec fn wf(&self) -> bool {
        model_wf(self@)
    }

    /// A fresh interpreter: pointer at the origin, empty tape, nothing written.
    pub fn new(program: Vec<u8>, input: Vec<u8>) -> (r: Interp)
        ensures
            r@ == initial(program@, input@),
            r.wf(),
    {
        let r = Interp {
            program,
            input,
            pc: 0,
            ptr: 0,
            tape: Vec::new(),
            stack: Vec::new(),
            in_pos: 0,
            out: Vec::new(),
        };
        assert(r@.stack =~= Seq::<int>::empty());
        r
    }

    /// The bytes written so far.
    pub fn output(&self) -> (r: &Vec<u8>)
        ensures
            r@ == self@.out,
    {
        &self.out
    }

    /// The tape as far as it has grown.
    pub fn tape(&self) -> (r: &Vec<u8>)
        ensures
            r@ == self@.tape,
    {
        &self.tape
    }

    /// The position of the data pointer.
    pub fn pointer(&self) -> (r: usize)
        ensures
            r == self@.ptr,
    {
        self.ptr
    }

    /// Gives up the interpreter and hands back what it wrote.
    pub fn into_output(self) -> (r: Vec<u8>)
        ensures
            r@ == self@.out,
    {
        self.out
    }

    /// The cell under the pointer, zero where the tape has not reached.
    fn current(&self) -> (r: u8)
        ensures
            r == cell_at(self@.tape, self@.ptr),
    {
        if self.ptr < self.tape.len() {
            self.tape[self.ptr]
        } else {
            0
        }
    }

    /// Grows the tape to the pointer and sets the cell under it.
    fn set_current(&mut self, v: u8)
        requires
            old(self).wf(),
        ensures
            final(self)@ == (InterpModel { tape: with_cell(old(self)@, v), ..old(self)@ }),
    {
        while self.tape.len() <= self.ptr
            invariant
                self.ptr == old(self).ptr,
                self.ptr < usize::MAX,
                grown(self@.tape, self@.ptr + 1) == grown(old(self)@.tape, old(self)@.ptr + 1),
                self.program == old(self).program,
                self.input == old(self).input,
                self.pc == old(self).pc,
                self.stack == old(self).stack,
                self.in_pos == old(self).in_pos,
                self.out == old(self).out,
            decreases self.ptr + 1 - self.tape.len(),
        {
            let ghost t = self.tape@;
            self.tape.push(0);
            assert(grown(self@.tape, self@.ptr + 1) =~= grown(t, self@.ptr + 1));
        }
        self.tape.set(self.ptr, v);
        assert(self@.tape =~= with_cell(old(self)@, v));
    }

    /// Where a skipped loop that opens just before `start` resumes.
    fn skip_target(&self, start: usize) -> (r: Option<usize>)
        requires
            1 <= start <= self.program.len(),
        ensures
            match r {
                Some(j) => find_close(self@.program, start as int, 1) == Some(j as int),
                None => find_close(self@.program, start as int, 1).is_none(),
            },
    {
        let mut i: usize = start;
        let mut depth: usize = 1;
        while i < self.program.len()
            invariant
                1 <= start <= i <= self.program.len(),
                1 <= depth <= i - start + 1,
                find_close(self@.program, i as int, depth as nat) == find_close(
                    self@.program,
                    start as int,
                    1,
                ),
            decreases self.program.len() - i,
        {
            let b = self.program[i];
            if b == LOOP_CLOSE {
                if depth == 1 {
                    return Some(i + 1);
                }
                depth -= 1;
            } else if b == LOOP_OPEN {
                depth += 1;
            }
            i += 1;
        }
        None
    }

    /// Runs one instruction, exactly as `next` says.
    pub fn step(&mut self) -> (r: Status)
        requires
            old(self).wf(),
        ensures
            final(self).wf(),
            (final(self)@, r) == next(old(self)@),
    {
        if self.pc >= self.program.len() {
            return Status::Halted;
        }
        let ghost s = self@;
        proof {
            lemma_next_wf(s);
        }
        match decode(self.program[self.pc]) {
            Instr::Right => {
                if self.ptr >= usize::MAX - 1 {
                    return Status::Failed(Fault::PointerOverflow);
                }
                self.ptr += 1;
            },
            Instr::Left => {
                if self.ptr == 0 {
                    return Status::Failed(Fault::PointerUnderflow);
                }
                self.ptr -= 1;
            },
            Instr::Inc => {
                let c = self.current();
                self.set_current(if c == 255 { 0 } else { c + 1 });
            },
            Instr::Dec => {
                let c = self.current();
                self.set_current(if c == 0 { 255 } else { c - 1 });
            },
            Instr::Output => {
                let c = self.current();
                self.out.push(c);
            },
            Instr::Input => {
                if self.in_pos >= self.input.len() {
                    return Status::Failed(Fault::InputExhausted);
                }
                let v = self.input[self.in_pos];
                self.set_current(v);
                self.in_pos += 1;
            },
            Instr::LoopOpen => {
                if self.current() != 0 {
                    self.stack.push(self.pc);
                    assert(self@.stack =~= s.stack.push(s.pc));
                } else {
                    match self.skip_target(self.pc + 1) {
                        Some(j) => {
                            self.pc = j;
                            return Status::Running;
                        },
                        None => {
                            return Status::Failed(Fault::UnmatchedOpen);
                        },
                    }
                }
            },
            Instr::LoopClose => {
                match self.stack.pop() {
                    Some(back) => {
                        self.pc = back;
                        assert(self@.stack =~= s.stack.drop_last());
                        return Status::Running;
                    },
                    None => {
                        return Status::Failed(Fault::UnmatchedClose);
                    },
                }
            },
            Instr::Skip => {},
        }
        self.pc += 1;
        Status::Running
    }
}

/// Runs `program` on `input` for at most `fuel` steps. A run that reaches
/// the end of the program writes one newline after its output.
pub fn run(program: Vec<u8>, input: Vec<u8>, fuel: usize) -> (r: Outcome)
    ensures
        outcome_of(r, program@, input@, fuel as nat),
{
    let ghost start = initial(program@, input@);
    let mut m = Interp::new(program, input);
    let mut n: usize = 0;
    while n < fuel
        invariant
            m.wf(),
            n <= fuel,
            start == initial(program@, input@),
            run_from(m@, (fuel - n) as nat) == run_from(start, fuel as nat),
        decreases fuel - n,
    {
        let ghost prev = m@;
        let st = m.step();
        assert(run_from(prev, (fuel - n) as nat) == if st == Status::Running {
            run_from(m@, (fuel - n - 1) as nat)
        } else {
            (m@, st)
        });
        match st {
            Status::Running => {},
            Status::Halted => {
                let ghost last = m@;
                let mut o = m.into_output();
                o.push(10);
                return Outcome::Finished(o);
            },
            Status::Failed(f) => {
                return Outcome::Failed(f, m.into_output());
            },
        }
        n += 1;
    }
    Outcome::OutOfFuel
}

} // verus!
