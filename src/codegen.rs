use vstd::prelude::*;
use vstd::string::*;
use crate::instr::{decode, instr_of, Instr, LOOP_OPEN};
use crate::interp::{find_close, next, Fault, InterpModel, Status};

verus! {

/// The fixed head of every generated C++ file: an empty tape and a pointer at 0.
pub open spec fn prologue() -> Seq<char> {
    "#include <bits/stdc++.h>\n"@ + "int main() {\n"@ + "    std::vector<int> buffer;\n"@
        + "    size_t ptr = 0;\n"@
}

/// The fixed tail of every generated C++ file: a newline, then success.
pub open spec fn epilogue() -> Seq<char> {
    "    putchar('\\n');\n"@ + "    return 0;\n"@ + "}\n"@
}

/// Grows the tape so that the pointer addresses a cell, zero-filling new cells.
pub open spec fn grow_code() -> Seq<char> {
    "    if (ptr >= buffer.size()) {\n"@ + "        buffer.resize(ptr + 1);\n"@ + "    }\n"@
}

/// The C++ text emitted for one instruction. Loops become native `while`
/// blocks, so the C++ compiler does the bracket matching. A cell the tape has
/// not reached reads as zero; moving left of the origin and reading past the
/// end of the input end the program with a failure status.
pub open spec fn code_of(i: Instr) -> Seq<char> {
    match i {
        Instr::Right => "    ++ptr;\n"@,
        Instr::Left => "    if (ptr == 0) {\n"@ + "        exit(1);\n"@ + "    }\n"@ + "    --ptr;\n"@,
        Instr::Inc => grow_code() + "    buffer[ptr]++;\n"@,
        Instr::Dec => grow_code() + "    buffer[ptr]--;\n"@,
        Instr::Output => "    putchar(ptr < buffer.size() ? buffer[ptr] : 0);\n"@,
        Instr::Input => grow_code() + "    buffer[ptr] = getchar();\n"@ + "    if (buffer[ptr] == EOF) {\n"@
            + "        exit(1);\n"@ + "    }\n"@,
        Instr::LoopOpen => "    while (ptr < buffer.size() && buffer[ptr]) {\n"@,
        Instr::LoopClose => "}\n"@,
        Instr::Skip => Seq::empty(),
    }
}

/// The C++ text for a whole run of program bytes, one piece per byte.
pub open spec fn body_code(p: Seq<u8>) -> Seq<char>
    decreases p.len(),
{
    if p.len() == 0 {
        Seq::empty()
    } else {
        body_code(p.drop_last()) + code_of(instr_of(p.last()))
    }
}

/// The complete C++ file generated for a program.
pub open spec fn generated_of(p: Seq<u8>) -> Seq<char> {
    prologue() + body_code(p) + epilogue()
}

/// `o` is the `[` of the loop that the `]` at `pc` closes.
pub open spec fn heads_loop(p: Seq<u8>, o: int, pc: int) -> bool {
    &&& 0 <= o < pc
    &&& p[o] == LOOP_OPEN
    &&& find_close(p, o + 1, 1) == Some(pc + 1)
}

/// What one step of the generated program does, on the same state as the
/// interpreter's with no loop stack. A `while` block tests its cell on entry
/// and again each time its body ends: so a `]` goes back to the `[` of its
/// own block, found from the text and not from a record of the run.
pub open spec fn block_next(s: InterpModel) -> (InterpModel, Status) {
    if 0 <= s.pc < s.program.len() && instr_of(s.program[s.pc]) == Instr::LoopOpen {
        if crate::interp::cell_at(s.tape, s.ptr) != 0 {
            (InterpModel { pc: s.pc + 1, ..s }, Status::Running)
        } else {
            next(s)
        }
    } else if 0 <= s.pc < s.program.len() && instr_of(s.program[s.pc]) == Instr::LoopClose {
        if exists|o: int| heads_loop(s.program, o, s.pc) {
            (InterpModel { pc: choose|o: int| heads_loop(s.program, o, s.pc), ..s }, Status::Running)
        } else {
            (s, Status::Failed(Fault::UnmatchedClose))
        }
    } else {
        next(s)
    }
}

/// At most `fuel` steps of the generated program from `s`.
pub open spec fn block_run_from(s: InterpModel, fuel: nat) -> (InterpModel, Status)
    decreases fuel,
{
    if fuel == 0 {
        (s, Status::Running)
    } else {
        let (t, st) = block_next(s);
        if st == Status::Running {
            block_run_from(t, (fuel - 1) as nat)
        } else {
            (t, st)
        }
    }
}

/// What a generator holds: the program, how far it has read, and the text so far.
pub struct MachineModel {
    pub program: Seq<u8>,
    pub pc: nat,
    pub source: Seq<char>,
}

/// Translates a program into C++ source, one instruction per step.
pub struct Machine<'a> {
    program: &'a [u8],
    pc: usize,
    outfile: String,
}

impl<'a> View for Machine<'a> {
    type V = MachineModel;

    closed spec fn view(&self) -> MachineModel {
        MachineModel { program: self.program@, pc: self.pc as nat, source: self.outfile@ }
    }
}

impl<'a> Machine<'a> {
    /// The generator's invariant: the text so far is the head of the file
    /// followed by the code of every byte read.
    pub open spec fn wf(&self) -> bool {
        &&& self@.pc <= self@.program.len()
        &&& self@.source == prologue() + body_code(self@.program.take(self@.pc as int))
    }

    /// A generator at the start of `program`, with the head of the file written.
    pub fn new(program: &'a [u8]) -> (r: Machine<'a>)
        ensures
            r@.program == program@,
            r@.pc == 0,
            r@.source == prologue(),
            r.wf(),
    {
        let mut outfile = String::new();
        outfile.append("#include <bits/stdc++.h>\n");
        outfile.append("int main() {\n");
        outfile.append("    std::vector<int> buffer;\n");
        outfile.append("    size_t ptr = 0;\n");
        let r = Machine { program, pc: 0, outfile };
        assert(r@.program.take(0) =~= Seq::<u8>::empty());
        r
    }

    /// Emits `>`: the pointer moves right.
    pub fn forward_ptr(&mut self)
        ensures
            final(self)@ == (MachineModel { source: old(self)@.source + code_of(Instr::Right), ..old(self)@ }),
    {
        self.outfile.append("    ++ptr;\n");
    }

    /// Emits `<`: the pointer moves left, failing at the origin.
    pub fn backward_ptr(&mut self)
        ensures
            final(self)@ == (MachineModel { source: old(self)@.source + code_of(Instr::Left), ..old(self)@ }),
    {
        self.outfile.append("    if (ptr == 0) {\n");
        self.outfile.append("        exit(1);\n");
        self.outfile.append("    }\n");
        self.outfile.append("    --ptr;\n");
        assert(self@.source =~= old(self)@.source + code_of(Instr::Left));
    }

    /// Emits `+`: grow the tape to the pointer, then increment the cell.
    pub fn inc(&mut self)
        ensures
            final(self)@ == (MachineModel { source: old(self)@.source + code_of(Instr::Inc), ..old(self)@ }),
    {
        let ghost before = self@.source;
        self.realloc();
        self.outfile.append("    buffer[ptr]++;\n");
        assert(self@.source =~= before + code_of(Instr::Inc));
    }

    /// Emits `-`: grow the tape to the pointer, then decrement the cell.
    pub fn dec(&mut self)
        ensures
            final(self)@ == (MachineModel { source: old(self)@.source + code_of(Instr::Dec), ..old(self)@ }),
    {
        let ghost before = self@.source;
        self.realloc();
        self.outfile.append("    buffer[ptr]--;\n");
        assert(self@.source =~= before + code_of(Instr::Dec));
    }

    /// Emits `.`: write the cell, zero where the tape has not reached.
    pub fn output(&mut self)
        ensures
            final(self)@ == (MachineModel { source: old(self)@.source + code_of(Instr::Output), ..old(self)@ }),
    {
        self.outfile.append("    putchar(ptr < buffer.size() ? buffer[ptr] : 0);\n");
    }

    /// Emits `,`: grow the tape, then read one byte into the cell, failing at
    /// the end of the input.
    pub fn input(&mut self)
        ensures
            final(self)@ == (MachineModel { source: old(self)@.source + code_of(Instr::Input), ..old(self)@ }),
    {
        let ghost before = self@.source;
        self.realloc();
        self.outfile.append("    buffer[ptr] = getchar();\n");
        self.outfile.append("    if (buffer[ptr] == EOF) {\n");
        self.outfile.append("        exit(1);\n");
        self.outfile.append("    }\n");
        assert(self@.source =~= before + code_of(Instr::Input));
    }

    /// Emits `[`: open a `while` block on the cell.
    pub fn loop_begin(&mut self)
        ensures
            final(self)@ == (MachineModel { source: old(self)@.source + code_of(Instr::LoopOpen), ..old(self)@ }),
    {
        self.outfile.append("    while (ptr < buffer.size() && buffer[ptr]) {\n");
    }

    /// Emits `]`: close the innermost `while` block.
    pub fn loop_end(&mut self)
        ensures
            final(self)@ == (MachineModel { source: old(self)@.source + code_of(Instr::LoopClose), ..old(self)@ }),
    {
        self.outfile.append("}\n");
    }

    /// Translates the next program byte. Returns `false`, changing nothing,
    /// once every byte has been read.
    pub fn step(&mut self) -> (r: bool)
        requires
            old(self).wf(),
        ensures
            final(self).wf(),
            final(self)@.program == old(self)@.program,
            r == (old(self)@.pc < old(self)@.program.len()),
            r ==> final(self)@.pc == old(self)@.pc + 1,
            r ==> final(self)@.source == old(self)@.source + code_of(
                instr_of(old(self)@.program[old(self)@.pc as int]),
            ),
            !r ==> final(self)@ == old(self)@,
    {
        let ghost prev = self@;
        if let Some(ch) = self.eat() {
            match decode(ch) {
                Instr::Right => self.forward_ptr(),
                Instr::Left => self.backward_ptr(),
                Instr::Inc => self.inc(),
                Instr::Dec => self.dec(),
                Instr::Output => self.output(),
                Instr::Input => self.input(),
                Instr::LoopOpen => self.loop_begin(),
                Instr::LoopClose => self.loop_end(),
                Instr::Skip => {
                    assert(self@.source =~= self@.source + code_of(Instr::Skip));
                },
            }
            assert(prev.program.take(prev.pc + 1int).drop_last() =~= prev.program.take(prev.pc as int));
            assert(self@.source =~= prologue() + body_code(prev.program.take(prev.pc + 1int)));
            true
        } else {
            false
        }
    }

    /// Appends the tail of the file and hands back the complete source.
    pub fn finish(self) -> (r: String)
        ensures
            r@ == self@.source + epilogue(),
    {
        let mut outfile = self.outfile;
        outfile.append("    putchar('\\n');\n");
        outfile.append("    return 0;\n");
        outfile.append("}\n");
        outfile
    }

    /// Emits the statements that grow the tape so the pointer addresses a cell.
    fn realloc(&mut self)
        ensures
            final(self)@ == (MachineModel { source: old(self)@.source + grow_code(), ..old(self)@ }),
    {
        self.outfile.append("    if (ptr >= buffer.size()) {\n");
        self.outfile.append("        buffer.resize(ptr + 1);\n");
        self.outfile.append("    }\n");
        assert(self@.source =~= old(self)@.source + grow_code());
    }

    /// Reads the next program byte, if any is left.
    fn eat(&mut self) -> (r: Option<u8>)
        ensures
            final(self)@.program == old(self)@.program,
            final(self)@.source == old(self)@.source,
            old(self)@.pc < old(self)@.program.len() ==> r == Some(old(self)@.program[old(self)@.pc as int])
                && final(self)@.pc == old(self)@.pc + 1,
            old(self)@.pc >= old(self)@.program.len() ==> r.is_none() && final(self)@.pc == old(self)@.pc,
    {
        if self.pc >= self.program.len() {
            None
        } else {
            let res = self.program[self.pc];
            self.pc += 1;
            Some(res)
        }
    }
}

/// Translates a whole program into a complete C++ file.
pub fn generate(program: &[u8]) -> (r: String)
    ensures
        r@ == generated_of(program@),
{
    let mut machine = Machine::new(program);
    while machine.step()
        invariant
            machine.wf(),
            machine@.program == program@,
        decreases program@.len() - machine@.pc,
    {
    }
    assert(machine@.program.take(machine@.pc as int) =~= program@);
    machine.finish()
}

} // verus!
