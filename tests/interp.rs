use bfc::interp::{run, Fault, Interp, Outcome, Status};

fn bytes(s: &str) -> Vec<u8> {
    s.as_bytes().to_vec()
}

fn run_to_end(program: &str) -> Interp {
    let mut m = Interp::new(bytes(program), Vec::new());
    let mut steps = 0;
    loop {
        match m.step() {
            Status::Running => {}
            Status::Halted => break,
            Status::Failed(f) => panic!("fault {:?}", f),
        }
        steps += 1;
        assert!(steps < 100_000);
    }
    m
}

#[test]
fn comments_only_program_touches_nothing() {
    let m = run_to_end("hello world this is only text\n\t 0123456789 abc");
    assert!(m.tape().is_empty());
    assert!(m.output().is_empty());
    assert_eq!(m.pointer(), 0);
    assert_eq!(
        run(bytes("just words"), Vec::new(), 1000),
        Outcome::Finished(vec![10])
    );
}

#[test]
fn empty_program_prints_newline() {
    assert_eq!(run(Vec::new(), Vec::new(), 10), Outcome::Finished(vec![10]));
}

#[test]
fn empty_loop_on_zero_cell_is_skipped() {
    assert_eq!(run(bytes("[]"), Vec::new(), 10), Outcome::Finished(vec![10]));
    let m = run_to_end("[]");
    assert!(m.tape().is_empty());
}

#[test]
fn empty_loop_on_nonzero_cell_never_ends() {
    assert_eq!(run(bytes("+++++[]"), Vec::new(), 10_000), Outcome::OutOfFuel);
    let mut m = Interp::new(bytes("+[]."), Vec::new());
    for _ in 0..1001 {
        assert_eq!(m.step(), Status::Running);
    }
    assert!(m.output().is_empty());
}

#[test]
fn left_at_origin_is_fatal() {
    assert_eq!(
        run(bytes("<"), Vec::new(), 10),
        Outcome::Failed(Fault::PointerUnderflow, Vec::new())
    );
    assert_eq!(
        run(bytes("+.<"), Vec::new(), 10),
        Outcome::Failed(Fault::PointerUnderflow, vec![1])
    );
}

#[test]
fn plus_plus_dot_outputs_two() {
    assert_eq!(run(bytes("++."), Vec::new(), 100), Outcome::Finished(vec![2, 10]));
}

#[test]
fn nested_loops_leave_fixed_tape() {
    let a = run_to_end("++[>+++[>++<-]<-]");
    let b = run_to_end("++[>+++[>++<-]<-]");
    assert_eq!(a.tape(), &vec![0u8, 0, 12]);
    assert_eq!(a.tape(), b.tape());
    assert_eq!(a.pointer(), 0);
    assert!(a.output().is_empty());
}

#[test]
fn untouched_cell_reads_zero() {
    assert_eq!(run(bytes(">."), Vec::new(), 100), Outcome::Finished(vec![0, 10]));
    let m = run_to_end(">.");
    assert!(m.tape().is_empty());
}

#[test]
fn unmatched_close_is_fatal() {
    assert_eq!(
        run(bytes("+.]"), Vec::new(), 100),
        Outcome::Failed(Fault::UnmatchedClose, vec![1])
    );
}

#[test]
fn unmatched_open_is_fatal() {
    assert_eq!(
        run(bytes("[[]"), Vec::new(), 100),
        Outcome::Failed(Fault::UnmatchedOpen, Vec::new())
    );
}

#[test]
fn input_is_read_and_exhaustion_is_fatal() {
    assert_eq!(
        run(bytes(",.+.,."), vec![65, 90], 100),
        Outcome::Finished(vec![65, 66, 90, 10])
    );
    assert_eq!(
        run(bytes(",.,"), vec![7], 100),
        Outcome::Failed(Fault::InputExhausted, vec![7])
    );
}

#[test]
fn cells_wrap_as_bytes() {
    assert_eq!(run(bytes("-."), Vec::new(), 100), Outcome::Finished(vec![255, 10]));
    let program = "+".repeat(256) + ".";
    assert_eq!(run(bytes(&program), Vec::new(), 1000), Outcome::Finished(vec![0, 10]));
}

#[test]
fn false_loop_skips_nested_brackets() {
    assert_eq!(
        run(bytes("[[+.]+.]+."), Vec::new(), 100),
        Outcome::Finished(vec![1, 10])
    );
}

#[test]
fn loop_counts_down() {
    // 3 * 4 = 12, printed once per pass as the counter falls.
    assert_eq!(
        run(bytes("+++[>++++<-]>."), Vec::new(), 1000),
        Outcome::Finished(vec![12, 10])
    );
    assert_eq!(
        run(bytes("+++[.-]"), Vec::new(), 1000),
        Outcome::Finished(vec![3, 2, 1, 10])
    );
}

#[test]
fn fuel_bounds_the_run() {
    assert_eq!(run(bytes("+++"), Vec::new(), 3), Outcome::OutOfFuel);
    assert_eq!(run(bytes("+++"), Vec::new(), 4), Outcome::Finished(vec![10]));
    assert_eq!(run(bytes("+"), Vec::new(), 0), Outcome::OutOfFuel);
}

#[test]
fn halted_step_changes_nothing() {
    let mut m = run_to_end("+.");
    assert_eq!(m.step(), Status::Halted);
    assert_eq!(m.output(), &vec![1u8]);
    assert_eq!(m.into_output(), vec![1u8]);
}
