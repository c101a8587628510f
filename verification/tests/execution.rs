use nubf::analysis::lexer::LexedRoutine;
use nubf::analysis::parser::ParsedRoutine;
use nubf::codegen::preopt::PreOptRoutine;
use nubf::codegen::{CodegenCtx, Module};
use nubf::interp::{execute, ExecOutcome};

fn compile(src: &str) -> Module {
    let lexed = LexedRoutine::new("main".to_string(), src);
    let parsed = ParsedRoutine::from(&lexed);
    let folded = PreOptRoutine::from(&parsed);
    CodegenCtx::new(folded).compile_to_module().expect("program must compile")
}

fn run(src: &str, input: &[u8], fuel: u64) -> ExecOutcome {
    let m = compile(src);
    execute(&m.functions[0], &input.to_vec(), fuel)
}

#[test]
fn three_increments_write_one_byte_with_value_three() {
    match run("+++.", &[], 10_000) {
        ExecOutcome::Done { output, tape } => {
            assert_eq!(output, vec![3]);
            assert_eq!(tape[0], 3);
        }
        other => panic!("expected completion, got {:?}", other),
    }
}

#[test]
fn a_copy_loop_moves_the_cell_and_terminates() {
    match run("+[>+<-]", &[], 10_000) {
        ExecOutcome::Done { output, tape } => {
            assert_eq!(output, vec![]);
            assert_eq!(tape[0], 0);
            assert_eq!(tape[1], 1);
        }
        other => panic!("expected completion, got {:?}", other),
    }
}

#[test]
fn the_echo_program_echoes_every_input_byte_in_order() {
    let input = [104, 101, 121, 33];
    match run(",[.,]", &input, 100_000) {
        ExecOutcome::Done { output, .. } => {
            assert_eq!(output, input.to_vec());
        }
        other => panic!("expected completion, got {:?}", other),
    }
}

#[test]
fn exhausted_input_reads_the_sentinel_zero() {
    // One read consumes the single input byte; the second read hits end
    // of input and must store 0, ending the loop.
    match run(",[.,]", &[7], 10_000) {
        ExecOutcome::Done { output, tape } => {
            assert_eq!(output, vec![7]);
            assert_eq!(tape[0], 0);
        }
        other => panic!("expected completion, got {:?}", other),
    }
}

#[test]
fn cells_wrap_at_byte_width() {
    match run("-.", &[], 10_000) {
        ExecOutcome::Done { output, tape } => {
            assert_eq!(output, vec![255]);
            assert_eq!(tape[0], 255);
        }
        other => panic!("expected completion, got {:?}", other),
    }
}

#[test]
fn folded_runs_execute_as_their_full_count() {
    // Ten increments fold into one counted instruction; the cell must
    // still reach ten.
    match run("++++++++++.", &[], 10_000) {
        ExecOutcome::Done { output, .. } => assert_eq!(output, vec![10]),
        other => panic!("expected completion, got {:?}", other),
    }
}

#[test]
fn moving_left_of_the_tape_traps_on_access() {
    // The index register wraps below zero; the next cell access is out of
    // the allocated tape and halts the reference machine.
    match run("<+", &[], 10_000) {
        ExecOutcome::Trap => {}
        other => panic!("expected a trap, got {:?}", other),
    }
}

#[test]
fn an_endless_loop_runs_out_of_fuel() {
    match run("+[]", &[], 1_000) {
        ExecOutcome::OutOfFuel => {}
        other => panic!("expected fuel exhaustion, got {:?}", other),
    }
}

#[test]
fn import_and_call_are_recognized_but_emit_nothing() {
    // The extension tokens are lexically recognized and carried through
    // the pipeline, but produce no tape effect in this version.
    match run("$util+_util_.", &[], 10_000) {
        ExecOutcome::Done { output, .. } => assert_eq!(output, vec![1]),
        other => panic!("expected completion, got {:?}", other),
    }
}

#[test]
fn an_empty_routine_returns_with_nothing_written() {
    match run("", &[], 10) {
        ExecOutcome::Done { output, tape } => {
            assert_eq!(output, vec![]);
            assert_eq!(tape.len(), nubf::codegen::TAPE_CELLS as usize);
            assert!(tape.iter().all(|&c| c == 0));
        }
        other => panic!("expected completion, got {:?}", other),
    }
}

#[test]
fn a_folded_count_beyond_one_byte_wraps_mod_256() {
    let src: String = "+".repeat(300) + ".";
    match run(&src, &[], 10_000) {
        ExecOutcome::Done { output, .. } => assert_eq!(output, vec![44]),
        other => panic!("expected completion, got {:?}", other),
    }
}

#[test]
fn the_index_register_wraps_at_its_width() {
    // Moving left from 0 wraps the register; moving right again returns
    // it to cell 0, which is then usable as normal.
    match run("<>+.", &[], 10_000) {
        ExecOutcome::Done { output, .. } => assert_eq!(output, vec![1]),
        other => panic!("expected completion, got {:?}", other),
    }
}
