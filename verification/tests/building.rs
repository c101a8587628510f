use nubf::analysis::lexer::{LexResult, LexedRoutine};
use nubf::analysis::parser::{ParseResult, ParsedRoutine};
use nubf::codegen::ir_gen::{check_balance, StructuralErrorKind, Terminator};
use nubf::codegen::preopt::{PreOptResult, PreOptRoutine};
use nubf::codegen::ir_gen::StructuralError;
use nubf::codegen::{CodegenCtx, IRContext, Module};

fn compile(name: &str, src: &str) -> Result<Module, StructuralError> {
    let lexed = LexedRoutine::new(name.to_string(), src);
    let parsed = ParsedRoutine::from(&lexed);
    let folded = PreOptRoutine::from(&parsed);
    CodegenCtx::new(folded).compile_to_module()
}

#[test]
fn a_balanced_routine_compiles_to_one_function() {
    let m = compile("copy", "+[>+<-]").expect("balanced program must compile");
    assert_eq!(m.name, "copy");
    assert_eq!(m.functions.len(), 1);
    assert_eq!(m.functions[0].name, "copy");
}

#[test]
fn the_module_declares_the_four_host_functions() {
    let m = compile("main", ".").unwrap();
    let names: Vec<&str> = m.externals.iter().map(|f| f.name.as_str()).collect();
    assert_eq!(names, vec!["calloc", "free", "putchar", "getchar"]);
}

#[test]
fn every_block_is_terminated_and_exactly_one_returns() {
    let m = compile("main", "+[>+<-][.]").unwrap();
    let f = &m.functions[0];
    // One extra condition/body/end triple per loop, plus the entry block.
    assert_eq!(f.blocks.len(), 1 + 3 * 2);
    let mut returns: usize = 0;
    for b in &f.blocks {
        let term = b.term.expect("every block of a finished function is terminated");
        match term {
            Terminator::Jump(t) => assert!(t < f.blocks.len()),
            Terminator::Branch { zero, nonzero } => {
                assert!(zero < f.blocks.len());
                assert!(nonzero < f.blocks.len());
            }
            Terminator::Return => returns += 1,
        }
    }
    assert_eq!(returns, 1);
}

#[test]
fn an_unmatched_end_loop_is_a_structural_error() {
    let e = match compile("bad", "+]") {
        Err(e) => e,
        Ok(_) => panic!("an unmatched end loop must be rejected"),
    };
    assert_eq!(e.kind, StructuralErrorKind::UnmatchedLoopEnd);
    assert_eq!(e.routine, "bad");
}

#[test]
fn an_unmatched_begin_loop_is_a_structural_error() {
    let e = match compile("worse", "[[+]") {
        Err(e) => e,
        Ok(_) => panic!("an unmatched begin loop must be rejected"),
    };
    assert_eq!(e.kind, StructuralErrorKind::UnmatchedLoopBegin);
    assert_eq!(e.routine, "worse");
}

#[test]
fn a_deeply_nested_balanced_routine_still_compiles() {
    let m = compile("deep", "[[[[[[[[+]]]]]]]]").unwrap();
    assert_eq!(m.functions[0].blocks.len(), 1 + 3 * 8);
}

#[test]
fn compiling_twice_gives_identical_instruction_counts() {
    let count = |m: &Module| -> usize {
        m.functions[0].blocks.iter().map(|b| b.insts.len()).sum()
    };
    let m1 = compile("main", "+[>+<-].,$x_y_").unwrap();
    let m2 = compile("main", "+[>+<-].,$x_y_").unwrap();
    assert_eq!(count(&m1), count(&m2));
    assert_eq!(m1.functions[0].blocks.len(), m2.functions[0].blocks.len());
}

#[test]
fn a_program_compiles_one_module_per_routine() {
    let sources = vec![
        ("first".to_string(), "+.".to_string()),
        ("second".to_string(), "-[+]".to_string()),
    ];
    let lexed = LexResult::new(&sources);
    let parsed = ParseResult::new(&lexed);
    let folded = PreOptResult::new(&parsed);
    let program = IRContext::new().compile(&folded).expect("both routines are balanced");
    assert_eq!(program.modules.len(), 2);
    assert_eq!(program.modules[0].name, "first");
    assert_eq!(program.modules[1].name, "second");
}

#[test]
fn a_program_with_one_bad_routine_reports_that_routine() {
    let sources = vec![
        ("good".to_string(), "+.".to_string()),
        ("bad".to_string(), "]".to_string()),
    ];
    let lexed = LexResult::new(&sources);
    let parsed = ParseResult::new(&lexed);
    let folded = PreOptResult::new(&parsed);
    let e = match IRContext::new().compile(&folded) {
        Err(e) => e,
        Ok(_) => panic!("a program with an unbalanced routine must be rejected"),
    };
    assert_eq!(e.routine, "bad");
    assert_eq!(e.kind, StructuralErrorKind::UnmatchedLoopEnd);
}

#[test]
fn an_empty_routine_compiles_to_a_single_returning_block() {
    let m = compile("empty", "").unwrap();
    let f = &m.functions[0];
    assert_eq!(f.blocks.len(), 1);
    assert_eq!(f.blocks[0].insts.len(), 0);
    assert_eq!(f.blocks[0].term, Some(Terminator::Return));
}

#[test]
fn balance_can_be_validated_before_building() {
    let folded = |src: &str| {
        PreOptRoutine::from(&ParsedRoutine::from(&LexedRoutine::new(
            "main".to_string(),
            src,
        )))
    };
    assert!(check_balance(&folded("+[>[-]<]").data));
    assert!(check_balance(&folded("").data));
    assert!(!check_balance(&folded("][").data));
    assert!(!check_balance(&folded("[").data));
    assert!(!check_balance(&folded("+]").data));
}
