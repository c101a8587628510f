use nubf::analysis::lexer::{LexedRoutine, TokenKind};
use nubf::analysis::parser::ParsedRoutine;
use nubf::codegen::preopt::{PreOptRoutine, RepetitionOptimizable};

fn parse(src: &str) -> ParsedRoutine {
    ParsedRoutine::from(&LexedRoutine::new("main".to_string(), src))
}

fn fold(src: &str) -> PreOptRoutine {
    PreOptRoutine::from(&parse(src))
}

#[test]
fn import_and_call_get_one_identifier_child() {
    let p = parse("$foo_bar_");
    assert_eq!(p.data.len(), 2);
    assert_eq!(p.data[0].parent, TokenKind::Import("$foo".to_string()));
    assert_eq!(
        p.data[0].children,
        Some(vec![TokenKind::Identifier("$foo".to_string())])
    );
    assert_eq!(p.data[1].parent, TokenKind::Call("_bar_".to_string()));
    assert_eq!(
        p.data[1].children,
        Some(vec![TokenKind::Identifier("_bar_".to_string())])
    );
}

#[test]
fn every_other_token_has_no_children() {
    let p = parse("+-[ ]x");
    assert_eq!(p.data.len(), 6);
    for g in &p.data {
        assert_eq!(g.children, None);
    }
}

#[test]
fn grouping_keeps_length_and_order() {
    let lexed = LexedRoutine::new("main".to_string(), "+ $a -");
    let p = ParsedRoutine::from(&lexed);
    assert_eq!(p.data.len(), lexed.tokens.len());
    assert_eq!(p.name, "main");
}

#[test]
fn a_run_folds_into_one_counted_token() {
    let f = fold("+++++");
    assert_eq!(f.data.len(), 1);
    assert_eq!(f.data[0].tok.parent, TokenKind::Inc);
    assert_eq!(
        f.data[0].is_repetition_optimizable,
        RepetitionOptimizable::AsConsecutiveCount(5)
    );
}

#[test]
fn a_run_stops_at_the_first_nonmatching_token() {
    // A scan that kept consuming past the end of a run would miscount the
    // first run and lose the later ones.
    let f = fold("++>>++");
    assert_eq!(f.data.len(), 3);
    assert_eq!(f.data[0].tok.parent, TokenKind::Inc);
    assert_eq!(
        f.data[0].is_repetition_optimizable,
        RepetitionOptimizable::AsConsecutiveCount(2)
    );
    assert_eq!(f.data[1].tok.parent, TokenKind::Right);
    assert_eq!(
        f.data[1].is_repetition_optimizable,
        RepetitionOptimizable::AsConsecutiveCount(2)
    );
    assert_eq!(f.data[2].tok.parent, TokenKind::Inc);
    assert_eq!(
        f.data[2].is_repetition_optimizable,
        RepetitionOptimizable::AsConsecutiveCount(2)
    );
}

#[test]
fn whitespace_breaks_runs_and_is_dropped() {
    let f = fold("++ ++");
    assert_eq!(f.data.len(), 2);
    assert_eq!(
        f.data[0].is_repetition_optimizable,
        RepetitionOptimizable::AsConsecutiveCount(2)
    );
    assert_eq!(
        f.data[1].is_repetition_optimizable,
        RepetitionOptimizable::AsConsecutiveCount(2)
    );
}

#[test]
fn loops_and_calls_are_never_folded() {
    let f = fold("[[]]_a__a_");
    assert_eq!(f.data.len(), 6);
    for t in &f.data {
        assert_eq!(t.is_repetition_optimizable, RepetitionOptimizable::No);
        assert!(!t.is_extern_call);
    }
}

#[test]
fn error_tokens_are_dropped_by_the_fold() {
    let f = fold("x+y+z");
    assert_eq!(f.data.len(), 2);
    assert_eq!(f.data[0].tok.parent, TokenKind::Inc);
    assert_eq!(f.data[1].tok.parent, TokenKind::Inc);
}

#[test]
fn folding_preserves_expanded_instruction_count() {
    for src in ["+++++", "++ ++", "+[>>><<<-]., x?", "$a_b_++"] {
        let p = parse(src);
        let significant = p
            .data
            .iter()
            .filter(|g| {
                !matches!(
                    g.parent,
                    TokenKind::Space | TokenKind::Newline | TokenKind::Error(_)
                )
            })
            .count() as u64;
        let f = PreOptRoutine::from(&p);
        let expanded: u64 = f
            .data
            .iter()
            .map(|t| match t.is_repetition_optimizable {
                RepetitionOptimizable::AsConsecutiveCount(n) => n as u64,
                _ => 1,
            })
            .sum();
        assert_eq!(expanded, significant);
    }
}
