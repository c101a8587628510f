use nubf::analysis::lexer::{LexResult, LexedRoutine, TokenKind};

fn text_of(t: &TokenKind) -> String {
    match t {
        TokenKind::Inc => "+".to_string(),
        TokenKind::Dec => "-".to_string(),
        TokenKind::Right => ">".to_string(),
        TokenKind::Left => "<".to_string(),
        TokenKind::Input => ",".to_string(),
        TokenKind::Output => ".".to_string(),
        TokenKind::BeginLoop => "[".to_string(),
        TokenKind::EndLoop => "]".to_string(),
        TokenKind::Error(c) => c.to_string(),
        TokenKind::Space => " ".to_string(),
        TokenKind::Newline => "\n".to_string(),
        TokenKind::Identifier(s) => s.clone(),
        TokenKind::Import(s) => s.clone(),
        TokenKind::Call(s) => s.clone(),
    }
}

#[test]
fn lexes_the_eight_classic_instructions() {
    let r = LexedRoutine::new("main".to_string(), "+-><,.[]");
    assert_eq!(
        r.tokens,
        vec![
            TokenKind::Inc,
            TokenKind::Dec,
            TokenKind::Right,
            TokenKind::Left,
            TokenKind::Input,
            TokenKind::Output,
            TokenKind::BeginLoop,
            TokenKind::EndLoop,
        ]
    );
}

#[test]
fn whitespace_is_preserved_in_the_stream() {
    let r = LexedRoutine::new("main".to_string(), "+ \n+");
    assert_eq!(
        r.tokens,
        vec![TokenKind::Inc, TokenKind::Space, TokenKind::Newline, TokenKind::Inc]
    );
}

#[test]
fn unrecognized_characters_become_error_tokens() {
    let r = LexedRoutine::new("main".to_string(), "x?+");
    assert_eq!(
        r.tokens,
        vec![TokenKind::Error('x'), TokenKind::Error('?'), TokenKind::Inc]
    );
}

#[test]
fn import_matches_dollars_then_letters() {
    let r = LexedRoutine::new("main".to_string(), "$foo $$Bar");
    assert_eq!(
        r.tokens,
        vec![
            TokenKind::Import("$foo".to_string()),
            TokenKind::Space,
            TokenKind::Import("$$Bar".to_string()),
        ]
    );
}

#[test]
fn call_requires_a_closing_underscore() {
    let r = LexedRoutine::new("main".to_string(), "_echo_");
    assert_eq!(r.tokens, vec![TokenKind::Call("_echo_".to_string())]);

    let r = LexedRoutine::new("main".to_string(), "_oops");
    assert_eq!(
        r.tokens,
        vec![
            TokenKind::Error('_'),
            TokenKind::Error('o'),
            TokenKind::Error('o'),
            TokenKind::Error('p'),
            TokenKind::Error('s'),
        ]
    );
}

#[test]
fn longest_match_ends_at_first_nonmatching_character() {
    let r = LexedRoutine::new("main".to_string(), "$$ab$");
    assert_eq!(
        r.tokens,
        vec![TokenKind::Import("$$ab".to_string()), TokenKind::Error('$')]
    );

    let r = LexedRoutine::new("main".to_string(), "_a_b_");
    assert_eq!(
        r.tokens,
        vec![
            TokenKind::Call("_a_".to_string()),
            TokenKind::Error('b'),
            TokenKind::Error('_'),
        ]
    );
}

#[test]
fn dollar_without_letters_degrades_to_errors() {
    let r = LexedRoutine::new("main".to_string(), "$$$");
    assert_eq!(
        r.tokens,
        vec![TokenKind::Error('$'), TokenKind::Error('$'), TokenKind::Error('$')]
    );
}

#[test]
fn reconcatenating_token_texts_reproduces_the_source() {
    for src in [
        "+-><,.[]",
        "alpha $foo _bar_ [.,]\n++ $$$x _a_b_ ??",
        "",
        "   \n\n ",
        "_ab__cd_$x$y",
    ] {
        let r = LexedRoutine::new("main".to_string(), src);
        let rebuilt: String = r.tokens.iter().map(text_of).collect();
        assert_eq!(rebuilt, src);
    }
}

#[test]
fn lexes_every_routine_in_input_order() {
    let sources = vec![
        ("one".to_string(), "+".to_string()),
        ("two".to_string(), "-".to_string()),
    ];
    let lexed = LexResult::new(&sources);
    assert_eq!(lexed.lexed_routines.len(), 2);
    assert_eq!(lexed.lexed_routines[0].name, "one");
    assert_eq!(lexed.lexed_routines[0].tokens, vec![TokenKind::Inc]);
    assert_eq!(lexed.lexed_routines[1].name, "two");
    assert_eq!(lexed.lexed_routines[1].tokens, vec![TokenKind::Dec]);
}
