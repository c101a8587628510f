//! The lexer: turns the full text of one routine's source file into an
//! ordered sequence of tokens that covers the input with no gaps.  Every
//! character maps to exactly one token; unrecognized characters become
//! inert `Error` tokens rather than aborting, so lexing is total.
//!
//! The two name-carrying tokens follow a longest-match rule:
//! `Import` matches one-or-more `$` followed by one-or-more ASCII letters,
//! and `Call` matches one-or-more `_`, one-or-more ASCII letters, and a
//! closing `_`.

use vstd::prelude::*;

verus! {

/// One lexical token.  The eight classic instructions, whitespace, an
/// `Error` token carrying the unrecognized character (so that the token
/// stream still covers the input), and the name-carrying extensions.
/// `Identifier` is never produced by the lexer itself; the grouping stage
/// synthesizes it from the name carried by `Import` and `Call`.
#[derive(Debug, PartialEq, Eq)]
pub enum TokenKind {
    Inc,
    Dec,
    Right,
    Left,
    Input,
    Output,
    BeginLoop,
    EndLoop,
    Error(char),
    Space,
    Newline,
    Identifier(String),
    Import(String),
    Call(String),
}

/// The mathematical image of a token: name payloads become character
/// sequences.
pub ghost enum TokenView {
    Inc,
    Dec,
    Right,
    Left,
    Input,
    Output,
    BeginLoop,
    EndLoop,
    Error(char),
    Space,
    Newline,
    Identifier(Seq<char>),
    Import(Seq<char>),
    Call(Seq<char>),
}

impl View for TokenKind {
    type V = TokenView;

    open spec fn view(&self) -> TokenView {
        match self {
            TokenKind::Inc => TokenView::Inc,
            TokenKind::Dec => TokenView::Dec,
            TokenKind::Right => TokenView::Right,
            TokenKind::Left => TokenView::Left,
            TokenKind::Input => TokenView::Input,
            TokenKind::Output => TokenView::Output,
            TokenKind::BeginLoop => TokenView::BeginLoop,
            TokenKind::EndLoop => TokenView::EndLoop,
            TokenKind::Error(c) => TokenView::Error(*c),
            TokenKind::Space => TokenView::Space,
            TokenKind::Newline => TokenView::Newline,
            TokenKind::Identifier(s) => TokenView::Identifier(s@),
            TokenKind::Import(s) => TokenView::Import(s@),
            TokenKind::Call(s) => TokenView::Call(s@),
        }
    }
}

impl Clone for TokenKind {
    fn clone(&self) -> (r: Self)
        ensures
            r@ == self@,
    {
        match self {
            TokenKind::Inc => TokenKind::Inc,
            TokenKind::Dec => TokenKind::Dec,
            TokenKind::Right => TokenKind::Right,
            TokenKind::Left => TokenKind::Left,
            TokenKind::Input => TokenKind::Input,
            TokenKind::Output => TokenKind::Output,
            TokenKind::BeginLoop => TokenKind::BeginLoop,
            TokenKind::EndLoop => TokenKind::EndLoop,
            TokenKind::Error(c) => TokenKind::Error(*c),
            TokenKind::Space => TokenKind::Space,
            TokenKind::Newline => TokenKind::Newline,
            TokenKind::Identifier(s) => TokenKind::Identifier(s.clone()),
            TokenKind::Import(s) => TokenKind::Import(s.clone()),
            TokenKind::Call(s) => TokenKind::Call(s.clone()),
        }
    }
}

/// The view of a whole token vector.
pub open spec fn toks_view(v: Seq<TokenKind>) -> Seq<TokenView> {
    v.map_values(|t: TokenKind| t@)
}

/// ASCII letters, the only characters allowed inside a routine name.
pub open spec fn is_letter_char(c: char) -> bool {
    (97 <= c as u32 && c as u32 <= 122) || (65 <= c as u32 && c as u32 <= 90)
}

/// The character classes whose runs the lexer measures.
pub ghost enum CharClass {
    Dollar,
    Underscore,
    Letter,
}

pub open spec fn char_in_class(cls: CharClass, c: char) -> bool {
    match cls {
        CharClass::Dollar => c == '$',
        CharClass::Underscore => c == '_',
        CharClass::Letter => is_letter_char(c),
    }
}

/// Length of the maximal run of characters of class `cls` starting at
/// `from`.
pub open spec fn run_len(s: Seq<char>, from: int, cls: CharClass) -> nat
    decreases s.len() - from,
{
    if from < 0 || from >= s.len() || !char_in_class(cls, s[from]) {
        0
    } else {
        (1 + run_len(s, from + 1, cls)) as nat
    }
}

pub proof fn lemma_run_len_props(s: Seq<char>, from: int, cls: CharClass)
    requires
        0 <= from <= s.len(),
    ensures
        from + run_len(s, from, cls) <= s.len(),
        forall|j: int|
            from <= j < from + run_len(s, from, cls) ==> char_in_class(cls, #[trigger] s[j]),
        from + run_len(s, from, cls) < s.len() ==> !char_in_class(
            cls,
            s[from + run_len(s, from, cls)],
        ),
    decreases s.len() - from,
{
    if from < s.len() && char_in_class(cls, s[from]) {
        lemma_run_len_props(s, from + 1, cls);
    }
}

pub proof fn lemma_run_len_from_scan(s: Seq<char>, from: int, to: int, cls: CharClass)
    requires
        0 <= from <= to <= s.len(),
        forall|k: int| from <= k < to ==> char_in_class(cls, #[trigger] s[k]),
        to == s.len() || !char_in_class(cls, s[to]),
    ensures
        run_len(s, from, cls) == to - from,
    decreases to - from,
{
    if from < to {
        lemma_run_len_from_scan(s, from + 1, to, cls);
    }
}

/// How many characters the token starting at position `i` covers.
pub open spec fn tok_len_at(s: Seq<char>, i: int) -> nat {
    let c = s[i];
    if c == '$' {
        let d = run_len(s, i, CharClass::Dollar);
        let l = run_len(s, i + d, CharClass::Letter);
        if l > 0 {
            d + l
        } else {
            1
        }
    } else if c == '_' {
        let u = run_len(s, i, CharClass::Underscore);
        let l = run_len(s, i + u, CharClass::Letter);
        if l > 0 && i + u + l < s.len() && s[i + u + l] == '_' {
            u + l + 1
        } else {
            1
        }
    } else {
        1
    }
}

/// The token starting at position `i`.
pub open spec fn tok_at(s: Seq<char>, i: int) -> TokenView {
    let c = s[i];
    if c == '+' {
        TokenView::Inc
    } else if c == '-' {
        TokenView::Dec
    } else if c == '>' {
        TokenView::Right
    } else if c == '<' {
        TokenView::Left
    } else if c == ',' {
        TokenView::Input
    } else if c == '.' {
        TokenView::Output
    } else if c == '[' {
        TokenView::BeginLoop
    } else if c == ']' {
        TokenView::EndLoop
    } else if c == ' ' {
        TokenView::Space
    } else if c == '\n' {
        TokenView::Newline
    } else if c == '$' {
        let d = run_len(s, i, CharClass::Dollar);
        let l = run_len(s, i + d, CharClass::Letter);
        if l > 0 {
            TokenView::Import(s.subrange(i, i + d + l))
        } else {
            TokenView::Error(c)
        }
    } else if c == '_' {
        let u = run_len(s, i, CharClass::Underscore);
        let l = run_len(s, i + u, CharClass::Letter);
        if l > 0 && i + u + l < s.len() && s[i + u + l] == '_' {
            TokenView::Call(s.subrange(i, i + u + l + 1))
        } else {
            TokenView::Error(c)
        }
    } else {
        TokenView::Error(c)
    }
}

pub proof fn lemma_tok_len_at(s: Seq<char>, i: int)
    requires
        0 <= i < s.len(),
    ensures
        1 <= tok_len_at(s, i),
        i + tok_len_at(s, i) <= s.len(),
{
    let c = s[i];
    if c == '$' {
        lemma_run_len_props(s, i, CharClass::Dollar);
        let d = run_len(s, i, CharClass::Dollar);
        lemma_run_len_props(s, i + d, CharClass::Letter);
    } else if c == '_' {
        lemma_run_len_props(s, i, CharClass::Underscore);
        let u = run_len(s, i, CharClass::Underscore);
        lemma_run_len_props(s, i + u, CharClass::Letter);
    }
}

/// The token sequence produced from position `i` on.
pub open spec fn lex_from(s: Seq<char>, i: int) -> Seq<TokenView>
    decreases s.len() - i,
    via lex_from_dec
{
    if i < 0 || i >= s.len() {
        Seq::empty()
    } else {
        seq![tok_at(s, i)] + lex_from(s, i + tok_len_at(s, i))
    }
}

#[via_fn]
proof fn lex_from_dec(s: Seq<char>, i: int) {
    if 0 <= i < s.len() {
        lemma_tok_len_at(s, i);
    }
}

/// What the lexer returns for a whole source text.
pub open spec fn lex_spec(s: Seq<char>) -> Seq<TokenView> {
    lex_from(s, 0)
}

/// The source text a token originally covered.
pub open spec fn token_text(t: TokenView) -> Seq<char> {
    match t {
        TokenView::Inc => seq!['+'],
        TokenView::Dec => seq!['-'],
        TokenView::Right => seq!['>'],
        TokenView::Left => seq!['<'],
        TokenView::Input => seq![','],
        TokenView::Output => seq!['.'],
        TokenView::BeginLoop => seq!['['],
        TokenView::EndLoop => seq![']'],
        TokenView::Error(c) => seq![c],
        TokenView::Space => seq![' '],
        TokenView::Newline => seq!['\n'],
        TokenView::Identifier(p) => p,
        TokenView::Import(p) => p,
        TokenView::Call(p) => p,
    }
}

/// The concatenation of the original text of every token in a stream.
pub open spec fn texts_concat(ts: Seq<TokenView>) -> Seq<char>
    decreases ts.len(),
{
    if ts.len() == 0 {
        Seq::empty()
    } else {
        token_text(ts[0]) + texts_concat(ts.drop_first())
    }
}

proof fn lemma_tok_text_at(s: Seq<char>, i: int)
    requires
        0 <= i < s.len(),
    ensures
        token_text(tok_at(s, i)) =~= s.subrange(i, i + tok_len_at(s, i)),
{
    let c = s[i];
    if c == '$' {
        lemma_run_len_props(s, i, CharClass::Dollar);
        let d = run_len(s, i, CharClass::Dollar);
        lemma_run_len_props(s, i + d, CharClass::Letter);
    } else if c == '_' {
        lemma_run_len_props(s, i, CharClass::Underscore);
        let u = run_len(s, i, CharClass::Underscore);
        lemma_run_len_props(s, i + u, CharClass::Letter);
    }
}

proof fn lemma_lex_from_covers(s: Seq<char>, i: int)
    requires
        0 <= i <= s.len(),
    ensures
        texts_concat(lex_from(s, i)) =~= s.subrange(i, s.len() as int),
    decreases s.len() - i,
{
    if i < s.len() {
        lemma_tok_len_at(s, i);
        let k = tok_len_at(s, i) as int;
        lemma_lex_from_covers(s, i + k);
        lemma_tok_text_at(s, i);
        let rest = lex_from(s, i + k);
        assert((seq![tok_at(s, i)] + rest).drop_first() =~= rest);
        assert(texts_concat(lex_from(s, i)) =~= token_text(tok_at(s, i)) + texts_concat(rest));
    }
}

/// Law: lexing covers its input completely.  Concatenating the original
/// text of every token in the lexed stream reproduces the source exactly;
/// no character is dropped and none is invented.
pub proof fn lemma_lex_covers_input(s: Seq<char>)
    ensures
        texts_concat(lex_spec(s)) == s,
{
    lemma_lex_from_covers(s, 0);
    assert(s.subrange(0, s.len() as int) =~= s);
}

/// Decides `is_letter_char` on a concrete character.
fn is_letter(c: char) -> (r: bool)
    ensures
        r == is_letter_char(c),
{
    let u = c as u32;
    (97 <= u && u <= 122) || (65 <= u && u <= 90)
}

/// Scans the single token that starts at character position `i`.
/// Returns the token and the position just past it.
fn scan_at(s: &str, i: usize, n: usize) -> (r: (TokenKind, usize))
    requires
        n == s@.len(),
        i < n,
    ensures
        r.0@ == tok_at(s@, i as int),
        r.1 == i + tok_len_at(s@, i as int),
        i < r.1 <= n,
{
    proof {
        lemma_tok_len_at(s@, i as int);
    }
    let c = s.get_char(i);
    if c == '+' {
        (TokenKind::Inc, i + 1)
    } else if c == '-' {
        (TokenKind::Dec, i + 1)
    } else if c == '>' {
        (TokenKind::Right, i + 1)
    } else if c == '<' {
        (TokenKind::Left, i + 1)
    } else if c == ',' {
        (TokenKind::Input, i + 1)
    } else if c == '.' {
        (TokenKind::Output, i + 1)
    } else if c == '[' {
        (TokenKind::BeginLoop, i + 1)
    } else if c == ']' {
        (TokenKind::EndLoop, i + 1)
    } else if c == ' ' {
        (TokenKind::Space, i + 1)
    } else if c == '\n' {
        (TokenKind::Newline, i + 1)
    } else if c == '$' {
        // One-or-more `$`, then one-or-more letters, longest match.
        let mut j: usize = i + 1;
        while j < n && s.get_char(j) == '$'
            invariant
                n == s@.len(),
                i < j <= n,
                forall|k: int| i <= k < j ==> char_in_class(CharClass::Dollar, #[trigger] s@[k]),
            decreases n - j,
        {
            j = j + 1;
        }
        proof {
            lemma_run_len_from_scan(s@, i as int, j as int, CharClass::Dollar);
        }
        let mut m = j;
        while m < n && is_letter(s.get_char(m))
            invariant
                n == s@.len(),
                j <= m <= n,
                forall|k: int| j <= k < m ==> char_in_class(CharClass::Letter, #[trigger] s@[k]),
            decreases n - m,
        {
            m = m + 1;
        }
        proof {
            lemma_run_len_from_scan(s@, j as int, m as int, CharClass::Letter);
        }
        if m > j {
            let name = s.substring_char(i, m).to_owned();
            (TokenKind::Import(name), m)
        } else {
            (TokenKind::Error('$'), i + 1)
        }
    } else if c == '_' {
        // One-or-more `_`, one-or-more letters, and a closing `_`.
        let mut j: usize = i + 1;
        while j < n && s.get_char(j) == '_'
            invariant
                n == s@.len(),
                i < j <= n,
                forall|k: int|
                    i <= k < j ==> char_in_class(CharClass::Underscore, #[trigger] s@[k]),
            decreases n - j,
        {
            j = j + 1;
        }
        proof {
            lemma_run_len_from_scan(s@, i as int, j as int, CharClass::Underscore);
        }
        let mut m = j;
        while m < n && is_letter(s.get_char(m))
            invariant
                n == s@.len(),
                j <= m <= n,
                forall|k: int| j <= k < m ==> char_in_class(CharClass::Letter, #[trigger] s@[k]),
            decreases n - m,
        {
            m = m + 1;
        }
        proof {
            lemma_run_len_from_scan(s@, j as int, m as int, CharClass::Letter);
        }
        if m > j && m < n && s.get_char(m) == '_' {
            let name = s.substring_char(i, m + 1).to_owned();
            (TokenKind::Call(name), m + 1)
        } else {
            (TokenKind::Error('_'), i + 1)
        }
    } else {
        (TokenKind::Error(c), i + 1)
    }
}

/// Lexes a whole source text.
pub fn lex(contents: &str) -> (toks: Vec<TokenKind>)
    ensures
        toks_view(toks@) == lex_spec(contents@),
{
    let n = contents.unicode_len();
    let mut toks: Vec<TokenKind> = Vec::new();
    let mut i: usize = 0;
    while i < n
        invariant
            n == contents@.len(),
            i <= n,
            toks_view(toks@) + lex_from(contents@, i as int) =~= lex_spec(contents@),
        decreases n - i,
    {
        let (t, j) = scan_at(contents, i, n);
        let ghost old_toks = toks@;
        toks.push(t);
        proof {
            assert(toks_view(toks@) =~= toks_view(old_toks) + seq![t@]);
        }
        i = j;
    }
    proof {
        assert(toks_view(toks@) =~= toks_view(toks@) + lex_from(contents@, n as int));
    }
    toks
}

/// One routine's name together with its lexed token stream.
pub struct LexedRoutine {
    pub name: String,
    pub tokens: Vec<TokenKind>,
}

impl LexedRoutine {
    /// Lexes the source text of one routine.
    pub fn new(name: String, contents: &str) -> (r: LexedRoutine)
        ensures
            r.name@ == name@,
            toks_view(r.tokens@) == lex_spec(contents@),
    {
        LexedRoutine { name, tokens: lex(contents) }
    }
}

/// The lexed form of a whole program: one routine per input source, in
/// input order.
pub struct LexResult {
    pub lexed_routines: Vec<LexedRoutine>,
}

impl LexResult {
    /// Lexes every routine source, preserving input order.
    pub fn new(routine_sources: &Vec<(String, String)>) -> (r: LexResult)
        ensures
            r.lexed_routines@.len() == routine_sources@.len(),
            forall|i: int|
                0 <= i < routine_sources@.len() ==> {
                    &&& (#[trigger] r.lexed_routines@[i]).name@ == routine_sources@[i].0@
                    &&& toks_view(r.lexed_routines@[i].tokens@) == lex_spec(
                        routine_sources@[i].1@,
                    )
                },
    {
        let mut out: Vec<LexedRoutine> = Vec::new();
        let mut i: usize = 0;
        while i < routine_sources.len()
            invariant
                i <= routine_sources@.len(),
                out@.len() == i,
                forall|k: int|
                    0 <= k < i ==> {
                        &&& (#[trigger] out@[k]).name@ == routine_sources@[k].0@
                        &&& toks_view(out@[k].tokens@) == lex_spec(routine_sources@[k].1@)
                    },
            decreases routine_sources@.len() - i,
        {
            let (name, contents) = &routine_sources[i];
            out.push(LexedRoutine::new(name.clone(), contents.as_str()));
            i = i + 1;
        }
        LexResult { lexed_routines: out }
    }
}

} // verus!
