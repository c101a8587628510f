//! The flat grouping stage, this language's "parse" step.  The grammar has
//! no real nesting, so grouping is a structural normalization only: each
//! `Import` or `Call` token is paired with a single-element child list
//! holding an `Identifier` token that carries the same routine name; every
//! other token passes through with no children.  No bracket-balance
//! validation and no symbol resolution happens here.

use vstd::prelude::*;

use crate::analysis::lexer::{LexResult, LexedRoutine, TokenKind, TokenView, toks_view};

verus! {

/// A token plus an optional single-element child list.  The invariant that
/// only `Import`/`Call` tokens have children is stated by `group_of`.
pub struct TokenGrouping {
    pub parent: TokenKind,
    pub children: Option<Vec<TokenKind>>,
}

/// The mathematical image of a grouping.
#[verifier::ext_equal]
pub ghost struct GroupingView {
    pub parent: TokenView,
    pub children: Option<Seq<TokenView>>,
}

impl View for TokenGrouping {
    type V = GroupingView;

    open spec fn view(&self) -> GroupingView {
        GroupingView {
            parent: self.parent@,
            children: match self.children {
                Option::None => Option::None,
                Option::Some(v) => Option::Some(toks_view(v@)),
            },
        }
    }
}

impl Clone for TokenGrouping {
    fn clone(&self) -> (r: Self)
        ensures
            r@ == self@,
    {
        let children: Option<Vec<TokenKind>> = match &self.children {
            Option::None => Option::None,
            Option::Some(v) => {
                let mut out: Vec<TokenKind> = Vec::new();
                let mut i: usize = 0;
                while i < v.len()
                    invariant
                        i <= v@.len(),
                        out@.len() == i,
                        forall|k: int| 0 <= k < i ==> (#[trigger] out@[k])@ == v@[k]@,
                    decreases v@.len() - i,
                {
                    out.push(v[i].clone());
                    i = i + 1;
                }
                proof {
                    assert(toks_view(out@) =~= toks_view(v@));
                }
                Option::Some(out)
            },
        };
        let r = TokenGrouping { parent: self.parent.clone(), children };
        proof {
            assert(r@ =~~= self@);
        }
        r
    }
}

/// How one token is grouped: `Import` and `Call` get a single `Identifier`
/// child carrying the same name; everything else has no children.
pub open spec fn group_of(t: TokenView) -> GroupingView {
    match t {
        TokenView::Import(nm) => GroupingView {
            parent: t,
            children: Option::Some(seq![TokenView::Identifier(nm)]),
        },
        TokenView::Call(nm) => GroupingView {
            parent: t,
            children: Option::Some(seq![TokenView::Identifier(nm)]),
        },
        _ => GroupingView { parent: t, children: Option::None },
    }
}

/// Grouping applied to a whole token stream; same length, element-wise.
pub open spec fn group_seq(ts: Seq<TokenView>) -> Seq<GroupingView> {
    ts.map_values(|t: TokenView| group_of(t))
}

/// The view of a grouping vector.
pub open spec fn groupings_view(v: Seq<TokenGrouping>) -> Seq<GroupingView> {
    v.map_values(|g: TokenGrouping| g@)
}

/// One routine's name together with its grouped token stream.
pub struct ParsedRoutine {
    pub name: String,
    pub data: Vec<TokenGrouping>,
}

impl ParsedRoutine {
    /// Groups one lexed routine.  The output has one grouping per input
    /// token, in order.
    pub fn from(lexed: &LexedRoutine) -> (r: ParsedRoutine)
        ensures
            r.name@ == lexed.name@,
            groupings_view(r.data@) == group_seq(toks_view(lexed.tokens@)),
    {
        let mut groupings: Vec<TokenGrouping> = Vec::new();
        let mut i: usize = 0;
        while i < lexed.tokens.len()
            invariant
                i <= lexed.tokens@.len(),
                groupings@.len() == i,
                forall|k: int|
                    0 <= k < i ==> (#[trigger] groupings@[k])@ == group_of(lexed.tokens@[k]@),
            decreases lexed.tokens@.len() - i,
        {
            let token = &lexed.tokens[i];
            match token {
                TokenKind::Import(nm) => {
                    let child = TokenKind::Identifier(nm.clone());
                    let mut children: Vec<TokenKind> = Vec::new();
                    children.push(child);
                    groupings.push(
                        TokenGrouping { parent: token.clone(), children: Option::Some(children) },
                    );
                },
                TokenKind::Call(nm) => {
                    let child = TokenKind::Identifier(nm.clone());
                    let mut children: Vec<TokenKind> = Vec::new();
                    children.push(child);
                    groupings.push(
                        TokenGrouping { parent: token.clone(), children: Option::Some(children) },
                    );
                },
                _ => {
                    groupings.push(TokenGrouping { parent: token.clone(), children: Option::None });
                },
            }
            proof {
                assert(groupings@[i as int]@ =~~= group_of(lexed.tokens@[i as int]@));
            }
            i = i + 1;
        }
        proof {
            assert(groupings_view(groupings@) =~~= group_seq(toks_view(lexed.tokens@)));
        }
        ParsedRoutine { name: lexed.name.clone(), data: groupings }
    }
}

/// The grouped form of a whole program, routine order preserved.
pub struct ParseResult {
    pub parsed_routines: Vec<ParsedRoutine>,
}

impl ParseResult {
    /// Groups every lexed routine, preserving order.
    pub fn new(lexed_result: &LexResult) -> (r: ParseResult)
        ensures
            r.parsed_routines@.len() == lexed_result.lexed_routines@.len(),
            forall|i: int|
                0 <= i < lexed_result.lexed_routines@.len() ==> {
                    &&& (#[trigger] r.parsed_routines@[i]).name@
                        == lexed_result.lexed_routines@[i].name@
                    &&& groupings_view(r.parsed_routines@[i].data@) == group_seq(
                        toks_view(lexed_result.lexed_routines@[i].tokens@),
                    )
                },
    {
        let routines = &lexed_result.lexed_routines;
        let mut parsed_routines: Vec<ParsedRoutine> = Vec::new();
        let mut i: usize = 0;
        while i < routines.len()
            invariant
                i <= routines@.len(),
                parsed_routines@.len() == i,
                forall|k: int|
                    0 <= k < i ==> {
                        &&& (#[trigger] parsed_routines@[k]).name@ == routines@[k].name@
                        &&& groupings_view(parsed_routines@[k].data@) == group_seq(
                            toks_view(routines@[k].tokens@),
                        )
                    },
            decreases routines@.len() - i,
        {
            parsed_routines.push(ParsedRoutine::from(&routines[i]));
            i = i + 1;
        }
        ParseResult { parsed_routines }
    }
}

} // verus!
