//! The pre-optimization pass: a single forward scan that collapses each
//! maximal run of immediately adjacent identical pointer/arithmetic tokens
//! (`Inc`, `Dec`, `Right`, `Left`) into one counted token.  `BeginLoop`,
//! `EndLoop` and `Call` affect control flow or have per-call side effects,
//! so they are never folded and pass through individually; whitespace and
//! `Error` tokens are semantically inert and are dropped here.  The scan
//! peeks at the next token rather than consuming it, so a run ends the
//! moment a non-matching token is seen and nothing after it is lost.

use vstd::prelude::*;

use crate::analysis::lexer::TokenView;
use crate::analysis::parser::{GroupingView, ParseResult, ParsedRoutine, TokenGrouping,
    groupings_view};

verus! {

/// Whether a token may be emitted as one counted operation.  The
/// single-pass fold only ever produces `No` and `AsConsecutiveCount`;
/// `AsNonConsecutiveCount` is part of the data model for passes that
/// count non-adjacent repetitions, none of which exist yet.
#[derive(Clone, Copy, Debug, PartialEq, Eq, Structural)]
pub enum RepetitionOptimizable {
    No,
    AsConsecutiveCount(u32),
    AsNonConsecutiveCount(u32),
}

/// A grouped token together with its repetition descriptor.
pub struct PreOptToken {
    pub tok: TokenGrouping,
    pub is_repetition_optimizable: RepetitionOptimizable,
    pub is_extern_call: bool,
}

/// The mathematical image of a pre-optimized token.
#[verifier::ext_equal]
pub ghost struct PreOptTokenView {
    pub tok: GroupingView,
    pub is_repetition_optimizable: RepetitionOptimizable,
    pub is_extern_call: bool,
}

impl View for PreOptToken {
    type V = PreOptTokenView;

    open spec fn view(&self) -> PreOptTokenView {
        PreOptTokenView {
            tok: self.tok@,
            is_repetition_optimizable: self.is_repetition_optimizable,
            is_extern_call: self.is_extern_call,
        }
    }
}

/// The view of a pre-optimized token vector.
pub open spec fn preopt_view(v: Seq<PreOptToken>) -> Seq<PreOptTokenView> {
    v.map_values(|t: PreOptToken| t@)
}

/// The four tokens whose runs fold into a counted operation.
pub open spec fn foldable(t: TokenView) -> bool {
    t == TokenView::Inc || t == TokenView::Dec || t == TokenView::Right || t == TokenView::Left
}

/// Tokens with no semantic effect: whitespace and `Error`.
pub open spec fn inert(t: TokenView) -> bool {
    t == TokenView::Space || t == TokenView::Newline || t matches TokenView::Error(_)
}

/// Length of the maximal run of groupings whose parent equals `k`,
/// starting at `from`.
pub open spec fn run_same(s: Seq<GroupingView>, from: int, k: TokenView) -> nat
    decreases s.len() - from,
{
    if from < 0 || from >= s.len() || s[from].parent != k {
        0
    } else {
        (1 + run_same(s, from + 1, k)) as nat
    }
}

pub proof fn lemma_run_same_props(s: Seq<GroupingView>, from: int, k: TokenView)
    requires
        0 <= from <= s.len(),
    ensures
        from + run_same(s, from, k) <= s.len(),
        forall|j: int| from <= j < from + run_same(s, from, k) ==> (#[trigger] s[j]).parent == k,
        from + run_same(s, from, k) < s.len() ==> s[from + run_same(s, from, k)].parent != k,
    decreases s.len() - from,
{
    if from < s.len() && s[from].parent == k {
        lemma_run_same_props(s, from + 1, k);
    }
}

pub proof fn lemma_run_same_from_scan(s: Seq<GroupingView>, from: int, to: int, k: TokenView)
    requires
        0 <= from <= to <= s.len(),
        forall|j: int| from <= j < to ==> (#[trigger] s[j]).parent == k,
        to == s.len() || s[to].parent != k,
    ensures
        run_same(s, from, k) == to - from,
    decreases to - from,
{
    if from < to {
        lemma_run_same_from_scan(s, from + 1, to, k);
    }
}

/// The pre-optimized stream produced from position `i` on.
pub open spec fn preopt_from(s: Seq<GroupingView>, i: int) -> Seq<PreOptTokenView>
    decreases s.len() - i,
    via preopt_from_dec
{
    if i < 0 || i >= s.len() {
        Seq::empty()
    } else {
        let g = s[i];
        if foldable(g.parent) {
            let r = run_same(s, i, g.parent);
            seq![
                PreOptTokenView {
                    tok: g,
                    is_repetition_optimizable: RepetitionOptimizable::AsConsecutiveCount(r as u32),
                    is_extern_call: false,
                },
            ] + preopt_from(s, i + r)
        } else if inert(g.parent) {
            preopt_from(s, i + 1)
        } else {
            seq![
                PreOptTokenView {
                    tok: g,
                    is_repetition_optimizable: RepetitionOptimizable::No,
                    is_extern_call: false,
                },
            ] + preopt_from(s, i + 1)
        }
    }
}

#[via_fn]
proof fn preopt_from_dec(s: Seq<GroupingView>, i: int) {
    if 0 <= i < s.len() {
        lemma_run_same_props(s, i, s[i].parent);
    }
}

/// What the pre-optimizer produces for a whole grouped routine.
pub open spec fn preopt_spec(s: Seq<GroupingView>) -> Seq<PreOptTokenView> {
    preopt_from(s, 0)
}

/// One routine's name together with its pre-optimized token stream.
pub struct PreOptRoutine {
    pub name: String,
    pub data: Vec<PreOptToken>,
}

/// Decides, for a foldable `a`, whether `b` is the same token.
fn same_foldable(a: &TokenGrouping, b: &TokenGrouping) -> (r: bool)
    requires
        foldable(a@.parent),
    ensures
        r == (b@.parent == a@.parent),
{
    match (&a.parent, &b.parent) {
        (crate::analysis::lexer::TokenKind::Inc, crate::analysis::lexer::TokenKind::Inc) => true,
        (crate::analysis::lexer::TokenKind::Dec, crate::analysis::lexer::TokenKind::Dec) => true,
        (crate::analysis::lexer::TokenKind::Right, crate::analysis::lexer::TokenKind::Right) => true,
        (crate::analysis::lexer::TokenKind::Left, crate::analysis::lexer::TokenKind::Left) => true,
        _ => false,
    }
}

/// Classification of an exec token for the scan below.
fn classify(g: &TokenGrouping) -> (r: (bool, bool))
    ensures
        r.0 == foldable(g@.parent),
        r.1 == inert(g@.parent),
{
    match &g.parent {
        crate::analysis::lexer::TokenKind::Inc => (true, false),
        crate::analysis::lexer::TokenKind::Dec => (true, false),
        crate::analysis::lexer::TokenKind::Right => (true, false),
        crate::analysis::lexer::TokenKind::Left => (true, false),
        crate::analysis::lexer::TokenKind::Space => (false, true),
        crate::analysis::lexer::TokenKind::Newline => (false, true),
        crate::analysis::lexer::TokenKind::Error(_) => (false, true),
        _ => (false, false),
    }
}

impl PreOptRoutine {
    /// Folds one grouped routine.  The scan is strictly forward and
    /// single-pass; a run ends at the first non-matching token, which is
    /// not consumed.
    pub fn from(pr: &ParsedRoutine) -> (r: PreOptRoutine)
        requires
            pr.data@.len() <= u32::MAX,
        ensures
            r.name@ == pr.name@,
            preopt_view(r.data@) == preopt_spec(groupings_view(pr.data@)),
    {
        let ghost s = groupings_view(pr.data@);
        let mut preopt_toks: Vec<PreOptToken> = Vec::new();
        let mut i: usize = 0;
        while i < pr.data.len()
            invariant
                pr.data@.len() <= u32::MAX,
                s == groupings_view(pr.data@),
                i <= pr.data@.len(),
                preopt_view(preopt_toks@) + preopt_from(s, i as int) =~= preopt_spec(s),
            decreases pr.data@.len() - i,
        {
            let token = &pr.data[i];
            assert(token@ == s[i as int]);
            let (is_fold, is_inert) = classify(token);
            let ghost old_out = preopt_toks@;
            if is_fold {
                let mut j: usize = i + 1;
                while j < pr.data.len() && same_foldable(token, &pr.data[j])
                    invariant
                        s == groupings_view(pr.data@),
                        i < j <= pr.data@.len(),
                        foldable(s[i as int].parent),
                        token@ == s[i as int],
                        forall|k: int| i <= k < j ==> (#[trigger] s[k]).parent == s[i as int].parent,
                    decreases pr.data@.len() - j,
                {
                    j = j + 1;
                }
                proof {
                    lemma_run_same_from_scan(s, i as int, j as int, s[i as int].parent);
                }
                let consecutive_uses: u32 = (j - i) as u32;
                preopt_toks.push(
                    PreOptToken {
                        tok: token.clone(),
                        is_repetition_optimizable: RepetitionOptimizable::AsConsecutiveCount(
                            consecutive_uses,
                        ),
                        is_extern_call: false,
                    },
                );
                proof {
                    assert(preopt_view(preopt_toks@) =~= preopt_view(old_out)
                        + seq![preopt_toks@[preopt_toks@.len() - 1]@]);
                    assert(preopt_toks@[preopt_toks@.len() - 1]@ =~~= preopt_from(s, i as int)[0]);
                }
                i = j;
            } else if is_inert {
                i = i + 1;
            } else {
                preopt_toks.push(
                    PreOptToken {
                        tok: token.clone(),
                        is_repetition_optimizable: RepetitionOptimizable::No,
                        is_extern_call: false,
                    },
                );
                proof {
                    assert(preopt_view(preopt_toks@) =~= preopt_view(old_out)
                        + seq![preopt_toks@[preopt_toks@.len() - 1]@]);
                    assert(preopt_toks@[preopt_toks@.len() - 1]@ =~~= preopt_from(s, i as int)[0]);
                }
                i = i + 1;
            }
        }
        proof {
            assert(preopt_view(preopt_toks@) =~= preopt_view(preopt_toks@)
                + preopt_from(s, pr.data@.len() as int));
        }
        PreOptRoutine { name: pr.name.clone(), data: preopt_toks }
    }
}

/// The pre-optimized form of a whole program, routine order preserved.
pub struct PreOptResult {
    pub preopt_routines: Vec<PreOptRoutine>,
}

impl PreOptResult {
    /// Folds every grouped routine, preserving order.
    pub fn new(parse_result: &ParseResult) -> (r: PreOptResult)
        requires
            forall|i: int|
                0 <= i < parse_result.parsed_routines@.len()
                    ==> (#[trigger] parse_result.parsed_routines@[i]).data@.len() <= u32::MAX,
        ensures
            r.preopt_routines@.len() == parse_result.parsed_routines@.len(),
            forall|i: int|
                0 <= i < parse_result.parsed_routines@.len() ==> {
                    &&& (#[trigger] r.preopt_routines@[i]).name@
                        == parse_result.parsed_routines@[i].name@
                    &&& preopt_view(r.preopt_routines@[i].data@) == preopt_spec(
                        groupings_view(parse_result.parsed_routines@[i].data@),
                    )
                },
    {
        let routines = &parse_result.parsed_routines;
        let mut preopt_routines: Vec<PreOptRoutine> = Vec::new();
        let mut i: usize = 0;
        while i < routines.len()
            invariant
                forall|k: int|
                    0 <= k < routines@.len()
                        ==> (#[trigger] routines@[k]).data@.len() <= u32::MAX,
                i <= routines@.len(),
                preopt_routines@.len() == i,
                forall|k: int|
                    0 <= k < i ==> {
                        &&& (#[trigger] preopt_routines@[k]).name@ == routines@[k].name@
                        &&& preopt_view(preopt_routines@[k].data@) == preopt_spec(
                            groupings_view(routines@[k].data@),
                        )
                    },
            decreases routines@.len() - i,
        {
            preopt_routines.push(PreOptRoutine::from(&routines[i]));
            i = i + 1;
        }
        PreOptResult { preopt_routines }
    }
}

/// How many instructions a pre-optimized token stands for once its count
/// is expanded again.
pub open spec fn expanded_weight(t: PreOptTokenView) -> int {
    match t.is_repetition_optimizable {
        RepetitionOptimizable::AsConsecutiveCount(n) => n as int,
        _ => 1,
    }
}

/// The total instruction count a pre-optimized stream stands for.
pub open spec fn expanded_count(ts: Seq<PreOptTokenView>) -> int
    decreases ts.len(),
{
    if ts.len() == 0 {
        0
    } else {
        expanded_weight(ts[0]) + expanded_count(ts.drop_first())
    }
}

/// How many semantically significant (non-whitespace, non-error) tokens a
/// grouped stream holds, from position `i` on.
pub open spec fn significant_from(s: Seq<GroupingView>, i: int) -> int
    decreases s.len() - i,
{
    if i < 0 || i >= s.len() {
        0
    } else {
        (if inert(s[i].parent) {
            0int
        } else {
            1int
        }) + significant_from(s, i + 1)
    }
}

proof fn lemma_significant_run(s: Seq<GroupingView>, i: int, r: int)
    requires
        0 <= i,
        i + r <= s.len(),
        0 <= r,
        forall|j: int| i <= j < i + r ==> !inert((#[trigger] s[j]).parent),
    ensures
        significant_from(s, i) == r + significant_from(s, i + r),
    decreases r,
{
    if r > 0 {
        lemma_significant_run(s, i + 1, r - 1);
    }
}

proof fn lemma_expanded_cons(t: PreOptTokenView, rest: Seq<PreOptTokenView>)
    ensures
        expanded_count(seq![t] + rest) == expanded_weight(t) + expanded_count(rest),
{
    assert((seq![t] + rest).drop_first() =~= rest);
    assert((seq![t] + rest)[0] == t);
}

proof fn lemma_preopt_counts_from(s: Seq<GroupingView>, i: int)
    requires
        s.len() <= u32::MAX,
        0 <= i <= s.len(),
    ensures
        expanded_count(preopt_from(s, i)) == significant_from(s, i),
    decreases s.len() - i,
{
    if i < s.len() {
        let g = s[i];
        if foldable(g.parent) {
            lemma_run_same_props(s, i, g.parent);
            let r = run_same(s, i, g.parent) as int;
            lemma_preopt_counts_from(s, i + r);
            let t = PreOptTokenView {
                tok: g,
                is_repetition_optimizable: RepetitionOptimizable::AsConsecutiveCount(r as u32),
                is_extern_call: false,
            };
            lemma_expanded_cons(t, preopt_from(s, i + r));
            assert(forall|j: int| i <= j < i + r ==> !inert((#[trigger] s[j]).parent));
            lemma_significant_run(s, i, r);
        } else if inert(g.parent) {
            lemma_preopt_counts_from(s, i + 1);
        } else {
            lemma_preopt_counts_from(s, i + 1);
            let t = PreOptTokenView {
                tok: g,
                is_repetition_optimizable: RepetitionOptimizable::No,
                is_extern_call: false,
            };
            lemma_expanded_cons(t, preopt_from(s, i + 1));
        }
    }
}

/// Law: folding preserves instruction count.  Expanding every counted
/// token of the pre-optimized stream back into `n` single instructions
/// yields exactly as many instructions as the grouped stream had
/// semantically significant (non-whitespace, non-error) tokens.
pub proof fn lemma_preopt_preserves_count(s: Seq<GroupingView>)
    requires
        s.len() <= u32::MAX,
    ensures
        expanded_count(preopt_spec(s)) == significant_from(s, 0),
{
    lemma_preopt_counts_from(s, 0);
}

} // verus!
