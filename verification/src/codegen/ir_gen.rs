//! The control-flow builder.  A routine's pre-optimized token stream is
//! walked once, emitting tape operations and structured loop control flow
//! into a basic-block graph.  The parse stage never builds a tree, so loop
//! nesting is recovered purely through stack discipline: a `BeginLoop`
//! pushes a frame of three fresh blocks (condition, body, end) and a
//! `LoopEnd` pops the innermost one.  The stack depth at any point of the
//! scan equals the current loop nesting depth.
//!
//! Bracket-balance violations are structural errors: a `LoopEnd` with no
//! open frame, or frames still open at the end of the stream, reject the
//! routine; no partially-built function is ever handed out.

use vstd::prelude::*;

use crate::analysis::lexer::TokenView;
use crate::analysis::parser::{GroupingView, group_of, group_seq};
use crate::codegen::preopt::{PreOptToken, PreOptTokenView, RepetitionOptimizable, foldable,
    inert, lemma_run_same_props, preopt_from, preopt_spec, preopt_view, run_same};

verus! {

/// One abstract tape instruction.  Counted pointer/arithmetic operations
/// come from folded runs; I/O operations are always single.
#[derive(Clone, Copy, Debug, PartialEq, Eq, Structural)]
pub enum Inst {
    /// Add `n` to the index register (wrapping at the register width).
    AddIndex(u32),
    /// Subtract `n` from the index register.
    SubIndex(u32),
    /// Add `n` to the cell at the current index (mod 256).
    AddCell(u32),
    /// Subtract `n` from the cell at the current index (mod 256).
    SubCell(u32),
    /// Pass the cell at the current index to the host output function.
    OutputCell,
    /// Store the host input function's result at the current index.
    InputCell,
}

/// How a basic block hands control on.
#[derive(Clone, Copy, Debug, PartialEq, Eq, Structural)]
pub enum Terminator {
    /// Branch unconditionally to the named block.
    Jump(usize),
    /// Load the cell at the current index; go to `zero` if it is zero,
    /// else to `nonzero`.
    Branch { zero: usize, nonzero: usize },
    /// Free the tape and return status 0.
    Return,
}

/// One basic block: straight-line instructions plus a terminator.  The
/// terminator is absent only while the block is still under construction.
pub struct BasicBlock {
    pub insts: Vec<Inst>,
    pub term: Option<Terminator>,
}

/// The mathematical image of a basic block.
#[verifier::ext_equal]
pub ghost struct BlockView {
    pub insts: Seq<Inst>,
    pub term: Option<Terminator>,
}

impl View for BasicBlock {
    type V = BlockView;

    open spec fn view(&self) -> BlockView {
        BlockView { insts: self.insts@, term: self.term }
    }
}

/// The view of a block vector.
pub open spec fn blocks_view(v: Seq<BasicBlock>) -> Seq<BlockView> {
    v.map_values(|b: BasicBlock| b@)
}

/// The three blocks of one open loop: pushed at `BeginLoop`, popped at the
/// matching `EndLoop`.
#[derive(Clone, Copy, Debug, PartialEq, Eq, Structural)]
pub struct LoopLabels {
    pub condition: usize,
    pub body: usize,
    pub end: usize,
}

/// The two ways a routine can be structurally malformed.
#[derive(Clone, Copy, Debug, PartialEq, Eq, Structural)]
pub enum StructuralErrorKind {
    /// An `EndLoop` token appeared with no loop frame open.
    UnmatchedLoopEnd,
    /// The stream ended with one or more loop frames still open.
    UnmatchedLoopBegin,
}

/// A structural error, naming the offending routine.
#[derive(Debug)]
pub struct StructuralError {
    pub routine: String,
    pub kind: StructuralErrorKind,
}

/// How many instructions a folded token stands for.
pub open spec fn fold_count(t: PreOptTokenView) -> u32 {
    match t.is_repetition_optimizable {
        RepetitionOptimizable::AsConsecutiveCount(n) => n,
        _ => 1u32,
    }
}

/// The straight-line instruction a token emits, if any.
pub open spec fn inst_of(t: PreOptTokenView) -> Option<Inst> {
    match t.tok.parent {
        TokenView::Right => Option::Some(Inst::AddIndex(fold_count(t))),
        TokenView::Left => Option::Some(Inst::SubIndex(fold_count(t))),
        TokenView::Inc => Option::Some(Inst::AddCell(fold_count(t))),
        TokenView::Dec => Option::Some(Inst::SubCell(fold_count(t))),
        TokenView::Output => Option::Some(Inst::OutputCell),
        TokenView::Input => Option::Some(Inst::InputCell),
        _ => Option::None,
    }
}

/// The builder's whole state: the blocks so far, the insertion point, and
/// the stack of open loop frames.
#[verifier::ext_equal]
pub ghost struct BuildState {
    pub blocks: Seq<BlockView>,
    pub cur: usize,
    pub frames: Seq<LoopLabels>,
}

/// The state before any token is processed: a single empty entry block.
pub open spec fn init_build_state() -> BuildState {
    BuildState {
        blocks: seq![BlockView { insts: Seq::empty(), term: Option::None }],
        cur: 0,
        frames: Seq::empty(),
    }
}

/// Sets block `i`'s terminator, keeping its instructions.
pub open spec fn set_term(bs: Seq<BlockView>, i: int, t: Terminator) -> Seq<BlockView> {
    bs.update(i, BlockView { insts: bs[i].insts, term: Option::Some(t) })
}

/// One step of building: how one token transforms the state.  `None`
/// reports a pop on an empty frame stack (an unmatched `EndLoop`).
pub open spec fn build_step(st: BuildState, t: PreOptTokenView) -> Option<BuildState> {
    match inst_of(t) {
        Option::Some(ins) => Option::Some(
            BuildState {
                blocks: st.blocks.update(
                    st.cur as int,
                    BlockView {
                        insts: st.blocks[st.cur as int].insts.push(ins),
                        term: st.blocks[st.cur as int].term,
                    },
                ),
                cur: st.cur,
                frames: st.frames,
            },
        ),
        Option::None => {
            if t.tok.parent == TokenView::BeginLoop {
                let c = st.blocks.len() as usize;
                let bo = (st.blocks.len() + 1) as usize;
                let e = (st.blocks.len() + 2) as usize;
                let grown = set_term(st.blocks, st.cur as int, Terminator::Jump(c)) + seq![
                    BlockView {
                        insts: Seq::empty(),
                        term: Option::Some(Terminator::Branch { zero: e, nonzero: bo }),
                    },
                    BlockView { insts: Seq::empty(), term: Option::None },
                    BlockView { insts: Seq::empty(), term: Option::None },
                ];
                Option::Some(
                    BuildState {
                        blocks: grown,
                        cur: bo,
                        frames: st.frames.push(LoopLabels { condition: c, body: bo, end: e }),
                    },
                )
            } else if t.tok.parent == TokenView::EndLoop {
                if st.frames.len() == 0 {
                    Option::None
                } else {
                    let f = st.frames.last();
                    Option::Some(
                        BuildState {
                            blocks: set_term(
                                st.blocks,
                                st.cur as int,
                                Terminator::Jump(f.condition),
                            ),
                            cur: f.end,
                            frames: st.frames.drop_last(),
                        },
                    )
                }
            } else {
                // `Call`, `Import` and their `Identifier` child are
                // recognized but semantically a no-op in this version:
                // no control-flow or tape effect is emitted for them.
                Option::Some(st)
            }
        },
    }
}

/// The state after processing the first `i` tokens, or `None` once an
/// unmatched `EndLoop` was hit.
pub open spec fn build_upto(toks: Seq<PreOptTokenView>, i: int) -> Option<BuildState>
    decreases i,
{
    if i <= 0 {
        Option::Some(init_build_state())
    } else {
        match build_upto(toks, i - 1) {
            Option::None => Option::None,
            Option::Some(st) => build_step(st, toks[i - 1]),
        }
    }
}

/// After the last token the insertion point receives the single `Return`;
/// this is the routine's one exit block.
pub open spec fn finalize(st: BuildState) -> Seq<BlockView> {
    set_term(st.blocks, st.cur as int, Terminator::Return)
}

/// What building a whole token stream yields: the finished block graph,
/// or the kind of structural error.
pub open spec fn build_outcome(toks: Seq<PreOptTokenView>) -> Result<
    Seq<BlockView>,
    StructuralErrorKind,
> {
    match build_upto(toks, toks.len() as int) {
        Option::None => Result::Err(StructuralErrorKind::UnmatchedLoopEnd),
        Option::Some(st) => {
            if st.frames.len() > 0 {
                Result::Err(StructuralErrorKind::UnmatchedLoopBegin)
            } else {
                Result::Ok(finalize(st))
            }
        },
    }
}

/// A token's contribution to the loop nesting depth.
pub open spec fn tok_delta(t: PreOptTokenView) -> int {
    if t.tok.parent == TokenView::BeginLoop {
        1
    } else if t.tok.parent == TokenView::EndLoop {
        -1
    } else {
        0
    }
}

/// The loop nesting depth after the first `i` tokens.
pub open spec fn nest_delta(toks: Seq<PreOptTokenView>, i: int) -> int
    decreases i,
{
    if i <= 0 {
        0
    } else {
        nest_delta(toks, i - 1) + tok_delta(toks[i - 1])
    }
}

/// Syntactic balance: no prefix closes more loops than it opened, and the
/// whole stream closes every loop it opens.
pub open spec fn balanced(toks: Seq<PreOptTokenView>) -> bool {
    &&& nest_delta(toks, toks.len() as int) == 0
    &&& forall|i: int| 0 <= i <= toks.len() ==> nest_delta(toks, i) >= 0
}

/// A terminator only names blocks that exist.
pub open spec fn term_targets_ok(b: BlockView, n: int) -> bool {
    match b.term {
        Option::None => true,
        Option::Some(Terminator::Jump(t)) => t < n,
        Option::Some(Terminator::Branch { zero, nonzero }) => zero < n && nonzero < n,
        Option::Some(Terminator::Return) => true,
    }
}

/// Whether block `k` is the `end` block of some open frame.
pub open spec fn frame_end_at(st: BuildState, k: int) -> bool {
    exists|j: int| 0 <= j < st.frames.len() && (#[trigger] st.frames[j]).end == k
}

/// The builder's invariant over every reachable state: the insertion
/// point exists and is unterminated, exactly the insertion point and the
/// open frames' `end` blocks lack terminators, no `Return` has been
/// emitted yet, every target is in range, and the open frames' `end`
/// blocks are distinct from each other and from the insertion point.
pub open spec fn state_inv(st: BuildState) -> bool {
    &&& st.cur < st.blocks.len()
    &&& forall|k: int|
        0 <= k < st.blocks.len() ==> term_targets_ok(
            #[trigger] st.blocks[k],
            st.blocks.len() as int,
        )
    &&& forall|k: int|
        0 <= k < st.blocks.len() ==> ((#[trigger] st.blocks[k]).term == Option::<Terminator>::None
            <==> (k == st.cur || frame_end_at(st, k)))
    &&& forall|k: int|
        0 <= k < st.blocks.len() ==> (#[trigger] st.blocks[k]).term != Option::Some(
            Terminator::Return,
        )
    &&& forall|j: int|
        0 <= j < st.frames.len() ==> {
            &&& (#[trigger] st.frames[j]).condition < st.blocks.len()
            &&& st.frames[j].body < st.blocks.len()
            &&& st.frames[j].end < st.blocks.len()
            &&& st.frames[j].end != st.cur
        }
    &&& forall|j1: int, j2: int|
        0 <= j1 < j2 < st.frames.len() ==> (#[trigger] st.frames[j1]).end != (
        #[trigger] st.frames[j2]).end
}

/// The central induction: a prefix builds successfully exactly when none
/// of its own prefixes closes more loops than it opened, and every
/// reachable state satisfies the builder invariant with the frame stack
/// exactly as deep as the current nesting.
pub proof fn lemma_build_inv(toks: Seq<PreOptTokenView>, i: int)
    requires
        0 <= i <= toks.len(),
        1 + 3 * toks.len() <= usize::MAX,
    ensures
        (build_upto(toks, i) matches Option::Some(_)) <==> (forall|j: int|
            0 <= j <= i ==> nest_delta(toks, j) >= 0),
        build_upto(toks, i) matches Option::Some(st) ==> state_inv(st) && st.frames.len()
            == nest_delta(toks, i) && st.blocks.len() <= 1 + 3 * i,
    decreases i,
{
    if i == 0 {
        let st = init_build_state();
        assert(forall|j: int| 0 <= j <= 0 ==> nest_delta(toks, j) >= 0);
        assert(!frame_end_at(st, 0));
        assert(state_inv(st));
    } else {
        lemma_build_inv(toks, i - 1);
        match build_upto(toks, i - 1) {
            Option::None => {
                assert(!(forall|j: int| 0 <= j <= i - 1 ==> nest_delta(toks, j) >= 0));
                let jw = choose|j: int| 0 <= j <= i - 1 && nest_delta(toks, j) < 0;
                assert(0 <= jw <= i && nest_delta(toks, jw) < 0);
            },
            Option::Some(st) => {
                let t = toks[i - 1];
                lemma_build_step_inv(st, t);
                match build_step(st, t) {
                    Option::None => {
                        // An unmatched `EndLoop`: the nesting depth goes
                        // negative exactly here.
                        assert(st.frames.len() == 0 && tok_delta(t) == -1);
                        assert(nest_delta(toks, i) == -1);
                    },
                    Option::Some(st2) => {
                        assert(st2.frames.len() == st.frames.len() + tok_delta(t));
                        assert(nest_delta(toks, i) == nest_delta(toks, i - 1) + tok_delta(t));
                        assert(forall|j: int| 0 <= j <= i ==> nest_delta(toks, j) >= 0) by {
                            assert(nest_delta(toks, i) == st2.frames.len() >= 0);
                        }
                    },
                }
            },
        }
    }
}

/// One step preserves the builder invariant; the frame stack moves with
/// the token's nesting contribution, and a step fails only on an
/// unmatched `EndLoop` at depth zero.
proof fn lemma_build_step_inv(st: BuildState, t: PreOptTokenView)
    requires
        state_inv(st),
        st.blocks.len() + 3 <= usize::MAX,
    ensures
        build_step(st, t) matches Option::None ==> st.frames.len() == 0 && tok_delta(t) == -1,
        build_step(st, t) matches Option::Some(st2) ==> state_inv(st2) && st2.frames.len()
            == st.frames.len() + tok_delta(t) && st2.blocks.len() <= st.blocks.len() + 3,
{
    let n = st.blocks.len() as int;
    match inst_of(t) {
        Option::Some(ins) => {
            let st2 = build_step(st, t)->Some_0;
            assert(st2.blocks.len() == n);
            assert(forall|k: int|
                0 <= k < n ==> (#[trigger] st2.blocks[k]).term == st.blocks[k].term);
            assert(forall|k: int| frame_end_at(st2, k) == frame_end_at(st, k));
            assert(state_inv(st2));
        },
        Option::None => {
            if t.tok.parent == TokenView::BeginLoop {
                let st2 = build_step(st, t)->Some_0;
                let c = n as usize;
                let bo = (n + 1) as usize;
                let e = (n + 2) as usize;
                assert(st2.blocks.len() == n + 3);
                assert(st2.cur == bo);
                // Old blocks keep their terminators except the old
                // insertion point, which now jumps to the condition.
                assert(forall|k: int|
                    0 <= k < n && k != st.cur ==> (#[trigger] st2.blocks[k]).term
                        == st.blocks[k].term);
                assert(st2.blocks[st.cur as int].term == Option::Some(Terminator::Jump(c)));
                assert(st2.blocks[n].term == Option::Some(
                    Terminator::Branch { zero: e, nonzero: bo },
                ));
                assert(st2.blocks[n + 1].term == Option::<Terminator>::None);
                assert(st2.blocks[n + 2].term == Option::<Terminator>::None);
                // The new frame set is the old one plus the fresh `end`.
                assert(forall|k: int|
                    frame_end_at(st, k) ==> frame_end_at(st2, k)) by {
                    assert(forall|j: int|
                        0 <= j < st.frames.len() ==> st2.frames[j] == #[trigger] st.frames[j]);
                }
                assert(frame_end_at(st2, n + 2)) by {
                    assert(st2.frames[st.frames.len() as int].end == e);
                }
                assert(forall|k: int|
                    0 <= k < st2.blocks.len() ==> ((#[trigger] st2.blocks[k]).term
                        == Option::<Terminator>::None <==> (k == st2.cur || frame_end_at(
                        st2,
                        k,
                    )))) by {
                    assert(forall|k: int|
                        #[trigger] frame_end_at(st2, k) && k != n + 2 ==> frame_end_at(st, k))
                        by {
                        assert(forall|j: int|
                            0 <= j < st.frames.len() ==> st2.frames[j] == #[trigger] st.frames[j]);
                    }
                }
                assert(state_inv(st2));
            } else if t.tok.parent == TokenView::EndLoop {
                if st.frames.len() > 0 {
                    let st2 = build_step(st, t)->Some_0;
                    let f = st.frames.last();
                    assert(st2.blocks.len() == n);
                    assert(st2.cur == f.end);
                    assert(st2.blocks[st.cur as int].term == Option::Some(
                        Terminator::Jump(f.condition),
                    ));
                    assert(forall|k: int|
                        0 <= k < n && k != st.cur ==> (#[trigger] st2.blocks[k]).term
                            == st.blocks[k].term);
                    // The popped frame's `end` becomes the insertion
                    // point; the remaining frames are a prefix.
                    assert(forall|j: int|
                        0 <= j < st2.frames.len() ==> st2.frames[j] == #[trigger] st.frames[j]);
                    assert(forall|k: int|
                        #[trigger] frame_end_at(st2, k) ==> frame_end_at(st, k) && k != f.end);
                    assert(forall|k: int|
                        frame_end_at(st, k) && k != f.end ==> frame_end_at(st2, k)) by {
                        assert(forall|j: int|
                            0 <= j < st.frames.len() && (#[trigger] st.frames[j]).end != f.end
                                ==> j < st.frames.len() - 1);
                    }
                    assert(forall|k: int|
                        0 <= k < n ==> ((#[trigger] st2.blocks[k]).term
                            == Option::<Terminator>::None <==> (k == st2.cur || frame_end_at(
                            st2,
                            k,
                        ))));
                    assert(state_inv(st2));
                }
            } else {
                assert(tok_delta(t) == 0);
            }
        },
    }
}

/// A failed prefix stays failed.
pub proof fn lemma_build_none_propagates(toks: Seq<PreOptTokenView>, i: int, j: int)
    requires
        0 <= i <= j,
        build_upto(toks, i) == Option::<BuildState>::None,
    ensures
        build_upto(toks, j) == Option::<BuildState>::None,
    decreases j - i,
{
    if i < j {
        lemma_build_none_propagates(toks, i, j - 1);
    }
}

/// A finished graph is well formed: at least the entry block exists,
/// every block is terminated, every branch target is in range, and
/// exactly one block — the exit — returns.
pub open spec fn wf_blocks(bs: Seq<BlockView>) -> bool {
    &&& bs.len() >= 1
    &&& forall|k: int|
        0 <= k < bs.len() ==> ((#[trigger] bs[k]).term matches Option::Some(_))
    &&& forall|k: int| 0 <= k < bs.len() ==> term_targets_ok(#[trigger] bs[k], bs.len() as int)
    &&& exists|k: int|
        0 <= k < bs.len() && (#[trigger] bs[k]).term == Option::Some(Terminator::Return)
    &&& forall|k1: int, k2: int|
        0 <= k1 < bs.len() && 0 <= k2 < bs.len() && (#[trigger] bs[k1]).term == Option::Some(
            Terminator::Return,
        ) && (#[trigger] bs[k2]).term == Option::Some(Terminator::Return) ==> k1 == k2
}

/// Law: for every syntactically balanced token stream, control-flow
/// building succeeds; for every stream with an unmatched `EndLoop` or an
/// unmatched `BeginLoop`, it fails with the corresponding structural
/// error and emits no function.
pub proof fn lemma_build_succeeds_iff_balanced(toks: Seq<PreOptTokenView>)
    requires
        1 + 3 * toks.len() <= usize::MAX,
    ensures
        (build_outcome(toks) matches Result::Ok(_)) <==> balanced(toks),
        (build_outcome(toks) == Result::<Seq<BlockView>, StructuralErrorKind>::Err(
            StructuralErrorKind::UnmatchedLoopEnd,
        )) <==> exists|j: int| 0 <= j <= toks.len() && nest_delta(toks, j) < 0,
        (build_outcome(toks) == Result::<Seq<BlockView>, StructuralErrorKind>::Err(
            StructuralErrorKind::UnmatchedLoopBegin,
        )) <==> ((forall|j: int| 0 <= j <= toks.len() ==> nest_delta(toks, j) >= 0)
            && nest_delta(toks, toks.len() as int) > 0),
{
    let n = toks.len() as int;
    lemma_build_inv(toks, n);
    match build_upto(toks, n) {
        Option::None => {
            assert(exists|j: int| 0 <= j <= n && nest_delta(toks, j) < 0);
        },
        Option::Some(st) => {
            assert(forall|j: int| 0 <= j <= n ==> nest_delta(toks, j) >= 0);
        },
    }
}

/// Law: a successful build yields a well-formed graph — one entry block
/// (block 0) and exactly one exit block per routine.
pub proof fn lemma_build_wf(toks: Seq<PreOptTokenView>, bs: Seq<BlockView>)
    requires
        1 + 3 * toks.len() <= usize::MAX,
        build_outcome(toks) == Result::<Seq<BlockView>, StructuralErrorKind>::Ok(bs),
    ensures
        wf_blocks(bs),
{
    let n = toks.len() as int;
    lemma_build_inv(toks, n);
    let st = build_upto(toks, n)->Some_0;
    assert(st.frames.len() == 0);
    assert(forall|k: int| !frame_end_at(st, k));
    assert(bs == finalize(st));
    assert(bs[st.cur as int].term == Option::Some(Terminator::Return));
    assert(forall|k: int|
        0 <= k < bs.len() && k != st.cur ==> (#[trigger] bs[k]).term == st.blocks[k].term);
}

/// The total number of emitted instructions in a graph.
pub open spec fn total_insts(bs: Seq<BlockView>) -> int
    decreases bs.len(),
{
    if bs.len() == 0 {
        0
    } else {
        bs[0].insts.len() + total_insts(bs.drop_first())
    }
}

/// Law: building is deterministic.  One token stream has one outcome, so
/// compiling the same source twice gives graphs with the same blocks and
/// in particular identical generated instruction counts.
pub proof fn lemma_build_deterministic(
    toks: Seq<PreOptTokenView>,
    bs1: Seq<BlockView>,
    bs2: Seq<BlockView>,
)
    requires
        build_outcome(toks) == Result::<Seq<BlockView>, StructuralErrorKind>::Ok(bs1),
        build_outcome(toks) == Result::<Seq<BlockView>, StructuralErrorKind>::Ok(bs2),
    ensures
        bs1 == bs2,
        total_insts(bs1) == total_insts(bs2),
{
}


/// The total nesting contribution of a whole folded stream.
pub open spec fn fold_delta_total(t: Seq<PreOptTokenView>) -> int
    decreases t.len(),
{
    if t.len() == 0 {
        0
    } else {
        tok_delta(t[0]) + fold_delta_total(t.drop_first())
    }
}

/// The least nesting depth any prefix of a folded stream reaches.
pub open spec fn fold_min_prefix(t: Seq<PreOptTokenView>) -> int
    decreases t.len(),
{
    if t.len() == 0 {
        0
    } else {
        let rest = tok_delta(t[0]) + fold_min_prefix(t.drop_first());
        if rest <= 0 {
            rest
        } else {
            0
        }
    }
}

proof fn lemma_fold_cons(t0: PreOptTokenView, rest: Seq<PreOptTokenView>)
    ensures
        fold_delta_total(seq![t0] + rest) == tok_delta(t0) + fold_delta_total(rest),
        fold_min_prefix(seq![t0] + rest) == if tok_delta(t0) + fold_min_prefix(rest) <= 0 {
            tok_delta(t0) + fold_min_prefix(rest)
        } else {
            0
        },
{
    assert((seq![t0] + rest).drop_first() =~= rest);
    assert((seq![t0] + rest)[0] == t0);
}

proof fn lemma_fold_min_prefix_nonpos(t: Seq<PreOptTokenView>)
    ensures
        fold_min_prefix(t) <= 0,
{
}

proof fn lemma_nest_delta_front(t: Seq<PreOptTokenView>, k: int)
    requires
        1 <= k <= t.len(),
    ensures
        nest_delta(t, k) == tok_delta(t[0]) + nest_delta(t.drop_first(), k - 1),
    decreases k,
{
    let rest = t.drop_first();
    if k == 1 {
        assert(nest_delta(t, 1) == nest_delta(t, 0) + tok_delta(t[0]));
        assert(nest_delta(rest, 0) == 0);
    } else {
        lemma_nest_delta_front(t, k - 1);
        assert(rest[k - 2] == t[k - 1]);
        assert(nest_delta(t, k) == nest_delta(t, k - 1) + tok_delta(t[k - 1]));
        assert(nest_delta(rest, k - 1) == nest_delta(rest, k - 2) + tok_delta(rest[k - 2]));
    }
}

/// The min-prefix form agrees with the prefix-depth form: every prefix
/// depth is at least `fold_min_prefix`, some prefix attains it, and the
/// full-stream depth is `fold_delta_total`.
proof fn lemma_fold_min_prefix_correct(t: Seq<PreOptTokenView>)
    ensures
        forall|k: int| 0 <= k <= t.len() ==> nest_delta(t, k) >= fold_min_prefix(t),
        exists|k: int| 0 <= k <= t.len() && nest_delta(t, k) == fold_min_prefix(t),
        nest_delta(t, t.len() as int) == fold_delta_total(t),
    decreases t.len(),
{
    if t.len() == 0 {
        assert(nest_delta(t, 0) == 0);
    } else {
        let rest = t.drop_first();
        lemma_fold_min_prefix_correct(rest);
        assert forall|k: int| 0 <= k <= t.len() implies nest_delta(t, k) >= fold_min_prefix(t) by {
            if k >= 1 {
                lemma_nest_delta_front(t, k);
            }
        }
        if fold_min_prefix(t) == 0 {
            assert(nest_delta(t, 0) == fold_min_prefix(t));
        } else {
            let kw = choose|k: int|
                0 <= k <= rest.len() && #[trigger] nest_delta(rest, k) == fold_min_prefix(rest);
            lemma_nest_delta_front(t, kw + 1);
            assert(nest_delta(t, kw + 1) == fold_min_prefix(t));
        }
        lemma_nest_delta_front(t, t.len() as int);
    }
}

/// Balance in min-prefix form.
proof fn lemma_balanced_min_prefix(t: Seq<PreOptTokenView>)
    ensures
        balanced(t) <==> (fold_min_prefix(t) >= 0 && fold_delta_total(t) == 0),
{
    lemma_fold_min_prefix_correct(t);
}

/// A grouping's contribution to the loop nesting depth.
pub open spec fn grouping_delta(g: GroupingView) -> int {
    if g.parent == TokenView::BeginLoop {
        1
    } else if g.parent == TokenView::EndLoop {
        -1
    } else {
        0
    }
}

/// The loop nesting depth after the first `i` groupings.
pub open spec fn grouping_nest_delta(s: Seq<GroupingView>, i: int) -> int
    decreases i,
{
    if i <= 0 {
        0
    } else {
        grouping_nest_delta(s, i - 1) + grouping_delta(s[i - 1])
    }
}

/// Syntactic balance of a grouped stream: equally nested `BeginLoop` and
/// `EndLoop` tokens.
pub open spec fn grouping_balanced(s: Seq<GroupingView>) -> bool {
    &&& grouping_nest_delta(s, s.len() as int) == 0
    &&& forall|i: int| 0 <= i <= s.len() ==> grouping_nest_delta(s, i) >= 0
}

/// The total nesting contribution of the groupings from `i` on.
pub open spec fn grouping_delta_from(s: Seq<GroupingView>, i: int) -> int
    decreases s.len() - i,
{
    if i < 0 || i >= s.len() {
        0
    } else {
        grouping_delta(s[i]) + grouping_delta_from(s, i + 1)
    }
}

/// The least depth, relative to position `i`, any later position reaches.
pub open spec fn grouping_minpre_from(s: Seq<GroupingView>, i: int) -> int
    decreases s.len() - i,
{
    if i < 0 || i >= s.len() {
        0
    } else {
        let rest = grouping_delta(s[i]) + grouping_minpre_from(s, i + 1);
        if rest <= 0 {
            rest
        } else {
            0
        }
    }
}

proof fn lemma_grouping_minpre_nonpos(s: Seq<GroupingView>, i: int)
    ensures
        grouping_minpre_from(s, i) <= 0,
{
}

proof fn lemma_grouping_minpre_correct(s: Seq<GroupingView>, i: int)
    requires
        0 <= i <= s.len(),
    ensures
        forall|j: int|
            i <= j <= s.len() ==> grouping_nest_delta(s, j) - grouping_nest_delta(s, i)
                >= grouping_minpre_from(s, i),
        exists|j: int|
            i <= j <= s.len() && grouping_nest_delta(s, j) - grouping_nest_delta(s, i)
                == grouping_minpre_from(s, i),
        grouping_nest_delta(s, s.len() as int) - grouping_nest_delta(s, i)
            == grouping_delta_from(s, i),
    decreases s.len() - i,
{
    if i == s.len() {
        assert(grouping_nest_delta(s, i) - grouping_nest_delta(s, i) == 0);
    } else {
        lemma_grouping_minpre_correct(s, i + 1);
        assert(grouping_nest_delta(s, i + 1) == grouping_nest_delta(s, i) + grouping_delta(s[i]));
        if grouping_minpre_from(s, i) == 0 {
            assert(grouping_nest_delta(s, i) - grouping_nest_delta(s, i)
                == grouping_minpre_from(s, i));
        } else {
            let jw = choose|j: int|
                i + 1 <= j <= s.len() && #[trigger] grouping_nest_delta(s, j)
                    - grouping_nest_delta(s, i + 1) == grouping_minpre_from(s, i + 1);
            assert(grouping_nest_delta(s, jw) - grouping_nest_delta(s, i)
                == grouping_minpre_from(s, i));
        }
    }
}

proof fn lemma_grouping_zero_run(s: Seq<GroupingView>, i: int, r: int)
    requires
        0 <= i,
        0 <= r,
        i + r <= s.len(),
        forall|j: int| i <= j < i + r ==> grouping_delta(#[trigger] s[j]) == 0,
    ensures
        grouping_delta_from(s, i) == grouping_delta_from(s, i + r),
        grouping_minpre_from(s, i) == grouping_minpre_from(s, i + r),
    decreases r,
{
    if r > 0 {
        lemma_grouping_zero_run(s, i + 1, r - 1);
        lemma_grouping_minpre_nonpos(s, i + 1);
    }
}

/// Folding changes nothing about loop structure: the folded stream's
/// total depth and least prefix depth equal those of the grouped stream.
proof fn lemma_preopt_balance_from(s: Seq<GroupingView>, i: int)
    requires
        0 <= i <= s.len(),
    ensures
        fold_delta_total(preopt_from(s, i)) == grouping_delta_from(s, i),
        fold_min_prefix(preopt_from(s, i)) == grouping_minpre_from(s, i),
    decreases s.len() - i,
{
    if i < s.len() {
        let g = s[i];
        if foldable(g.parent) {
            lemma_run_same_props(s, i, g.parent);
            let r = run_same(s, i, g.parent) as int;
            lemma_preopt_balance_from(s, i + r);
            let t0 = PreOptTokenView {
                tok: g,
                is_repetition_optimizable: RepetitionOptimizable::AsConsecutiveCount(
                    run_same(s, i, g.parent) as u32,
                ),
                is_extern_call: false,
            };
            lemma_fold_cons(t0, preopt_from(s, i + r));
            lemma_fold_min_prefix_nonpos(preopt_from(s, i + r));
            assert(forall|j: int| i <= j < i + r ==> grouping_delta(#[trigger] s[j]) == 0);
            lemma_grouping_zero_run(s, i, r);
        } else if inert(g.parent) {
            lemma_preopt_balance_from(s, i + 1);
            lemma_grouping_minpre_nonpos(s, i + 1);
        } else {
            lemma_preopt_balance_from(s, i + 1);
            let t0 = PreOptTokenView {
                tok: g,
                is_repetition_optimizable: RepetitionOptimizable::No,
                is_extern_call: false,
            };
            lemma_fold_cons(t0, preopt_from(s, i + 1));
            assert(tok_delta(t0) == grouping_delta(g));
        }
    }
}

/// Law: folding preserves loop structure.  The folded stream is balanced
/// exactly when the grouped stream is.
pub proof fn lemma_fold_preserves_balance(s: Seq<GroupingView>)
    ensures
        balanced(preopt_spec(s)) <==> grouping_balanced(s),
{
    lemma_preopt_balance_from(s, 0);
    lemma_balanced_min_prefix(preopt_spec(s));
    lemma_grouping_minpre_correct(s, 0);
    lemma_fold_min_prefix_correct(preopt_spec(s));
    if grouping_minpre_from(s, 0) >= 0 && grouping_delta_from(s, 0) == 0 {
        assert(grouping_balanced(s));
    }
    if grouping_balanced(s) {
        let jw = choose|j: int|
            0 <= j <= s.len() && #[trigger] grouping_nest_delta(s, j) - grouping_nest_delta(s, 0)
                == grouping_minpre_from(s, 0);
        assert(grouping_minpre_from(s, 0) >= 0);
        assert(grouping_delta_from(s, 0) == 0);
    }
}

/// A token's contribution to the loop nesting depth.
pub open spec fn token_delta(t: TokenView) -> int {
    if t == TokenView::BeginLoop {
        1
    } else if t == TokenView::EndLoop {
        -1
    } else {
        0
    }
}

/// The loop nesting depth after the first `i` tokens of a lexed stream.
pub open spec fn token_nest_delta(ts: Seq<TokenView>, i: int) -> int
    decreases i,
{
    if i <= 0 {
        0
    } else {
        token_nest_delta(ts, i - 1) + token_delta(ts[i - 1])
    }
}

/// Syntactic balance of a lexed program: equally nested `BeginLoop` and
/// `EndLoop` tokens in the source order.
pub open spec fn token_balanced(ts: Seq<TokenView>) -> bool {
    &&& token_nest_delta(ts, ts.len() as int) == 0
    &&& forall|i: int| 0 <= i <= ts.len() ==> token_nest_delta(ts, i) >= 0
}

proof fn lemma_group_nest_delta(ts: Seq<TokenView>, i: int)
    requires
        0 <= i <= ts.len(),
    ensures
        grouping_nest_delta(group_seq(ts), i) == token_nest_delta(ts, i),
    decreases i,
{
    if i > 0 {
        lemma_group_nest_delta(ts, i - 1);
        assert(group_seq(ts)[i - 1] == group_of(ts[i - 1]));
        assert(grouping_delta(group_of(ts[i - 1])) == token_delta(ts[i - 1]));
    }
}

/// Grouping preserves loop structure token for token.
pub proof fn lemma_group_preserves_balance(ts: Seq<TokenView>)
    ensures
        grouping_balanced(group_seq(ts)) <==> token_balanced(ts),
{
    let gs = group_seq(ts);
    assert(gs.len() == ts.len());
    assert forall|i: int| 0 <= i <= ts.len() implies #[trigger] grouping_nest_delta(gs, i)
        == token_nest_delta(ts, i) by {
        lemma_group_nest_delta(ts, i);
    }
    if grouping_balanced(gs) {
        assert forall|i: int| 0 <= i <= ts.len() implies token_nest_delta(ts, i) >= 0 by {
            assert(grouping_nest_delta(gs, i) >= 0);
        }
        assert(token_balanced(ts));
    }
    if token_balanced(ts) {
        assert forall|i: int| 0 <= i <= gs.len() implies grouping_nest_delta(gs, i) >= 0 by {
            assert(token_nest_delta(ts, i) >= 0);
        }
        assert(grouping_balanced(gs));
    }
}

proof fn lemma_preopt_len(s: Seq<GroupingView>, i: int)
    requires
        0 <= i <= s.len(),
    ensures
        preopt_from(s, i).len() <= s.len() - i,
    decreases s.len() - i,
{
    if i < s.len() {
        let g = s[i];
        if foldable(g.parent) {
            lemma_run_same_props(s, i, g.parent);
            lemma_preopt_len(s, i + run_same(s, i, g.parent) as int);
        } else {
            lemma_preopt_len(s, i + 1);
        }
    }
}

/// Law: for every lexed program whose `BeginLoop`/`EndLoop` tokens nest
/// evenly, the whole pipeline — grouping, folding, control-flow building —
/// succeeds; for every program with an unmatched `EndLoop` or an unmatched
/// `BeginLoop` it fails with a structural error and emits no function.
pub proof fn lemma_pipeline_accepts_iff_balanced(ts: Seq<TokenView>)
    requires
        1 + 3 * ts.len() <= usize::MAX,
    ensures
        (build_outcome(preopt_spec(group_seq(ts))) matches Result::Ok(_)) <==> token_balanced(ts),
{
    let s = group_seq(ts);
    lemma_preopt_len(s, 0);
    lemma_build_succeeds_iff_balanced(preopt_spec(s));
    lemma_fold_preserves_balance(s);
    lemma_group_preserves_balance(ts);
}

/// Validates bracket balance in one pass over the token stream, before
/// any graph is built.  Building succeeds exactly on balanced streams, so
/// a caller can reject a malformed routine up front.
pub fn check_balance(data: &Vec<PreOptToken>) -> (r: bool)
    ensures
        r == balanced(preopt_view(data@)),
{
    let ghost toks = preopt_view(data@);
    let mut depth: usize = 0;
    let mut i: usize = 0;
    while i < data.len()
        invariant
            toks == preopt_view(data@),
            toks.len() == data@.len(),
            i <= data@.len(),
            depth <= i,
            depth as int == nest_delta(toks, i as int),
            forall|j: int| 0 <= j <= i ==> nest_delta(toks, j) >= 0,
        decreases data@.len() - i,
    {
        let t = &data[i];
        proof {
            assert(t@ == toks[i as int]);
        }
        match &t.tok.parent {
            crate::analysis::lexer::TokenKind::BeginLoop => {
                depth = depth + 1;
            },
            crate::analysis::lexer::TokenKind::EndLoop => {
                if depth == 0 {
                    proof {
                        assert(nest_delta(toks, i + 1) == -1);
                    }
                    return false;
                }
                depth = depth - 1;
            },
            _ => {
                proof {
                    assert(tok_delta(toks[i as int]) == 0);
                }
            },
        }
        i = i + 1;
    }
    depth == 0
}

/// Reads a folded token's count on the executable side.
fn count_of(t: &PreOptToken) -> (n: u32)
    ensures
        n == fold_count(t@),
{
    match &t.is_repetition_optimizable {
        RepetitionOptimizable::AsConsecutiveCount(n) => *n,
        _ => 1,
    }
}

/// Builds the basic-block graph for one routine's pre-optimized token
/// stream.  Succeeds exactly on balanced streams and returns the graph
/// the build specification describes; otherwise reports which structural
/// error was found.
pub fn build_blocks(data: &Vec<PreOptToken>) -> (r: Result<Vec<BasicBlock>, StructuralErrorKind>)
    requires
        1 + 3 * data@.len() <= usize::MAX,
    ensures
        ({
            let o = build_outcome(preopt_view(data@));
            match r {
                Result::Ok(bs) => o matches Result::Ok(b) && blocks_view(bs@) == b,
                Result::Err(k) => o matches Result::Err(kk) && k == kk,
            }
        }),
{
    let ghost toks = preopt_view(data@);
    proof {
        assert(toks.len() == data@.len());
    }
    let mut blocks: Vec<BasicBlock> = Vec::new();
    blocks.push(BasicBlock { insts: Vec::new(), term: Option::None });
    let mut cur: usize = 0;
    let mut stack: Vec<LoopLabels> = Vec::new();
    proof {
        assert(blocks_view(blocks@) =~= init_build_state().blocks);
        assert(init_build_state() =~~= BuildState {
            blocks: blocks_view(blocks@),
            cur: cur,
            frames: stack@,
        });
    }
    let mut i: usize = 0;
    while i < data.len()
        invariant
            toks == preopt_view(data@),
            toks.len() == data@.len(),
            1 + 3 * toks.len() <= usize::MAX,
            i <= data@.len(),
            build_upto(toks, i as int) == Option::Some(
                BuildState { blocks: blocks_view(blocks@), cur: cur, frames: stack@ },
            ),
        decreases data@.len() - i,
    {
        proof {
            lemma_build_inv(toks, i as int);
        }
        let ghost st = BuildState { blocks: blocks_view(blocks@), cur: cur, frames: stack@ };
        let t = &data[i];
        proof {
            assert(t@ == toks[i as int]);
        }
        match &t.tok.parent {
            crate::analysis::lexer::TokenKind::Right => {
                let n = count_of(t);
                blocks[cur].insts.push(Inst::AddIndex(n));
            },
            crate::analysis::lexer::TokenKind::Left => {
                let n = count_of(t);
                blocks[cur].insts.push(Inst::SubIndex(n));
            },
            crate::analysis::lexer::TokenKind::Inc => {
                let n = count_of(t);
                blocks[cur].insts.push(Inst::AddCell(n));
            },
            crate::analysis::lexer::TokenKind::Dec => {
                let n = count_of(t);
                blocks[cur].insts.push(Inst::SubCell(n));
            },
            crate::analysis::lexer::TokenKind::Output => {
                blocks[cur].insts.push(Inst::OutputCell);
            },
            crate::analysis::lexer::TokenKind::Input => {
                blocks[cur].insts.push(Inst::InputCell);
            },
            crate::analysis::lexer::TokenKind::BeginLoop => {
                blocks.push(BasicBlock { insts: Vec::new(), term: Option::None });
                blocks.push(BasicBlock { insts: Vec::new(), term: Option::None });
                blocks.push(BasicBlock { insts: Vec::new(), term: Option::None });
                let e = blocks.len() - 1;
                let bo = e - 1;
                let c = bo - 1;
                blocks[c].term = Option::Some(Terminator::Branch { zero: e, nonzero: bo });
                blocks[cur].term = Option::Some(Terminator::Jump(c));
                stack.push(LoopLabels { condition: c, body: bo, end: e });
                cur = bo;
            },
            crate::analysis::lexer::TokenKind::EndLoop => {
                match stack.pop() {
                    Option::Some(f) => {
                        blocks[cur].term = Option::Some(Terminator::Jump(f.condition));
                        cur = f.end;
                    },
                    Option::None => {
                        proof {
                            assert(build_upto(toks, i + 1) == Option::<BuildState>::None);
                            lemma_build_none_propagates(toks, i + 1, toks.len() as int);
                        }
                        return Result::Err(StructuralErrorKind::UnmatchedLoopEnd);
                    },
                }
            },
            _ => {
                // `Call`, `Import`, `Identifier` (and any inert token the
                // pre-optimizer already removed): no effect here.
            },
        }
        proof {
            let st2 = BuildState { blocks: blocks_view(blocks@), cur: cur, frames: stack@ };
            assert(build_step(st, toks[i as int]) matches Option::Some(s) && s =~~= st2);
            assert(build_upto(toks, i + 1) == Option::Some(st2));
        }
        i = i + 1;
    }
    proof {
        lemma_build_inv(toks, toks.len() as int);
    }
    if stack.len() > 0 {
        return Result::Err(StructuralErrorKind::UnmatchedLoopBegin);
    }
    blocks[cur].term = Option::Some(Terminator::Return);
    proof {
        let st = build_upto(toks, toks.len() as int)->Some_0;
        assert(blocks_view(blocks@) =~= finalize(st));
    }
    Result::Ok(blocks)
}

} // verus!
