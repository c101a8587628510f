//! Reference execution of a generated function's block graph.  The machine
//! is the one the emitted code runs on: a tape of `TAPE_CELLS` one-byte
//! cells, all zero on entry; a 32-bit index register starting at 0 that
//! wraps at its width; byte cells that wrap mod 256; `putchar` appending
//! to an output stream; `getchar` reading the next input byte, or the
//! end-of-input sentinel 0 once the input is exhausted.  A tape access
//! outside the allocated cells is undefined behavior in the emitted code
//! and halts this reference machine with a trap.  Execution is bounded by
//! fuel, since the source language can loop forever.

use vstd::prelude::*;

use vstd::arithmetic::div_mod::{lemma_fundamental_div_mod, lemma_mod_multiples_vanish,
    lemma_small_mod};

use crate::codegen::{Function, TAPE_CELLS};
use crate::codegen::ir_gen::{BlockView, Inst, Terminator, blocks_view};

verus! {

/// The whole machine state between two steps.
#[verifier::ext_equal]
pub ghost struct MachState {
    pub block: int,
    pub pc: int,
    pub tape: Seq<u8>,
    pub idx: u32,
    pub inpos: int,
    pub out: Seq<u8>,
}

/// What one step does.
pub ghost enum StepResult {
    Next(MachState),
    Done { out: Seq<u8>, tape: Seq<u8> },
    Trap,
}

/// What a bounded run yields.
pub ghost enum RunResult {
    Done { out: Seq<u8>, tape: Seq<u8> },
    Trap,
    OutOfFuel,
}

/// 32-bit wrapping addition, as the index register performs it.
pub open spec fn wrap_add32(x: u32, n: u32) -> u32 {
    if x + n > u32::MAX {
        (x + n - 0x1_0000_0000) as u32
    } else {
        (x + n) as u32
    }
}

/// 32-bit wrapping subtraction.
pub open spec fn wrap_sub32(x: u32, n: u32) -> u32 {
    if x - n < 0 {
        (x - n + 0x1_0000_0000) as u32
    } else {
        (x - n) as u32
    }
}

/// A cell after adding `n`, mod 256.
pub open spec fn cell_add(c: u8, n: u32) -> u8 {
    ((c + n) % 256) as u8
}

/// A cell after subtracting `n`, mod 256.
pub open spec fn cell_sub(c: u8, n: u32) -> u8 {
    ((c - n) % 256) as u8
}

/// The next input byte, or the end-of-input sentinel 0.
pub open spec fn read_input(input: Seq<u8>, pos: int) -> u8 {
    if 0 <= pos < input.len() {
        input[pos]
    } else {
        0
    }
}

/// The machine state on entry: at the start of the entry block, every
/// cell zero, index register zero, nothing read or written.
pub open spec fn init_state() -> MachState {
    MachState {
        block: 0,
        pc: 0,
        tape: Seq::new(TAPE_CELLS as nat, |i: int| 0u8),
        idx: 0,
        inpos: 0,
        out: Seq::empty(),
    }
}

/// One step of the machine over the block graph `bs`.
pub open spec fn step(bs: Seq<BlockView>, input: Seq<u8>, st: MachState) -> StepResult {
    if !(0 <= st.block < bs.len()) {
        StepResult::Trap
    } else {
        let b = bs[st.block];
        if 0 <= st.pc < b.insts.len() {
            match b.insts[st.pc] {
                Inst::AddIndex(n) => StepResult::Next(
                    MachState { idx: wrap_add32(st.idx, n), pc: st.pc + 1, ..st },
                ),
                Inst::SubIndex(n) => StepResult::Next(
                    MachState { idx: wrap_sub32(st.idx, n), pc: st.pc + 1, ..st },
                ),
                Inst::AddCell(n) => {
                    if st.idx >= TAPE_CELLS {
                        StepResult::Trap
                    } else {
                        StepResult::Next(
                            MachState {
                                tape: st.tape.update(
                                    st.idx as int,
                                    cell_add(st.tape[st.idx as int], n),
                                ),
                                pc: st.pc + 1,
                                ..st
                            },
                        )
                    }
                },
                Inst::SubCell(n) => {
                    if st.idx >= TAPE_CELLS {
                        StepResult::Trap
                    } else {
                        StepResult::Next(
                            MachState {
                                tape: st.tape.update(
                                    st.idx as int,
                                    cell_sub(st.tape[st.idx as int], n),
                                ),
                                pc: st.pc + 1,
                                ..st
                            },
                        )
                    }
                },
                Inst::OutputCell => {
                    if st.idx >= TAPE_CELLS {
                        StepResult::Trap
                    } else {
                        StepResult::Next(
                            MachState { out: st.out.push(st.tape[st.idx as int]), pc: st.pc + 1, ..st },
                        )
                    }
                },
                Inst::InputCell => {
                    if st.idx >= TAPE_CELLS {
                        StepResult::Trap
                    } else {
                        StepResult::Next(
                            MachState {
                                tape: st.tape.update(
                                    st.idx as int,
                                    read_input(input, st.inpos),
                                ),
                                inpos: if st.inpos < input.len() {
                                    st.inpos + 1
                                } else {
                                    st.inpos
                                },
                                pc: st.pc + 1,
                                ..st
                            },
                        )
                    }
                },
            }
        } else {
            match b.term {
                Option::None => StepResult::Trap,
                Option::Some(Terminator::Jump(t)) => StepResult::Next(
                    MachState { block: t as int, pc: 0, ..st },
                ),
                Option::Some(Terminator::Branch { zero, nonzero }) => {
                    if st.idx >= TAPE_CELLS {
                        StepResult::Trap
                    } else if st.tape[st.idx as int] == 0 {
                        StepResult::Next(MachState { block: zero as int, pc: 0, ..st })
                    } else {
                        StepResult::Next(MachState { block: nonzero as int, pc: 0, ..st })
                    }
                },
                Option::Some(Terminator::Return) => StepResult::Done {
                    out: st.out,
                    tape: st.tape,
                },
            }
        }
    }
}

/// Runs the machine for at most `fuel` steps.
pub open spec fn run(bs: Seq<BlockView>, input: Seq<u8>, st: MachState, fuel: nat) -> RunResult
    decreases fuel,
{
    if fuel == 0 {
        RunResult::OutOfFuel
    } else {
        match step(bs, input, st) {
            StepResult::Next(st2) => run(bs, input, st2, (fuel - 1) as nat),
            StepResult::Done { out, tape } => RunResult::Done { out, tape },
            StepResult::Trap => RunResult::Trap,
        }
    }
}

/// What executing a function yields on the executable side.  `Done`
/// carries the bytes written to output and the final tape.
#[derive(Debug)]
pub enum ExecOutcome {
    Done { output: Vec<u8>, tape: Vec<u8> },
    Trap,
    OutOfFuel,
}

impl View for ExecOutcome {
    type V = RunResult;

    open spec fn view(&self) -> RunResult {
        match self {
            ExecOutcome::Done { output, tape } => RunResult::Done { out: output@, tape: tape@ },
            ExecOutcome::Trap => RunResult::Trap,
            ExecOutcome::OutOfFuel => RunResult::OutOfFuel,
        }
    }
}

proof fn lemma_cell_add_wrapping(c: u8, n: u32)
    ensures
        cell_add(c, n) == (c as u8).wrapping_add((n % 256) as u8),
{
    let k = (n % 256) as int;
    lemma_fundamental_div_mod(n as int, 256);
    lemma_mod_multiples_vanish(n as int / 256, c + k, 256);
    if c + k < 256 {
        lemma_small_mod((c + k) as nat, 256);
    } else {
        lemma_mod_multiples_vanish(1, c + k - 256, 256);
        lemma_small_mod((c + k - 256) as nat, 256);
    }
}

proof fn lemma_cell_sub_wrapping(c: u8, n: u32)
    ensures
        cell_sub(c, n) == (c as u8).wrapping_sub((n % 256) as u8),
{
    let k = (n % 256) as int;
    lemma_fundamental_div_mod(n as int, 256);
    lemma_mod_multiples_vanish(-(n as int / 256), c - k, 256);
    if c - k >= 0 {
        lemma_small_mod((c - k) as nat, 256);
    } else {
        lemma_mod_multiples_vanish(1, c - k, 256);
        lemma_small_mod((c - k + 256) as nat, 256);
    }
}

/// Executes one generated function against a finite input stream, for at
/// most `fuel` steps, exactly as the machine specification prescribes.
pub fn execute(f: &Function, input: &Vec<u8>, fuel: u64) -> (r: ExecOutcome)
    ensures
        r@ == run(blocks_view(f.blocks@), input@, init_state(), fuel as nat),
{
    let ghost bs = blocks_view(f.blocks@);
    let cells: usize = TAPE_CELLS as usize;
    let mut tape: Vec<u8> = Vec::new();
    let mut k: usize = 0;
    while k < cells
        invariant
            cells == TAPE_CELLS,
            k <= cells,
            tape@ =~= Seq::new(k as nat, |i: int| 0u8),
        decreases cells - k,
    {
        tape.push(0);
        k = k + 1;
    }
    proof {
        assert(tape@ =~= init_state().tape);
    }
    let mut block: usize = 0;
    let mut pc: usize = 0;
    let mut idx: u32 = 0;
    let mut inpos: usize = 0;
    let mut out: Vec<u8> = Vec::new();
    let mut remaining: u64 = fuel;
    proof {
        assert(init_state() =~~= MachState {
            block: block as int,
            pc: pc as int,
            tape: tape@,
            idx: idx,
            inpos: inpos as int,
            out: out@,
        });
    }
    while remaining > 0
        invariant
            bs == blocks_view(f.blocks@),
            tape@.len() == TAPE_CELLS,
            inpos <= input@.len(),
            run(bs, input@, init_state(), fuel as nat) == run(
                bs,
                input@,
                MachState {
                    block: block as int,
                    pc: pc as int,
                    tape: tape@,
                    idx: idx,
                    inpos: inpos as int,
                    out: out@,
                },
                remaining as nat,
            ),
        decreases remaining,
    {
        let ghost st = MachState {
            block: block as int,
            pc: pc as int,
            tape: tape@,
            idx: idx,
            inpos: inpos as int,
            out: out@,
        };
        if block >= f.blocks.len() {
            proof {
                assert(step(bs, input@, st) == StepResult::Trap);
            }
            return ExecOutcome::Trap;
        }
        let b = &f.blocks[block];
        proof {
            assert(b@ == bs[block as int]);
        }
        if pc < b.insts.len() {
            match b.insts[pc] {
                Inst::AddIndex(n) => {
                    idx = idx.wrapping_add(n);
                    proof {
                        assert(idx == wrap_add32(st.idx, n));
                    }
                },
                Inst::SubIndex(n) => {
                    idx = idx.wrapping_sub(n);
                    proof {
                        assert(idx == wrap_sub32(st.idx, n));
                    }
                },
                Inst::AddCell(n) => {
                    if idx >= TAPE_CELLS {
                        proof {
                            assert(step(bs, input@, st) == StepResult::Trap);
                        }
                        return ExecOutcome::Trap;
                    }
                    let iu = idx as usize;
                    let delta = (n % 256) as u8;
                    tape[iu] = tape[iu].wrapping_add(delta);
                    proof {
                        lemma_cell_add_wrapping(st.tape[st.idx as int], n);
                        assert(tape@ =~= st.tape.update(
                            st.idx as int,
                            cell_add(st.tape[st.idx as int], n),
                        ));
                    }
                },
                Inst::SubCell(n) => {
                    if idx >= TAPE_CELLS {
                        proof {
                            assert(step(bs, input@, st) == StepResult::Trap);
                        }
                        return ExecOutcome::Trap;
                    }
                    let iu = idx as usize;
                    let delta = (n % 256) as u8;
                    tape[iu] = tape[iu].wrapping_sub(delta);
                    proof {
                        lemma_cell_sub_wrapping(st.tape[st.idx as int], n);
                        assert(tape@ =~= st.tape.update(
                            st.idx as int,
                            cell_sub(st.tape[st.idx as int], n),
                        ));
                    }
                },
                Inst::OutputCell => {
                    if idx >= TAPE_CELLS {
                        proof {
                            assert(step(bs, input@, st) == StepResult::Trap);
                        }
                        return ExecOutcome::Trap;
                    }
                    let iu = idx as usize;
                    out.push(tape[iu]);
                },
                Inst::InputCell => {
                    if idx >= TAPE_CELLS {
                        proof {
                            assert(step(bs, input@, st) == StepResult::Trap);
                        }
                        return ExecOutcome::Trap;
                    }
                    let iu = idx as usize;
                    let v: u8 = if inpos < input.len() {
                        let v = input[inpos];
                        inpos = inpos + 1;
                        v
                    } else {
                        0
                    };
                    tape[iu] = v;
                    proof {
                        assert(tape@ =~= st.tape.update(
                            st.idx as int,
                            read_input(input@, st.inpos),
                        ));
                    }
                },
            }
            pc = pc + 1;
        } else {
            match &b.term {
                Option::None => {
                    proof {
                        assert(step(bs, input@, st) == StepResult::Trap);
                    }
                    return ExecOutcome::Trap;
                },
                Option::Some(Terminator::Jump(t)) => {
                    block = *t;
                    pc = 0;
                },
                Option::Some(Terminator::Branch { zero, nonzero }) => {
                    if idx >= TAPE_CELLS {
                        proof {
                            assert(step(bs, input@, st) == StepResult::Trap);
                        }
                        return ExecOutcome::Trap;
                    }
                    let iu = idx as usize;
                    if tape[iu] == 0 {
                        block = *zero;
                    } else {
                        block = *nonzero;
                    }
                    pc = 0;
                },
                Option::Some(Terminator::Return) => {
                    proof {
                        assert(step(bs, input@, st) == StepResult::Done {
                            out: st.out,
                            tape: st.tape,
                        });
                    }
                    return ExecOutcome::Done { output: out, tape };
                },
            }
        }
        proof {
            let st2 = MachState {
                block: block as int,
                pc: pc as int,
                tape: tape@,
                idx: idx,
                inpos: inpos as int,
                out: out@,
            };
            assert(step(bs, input@, st) matches StepResult::Next(s) && s =~~= st2);
            assert(run(bs, input@, st, remaining as nat) == run(
                bs,
                input@,
                st2,
                (remaining - 1) as nat,
            ));
        }
        remaining = remaining - 1;
    }
    ExecOutcome::OutOfFuel
}

} // verus!
