use vstd::prelude::*;

use crate::fault::Fault;
use crate::fault::FaultKind;
use crate::instr::Instr;
use crate::instr::spec_decode;
use crate::machine::MachineView;
use crate::screen::spec_draw;

verus! {

/// What one step of the machine yields: the next state, and the fault that
/// stopped it, if any. A faulting step leaves the state unchanged, so the
/// program counter still points at the faulting instruction.
#[verifier::ext_equal]
pub struct StepEffect {
    pub m: MachineView,
    pub fault: Option<FaultKind>,
}

/// A step that completed.
pub open spec fn step_ok(m: MachineView) -> StepEffect {
    StepEffect { m, fault: None }
}

/// A step that faulted, leaving the state unchanged.
pub open spec fn step_fault(m: MachineView, k: FaultKind) -> StepEffect {
    StepEffect { m, fault: Some(k) }
}

/// A 60 Hz timer decrement: down by exactly one until 0, then 0 forever.
pub open spec fn dec_timer(t: u8) -> u8 {
    if t > 0 { (t - 1) as u8 } else { 0 }
}

/// The program counter after an executed skip: two further bytes when the
/// condition holds.
pub open spec fn skip_pc(pc: u16, cond: bool) -> u16 {
    if cond { (pc + 2) as u16 } else { pc }
}

/// Addition wrapped to a byte.
pub open spec fn wrap_add(a: u8, b: u8) -> u8 {
    ((a + b) % 256) as u8
}

/// Subtraction wrapped to a byte.
pub open spec fn wrap_sub(a: u8, b: u8) -> u8 {
    (((a + 256) - b) % 256) as u8
}

/// The lowest pressed key at or after position k, or 16 when none is.
pub open spec fn first_key(keys: Seq<bool>, k: int) -> int
    decreases 16 - k,
{
    if k < 0 || k >= 16 { 16 }
    else if keys[k] { k }
    else { first_key(keys, k + 1) }
}

/// Execute one decoded instruction on a state whose program counter has
/// already moved past it. The register fields of `ins` are nibbles, so
/// they index `v` in range; VF is register 15 and is overwritten last by
/// the instructions that produce a flag.
pub open spec fn spec_exec(m: MachineView, ins: Instr, rnd: u8) -> StepEffect {
    match ins {
        Instr::Cls => step_ok(MachineView { screen: m.screen.cleared(), ..m }),
        Instr::Ret => if m.stack.len() == 0 {
            step_fault(m, FaultKind::StackUnderflow)
        } else {
            step_ok(MachineView { pc: m.stack.last(), stack: m.stack.drop_last(), ..m })
        },
        Instr::Jump { nnn } => step_ok(MachineView { pc: nnn, ..m }),
        Instr::Call { nnn } => if m.stack.len() >= 16 {
            step_fault(m, FaultKind::StackOverflow)
        } else {
            step_ok(MachineView { stack: m.stack.push(m.pc), pc: nnn, ..m })
        },
        Instr::SkipEqImm { x, kk } => step_ok(MachineView {
            pc: skip_pc(m.pc, m.v[x as int] == kk), ..m }),
        Instr::SkipNeImm { x, kk } => step_ok(MachineView {
            pc: skip_pc(m.pc, m.v[x as int] != kk), ..m }),
        Instr::SkipEqReg { x, y } => step_ok(MachineView {
            pc: skip_pc(m.pc, m.v[x as int] == m.v[y as int]), ..m }),
        Instr::SkipNeReg { x, y } => step_ok(MachineView {
            pc: skip_pc(m.pc, m.v[x as int] != m.v[y as int]), ..m }),
        Instr::LoadImm { x, kk } => step_ok(MachineView { v: m.v.update(x as int, kk), ..m }),
        Instr::AddImm { x, kk } => step_ok(MachineView {
            v: m.v.update(x as int, wrap_add(m.v[x as int], kk)), ..m }),
        Instr::CopyReg { x, y } => step_ok(MachineView {
            v: m.v.update(x as int, m.v[y as int]), ..m }),
        Instr::OrReg { x, y } => step_ok(MachineView {
            v: m.v.update(x as int, m.v[x as int] | m.v[y as int]), ..m }),
        Instr::AndReg { x, y } => step_ok(MachineView {
            v: m.v.update(x as int, m.v[x as int] & m.v[y as int]), ..m }),
        Instr::XorReg { x, y } => step_ok(MachineView {
            v: m.v.update(x as int, m.v[x as int] ^ m.v[y as int]), ..m }),
        Instr::AddReg { x, y } => {
            let a = m.v[x as int];
            let b = m.v[y as int];
            step_ok(MachineView {
                v: m.v.update(x as int, wrap_add(a, b))
                    .update(15, if a + b > 255 { 1u8 } else { 0u8 }),
                ..m })
        },
        Instr::SubReg { x, y } => {
            let a = m.v[x as int];
            let b = m.v[y as int];
            step_ok(MachineView {
                v: m.v.update(x as int, wrap_sub(a, b))
                    .update(15, if a >= b { 1u8 } else { 0u8 }),
                ..m })
        },
        Instr::ShrReg { x, y } => {
            let src = if m.config.shift_reads_vy { m.v[y as int] } else { m.v[x as int] };
            step_ok(MachineView {
                v: m.v.update(x as int, (src / 2) as u8).update(15, (src % 2) as u8),
                ..m })
        },
        Instr::SubRevReg { x, y } => {
            let a = m.v[x as int];
            let b = m.v[y as int];
            step_ok(MachineView {
                v: m.v.update(x as int, wrap_sub(b, a))
                    .update(15, if b >= a { 1u8 } else { 0u8 }),
                ..m })
        },
        Instr::ShlReg { x, y } => {
            let src = if m.config.shift_reads_vy { m.v[y as int] } else { m.v[x as int] };
            step_ok(MachineView {
                v: m.v.update(x as int, ((src * 2) % 256) as u8).update(15, (src / 128) as u8),
                ..m })
        },
        Instr::LoadIndex { nnn } => step_ok(MachineView { i: nnn, ..m }),
        Instr::JumpOffset { nnn } => step_ok(MachineView {
            pc: (nnn + m.v[0]) as u16, ..m }),
        Instr::Rand { x, kk } => step_ok(MachineView {
            v: m.v.update(x as int, rnd & kk), ..m }),
        Instr::Draw { x, y, n } => if m.i + n > 4096 {
            step_fault(m, FaultKind::OutOfBoundsAddress)
        } else {
            let sprite = m.mem.subrange(m.i as int, m.i + n);
            let d = spec_draw(m.screen, m.v[x as int] as int, m.v[y as int] as int, sprite);
            step_ok(MachineView {
                screen: d.s,
                v: m.v.update(15, if d.collision { 1u8 } else { 0u8 }),
                ..m })
        },
        Instr::SkipKey { x } => step_ok(MachineView {
            pc: skip_pc(m.pc, m.keys[m.v[x as int] as int % 16]), ..m }),
        Instr::SkipNoKey { x } => step_ok(MachineView {
            pc: skip_pc(m.pc, !m.keys[m.v[x as int] as int % 16]), ..m }),
        Instr::ReadDelay { x } => step_ok(MachineView {
            v: m.v.update(x as int, m.delay), ..m }),
        Instr::WaitKey { x } => if first_key(m.keys, 0) < 16 {
            step_ok(MachineView { v: m.v.update(x as int, first_key(m.keys, 0) as u8), ..m })
        } else {
            step_ok(MachineView { pc: (m.pc - 2) as u16, ..m })
        },
        Instr::WriteDelay { x } => step_ok(MachineView { delay: m.v[x as int], ..m }),
        Instr::WriteSound { x } => step_ok(MachineView { sound: m.v[x as int], ..m }),
        Instr::AddIndex { x } => step_ok(MachineView {
            i: ((m.i + m.v[x as int]) % 0x10000) as u16, ..m }),
        Instr::FontIndex { x } => step_ok(MachineView {
            i: (0x50 + 5 * m.v[x as int]) as u16, ..m }),
        Instr::StoreBcd { x } => if m.i + 3 > 4096 {
            step_fault(m, FaultKind::OutOfBoundsAddress)
        } else {
            let b = m.v[x as int];
            step_ok(MachineView {
                mem: m.mem.update(m.i as int, (b / 100) as u8)
                    .update(m.i + 1, ((b / 10) % 10) as u8)
                    .update(m.i + 2, (b % 10) as u8),
                ..m })
        },
        Instr::StoreRegs { x } => if m.i + x + 1 > 4096 {
            step_fault(m, FaultKind::OutOfBoundsAddress)
        } else {
            step_ok(MachineView {
                mem: Seq::new(4096, |a: int|
                    if m.i <= a < m.i + x + 1 { m.v[a - m.i] } else { m.mem[a] }),
                i: if m.config.block_ops_increment_index { (m.i + x + 1) as u16 } else { m.i },
                ..m })
        },
        Instr::LoadRegs { x } => if m.i + x + 1 > 4096 {
            step_fault(m, FaultKind::OutOfBoundsAddress)
        } else {
            step_ok(MachineView {
                v: Seq::new(16, |k: int|
                    if k < x + 1 { m.mem[m.i + k] } else { m.v[k] }),
                i: if m.config.block_ops_increment_index { (m.i + x + 1) as u16 } else { m.i },
                ..m })
        },
    }
}

/// The big-endian 16-bit word at the program counter.
pub open spec fn fetched_op(m: MachineView) -> u16 {
    (m.mem[m.pc as int] * 256 + m.mem[m.pc + 1]) as u16
}

/// One fetch-decode-execute cycle. The two opcode bytes are read big-endian
/// at the program counter, which moves past them before the instruction
/// executes, so jumps and calls are not advanced over. A fault — the fetch
/// running off memory, an unknown opcode, or a faulting instruction —
/// leaves the whole state unchanged.
pub open spec fn spec_step(m: MachineView, rnd: u8) -> StepEffect {
    if m.pc + 1 >= 4096 {
        step_fault(m, FaultKind::OutOfBoundsAddress)
    } else {
        let op = fetched_op(m);
        match spec_decode(op) {
            None => step_fault(m, FaultKind::UnknownOpcode),
            Some(ins) => {
                let e = spec_exec(MachineView { pc: (m.pc + 2) as u16, ..m }, ins, rnd);
                if e.fault is Some {
                    step_fault(m, e.fault.unwrap())
                } else {
                    e
                }
            },
        }
    }
}

/// Run n cycles, drawing random bytes from the front of rnds, stopping at
/// the first fault.
pub open spec fn spec_run(m: MachineView, n: nat, rnds: Seq<u8>) -> StepEffect
    decreases n,
{
    if n == 0 {
        step_ok(m)
    } else {
        let r = spec_step(m, rnds[0]);
        if r.fault is Some {
            r
        } else {
            spec_run(r.m, (n - 1) as nat, rnds.drop_first())
        }
    }
}

/// One frame: execute tick_rate cycles, then decrement each timer once.
/// A fault aborts the frame before the timer decrement.
pub open spec fn spec_tick(m: MachineView, rnds: Seq<u8>) -> StepEffect {
    let r = spec_run(m, m.config.tick_rate as nat, rnds);
    if r.fault is Some {
        r
    } else {
        step_ok(MachineView { delay: dec_timer(r.m.delay), sound: dec_timer(r.m.sound), ..r.m })
    }
}

/// How an executed instruction's outcome reads back: the state is the one
/// spec_exec gives and the fault kinds agree.
pub open spec fn exec_matches(
    pre: MachineView, post: MachineView, fault: Option<FaultKind>, ins: Instr, rnd: u8,
) -> bool {
    let e = spec_exec(pre, ins, rnd);
    post == e.m && fault == e.fault
}

/// The fault kind of an instruction-level result.
pub open spec fn err_of(r: Result<(), FaultKind>) -> Option<FaultKind> {
    match r {
        Ok(_) => None,
        Err(k) => Some(k),
    }
}

/// How a cycle-level result reads back: Ok on None, and on a fault an Err
/// carrying the kind and the program counter of the faulting instruction.
pub open spec fn res_matches(r: Result<(), Fault>, fault: Option<FaultKind>, pc: u16) -> bool {
    match fault {
        None => r == Ok::<(), Fault>(()),
        Some(k) => r == Err::<(), Fault>(Fault { kind: k, pc }),
    }
}

/// The contract of one executed cycle, for one drawn random byte.
pub open spec fn step_matches(
    pre: MachineView, post: MachineView, r: Result<(), Fault>, rnd: u8,
) -> bool {
    let s = spec_step(pre, rnd);
    post == s.m && res_matches(r, s.fault, pre.pc)
}

/// The contract of one executed frame, for one sequence of drawn bytes.
pub open spec fn tick_matches(
    pre: MachineView, post: MachineView, r: Result<(), Fault>, rnds: Seq<u8>,
) -> bool {
    let t = spec_tick(pre, rnds);
    rnds.len() == pre.config.tick_rate as nat && post == t.m && res_matches(r, t.fault, t.m.pc)
}

/// Running a + b cycles is running a, then — unless a cycle faulted — b
/// more on what came out, with the random bytes split accordingly.
pub proof fn lemma_run_add(m: MachineView, a: nat, b: nat, ra: Seq<u8>, rb: Seq<u8>)
    requires
        ra.len() == a,
    ensures
        spec_run(m, a + b, ra + rb) == ({
            let q = spec_run(m, a, ra);
            if q.fault is Some { q } else { spec_run(q.m, b, rb) }
        }),
    decreases a,
{
    if a == 0 {
        assert(ra + rb =~= rb);
        assert(spec_run(m, 0, ra) == step_ok(m));
    } else {
        let r0 = spec_step(m, ra[0]);
        assert((ra + rb)[0] == ra[0]);
        if r0.fault is Some {
        } else {
            assert((ra + rb).drop_first() =~= ra.drop_first() + rb);
            lemma_run_add(r0.m, (a - 1) as nat, b, ra.drop_first(), rb);
        }
    }
}

} // verus!
