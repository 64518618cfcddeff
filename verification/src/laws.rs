use vstd::prelude::*;

use crate::cycle::dec_timer;
use crate::cycle::fetched_op;
use crate::cycle::spec_exec;
use crate::cycle::spec_run;
use crate::cycle::spec_step;
use crate::cycle::spec_tick;
use crate::fault::FaultKind;
use crate::instr::Instr;
use crate::instr::spec_decode;
use crate::machine::Config;
use crate::machine::MachineView;
use crate::machine::spec_fresh;
use crate::screen::flips;
use crate::screen::spec_draw;
use crate::screen::ScreenView;

verus! {

/// Writing a byte and reading it back returns the written value, and no
/// other address changes. Together with the contracts of `Chip8::write`
/// and `Chip8::read` — which state that an in-range write updates exactly
/// this model and an in-range read returns exactly this model's byte, and
/// that any out-of-range address is refused with OutOfBoundsAddress — this
/// is the memory round-trip law.
pub proof fn lemma_write_then_read(mem: Seq<u8>, address: int, value: u8)
    requires
        0 <= address < mem.len(),
    ensures
        mem.update(address, value)[address] == value,
        forall|b: int| 0 <= b < mem.len() && b != address
            ==> mem.update(address, value)[b] == mem[b],
{
}

/// A loaded ROM is resident: right after `load_rom` (whose contract says
/// the state is `spec_fresh(config, rom)`) memory at the load address holds
/// exactly the ROM bytes; and since the fresh state keeps the ROM, a later
/// `reset` — which yields `spec_fresh` of the kept ROM — restores the very
/// same state without the bytes being supplied again.
pub proof fn lemma_loaded_rom_resident(config: Config, rom: Seq<u8>)
    requires
        rom.len() <= 3584,
    ensures
        forall|k: int| 0 <= k < rom.len()
            ==> spec_fresh(config, rom).mem[0x200 + k] == rom[k],
        spec_fresh(config, rom).rom == rom,
        spec_fresh(config, spec_fresh(config, rom).rom) == spec_fresh(config, rom),
{
}

/// Drawing the same sprite at the same spot twice restores the screen, and
/// the second draw reports a collision exactly when the first draw turned
/// some pixel on — that is, when some sprite bit lands on a pixel that was
/// off before the first draw.
pub proof fn lemma_draw_twice_restores(s: ScreenView, x0: int, y0: int, sprite: Seq<u8>)
    requires
        s.wf(),
        0 <= x0,
        0 <= y0,
        sprite.len() <= 16,
    ensures
        spec_draw(spec_draw(s, x0, y0, sprite).s, x0, y0, sprite).s == s,
        spec_draw(spec_draw(s, x0, y0, sprite).s, x0, y0, sprite).collision <==> exists|j: int|
            0 <= j < s.px.len() && !s.px[j]
                && #[trigger] flips(s.width, s.height, x0 % s.width, y0 % s.height, sprite, j),
{
    let bx = x0 % s.width;
    let by = y0 % s.height;
    let d1 = spec_draw(s, x0, y0, sprite);
    let d2 = spec_draw(d1.s, x0, y0, sprite);
    assert forall|j: int| 0 <= j < s.px.len() implies d2.s.px[j] == s.px[j] by {
        assert(d1.s.px[j] == (s.px[j] != flips(s.width, s.height, bx, by, sprite, j)));
    }
    assert(d2.s.px =~= s.px);
    assert(d2.s =~= s);
    if d2.collision {
        let j0 = choose|j: int|
            0 <= j < d1.s.px.len() && d1.s.px[j]
                && #[trigger] flips(d1.s.width, d1.s.height, bx, by, sprite, j);
        assert(d1.s.px[j0] == (s.px[j0] != flips(s.width, s.height, bx, by, sprite, j0)));
        assert(!s.px[j0] && flips(s.width, s.height, bx, by, sprite, j0));
    }
    if exists|j: int|
        0 <= j < s.px.len() && !s.px[j]
            && #[trigger] flips(s.width, s.height, bx, by, sprite, j) {
        let j1 = choose|j: int|
            0 <= j < s.px.len() && !s.px[j]
                && #[trigger] flips(s.width, s.height, bx, by, sprite, j);
        assert(d1.s.px[j1] == (s.px[j1] != flips(s.width, s.height, bx, by, sprite, j1)));
        assert(d1.s.px[j1] && flips(d1.s.width, d1.s.height, bx, by, sprite, j1));
    }
}

/// Whether a decoded instruction is the one that writes the delay timer.
pub open spec fn is_write_delay(oi: Option<Instr>) -> bool {
    match oi {
        Some(Instr::WriteDelay { x }) => true,
        _ => false,
    }
}

/// Timer monotonicity, per cycle: no instruction but Fx15 writes the delay
/// timer, so a cycle whose fetched word is not Fx15 leaves it untouched.
/// The tick contract then decrements it by exactly one per frame, through
/// `dec_timer`, which takes each value down by one until 0 and then holds
/// it at 0.
pub proof fn lemma_step_keeps_delay(m: MachineView, rnd: u8)
    requires
        !is_write_delay(spec_decode(fetched_op(m))),
    ensures
        spec_step(m, rnd).m.delay == m.delay,
{
}

/// Whether a run of n cycles from m never fetches the delay-writing
/// instruction Fx15, along whichever path it actually takes.
pub open spec fn no_delay_write_run(m: MachineView, n: nat, rnds: Seq<u8>) -> bool
    decreases n,
{
    if n == 0 {
        true
    } else {
        &&& !is_write_delay(spec_decode(fetched_op(m)))
        &&& {
            let r = spec_step(m, rnds[0]);
            r.fault is Some || no_delay_write_run(r.m, (n - 1) as nat, rnds.drop_first())
        }
    }
}

/// Timer monotonicity over a run: when no executed cycle writes the delay
/// timer, the run leaves it untouched.
pub proof fn lemma_run_keeps_delay(m: MachineView, n: nat, rnds: Seq<u8>)
    requires
        no_delay_write_run(m, n, rnds),
    ensures
        spec_run(m, n, rnds).m.delay == m.delay,
    decreases n,
{
    if n != 0 {
        let r = spec_step(m, rnds[0]);
        lemma_step_keeps_delay(m, rnds[0]);
        if r.fault is None {
            lemma_run_keeps_delay(r.m, (n - 1) as nat, rnds.drop_first());
        }
    }
}

/// Timer monotonicity over a whole frame: when no executed cycle writes
/// the delay timer, a completed tick takes it down by exactly one until 0
/// and then holds it at 0; a faulted tick leaves it untouched.
pub proof fn lemma_tick_delay_monotonic(m: MachineView, rnds: Seq<u8>)
    requires
        no_delay_write_run(m, m.config.tick_rate as nat, rnds),
    ensures
        spec_tick(m, rnds).fault is None
            ==> spec_tick(m, rnds).m.delay == dec_timer(m.delay),
        spec_tick(m, rnds).fault is Some ==> spec_tick(m, rnds).m.delay == m.delay,
{
    lemma_run_keeps_delay(m, m.config.tick_rate as nat, rnds);
}

/// Stack discipline: a call faults with StackOverflow exactly when the
/// stack already holds 16 return addresses, and otherwise pushes one; a
/// return faults with StackUnderflow exactly on an empty stack, and
/// otherwise pops the last address into the program counter.
pub proof fn lemma_stack_discipline(m: MachineView, nnn: u16, rnd: u8)
    ensures
        spec_exec(m, Instr::Call { nnn }, rnd).fault == (
            if m.stack.len() >= 16 { Some(FaultKind::StackOverflow) } else { None::<FaultKind> }),
        m.stack.len() < 16
            ==> spec_exec(m, Instr::Call { nnn }, rnd).m.stack == m.stack.push(m.pc)
                && spec_exec(m, Instr::Call { nnn }, rnd).m.pc == nnn,
        spec_exec(m, Instr::Ret, rnd).fault == (
            if m.stack.len() == 0 { Some(FaultKind::StackUnderflow) } else { None::<FaultKind> }),
        m.stack.len() > 0
            ==> spec_exec(m, Instr::Ret, rnd).m.stack == m.stack.drop_last()
                && spec_exec(m, Instr::Ret, rnd).m.pc == m.stack.last(),
{
}

/// A faulting cycle changes nothing: the state after it — the program
/// counter included, so it still points at the faulting instruction — is
/// the state before it.
pub proof fn lemma_fault_keeps_state(m: MachineView, rnd: u8)
    ensures
        spec_step(m, rnd).fault is Some ==> spec_step(m, rnd).m == m,
{
}

} // verus!
