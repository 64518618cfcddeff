use vstd::prelude::*;

use crate::cycle::dec_timer;
use crate::cycle::err_of;
use crate::cycle::exec_matches;
use crate::cycle::first_key;
use crate::cycle::lemma_run_add;
use crate::cycle::spec_exec;
use crate::cycle::spec_run;
use crate::cycle::spec_step;
use crate::cycle::step_matches;
use crate::cycle::tick_matches;
use crate::cycle::StepEffect;
use crate::fault::Fault;
use crate::fault::FaultKind;
use crate::instr::decode;
use crate::instr::instr_bounds;
use crate::instr::Instr;
use crate::rng::random_byte;
use crate::screen::Screen;
use crate::screen::ScreenView;

verus! {

/// Settings of the interpreter. `tick_rate` is how many instruction cycles
/// one call to `tick` executes before the single timer decrement; the
/// default of 10 approximates 600 instructions per second at a 60 Hz host
/// frame rate, and running fewer severely under-runs real ROM expectations.
/// The two quirk flags select between historically divergent behaviours of
/// the shift and register-block instructions; both default to the modern
/// (Super-CHIP era) choice.
#[derive(Clone, Copy, Debug, PartialEq, Eq, Structural)]
pub struct Config {
    /// Instruction cycles per tick (default 10).
    pub tick_rate: u32,
    /// When true, 8xy6/8xyE shift Vy into Vx (the original interpreter);
    /// when false they shift Vx in place (default).
    pub shift_reads_vy: bool,
    /// When true, Fx55/Fx65 leave I incremented by x+1 (the original
    /// interpreter); when false I is unchanged (default).
    pub block_ops_increment_index: bool,
}

/// The default configuration: 10 cycles per tick, modern quirk choices.
pub open spec fn default_config() -> Config {
    Config { tick_rate: 10, shift_reads_vy: false, block_ops_increment_index: false }
}

impl Default for Config {
    fn default() -> (c: Config)
        ensures
            c == default_config(),
    {
        Config { tick_rate: 10, shift_reads_vy: false, block_ops_increment_index: false }
    }
}

/// Mathematical model of the whole machine state.
#[verifier::ext_equal]
pub struct MachineView {
    /// The 4096 bytes of memory.
    pub mem: Seq<u8>,
    /// The sixteen 8-bit registers V0..VF; VF (index 15) doubles as the
    /// carry, borrow and collision flag.
    pub v: Seq<u8>,
    /// The 16-bit index register I.
    pub i: u16,
    /// The 16-bit program counter.
    pub pc: u16,
    /// The bounded stack of return addresses (at most 16).
    pub stack: Seq<u16>,
    /// The delay timer, decremented once per tick until 0.
    pub delay: u8,
    /// The sound timer, decremented once per tick until 0.
    pub sound: u8,
    /// The display grid.
    pub screen: ScreenView,
    /// The 16 keypad states, true while a key is held down.
    pub keys: Seq<bool>,
    /// The bytes of the last loaded ROM, kept so reset can restore them.
    pub rom: Seq<u8>,
    /// The interpreter settings.
    pub config: Config,
}

/// Size of the memory in bytes.
pub open spec fn mem_size() -> int { 4096 }

/// The address programs load at.
pub open spec fn rom_base() -> int { 0x200 }

/// The address the built-in font sprites load at.
pub open spec fn font_base() -> int { 0x50 }

impl MachineView {
    /// Structural well-formedness of the machine state.
    pub open spec fn wf(self) -> bool {
        &&& self.mem.len() == 4096
        &&& self.v.len() == 16
        &&& self.stack.len() <= 16
        &&& self.keys.len() == 16
        &&& self.screen.wf()
        &&& self.rom.len() <= 3584
    }
}

/// The built-in font: five bytes of sprite rows for each hex digit 0..F.
pub open spec fn font() -> Seq<u8> {
    seq![
        0xF0u8, 0x90, 0x90, 0x90, 0xF0,
        0x20, 0x60, 0x20, 0x20, 0x70,
        0xF0, 0x10, 0xF0, 0x80, 0xF0,
        0xF0, 0x10, 0xF0, 0x10, 0xF0,
        0x90, 0x90, 0xF0, 0x10, 0x10,
        0xF0, 0x80, 0xF0, 0x10, 0xF0,
        0xF0, 0x80, 0xF0, 0x90, 0xF0,
        0xF0, 0x10, 0x20, 0x40, 0x40,
        0xF0, 0x90, 0xF0, 0x90, 0xF0,
        0xF0, 0x90, 0xF0, 0x10, 0xF0,
        0xF0, 0x90, 0xF0, 0x90, 0x90,
        0xE0, 0x90, 0xE0, 0x90, 0xE0,
        0xF0, 0x80, 0x80, 0x80, 0xF0,
        0xE0, 0x90, 0x90, 0x90, 0xE0,
        0xF0, 0x80, 0xF0, 0x80, 0xF0,
        0xF0, 0x80, 0xF0, 0x80, 0x80,
    ]
}

/// Memory in its initial state: the font at `font_base`, the ROM bytes at
/// `rom_base`, and zero everywhere else.
pub open spec fn spec_init_mem(rom: Seq<u8>) -> Seq<u8> {
    Seq::new(4096, |a: int|
        if 0x50 <= a < 0xA0 { font()[a - 0x50] }
        else if 0x200 <= a < 0x200 + rom.len() { rom[a - 0x200] }
        else { 0u8 })
}

/// The machine state right after construction, `load_rom` or `reset`:
/// everything zeroed, the font and ROM resident in memory, and the program
/// counter at the load address.
pub open spec fn spec_fresh(config: Config, rom: Seq<u8>) -> MachineView {
    MachineView {
        mem: spec_init_mem(rom),
        v: Seq::new(16, |k: int| 0u8),
        i: 0,
        pc: 0x200,
        stack: Seq::empty(),
        delay: 0,
        sound: 0,
        screen: ScreenView { width: 64, height: 32, px: Seq::new(2048, |j: int| false) },
        keys: Seq::new(16, |k: int| false),
        rom: rom,
        config: config,
    }
}

/// The CHIP-8 virtual machine: all interpreter state, exclusively owned by
/// the host and mutated one tick at a time.
pub struct Chip8 {
    pub(crate) memory: Vec<u8>,
    /// The display, read by the host for rendering.
    pub screen: Screen,
    /// The interpreter settings.
    pub config: Config,
    pub(crate) v: Vec<u8>,
    pub(crate) i: u16,
    pub(crate) pc: u16,
    pub(crate) stack: Vec<u16>,
    pub(crate) delay: u8,
    pub(crate) sound: u8,
    pub(crate) keys: Vec<bool>,
    pub(crate) rom: Vec<u8>,
}

impl View for Chip8 {
    type V = MachineView;

    closed spec fn view(&self) -> MachineView {
        MachineView {
            mem: self.memory@,
            v: self.v@,
            i: self.i,
            pc: self.pc,
            stack: self.stack@,
            delay: self.delay,
            sound: self.sound,
            screen: self.screen@,
            keys: self.keys@,
            rom: self.rom@,
            config: self.config,
        }
    }
}

/// A vector of n zero bytes.
fn zero_bytes(n: usize) -> (v: Vec<u8>)
    ensures
        v@ == Seq::new(n as nat, |j: int| 0u8),
{
    let mut v: Vec<u8> = Vec::new();
    while v.len() < n
        invariant
            v@.len() <= n,
            forall|j: int| 0 <= j < v@.len() ==> v@[j] == 0u8,
        decreases n - v@.len(),
    {
        v.push(0);
    }
    proof {
        assert(v@ =~= Seq::new(n as nat, |j: int| 0u8));
    }
    v
}

/// A vector of n false cells.
fn false_cells(n: usize) -> (v: Vec<bool>)
    ensures
        v@ == Seq::new(n as nat, |j: int| false),
{
    let mut v: Vec<bool> = Vec::new();
    while v.len() < n
        invariant
            v@.len() <= n,
            forall|j: int| 0 <= j < v@.len() ==> !v@[j],
        decreases n - v@.len(),
    {
        v.push(false);
    }
    proof {
        assert(v@ =~= Seq::new(n as nat, |j: int| false));
    }
    v
}

/// The font bytes as a vector.
fn font_data() -> (v: Vec<u8>)
    ensures
        v@ == font(),
{
    let v: Vec<u8> = vec![
        0xF0, 0x90, 0x90, 0x90, 0xF0,
        0x20, 0x60, 0x20, 0x20, 0x70,
        0xF0, 0x10, 0xF0, 0x80, 0xF0,
        0xF0, 0x10, 0xF0, 0x10, 0xF0,
        0x90, 0x90, 0xF0, 0x10, 0x10,
        0xF0, 0x80, 0xF0, 0x10, 0xF0,
        0xF0, 0x80, 0xF0, 0x90, 0xF0,
        0xF0, 0x10, 0x20, 0x40, 0x40,
        0xF0, 0x90, 0xF0, 0x90, 0xF0,
        0xF0, 0x90, 0xF0, 0x10, 0xF0,
        0xF0, 0x90, 0xF0, 0x90, 0x90,
        0xE0, 0x90, 0xE0, 0x90, 0xE0,
        0xF0, 0x80, 0x80, 0x80, 0xF0,
        0xE0, 0x90, 0x90, 0x90, 0xE0,
        0xF0, 0x80, 0xF0, 0x80, 0xF0,
        0xF0, 0x80, 0xF0, 0x80, 0x80,
    ];
    proof {
        assert(v@ =~= font());
    }
    v
}

/// Memory in its initial state for the given ROM.
fn fresh_memory(rom: &Vec<u8>) -> (m: Vec<u8>)
    requires
        rom@.len() <= 3584,
    ensures
        m@ == spec_init_mem(rom@),
{
    let mut m = zero_bytes(4096);
    let f = font_data();
    for k in 0..80usize
        invariant
            m@.len() == 4096,
            f@ == font(),
            forall|a: int| 0 <= a < 4096 ==> m@[a] == (
                if 0x50 <= a < 0x50 + k { font()[a - 0x50] } else { 0u8 }),
    {
        m[0x50 + k] = f[k];
    }
    let nr = rom.len();
    for k in 0..nr
        invariant
            m@.len() == 4096,
            nr == rom@.len(),
            nr <= 3584,
            forall|a: int| 0 <= a < 4096 ==> m@[a] == (
                if 0x50 <= a < 0xA0 { font()[a - 0x50] }
                else if 0x200 <= a < 0x200 + k { rom@[a - 0x200] }
                else { 0u8 }),
    {
        m[0x200 + k] = rom[k];
    }
    proof {
        assert(m@ =~= spec_init_mem(rom@));
    }
    m
}

impl Chip8 {
    /// Structural well-formedness; established by the constructors and
    /// preserved by every operation.
    pub open spec fn wf(&self) -> bool {
        self@.wf()
    }

    /// A machine with the given settings, no ROM loaded, and the program
    /// counter at the load address.
    pub fn new(config: Config) -> (c: Chip8)
        ensures
            c.wf(),
            c@ == spec_fresh(config, Seq::empty()),
    {
        let rom: Vec<u8> = Vec::new();
        let memory = fresh_memory(&rom);
        let c = Chip8 {
            memory,
            screen: Screen::new(),
            config,
            v: zero_bytes(16),
            i: 0,
            pc: 0x200,
            stack: Vec::new(),
            delay: 0,
            sound: 0,
            keys: false_cells(16),
            rom,
        };
        proof {
            assert(c@.rom =~= Seq::<u8>::empty());
            assert(c@.mem =~= spec_init_mem(Seq::empty()));
            assert(c@ =~= spec_fresh(config, Seq::empty()));
        }
        c
    }

    /// Re-initialize every part of the state, keeping the settings and the
    /// last loaded ROM, which is copied back into memory.
    pub fn reset(&mut self)
        requires
            old(self).wf(),
        ensures
            final(self).wf(),
            final(self)@ == spec_fresh(old(self)@.config, old(self)@.rom),
    {
        let memory = fresh_memory(&self.rom);
        self.memory = memory;
        self.screen.clear();
        self.v = zero_bytes(16);
        self.i = 0;
        self.pc = 0x200;
        self.stack = Vec::new();
        self.delay = 0;
        self.sound = 0;
        self.keys = false_cells(16);
        proof {
            assert(self@.screen.px =~= spec_fresh(old(self)@.config, old(self)@.rom).screen.px);
            assert(self@.screen =~= spec_fresh(old(self)@.config, old(self)@.rom).screen);
            assert(self@.stack =~= Seq::<u16>::empty());
            assert(self@ =~= spec_fresh(old(self)@.config, old(self)@.rom));
        }
    }

    /// Load a ROM: re-initialize the state as `reset` does and copy the
    /// bytes to the load address. A ROM longer than the 3584 bytes between
    /// the load address and the end of memory is refused with RomTooLarge
    /// and the machine is left unchanged.
    pub fn load_rom(&mut self, data: &[u8]) -> (r: Result<(), Fault>)
        requires
            old(self).wf(),
        ensures
            final(self).wf(),
            data@.len() <= 3584 ==> r == Ok::<(), Fault>(())
                && final(self)@ == spec_fresh(old(self)@.config, data@),
            data@.len() > 3584 ==> r == Err::<(), Fault>(
                Fault { kind: FaultKind::RomTooLarge, pc: old(self)@.pc })
                && final(self)@ == old(self)@,
    {
        if data.len() > 3584 {
            return Err(Fault { kind: FaultKind::RomTooLarge, pc: self.pc });
        }
        let nd = data.len();
        let mut rom: Vec<u8> = Vec::new();
        for k in 0..nd
            invariant
                nd == data@.len(),
                rom@.len() == k,
                forall|j: int| 0 <= j < k ==> rom@[j] == data@[j],
        {
            rom.push(data[k]);
        }
        proof {
            assert(rom@ =~= data@);
        }
        self.rom = rom;
        self.reset();
        Ok(())
    }

    /// Replace the keypad state wholesale.
    pub fn set_input(&mut self, keys_pressed: [bool; 16])
        requires
            old(self).wf(),
        ensures
            final(self).wf(),
            final(self)@ == (MachineView { keys: keys_pressed@, ..old(self)@ }),
    {
        let mut ks: Vec<bool> = Vec::new();
        for k in 0..16usize
            invariant
                ks@.len() == k,
                forall|j: int| 0 <= j < k ==> ks@[j] == keys_pressed@[j],
        {
            ks.push(keys_pressed[k]);
        }
        self.keys = ks;
        proof {
            assert(self@.keys =~= keys_pressed@);
            assert(self@ =~= (MachineView { keys: keys_pressed@, ..old(self)@ }));
        }
    }

    /// Whether the host should be emitting a tone this tick.
    pub fn should_play_sound(&self) -> (r: bool)
        ensures
            r == (self@.sound > 0),
    {
        self.sound > 0
    }

    /// Read the byte at `address`; an address outside memory is refused
    /// with OutOfBoundsAddress.
    pub fn read(&self, address: usize) -> (r: Result<u8, Fault>)
        requires
            self.wf(),
        ensures
            address < 4096 ==> r == Ok::<u8, Fault>(self@.mem[address as int]),
            address >= 4096 ==> r == Err::<u8, Fault>(
                Fault { kind: FaultKind::OutOfBoundsAddress, pc: self@.pc }),
    {
        if address >= 4096 {
            return Err(Fault { kind: FaultKind::OutOfBoundsAddress, pc: self.pc });
        }
        Ok(self.memory[address])
    }

    /// Write a byte at `address`; an address outside memory is refused
    /// with OutOfBoundsAddress and nothing changes.
    pub fn write(&mut self, address: usize, data: u8) -> (r: Result<(), Fault>)
        requires
            old(self).wf(),
        ensures
            final(self).wf(),
            address < 4096 ==> r == Ok::<(), Fault>(())
                && final(self)@ == (MachineView {
                    mem: old(self)@.mem.update(address as int, data),
                    ..old(self)@
                }),
            address >= 4096 ==> r == Err::<(), Fault>(
                Fault { kind: FaultKind::OutOfBoundsAddress, pc: old(self)@.pc })
                && final(self)@ == old(self)@,
    {
        if address >= 4096 {
            return Err(Fault { kind: FaultKind::OutOfBoundsAddress, pc: self.pc });
        }
        self.memory[address] = data;
        proof {
            assert(self@ =~= (MachineView {
                mem: old(self)@.mem.update(address as int, data),
                ..old(self)@
            }));
        }
        Ok(())
    }

    /// Push a return address; a seventeenth entry is refused with
    /// StackOverflow and nothing changes.
    pub fn stack_push(&mut self, value: u16) -> (r: Result<(), Fault>)
        requires
            old(self).wf(),
        ensures
            final(self).wf(),
            old(self)@.stack.len() < 16 ==> r == Ok::<(), Fault>(())
                && final(self)@ == (MachineView {
                    stack: old(self)@.stack.push(value),
                    ..old(self)@
                }),
            old(self)@.stack.len() >= 16 ==> r == Err::<(), Fault>(
                Fault { kind: FaultKind::StackOverflow, pc: old(self)@.pc })
                && final(self)@ == old(self)@,
    {
        if self.stack.len() >= 16 {
            return Err(Fault { kind: FaultKind::StackOverflow, pc: self.pc });
        }
        self.stack.push(value);
        proof {
            assert(self@ =~= (MachineView { stack: old(self)@.stack.push(value), ..old(self)@ }));
        }
        Ok(())
    }

    /// Pop a return address; popping an empty stack is refused with
    /// StackUnderflow and nothing changes.
    pub fn stack_pop(&mut self) -> (r: Result<u16, Fault>)
        requires
            old(self).wf(),
        ensures
            final(self).wf(),
            old(self)@.stack.len() > 0 ==> r == Ok::<u16, Fault>(old(self)@.stack.last())
                && final(self)@ == (MachineView {
                    stack: old(self)@.stack.drop_last(),
                    ..old(self)@
                }),
            old(self)@.stack.len() == 0 ==> r == Err::<u16, Fault>(
                Fault { kind: FaultKind::StackUnderflow, pc: old(self)@.pc })
                && final(self)@ == old(self)@,
    {
        if self.stack.len() == 0 {
            return Err(Fault { kind: FaultKind::StackUnderflow, pc: self.pc });
        }
        let value = self.stack.pop().unwrap();
        proof {
            assert(self@ =~= (MachineView { stack: old(self)@.stack.drop_last(), ..old(self)@ }));
        }
        Ok(value)
    }

    /// The program counter.
    pub fn pc(&self) -> (r: u16)
        ensures
            r == self@.pc,
    {
        self.pc
    }

    /// The index register I.
    pub fn index(&self) -> (r: u16)
        ensures
            r == self@.i,
    {
        self.i
    }

    /// The register Vx.
    pub fn reg(&self, x: usize) -> (r: u8)
        requires
            self.wf(),
            x < 16,
        ensures
            r == self@.v[x as int],
    {
        self.v[x]
    }

    /// The delay timer.
    pub fn delay_timer(&self) -> (r: u8)
        ensures
            r == self@.delay,
    {
        self.delay
    }

    /// The sound timer.
    pub fn sound_timer(&self) -> (r: u8)
        ensures
            r == self@.sound,
    {
        self.sound
    }

    /// How many pixels wide the display is.
    pub fn display_width(&self) -> (r: usize)
        requires
            self.wf(),
        ensures
            r == self@.screen.width,
    {
        proof {
            self.screen.lemma_dims();
        }
        self.screen.width
    }

    /// How many pixels high the display is.
    pub fn display_height(&self) -> (r: usize)
        requires
            self.wf(),
        ensures
            r == self@.screen.height,
    {
        proof {
            self.screen.lemma_dims();
        }
        self.screen.height
    }

    /// The pixel at column x, row y.
    pub fn pixel_at(&self, x: usize, y: usize) -> (b: bool)
        requires
            self.wf(),
            x < self@.screen.width,
            y < self@.screen.height,
        ensures
            b == self@.screen.pixel(x as int, y as int),
    {
        self.screen.get_pixel(x, y)
    }
}

impl Chip8 {
    /// Execute one already-decoded instruction on a state whose program
    /// counter has moved past it. A faulting instruction changes nothing.
    fn exec_instr(&mut self, ins: Instr) -> (r: Result<(), FaultKind>)
        requires
            old(self).wf(),
            instr_bounds(ins),
            2 <= old(self)@.pc <= 4096,
        ensures
            final(self).wf(),
            exists|rnd: u8| #[trigger] exec_matches(old(self)@, final(self)@, err_of(r), ins, rnd),
    {
        match ins {
            Instr::Cls => {
                self.screen.clear();
                proof {
                    assert(self@ =~~= spec_exec(old(self)@, ins, 0u8).m);
                    assert(exec_matches(old(self)@, self@, err_of(Ok::<(), FaultKind>(())), ins, 0u8));
                }
                Ok(())
            },
            Instr::Ret => {
                if self.stack.len() == 0 {
                    proof {
                        assert(exec_matches(old(self)@, self@,
                            err_of(Err::<(), FaultKind>(FaultKind::StackUnderflow)), ins, 0u8));
                    }
                    return Err(FaultKind::StackUnderflow);
                }
                let a = self.stack.pop().unwrap();
                self.pc = a;
                proof {
                    assert(self@ =~~= spec_exec(old(self)@, ins, 0u8).m);
                    assert(exec_matches(old(self)@, self@, err_of(Ok::<(), FaultKind>(())), ins, 0u8));
                }
                Ok(())
            },
            Instr::Jump { nnn } => {
                self.pc = nnn;
                proof {
                    assert(self@ =~~= spec_exec(old(self)@, ins, 0u8).m);
                    assert(exec_matches(old(self)@, self@, err_of(Ok::<(), FaultKind>(())), ins, 0u8));
                }
                Ok(())
            },
            Instr::Call { nnn } => {
                if self.stack.len() >= 16 {
                    proof {
                        assert(exec_matches(old(self)@, self@,
                            err_of(Err::<(), FaultKind>(FaultKind::StackOverflow)), ins, 0u8));
                    }
                    return Err(FaultKind::StackOverflow);
                }
                self.stack.push(self.pc);
                self.pc = nnn;
                proof {
                    assert(self@ =~~= spec_exec(old(self)@, ins, 0u8).m);
                    assert(exec_matches(old(self)@, self@, err_of(Ok::<(), FaultKind>(())), ins, 0u8));
                }
                Ok(())
            },
            Instr::SkipEqImm { x, kk } => {
                if self.v[x as usize] == kk {
                    self.pc = self.pc + 2;
                }
                proof {
                    assert(self@ =~~= spec_exec(old(self)@, ins, 0u8).m);
                    assert(exec_matches(old(self)@, self@, err_of(Ok::<(), FaultKind>(())), ins, 0u8));
                }
                Ok(())
            },
            Instr::SkipNeImm { x, kk } => {
                if self.v[x as usize] != kk {
                    self.pc = self.pc + 2;
                }
                proof {
                    assert(self@ =~~= spec_exec(old(self)@, ins, 0u8).m);
                    assert(exec_matches(old(self)@, self@, err_of(Ok::<(), FaultKind>(())), ins, 0u8));
                }
                Ok(())
            },
            Instr::SkipEqReg { x, y } => {
                if self.v[x as usize] == self.v[y as usize] {
                    self.pc = self.pc + 2;
                }
                proof {
                    assert(self@ =~~= spec_exec(old(self)@, ins, 0u8).m);
                    assert(exec_matches(old(self)@, self@, err_of(Ok::<(), FaultKind>(())), ins, 0u8));
                }
                Ok(())
            },
            Instr::SkipNeReg { x, y } => {
                if self.v[x as usize] != self.v[y as usize] {
                    self.pc = self.pc + 2;
                }
                proof {
                    assert(self@ =~~= spec_exec(old(self)@, ins, 0u8).m);
                    assert(exec_matches(old(self)@, self@, err_of(Ok::<(), FaultKind>(())), ins, 0u8));
                }
                Ok(())
            },
            Instr::LoadImm { x, kk } => {
                self.v[x as usize] = kk;
                proof {
                    assert(self@ =~~= spec_exec(old(self)@, ins, 0u8).m);
                    assert(exec_matches(old(self)@, self@, err_of(Ok::<(), FaultKind>(())), ins, 0u8));
                }
                Ok(())
            },
            Instr::AddImm { x, kk } => {
                let sum: u16 = self.v[x as usize] as u16 + kk as u16;
                self.v[x as usize] = (sum % 256) as u8;
                proof {
                    assert(self@ =~~= spec_exec(old(self)@, ins, 0u8).m);
                    assert(exec_matches(old(self)@, self@, err_of(Ok::<(), FaultKind>(())), ins, 0u8));
                }
                Ok(())
            },
            Instr::CopyReg { x, y } => {
                self.v[x as usize] = self.v[y as usize];
                proof {
                    assert(self@ =~~= spec_exec(old(self)@, ins, 0u8).m);
                    assert(exec_matches(old(self)@, self@, err_of(Ok::<(), FaultKind>(())), ins, 0u8));
                }
                Ok(())
            },
            Instr::OrReg { x, y } => {
                self.v[x as usize] = self.v[x as usize] | self.v[y as usize];
                proof {
                    assert(self@ =~~= spec_exec(old(self)@, ins, 0u8).m);
                    assert(exec_matches(old(self)@, self@, err_of(Ok::<(), FaultKind>(())), ins, 0u8));
                }
                Ok(())
            },
            Instr::AndReg { x, y } => {
                self.v[x as usize] = self.v[x as usize] & self.v[y as usize];
                proof {
                    assert(self@ =~~= spec_exec(old(self)@, ins, 0u8).m);
                    assert(exec_matches(old(self)@, self@, err_of(Ok::<(), FaultKind>(())), ins, 0u8));
                }
                Ok(())
            },
            Instr::XorReg { x, y } => {
                self.v[x as usize] = self.v[x as usize] ^ self.v[y as usize];
                proof {
                    assert(self@ =~~= spec_exec(old(self)@, ins, 0u8).m);
                    assert(exec_matches(old(self)@, self@, err_of(Ok::<(), FaultKind>(())), ins, 0u8));
                }
                Ok(())
            },
            Instr::AddReg { x, y } => {
                let s: u16 = self.v[x as usize] as u16 + self.v[y as usize] as u16;
                self.v[x as usize] = (s % 256) as u8;
                self.v[15] = if s > 255 { 1 } else { 0 };
                proof {
                    assert(self@ =~~= spec_exec(old(self)@, ins, 0u8).m);
                    assert(exec_matches(old(self)@, self@, err_of(Ok::<(), FaultKind>(())), ins, 0u8));
                }
                Ok(())
            },
            Instr::SubReg { x, y } => {
                let a = self.v[x as usize];
                let b = self.v[y as usize];
                let d: u16 = a as u16 + 256 - b as u16;
                self.v[x as usize] = (d % 256) as u8;
                self.v[15] = if a >= b { 1 } else { 0 };
                proof {
                    assert(self@ =~~= spec_exec(old(self)@, ins, 0u8).m);
                    assert(exec_matches(old(self)@, self@, err_of(Ok::<(), FaultKind>(())), ins, 0u8));
                }
                Ok(())
            },
            Instr::ShrReg { x, y } => {
                let src = if self.config.shift_reads_vy {
                    self.v[y as usize]
                } else {
                    self.v[x as usize]
                };
                self.v[x as usize] = src / 2;
                self.v[15] = src % 2;
                proof {
                    assert(self@ =~~= spec_exec(old(self)@, ins, 0u8).m);
                    assert(exec_matches(old(self)@, self@, err_of(Ok::<(), FaultKind>(())), ins, 0u8));
                }
                Ok(())
            },
            Instr::SubRevReg { x, y } => {
                let a = self.v[x as usize];
                let b = self.v[y as usize];
                let d: u16 = b as u16 + 256 - a as u16;
                self.v[x as usize] = (d % 256) as u8;
                self.v[15] = if b >= a { 1 } else { 0 };
                proof {
                    assert(self@ =~~= spec_exec(old(self)@, ins, 0u8).m);
                    assert(exec_matches(old(self)@, self@, err_of(Ok::<(), FaultKind>(())), ins, 0u8));
                }
                Ok(())
            },
            Instr::ShlReg { x, y } => {
                let src = if self.config.shift_reads_vy {
                    self.v[y as usize]
                } else {
                    self.v[x as usize]
                };
                let dbl: u16 = src as u16 * 2;
                self.v[x as usize] = (dbl % 256) as u8;
                self.v[15] = src / 128;
                proof {
                    assert(self@ =~~= spec_exec(old(self)@, ins, 0u8).m);
                    assert(exec_matches(old(self)@, self@, err_of(Ok::<(), FaultKind>(())), ins, 0u8));
                }
                Ok(())
            },
            Instr::LoadIndex { nnn } => {
                self.i = nnn;
                proof {
                    assert(self@ =~~= spec_exec(old(self)@, ins, 0u8).m);
                    assert(exec_matches(old(self)@, self@, err_of(Ok::<(), FaultKind>(())), ins, 0u8));
                }
                Ok(())
            },
            Instr::JumpOffset { nnn } => {
                self.pc = nnn + self.v[0] as u16;
                proof {
                    assert(self@ =~~= spec_exec(old(self)@, ins, 0u8).m);
                    assert(exec_matches(old(self)@, self@, err_of(Ok::<(), FaultKind>(())), ins, 0u8));
                }
                Ok(())
            },
            Instr::Rand { x, kk } => {
                let rb = random_byte();
                self.v[x as usize] = rb & kk;
                proof {
                    assert(self@ =~~= spec_exec(old(self)@, ins, rb).m);
                    assert(exec_matches(old(self)@, self@, err_of(Ok::<(), FaultKind>(())), ins, rb));
                }
                Ok(())
            },
            Instr::Draw { x, y, n } => {
                let ii = self.i as usize;
                let nn = n as usize;
                if ii + nn > 4096 {
                    proof {
                        assert(exec_matches(old(self)@, self@,
                            err_of(Err::<(), FaultKind>(FaultKind::OutOfBoundsAddress)), ins, 0u8));
                    }
                    return Err(FaultKind::OutOfBoundsAddress);
                }
                let mut sprite: Vec<u8> = Vec::new();
                for k in 0..nn
                    invariant
                        nn <= 16,
                        ii + nn <= 4096,
                        self.wf(),
                        self@ == old(self)@,
                        ii == self@.i as int,
                        sprite@.len() == k,
                        forall|j: int| 0 <= j < k ==> sprite@[j] == self@.mem[ii + j],
                {
                    sprite.push(self.memory[ii + k]);
                }
                proof {
                    assert(sprite@ =~= old(self)@.mem.subrange(ii as int, ii + nn));
                }
                let x0 = self.v[x as usize] as usize;
                let y0 = self.v[y as usize] as usize;
                let col = self.screen.draw_sprite(x0, y0, &sprite);
                self.v[15] = if col { 1 } else { 0 };
                proof {
                    assert(self@ =~~= spec_exec(old(self)@, ins, 0u8).m);
                    assert(exec_matches(old(self)@, self@, err_of(Ok::<(), FaultKind>(())), ins, 0u8));
                }
                Ok(())
            },
            Instr::SkipKey { x } => {
                let key = (self.v[x as usize] % 16) as usize;
                if self.keys[key] {
                    self.pc = self.pc + 2;
                }
                proof {
                    assert(self@ =~~= spec_exec(old(self)@, ins, 0u8).m);
                    assert(exec_matches(old(self)@, self@, err_of(Ok::<(), FaultKind>(())), ins, 0u8));
                }
                Ok(())
            },
            Instr::SkipNoKey { x } => {
                let key = (self.v[x as usize] % 16) as usize;
                if !self.keys[key] {
                    self.pc = self.pc + 2;
                }
                proof {
                    assert(self@ =~~= spec_exec(old(self)@, ins, 0u8).m);
                    assert(exec_matches(old(self)@, self@, err_of(Ok::<(), FaultKind>(())), ins, 0u8));
                }
                Ok(())
            },
            Instr::ReadDelay { x } => {
                self.v[x as usize] = self.delay;
                proof {
                    assert(self@ =~~= spec_exec(old(self)@, ins, 0u8).m);
                    assert(exec_matches(old(self)@, self@, err_of(Ok::<(), FaultKind>(())), ins, 0u8));
                }
                Ok(())
            },
            Instr::WaitKey { x } => {
                let mut found: usize = 16;
                let mut k: usize = 0;
                while k < 16
                    invariant
                        self.wf(),
                        self@ == old(self)@,
                        k <= 16,
                        found <= 16,
                        found == 16 ==> first_key(self@.keys, 0) == first_key(self@.keys, k as int),
                        found < 16 ==> first_key(self@.keys, 0) == found as int,
                    decreases 16 - k,
                {
                    proof {
                        if found == 16 {
                            if self@.keys[k as int] {
                                assert(first_key(self@.keys, k as int) == k as int);
                            } else {
                                assert(first_key(self@.keys, k as int)
                                    == first_key(self@.keys, k as int + 1));
                            }
                        }
                    }
                    if found == 16 && self.keys[k] {
                        found = k;
                    }
                    k = k + 1;
                }
                if found < 16 {
                    self.v[x as usize] = found as u8;
                } else {
                    proof {
                        assert(first_key(self@.keys, 16) == 16);
                    }
                    self.pc = self.pc - 2;
                }
                proof {
                    assert(self@ =~~= spec_exec(old(self)@, ins, 0u8).m);
                    assert(exec_matches(old(self)@, self@, err_of(Ok::<(), FaultKind>(())), ins, 0u8));
                }
                Ok(())
            },
            Instr::WriteDelay { x } => {
                self.delay = self.v[x as usize];
                proof {
                    assert(self@ =~~= spec_exec(old(self)@, ins, 0u8).m);
                    assert(exec_matches(old(self)@, self@, err_of(Ok::<(), FaultKind>(())), ins, 0u8));
                }
                Ok(())
            },
            Instr::WriteSound { x } => {
                self.sound = self.v[x as usize];
                proof {
                    assert(self@ =~~= spec_exec(old(self)@, ins, 0u8).m);
                    assert(exec_matches(old(self)@, self@, err_of(Ok::<(), FaultKind>(())), ins, 0u8));
                }
                Ok(())
            },
            Instr::AddIndex { x } => {
                let s: u32 = self.i as u32 + self.v[x as usize] as u32;
                self.i = (s % 0x10000) as u16;
                proof {
                    assert(self@ =~~= spec_exec(old(self)@, ins, 0u8).m);
                    assert(exec_matches(old(self)@, self@, err_of(Ok::<(), FaultKind>(())), ins, 0u8));
                }
                Ok(())
            },
            Instr::FontIndex { x } => {
                self.i = 0x50 + 5 * (self.v[x as usize] as u16);
                proof {
                    assert(self@ =~~= spec_exec(old(self)@, ins, 0u8).m);
                    assert(exec_matches(old(self)@, self@, err_of(Ok::<(), FaultKind>(())), ins, 0u8));
                }
                Ok(())
            },
            Instr::StoreBcd { x } => {
                let ii = self.i as usize;
                if ii + 3 > 4096 {
                    proof {
                        assert(exec_matches(old(self)@, self@,
                            err_of(Err::<(), FaultKind>(FaultKind::OutOfBoundsAddress)), ins, 0u8));
                    }
                    return Err(FaultKind::OutOfBoundsAddress);
                }
                let b = self.v[x as usize];
                self.memory[ii] = b / 100;
                self.memory[ii + 1] = (b / 10) % 10;
                self.memory[ii + 2] = b % 10;
                proof {
                    assert(self@ =~~= spec_exec(old(self)@, ins, 0u8).m);
                    assert(exec_matches(old(self)@, self@, err_of(Ok::<(), FaultKind>(())), ins, 0u8));
                }
                Ok(())
            },
            Instr::StoreRegs { x } => {
                let ii = self.i as usize;
                let xl = x as usize;
                if ii + xl + 1 > 4096 {
                    proof {
                        assert(exec_matches(old(self)@, self@,
                            err_of(Err::<(), FaultKind>(FaultKind::OutOfBoundsAddress)), ins, 0u8));
                    }
                    return Err(FaultKind::OutOfBoundsAddress);
                }
                for k in 0..xl + 1
                    invariant
                        xl < 16,
                        ii + xl + 1 <= 4096,
                        ii == old(self)@.i as int,
                        self@.mem.len() == 4096,
                        self@.v == old(self)@.v,
                        self@.i == old(self)@.i,
                        self@.pc == old(self)@.pc,
                        self@.stack == old(self)@.stack,
                        self@.delay == old(self)@.delay,
                        self@.sound == old(self)@.sound,
                        self@.screen == old(self)@.screen,
                        self@.keys == old(self)@.keys,
                        self@.rom == old(self)@.rom,
                        self@.config == old(self)@.config,
                        old(self).wf(),
                        forall|a: int| 0 <= a < 4096 ==> self@.mem[a] == (
                            if ii <= a < ii + k { old(self)@.v[a - ii] } else { old(self)@.mem[a] }),
                {
                    self.memory[ii + k] = self.v[k];
                }
                if self.config.block_ops_increment_index {
                    self.i = self.i + x as u16 + 1;
                }
                proof {
                    let e = spec_exec(old(self)@, ins, 0u8);
                    assert(self@.mem =~= e.m.mem);
                    assert(self@ =~~= e.m);
                    assert(exec_matches(old(self)@, self@, err_of(Ok::<(), FaultKind>(())), ins, 0u8));
                }
                Ok(())
            },
            Instr::LoadRegs { x } => {
                let ii = self.i as usize;
                let xl = x as usize;
                if ii + xl + 1 > 4096 {
                    proof {
                        assert(exec_matches(old(self)@, self@,
                            err_of(Err::<(), FaultKind>(FaultKind::OutOfBoundsAddress)), ins, 0u8));
                    }
                    return Err(FaultKind::OutOfBoundsAddress);
                }
                for k in 0..xl + 1
                    invariant
                        xl < 16,
                        ii + xl + 1 <= 4096,
                        ii == old(self)@.i as int,
                        self@.v.len() == 16,
                        self@.mem == old(self)@.mem,
                        self@.i == old(self)@.i,
                        self@.pc == old(self)@.pc,
                        self@.stack == old(self)@.stack,
                        self@.delay == old(self)@.delay,
                        self@.sound == old(self)@.sound,
                        self@.screen == old(self)@.screen,
                        self@.keys == old(self)@.keys,
                        self@.rom == old(self)@.rom,
                        self@.config == old(self)@.config,
                        old(self).wf(),
                        forall|j: int| 0 <= j < 16 ==> self@.v[j] == (
                            if j < k { old(self)@.mem[ii + j] } else { old(self)@.v[j] }),
                {
                    self.v[k] = self.memory[ii + k];
                }
                if self.config.block_ops_increment_index {
                    self.i = self.i + x as u16 + 1;
                }
                proof {
                    let e = spec_exec(old(self)@, ins, 0u8);
                    assert(self@.v =~= e.m.v);
                    assert(self@ =~~= e.m);
                    assert(exec_matches(old(self)@, self@, err_of(Ok::<(), FaultKind>(())), ins, 0u8));
                }
                Ok(())
            },
        }
    }

    /// One fetch-decode-execute cycle: read the big-endian opcode at the
    /// program counter, advance past it, decode, execute. On any fault the
    /// state is unchanged, so the program counter still points at the
    /// faulting instruction, and the fault carries that address.
    pub fn step(&mut self) -> (r: Result<(), Fault>)
        requires
            old(self).wf(),
        ensures
            final(self).wf(),
            exists|rnd: u8| #[trigger] step_matches(old(self)@, final(self)@, r, rnd),
    {
        if self.pc >= 4095 {
            proof {
                assert(step_matches(old(self)@, self@, Err::<(), Fault>(
                    Fault { kind: FaultKind::OutOfBoundsAddress, pc: old(self)@.pc }), 0u8));
            }
            return Err(Fault { kind: FaultKind::OutOfBoundsAddress, pc: self.pc });
        }
        let hi = self.memory[self.pc as usize];
        let lo = self.memory[self.pc as usize + 1];
        let op: u16 = (hi as u16) * 256 + (lo as u16);
        proof {
            assert(op as int == old(self)@.mem[old(self)@.pc as int] * 256
                + old(self)@.mem[old(self)@.pc + 1]);
        }
        match decode(op) {
            None => {
                proof {
                    assert(step_matches(old(self)@, self@, Err::<(), Fault>(
                        Fault { kind: FaultKind::UnknownOpcode, pc: old(self)@.pc }), 0u8));
                }
                Err(Fault { kind: FaultKind::UnknownOpcode, pc: self.pc })
            },
            Some(ins) => {
                self.pc = self.pc + 2;
                let ghost mid = self@;
                proof {
                    assert(mid =~~= (MachineView { pc: (old(self)@.pc + 2) as u16, ..old(self)@ }));
                }
                let res = self.exec_instr(ins);
                let ghost afterx = self@;
                match res {
                    Ok(()) => {
                        proof {
                            let rnd = choose|rnd: u8|
                                #[trigger] exec_matches(mid, afterx, err_of(res), ins, rnd);
                            assert(step_matches(old(self)@, self@, Ok::<(), Fault>(()), rnd));
                        }
                        Ok(())
                    },
                    Err(k) => {
                        proof {
                            let rnd = choose|rnd: u8|
                                #[trigger] exec_matches(mid, afterx, err_of(res), ins, rnd);
                            assert(afterx == mid);
                        }
                        self.pc = self.pc - 2;
                        proof {
                            let rnd = choose|rnd: u8|
                                #[trigger] exec_matches(mid, afterx, err_of(res), ins, rnd);
                            assert(self@ =~~= old(self)@);
                            assert(step_matches(old(self)@, self@, Err::<(), Fault>(
                                Fault { kind: k, pc: old(self)@.pc }), rnd));
                        }
                        Err(Fault { kind: k, pc: self.pc })
                    },
                }
            },
        }
    }

    /// One frame: execute `config.tick_rate` cycles, then decrement each
    /// timer once. A fault aborts the frame — later cycles and the timer
    /// decrement do not happen — and leaves the machine state exactly as
    /// the faulting cycle found it.
    pub fn tick(&mut self) -> (r: Result<(), Fault>)
        requires
            old(self).wf(),
        ensures
            final(self).wf(),
            exists|rnds: Seq<u8>| #[trigger] tick_matches(old(self)@, final(self)@, r, rnds),
    {
        let n = self.config.tick_rate;
        let ghost pre = self@;
        let ghost mut rnds: Seq<u8> = Seq::empty();
        let mut cnt: u32 = 0;
        proof {
            assert(spec_run(pre, 0, rnds) == (StepEffect { m: pre, fault: None::<FaultKind> }));
        }
        while cnt < n
            invariant
                old(self).wf(),
                self.wf(),
                pre == old(self)@,
                n == pre.config.tick_rate,
                cnt <= n,
                rnds.len() == cnt as nat,
                spec_run(pre, cnt as nat, rnds) == (StepEffect { m: self@, fault: None::<FaultKind> }),
            decreases n - cnt,
        {
            let ghost mid = self@;
            let r = self.step();
            match r {
                Ok(()) => {
                    proof {
                        let rnd = choose|rnd: u8| #[trigger] step_matches(mid, self@, r, rnd);
                        let s = spec_step(mid, rnd);
                        assert(s.fault is None && self@ == s.m);
                        lemma_run_add(pre, cnt as nat, 1, rnds, seq![rnd]);
                        assert(seq![rnd][0] == rnd);
                        assert(spec_run(s.m, 0, seq![rnd].drop_first())
                            == (StepEffect { m: s.m, fault: None::<FaultKind> }));
                        assert(spec_run(mid, 1, seq![rnd]) == s);
                        assert(rnds + seq![rnd] =~= rnds.push(rnd));
                        assert(spec_run(pre, (cnt + 1) as nat, rnds.push(rnd))
                            == (StepEffect { m: self@, fault: None::<FaultKind> }));
                        rnds = rnds.push(rnd);
                    }
                    cnt = cnt + 1;
                },
                Err(f) => {
                    proof {
                        let rnd = choose|rnd: u8| #[trigger] step_matches(mid, self@, r, rnd);
                        let s = spec_step(mid, rnd);
                        assert(s.fault is Some && self@ == s.m && s.m == mid);
                        lemma_run_add(pre, cnt as nat, 1, rnds, seq![rnd]);
                        assert(seq![rnd][0] == rnd);
                        assert(spec_run(mid, 1, seq![rnd]) == s);
                        let ra = rnds + seq![rnd];
                        assert(spec_run(pre, (cnt + 1) as nat, ra) == s);
                        let pad = Seq::new((n - (cnt + 1)) as nat, |q: int| 0u8);
                        lemma_run_add(pre, (cnt + 1) as nat, (n - (cnt + 1)) as nat, ra, pad);
                        let full = ra + pad;
                        assert((cnt + 1) as nat + (n - (cnt + 1)) as nat == n as nat);
                        assert(spec_run(pre, n as nat, full) == s);
                        assert(full.len() == n as nat);
                        assert(tick_matches(pre, self@, r, full));
                    }
                    return Err(f);
                },
            }
        }
        let ghost ran = self@;
        if self.delay > 0 {
            self.delay = self.delay - 1;
        }
        if self.sound > 0 {
            self.sound = self.sound - 1;
        }
        proof {
            assert(self@ =~~= (MachineView {
                delay: dec_timer(ran.delay),
                sound: dec_timer(ran.sound),
                ..ran
            }));
            assert(tick_matches(pre, self@, Ok::<(), Fault>(()), rnds));
        }
        Ok(())
    }
}

impl Default for Chip8 {
    /// A machine with the default settings and no ROM loaded.
    fn default() -> (c: Chip8)
        ensures
            c.wf(),
            c@ == spec_fresh(default_config(), Seq::empty()),
    {
        Chip8::new(Config::default())
    }
}

} // verus!
