use vstd::prelude::*;
use vstd::slice::slice_subrange;
use crate::cpu::{encode, decode, Addr, CpuView, Instr, Opcode, CPU, REGS_COUNT};
use crate::display::{
    blank, collides, draw, lemma_draw_next, lemma_row_step, lit, row_hits_upto, row_xor_upto,
    shaped, Grid, Scr, Screen,
};
use crate::input::{first_down, Keyboard, KEY_COUNT};
use crate::mem::{Mem, MemView, MEM_SIZE};

verus! {

/// Where programs are loaded and where they start.
pub const START_ADDR: Addr = 0x200;

/// The two bytes of each word of `words`, the high byte first.
pub open spec fn words_bytes(words: Seq<u16>) -> Seq<u8> {
    Seq::new(
        2 * words.len(),
        |k: int|
            if k % 2 == 0 {
                (words[k / 2] / 256) as u8
            } else {
                (words[k / 2] % 256) as u8
            },
    )
}

/// The big-endian word that memory holds at `addr` and `addr + 1`.
pub open spec fn word_at(mem: MemView, addr: int) -> u16 {
    (mem.cells[addr] * 256 + mem.cells[addr + 1]) as u16
}

/// A word and its two bytes.
proof fn lemma_word_bytes(w: u16, hi: u16, lo: u16)
    by (bit_vector)
    requires
        hi < 256,
        lo < 256,
    ensures
        (hi << 8) | lo == hi * 256 + lo,
        w >> 8 == w / 256,
        w >> 8 < 256,
        w & 0x00ff == w % 256,
{
}

/// The whole machine as plain values: what the contracts of [`Emulator`]
/// speak of.
#[verifier::ext_equal]
pub struct EmuView {
    /// The processor.
    pub cpu: CpuView,
    /// Memory.
    pub mem: MemView,
    /// The pixels of the display.
    pub scr: Grid,
    /// The keys: `true` for each one that is down.
    pub kbd: Seq<bool>,
}

/// The hundreds, tens and ones of `v`.
pub open spec fn digits(v: u8) -> Seq<u8> {
    seq![v / 100, (v / 10) % 10, v % 10]
}

impl EmuView {
    /// The machine with another processor state.
    pub open spec fn with_cpu(self, cpu: CpuView) -> EmuView {
        EmuView { cpu, ..self }
    }

    /// The program counter moved to the next instruction.
    pub open spec fn next(self) -> EmuView {
        self.with_cpu(self.cpu.advanced(2))
    }

    /// The `n` bytes that memory holds from the address register on.
    pub open spec fn sprite(self, n: u8) -> Seq<u8> {
        Seq::new(n as nat, |k: int| self.mem.cells[self.cpu.i + k])
    }

    /// The sprite of `n` rows at the address register drawn at column `Vx`
    /// and row `Vy`; the flag is 1 if a pixel became unset and 0 if none did.
    pub open spec fn drawn(self, x: int, y: int, n: u8) -> EmuView {
        let sprite = self.sprite(n);
        let vx = self.cpu.regs[x] as int;
        let vy = self.cpu.regs[y] as int;
        EmuView {
            scr: draw(self.scr, vx, vy, sprite),
            cpu: self.cpu.with_flag(collides(self.scr, vx, vy, sprite)),
            ..self
        }
    }

    /// The three decimal digits of `Vx` stored at the address register.
    pub open spec fn digits_stored(self, x: int) -> EmuView {
        EmuView { mem: self.mem.with_bytes(self.cpu.i as int, digits(self.cpu.regs[x])), ..self }
    }

    /// Registers 0 to `x` stored at the address register.
    pub open spec fn regs_stored(self, x: int) -> EmuView {
        EmuView {
            mem: self.mem.with_bytes(self.cpu.i as int, self.cpu.regs.subrange(0, x + 1)),
            ..self
        }
    }

    /// Registers 0 to `x` loaded from the address register on. A register
    /// whose byte would lie past the end of memory keeps its value.
    pub open spec fn regs_loaded(self, x: int) -> EmuView {
        self.with_cpu(
            CpuView {
                regs: Seq::new(
                    self.cpu.regs.len(),
                    |k: int|
                        if k <= x && self.cpu.i + k < self.mem.cells.len() {
                            self.mem.cells[self.cpu.i + k]
                        } else {
                            self.cpu.regs[k]
                        },
                ),
                ..self.cpu
            },
        )
    }

    /// The address register pointed at the glyph of the digit in `Vx`.
    pub open spec fn glyph_pointed(self, x: int) -> EmuView {
        self.with_cpu(CpuView { i: self.mem.glyph_address(self.cpu.regs[x]) as u16, ..self.cpu })
    }

    /// `Vx` set to the lowest key that is down; unchanged if none is.
    pub open spec fn key_read(self, x: int) -> EmuView {
        match first_down(self.kbd) {
            Some(k) => self.with_cpu(self.cpu.with_reg(x, k as u8)),
            None => self,
        }
    }
}

impl EmuView {
    /// The operation can be carried out in this state: its register
    /// numbers name registers, the memory it touches lies inside memory,
    /// and no address or stack pointer passes the largest 16-bit value.
    pub open spec fn admits(self, op: Opcode) -> bool {
        let cpu = self.cpu;
        let v = cpu.regs;
        match op {
            Opcode::CLS => cpu.can_advance(2),
            Opcode::RET => cpu.wf() && cpu.returned().can_advance(2),
            Opcode::JP(_) => true,
            Opcode::CALL(_) => cpu.wf() && cpu.sp < u16::MAX,
            Opcode::SE(x, kk) => x < 16 && cpu.can_skip(v[x as int] == kk),
            Opcode::SNE(x, kk) => x < 16 && cpu.can_skip(v[x as int] != kk),
            Opcode::SER(x, y) => x < 16 && y < 16 && cpu.can_skip(v[x as int] == v[y as int]),
            Opcode::SNER(x, y) => x < 16 && y < 16 && cpu.can_skip(v[x as int] != v[y as int]),
            Opcode::LD(x, _) | Opcode::ADD(x, _) | Opcode::RND(x, _) => x < 16
                && cpu.can_advance(2),
            Opcode::LDR(x, y) | Opcode::OR(x, y) | Opcode::AND(x, y) | Opcode::XOR(x, y)
            | Opcode::ADDR(x, y) | Opcode::SUBR(x, y) | Opcode::SUBRN(x, y) => x < 16 && y < 16
                && cpu.can_advance(2),
            Opcode::SHR(x, _) | Opcode::SHL(x, _) => x < 16 && cpu.can_advance(2),
            Opcode::LDI(_) => cpu.can_advance(2),
            Opcode::JPOFF(a) => v[0] + a <= u16::MAX,
            Opcode::DRW(x, y, n) => x < 16 && y < 16 && (n == 0 || cpu.i + n <= MEM_SIZE)
                && cpu.can_advance(2),
            Opcode::SKP(x) => x < 16 && v[x as int] < KEY_COUNT && cpu.can_skip(
                self.kbd[v[x as int] as int],
            ),
            Opcode::SKNP(x) => x < 16 && v[x as int] < KEY_COUNT && cpu.can_skip(
                !self.kbd[v[x as int] as int],
            ),
            Opcode::KEYSET(x) | Opcode::DTSET(x) | Opcode::DTGET(x) | Opcode::STSET(x)
            | Opcode::IDIG(x) | Opcode::REGLOAD(x) => x < 16 && cpu.can_advance(2),
            Opcode::IINC(x) => x < 16 && cpu.i + v[x as int] <= u16::MAX && cpu.can_advance(2),
            Opcode::BCD(x) => x < 16 && cpu.i + 2 < MEM_SIZE && cpu.can_advance(2),
            Opcode::REGSSTORE(x) => x < 16 && cpu.i + x < MEM_SIZE && cpu.can_advance(2),
        }
    }

    /// The state after the operation is carried out, `random` being the
    /// byte drawn where the operation draws one. Jumps, calls and skips set
    /// the program counter themselves; a return goes back to the call and
    /// then, like every other operation, moves on to the next instruction.
    pub open spec fn apply(self, op: Opcode, random: u8) -> EmuView {
        let cpu = self.cpu;
        let v = cpu.regs;
        match op {
            Opcode::CLS => (EmuView { scr: blank(), ..self }).next(),
            Opcode::RET => self.with_cpu(cpu.returned()).next(),
            Opcode::JP(a) => self.with_cpu(cpu.with_pc(a)),
            Opcode::CALL(a) => self.with_cpu(cpu.called(a)),
            Opcode::SE(x, kk) => self.with_cpu(cpu.skipped(v[x as int] == kk)),
            Opcode::SNE(x, kk) => self.with_cpu(cpu.skipped(v[x as int] != kk)),
            Opcode::SER(x, y) => self.with_cpu(cpu.skipped(v[x as int] == v[y as int])),
            Opcode::LD(x, kk) => self.with_cpu(cpu.with_reg(x as int, kk)).next(),
            Opcode::ADD(x, kk) => self.with_cpu(cpu.add_imm(x as int, kk)).next(),
            Opcode::LDR(x, y) => self.with_cpu(cpu.with_reg(x as int, v[y as int])).next(),
            Opcode::OR(x, y) => self.with_cpu(cpu.or_reg(x as int, y as int)).next(),
            Opcode::AND(x, y) => self.with_cpu(cpu.and_reg(x as int, y as int)).next(),
            Opcode::XOR(x, y) => self.with_cpu(cpu.xor_reg(x as int, y as int)).next(),
            Opcode::ADDR(x, y) => self.with_cpu(cpu.add_reg(x as int, y as int)).next(),
            Opcode::SUBR(x, y) => self.with_cpu(cpu.sub_reg(x as int, y as int)).next(),
            Opcode::SHR(x, _) => self.with_cpu(cpu.shifted_right(x as int)).next(),
            Opcode::SUBRN(x, y) => self.with_cpu(cpu.sub_reg_rev(x as int, y as int)).next(),
            Opcode::SHL(x, _) => self.with_cpu(cpu.shifted_left(x as int)).next(),
            Opcode::SNER(x, y) => self.with_cpu(cpu.skipped(v[x as int] != v[y as int])),
            Opcode::LDI(a) => self.with_cpu(CpuView { i: a, ..cpu }).next(),
            Opcode::JPOFF(a) => self.with_cpu(cpu.with_pc((v[0] + a) as u16)),
            Opcode::RND(x, kk) => self.with_cpu(cpu.randomized(x as int, kk, random)).next(),
            Opcode::DRW(x, y, n) => self.drawn(x as int, y as int, n).next(),
            Opcode::SKP(x) => self.with_cpu(cpu.skipped(self.kbd[v[x as int] as int])),
            Opcode::SKNP(x) => self.with_cpu(cpu.skipped(!self.kbd[v[x as int] as int])),
            Opcode::KEYSET(x) => self.key_read(x as int).next(),
            Opcode::DTSET(x) => self.with_cpu(CpuView { dt: v[x as int], ..cpu }).next(),
            Opcode::DTGET(x) => self.with_cpu(cpu.with_reg(x as int, cpu.dt)).next(),
            Opcode::STSET(x) => self.with_cpu(CpuView { st: v[x as int], ..cpu }).next(),
            Opcode::IINC(x) => self.with_cpu(
                CpuView { i: (cpu.i + v[x as int]) as u16, ..cpu },
            ).next(),
            Opcode::IDIG(x) => self.glyph_pointed(x as int).next(),
            Opcode::BCD(x) => self.digits_stored(x as int).next(),
            Opcode::REGSSTORE(x) => self.regs_stored(x as int).next(),
            Opcode::REGLOAD(x) => self.regs_loaded(x as int).next(),
        }
    }
}

/// Why a run ended.
#[derive(Debug, PartialEq, Eq, Clone, Copy, Structural)]
pub enum Stop {
    /// The word at the program counter is no instruction.
    Halted,
    /// The next instruction cannot be fetched or cannot be carried out.
    Faulted,
    /// The allowed number of steps has been taken.
    OutOfSteps,
}

impl CpuView {
    /// Both timers one lower, a timer at 0 staying at 0.
    pub open spec fn ticked(self) -> CpuView {
        CpuView {
            dt: if self.dt > 0 { (self.dt - 1) as u8 } else { 0 },
            st: if self.st > 0 { (self.st - 1) as u8 } else { 0 },
            ..self
        }
    }

    /// The state after `n` ticks.
    pub open spec fn ticked_times(self, n: nat) -> CpuView
        decreases n,
    {
        if n == 0 {
            self
        } else {
            self.ticked_times((n - 1) as nat).ticked()
        }
    }
}

/// The keys after key `k` changes state.
pub open spec fn toggled(keys: Seq<bool>, k: int) -> Seq<bool> {
    keys.update(k, !keys[k])
}

impl EmuView {
    /// The two bytes at the program counter lie inside memory.
    pub open spec fn can_fetch(self) -> bool {
        self.cpu.pc + 1 < MEM_SIZE
    }

    /// The operation that the word at the program counter stands for.
    pub open spec fn next_op(self) -> Option<Opcode> {
        decode(word_at(self.mem, self.cpu.pc as int))
    }

    /// The state after the fetch: the operation at the program counter is
    /// recorded as the one fetched last.
    pub open spec fn fetched(self) -> EmuView {
        self.with_cpu(CpuView { instr: self.next_op(), ..self.cpu })
    }

    /// A step can be taken: the word at the program counter can be fetched
    /// and, if it is an instruction, carried out.
    pub open spec fn can_step(self) -> bool {
        self.can_fetch() && match self.next_op() {
            Some(op) => self.fetched().admits(op),
            None => true,
        }
    }

    /// The state after one step: fetch, decode and, if the word is an
    /// instruction, execute.
    pub open spec fn stepped(self, random: u8) -> EmuView {
        match self.next_op() {
            Some(op) => self.fetched().apply(op, random),
            None => self.fetched(),
        }
    }

    /// The state after as many steps as `randoms` is long, step `k` drawing
    /// `randoms[k]` where it draws a byte.
    pub open spec fn trace(self, randoms: Seq<u8>) -> EmuView
        decreases randoms.len(),
    {
        if randoms.len() == 0 {
            self
        } else {
            self.trace(randoms.drop_last()).stepped(randoms.last())
        }
    }

    /// Every step of the trace starts in a state that can step and that
    /// holds an instruction at the program counter.
    pub open spec fn runs(self, randoms: Seq<u8>) -> bool {
        forall|k: int|
            0 <= k < randoms.len() ==> (#[trigger] self.trace(randoms.take(k))).can_step()
                && self.trace(randoms.take(k)).next_op() is Some
    }

    /// A run of at most `limit` steps from this state ends in `end` with
    /// `stop`: it executes instruction after instruction, and stops where
    /// the word at the program counter is no instruction, where the next
    /// step cannot be taken, or where the limit is reached.
    pub open spec fn runs_to(self, limit: int, end: EmuView, stop: Stop) -> bool {
        exists|randoms: Seq<u8>|
            {
                let at = #[trigger] self.trace(randoms);
                &&& randoms.len() <= limit
                &&& self.runs(randoms)
                &&& match stop {
                    Stop::Halted => randoms.len() < limit && at.can_fetch() && at.next_op() is None
                        && end == at.fetched(),
                    Stop::Faulted => randoms.len() < limit && !at.can_step() && end == (if at.can_fetch() {
                        at.fetched()
                    } else {
                        at
                    }),
                    Stop::OutOfSteps => randoms.len() == limit && end == at,
                }
            }
    }
}

/// Whether an operation can be carried out does not depend on the
/// operation that was fetched last.
#[verifier::rlimit(60)]
pub proof fn lemma_admits_after_fetch(s: EmuView, op: Opcode)
    ensures
        s.fetched().admits(op) == s.admits(op),
{
}

/// `at` is the state after the steps of `randoms` from `start`, each of
/// them taken from a state that can step and holds an instruction.
#[verifier::opaque]
spec fn reaches(start: EmuView, randoms: Seq<u8>, at: EmuView) -> bool {
    start.runs(randoms) && at == start.trace(randoms)
}

/// Every state reaches itself in no step.
proof fn lemma_reaches_start(start: EmuView)
    ensures
        reaches(start, Seq::empty(), start),
{
    reveal(reaches);
}

/// One more step from a state that was reached.
#[verifier::rlimit(60)]
proof fn lemma_reaches_step(
    start: EmuView,
    randoms: Seq<u8>,
    at: EmuView,
    random: u8,
    next: EmuView,
)
    requires
        reaches(start, randoms, at),
        at.can_step(),
        at.next_op() is Some,
        next == at.stepped(random),
    ensures
        reaches(start, randoms.push(random), next),
{
    reveal(reaches);
    let longer = randoms.push(random);
    assert(longer.drop_last() == randoms);
    assert forall|k: int| 0 <= k < longer.len() implies (#[trigger] start.trace(
        longer.take(k),
    )).can_step() && start.trace(longer.take(k)).next_op() is Some by {
        if k < randoms.len() {
            assert(longer.take(k) == randoms.take(k));
        } else {
            assert(longer.take(k) == randoms);
        }
    }
}

/// A state that was reached and where the run stops as `stop` says is
/// where the run ends.
proof fn lemma_reaches_end(
    start: EmuView,
    randoms: Seq<u8>,
    at: EmuView,
    limit: int,
    end: EmuView,
    stop: Stop,
)
    requires
        reaches(start, randoms, at),
        randoms.len() <= limit,
        match stop {
            Stop::Halted => randoms.len() < limit && at.can_fetch() && at.next_op() is None && end
                == at.fetched(),
            Stop::Faulted => randoms.len() < limit && !at.can_step() && end == (if at.can_fetch() {
                at.fetched()
            } else {
                at
            }),
            Stop::OutOfSteps => randoms.len() == limit && end == at,
        },
    ensures
        start.runs_to(limit, end, stop),
{
    reveal(reaches);
    assert(at == start.trace(randoms));
}

/// Carrying out an operation keeps the stack pointer equal to the depth
/// of the call stack, and keeps the sixteen registers.
#[verifier::rlimit(60)]
pub proof fn lemma_apply_keeps_wf(s: EmuView, op: Opcode, random: u8)
    requires
        s.cpu.wf(),
        s.admits(op),
    ensures
        s.apply(op, random).cpu.wf(),
{
}

/// How an operation moves the program counter. A jump or a call sets it
/// to its target and a skip moves it by 4 or by 2, with no further move.
/// A return goes to the address it pops, if there is one, and then moves
/// on by 2. Every other operation moves it by exactly 2.
#[verifier::rlimit(60)]
pub proof fn lemma_program_counter(s: EmuView, op: Opcode, random: u8)
    requires
        s.admits(op),
    ensures
        match op {
            Opcode::JP(a) | Opcode::CALL(a) => s.apply(op, random).cpu.pc == a,
            Opcode::JPOFF(a) => s.apply(op, random).cpu.pc == s.cpu.regs[0] + a,
            Opcode::SE(x, kk) => s.apply(op, random).cpu.pc == s.cpu.pc + (if s.cpu.regs[x as int]
                == kk {
                4int
            } else {
                2int
            }),
            Opcode::SNE(x, kk) => s.apply(op, random).cpu.pc == s.cpu.pc + (if s.cpu.regs[x as int]
                != kk {
                4int
            } else {
                2int
            }),
            Opcode::SER(x, y) => s.apply(op, random).cpu.pc == s.cpu.pc + (if s.cpu.regs[x as int]
                == s.cpu.regs[y as int] {
                4int
            } else {
                2int
            }),
            Opcode::SNER(x, y) => s.apply(op, random).cpu.pc == s.cpu.pc + (if s.cpu.regs[x as int]
                != s.cpu.regs[y as int] {
                4int
            } else {
                2int
            }),
            Opcode::SKP(x) => s.apply(op, random).cpu.pc == s.cpu.pc + (if s.kbd[s.cpu.regs[x as int] as int] {
                4int
            } else {
                2int
            }),
            Opcode::SKNP(x) => s.apply(op, random).cpu.pc == s.cpu.pc + (if !s.kbd[s.cpu.regs[x as int] as int] {
                4int
            } else {
                2int
            }),
            Opcode::RET => s.apply(op, random).cpu.pc == (if s.cpu.stack.len() > 0 {
                s.cpu.stack.last() + 2
            } else {
                s.cpu.pc + 2
            }),
            _ => s.apply(op, random).cpu.pc == s.cpu.pc + 2,
        },
{
}

/// Timers never go below 0: after `n` ticks a timer is what it was less
/// `n`, or 0 where it was smaller than `n`, and nothing else has changed.
pub proof fn lemma_ticks_saturate(cpu: CpuView, n: nat)
    ensures
        cpu.ticked_times(n).dt == (if cpu.dt >= n { cpu.dt - n } else { 0 }),
        cpu.ticked_times(n).st == (if cpu.st >= n { cpu.st - n } else { 0 }),
        cpu.ticked_times(n) == (CpuView {
            dt: cpu.ticked_times(n).dt,
            st: cpu.ticked_times(n).st,
            ..cpu
        }),
    decreases n,
{
    if n > 0 {
        lemma_ticks_saturate(cpu, (n - 1) as nat);
    }
}

/// A machine: processor, memory, display and keypad.
pub struct Emulator {
    /// The processor.
    pub cpu: CPU,
    /// Memory.
    pub mem: Mem,
    /// The display.
    pub scr: Screen,
    /// The keypad.
    pub kbd: Keyboard,
}

impl View for Emulator {
    type V = EmuView;

    open spec fn view(&self) -> EmuView {
        EmuView { cpu: self.cpu@, mem: self.mem@, scr: self.scr.grid(), kbd: self.kbd@ }
    }
}

impl Emulator {
    /// A machine with zeroed memory and registers, a blank display and
    /// every key up.
    pub fn new() -> (e: Self)
        ensures
            e@.cpu == CpuView::reset(),
            e@.mem.cells == Seq::new(MEM_SIZE as nat, |k: int| 0u8),
            e@.mem.font_base == 0,
            e@.scr == blank(),
            e@.kbd == Seq::new(KEY_COUNT as nat, |k: int| false),
    {
        Emulator { cpu: CPU::new(), mem: Mem::new(), scr: Screen::new(), kbd: Keyboard::new() }
    }

    /// The address where programs are loaded and started.
    pub fn start_addr(&self) -> (a: Addr)
        ensures
            a == START_ADDR,
    {
        0x200
    }

    /// Installs the glyph table at address 0 and points the address
    /// register at it.
    pub fn store_font(&mut self)
        ensures
            final(self)@ == (EmuView {
                mem: old(self)@.mem.with_font(0),
                cpu: CpuView { i: 0, ..old(self)@.cpu },
                ..old(self)@
            }),
    {
        self.mem.store_font(0);
        self.cpu.i = 0;
    }

    /// Writes the words of `v` from the start address on, each with its
    /// high byte first, and sets the program counter to the start address.
    #[verifier::rlimit(60)]
    pub fn store_instr(&mut self, v: &[Instr])
        requires
            START_ADDR + 2 * v@.len() <= MEM_SIZE,
        ensures
            final(self)@ == (EmuView {
                mem: old(self)@.mem.with_bytes(START_ADDR as int, words_bytes(v@)),
                cpu: old(self)@.cpu.with_pc(START_ADDR),
                ..old(self)@
            }),
    {
        let mut a = self.start_addr();
        let mut k: usize = 0;
        while k < v.len()
            invariant
                k <= v@.len(),
                START_ADDR + 2 * v@.len() <= MEM_SIZE,
                a == START_ADDR + 2 * k,
                self@ == (EmuView {
                    mem: old(self)@.mem.with_bytes(
                        START_ADDR as int,
                        words_bytes(v@.take(k as int)),
                    ),
                    ..old(self)@
                }),
            decreases v@.len() - k,
        {
            let instr = v[k];
            proof {
                lemma_word_bytes(instr, 0, 0);
                self.mem.lemma_size();
            }
            self.mem.store(a, (instr >> 8) as u8);
            self.mem.store(a + 1, (instr & 0x00ff) as u8);
            a += 2;
            k += 1;
        }
        assert(v@.take(k as int) == v@);
        self.cpu.pc(self.start_addr());
    }

    /// The big-endian word at `i` and `i + 1`.
    pub fn load_instr(&self, i: Addr) -> (w: Instr)
        requires
            i + 1 < MEM_SIZE,
        ensures
            w == word_at(self@.mem, i as int),
    {
        let bh: u16 = self.mem.load(i) as u16;
        let bl: u16 = self.mem.load(i + 1) as u16;
        proof {
            lemma_word_bytes(0, bh, bl);
        }
        (bh << 8) | bl
    }

    /// Writes the bytes of `v` from the start address on and sets the
    /// program counter to the start address.
    pub fn store_bytes(&mut self, v: &[u8])
        requires
            START_ADDR + v@.len() <= MEM_SIZE,
        ensures
            final(self)@ == (EmuView {
                mem: old(self)@.mem.with_bytes(START_ADDR as int, v@),
                cpu: old(self)@.cpu.with_pc(START_ADDR),
                ..old(self)@
            }),
    {
        self.mem.store_arr(self.start_addr(), v);
        self.cpu.pc(self.start_addr());
    }

    /// Writes the instruction words of the operations of `v` from the start
    /// address on and sets the program counter to the start address.
    #[verifier::rlimit(60)]
    pub fn store(&mut self, v: &[Opcode])
        requires
            START_ADDR + 2 * v@.len() <= MEM_SIZE,
        ensures
            final(self)@ == (EmuView {
                mem: old(self)@.mem.with_bytes(
                    START_ADDR as int,
                    words_bytes(v@.map_values(|op: Opcode| encode(op))),
                ),
                cpu: old(self)@.cpu.with_pc(START_ADDR),
                ..old(self)@
            }),
    {
        let mut instrs: Vec<Instr> = Vec::new();
        let mut k: usize = 0;
        while k < v.len()
            invariant
                k <= v@.len(),
                instrs@ == v@.take(k as int).map_values(|op: Opcode| encode(op)),
            decreases v@.len() - k,
        {
            instrs.push(Opcode::to_instr(&v[k]));
            k += 1;
        }
        assert(v@.take(k as int) == v@);
        self.store_instr(instrs.as_slice());
    }

    /// Fetches the operation at the program counter and records it as the
    /// operation fetched last; `None` where the word there is no instruction.
    pub fn fetch(&mut self) -> (op: Option<Opcode>)
        requires
            old(self).cpu.pc + 1 < MEM_SIZE,
        ensures
            op == decode(word_at(old(self)@.mem, old(self).cpu.pc as int)),
            final(self)@ == (EmuView {
                cpu: CpuView { instr: op, ..old(self)@.cpu },
                ..old(self)@
            }),
    {
        let instr = self.load_instr(self.cpu.pc);
        let op = Opcode::from(instr);
        self.cpu.instr = op;
        op
    }

    /// Stores registers 0 to `vx` at the address register.
    pub fn regsstore(&mut self, vx: usize)
        requires
            vx < REGS_COUNT,
            old(self).cpu.i + vx < MEM_SIZE,
        ensures
            final(self)@ == old(self)@.regs_stored(vx as int),
    {
        self.mem.store_arr(self.cpu.i, slice_subrange(self.cpu.regs.as_slice(), 0, vx + 1));
    }

    /// Loads registers 0 to `vx` from the address register on. A register
    /// whose byte would lie past the end of memory keeps its value.
    #[verifier::rlimit(60)]
    pub fn regsload(&mut self, vx: usize)
        requires
            vx < REGS_COUNT,
        ensures
            final(self)@ == old(self)@.regs_loaded(vx as int),
    {
        proof {
            self.mem.lemma_size();
        }
        let mut i_offset: usize = 0;
        while i_offset <= vx
            invariant
                vx < REGS_COUNT,
                i_offset <= vx + 1,
                self@.mem.cells.len() == MEM_SIZE,
                self@ == old(self)@.regs_loaded(i_offset as int - 1),
            decreases vx + 1 - i_offset,
        {
            let memidx: usize = self.cpu.i as usize + i_offset;
            if let Some(val) = self.mem.get(memidx..memidx + 1) {
                self.cpu.regs[i_offset] = val[0];
            }
            i_offset += 1;
        }
    }

    /// The hundreds, tens and ones of `v`.
    pub fn split_val(v: u8) -> (d: [u8; 3])
        ensures
            d@ == digits(v),
    {
        [v / 100, (v / 10) % 10, v % 10]
    }

    /// Stores the three decimal digits of register `vx` at the address
    /// register, the hundreds first.
    pub fn bcd(&mut self, vx: usize)
        requires
            vx < REGS_COUNT,
            old(self).cpu.i + 2 < MEM_SIZE,
        ensures
            final(self)@ == old(self)@.digits_stored(vx as int),
    {
        let val = self.cpu.regs[vx];
        let d = Emulator::split_val(val);
        proof {
            self.mem.lemma_size();
        }
        self.mem.store(self.cpu.i, d[0]);
        self.mem.store(self.cpu.i + 1, d[1]);
        self.mem.store(self.cpu.i + 2, d[2]);
    }

    /// Points the address register at the glyph of the digit in register
    /// `vx`.
    pub fn idig(&mut self, vx: usize)
        requires
            vx < REGS_COUNT,
        ensures
            final(self)@ == old(self)@.glyph_pointed(vx as int),
    {
        self.cpu.i = self.mem.addr_of_font(self.cpu.regs[vx]);
    }

    /// Puts the lowest key that is down into register `vx`; with every key
    /// up the register keeps its value.
    pub fn keyset(&mut self, vx: usize)
        requires
            vx < REGS_COUNT,
        ensures
            final(self)@ == old(self)@.key_read(vx as int),
    {
        if let Some(idx) = self.kbd.down_key() {
            self.cpu.regs[vx] = idx as u8;
        }
    }

    /// Draws the sprite of `n` rows that memory holds at the address
    /// register, at the column in register `vx` and the row in register
    /// `vy`, and sets the flag register to 1 if a pixel became unset and to
    /// 0 if none did.
    #[verifier::rlimit(60)]
    pub fn draw(&mut self, vx: usize, vy: usize, n: u8)
        requires
            vx < REGS_COUNT,
            vy < REGS_COUNT,
            n == 0 || old(self).cpu.i + n <= MEM_SIZE,
        ensures
            final(self)@ == old(self)@.drawn(vx as int, vy as int, n),
    {
        let mut collision = false;
        let x = self.cpu.regs[vx];
        let y = self.cpu.regs[vy];
        let ghost g0 = self.scr.grid();
        let ghost sprite = self@.sprite(n);
        proof {
            self.mem.lemma_size();
            self.scr.lemma_shaped();
            if n > 0 {
                lemma_draw_next(g0, x as int, y as int, sprite, 0);
            }
        }
        let mut line_num: u8 = 0;
        while line_num < n
            invariant
                line_num <= n,
                n == 0 || self.cpu.i + n <= MEM_SIZE,
                self.cpu == old(self).cpu,
                self.mem == old(self).mem,
                self.kbd == old(self).kbd,
                sprite == old(self)@.sprite(n),
                shaped(self.scr.grid()),
                self.scr.grid() == draw(g0, x as int, y as int, sprite.take(line_num as int)),
                collision == collides(g0, x as int, y as int, sprite.take(line_num as int)),
            decreases n - line_num,
        {
            let memloc = self.cpu.i + line_num as u16;
            let byte = self.mem.load(memloc);
            let ghost gr = self.scr.grid();
            let ghost ry = y + line_num;
            let mut row_hit = false;
            proof {
                lemma_row_step(gr, x as int, ry, byte, 0);
            }
            let mut bit: u8 = 0;
            while bit < 8
                invariant
                    bit <= 8,
                    ry == y + line_num,
                    shaped(gr),
                    self.cpu == old(self).cpu,
                    self.mem == old(self).mem,
                    self.kbd == old(self).kbd,
                    self.scr.grid() == row_xor_upto(gr, x as int, ry, byte, bit as int),
                    row_hit == row_hits_upto(gr, x as int, ry, byte, bit as int),
                decreases 8 - bit,
            {
                proof {
                    lemma_row_step(gr, x as int, ry, byte, bit as int);
                }
                let hit = self.scr.xor(
                    x as usize + bit as usize,
                    y as usize + line_num as usize,
                    byte & (0x80u8 >> bit) != 0,
                );
                row_hit = row_hit || hit;
                bit += 1;
            }
            collision = collision || row_hit;
            proof {
                lemma_draw_next(g0, x as int, y as int, sprite, line_num as int);
            }
            line_num += 1;
        }
        proof {
            if n > 0 {
                lemma_draw_next(g0, x as int, y as int, sprite, 0);
            } else {
                assert(sprite.take(0) == sprite);
            }
        }
        self.cpu.regs[0xF] = if collision { 1 } else { 0 };
    }

    /// Whether the operation can be carried out in the present state.
    #[verifier::rlimit(60)]
    pub fn admits(&self, op: Opcode) -> (ok: bool)
        ensures
            ok == self@.admits(op),
    {
        let pc = self.cpu.pc;
        let step = pc <= 0xFFFD;
        let skip = pc <= 0xFFFB;
        match op {
            Opcode::CLS => step,
            Opcode::RET => {
                let depth = self.cpu.stack.len();
                if self.cpu.sp as usize != depth {
                    false
                } else if depth == 0 {
                    step
                } else {
                    self.cpu.stack[depth - 1] <= 0xFFFD
                }
            },
            Opcode::JP(_) => true,
            Opcode::CALL(_) => self.cpu.sp as usize == self.cpu.stack.len() && self.cpu.sp < 0xFFFF,
            Opcode::SE(vx, byte) => vx < REGS_COUNT && (if self.cpu.regs[vx] == byte {
                skip
            } else {
                step
            }),
            Opcode::SNE(vx, byte) => vx < REGS_COUNT && (if self.cpu.regs[vx] != byte {
                skip
            } else {
                step
            }),
            Opcode::SER(vx, vy) => vx < REGS_COUNT && vy < REGS_COUNT && (if self.cpu.regs[vx]
                == self.cpu.regs[vy] {
                skip
            } else {
                step
            }),
            Opcode::SNER(vx, vy) => vx < REGS_COUNT && vy < REGS_COUNT && (if self.cpu.regs[vx]
                != self.cpu.regs[vy] {
                skip
            } else {
                step
            }),
            Opcode::LD(vx, _) | Opcode::ADD(vx, _) | Opcode::RND(vx, _) => vx < REGS_COUNT && step,
            Opcode::LDR(vx, vy) | Opcode::OR(vx, vy) | Opcode::AND(vx, vy) | Opcode::XOR(vx, vy)
            | Opcode::ADDR(vx, vy) | Opcode::SUBR(vx, vy) | Opcode::SUBRN(vx, vy) => vx
                < REGS_COUNT && vy < REGS_COUNT && step,
            Opcode::SHR(vx, _) | Opcode::SHL(vx, _) => vx < REGS_COUNT && step,
            Opcode::LDI(_) => step,
            Opcode::JPOFF(a) => self.cpu.regs[0] as u32 + a as u32 <= 0xFFFF,
            Opcode::DRW(vx, vy, n) => vx < REGS_COUNT && vy < REGS_COUNT && (n == 0
                || self.cpu.i as usize + n as usize <= MEM_SIZE) && step,
            Opcode::SKP(vx) => vx < REGS_COUNT && (self.cpu.regs[vx] as usize) < KEY_COUNT && (
            if self.kbd.get(self.cpu.regs[vx] as usize) {
                skip
            } else {
                step
            }),
            Opcode::SKNP(vx) => vx < REGS_COUNT && (self.cpu.regs[vx] as usize) < KEY_COUNT && (
            if !self.kbd.get(self.cpu.regs[vx] as usize) {
                skip
            } else {
                step
            }),
            Opcode::KEYSET(vx) | Opcode::DTSET(vx) | Opcode::DTGET(vx) | Opcode::STSET(vx)
            | Opcode::IDIG(vx) | Opcode::REGLOAD(vx) => vx < REGS_COUNT && step,
            Opcode::IINC(vx) => vx < REGS_COUNT && self.cpu.i as u32 + self.cpu.regs[vx] as u32
                <= 0xFFFF && step,
            Opcode::BCD(vx) => vx < REGS_COUNT && (self.cpu.i as usize) + 2 < MEM_SIZE && step,
            Opcode::REGSSTORE(vx) => vx < REGS_COUNT && self.cpu.i as usize + vx < MEM_SIZE
                && step,
        }
    }

    /// Carries out one operation. Jumps, calls and skips set the program
    /// counter themselves; every other operation has its effect and then
    /// moves the program counter to the next instruction.
    #[verifier::rlimit(60)]
    pub fn exec(&mut self, op: Opcode)
        requires
            old(self)@.admits(op),
        ensures
            exists|random: u8| final(self)@ == #[trigger] old(self)@.apply(op, random),
    {
        let ghost before = self@;
        let ghost mut random: u8 = 0;
        match op {
            Opcode::CLS => {
                self.scr.clear();
                self.cpu.inc_pc();
            },
            Opcode::RET => {
                self.cpu.ret();
                self.cpu.inc_pc();
            },
            Opcode::JP(addr) => self.cpu.pc = addr,
            Opcode::CALL(addr) => self.cpu.call(addr),
            Opcode::SE(vx, byte) => self.cpu.skip_eq(vx, byte),
            Opcode::SNE(vx, byte) => self.cpu.skip_neq(vx, byte),
            Opcode::SER(vx, vy) => self.cpu.skip_eq_reg(vx, vy),
            Opcode::LD(vx, byte) => {
                self.cpu.load(vx, byte);
                self.cpu.inc_pc();
            },
            Opcode::ADD(vx, byte) => {
                self.cpu.add(vx, byte);
                self.cpu.inc_pc();
            },
            Opcode::LDR(vx, vy) => {
                self.cpu.load_r(vx, vy);
                self.cpu.inc_pc();
            },
            Opcode::AND(vx, vy) => {
                self.cpu.and(vx, vy);
                self.cpu.inc_pc();
            },
            Opcode::OR(vx, vy) => {
                self.cpu.or(vx, vy);
                self.cpu.inc_pc();
            },
            Opcode::XOR(vx, vy) => {
                self.cpu.xor(vx, vy);
                self.cpu.inc_pc();
            },
            Opcode::ADDR(vx, vy) => {
                self.cpu.addr(vx, vy);
                self.cpu.inc_pc();
            },
            Opcode::SUBR(vx, vy) => {
                self.cpu.subr(vx, vy);
                self.cpu.inc_pc();
            },
            Opcode::SHR(vx, _) => {
                self.cpu.shr(vx);
                self.cpu.inc_pc();
            },
            Opcode::SUBRN(vx, vy) => {
                self.cpu.subrn(vx, vy);
                self.cpu.inc_pc();
            },
            Opcode::SHL(vx, _) => {
                self.cpu.shl(vx);
                self.cpu.inc_pc();
            },
            Opcode::SNER(vx, vy) => self.cpu.skip_neq_reg(vx, vy),
            Opcode::LDI(a) => {
                self.cpu.ldi(a);
                self.cpu.inc_pc();
            },
            Opcode::JPOFF(a) => self.cpu.jpoff(a),
            Opcode::RND(vx, byte) => {
                self.cpu.rnd(vx, byte);
                proof {
                    random = choose|r: u8| self.cpu@ == #[trigger] before.cpu.randomized(vx as int, byte, r);
                }
                self.cpu.inc_pc();
            },
            Opcode::DRW(vx, vy, n) => {
                self.draw(vx, vy, n);
                self.cpu.inc_pc();
            },
            Opcode::SKP(vx) => {
                let down = self.kbd.get(self.cpu.regs[vx] as usize);
                self.cpu.skip_if(down)
            },
            Opcode::SKNP(vx) => {
                let down = self.kbd.get(self.cpu.regs[vx] as usize);
                self.cpu.skip_if(!down)
            },
            Opcode::KEYSET(vx) => {
                self.keyset(vx);
                self.cpu.inc_pc();
            },
            Opcode::DTSET(vx) => {
                self.cpu.dtset(vx);
                self.cpu.inc_pc();
            },
            Opcode::DTGET(vx) => {
                self.cpu.dtget(vx);
                self.cpu.inc_pc();
            },
            Opcode::STSET(vx) => {
                self.cpu.stset(vx);
                self.cpu.inc_pc();
            },
            Opcode::IINC(vx) => {
                self.cpu.iinc(vx);
                self.cpu.inc_pc();
            },
            Opcode::IDIG(vx) => {
                self.idig(vx);
                self.cpu.inc_pc();
            },
            Opcode::BCD(vx) => {
                self.bcd(vx);
                self.cpu.inc_pc();
            },
            Opcode::REGSSTORE(vx) => {
                self.regsstore(vx);
                self.cpu.inc_pc();
            },
            Opcode::REGLOAD(vx) => {
                self.regsload(vx);
                self.cpu.inc_pc();
            },
        }
        assert(self@ == before.apply(op, random));
    }

    /// Whether a step can be taken from the present state.
    #[verifier::rlimit(60)]
    pub fn ready(&self) -> (ok: bool)
        ensures
            ok == self@.can_step(),
    {
        if self.cpu.pc as usize + 1 < MEM_SIZE {
            match Opcode::from(self.load_instr(self.cpu.pc)) {
                Some(op) => {
                    proof {
                        lemma_admits_after_fetch(self@, op);
                    }
                    self.admits(op)
                },
                None => true,
            }
        } else {
            false
        }
    }

    /// Takes one step: fetches the word at the program counter and, if it
    /// is an instruction, carries it out.
    #[verifier::rlimit(60)]
    pub fn step(&mut self)
        requires
            old(self)@.can_step(),
        ensures
            exists|random: u8| final(self)@ == #[trigger] old(self)@.stepped(random),
    {
        let ghost before = self@;
        if let Some(op) = self.fetch() {
            self.exec(op);
            proof {
                let random = choose|r: u8| self@ == #[trigger] before.fetched().apply(op, r);
                assert(self@ == before.stepped(random));
            }
        } else {
            assert(self@ == before.stepped(0));
        }
    }

    /// A key was pressed: key `k` goes down and the key `oldk` pressed
    /// before it, if there is one, goes up. Pressing the key that is
    /// already held changes nothing.
    pub fn key_pressed(&mut self, oldk: Option<usize>, k: usize)
        requires
            k < KEY_COUNT,
            oldk matches Some(o) ==> o < KEY_COUNT,
        ensures
            final(self)@ == (EmuView {
                kbd: match oldk {
                    Some(o) => if o != k {
                        toggled(toggled(old(self)@.kbd, o as int), k as int)
                    } else {
                        old(self)@.kbd
                    },
                    None => toggled(old(self)@.kbd, k as int),
                },
                ..old(self)@
            }),
    {
        if let Some(oldidx) = oldk {
            if oldidx != k {
                self.kbd.switch(oldidx);
                self.kbd.switch(k);
            }
        } else {
            self.kbd.switch(k);
        }
    }

    /// The key was released: the lowest key that is down goes up.
    pub fn key_released(&mut self)
        ensures
            final(self)@ == (EmuView {
                kbd: match first_down(old(self)@.kbd) {
                    Some(k) => old(self)@.kbd.update(k, false),
                    None => old(self)@.kbd,
                },
                ..old(self)@
            }),
    {
        if let Some(key) = self.kbd.down_key() {
            self.kbd.switch(key);
        }
    }

    /// Takes one step if one can be taken and the word at the program
    /// counter is an instruction; says why not otherwise.
    #[verifier::rlimit(60)]
    fn advance(&mut self) -> (stop: Option<Stop>)
        ensures
            match stop {
                None => old(self)@.can_step() && old(self)@.next_op() is Some && exists|random: u8|
                    final(self)@ == #[trigger] old(self)@.stepped(random),
                Some(Stop::Halted) => old(self)@.can_fetch() && old(self)@.next_op() is None
                    && final(self)@ == old(self)@.fetched(),
                Some(Stop::Faulted) => !old(self)@.can_step() && final(self)@ == (
                if old(self)@.can_fetch() {
                    old(self)@.fetched()
                } else {
                    old(self)@
                }),
                Some(Stop::OutOfSteps) => false,
            },
    {
        let ghost at = self@;
        if self.cpu.pc as usize + 1 >= MEM_SIZE {
            return Some(Stop::Faulted);
        }
        match self.fetch() {
            None => Some(Stop::Halted),
            Some(op) => {
                if !self.admits(op) {
                    return Some(Stop::Faulted);
                }
                self.exec(op);
                proof {
                    let r = choose|r: u8| self@ == #[trigger] at.fetched().apply(op, r);
                    assert(self@ == at.stepped(r));
                }
                None
            },
        }
    }

    /// Runs from the present state for at most `limit` steps.
    #[verifier::rlimit(60)]
    pub fn resume(&mut self, limit: u64) -> (stop: Stop)
        ensures
            old(self)@.runs_to(limit as int, final(self)@, stop),
    {
        let ghost start = self@;
        let ghost mut randoms: Seq<u8> = Seq::empty();
        let mut n: u64 = 0;
        proof {
            lemma_reaches_start(start);
        }
        while n < limit
            invariant
                n <= limit,
                randoms.len() == n,
                start == old(self)@,
                reaches(start, randoms, self@),
            decreases limit - n,
        {
            let ghost at = self@;
            match self.advance() {
                Some(stop) => {
                    proof {
                        lemma_reaches_end(start, randoms, at, limit as int, self@, stop);
                    }
                    return stop;
                },
                None => {
                    proof {
                        let r = choose|r: u8| self@ == #[trigger] at.stepped(r);
                        lemma_reaches_step(start, randoms, at, r, self@);
                        randoms = randoms.push(r);
                    }
                },
            }
            n += 1;
        }
        proof {
            lemma_reaches_end(start, randoms, self@, limit as int, self@, Stop::OutOfSteps);
        }
        Stop::OutOfSteps
    }

    /// Runs the program from the start address for at most `limit` steps.
    pub fn run(&mut self, limit: u64) -> (stop: Stop)
        ensures
            old(self)@.with_cpu(old(self)@.cpu.with_pc(START_ADDR)).runs_to(
                limit as int,
                final(self)@,
                stop,
            ),
    {
        self.cpu.pc(self.start_addr());
        self.resume(limit)
    }

    /// One tick of the clock: both timers go down by one and stop at 0.
    /// Returns the new values of the delay and the sound timer.
    pub fn tick(&mut self) -> (timers: (u8, u8))
        ensures
            final(self)@ == old(self)@.with_cpu(old(self)@.cpu.ticked()),
            timers == (final(self).cpu.dt, final(self).cpu.st),
            timers.0 <= old(self).cpu.dt,
            timers.1 <= old(self).cpu.st,
    {
        if let Some(v) = self.cpu.dt.checked_sub(1) {
            self.cpu.dt = v;
        }
        if let Some(v) = self.cpu.st.checked_sub(1) {
            self.cpu.st = v;
        }
        (self.cpu.dt, self.cpu.st)
    }
}

impl Default for Emulator {
    fn default() -> (e: Self)
        ensures
            e@.cpu == CpuView::reset(),
            e@.mem.cells == Seq::new(MEM_SIZE as nat, |k: int| 0u8),
            e@.mem.font_base == 0,
            e@.scr == blank(),
            e@.kbd == Seq::new(KEY_COUNT as nat, |k: int| false),
    {
        Self::new()
    }
}

} // verus!
