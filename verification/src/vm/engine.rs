//! The engine: the arena, the scheduler and the champions of one battle.
//!
//! Champions are loaded once; then each call of [`GameEngine::tick`] runs
//! one cycle, until no process is left, the period between death checks has
//! shrunk to nothing, or the configured number of cycles is reached.

use vstd::prelude::*;
use crate::constants::{MAX_CHAMPIONS, MEMORY_SIZE};
use crate::error::CoreWarError;
use crate::text::{decimal, decimal_text};
use crate::vm::loader::{all_loaded, addresses_view, load_all_fault, ChampionLoader, LoadFault};
use crate::vm::memory::{Memory, MemoryView};
use crate::vm::process::Process;
use crate::vm::scheduler::{
    alike,
    battle,
    no_room_text,
    Battle,
    Scheduler,
    SchedulerStats,
    SchedulerView,
};
use crate::vm::Champion;

verus! {

/// The configuration of an engine.
#[derive(Debug, Clone, Copy, PartialEq, Eq, Structural)]
pub struct GameConfig {
    /// The number of cycles after which the battle stops; zero for no limit.
    pub max_cycles: u32,
    /// The number of cycles between memory dumps; zero for none.
    pub dump_cycles: u32,
    /// The speed of the display.
    pub speed: u32,
    /// Whether to report what happens.
    pub verbose: bool,
    /// Whether the engine starts paused.
    pub start_paused: bool,
}

impl Default for GameConfig {
    fn default() -> (config: Self)
        ensures
            config == (GameConfig {
                max_cycles: 0,
                dump_cycles: 0,
                speed: 1,
                verbose: false,
                start_paused: false,
            }),
    {
        GameConfig { max_cycles: 0, dump_cycles: 0, speed: 1, verbose: false, start_paused: false }
    }
}

/// The largest speed of the display.
pub const MAX_SPEED: u32 = 1000;

impl GameConfig {
    /// Whether the speed is one that the display takes: from one to a
    /// thousand.
    pub fn speed_in_range(&self) -> (b: bool)
        ensures
            b == (1 <= self.speed <= MAX_SPEED),
    {
        self.speed >= 1 && self.speed <= MAX_SPEED
    }
}

/// The state of a battle.
#[derive(Debug, Clone, Copy, PartialEq, Eq, Structural)]
pub struct GameState {
    /// The number of cycles that the engine has run.
    pub cycle: u32,
    /// Whether the battle is running.
    pub running: bool,
    /// Whether the battle is paused.
    pub paused: bool,
    /// The winner, once it has been determined.
    pub winner: Option<u8>,
}

/// Statistics of a battle.
#[derive(Debug, Clone, Copy, PartialEq, Eq, Structural)]
pub struct GameStats {
    pub cycle: u32,
    pub running: bool,
    pub paused: bool,
    pub active_processes: usize,
    pub active_champions: usize,
    pub winner: Option<u8>,
}

/// What an engine holds.
pub struct EngineView {
    pub memory: MemoryView,
    pub scheduler: SchedulerView,
    pub champions: Seq<Champion>,
    pub config: GameConfig,
    pub state: GameState,
}

/// The number of champions among the first `n` that have a process.
pub open spec fn active_count(champions: Seq<Champion>, n: int) -> int
    decreases n,
{
    if n <= 0 {
        0
    } else {
        active_count(champions, n - 1) + if champions[n - 1].process_count > 0 {
            1int
        } else {
            0int
        }
    }
}

/// The id of the last champion among the first `n` that has a process.
pub open spec fn last_active(champions: Seq<Champion>, n: int) -> Option<u8>
    decreases n,
{
    if n <= 0 {
        None
    } else if champions[n - 1].process_count > 0 {
        Some(champions[n - 1].id)
    } else {
        last_active(champions, n - 1)
    }
}

/// The message of the error for an engine without champions.
pub open spec fn no_champions_text() -> Seq<char> {
    "No champions loaded"@
}

/// The message of the error for loading no champion.
pub open spec fn no_files_text() -> Seq<char> {
    "No champion files provided"@
}

/// The message of the error for loading too many champions.
pub open spec fn too_many_text(count: int) -> Seq<char> {
    "Too many champions: "@ + decimal_text(count) + " (max "@ + decimal_text(
        MAX_CHAMPIONS as int,
    ) + ")"@
}

impl EngineView {
    /// The arena and the scheduler are well formed, and the ids of the
    /// processes are in order.
    pub open spec fn wf(self) -> bool {
        self.memory.wf() && self.scheduler.wf() && self.scheduler.ids_ordered()
    }

    /// The battle of the engine.
    pub open spec fn battle(self) -> Battle {
        battle(self.scheduler, self.memory, self.champions)
    }

    /// A new engine.
    pub open spec fn fresh(config: GameConfig) -> EngineView {
        EngineView {
            memory: MemoryView::cleared(),
            scheduler: SchedulerView {
                processes: Seq::<Process>::empty(),
                next_process_id: 1,
                current_cycle: 0,
                cycle_to_die: crate::constants::CYCLE_TO_DIE,
                live_count: 0,
                total_live_count: 0,
                checks_since_reduction: 0,
                last_check_cycle: 0,
                last_declared: None,
                output: Seq::<u8>::empty(),
            },
            champions: Seq::<Champion>::empty(),
            config,
            state: GameState { cycle: 0, running: false, paused: config.start_paused, winner: None },
        }
    }

    /// The engine with `champions` as its champions and the first `k` of
    /// them installed: the code in the arena, owned by the champion, and one
    /// new process at the load address.
    pub open spec fn installed(self, champions: Seq<Champion>, k: int) -> EngineView
        decreases k,
    {
        if k <= 0 {
            EngineView { champions, ..self }
        } else {
            let e = self.installed(champions, k - 1);
            let c = champions[k - 1];
            EngineView {
                memory: e.memory.load_code(c.load_address as int, c.code@, c.id),
                scheduler: SchedulerView {
                    processes: e.scheduler.processes.push(
                        Process::fresh(e.scheduler.next_process_id, c.id, c.load_address, c.color),
                    ),
                    next_process_id: (e.scheduler.next_process_id + 1) as u32,
                    ..e.scheduler
                },
                ..e
            }
        }
    }

    /// Whether a call of `tick` runs a cycle: the battle is running and not
    /// paused.
    pub open spec fn active(self) -> bool {
        self.state.running && !self.state.paused
    }

    /// Whether there is room for one more cycle.
    pub open spec fn has_room(self) -> bool {
        self.battle().has_room() && self.state.cycle < u32::MAX
    }

    /// Whether the configured number of cycles is reached after `cycle`
    /// cycles.
    pub open spec fn limit_reached(self, cycle: int) -> bool {
        self.config.max_cycles > 0 && cycle >= self.config.max_cycles
    }

    /// The engine after one cycle. The battle stops when no process is left,
    /// when the period between death checks has shrunk to nothing, or when
    /// the configured number of cycles is reached.
    #[verifier::opaque]
    pub open spec fn ticked(self) -> EngineView {
        let b = self.battle().ticked();
        EngineView {
            memory: b.memory,
            scheduler: b.scheduler,
            champions: b.champions,
            config: self.config,
            state: GameState {
                cycle: (self.state.cycle + 1) as u32,
                running: b.scheduler.goes_on() && !self.limit_reached(self.state.cycle + 1),
                ..self.state
            },
        }
    }

    /// The engine after one call of `tick`: a cycle later if the battle is
    /// running, not paused, and has room; else as it was.
    pub open spec fn stepped(self) -> EngineView {
        if self.active() && self.has_room() {
            self.ticked()
        } else {
            self
        }
    }

    /// The engine after `n` calls of `tick`.
    pub open spec fn after(self, n: nat) -> EngineView
        decreases n,
    {
        if n == 0 {
            self
        } else {
            self.after((n - 1) as nat).stepped()
        }
    }

    /// The engine with the battle running.
    pub open spec fn started(self) -> EngineView {
        EngineView { state: GameState { running: true, ..self.state }, ..self }
    }

    /// The engine with the winner recorded.
    pub open spec fn with_winner(self) -> EngineView {
        EngineView { state: GameState { winner: self.winner(), ..self.state }, ..self }
    }

    /// Whether the battle runs for exactly `n` cycles from here: each of the
    /// first `n` calls of `tick` runs a cycle, and the next would not.
    pub open spec fn runs_for(self, n: nat) -> bool {
        &&& forall|k: nat|
            k < n ==> (#[trigger] self.after(k)).active() && self.after(k).has_room()
        &&& !(self.after(n).active() && self.after(n).has_room())
    }

    /// Whether the clock is within the configured number of cycles: not
    /// past it, and short of it while the battle runs.
    pub open spec fn within_limit(self) -> bool {
        self.state.cycle <= self.config.max_cycles && (self.state.running ==> self.state.cycle
            < self.config.max_cycles)
    }

    /// The winner as things stand: the one champion that has processes, if
    /// there is exactly one; else the champion that a `live` named last, if
    /// one was named; else nobody.
    pub open spec fn winner(self) -> Option<u8> {
        if active_count(self.champions, self.champions.len() as int) == 1 {
            last_active(self.champions, self.champions.len() as int)
        } else {
            self.scheduler.last_declared
        }
    }
}

/// Whether two engines agree in the configuration, the state, the
/// scheduler, the arena and the standing of the champions.
pub open spec fn engines_alike(first: EngineView, second: EngineView) -> bool {
    first.config == second.config && first.state == second.state && alike(
        first.battle(),
        second.battle(),
    )
}

/// One call of `tick` that runs a cycle moves both cycle counters on by
/// exactly one, keeps every program counter in the arena and never
/// lengthens the period between death checks.
pub proof fn lemma_tick(e: EngineView)
    requires
        e.wf(),
        e.active(),
        e.has_room(),
    ensures
        e.stepped() == e.ticked(),
        e.ticked().wf(),
        e.ticked().scheduler.current_cycle == e.scheduler.current_cycle + 1,
        e.ticked().state.cycle == e.state.cycle + 1,
        e.ticked().scheduler.cycle_to_die <= e.scheduler.cycle_to_die,
        forall|j: int|
            0 <= j < e.ticked().scheduler.processes.len() ==> (
            #[trigger] e.ticked().scheduler.processes[j]).pc < MEMORY_SIZE,
        e.ticked().config == e.config,
{
    reveal(EngineView::ticked);
    crate::vm::scheduler::lemma_ticked(e.battle());
    crate::vm::scheduler::lemma_ticked_ids(e.battle());
}

/// No two processes of an engine ever share an id.
pub proof fn lemma_ids_unique(e: EngineView, n: nat, i: int, j: int)
    requires
        e.wf(),
        0 <= i < e.after(n).scheduler.processes.len(),
        0 <= j < e.after(n).scheduler.processes.len(),
        i != j,
    ensures
        e.after(n).scheduler.processes[i].id != e.after(n).scheduler.processes[j].id,
{
    lemma_after(e, n);
    let processes = e.after(n).scheduler.processes;
    if i < j {
        assert(processes[i].id < processes[j].id);
    } else {
        assert(processes[j].id < processes[i].id);
    }
}

/// At any tick every program counter lies in the arena; the period between
/// death checks has not grown; and the clock has moved on by no more than
/// the number of ticks, and by as much as the engine's own count of cycles.
pub proof fn lemma_after(e: EngineView, n: nat)
    requires
        e.wf(),
    ensures
        e.after(n).wf(),
        forall|j: int|
            0 <= j < e.after(n).scheduler.processes.len() ==> (
            #[trigger] e.after(n).scheduler.processes[j]).pc < MEMORY_SIZE,
        e.after(n).scheduler.cycle_to_die <= e.scheduler.cycle_to_die,
        e.scheduler.current_cycle <= e.after(n).scheduler.current_cycle <= e.scheduler.current_cycle
            + n,
        e.after(n).scheduler.current_cycle - e.scheduler.current_cycle == e.after(n).state.cycle
            - e.state.cycle,
    decreases n,
{
    if n > 0 {
        let before = e.after((n - 1) as nat);
        lemma_after(e, (n - 1) as nat);
        if before.active() && before.has_room() {
            lemma_tick(before);
        }
    }
    assert forall|j: int| 0 <= j < e.after(n).scheduler.processes.len() implies (
    #[trigger] e.after(n).scheduler.processes[j]).pc < MEMORY_SIZE by {
        assert(crate::vm::scheduler::admissible(e.after(n).scheduler.processes[j]));
    }
}

/// Ticks leave the configuration as it was.
pub proof fn lemma_after_config(e: EngineView, n: nat)
    ensures
        e.after(n).config == e.config,
    decreases n,
{
    if n > 0 {
        lemma_after_config(e, (n - 1) as nat);
        reveal(EngineView::ticked);
    }
}

/// A limit on the number of cycles holds: an engine with such a limit whose
/// clock is within it stays within it, whatever the number of ticks. Once
/// the battle no longer runs, no more cycles than the limit have been run.
pub proof fn lemma_cycle_limit(e: EngineView, n: nat)
    requires
        e.config.max_cycles > 0,
        e.within_limit(),
    ensures
        e.after(n).config == e.config,
        e.after(n).within_limit(),
        e.after(n).state.cycle <= e.config.max_cycles,
    decreases n,
{
    if n > 0 {
        let before = e.after((n - 1) as nat);
        lemma_cycle_limit(e, (n - 1) as nat);
        if before.active() && before.has_room() {
            reveal(EngineView::ticked);
        }
    }
}

/// Installing champions leaves the configuration and the state of the
/// engine as they were.
pub proof fn lemma_installed_state(e: EngineView, champions: Seq<Champion>, k: int)
    ensures
        e.installed(champions, k).config == e.config,
        e.installed(champions, k).state == e.state,
    decreases k,
{
    if k > 0 {
        lemma_installed_state(e, champions, k - 1);
    }
}

/// A battle with a limit on the number of cycles, run from the start, never
/// runs more cycles than the limit.
pub proof fn lemma_limit_from_start(config: GameConfig, champions: Seq<Champion>, k: int, n: nat)
    requires
        config.max_cycles > 0,
    ensures
        EngineView::fresh(config).installed(champions, k).started().after(n).state.cycle
            <= config.max_cycles,
{
    lemma_installed_state(EngineView::fresh(config), champions, k);
    lemma_cycle_limit(EngineView::fresh(config).installed(champions, k).started(), n);
}

/// Among the first `n` champions, where none but champion `k` has
/// processes: one is counted, and it is the last that has any, once `k` is
/// among them.
proof fn lemma_sole_active(champions: Seq<Champion>, k: int, n: int)
    requires
        0 <= k < champions.len(),
        0 <= n <= champions.len(),
        champions[k].process_count > 0,
        forall|j: int| 0 <= j < champions.len() && j != k ==> (#[trigger] champions[j]).process_count == 0,
    ensures
        active_count(champions, n) == (if n > k {
            1int
        } else {
            0int
        }),
        last_active(champions, n) == (if n > k {
            Some(champions[k].id)
        } else {
            None
        }),
    decreases n,
{
    if n > 0 {
        lemma_sole_active(champions, k, n - 1);
        if n - 1 != k {
            assert(champions[n - 1].process_count == 0);
        }
    }
}

/// Where exactly one champion has processes, that champion is the winner,
/// whoever was named last.
pub proof fn lemma_sole_champion_wins(e: EngineView, k: int)
    requires
        0 <= k < e.champions.len(),
        e.champions[k].process_count > 0,
        forall|j: int|
            0 <= j < e.champions.len() && j != k ==> (#[trigger] e.champions[j]).process_count == 0,
    ensures
        e.winner() == Some(e.champions[k].id),
        e.with_winner().state.winner == Some(e.champions[k].id),
{
    lemma_sole_active(e.champions, k, e.champions.len() as int);
}

/// After a cycle the champions stand where they stood, each with its id,
/// and each has as many processes as are left of its own.
pub proof fn lemma_tick_counts(e: EngineView)
    requires
        e.active(),
        e.has_room(),
    ensures
        e.stepped().champions.len() == e.champions.len(),
        forall|k: int|
            0 <= k < e.champions.len() ==> (#[trigger] e.stepped().champions[k]).id
                == e.champions[k].id && e.stepped().champions[k].process_count
                == crate::vm::scheduler::owned(
                e.stepped().scheduler.processes,
                e.champions[k].id,
                e.stepped().scheduler.processes.len() as int,
            ) as usize,
{
    reveal(EngineView::ticked);
    crate::vm::scheduler::lemma_ticked_counts(e.battle());
}

/// The engine is deterministic: two engines that agree in the
/// configuration, the state, the scheduler, the arena and the standing of
/// the champions agree in all of these after any number of ticks. Their
/// arenas and their processes are then the same.
pub proof fn lemma_determinism(first: EngineView, second: EngineView, n: nat)
    requires
        first.wf(),
        engines_alike(first, second),
    ensures
        engines_alike(first.after(n), second.after(n)),
        first.after(n).memory == second.after(n).memory,
        first.after(n).scheduler.processes == second.after(n).scheduler.processes,
    decreases n,
{
    if n > 0 {
        let a = first.after((n - 1) as nat);
        let b = second.after((n - 1) as nat);
        lemma_determinism(first, second, (n - 1) as nat);
        lemma_after(first, (n - 1) as nat);
        if a.active() && a.has_room() {
            reveal(EngineView::ticked);
            crate::vm::scheduler::lemma_ticked_alike(a.battle(), b.battle());
        }
    }
}

/// Loading is deterministic: champions that agree in id, code, load address
/// and colour leave the same arena and the same processes behind when they
/// are installed in the same engine.
pub proof fn lemma_installed_alike(e: EngineView, first: Seq<Champion>, second: Seq<Champion>, k: int)
    requires
        0 <= k <= first.len(),
        first.len() == second.len(),
        forall|i: int|
            0 <= i < first.len() ==> (#[trigger] first[i]).id == second[i].id && first[i].code@
                == second[i].code@ && first[i].load_address == second[i].load_address
                && first[i].color == second[i].color,
    ensures
        e.installed(first, k).memory == e.installed(second, k).memory,
        e.installed(first, k).scheduler == e.installed(second, k).scheduler,
        e.installed(first, k).config == e.installed(second, k).config,
        e.installed(first, k).state == e.installed(second, k).state,
        e.installed(first, k).champions == first,
    decreases k,
{
    if k > 0 {
        lemma_installed_alike(e, first, second, k - 1);
        assert(first[k - 1].id == second[k - 1].id);
    }
}

/// The number of bytes of the arena that a dump shows.
pub const DUMP_LENGTH: usize = 512;

/// The line of a dump that tells of one champion.
pub open spec fn champion_line(c: Champion) -> Seq<char> {
    "Champion "@ + decimal_text(c.id as int) + ": "@ + c.name@ + " ("@ + decimal_text(
        c.process_count as int,
    ) + " processes)\n"@
}

/// The lines of a dump that tell of the first `n` champions.
pub open spec fn champion_lines(champions: Seq<Champion>, n: int) -> Seq<char>
    decreases n,
{
    if n <= 0 {
        Seq::<char>::empty()
    } else {
        champion_lines(champions, n - 1) + champion_line(champions[n - 1])
    }
}

/// The text of a dump of an engine: the cycle, the start of the arena in
/// hex, the number of processes, and a line for each champion.
pub open spec fn dump_of(e: EngineView) -> Seq<char> {
    "\n=== Memory Dump (Cycle "@ + decimal_text(e.state.cycle as int) + ") ===\n"@
        + crate::vm::memory::dump_hex_text(e.memory, 0, DUMP_LENGTH as nat)
        + "\n=== Process Information ===\nActive processes: "@ + decimal_text(
        e.scheduler.processes.len() as int,
    ) + "\n"@ + champion_lines(e.champions, e.champions.len() as int) + "\n"@
}

/// The engine of a battle.
#[derive(Debug)]
pub struct GameEngine {
    /// The arena.
    memory: Memory,
    /// The scheduler.
    scheduler: Scheduler,
    /// The champions.
    champions: Vec<Champion>,
    /// The configuration.
    config: GameConfig,
    /// The state of the battle.
    state: GameState,
}

impl View for GameEngine {
    type V = EngineView;

    closed spec fn view(&self) -> EngineView {
        EngineView {
            memory: self.memory@,
            scheduler: self.scheduler@,
            champions: self.champions@,
            config: self.config,
            state: self.state,
        }
    }
}

impl GameEngine {
    /// A new engine: an empty arena, no process, no champion, not running.
    pub fn new(config: GameConfig) -> (engine: Self)
        ensures
            engine@ == EngineView::fresh(config),
            engine@.wf(),
    {
        GameEngine {
            memory: Memory::new(),
            scheduler: Scheduler::new(),
            champions: Vec::new(),
            config,
            state: GameState { cycle: 0, running: false, paused: config.start_paused, winner: None },
        }
    }

    /// A new engine that appends what `aff` emits to the given bytes.
    pub fn with_output(config: GameConfig, output: Vec<u8>) -> (engine: Self)
        ensures
            engine@ == (EngineView {
                scheduler: SchedulerView {
                    output: output@,
                    ..EngineView::fresh(config).scheduler
                },
                ..EngineView::fresh(config)
            }),
            engine@.wf(),
    {
        GameEngine {
            memory: Memory::new(),
            scheduler: Scheduler::with_output(output),
            champions: Vec::new(),
            config,
            state: GameState { cycle: 0, running: false, paused: config.start_paused, winner: None },
        }
    }

    /// Starts the battle. An engine without champions cannot start.
    pub fn start(&mut self) -> (r: Result<(), CoreWarError>)
        ensures
            old(self)@.champions.len() > 0 ==> r is Ok && final(self)@ == (EngineView {
                state: GameState { running: true, ..old(self)@.state },
                ..old(self)@
            }),
            old(self)@.champions.len() == 0 ==> final(self)@ == old(self)@ && (r matches Err(
                CoreWarError::GameState { message },
            ) && message@ == no_champions_text()),
    {
        if self.champions.len() == 0 {
            return Err(CoreWarError::game_state(String::from_str("No champions loaded")));
        }
        self.state.running = true;
        Ok(())
    }

    /// Pauses the battle.
    pub fn pause(&mut self)
        ensures
            final(self)@ == (EngineView {
                state: GameState { paused: true, ..old(self)@.state },
                ..old(self)@
            }),
    {
        self.state.paused = true;
    }

    /// Resumes the battle.
    pub fn resume(&mut self)
        ensures
            final(self)@ == (EngineView {
                state: GameState { paused: false, ..old(self)@.state },
                ..old(self)@
            }),
    {
        self.state.paused = false;
    }

    /// Pauses a battle that runs, resumes one that is paused.
    pub fn toggle_pause(&mut self)
        ensures
            final(self)@ == (EngineView {
                state: GameState { paused: !old(self)@.state.paused, ..old(self)@.state },
                ..old(self)@
            }),
    {
        if self.state.paused {
            self.resume();
        } else {
            self.pause();
        }
    }

    /// Says whether the battle is running.
    pub fn set_running(&mut self, running: bool)
        ensures
            final(self)@ == (EngineView {
                state: GameState { running, ..old(self)@.state },
                ..old(self)@
            }),
    {
        self.state.running = running;
    }

    /// The arena.
    pub fn memory(&self) -> (m: &Memory)
        ensures
            m@ == self@.memory,
    {
        &self.memory
    }

    /// The champions.
    pub fn champions(&self) -> (c: &Vec<Champion>)
        ensures
            c@ == self@.champions,
    {
        &self.champions
    }

    /// The state of the battle.
    pub fn state(&self) -> (s: &GameState)
        ensures
            *s == self@.state,
    {
        &self.state
    }

    /// The configuration.
    pub fn config(&self) -> (c: &GameConfig)
        ensures
            *c == self@.config,
    {
        &self.config
    }

    /// Statistics of the scheduler.
    pub fn scheduler_stats(&self) -> (stats: SchedulerStats)
        ensures
            stats == (SchedulerStats {
                current_cycle: self@.scheduler.current_cycle,
                cycle_to_die: self@.scheduler.cycle_to_die,
                process_count: self@.scheduler.processes.len() as usize,
                live_count: self@.scheduler.live_count,
                total_live_count: self@.scheduler.total_live_count,
            }),
    {
        self.scheduler.get_stats()
    }

    /// The processes, in the order of their creation.
    pub fn processes(&self) -> (list: Vec<&Process>)
        ensures
            list@.len() == self@.scheduler.processes.len(),
            forall|i: int|
                0 <= i < list@.len() ==> *(#[trigger] list@[i]) == self@.scheduler.processes[i],
    {
        self.scheduler.processes()
    }

    /// The bytes that `aff` has emitted, in order.
    pub fn aff_output(&self) -> (bytes: &Vec<u8>)
        ensures
            bytes@ == self@.scheduler.output,
    {
        self.scheduler.output()
    }

    /// Whether a dump of the arena is due: dumps are asked for, and the
    /// number of cycles run is a multiple of the number between dumps.
    pub fn dump_due(&self) -> (b: bool)
        ensures
            b == (self@.config.dump_cycles > 0 && self@.state.cycle % self@.config.dump_cycles
                == 0),
    {
        self.config.dump_cycles > 0 && self.state.cycle % self.config.dump_cycles == 0
    }

    /// The text of a dump: the cycle, the start of the arena in hex, the
    /// number of processes, and a line for each champion.
    pub fn dump_text(&self) -> (text: String)
        ensures
            text@ == dump_of(self@),
    {
        let mut text = String::from_str("\n=== Memory Dump (Cycle ");
        text.append(decimal(self.state.cycle as i128).as_str());
        text.append(") ===\n");
        text.append(self.memory.dump_hex(0, DUMP_LENGTH).as_str());
        text.append("\n=== Process Information ===\nActive processes: ");
        text.append(decimal(self.scheduler.process_count() as i128).as_str());
        text.append("\n");
        let ghost head = text@;
        let n = self.champions.len();
        let mut i: usize = 0;
        while i < n
            invariant
                i <= n,
                n == self.champions@.len(),
                text@ == head + champion_lines(self.champions@, i as int),
            decreases n - i,
        {
            let ghost before = text@;
            let champion = &self.champions[i];
            let mut line = String::from_str("Champion ");
            line.append(decimal(champion.id as i128).as_str());
            line.append(": ");
            line.append(champion.name.as_str());
            line.append(" (");
            line.append(decimal(champion.process_count as i128).as_str());
            line.append(" processes)\n");
            assert(line@ =~= champion_line(self.champions@[i as int]));
            text.append(line.as_str());
            assert(text@ =~= head + champion_lines(self.champions@, i + 1));
            i += 1;
        }
        text.append("\n");
        assert(text@ =~= dump_of(self@));
        text
    }

    /// The number of champions that have a process.
    fn count_active(&self) -> (r: (usize, Option<u8>))
        ensures
            r.0 == active_count(self@.champions, self@.champions.len() as int),
            r.1 == last_active(self@.champions, self@.champions.len() as int),
    {
        let n = self.champions.len();
        let mut count: usize = 0;
        let mut last: Option<u8> = None;
        let mut i: usize = 0;
        while i < n
            invariant
                i <= n,
                n == self.champions@.len(),
                count == active_count(self.champions@, i as int),
                count <= i,
                last == last_active(self.champions@, i as int),
            decreases n - i,
        {
            if self.champions[i].process_count > 0 {
                count += 1;
                last = Some(self.champions[i].id);
            }
            i += 1;
        }
        (count, last)
    }

    /// Statistics of the battle.
    pub fn get_stats(&self) -> (stats: GameStats)
        ensures
            stats == (GameStats {
                cycle: self@.state.cycle,
                running: self@.state.running,
                paused: self@.state.paused,
                active_processes: self@.scheduler.processes.len() as usize,
                active_champions: active_count(
                    self@.champions,
                    self@.champions.len() as int,
                ) as usize,
                winner: self@.state.winner,
            }),
    {
        let (active, _) = self.count_active();
        GameStats {
            cycle: self.state.cycle,
            running: self.state.running,
            paused: self.state.paused,
            active_processes: self.scheduler.process_count(),
            active_champions: active,
            winner: self.state.winner,
        }
    }

    /// Determines the winner as things stand, and records it: the one
    /// champion that has processes, if there is exactly one; else the
    /// champion that a `live` named last; else nobody.
    pub fn determine_winner(&mut self) -> (r: Result<Option<u8>, CoreWarError>)
        ensures
            r == Ok::<Option<u8>, CoreWarError>(old(self)@.winner()),
            final(self)@ == (EngineView {
                state: GameState { winner: old(self)@.winner(), ..old(self)@.state },
                ..old(self)@
            }),
    {
        let (active, last) = self.count_active();
        let winner = if active == 1 {
            last
        } else {
            self.scheduler.last_declared()
        };
        self.state.winner = winner;
        Ok(winner)
    }

    /// Runs one cycle, if the battle is running and not paused, and returns
    /// whether the battle is running afterwards. Where the cycle counters or
    /// the process ids are exhausted, nothing changes and an error is
    /// returned.
    pub fn tick(&mut self) -> (r: Result<bool, CoreWarError>)
        requires
            old(self)@.wf(),
        ensures
            final(self)@.wf(),
            !old(self)@.active() ==> final(self)@ == old(self)@ && r == Ok::<bool, CoreWarError>(
                old(self)@.state.running,
            ),
            old(self)@.active() && old(self)@.has_room() ==> final(self)@ == old(self)@.ticked()
                && r == Ok::<bool, CoreWarError>(final(self)@.state.running),
            old(self)@.active() && !old(self)@.has_room() ==> final(self)@ == old(self)@ && (
            r matches Err(CoreWarError::Process { message }) && message@ == no_room_text()),
            final(self)@ == old(self)@.stepped(),
            r is Err <==> old(self)@.active() && !old(self)@.has_room(),
            r is Ok && old(self)@.active() ==> final(self)@.scheduler.current_cycle == old(
                self,
            )@.scheduler.current_cycle + 1 && final(self)@.state.cycle == old(self)@.state.cycle
                + 1,
            final(self)@.scheduler.cycle_to_die <= old(self)@.scheduler.cycle_to_die,
            forall|i: int|
                0 <= i < final(self)@.scheduler.processes.len() ==> (
                #[trigger] final(self)@.scheduler.processes[i]).pc < MEMORY_SIZE,
    {
        reveal(EngineView::ticked);
        if !self.state.running || self.state.paused {
            return Ok(self.state.running);
        }
        if self.state.cycle == u32::MAX {
            return Err(
                CoreWarError::process(
                    String::from_str("The cycle counter or the process ids are exhausted"),
                ),
            );
        }
        let should_continue = match self.scheduler.execute_cycle(
            &mut self.memory,
            self.champions.as_mut_slice(),
        ) {
            Ok(b) => b,
            Err(e) => {
                return Err(e);
            },
        };
        self.state.cycle += 1;
        if !should_continue {
            self.state.running = false;
        }
        if self.config.max_cycles > 0 && self.state.cycle >= self.config.max_cycles {
            self.state.running = false;
        }
        assert(forall|i: int|
            0 <= i < self@.scheduler.processes.len() ==> crate::vm::scheduler::admissible(
                #[trigger] self@.scheduler.processes[i],
            ));
        Ok(self.state.running)
    }

    /// Loads the champions of the battle from the bytes of their files:
    /// reads them, gives them the ids 1, 2, ... in order, copies their code
    /// into the arena at the addresses given or, where none are given, evenly
    /// spread, and creates one process for each. Where anything is wrong
    /// with the files or the addresses, the engine stays as it was.
    pub fn load_champions(&mut self, files: &[Vec<u8>], custom_addresses: Option<&[usize]>) -> (r:
        Result<(), CoreWarError>)
        requires
            old(self)@.wf(),
        ensures
            final(self)@.wf(),
            r is Err ==> final(self)@ == old(self)@,
            files@.len() == 0 ==> (r matches Err(CoreWarError::GameState { message }) && message@
                == no_files_text()),
            files@.len() > MAX_CHAMPIONS ==> (r matches Err(CoreWarError::GameState { message })
                && message@ == too_many_text(files@.len() as int)),
            0 < files@.len() <= MAX_CHAMPIONS ==> match load_all_fault(
                files@,
                true,
                addresses_view(custom_addresses),
            ) {
                Some(fault) => r matches Err(e) && crate::vm::loader::reports(e, fault),
                None => if old(self)@.scheduler.next_process_id + files@.len() > u32::MAX {
                    r matches Err(CoreWarError::Process { message }) && message@ == no_room_text()
                } else {
                    r is Ok && exists|champions: Seq<Champion>|
                        #![trigger old(self)@.installed(champions, files@.len() as int)]
                        all_loaded(champions, files@, true, addresses_view(custom_addresses))
                            && final(self)@ == old(self)@.installed(
                            champions,
                            files@.len() as int,
                        )
                },
            },
    {
        let n = files.len();
        if n == 0 {
            return Err(CoreWarError::game_state(String::from_str("No champion files provided")));
        }
        if n > MAX_CHAMPIONS {
            let mut message = String::from_str("Too many champions: ");
            message.append(decimal(n as i128).as_str());
            message.append(" (max ");
            message.append(decimal(MAX_CHAMPIONS as i128).as_str());
            message.append(")");
            return Err(CoreWarError::game_state(message));
        }
        let loader = ChampionLoader::new(true);
        let champions = match loader.load_champions(files, custom_addresses) {
            Ok(c) => c,
            Err(e) => {
                return Err(e);
            },
        };
        if n > (u32::MAX - self.scheduler.next_process_id()) as usize {
            return Err(
                CoreWarError::process(
                    String::from_str("The cycle counter or the process ids are exhausted"),
                ),
            );
        }
        let ghost start = self@;
        let ghost loaded = champions@;
        let ghost given = addresses_view(custom_addresses);
        self.champions = champions;
        let mut k: usize = 0;
        while k < n
            invariant
                k <= n,
                n == files@.len(),
                n == loaded.len(),
                self.champions@ == loaded,
                all_loaded(loaded, files@, true, given),
                start.wf(),
                start.scheduler.next_process_id + n <= u32::MAX,
                self@ == start.installed(loaded, k as int),
                self@.scheduler.next_process_id == start.scheduler.next_process_id + k,
                self@.wf(),
            decreases n - k,
        {
            assert(crate::vm::loader::loaded_at(files@, true, given, k as int) is Ok);
            let c = &self.champions[k];
            match self.memory.load_code(c.load_address, c.code.as_slice(), c.id) {
                Ok(()) => {},
                Err(e) => {
                    // Code that the loader has accepted fits the arena.
                    assert(false);
                    return Err(e);
                },
            }
            let process = self.scheduler.create_process(c);
            self.scheduler.add_process(process);
            k += 1;
        }
        Ok(())
    }

    /// Starts the battle and runs it until it is over or paused, then
    /// determines the winner.
    pub fn run_to_completion(&mut self) -> (r: Result<Option<u8>, CoreWarError>)
        requires
            old(self)@.wf(),
        ensures
            final(self)@.wf(),
            old(self)@.champions.len() == 0 ==> final(self)@ == old(self)@ && (r matches Err(
                CoreWarError::GameState { message },
            ) && message@ == no_champions_text()),
            old(self)@.champions.len() > 0 ==> exists|n: nat|
                #![trigger old(self)@.started().runs_for(n)]
                old(self)@.started().runs_for(n) && if old(self)@.started().after(n).active() {
                    final(self)@ == old(self)@.started().after(n) && (r matches Err(
                        CoreWarError::Process { message },
                    ) && message@ == no_room_text())
                } else {
                    final(self)@ == old(self)@.started().after(n).with_winner() && r == Ok::<
                        Option<u8>,
                        CoreWarError,
                    >(old(self)@.started().after(n).winner())
                },
            old(self)@.config.max_cycles > 0 && old(self)@.state.cycle
                < old(self)@.config.max_cycles ==> final(self)@.state.cycle
                <= old(self)@.config.max_cycles,
            final(self)@.config == old(self)@.config,
    {
        match self.start() {
            Ok(()) => {},
            Err(e) => {
                return Err(e);
            },
        }
        let ghost started = self@;
        assert(started == old(self)@.started());
        match self.run() {
            Ok(()) => {},
            Err(e) => {
                return Err(e);
            },
        }
        self.determine_winner()
    }

    /// Runs cycles until the battle is over or paused, or there is no room
    /// for another.
    fn run(&mut self) -> (r: Result<(), CoreWarError>)
        requires
            old(self)@.wf(),
        ensures
            final(self)@.wf(),
            exists|n: nat|
                #![trigger old(self)@.runs_for(n)]
                old(self)@.runs_for(n) && final(self)@ == old(self)@.after(n),
            r is Err <==> final(self)@.active(),
            r matches Err(e) ==> (e matches CoreWarError::Process { message } && message@
                == no_room_text()),
            old(self)@.config.max_cycles > 0 && old(self)@.within_limit()
                ==> final(self)@.within_limit(),
            final(self)@.config == old(self)@.config,
    {
        let ghost started = self@;
        let ghost mut n: nat = 0;
        proof {
            lemma_after_config(started, 0);
        }
        while self.state.running && !self.state.paused
            invariant
                started == old(self)@,
                self@.wf(),
                self@ == started.after(n),
                forall|k: nat|
                    k < n ==> (#[trigger] started.after(k)).active() && started.after(k).has_room(),
            decreases u32::MAX - self@.state.cycle,
        {
            let ghost before = self@;
            match self.tick() {
                Ok(_) => {
                    proof {
                        assert(started.after((n + 1) as nat) == before.stepped());
                        n = n + 1;
                    }
                },
                Err(e) => {
                    assert(before.active() && !before.has_room());
                    assert(self@ == before);
                    assert(started.runs_for(n));
                    proof {
                        lemma_after_config(started, n);
                        if started.config.max_cycles > 0 && started.within_limit() {
                            lemma_cycle_limit(started, n);
                        }
                    }
                    return Err(e);
                },
            }
        }
        assert(started.runs_for(n));
        proof {
            lemma_after_config(started, n);
            if started.config.max_cycles > 0 && started.within_limit() {
                lemma_cycle_limit(started, n);
            }
        }
        Ok(())
    }
}

} // verus!
