//! The scheduler: runs the processes cycle by cycle and culls the silent.
//!
//! In every cycle each process, in the order in which the processes were
//! created, grows one cycle older and waits one cycle less. A process whose
//! wait is over commits what it has pending and decodes what now stands at
//! its program counter, which becomes pending for as many cycles as the
//! instruction costs. What does not decode costs one cycle and kills the
//! process when that cycle is over. Children of forks join the end of the
//! list and first run in the cycle after their birth.
//!
//! When a period of `cycle_to_die` cycles is over, the death check kills
//! every process that has not declared itself alive since the previous check
//! and, if enough `live` instructions were executed or enough checks have
//! passed, shortens the period.

use vstd::prelude::*;
use crate::constants::{CYCLE_DELTA, CYCLE_TO_DIE, MAX_CHECKS, MEMORY_SIZE, NBR_LIVE};
use crate::error::CoreWarError;
use crate::vm::decoder::{decode, decode_at};
use crate::vm::executor::{execute, next_pc, outcome, reach, Effect};
use crate::vm::instruction::{DecodedInstruction, Instruction};
use crate::vm::memory::{wrap, Memory, MemoryView};
use crate::vm::process::{Pending, Process};
use crate::vm::Champion;

verus! {

/// What a scheduler holds.
pub struct SchedulerView {
    /// The processes, in the order of their creation.
    pub processes: Seq<Process>,
    /// The id that the next process gets.
    pub next_process_id: u32,
    /// The number of cycles run.
    pub current_cycle: u32,
    /// The length of a period.
    pub cycle_to_die: u32,
    /// The number of `live` instructions executed in this period.
    pub live_count: u32,
    /// The number of `live` instructions executed in all.
    pub total_live_count: u32,
    /// The number of death checks in a row that left the period as it was.
    pub checks_since_reduction: u32,
    /// The cycle of the last death check.
    pub last_check_cycle: u32,
    /// The champion that a `live` named last.
    pub last_declared: Option<u8>,
    /// The bytes that `aff` has emitted.
    pub output: Seq<u8>,
}

/// A battle: the scheduler, the arena and the champions.
pub struct Battle {
    pub scheduler: SchedulerView,
    pub memory: MemoryView,
    pub champions: Seq<Champion>,
}

/// One more, as far as 32 bits go.
pub open spec fn saturated_next(x: u32) -> u32 {
    if x < u32::MAX {
        (x + 1) as u32
    } else {
        x
    }
}

/// A process one cycle later: a cycle older, a cycle less to wait.
pub open spec fn aged(p: Process) -> Process {
    Process {
        live_counter: saturated_next(p.live_counter),
        wait_cycles: if p.wait_cycles > 0 {
            (p.wait_cycles - 1) as u32
        } else {
            0
        },
        ..p
    }
}

/// Whether a process may be in a scheduler: its program counter lies in the
/// arena and what it has pending is well formed.
pub open spec fn admissible(p: Process) -> bool {
    p.wf() && (p.pending matches Pending::Ready(d) ==> d.wf())
}

/// Whether `value` is the id of one of the champions.
pub open spec fn names_champion(champions: Seq<Champion>, value: i32) -> bool {
    exists|k: int| 0 <= k < champions.len() && (#[trigger] champions[k]).id == value
}

/// The champions after a process of champion `owner` has executed `live`:
/// the owner has one more `live` in this period.
pub open spec fn credited(champions: Seq<Champion>, owner: u8) -> Seq<Champion> {
    Seq::new(
        champions.len(),
        |k: int|
            if champions[k].id == owner {
                Champion { live_count: saturated_next(champions[k].live_count), ..champions[k] }
            } else {
                champions[k]
            },
    )
}

/// The number of processes of champion `id` among the first `n`.
pub open spec fn owned(processes: Seq<Process>, id: u8, n: int) -> int
    decreases n,
{
    if n <= 0 {
        0
    } else {
        owned(processes, id, n - 1) + if processes[n - 1].champion_id == id {
            1int
        } else {
            0int
        }
    }
}

/// The champions with their processes counted.
pub open spec fn counted(champions: Seq<Champion>, processes: Seq<Process>) -> Seq<Champion> {
    Seq::new(
        champions.len(),
        |k: int|
            Champion {
                process_count: owned(processes, champions[k].id, processes.len() as int) as usize,
                ..champions[k]
            },
    )
}

/// The champions at the start of a new period: no `live` yet.
pub open spec fn rested(champions: Seq<Champion>) -> Seq<Champion> {
    Seq::new(champions.len(), |k: int| Champion { live_count: 0, ..champions[k] })
}

/// Whether a process stays in the list at the end of a cycle: it is alive
/// and, if a death check is due, it has declared itself alive no earlier
/// than the previous check, `since` cycles ago.
pub open spec fn stays(p: Process, cull: Option<int>) -> bool {
    p.alive && (cull matches Some(since) ==> p.live_counter <= since)
}

/// Those of the first `n` processes that stay, in order.
pub open spec fn survivors(processes: Seq<Process>, cull: Option<int>, n: int) -> Seq<Process>
    decreases n,
{
    if n <= 0 {
        Seq::<Process>::empty()
    } else if stays(processes[n - 1], cull) {
        survivors(processes, cull, n - 1).push(processes[n - 1])
    } else {
        survivors(processes, cull, n - 1)
    }
}

impl SchedulerView {
    /// The cycle at which a process last declared itself alive.
    pub open spec fn last_live_cycle(self, p: Process) -> int {
        self.current_cycle - p.live_counter
    }

    /// The cycle at which a process commits what it has pending.
    pub open spec fn wait_until_cycle(self, p: Process) -> int {
        self.current_cycle + p.wait_cycles
    }

    /// Whether a death check is due in the current cycle.
    pub open spec fn check_due(self) -> bool {
        self.current_cycle >= self.last_check_cycle + self.cycle_to_die
    }

    /// Whether the death check shortens the period: enough `live`
    /// instructions in the period, or enough checks without shortening.
    pub open spec fn shortens(self) -> bool {
        self.live_count >= NBR_LIVE || self.checks_since_reduction >= MAX_CHECKS
    }

    /// Every process may be in a scheduler, and the last check is not in the
    /// future.
    pub open spec fn wf(self) -> bool {
        &&& forall|i: int| 0 <= i < self.processes.len() ==> admissible(#[trigger] self.processes[i])
        &&& self.last_check_cycle <= self.current_cycle
    }

    /// The ids of the processes grow along the list, and the id that the
    /// next process gets is beyond them all: no two processes share an id.
    pub open spec fn ids_ordered(self) -> bool {
        &&& forall|i: int, j: int|
            0 <= i < j < self.processes.len() ==> (#[trigger] self.processes[i]).id < (
            #[trigger] self.processes[j]).id
        &&& forall|i: int|
            0 <= i < self.processes.len() ==> (#[trigger] self.processes[i]).id
                < self.next_process_id
    }

    /// Whether the battle goes on: there are processes and the period has
    /// not shrunk to nothing.
    pub open spec fn goes_on(self) -> bool {
        self.processes.len() > 0 && self.cycle_to_die > 0
    }
}

impl Battle {
    /// The battle with process `i` replaced.
    pub open spec fn with_process(self, i: int, p: Process) -> Battle {
        Battle {
            scheduler: SchedulerView {
                processes: self.scheduler.processes.update(i, p),
                ..self.scheduler
            },
            ..self
        }
    }

    /// The battle after a process of champion `owner` has executed `live`
    /// and named `value`: one more `live` for the period, for the total and
    /// for the owner; if `value` is a champion's id, that champion is the one
    /// named last.
    pub open spec fn declared(self, owner: u8, value: i32) -> Battle {
        Battle {
            scheduler: SchedulerView {
                live_count: saturated_next(self.scheduler.live_count),
                total_live_count: saturated_next(self.scheduler.total_live_count),
                last_declared: if names_champion(self.champions, value) {
                    Some(value as u8)
                } else {
                    self.scheduler.last_declared
                },
                ..self.scheduler
            },
            champions: credited(self.champions, owner),
            ..self
        }
    }

    /// The battle after `parent` has forked a child that starts at `pc`.
    pub open spec fn born(self, parent: Process, pc: usize) -> Battle {
        Battle {
            scheduler: SchedulerView {
                processes: self.scheduler.processes.push(
                    parent.forked(self.scheduler.next_process_id, pc, MEMORY_SIZE),
                ),
                next_process_id: (self.scheduler.next_process_id + 1) as u32,
                ..self.scheduler
            },
            ..self
        }
    }

    /// The battle after a byte has been emitted.
    pub open spec fn emitted(self, byte: u8) -> Battle {
        Battle {
            scheduler: SchedulerView { output: self.scheduler.output.push(byte), ..self.scheduler },
            ..self
        }
    }

    /// The battle after process `i`, in state `p`, has asked for `effect`.
    pub open spec fn affected(self, p: Process, effect: Effect) -> Battle {
        match effect {
            Effect::Nothing => self,
            Effect::Live { value } => self.declared(p.champion_id, value),
            Effect::Fork { pc } => self.born(p, pc),
            Effect::Aff { byte } => self.emitted(byte),
        }
    }

    /// The battle after process `i`, in state `p`, has committed what it had
    /// pending: nothing, its own death, or an instruction.
    pub open spec fn committed(self, i: int, p: Process) -> Battle {
        match p.pending {
            Pending::Idle => self.with_process(i, p),
            Pending::Fault => self.with_process(i, Process { alive: false, ..p }),
            Pending::Ready(d) => {
                let o = outcome(p, self.memory, d);
                let q = Process { pending: Pending::Idle, ..o.process };
                (Battle { memory: o.memory, ..self }).with_process(i, q).affected(q, o.effect)
            },
        }
    }

    /// The battle after process `i`, if it is alive, has decoded what stands
    /// at its program counter.
    pub open spec fn decoded(self, i: int) -> Battle {
        let p = self.scheduler.processes[i];
        if !p.alive {
            self
        } else {
            match decode_at(self.memory, p.pc as int) {
                Ok(d) => self.with_process(
                    i,
                    Process {
                        pending: Pending::Ready(d),
                        wait_cycles: d.instruction.cost() as u32,
                        ..p
                    },
                ),
                Err(_) => self.with_process(
                    i,
                    Process { pending: Pending::Fault, wait_cycles: 1, ..p },
                ),
            }
        }
    }

    /// The battle after process `i` has had its turn in a cycle.
    pub open spec fn stepped(self, i: int) -> Battle {
        let p = self.scheduler.processes[i];
        if !p.alive {
            self
        } else if aged(p).wait_cycles > 0 {
            self.with_process(i, aged(p))
        } else {
            self.committed(i, aged(p)).decoded(i)
        }
    }

    /// The battle after the processes from `i` up to `n` have had their
    /// turns, in order.
    pub open spec fn ran(self, i: int, n: int) -> Battle
        decreases n - i,
    {
        if i >= n {
            self
        } else {
            self.stepped(i).ran(i + 1, n)
        }
    }

    /// The number of cycles since the previous death check, if a check is
    /// due now.
    pub open spec fn cull(self) -> Option<int> {
        if self.scheduler.check_due() {
            Some(self.scheduler.current_cycle - self.scheduler.last_check_cycle)
        } else {
            None
        }
    }

    /// The battle at the end of a cycle: the dead are removed; if a death
    /// check is due, the silent are removed with them, the period is
    /// shortened or the count of checks grows, and a new period starts;
    /// the champions' processes are counted.
    pub open spec fn settled(self) -> Battle {
        let s = self.scheduler;
        let remaining = survivors(s.processes, self.cull(), s.processes.len() as int);
        if s.check_due() {
            Battle {
                scheduler: SchedulerView {
                    processes: remaining,
                    cycle_to_die: if !s.shortens() {
                        s.cycle_to_die
                    } else if s.cycle_to_die >= CYCLE_DELTA {
                        (s.cycle_to_die - CYCLE_DELTA) as u32
                    } else {
                        0
                    },
                    checks_since_reduction: if s.shortens() {
                        0
                    } else {
                        (s.checks_since_reduction + 1) as u32
                    },
                    live_count: 0,
                    last_check_cycle: s.current_cycle,
                    ..s
                },
                champions: counted(rested(self.champions), remaining),
                ..self
            }
        } else {
            Battle {
                scheduler: SchedulerView { processes: remaining, ..s },
                champions: counted(self.champions, remaining),
                ..self
            }
        }
    }

    /// The battle with the clock moved on by one cycle.
    pub open spec fn clocked(self) -> Battle {
        Battle {
            scheduler: SchedulerView {
                current_cycle: (self.scheduler.current_cycle + 1) as u32,
                ..self.scheduler
            },
            ..self
        }
    }

    /// Whether the battle has room for one more cycle: the clock can move
    /// on, and every process could fork and get an id.
    pub open spec fn has_room(self) -> bool {
        self.scheduler.current_cycle < u32::MAX && self.scheduler.next_process_id
            + self.scheduler.processes.len() <= u32::MAX
    }

    /// The battle one cycle later.
    pub open spec fn ticked(self) -> Battle {
        self.clocked().ran(0, self.scheduler.processes.len() as int).settled()
    }

    /// The scheduler and the arena are well formed.
    pub open spec fn wf(self) -> bool {
        self.scheduler.wf() && self.memory.wf()
    }
}

/// The turn of one process leaves the battle well formed and the clock, the
/// period and the last check as they were; the list of processes does not
/// shrink.
pub proof fn lemma_stepped(b: Battle, i: int)
    requires
        b.wf(),
        0 <= i < b.scheduler.processes.len(),
    ensures
        b.stepped(i).wf(),
        b.stepped(i).scheduler.current_cycle == b.scheduler.current_cycle,
        b.stepped(i).scheduler.cycle_to_die == b.scheduler.cycle_to_die,
        b.stepped(i).scheduler.last_check_cycle == b.scheduler.last_check_cycle,
        b.stepped(i).scheduler.checks_since_reduction == b.scheduler.checks_since_reduction,
        b.stepped(i).scheduler.processes.len() >= b.scheduler.processes.len(),
{
    let p = b.scheduler.processes[i];
    assert(admissible(p));
    if p.alive && aged(p).wait_cycles == 0 {
        let a = aged(p);
        let c = b.committed(i, a);
        match a.pending {
            Pending::Ready(d) => {
                crate::vm::executor::lemma_outcome_wf(a, b.memory, d);
                let o = outcome(a, b.memory, d);
                let q = Process { pending: Pending::Idle, ..o.process };
                let replaced = (Battle { memory: o.memory, ..b }).with_process(i, q);
                assert(replaced.wf()) by {
                    assert forall|j: int|
                        0 <= j < replaced.scheduler.processes.len() implies admissible(
                        #[trigger] replaced.scheduler.processes[j],
                    ) by {
                        if j != i {
                            assert(admissible(b.scheduler.processes[j]));
                        }
                    }
                }
                assert(c.wf()) by {
                    assert forall|j: int| 0 <= j < c.scheduler.processes.len() implies admissible(
                        #[trigger] c.scheduler.processes[j],
                    ) by {
                        if j < replaced.scheduler.processes.len() {
                            assert(admissible(replaced.scheduler.processes[j]));
                        }
                    }
                }
            },
            _ => {
                assert(c.wf()) by {
                    assert forall|j: int| 0 <= j < c.scheduler.processes.len() implies admissible(
                        #[trigger] c.scheduler.processes[j],
                    ) by {
                        if j != i {
                            assert(admissible(b.scheduler.processes[j]));
                        }
                    }
                }
            },
        }
        let r = c.decoded(i);
        crate::vm::decoder::lemma_decoded_wf(
            crate::vm::decoder::window(c.memory, c.scheduler.processes[i].pc as int),
        );
        assert(r.wf()) by {
            assert forall|j: int| 0 <= j < r.scheduler.processes.len() implies admissible(
                #[trigger] r.scheduler.processes[j],
            ) by {
                assert(admissible(c.scheduler.processes[j]));
            }
        }
    } else if p.alive {
        let r = b.with_process(i, aged(p));
        assert forall|j: int| 0 <= j < r.scheduler.processes.len() implies admissible(
            #[trigger] r.scheduler.processes[j],
        ) by {
            if j != i {
                assert(admissible(b.scheduler.processes[j]));
            }
        }
    }
}

/// The turns of the processes leave the battle well formed and the clock,
/// the period and the last check as they were.
pub proof fn lemma_ran(b: Battle, i: int, n: int)
    requires
        b.wf(),
        0 <= i,
        n <= b.scheduler.processes.len(),
    ensures
        b.ran(i, n).wf(),
        b.ran(i, n).scheduler.current_cycle == b.scheduler.current_cycle,
        b.ran(i, n).scheduler.cycle_to_die == b.scheduler.cycle_to_die,
        b.ran(i, n).scheduler.last_check_cycle == b.scheduler.last_check_cycle,
    decreases n - i,
{
    if i < n {
        lemma_stepped(b, i);
        lemma_ran(b.stepped(i), i + 1, n);
    }
}

/// Those that stay are among those that were there.
pub proof fn lemma_survivors(processes: Seq<Process>, cull: Option<int>, n: int)
    requires
        0 <= n <= processes.len(),
        forall|j: int| 0 <= j < processes.len() ==> admissible(#[trigger] processes[j]),
    ensures
        survivors(processes, cull, n).len() <= n,
        forall|j: int|
            0 <= j < survivors(processes, cull, n).len() ==> admissible(
                #[trigger] survivors(processes, cull, n)[j],
            ) && stays(survivors(processes, cull, n)[j], cull),
    decreases n,
{
    if n > 0 {
        lemma_survivors(processes, cull, n - 1);
        assert(admissible(processes[n - 1]));
    }
}

/// Those that stay keep their order, and each is as it was: process `i`, if
/// it stays, stands among those that stay right after those before it that
/// stay; if it does not, it adds nothing to them.
pub proof fn lemma_survivors_keep(processes: Seq<Process>, cull: Option<int>, i: int, n: int)
    requires
        0 <= i < n <= processes.len(),
    ensures
        survivors(processes, cull, i).len() <= survivors(processes, cull, n).len(),
        stays(processes[i], cull) ==> survivors(processes, cull, i).len() < survivors(
            processes,
            cull,
            n,
        ).len() && survivors(processes, cull, n)[survivors(processes, cull, i).len() as int]
            == processes[i],
        !stays(processes[i], cull) ==> survivors(processes, cull, i + 1) == survivors(
            processes,
            cull,
            i,
        ),
    decreases n,
{
    if i < n - 1 {
        lemma_survivors_keep(processes, cull, i, n - 1);
    }
}

/// Those that stay were all there: each of them is one of the processes,
/// one that stays, at the place that those before it leave it.
pub proof fn lemma_survivors_source(processes: Seq<Process>, cull: Option<int>, n: int, j: int)
    requires
        0 <= n <= processes.len(),
        0 <= j < survivors(processes, cull, n).len(),
    ensures
        exists|i: int|
            0 <= i < n && stays(#[trigger] processes[i], cull) && survivors(processes, cull, i).len()
                == j && survivors(processes, cull, n)[j] == processes[i],
    decreases n,
{
    if n > 0 {
        if stays(processes[n - 1], cull) && j == survivors(processes, cull, n - 1).len() {
            assert(survivors(processes, cull, n)[j] == processes[n - 1]);
        } else {
            lemma_survivors_source(processes, cull, n - 1, j);
            let i = choose|i: int|
                0 <= i < n - 1 && stays(#[trigger] processes[i], cull) && survivors(
                    processes,
                    cull,
                    i,
                ).len() == j && survivors(processes, cull, n - 1)[j] == processes[i];
            assert(survivors(processes, cull, n)[j] == processes[i]);
        }
    }
}

/// The end of a cycle, with or without a death check: no process that does
/// not stay is left; every process that stays is left as it was, in the
/// order in which they stood; and every champion has its processes counted
/// anew, among those that are left.
pub proof fn lemma_settled(b: Battle, i: int)
    requires
        0 <= i < b.scheduler.processes.len(),
    ensures
        forall|j: int|
            0 <= j < b.settled().scheduler.processes.len() ==> stays(
                #[trigger] b.settled().scheduler.processes[j],
                b.cull(),
            ),
        !stays(b.scheduler.processes[i], b.cull()) ==> forall|j: int|
            0 <= j < b.settled().scheduler.processes.len()
                ==> #[trigger] b.settled().scheduler.processes[j] != b.scheduler.processes[i],
        stays(b.scheduler.processes[i], b.cull()) ==> survivors(
            b.scheduler.processes,
            b.cull(),
            i,
        ).len() < b.settled().scheduler.processes.len() && b.settled().scheduler.processes[survivors(
            b.scheduler.processes,
            b.cull(),
            i,
        ).len() as int] == b.scheduler.processes[i],
        forall|h: int|
            0 <= h < i ==> survivors(b.scheduler.processes, b.cull(), h).len() <= survivors(
                b.scheduler.processes,
                b.cull(),
                i,
            ).len() && (stays(#[trigger] b.scheduler.processes[h], b.cull()) ==> survivors(
                b.scheduler.processes,
                b.cull(),
                h,
            ).len() < survivors(b.scheduler.processes, b.cull(), i).len()),
        b.settled().champions.len() == b.champions.len(),
        forall|k: int|
            0 <= k < b.champions.len() ==> (#[trigger] b.settled().champions[k]).id
                == b.champions[k].id && b.settled().champions[k].process_count == owned(
                b.settled().scheduler.processes,
                b.champions[k].id,
                b.settled().scheduler.processes.len() as int,
            ) as usize,
{
    let processes = b.scheduler.processes;
    let n = processes.len() as int;
    let left = b.settled().scheduler.processes;
    assert(left == survivors(processes, b.cull(), n));
    assert forall|j: int| 0 <= j < left.len() implies stays(#[trigger] left[j], b.cull()) by {
        lemma_survivors_source(processes, b.cull(), n, j);
    }
    lemma_survivors_keep(processes, b.cull(), i, n);
    assert forall|h: int| 0 <= h < i implies survivors(processes, b.cull(), h).len() <= survivors(
        processes,
        b.cull(),
        i,
    ).len() && (stays(#[trigger] processes[h], b.cull()) ==> survivors(
        processes,
        b.cull(),
        h,
    ).len() < survivors(processes, b.cull(), i).len()) by {
        lemma_survivors_keep(processes, b.cull(), h, i);
    }
}

/// A death check removes the silent and keeps the others: a process that
/// last declared itself alive before the previous check is not among those
/// that are left, and none of those is silent or dead; a living process that
/// has declared itself alive since then is left as it was, after those
/// before it that are left.
pub proof fn lemma_death_check(b: Battle, i: int)
    requires
        0 <= i < b.scheduler.processes.len(),
        b.scheduler.check_due(),
        b.scheduler.last_check_cycle <= b.scheduler.current_cycle,
    ensures
        forall|j: int|
            0 <= j < b.settled().scheduler.processes.len() ==> (
            #[trigger] b.settled().scheduler.processes[j]).alive && b.scheduler.last_live_cycle(
                b.settled().scheduler.processes[j],
            ) >= b.scheduler.last_check_cycle,
        b.scheduler.last_live_cycle(b.scheduler.processes[i]) < b.scheduler.last_check_cycle
            ==> forall|j: int|
            0 <= j < b.settled().scheduler.processes.len()
                ==> #[trigger] b.settled().scheduler.processes[j] != b.scheduler.processes[i],
        b.scheduler.processes[i].alive && b.scheduler.last_live_cycle(b.scheduler.processes[i])
            >= b.scheduler.last_check_cycle ==> survivors(
            b.scheduler.processes,
            b.cull(),
            i,
        ).len() < b.settled().scheduler.processes.len() && b.settled().scheduler.processes[survivors(
            b.scheduler.processes,
            b.cull(),
            i,
        ).len() as int] == b.scheduler.processes[i],
        b.settled().scheduler.last_check_cycle == b.scheduler.current_cycle,
{
    lemma_settled(b, i);
    lemma_death_rule(b, b.scheduler.processes[i]);
    assert forall|j: int| 0 <= j < b.settled().scheduler.processes.len() implies (
    #[trigger] b.settled().scheduler.processes[j]).alive && b.scheduler.last_live_cycle(
        b.settled().scheduler.processes[j],
    ) >= b.scheduler.last_check_cycle by {
        lemma_death_rule(b, b.settled().scheduler.processes[j]);
        assert(stays(b.settled().scheduler.processes[j], b.cull()));
    }
}

/// Committing an instruction removes no process and changes none but the
/// one that commits: the others stay as and where they were, and the list
/// grows by one process if the instruction is `fork` or `lfork`, and not at
/// all otherwise.
pub proof fn lemma_commit_count(b: Battle, i: int, p: Process)
    requires
        0 <= i < b.scheduler.processes.len(),
    ensures
        b.committed(i, p).scheduler.processes.len() == b.scheduler.processes.len() + (if p.pending matches Pending::Ready(
            d,
        ) && (d.instruction == Instruction::Fork || d.instruction == Instruction::Lfork) {
            1int
        } else {
            0int
        }),
        forall|j: int|
            0 <= j < b.scheduler.processes.len() && j != i
                ==> #[trigger] b.committed(i, p).scheduler.processes[j] == b.scheduler.processes[j],
        b.committed(i, p).scheduler.processes[i].id == p.id,
{
    if let Pending::Ready(d) = p.pending {
        let o = outcome(p, b.memory, d);
        assert(o.process.id == p.id);
        assert(o.effect is Fork <==> (d.instruction == Instruction::Fork || d.instruction
            == Instruction::Lfork));
    }
}

/// A committed fork adds exactly one process and removes none. The parent
/// keeps its place and its id and moves on past the instruction; the child
/// stands last, with the next id, at the operand's distance from the
/// instruction, with the parent's champion, registers, carry flag and age,
/// and with nothing pending.
pub proof fn lemma_fork_commit(b: Battle, i: int, p: Process, d: DecodedInstruction)
    requires
        0 <= i < b.scheduler.processes.len(),
        p.pending == Pending::Ready(d),
        d.instruction == Instruction::Fork || d.instruction == Instruction::Lfork,
        b.scheduler.next_process_id < u32::MAX,
    ensures
        b.committed(i, p).scheduler.processes.len() == b.scheduler.processes.len() + 1,
        forall|j: int|
            0 <= j < b.scheduler.processes.len() && j != i
                ==> #[trigger] b.committed(i, p).scheduler.processes[j] == b.scheduler.processes[j],
        b.committed(i, p).scheduler.processes[i] == (Process {
            pending: Pending::Idle,
            ..p.moved_to(next_pc(p, d))
        }),
        b.committed(i, p).scheduler.processes.last() == (Process {
            id: b.scheduler.next_process_id,
            pc: wrap(p.pc + reach(d.instruction, d.first.value as int)) as usize,
            wait_cycles: 0,
            ..b.committed(i, p).scheduler.processes[i]
        }),
        b.committed(i, p).scheduler.processes.last().registers == p.registers,
        b.committed(i, p).scheduler.processes.last().carry == p.carry,
        b.committed(i, p).scheduler.processes.last().live_counter == p.live_counter,
        b.committed(i, p).scheduler.processes.last().champion_id == p.champion_id,
        b.committed(i, p).scheduler.next_process_id == b.scheduler.next_process_id + 1,
        b.committed(i, p).memory == b.memory,
        b.committed(i, p).champions == b.champions,
{
    crate::vm::executor::lemma_fork_child(p, b.memory, d, b.scheduler.next_process_id);
    let o = outcome(p, b.memory, d);
    let q = Process { pending: Pending::Idle, ..o.process };
    let child = q.forked(
        b.scheduler.next_process_id,
        wrap(p.pc + reach(d.instruction, d.first.value as int)) as usize,
        MEMORY_SIZE,
    );
    assert(b.committed(i, p).scheduler.processes.last() == child);
    assert(0 <= wrap(p.pc + reach(d.instruction, d.first.value as int))
        < MEMORY_SIZE);
}

/// The turns of the processes leave the champions in their places, each
/// with its id.
pub proof fn lemma_ran_champions(b: Battle, i: int, n: int)
    requires
        0 <= i,
    ensures
        b.ran(i, n).champions.len() == b.champions.len(),
        forall|k: int|
            0 <= k < b.champions.len() ==> (#[trigger] b.ran(i, n).champions[k]).id
                == b.champions[k].id,
    decreases n - i,
{
    if i < n {
        let s = b.stepped(i);
        assert(s.champions.len() == b.champions.len());
        assert forall|k: int| 0 <= k < b.champions.len() implies (#[trigger] s.champions[k]).id
            == b.champions[k].id by {}
        lemma_ran_champions(s, i + 1, n);
    }
}

/// After a cycle the champions stand where they stood, each with its id,
/// and each has as many processes as are left of its own.
pub proof fn lemma_ticked_counts(b: Battle)
    ensures
        b.ticked().champions.len() == b.champions.len(),
        forall|k: int|
            0 <= k < b.champions.len() ==> (#[trigger] b.ticked().champions[k]).id
                == b.champions[k].id && b.ticked().champions[k].process_count == owned(
                b.ticked().scheduler.processes,
                b.champions[k].id,
                b.ticked().scheduler.processes.len() as int,
            ) as usize,
{
    lemma_ran_champions(b.clocked(), 0, b.scheduler.processes.len() as int);
}

/// A cycle keeps every program counter in the arena, moves the clock on by
/// exactly one, and never lengthens the period between death checks; a
/// death check shortens the period by nothing or by `CYCLE_DELTA`, but not
/// below zero, and leaves no process that has been silent since the check
/// before.
pub proof fn lemma_ticked(b: Battle)
    requires
        b.wf(),
        b.scheduler.current_cycle < u32::MAX,
    ensures
        b.ticked().wf(),
        forall|j: int|
            0 <= j < b.ticked().scheduler.processes.len() ==> (
            #[trigger] b.ticked().scheduler.processes[j]).pc < MEMORY_SIZE && b.ticked().scheduler.processes[j].alive,
        b.ticked().scheduler.current_cycle == b.scheduler.current_cycle + 1,
        0 <= b.ticked().scheduler.cycle_to_die <= b.scheduler.cycle_to_die,
        b.ticked().scheduler.cycle_to_die == b.scheduler.cycle_to_die || b.ticked().scheduler.cycle_to_die
            == b.scheduler.cycle_to_die - CYCLE_DELTA || b.ticked().scheduler.cycle_to_die == 0,
        b.ticked().scheduler.cycle_to_die != b.scheduler.cycle_to_die ==> b.clocked().scheduler.check_due(),
{
    let c = b.clocked();
    let n = b.scheduler.processes.len() as int;
    assert(c.wf()) by {
        assert forall|j: int| 0 <= j < c.scheduler.processes.len() implies admissible(
            #[trigger] c.scheduler.processes[j],
        ) by {
            assert(admissible(b.scheduler.processes[j]));
        }
    }
    lemma_ran(c, 0, n);
    let r = c.ran(0, n);
    lemma_survivors(r.scheduler.processes, r.cull(), r.scheduler.processes.len() as int);
    let t = r.settled();
    assert(t.wf()) by {
        assert forall|j: int| 0 <= j < t.scheduler.processes.len() implies admissible(
            #[trigger] t.scheduler.processes[j],
        ) by {
            assert(admissible(
                survivors(r.scheduler.processes, r.cull(), r.scheduler.processes.len() as int)[j],
            ));
        }
    }
    assert forall|j: int| 0 <= j < t.scheduler.processes.len() implies (
    #[trigger] t.scheduler.processes[j]).pc < MEMORY_SIZE && t.scheduler.processes[j].alive by {
        assert(admissible(
            survivors(r.scheduler.processes, r.cull(), r.scheduler.processes.len() as int)[j],
        ));
    }
}

/// A death check follows the rule of the clock: a process stays exactly
/// when it is alive and the cycle of its last `live`, the current cycle less
/// its age, is not before the cycle of the previous check.
pub proof fn lemma_death_rule(b: Battle, p: Process)
    requires
        b.scheduler.check_due(),
        b.scheduler.last_check_cycle <= b.scheduler.current_cycle,
    ensures
        stays(p, b.cull()) == (p.alive && !(b.scheduler.last_live_cycle(p)
            < b.scheduler.last_check_cycle)),
        !b.scheduler.check_due() ==> stays(p, b.cull()) == p.alive,
{
}

/// Waiting follows the clock: while a process waits, the cycle at which it
/// commits stays the same from cycle to cycle, and so does, until its age
/// can grow no more, the cycle of its last `live`.
pub proof fn lemma_wait_rule(b: Battle, p: Process)
    requires
        b.scheduler.current_cycle < u32::MAX,
        p.wait_cycles > 0,
    ensures
        b.clocked().scheduler.wait_until_cycle(aged(p)) == b.scheduler.wait_until_cycle(p),
        p.live_counter < u32::MAX ==> b.clocked().scheduler.last_live_cycle(aged(p))
            == b.scheduler.last_live_cycle(p),
{
}

/// The turn of one process keeps the ids in order: a child gets the next
/// id, which is beyond all others.
pub proof fn lemma_stepped_ids(b: Battle, i: int)
    requires
        b.wf(),
        0 <= i < b.scheduler.processes.len(),
        b.scheduler.ids_ordered(),
        b.scheduler.next_process_id < u32::MAX,
    ensures
        b.stepped(i).scheduler.ids_ordered(),
        b.scheduler.next_process_id <= b.stepped(i).scheduler.next_process_id
            <= b.scheduler.next_process_id + 1,
{
    let p = b.scheduler.processes[i];
    assert(admissible(p));
    if p.alive && aged(p).wait_cycles == 0 {
        let a = aged(p);
        let c = b.committed(i, a);
        match a.pending {
            Pending::Ready(d) => {
                crate::vm::executor::lemma_outcome_wf(a, b.memory, d);
                let o = outcome(a, b.memory, d);
                let q = Process { pending: Pending::Idle, ..o.process };
                let replaced = (Battle { memory: o.memory, ..b }).with_process(i, q);
                assert(replaced.scheduler.ids_ordered()) by {
                    lemma_replaced_ids(b.scheduler, i, q);
                }
                assert(c == replaced.affected(q, o.effect));
            },
            Pending::Idle => {
                lemma_replaced_ids(b.scheduler, i, a);
            },
            Pending::Fault => {
                lemma_replaced_ids(b.scheduler, i, Process { alive: false, ..a });
            },
        }
        assert(c.scheduler.ids_ordered());
        let r = c.decoded(i);
        let q = c.scheduler.processes[i];
        if q.alive {
            match crate::vm::decoder::decode_at(c.memory, q.pc as int) {
                Ok(d) => {
                    lemma_replaced_ids(
                        c.scheduler,
                        i,
                        Process {
                            pending: Pending::Ready(d),
                            wait_cycles: d.instruction.cost() as u32,
                            ..q
                        },
                    );
                },
                Err(_) => {
                    lemma_replaced_ids(
                        c.scheduler,
                        i,
                        Process { pending: Pending::Fault, wait_cycles: 1, ..q },
                    );
                },
            }
        }
    } else if p.alive {
        lemma_replaced_ids(b.scheduler, i, aged(p));
    }
}

/// Replacing a process by one with the same id keeps the ids in order.
proof fn lemma_replaced_ids(s: SchedulerView, i: int, p: Process)
    requires
        s.ids_ordered(),
        0 <= i < s.processes.len(),
        p.id == s.processes[i].id,
    ensures
        (SchedulerView { processes: s.processes.update(i, p), ..s }).ids_ordered(),
{
    let t = SchedulerView { processes: s.processes.update(i, p), ..s };
    assert forall|a: int, c: int| 0 <= a < c < t.processes.len() implies (#[trigger] t.processes[a]).id
        < (#[trigger] t.processes[c]).id by {
        assert(s.processes[a].id < s.processes[c].id);
    }
    assert forall|a: int| 0 <= a < t.processes.len() implies (#[trigger] t.processes[a]).id
        < t.next_process_id by {
        assert(s.processes[a].id < s.next_process_id);
    }
}

/// The turns of the processes keep the ids in order, as long as there is an
/// id for every child.
pub proof fn lemma_ran_ids(b: Battle, i: int, n: int)
    requires
        b.wf(),
        0 <= i,
        n <= b.scheduler.processes.len(),
        b.scheduler.ids_ordered(),
        i <= n ==> b.scheduler.next_process_id + (n - i) <= u32::MAX,
    ensures
        b.ran(i, n).scheduler.ids_ordered(),
    decreases n - i,
{
    if i < n {
        lemma_stepped(b, i);
        lemma_stepped_ids(b, i);
        lemma_ran_ids(b.stepped(i), i + 1, n);
    }
}

/// Those that stay are in the order in which they were, with ids below any
/// bound on the ids of those that were there.
proof fn lemma_survivors_ids(processes: Seq<Process>, cull: Option<int>, n: int, bound: int)
    requires
        0 <= n <= processes.len(),
        forall|i: int, j: int|
            0 <= i < j < n ==> (#[trigger] processes[i]).id < (#[trigger] processes[j]).id,
        forall|i: int| 0 <= i < n ==> (#[trigger] processes[i]).id < bound,
    ensures
        forall|i: int, j: int|
            0 <= i < j < survivors(processes, cull, n).len() ==> (#[trigger] survivors(
                processes,
                cull,
                n,
            )[i]).id < (#[trigger] survivors(processes, cull, n)[j]).id,
        forall|i: int|
            0 <= i < survivors(processes, cull, n).len() ==> (#[trigger] survivors(
                processes,
                cull,
                n,
            )[i]).id < bound,
    decreases n,
{
    if n > 0 {
        lemma_survivors_ids(processes, cull, n - 1, processes[n - 1].id as int);
        assert(processes[n - 1].id < bound);
    }
}

/// A cycle keeps the ids of the processes in order, and so apart.
pub proof fn lemma_ticked_ids(b: Battle)
    requires
        b.wf(),
        b.has_room(),
        b.scheduler.ids_ordered(),
    ensures
        b.ticked().scheduler.ids_ordered(),
{
    let c = b.clocked();
    let n = b.scheduler.processes.len() as int;
    assert(c.wf()) by {
        assert forall|j: int| 0 <= j < c.scheduler.processes.len() implies admissible(
            #[trigger] c.scheduler.processes[j],
        ) by {
            assert(admissible(b.scheduler.processes[j]));
        }
    }
    assert(c.scheduler.ids_ordered()) by {
        assert forall|i: int, j: int| 0 <= i < j < c.scheduler.processes.len() implies (
        #[trigger] c.scheduler.processes[i]).id < (#[trigger] c.scheduler.processes[j]).id by {
            assert(b.scheduler.processes[i].id < b.scheduler.processes[j].id);
        }
        assert forall|i: int| 0 <= i < c.scheduler.processes.len() implies (
        #[trigger] c.scheduler.processes[i]).id < c.scheduler.next_process_id by {
            assert(b.scheduler.processes[i].id < b.scheduler.next_process_id);
        }
    }
    lemma_ran_ids(c, 0, n);
    let r = c.ran(0, n);
    lemma_survivors_ids(
        r.scheduler.processes,
        r.cull(),
        r.scheduler.processes.len() as int,
        r.scheduler.next_process_id as int,
    );
}

/// Whether two lists of champions agree in all that a cycle looks at: the
/// ids, the counts of processes and the counts of `live`.
pub open spec fn same_standing(first: Seq<Champion>, second: Seq<Champion>) -> bool {
    &&& first.len() == second.len()
    &&& forall|k: int|
        0 <= k < first.len() ==> (#[trigger] first[k]).id == second[k].id && first[k].process_count
            == second[k].process_count && first[k].live_count == second[k].live_count
}

/// Whether two battles agree in the scheduler, in the arena and in the
/// standing of the champions.
pub open spec fn alike(first: Battle, second: Battle) -> bool {
    first.scheduler == second.scheduler && first.memory == second.memory && same_standing(
        first.champions,
        second.champions,
    )
}

/// Champions of the same standing have the same names for `live`.
proof fn lemma_names_agree(first: Seq<Champion>, second: Seq<Champion>, value: i32)
    requires
        same_standing(first, second),
    ensures
        names_champion(first, value) == names_champion(second, value),
{
    if names_champion(first, value) {
        let k = choose|k: int| 0 <= k < first.len() && (#[trigger] first[k]).id == value;
        assert(second[k].id == value);
    }
    if names_champion(second, value) {
        let k = choose|k: int| 0 <= k < second.len() && (#[trigger] second[k]).id == value;
        assert(first[k].id == value);
    }
}

/// The turn of a process keeps battles alike.
proof fn lemma_stepped_alike(first: Battle, second: Battle, i: int)
    requires
        alike(first, second),
        0 <= i < first.scheduler.processes.len(),
    ensures
        alike(first.stepped(i), second.stepped(i)),
{
    let p = first.scheduler.processes[i];
    if p.alive && aged(p).wait_cycles == 0 {
        let a = aged(p);
        match a.pending {
            Pending::Ready(d) => {
                let o = outcome(a, first.memory, d);
                match o.effect {
                    Effect::Live { value } => {
                        lemma_names_agree(first.champions, second.champions, value);
                    },
                    _ => {},
                }
            },
            _ => {},
        }
        assert(alike(first.committed(i, a), second.committed(i, a)));
    }
}

/// The turns of the processes keep battles alike.
proof fn lemma_ran_alike(first: Battle, second: Battle, i: int, n: int)
    requires
        alike(first, second),
        0 <= i,
        n <= first.scheduler.processes.len(),
        first.wf(),
    ensures
        alike(first.ran(i, n), second.ran(i, n)),
    decreases n - i,
{
    if i < n {
        lemma_stepped_alike(first, second, i);
        lemma_stepped(first, i);
        lemma_ran_alike(first.stepped(i), second.stepped(i), i + 1, n);
    }
}

/// The end of a cycle keeps battles alike.
proof fn lemma_settled_alike(first: Battle, second: Battle)
    requires
        alike(first, second),
    ensures
        alike(first.settled(), second.settled()),
{
    let s = first.scheduler;
    let remaining = survivors(s.processes, first.cull(), s.processes.len() as int);
    assert(first.cull() == second.cull());
    let c1 = first.settled().champions;
    let c2 = second.settled().champions;
    assert(c1.len() == c2.len());
    assert forall|k: int| 0 <= k < c1.len() implies (#[trigger] c1[k]).id == c2[k].id
        && c1[k].process_count == c2[k].process_count && c1[k].live_count
        == c2[k].live_count by {
        assert(first.champions[k].id == second.champions[k].id);
    }
    assert(first.settled().scheduler == second.settled().scheduler);
}

/// Moving the clock keeps a battle well formed, and battles alike.
proof fn lemma_clocked(first: Battle, second: Battle)
    requires
        alike(first, second),
        first.wf(),
        first.scheduler.current_cycle < u32::MAX,
    ensures
        first.clocked().wf(),
        alike(first.clocked(), second.clocked()),
        first.clocked().scheduler.processes == first.scheduler.processes,
{
    assert forall|j: int| 0 <= j < first.clocked().scheduler.processes.len() implies admissible(
        #[trigger] first.clocked().scheduler.processes[j],
    ) by {
        assert(admissible(first.scheduler.processes[j]));
    }
}

/// A cycle is determined by the scheduler, the arena and the standing of
/// the champions: two battles that agree in these agree in them after a
/// cycle.
pub proof fn lemma_ticked_alike(first: Battle, second: Battle)
    requires
        alike(first, second),
        first.wf(),
        first.scheduler.current_cycle < u32::MAX,
    ensures
        alike(first.ticked(), second.ticked()),
{
    let n = first.scheduler.processes.len() as int;
    let c1 = first.clocked();
    let c2 = second.clocked();
    lemma_clocked(first, second);
    lemma_ran_alike(c1, c2, 0, n);
    lemma_settled_alike(c1.ran(0, n), c2.ran(0, n));
    assert(first.ticked() == c1.ran(0, n).settled());
    assert(second.ticked() == c2.ran(0, n).settled());
}

/// The message of the error for a battle without room for a cycle.
pub open spec fn no_room_text() -> Seq<char> {
    "The cycle counter or the process ids are exhausted"@
}

/// Statistics of a scheduler.
#[derive(Debug, Clone, Copy, PartialEq, Eq, Structural)]
pub struct SchedulerStats {
    pub current_cycle: u32,
    pub cycle_to_die: u32,
    pub process_count: usize,
    pub live_count: u32,
    pub total_live_count: u32,
}

/// The scheduler of the machine.
#[derive(Debug)]
pub struct Scheduler {
    /// The processes, in the order of their creation.
    processes: Vec<Process>,
    /// The id that the next process gets.
    next_process_id: u32,
    /// The number of cycles run.
    current_cycle: u32,
    /// The length of a period.
    cycle_to_die: u32,
    /// The number of `live` instructions executed in this period.
    live_count: u32,
    /// The number of `live` instructions executed in all.
    total_live_count: u32,
    /// The number of death checks in a row that left the period as it was.
    checks_since_reduction: u32,
    /// The cycle of the last death check.
    last_check_cycle: u32,
    /// The champion that a `live` named last.
    last_declared: Option<u8>,
    /// The bytes that `aff` has emitted.
    output: Vec<u8>,
}

impl View for Scheduler {
    type V = SchedulerView;

    closed spec fn view(&self) -> SchedulerView {
        SchedulerView {
            processes: self.processes@,
            next_process_id: self.next_process_id,
            current_cycle: self.current_cycle,
            cycle_to_die: self.cycle_to_die,
            live_count: self.live_count,
            total_live_count: self.total_live_count,
            checks_since_reduction: self.checks_since_reduction,
            last_check_cycle: self.last_check_cycle,
            last_declared: self.last_declared,
            output: self.output@,
        }
    }
}

/// The battle that a scheduler, an arena and champions make up.
pub open spec fn battle(scheduler: SchedulerView, memory: MemoryView, champions: Seq<Champion>)
    -> Battle {
    Battle { scheduler, memory, champions }
}

impl Scheduler {
    /// A scheduler at cycle zero, without processes.
    pub fn new() -> (s: Self)
        ensures
            s@ == (SchedulerView {
                processes: Seq::<Process>::empty(),
                next_process_id: 1,
                current_cycle: 0,
                cycle_to_die: CYCLE_TO_DIE,
                live_count: 0,
                total_live_count: 0,
                checks_since_reduction: 0,
                last_check_cycle: 0,
                last_declared: None,
                output: Seq::<u8>::empty(),
            }),
            s@.wf(),
    {
        Scheduler {
            processes: Vec::new(),
            next_process_id: 1,
            current_cycle: 0,
            cycle_to_die: CYCLE_TO_DIE,
            live_count: 0,
            total_live_count: 0,
            checks_since_reduction: 0,
            last_check_cycle: 0,
            last_declared: None,
            output: Vec::new(),
        }
    }

    /// A scheduler at cycle zero, without processes, that appends what
    /// `aff` emits to the given bytes.
    pub fn with_output(output: Vec<u8>) -> (s: Self)
        ensures
            s@ == (SchedulerView {
                processes: Seq::<Process>::empty(),
                next_process_id: 1,
                current_cycle: 0,
                cycle_to_die: CYCLE_TO_DIE,
                live_count: 0,
                total_live_count: 0,
                checks_since_reduction: 0,
                last_check_cycle: 0,
                last_declared: None,
                output: output@,
            }),
            s@.wf(),
            s@.ids_ordered(),
    {
        Scheduler {
            processes: Vec::new(),
            next_process_id: 1,
            current_cycle: 0,
            cycle_to_die: CYCLE_TO_DIE,
            live_count: 0,
            total_live_count: 0,
            checks_since_reduction: 0,
            last_check_cycle: 0,
            last_declared: None,
            output,
        }
    }

    /// Adds a process at the end of the list. The process joins with its
    /// program counter taken round the arena and with nothing pending: it
    /// decodes afresh when its wait is over.
    pub fn add_process(&mut self, process: Process)
        requires
            old(self)@.wf(),
        ensures
            final(self)@ == (SchedulerView {
                processes: old(self)@.processes.push(
                    Process {
                        pc: (process.pc % MEMORY_SIZE) as usize,
                        pending: Pending::Idle,
                        ..process
                    },
                ),
                ..old(self)@
            }),
            final(self)@.wf(),
    {
        let mut joined = process;
        joined.pc = process.pc % MEMORY_SIZE;
        joined.pending = Pending::Idle;
        self.processes.push(joined);
    }

    /// A new process for a champion, at the champion's load address, with
    /// the next free id. The process is not yet in the list.
    pub fn create_process(&mut self, champion: &Champion) -> (p: Process)
        requires
            old(self)@.wf(),
            old(self)@.next_process_id < u32::MAX,
        ensures
            final(self)@ == (SchedulerView {
                next_process_id: (old(self)@.next_process_id + 1) as u32,
                ..old(self)@
            }),
            final(self)@.wf(),
            p == Process::fresh(
                old(self)@.next_process_id,
                champion.id,
                champion.load_address,
                champion.color,
            ),
    {
        let process = Process::new(
            self.next_process_id,
            champion.id,
            champion.load_address,
            champion.color,
        );
        self.next_process_id += 1;
        process
    }

    /// The id that the next process gets.
    pub fn next_process_id(&self) -> (id: u32)
        ensures
            id == self@.next_process_id,
    {
        self.next_process_id
    }

    /// The number of processes.
    pub fn process_count(&self) -> (n: usize)
        ensures
            n == self@.processes.len(),
    {
        self.processes.len()
    }

    /// The number of cycles run.
    pub fn current_cycle(&self) -> (n: u32)
        ensures
            n == self@.current_cycle,
    {
        self.current_cycle
    }

    /// The length of a period.
    pub fn cycle_to_die(&self) -> (n: u32)
        ensures
            n == self@.cycle_to_die,
    {
        self.cycle_to_die
    }

    /// The cycle at which a process last declared itself alive, or was
    /// created: the current cycle less the age of the process.
    pub fn last_live_cycle(&self, process: &Process) -> (cycle: i64)
        ensures
            cycle == self@.last_live_cycle(*process),
    {
        self.current_cycle as i64 - process.live_counter as i64
    }

    /// The cycle at which a process commits what it has pending: the
    /// current cycle and the cycles that the process has left to wait.
    pub fn wait_until_cycle(&self, process: &Process) -> (cycle: u64)
        ensures
            cycle == self@.wait_until_cycle(*process),
    {
        self.current_cycle as u64 + process.wait_cycles as u64
    }

    /// The champion that a `live` named last, if any has been named.
    pub fn last_declared(&self) -> (c: Option<u8>)
        ensures
            c == self@.last_declared,
    {
        self.last_declared
    }

    /// The bytes that `aff` has emitted, in order.
    pub fn output(&self) -> (bytes: &Vec<u8>)
        ensures
            bytes@ == self@.output,
    {
        &self.output
    }

    /// Statistics of the scheduler.
    pub fn get_stats(&self) -> (stats: SchedulerStats)
        ensures
            stats == (SchedulerStats {
                current_cycle: self@.current_cycle,
                cycle_to_die: self@.cycle_to_die,
                process_count: self@.processes.len() as usize,
                live_count: self@.live_count,
                total_live_count: self@.total_live_count,
            }),
    {
        SchedulerStats {
            current_cycle: self.current_cycle,
            cycle_to_die: self.cycle_to_die,
            process_count: self.process_count(),
            live_count: self.live_count,
            total_live_count: self.total_live_count,
        }
    }

    /// The processes, in the order of their creation.
    pub fn processes(&self) -> (list: Vec<&Process>)
        ensures
            list@.len() == self@.processes.len(),
            forall|i: int| 0 <= i < list@.len() ==> *(#[trigger] list@[i]) == self@.processes[i],
    {
        let mut list: Vec<&Process> = Vec::new();
        let n = self.processes.len();
        let mut i: usize = 0;
        while i < n
            invariant
                i <= n,
                n == self.processes@.len(),
                list@.len() == i,
                forall|j: int| 0 <= j < i ==> *(#[trigger] list@[j]) == self.processes@[j],
            decreases n - i,
        {
            list.push(&self.processes[i]);
            i += 1;
        }
        list
    }

    /// Gives the owner of a `live` its due and says whether `value` names a
    /// champion.
    fn credit(champions: &mut [Champion], owner: u8, value: i32) -> (named: bool)
        ensures
            final(champions)@ == credited(old(champions)@, owner),
            named == names_champion(old(champions)@, value),
    {
        let n = champions.len();
        let mut named = false;
        let mut k: usize = 0;
        while k < n
            invariant
                k <= n,
                n == champions@.len(),
                n == old(champions)@.len(),
                forall|j: int|
                    0 <= j < k ==> #[trigger] champions@[j] == credited(old(champions)@, owner)[j],
                forall|j: int| k <= j < n ==> #[trigger] champions@[j] == old(champions)@[j],
                named == exists|j: int|
                    0 <= j < k && (#[trigger] old(champions)@[j]).id == value,
            decreases n - k,
        {
            if champions[k].id as i32 == value {
                named = true;
            }
            if champions[k].id == owner {
                champions[k].live_count = champions[k].live_count.saturating_add(1);
            }
            k += 1;
        }
        assert(champions@ =~= credited(old(champions)@, owner));
        named
    }

    /// Carries out what process `p` has asked for.
    fn apply(&mut self, p: Process, effect: Effect, memory: &Memory, champions: &mut [Champion])
        requires
            old(self)@.wf(),
            p.wf(),
            old(self)@.next_process_id < u32::MAX,
            effect matches Effect::Fork { pc } ==> pc < MEMORY_SIZE,
        ensures
            battle(final(self)@, memory@, final(champions)@) == battle(
                old(self)@,
                memory@,
                old(champions)@,
            ).affected(p, effect),
            final(self)@.wf(),
            old(self)@.next_process_id <= final(self)@.next_process_id <= old(
                self,
            )@.next_process_id + 1,
            final(self)@.processes.len() >= old(self)@.processes.len(),
            final(self)@.current_cycle == old(self)@.current_cycle,
            forall|j: int|
                0 <= j < old(self)@.processes.len() ==> final(self)@.processes[j] == old(
                    self,
                )@.processes[j],
    {
        match effect {
            Effect::Nothing => {},
            Effect::Live { value } => {
                let named = Scheduler::credit(champions, p.champion_id, value);
                self.live_count = self.live_count.saturating_add(1);
                self.total_live_count = self.total_live_count.saturating_add(1);
                if named {
                    assert(0 <= value <= 255);
                    self.last_declared = Some(value as u8);
                }
            },
            Effect::Fork { pc } => {
                let child = p.fork(self.next_process_id, pc, MEMORY_SIZE);
                self.processes.push(child);
                self.next_process_id += 1;
            },
            Effect::Aff { byte } => {
                self.output.push(byte);
            },
        }
    }

    /// Lets process `i` commit what it has pending: nothing, its own death,
    /// or an instruction, whose effect on the battle is carried out.
    fn execute_instruction(&mut self, i: usize, p: Process, memory: &mut Memory, champions: &mut [Champion])
        requires
            old(self)@.wf(),
            old(memory)@.wf(),
            i < old(self)@.processes.len(),
            admissible(p),
            old(self)@.next_process_id < u32::MAX,
        ensures
            battle(final(self)@, final(memory)@, final(champions)@) == battle(
                old(self)@,
                old(memory)@,
                old(champions)@,
            ).committed(i as int, p),
            final(self)@.wf(),
            final(memory)@.wf(),
            old(self)@.next_process_id <= final(self)@.next_process_id <= old(
                self,
            )@.next_process_id + 1,
            final(self)@.processes.len() >= old(self)@.processes.len(),
            final(self)@.current_cycle == old(self)@.current_cycle,
            final(self)@.last_check_cycle == old(self)@.last_check_cycle,
            forall|j: int|
                0 <= j < old(self)@.processes.len() && j != i ==> final(self)@.processes[j]
                    == old(self)@.processes[j],
    {
        match p.pending {
            Pending::Idle => {
                self.processes[i] = p;
            },
            Pending::Fault => {
                let mut dead = p;
                dead.kill();
                self.processes[i] = dead;
            },
            Pending::Ready(d) => {
                let mut q = p;
                let effect = execute(&mut q, memory, &d);
                q.pending = Pending::Idle;
                self.processes[i] = q;
                self.apply(q, effect, memory, champions);
            },
        }
    }

    /// Lets process `i`, if it is alive, decode what stands at its program
    /// counter.
    fn decode_next(&mut self, i: usize, memory: &Memory)
        requires
            old(self)@.wf(),
            memory@.wf(),
            i < old(self)@.processes.len(),
        ensures
            forall|champions: Seq<Champion>|
                #![trigger battle(final(self)@, memory@, champions)]
                battle(final(self)@, memory@, champions) == battle(
                    old(self)@,
                    memory@,
                    champions,
                ).decoded(i as int),
            final(self)@.wf(),
            final(self)@.next_process_id == old(self)@.next_process_id,
            final(self)@.processes.len() == old(self)@.processes.len(),
    {
        let mut p = self.processes[i];
        if p.alive {
            match decode(memory, p.pc) {
                Ok(d) => {
                    p.pending = Pending::Ready(d);
                    p.wait_cycles = d.instruction.cycles();
                },
                Err(_) => {
                    p.pending = Pending::Fault;
                    p.wait_cycles = 1;
                },
            }
            self.processes[i] = p;
        }
    }

    /// Gives process `i` its turn in the cycle.
    fn step_process(&mut self, i: usize, memory: &mut Memory, champions: &mut [Champion])
        requires
            old(self)@.wf(),
            old(memory)@.wf(),
            i < old(self)@.processes.len(),
            old(self)@.next_process_id < u32::MAX,
        ensures
            battle(final(self)@, final(memory)@, final(champions)@) == battle(
                old(self)@,
                old(memory)@,
                old(champions)@,
            ).stepped(i as int),
            final(self)@.wf(),
            final(memory)@.wf(),
            old(self)@.next_process_id <= final(self)@.next_process_id <= old(
                self,
            )@.next_process_id + 1,
            final(self)@.processes.len() >= old(self)@.processes.len(),
            final(self)@.current_cycle == old(self)@.current_cycle,
            final(self)@.cycle_to_die == old(self)@.cycle_to_die,
    {
        let mut p = self.processes[i];
        if !p.alive {
            return ;
        }
        p.increment_live_counter();
        p.decrement_wait_cycles();
        assert(p == aged(old(self)@.processes[i as int]));
        if p.wait_cycles > 0 {
            self.processes[i] = p;
            return ;
        }
        self.execute_instruction(i, p, memory, champions);
        self.decode_next(i, memory);
    }

    /// The number of processes of champion `id`.
    fn count_owned(&self, id: u8) -> (count: usize)
        ensures
            count == owned(self@.processes, id, self@.processes.len() as int),
    {
        let n = self.processes.len();
        let mut count: usize = 0;
        let mut i: usize = 0;
        while i < n
            invariant
                i <= n,
                n == self.processes@.len(),
                count == owned(self.processes@, id, i as int),
                count <= i,
            decreases n - i,
        {
            if self.processes[i].champion_id == id {
                count += 1;
            }
            i += 1;
        }
        count
    }

    /// Ends the cycle: removes the dead; when a period is over, performs the
    /// death check, which removes the silent with them, shortens the period
    /// where the rule says so, and starts a new period; and counts the
    /// champions' processes.
    fn perform_death_check(&mut self, champions: &mut [Champion])
        requires
            old(self)@.wf(),
        ensures
            forall|memory: MemoryView|
                #![trigger battle(final(self)@, memory, final(champions)@)]
                battle(final(self)@, memory, final(champions)@) == battle(
                    old(self)@,
                    memory,
                    old(champions)@,
                ).settled(),
            final(self)@.wf(),
            final(self)@.current_cycle == old(self)@.current_cycle,
            final(self)@.cycle_to_die <= old(self)@.cycle_to_die,
    {
        let ghost before = self@;
        let due = (self.current_cycle as u64) >= (self.last_check_cycle as u64) + (
        self.cycle_to_die as u64);
        let since = self.current_cycle - self.last_check_cycle;
        let ghost cull: Option<int> = if due {
            Some(since as int)
        } else {
            None
        };
        let n = self.processes.len();
        let mut kept: Vec<Process> = Vec::new();
        let mut i: usize = 0;
        while i < n
            invariant
                i <= n,
                n == self.processes@.len(),
                self@ == before,
                before.wf(),
                kept@ == survivors(before.processes, cull, i as int),
                forall|j: int| 0 <= j < kept@.len() ==> admissible(#[trigger] kept@[j]),
                due == before.check_due(),
                cull == (if due {
                    Some(since as int)
                } else {
                    None::<int>
                }),
            decreases n - i,
        {
            let p = self.processes[i];
            assert(admissible(before.processes[i as int]));
            if p.alive && (!due || p.live_counter <= since) {
                kept.push(p);
            }
            i += 1;
        }
        self.processes = kept;
        if due {
            if self.live_count >= NBR_LIVE || self.checks_since_reduction >= MAX_CHECKS {
                self.cycle_to_die =
                if self.cycle_to_die >= CYCLE_DELTA {
                    self.cycle_to_die - CYCLE_DELTA
                } else {
                    0
                };
                self.checks_since_reduction = 0;
            } else {
                self.checks_since_reduction += 1;
            }
            self.live_count = 0;
            self.last_check_cycle = self.current_cycle;
        }
        let ghost target = if due {
            counted(rested(old(champions)@), self.processes@)
        } else {
            counted(old(champions)@, self.processes@)
        };
        let m = champions.len();
        let mut k: usize = 0;
        while k < m
            invariant
                k <= m,
                m == champions@.len(),
                m == old(champions)@.len(),
                target == (if due {
                    counted(rested(old(champions)@), self.processes@)
                } else {
                    counted(old(champions)@, self.processes@)
                }),
                forall|j: int| 0 <= j < k ==> #[trigger] champions@[j] == target[j],
                forall|j: int| k <= j < m ==> #[trigger] champions@[j] == old(champions)@[j],
            decreases m - k,
        {
            let count = self.count_owned(champions[k].id);
            champions[k].process_count = count;
            if due {
                champions[k].live_count = 0;
            }
            k += 1;
        }
        assert(champions@ =~= target);
    }

    /// Runs one cycle: the clock moves on, every process that was there at
    /// the start has its turn in order, and the cycle is settled. Returns
    /// whether the battle goes on. Where the clock or the process ids are
    /// exhausted, nothing changes and an error is returned.
    pub fn execute_cycle(&mut self, memory: &mut Memory, champions: &mut [Champion]) -> (r: Result<
        bool,
        CoreWarError,
    >)
        requires
            old(self)@.wf(),
        ensures
            final(self)@.wf(),
            final(memory)@.wf(),
            battle(old(self)@, old(memory)@, old(champions)@).has_room() ==> battle(
                final(self)@,
                final(memory)@,
                final(champions)@,
            ) == battle(old(self)@, old(memory)@, old(champions)@).ticked() && r == Ok::<
                bool,
                CoreWarError,
            >(final(self)@.goes_on()),
            !battle(old(self)@, old(memory)@, old(champions)@).has_room() ==> battle(
                final(self)@,
                final(memory)@,
                final(champions)@,
            ) == battle(old(self)@, old(memory)@, old(champions)@) && (r matches Err(
                CoreWarError::Process { message },
            ) && message@ == no_room_text()),
            r is Ok ==> final(self)@.current_cycle == old(self)@.current_cycle + 1,
            final(self)@.cycle_to_die <= old(self)@.cycle_to_die,
            old(self)@.ids_ordered() ==> final(self)@.ids_ordered(),
    {
        // Asking the arena for its size brings the fact that it is whole.
        let _ = memory.size();
        let n = self.processes.len();
        if self.current_cycle == u32::MAX || n > (u32::MAX - self.next_process_id) as usize {
            return Err(
                CoreWarError::process(
                    String::from_str("The cycle counter or the process ids are exhausted"),
                ),
            );
        }
        let ghost start = battle(old(self)@, old(memory)@, old(champions)@);
        proof {
            if start.scheduler.ids_ordered() {
                lemma_ticked_ids(start);
            }
        }
        self.current_cycle += 1;
        assert(battle(self@, memory@, champions@) == start.clocked());
        self.run_processes(n, memory, champions);
        let ghost ran = battle(self@, memory@, champions@);
        self.perform_death_check(champions);
        assert(battle(self@, memory@, champions@) == ran.settled());
        Ok(self.should_continue_game())
    }

    /// Whether the battle goes on: there are processes and the period has
    /// not shrunk to nothing.
    fn should_continue_game(&self) -> (b: bool)
        ensures
            b == self@.goes_on(),
    {
        self.processes.len() > 0 && self.cycle_to_die > 0
    }

    /// Gives the first `n` processes their turns, in order.
    fn run_processes(&mut self, n: usize, memory: &mut Memory, champions: &mut [Champion])
        requires
            old(self)@.wf(),
            old(memory)@.wf(),
            n <= old(self)@.processes.len(),
            old(self)@.next_process_id + n <= u32::MAX,
        ensures
            battle(final(self)@, final(memory)@, final(champions)@) == battle(
                old(self)@,
                old(memory)@,
                old(champions)@,
            ).ran(0, n as int),
            final(self)@.wf(),
            final(memory)@.wf(),
            final(self)@.current_cycle == old(self)@.current_cycle,
            final(self)@.cycle_to_die == old(self)@.cycle_to_die,
    {
        let ghost start = battle(old(self)@, old(memory)@, old(champions)@);
        let ghost first_id = self.next_process_id;
        let mut i: usize = 0;
        while i < n
            invariant
                i <= n,
                n <= self@.processes.len(),
                self@.wf(),
                memory@.wf(),
                first_id + n <= u32::MAX,
                self@.next_process_id <= first_id + i,
                self@.current_cycle == start.scheduler.current_cycle,
                self@.cycle_to_die == start.scheduler.cycle_to_die,
                battle(self@, memory@, champions@).ran(i as int, n as int) == start.ran(0, n as int),
            decreases n - i,
        {
            self.step_process(i, memory, champions);
            i += 1;
        }
    }
}

} // verus!
