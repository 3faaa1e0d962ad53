use corewar::constants::{CYCLE_DELTA, CYCLE_TO_DIE, MEMORY_SIZE};
use corewar::vm::engine::{GameConfig, GameEngine};
use corewar::vm::memory::Memory;
use corewar::vm::process::{Pending, Process};
use corewar::vm::scheduler::Scheduler;
use corewar::{Champion, ChampionColor};

/// The bytes of a champion file.
fn cor_file(name: &str, code: &[u8]) -> Vec<u8> {
    let mut file = Vec::new();
    file.extend_from_slice(&0xea83f3u32.to_be_bytes());
    let mut name_bytes = [0u8; 128];
    name_bytes[..name.len()].copy_from_slice(name.as_bytes());
    file.extend_from_slice(&name_bytes);
    file.extend_from_slice(&[0u8; 4]);
    file.extend_from_slice(&(code.len() as u32).to_be_bytes());
    file.extend_from_slice(&[0u8; 128]);
    file.extend_from_slice(&[0u8; 4]);
    file.extend_from_slice(code);
    file
}

fn engine_with(max_cycles: u32, champions: &[Vec<u8>]) -> GameEngine {
    let mut engine = GameEngine::new(GameConfig { max_cycles, ..Default::default() });
    engine.load_champions(champions, None).unwrap();
    engine.start().unwrap();
    engine
}

fn ticks(engine: &mut GameEngine, n: u32) {
    for _ in 0..n {
        engine.tick().unwrap();
    }
}

/// `ld %0, r2` (which sets the carry flag), then `live %id` and `zjmp %-5`
/// for ever.
fn live_loop(id: u8) -> Vec<u8> {
    vec![0x02, 0x90, 0, 0, 0, 0, 2, 0x01, 0, 0, 0, id, 0x09, 0xFF, 0xFB]
}

#[test]
fn test_single_champion_survival() {
    let mut engine = engine_with(10_000, &[cor_file("loop", &live_loop(1))]);
    let winner = engine.run_to_completion().unwrap();
    assert_eq!(winner, Some(1));
    assert_eq!(engine.state().winner, Some(1));
    assert!(engine.state().cycle <= 10_000);
    assert_eq!(engine.state().cycle, 10_000);
    assert!(!engine.state().running);
    assert_eq!(engine.processes().len(), 1);
    assert!(engine.processes()[0].alive);
    assert_eq!(engine.champions()[0].process_count, 1);
}

#[test]
fn test_instruction_timing() {
    let mut engine = engine_with(0, &[cor_file("loop", &live_loop(1))]);
    // Cycle 1: ld is decoded and takes five cycles.
    ticks(&mut engine, 1);
    assert_eq!(engine.processes()[0].wait_cycles, 5);
    assert!(matches!(engine.processes()[0].pending, Pending::Ready(_)));
    assert_eq!(engine.processes()[0].pc, 0);
    ticks(&mut engine, 4);
    assert_eq!(engine.processes()[0].wait_cycles, 1);
    assert_eq!(engine.processes()[0].get_register(2).unwrap(), 0);
    assert!(!engine.processes()[0].carry);
    // Cycle 6: ld commits, live is decoded and takes ten cycles.
    ticks(&mut engine, 1);
    assert!(engine.processes()[0].carry);
    assert_eq!(engine.processes()[0].pc, 7);
    assert_eq!(engine.processes()[0].wait_cycles, 10);
    assert_eq!(engine.scheduler_stats().live_count, 0);
    // Cycle 16: live commits, zjmp is decoded and takes twenty cycles.
    ticks(&mut engine, 10);
    assert_eq!(engine.scheduler_stats().live_count, 1);
    assert_eq!(engine.scheduler_stats().total_live_count, 1);
    assert_eq!(engine.champions()[0].live_count, 1);
    assert_eq!(engine.processes()[0].live_counter, 0);
    assert_eq!(engine.processes()[0].pc, 12);
    assert_eq!(engine.processes()[0].wait_cycles, 20);
    // Cycle 36: zjmp commits and the process is back at live.
    ticks(&mut engine, 19);
    assert_eq!(engine.processes()[0].pc, 12);
    assert_eq!(engine.processes()[0].live_counter, 19);
    ticks(&mut engine, 1);
    assert_eq!(engine.processes()[0].pc, 7);
    assert_eq!(engine.processes()[0].live_counter, 20);
    assert_eq!(engine.state().cycle, 36);
}

#[test]
fn test_cycle_to_die_reduction() {
    let mut engine = engine_with(0, &[cor_file("loop", &live_loop(1))]);
    ticks(&mut engine, CYCLE_TO_DIE - 1);
    assert_eq!(engine.scheduler_stats().cycle_to_die, CYCLE_TO_DIE);
    assert!(engine.scheduler_stats().live_count >= 40);
    assert_eq!(engine.scheduler_stats().live_count, 51);
    ticks(&mut engine, 1);
    assert_eq!(engine.scheduler_stats().cycle_to_die, CYCLE_TO_DIE - CYCLE_DELTA);
    assert_eq!(engine.scheduler_stats().cycle_to_die, 1531);
    assert_eq!(engine.scheduler_stats().live_count, 0);
    assert_eq!(engine.scheduler_stats().total_live_count, 51);
    assert_eq!(engine.champions()[0].live_count, 0);
    assert_eq!(engine.processes().len(), 1);
    // The next check comes one shortened period later.
    ticks(&mut engine, 1530);
    assert_eq!(engine.scheduler_stats().cycle_to_die, 1531);
    ticks(&mut engine, 1);
    assert_eq!(engine.scheduler_stats().cycle_to_die, 1526);
}

#[test]
fn test_cycle_to_die_never_grows() {
    let mut engine = engine_with(0, &[cor_file("a", &live_loop(1)), cor_file("b", &live_loop(2))]);
    let mut previous = engine.scheduler_stats().cycle_to_die;
    for _ in 0..5000 {
        engine.tick().unwrap();
        let now = engine.scheduler_stats().cycle_to_die;
        assert!(now <= previous);
        previous = now;
        for process in engine.processes() {
            assert!(process.pc < MEMORY_SIZE);
        }
    }
    assert_eq!(previous, 1536 - 3 * 5);
}

#[test]
fn test_shortening_after_max_checks() {
    // live %1, four sti (twenty-five cycles each), zjmp back: 130 cycles a
    // round, eleven or twelve `live` a period.
    let mut code = vec![0x02, 0x90, 0, 0, 0, 0, 2];
    code.extend_from_slice(&[0x01, 0, 0, 0, 1]);
    for _ in 0..4 {
        code.extend_from_slice(&[0x0B, 0b01_10_10_00, 2, 0, 0, 0x01, 0x90, 0, 0, 0, 0]);
    }
    code.extend_from_slice(&[0x09, 0xFF, 0xCF]);
    let mut engine = engine_with(0, &[cor_file("slow", &code)]);
    ticks(&mut engine, 10 * CYCLE_TO_DIE);
    assert_eq!(engine.scheduler_stats().cycle_to_die, CYCLE_TO_DIE);
    assert_eq!(engine.processes().len(), 1);
    ticks(&mut engine, CYCLE_TO_DIE - 1);
    assert_eq!(engine.scheduler_stats().cycle_to_die, CYCLE_TO_DIE);
    ticks(&mut engine, 1);
    assert_eq!(engine.scheduler_stats().cycle_to_die, CYCLE_TO_DIE - CYCLE_DELTA);
    // The count of checks starts again.
    ticks(&mut engine, 10 * 1531);
    assert_eq!(engine.scheduler_stats().cycle_to_die, 1531);
    ticks(&mut engine, 1531);
    assert_eq!(engine.scheduler_stats().cycle_to_die, 1526);
}

#[test]
fn test_silent_process_dies() {
    // ld %0, r2; fork %100; then live and zjmp for ever. The child starts in
    // a region of zeroes.
    let mut code = vec![0x02, 0x90, 0, 0, 0, 0, 2];
    code.extend_from_slice(&[0x0C, 0, 100]);
    code.extend_from_slice(&[0x01, 0, 0, 0, 1, 0x09, 0xFF, 0xFB]);
    let mut engine = engine_with(0, &[cor_file("forker", &code)]);
    ticks(&mut engine, 806);
    assert_eq!(engine.processes().len(), 2);
    assert_eq!(engine.processes()[1].pc, 107);
    assert_eq!(engine.champions()[0].process_count, 2);
    ticks(&mut engine, CYCLE_TO_DIE - 806);
    assert_eq!(engine.processes().len(), 1);
    assert_eq!(engine.processes()[0].id, 1);
    assert!(engine.processes()[0].alive);
    assert_eq!(engine.champions()[0].process_count, 1);
    ticks(&mut engine, CYCLE_TO_DIE);
    assert_eq!(engine.processes().len(), 1);
    assert_eq!(engine.processes()[0].id, 1);
}

#[test]
fn test_death_check_kills_the_silent() {
    // The child jumps on the spot for ever and never executes live.
    let mut code = vec![0x02, 0x90, 0, 0, 0, 0, 2];
    code.extend_from_slice(&[0x0C, 0, 100]);
    code.extend_from_slice(&[0x01, 0, 0, 0, 1, 0x09, 0xFF, 0xFB]);
    let mut engine = GameEngine::new(GameConfig::default());
    let spinner = vec![0x09, 0, 0];
    engine
        .load_champions(&[cor_file("forker", &code), cor_file("spinner", &spinner)], Some(&[0, 107]))
        .unwrap();
    engine.start().unwrap();
    // The second champion's own process has the carry flag clear: it runs
    // off its code into the zeroes and dies.
    ticks(&mut engine, 30);
    assert_eq!(engine.processes().len(), 1);
    assert_eq!(engine.champions()[1].process_count, 0);
    ticks(&mut engine, 806 - 30);
    assert_eq!(engine.processes().len(), 2);
    let child = *engine.processes()[1];
    assert_eq!((child.id, child.champion_id, child.pc), (3, 1, 107));
    assert!(child.carry);
    assert_eq!(child.live_counter, 806);
    // The first death check: the child was born in this period and stays.
    ticks(&mut engine, CYCLE_TO_DIE - 806);
    assert_eq!(engine.scheduler_stats().current_cycle, CYCLE_TO_DIE);
    assert_eq!(engine.processes().len(), 2);
    assert_eq!(engine.processes()[1].pc, 107);
    assert_eq!(engine.scheduler_stats().cycle_to_die, CYCLE_TO_DIE);
    // One full period later it has never declared itself alive and is killed;
    // its parent lives on.
    ticks(&mut engine, CYCLE_TO_DIE - 1);
    assert_eq!(engine.processes().len(), 2);
    ticks(&mut engine, 1);
    assert_eq!(engine.processes().len(), 1);
    assert_eq!(engine.processes()[0].id, 1);
    assert_eq!(engine.champions()[0].process_count, 1);
    assert!(engine.state().running);
}

#[test]
fn test_modular_memory_wrap() {
    let mut engine = GameEngine::new(GameConfig::default());
    engine
        .load_champions(&[cor_file("edge", &[0xAA, 0xBB, 0xCC, 0xDD])], Some(&[MEMORY_SIZE - 2]))
        .unwrap();
    let memory = engine.memory();
    assert_eq!(memory.read_byte(MEMORY_SIZE - 2), 0xAA);
    assert_eq!(memory.read_byte(MEMORY_SIZE - 1), 0xBB);
    assert_eq!(memory.read_byte(0), 0xCC);
    assert_eq!(memory.read_byte(1), 0xDD);
}

#[test]
fn test_fork_budget() {
    // fork %0 at address 0, then live %1 and zjmp %-5 (without carry the
    // process runs on into the zeroes).
    let code = vec![0x0C, 0, 0, 0x01, 0, 0, 0, 1];
    let mut engine = engine_with(0, &[cor_file("forker", &code)]);
    ticks(&mut engine, 800);
    assert_eq!(engine.processes().len(), 1);
    ticks(&mut engine, 1);
    // The fork has committed: the parent has moved on and decoded its next
    // instruction; the child stands where the fork stands, with the parent's
    // registers, and has not run yet.
    let processes = engine.processes();
    assert_eq!(processes.len(), 2);
    assert_eq!(processes[0].id, 1);
    assert_eq!(processes[1].id, 2);
    assert_eq!(processes[0].pc, 3);
    assert_eq!(processes[1].pc, 0);
    assert_eq!(processes[1].registers, processes[0].registers);
    assert_eq!(processes[1].carry, processes[0].carry);
    assert_eq!(processes[1].live_counter, processes[0].live_counter);
    assert_eq!(processes[0].wait_cycles, 10);
    assert_eq!(processes[1].wait_cycles, 0);
    assert_eq!(processes[1].pending, Pending::Idle);
    assert_eq!(engine.champions()[0].process_count, 2);
    // In the next cycle the child decodes the fork in its turn, after its
    // parent.
    ticks(&mut engine, 1);
    assert_eq!(engine.processes()[0].wait_cycles, 9);
    assert_eq!(engine.processes()[1].wait_cycles, 800);
    assert_eq!(engine.processes()[1].pc, 0);
}

#[test]
fn test_forks_from_one_place_give_equal_children() {
    let mut memory = Memory::new();
    memory.load_code(40, &[0x0C, 0x00, 0x19], 1).unwrap();
    let mut champions = vec![Champion::new(1, "c".to_string(), String::new(), vec![], 40)];
    let mut scheduler = Scheduler::new();
    let first = scheduler.create_process(&champions[0]);
    let second = scheduler.create_process(&champions[0]);
    scheduler.add_process(first);
    scheduler.add_process(second);
    for _ in 0..801 {
        scheduler.execute_cycle(&mut memory, &mut champions).unwrap();
    }
    let processes = scheduler.processes();
    assert_eq!(processes.len(), 4);
    assert_eq!(processes[2].pc, 65);
    assert_eq!(processes[3].pc, processes[2].pc);
    assert_eq!(processes[3].registers, processes[2].registers);
    assert_eq!((processes[2].id, processes[3].id), (3, 4));
    assert_eq!(champions[0].process_count, 4);
}

#[test]
fn test_determinism() {
    let files = [cor_file("a", &live_loop(1)), cor_file("b", &live_loop(2)), cor_file("c", &[0x0C, 0, 9])];
    let mut first = engine_with(0, &files);
    let mut second = engine_with(0, &files);
    for _ in 0..2000 {
        assert_eq!(first.tick().unwrap(), second.tick().unwrap());
    }
    for address in 0..MEMORY_SIZE {
        assert_eq!(first.memory().read_byte(address), second.memory().read_byte(address));
        assert_eq!(first.memory().get_owner(address), second.memory().get_owner(address));
    }
    let (a, b) = (first.processes(), second.processes());
    assert_eq!(a.len(), b.len());
    for (p, q) in a.iter().zip(b.iter()) {
        assert_eq!(p.debug_state(), q.debug_state());
        assert_eq!(p.registers, q.registers);
        assert_eq!(p.pending, q.pending);
    }
    assert_eq!(first.scheduler_stats(), second.scheduler_stats());
    assert_eq!(first.state(), second.state());
}

#[test]
fn test_winner_by_last_live() {
    // Both champions declare champion 2 once and then run into the zeroes.
    let declare = vec![0x01, 0, 0, 0, 2];
    let mut engine = engine_with(0, &[cor_file("a", &declare), cor_file("b", &declare)]);
    assert_eq!(engine.run_to_completion().unwrap(), Some(2));
    assert_eq!(engine.processes().len(), 0);
    assert_eq!(engine.state().cycle, 12);
    assert_eq!(engine.get_stats().active_champions, 0);
    assert_eq!(engine.get_stats().winner, Some(2));
    // A value that names no champion declares nobody.
    let nobody = vec![0x01, 0, 0, 0, 7];
    let mut engine = engine_with(0, &[cor_file("a", &nobody), cor_file("b", &nobody)]);
    assert_eq!(engine.run_to_completion().unwrap(), None);
    assert_eq!(engine.scheduler_stats().total_live_count, 2);
}

#[test]
fn test_live_counts_for_the_owner() {
    // Champion 1 names champion 2: the live counts for champion 1.
    let mut engine = engine_with(0, &[cor_file("a", &[0x01, 0, 0, 0, 2]), cor_file("b", &live_loop(2))]);
    ticks(&mut engine, 11);
    assert_eq!(engine.champions()[0].live_count, 1);
    assert_eq!(engine.champions()[1].live_count, 0);
    assert_eq!(engine.scheduler_stats().live_count, 1);
}

#[test]
fn test_aff_output() {
    // ld %0x48, r2; aff r2; ld %0x169, r3; aff r3
    let code = vec![
        0x02, 0x90, 0, 0, 0, 0x48, 2, 0x10, 2, 0x02, 0x90, 0, 0, 0x01, 0x69, 3, 0x10, 3,
    ];
    let mut engine = engine_with(0, &[cor_file("talker", &code)]);
    ticks(&mut engine, 20);
    assert_eq!(engine.aff_output(), &vec![0x48, 0x69]);
    // The bytes go to the end of what the caller has handed over.
    let mut engine = GameEngine::with_output(GameConfig::default(), b"> ".to_vec());
    engine.load_champions(&[cor_file("talker", &code)], None).unwrap();
    engine.start().unwrap();
    ticks(&mut engine, 20);
    assert_eq!(engine.aff_output(), &b"> Hi".to_vec());
}

#[test]
fn test_added_process_is_taken_round_the_arena() {
    let mut scheduler = Scheduler::new();
    let process = Process::new(5, 2, MEMORY_SIZE + 3, ChampionColor::Blue);
    scheduler.add_process(process);
    assert_eq!(scheduler.processes()[0].pc, 3);
    assert_eq!(scheduler.processes()[0].id, 5);
    assert_eq!(scheduler.next_process_id(), 1);
    assert_eq!(scheduler.last_declared(), None);
    assert_eq!(scheduler.get_stats().process_count, 1);
}

#[test]
fn test_store_is_seen_by_the_other_champion() {
    // Champion 1 stores r1 (-1) at 2048, where champion 2 then loads it.
    let writer = vec![0x03, 0x70, 1, 0x01, 0xF4]; // st r1, 500
    let reader = vec![0x02, 0xD0, 0x00, 0x64, 5, 0x09, 0xFF, 0xFB]; // ld 100, r5
    let mut engine = GameEngine::new(GameConfig::default());
    engine
        .load_champions(&[cor_file("w", &writer), cor_file("r", &reader)], Some(&[0, 400]))
        .unwrap();
    engine.start().unwrap();
    ticks(&mut engine, 6);
    assert_eq!(engine.memory().read_word(500), 0xFFFF_FFFF);
    assert_eq!(engine.memory().get_owner(500), Some(1));
    assert_eq!(engine.processes()[1].get_register(5).unwrap(), -1);
}

#[test]
fn test_cycles_of_the_clock() {
    let mut memory = Memory::new();
    memory.load_code(0, &live_loop(1), 1).unwrap();
    let mut champions = vec![Champion::new(1, "c".to_string(), String::new(), live_loop(1), 0)];
    let mut scheduler = Scheduler::new();
    let process = scheduler.create_process(&champions[0]);
    scheduler.add_process(process);
    for _ in 0..20 {
        scheduler.execute_cycle(&mut memory, &mut champions).unwrap();
    }
    // Cycle 16: live committed, zjmp decoded for twenty cycles.
    let process = *scheduler.processes()[0];
    assert_eq!(scheduler.current_cycle(), 20);
    assert_eq!(scheduler.last_live_cycle(&process), 16);
    assert_eq!(scheduler.wait_until_cycle(&process), 36);
    for _ in 0..10 {
        scheduler.execute_cycle(&mut memory, &mut champions).unwrap();
    }
    let process = *scheduler.processes()[0];
    assert_eq!(scheduler.last_live_cycle(&process), 16);
    assert_eq!(scheduler.wait_until_cycle(&process), 36);
}
