use corewar::constants::{CYCLE_TO_DIE, MEMORY_SIZE};
use corewar::vm::engine::{GameConfig, GameEngine};
use corewar::CoreWarError;

/// The bytes of a champion file.
fn cor_file(name: &str, comment: &str, code: &[u8]) -> Vec<u8> {
    let mut file = Vec::new();
    file.extend_from_slice(&0xea83f3u32.to_be_bytes());
    let mut name_bytes = [0u8; 128];
    name_bytes[..name.len()].copy_from_slice(name.as_bytes());
    file.extend_from_slice(&name_bytes);
    file.extend_from_slice(&[0u8; 4]);
    file.extend_from_slice(&(code.len() as u32).to_be_bytes());
    let mut comment_bytes = [0u8; 128];
    comment_bytes[..comment.len().min(127)].copy_from_slice(comment.as_bytes());
    file.extend_from_slice(&comment_bytes);
    file.extend_from_slice(&[0u8; 4]);
    file.extend_from_slice(code);
    file
}

/// A champion that executes `live %1` once.
fn create_live_champion(name: &str) -> Vec<u8> {
    let code = vec![0x01, 0x00, 0x00, 0x00, 0x01];
    cor_file(name, &format!("{} - test champion", name), &code)
}

/// A champion whose code is no instruction.
fn create_invalid_champion(name: &str) -> Vec<u8> {
    let code = vec![0x00, 0x00, 0x00, 0x00, 0x00, 0x00, 0x00, 0x00];
    cor_file(
        name,
        &format!("{} - test champion with invalid instructions", name),
        &code,
    )
}

#[test]
fn test_game_engine_creation() {
    let config = GameConfig::default();
    let engine = GameEngine::new(config);

    assert_eq!(engine.state().cycle, 0);
    assert!(!engine.state().running);
    assert_eq!(engine.champions().len(), 0);
}

#[test]
fn test_load_champions() {
    let mut engine = GameEngine::new(GameConfig::default());

    let champion1 = create_live_champion("TestChamp1");
    let champion2 = create_live_champion("TestChamp2");

    let result = engine.load_champions(&[champion1, champion2], None);
    assert!(result.is_ok());

    assert_eq!(engine.champions().len(), 2);
    assert_eq!(engine.champions()[0].name, "TestChamp1");
    assert_eq!(engine.champions()[1].name, "TestChamp2");
}

#[test]
fn test_game_execution() {
    let config = GameConfig {
        max_cycles: 10,
        verbose: false,
        ..Default::default()
    };
    let mut engine = GameEngine::new(config);

    let champion = create_live_champion("TestChamp");
    engine.load_champions(&[champion], None).unwrap();

    assert!(engine.start().is_ok());
    assert!(engine.state().running);

    for _ in 0..5 {
        if !engine.tick().unwrap() {
            break;
        }
    }

    assert!(engine.state().cycle > 0);
}

#[test]
fn test_pause_resume() {
    let mut engine = GameEngine::new(GameConfig::default());

    assert!(!engine.state().paused);

    engine.pause();
    assert!(engine.state().paused);

    engine.resume();
    assert!(!engine.state().paused);

    engine.toggle_pause();
    assert!(engine.state().paused);
}

#[test]
fn test_game_flow_single_champion() {
    let config = GameConfig {
        max_cycles: 100,
        ..Default::default()
    };
    let mut engine = GameEngine::new(config);

    let champion = create_live_champion("TestChamp");
    engine.load_champions(&[champion], None).unwrap();
    engine.start().unwrap();

    let winner = engine.run_to_completion().unwrap();
    assert!(winner.is_some());
    assert_eq!(winner.unwrap(), 1);
    assert!(!engine.get_stats().running);
    assert!(engine.get_stats().cycle > 0);
}

#[test]
fn test_invalid_instruction_infinite_loop() {
    let champion1 = create_invalid_champion("InvalidChamp1");
    let champion2 = create_invalid_champion("InvalidChamp2");

    let config = GameConfig {
        max_cycles: 100,
        verbose: false,
        ..Default::default()
    };

    let mut engine = GameEngine::new(config);
    engine.load_champions(&[champion1, champion2], None).unwrap();
    engine.start().unwrap();

    let mut cycles_executed = 0;
    while engine.tick().unwrap() && cycles_executed < 10 {
        cycles_executed += 1;
    }

    assert!(cycles_executed > 0);
    assert!(cycles_executed <= 100);

    let stats = engine.get_stats();
    assert!(!stats.running || stats.cycle >= 100);
}

#[test]
fn test_two_invalid_champions() {
    let champion1 = create_invalid_champion("InvalidChamp1");
    let champion2 = create_invalid_champion("InvalidChamp2");

    let config = GameConfig {
        max_cycles: 50,
        verbose: false,
        ..Default::default()
    };

    let mut engine = GameEngine::new(config);
    engine.load_champions(&[champion1, champion2], None).unwrap();
    engine.start().unwrap();

    let winner = engine.run_to_completion().unwrap();

    let stats = engine.get_stats();
    assert!(winner.is_none() || stats.cycle >= 50);
}

#[test]
fn test_new_engine_is_empty() {
    let config = GameConfig { start_paused: true, ..Default::default() };
    let engine = GameEngine::new(config);
    assert!(engine.state().paused);
    assert_eq!(engine.state().winner, None);
    assert_eq!(engine.processes().len(), 0);
    assert_eq!(engine.memory().read_byte(17), 0);
    assert_eq!(engine.memory().get_owner(17), None);
    let stats = engine.scheduler_stats();
    assert_eq!(stats.current_cycle, 0);
    assert_eq!(stats.cycle_to_die, CYCLE_TO_DIE);
    assert_eq!(stats.process_count, 0);
    assert_eq!(engine.config().max_cycles, 0);
    assert!(engine.aff_output().is_empty());
}

#[test]
fn test_start_needs_champions() {
    let mut engine = GameEngine::new(GameConfig::default());
    match engine.start() {
        Err(CoreWarError::GameState { message }) => assert_eq!(message, "No champions loaded"),
        other => panic!("unexpected {:?}", other),
    }
    assert!(!engine.state().running);
    match engine.run_to_completion() {
        Err(CoreWarError::GameState { message }) => assert_eq!(message, "No champions loaded"),
        other => panic!("unexpected {:?}", other),
    }
}

#[test]
fn test_load_faults_leave_the_engine_unchanged() {
    let mut engine = GameEngine::new(GameConfig::default());
    let none: Vec<Vec<u8>> = Vec::new();
    match engine.load_champions(&none, None) {
        Err(CoreWarError::GameState { message }) => {
            assert_eq!(message, "No champion files provided")
        }
        other => panic!("unexpected {:?}", other),
    }
    let five = vec![create_live_champion("c"); 5];
    match engine.load_champions(&five, None) {
        Err(CoreWarError::GameState { message }) => {
            assert_eq!(message, "Too many champions: 5 (max 4)")
        }
        other => panic!("unexpected {:?}", other),
    }
    let mut broken = create_live_champion("broken");
    broken[1] = 0;
    let good = create_live_champion("good");
    assert!(matches!(
        engine.load_champions(&[good.clone(), broken], None),
        Err(CoreWarError::InvalidHeader { .. })
    ));
    assert!(matches!(
        engine.load_champions(&[good.clone(), good.clone()], Some(&[0, 2])),
        Err(CoreWarError::Champion { .. })
    ));
    assert_eq!(engine.champions().len(), 0);
    assert_eq!(engine.processes().len(), 0);
    for address in 0..MEMORY_SIZE {
        assert_eq!(engine.memory().read_byte(address), 0);
        assert_eq!(engine.memory().get_owner(address), None);
    }
}

#[test]
fn test_loading_places_code_and_processes() {
    let mut engine = GameEngine::new(GameConfig::default());
    let a = cor_file("A", "first", &[0xAA, 0xBB, 0xCC, 0xDD]);
    let b = cor_file("B", "second", &[0x11, 0x22]);
    engine.load_champions(&[a, b], Some(&[MEMORY_SIZE - 2, 100])).unwrap();

    let memory = engine.memory();
    assert_eq!(memory.read_byte(MEMORY_SIZE - 2), 0xAA);
    assert_eq!(memory.read_byte(MEMORY_SIZE - 1), 0xBB);
    assert_eq!(memory.read_byte(0), 0xCC);
    assert_eq!(memory.read_byte(1), 0xDD);
    assert_eq!(memory.get_owner(MEMORY_SIZE - 2), Some(1));
    assert_eq!(memory.get_owner(1), Some(1));
    assert_eq!(memory.get_owner(2), None);
    assert_eq!(memory.read_byte(100), 0x11);
    assert_eq!(memory.get_owner(101), Some(2));

    let processes = engine.processes();
    assert_eq!(processes.len(), 2);
    assert_eq!((processes[0].id, processes[0].champion_id, processes[0].pc), (1, 1, MEMORY_SIZE - 2));
    assert_eq!((processes[1].id, processes[1].champion_id, processes[1].pc), (2, 2, 100));
    assert_eq!(processes[0].get_register(1).unwrap(), -1);
    assert_eq!(processes[1].get_register(1).unwrap(), -2);
    assert_eq!(engine.get_stats().active_champions, 2);
    assert_eq!(engine.get_stats().active_processes, 2);
}

#[test]
fn test_tick_does_nothing_unless_running() {
    let mut engine = GameEngine::new(GameConfig::default());
    engine.load_champions(&[create_live_champion("c")], None).unwrap();
    assert_eq!(engine.tick().unwrap(), false);
    assert_eq!(engine.state().cycle, 0);
    engine.start().unwrap();
    engine.pause();
    assert_eq!(engine.tick().unwrap(), true);
    assert_eq!(engine.state().cycle, 0);
    assert_eq!(engine.scheduler_stats().current_cycle, 0);
    engine.resume();
    assert_eq!(engine.tick().unwrap(), true);
    assert_eq!(engine.state().cycle, 1);
    assert_eq!(engine.scheduler_stats().current_cycle, 1);
    // A paused battle is not run to its end.
    engine.pause();
    assert_eq!(engine.run_to_completion().unwrap(), Some(1));
    assert_eq!(engine.state().cycle, 1);
    assert!(engine.state().running);
}

#[test]
fn test_each_tick_counts_one_cycle() {
    let config = GameConfig { max_cycles: 7, ..Default::default() };
    let mut engine = GameEngine::new(config);
    engine.load_champions(&[create_live_champion("c")], None).unwrap();
    engine.start().unwrap();
    for expected in 1..=7u32 {
        let running = engine.tick().unwrap();
        assert_eq!(engine.state().cycle, expected);
        assert_eq!(engine.scheduler_stats().current_cycle, expected);
        assert_eq!(running, expected < 7);
    }
    assert_eq!(engine.tick().unwrap(), false);
    assert_eq!(engine.state().cycle, 7);
}

#[test]
fn test_dump_text() {
    let mut engine = GameEngine::new(GameConfig::default());
    engine
        .load_champions(&[cor_file("Zork", "", &[0xAB]), cor_file("Bee", "", &[0xCD])], None)
        .unwrap();
    let text = engine.dump_text();
    assert!(text.starts_with("\n=== Memory Dump (Cycle 0) ===\n0000: AB 00 00 "));
    assert!(text.ends_with(
        "01F0: 00 00 00 00 00 00 00 00 00 00 00 00 00 00 00 00 \n\
         \n=== Process Information ===\nActive processes: 2\n\
         Champion 1: Zork (1 processes)\nChampion 2: Bee (1 processes)\n\n"
    ));
    assert_eq!(text.lines().count(), 2 + 32 + 1 + 2 + 2 + 1);
    assert_eq!(engine.memory().owned_cells(1), 1);
    assert_eq!(engine.memory().owned_cells(2), 1);
    assert_eq!(engine.memory().owned_cells(3), 0);
}

#[test]
fn test_speed_range() {
    let speed = |speed| GameConfig { speed, ..Default::default() }.speed_in_range();
    assert!(!speed(0));
    assert!(speed(1));
    assert!(speed(1000));
    assert!(!speed(1001));
}

#[test]
fn test_dump_is_due_every_so_many_cycles() {
    let config = GameConfig { dump_cycles: 3, max_cycles: 20, ..Default::default() };
    let mut engine = GameEngine::new(config);
    engine.load_champions(&[create_live_champion("c")], None).unwrap();
    engine.start().unwrap();
    // Before any cycle the count is zero, a multiple of three.
    assert!(engine.dump_due());
    let mut due = Vec::new();
    for _ in 0..7 {
        engine.tick().unwrap();
        due.push(engine.dump_due());
    }
    assert_eq!(due, vec![false, false, true, false, false, true, false]);
}

#[test]
fn test_no_dump_is_due_when_none_is_asked_for() {
    let config = GameConfig { dump_cycles: 0, max_cycles: 20, ..Default::default() };
    let mut engine = GameEngine::new(config);
    assert!(!engine.dump_due());
    engine.load_champions(&[create_live_champion("c")], None).unwrap();
    engine.start().unwrap();
    for _ in 0..4 {
        engine.tick().unwrap();
        assert!(!engine.dump_due());
    }
}
