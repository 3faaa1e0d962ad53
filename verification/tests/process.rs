use corewar::vm::process::{Pending, Process};
use corewar::{ChampionColor, CoreWarError};

#[test]
fn process_test_process_creation() {
    let process = Process::new(1, 1, 0x100, ChampionColor::Red);
    assert_eq!(process.id, 1);
    assert_eq!(process.champion_id, 1);
    assert_eq!(process.pc, 0x100);
    assert!(process.alive);
    assert_eq!(process.wait_cycles, 0);
    assert_eq!(process.live_counter, 0);
    assert!(!process.carry);
}

#[test]
fn test_register_operations() {
    let mut process = Process::new(1, 1, 0, ChampionColor::Red);

    process.set_register(1, 42).unwrap();
    assert_eq!(process.get_register(1).unwrap(), 42);

    process.set_register(16, -100).unwrap();
    assert_eq!(process.get_register(16).unwrap(), -100);

    assert!(process.set_register(0, 42).is_err());
    assert!(process.set_register(17, 42).is_err());
    assert!(process.get_register(0).is_err());
    assert!(process.get_register(17).is_err());
}

#[test]
fn test_pc_operations() {
    let mut process = Process::new(1, 1, 100, ChampionColor::Red);
    let memory_size = 1000;

    process.advance_pc(50, memory_size);
    assert_eq!(process.pc, 150);

    process.advance_pc(-25, memory_size);
    assert_eq!(process.pc, 125);

    process.advance_pc(900, memory_size);
    assert_eq!(process.pc, 25);

    process.set_pc(500, memory_size);
    assert_eq!(process.pc, 500);

    process.set_pc(1500, memory_size);
    assert_eq!(process.pc, 500);
}

#[test]
fn test_process_lifecycle() {
    let mut process = Process::new(1, 1, 0, ChampionColor::Red);

    assert!(process.is_ready());
    assert!(process.alive);
    assert_eq!(process.live_counter, 0);

    process.set_wait_cycles(3);
    assert!(!process.is_ready());
    assert_eq!(process.wait_cycles, 3);

    process.decrement_wait_cycles();
    assert_eq!(process.wait_cycles, 2);
    assert!(!process.is_ready());

    process.decrement_wait_cycles();
    process.decrement_wait_cycles();
    assert_eq!(process.wait_cycles, 0);
    assert!(process.is_ready());

    process.increment_live_counter();
    assert_eq!(process.live_counter, 1);

    process.mark_alive();
    assert_eq!(process.live_counter, 0);

    process.kill();
    assert!(!process.alive);
    assert!(!process.is_ready());
}

#[test]
fn test_process_fork() {
    let process = Process::new(1, 1, 100, ChampionColor::Red);
    let forked = process.fork(2, 200, 1000);

    assert_eq!(forked.id, 2);
    assert_eq!(forked.champion_id, 1);
    assert_eq!(forked.pc, 200);
    assert!(forked.alive);
    assert_eq!(forked.wait_cycles, 0);

    assert_eq!(process.id, 1);
    assert_eq!(process.pc, 100);
}

#[test]
fn test_new_process_registers() {
    let process = Process::new(7, 3, 12, ChampionColor::Green);
    assert_eq!(process.get_register(1).unwrap(), -3);
    for register in 2..=16u8 {
        assert_eq!(process.get_register(register).unwrap(), 0);
    }
    assert_eq!(process.pending, Pending::Idle);
    assert_eq!(process.color, ChampionColor::Green);
    assert_eq!(process.trail[0], 12);
    assert_eq!(process.trail_count, 1);
}

#[test]
fn test_invalid_register_is_reported() {
    let mut process = Process::new(1, 1, 0, ChampionColor::Red);
    match process.get_register(17) {
        Err(CoreWarError::InvalidRegister { register }) => assert_eq!(register, 17),
        other => panic!("unexpected {:?}", other),
    }
    match process.set_register(0, 5) {
        Err(CoreWarError::InvalidRegister { register }) => assert_eq!(register, 0),
        other => panic!("unexpected {:?}", other),
    }
    assert_eq!(process.get_register(1).unwrap(), -1);
}

#[test]
fn test_negative_advance_wraps_backwards() {
    let mut process = Process::new(1, 1, 10, ChampionColor::Red);
    process.advance_pc(-25, 1000);
    assert_eq!(process.pc, 985);
    process.advance_pc(i32::MIN, 6144);
    assert_eq!(process.pc, (985i64 + i32::MIN as i64).rem_euclid(6144) as usize);
}

#[test]
fn test_trail_is_a_ring_of_ten() {
    let mut process = Process::new(1, 1, 0, ChampionColor::Red);
    for pc in 1..=9usize {
        process.set_pc(pc, 6144);
    }
    assert_eq!(process.trail, [0, 1, 2, 3, 4, 5, 6, 7, 8, 9]);
    assert_eq!(process.trail_count, 10);
    process.set_pc(10, 6144);
    assert_eq!(process.trail, [10, 1, 2, 3, 4, 5, 6, 7, 8, 9]);
    assert_eq!(process.trail_count, 11);
    for pc in 11..=19usize {
        process.set_pc(pc, 6144);
    }
    assert_eq!(process.trail, [10, 11, 12, 13, 14, 15, 16, 17, 18, 19]);
    assert_eq!(process.trail_count, 10);
}

#[test]
fn test_live_counter_saturates() {
    let mut process = Process::new(1, 1, 0, ChampionColor::Red);
    process.live_counter = u32::MAX - 1;
    process.increment_live_counter();
    assert_eq!(process.live_counter, u32::MAX);
    process.increment_live_counter();
    assert_eq!(process.live_counter, u32::MAX);
    process.decrement_wait_cycles();
    assert_eq!(process.wait_cycles, 0);
}

#[test]
fn test_fork_inherits_state() {
    let mut process = Process::new(1, 2, 100, ChampionColor::Blue);
    process.set_register(5, 77).unwrap();
    process.carry = true;
    process.live_counter = 9;
    process.wait_cycles = 4;
    let child = process.fork(8, 6144 + 3, 6144);
    assert_eq!(child.pc, 3);
    assert_eq!(child.get_register(5).unwrap(), 77);
    assert_eq!(child.get_register(1).unwrap(), -2);
    assert!(child.carry);
    assert_eq!(child.live_counter, 9);
    assert_eq!(child.wait_cycles, 0);
    assert_eq!(child.pending, Pending::Idle);
}

#[test]
fn test_debug_state_text() {
    let mut process = Process::new(3, 2, 255, ChampionColor::Blue);
    process.set_wait_cycles(7);
    assert_eq!(
        process.debug_state(),
        "Process 3 (Champion 2): PC=00FF, Alive=true, Wait=7, Carry=false, LiveCounter=0"
    );
}
