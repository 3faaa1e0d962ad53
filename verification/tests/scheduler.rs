use corewar::constants::CYCLE_TO_DIE;
use corewar::vm::memory::Memory;
use corewar::vm::scheduler::Scheduler;
use corewar::Champion;

#[test]
fn test_scheduler_creation() {
    let scheduler = Scheduler::new();
    assert_eq!(scheduler.process_count(), 0);
    assert_eq!(scheduler.current_cycle(), 0);
    assert_eq!(scheduler.cycle_to_die(), CYCLE_TO_DIE);
}

#[test]
fn scheduler_test_process_creation() {
    let mut scheduler = Scheduler::new();
    let champion = Champion::new(
        1,
        "Test Champion".to_string(),
        "A test champion".to_string(),
        vec![0x01, 0x02, 0x03],
        0,
    );

    let process = scheduler.create_process(&champion);
    assert_eq!(process.champion_id, 1);
    assert_eq!(process.pc, 0);
    assert!(process.alive);

    scheduler.add_process(process);
    assert_eq!(scheduler.process_count(), 1);
}

#[test]
fn test_process_scheduling() {
    let mut scheduler = Scheduler::new();
    let mut memory = Memory::new();
    let mut champions = vec![Champion::new(
        1,
        "Test Champion".to_string(),
        "A test champion".to_string(),
        vec![0x01, 0x02, 0x03],
        0,
    )];

    let process = scheduler.create_process(&champions[0]);
    scheduler.add_process(process);

    for _ in 0..5 {
        let should_continue = scheduler
            .execute_cycle(&mut memory, &mut champions)
            .unwrap();
        if !should_continue && scheduler.process_count() > 0 {
            break;
        }
    }
}
