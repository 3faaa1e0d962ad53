use corewar::ui::app::{App, ViewMode};
use corewar::ui::components::{
    address_to_screen_coords, process_map, trail_map, ColorMode, Controls, Dashboard, MemoryGrid,
    ProcessDetail,
};
use corewar::ui::effects::AsciiArt;
use corewar::ui::input::{
    Command, Direction, InputEvent, InputHandler, KeyCode, KeyEvent, KeyModifiers, MouseButton,
    MouseEvent, ScrollDirection,
};
use corewar::vm::loader::encode_champion;
use corewar::{ChampionColor, GameConfig, GameEngine, Process};

#[test]
fn test_app_creation() {
    let mut engine = GameEngine::new(Default::default());
    let app = App::new(&mut engine);
    assert!(!app.should_quit);
    assert!(!app.paused);
    assert_eq!(app.speed, 1);
    assert!(!app.debug_mode);
    assert_eq!(app.view_mode, ViewMode::Normal);
}

#[test]
fn test_app_controls() {
    let mut engine = GameEngine::new(Default::default());
    let mut app = App::new(&mut engine);

    app.toggle_pause();
    assert!(app.paused);
    app.toggle_pause();
    assert!(!app.paused);

    app.increase_speed();
    assert_eq!(app.speed, 2);
    app.increase_speed();
    assert_eq!(app.speed, 4);
    app.decrease_speed();
    assert_eq!(app.speed, 2);

    app.toggle_debug();
    assert!(app.debug_mode);

    app.quit();
    assert!(app.should_quit);
}

#[test]
fn test_address_selection() {
    let mut engine = GameEngine::new(Default::default());
    let mut app = App::new(&mut engine);

    assert_eq!(app.selected_address, None);

    app.select_address(0x100);
    assert_eq!(app.selected_address, Some(0x100));

    app.clear_selection();
    assert_eq!(app.selected_address, None);
}

#[test]
fn test_app_update_calls_engine_tick() {
    let mut engine = GameEngine::new(Default::default());
    engine.set_running(true);
    let initial_cycles = engine.get_stats().cycle;
    let mut app = App::new(&mut engine);

    app.update().unwrap();
    assert_eq!(app.engine.get_stats().cycle, initial_cycles + 1);

    app.paused = true;
    app.update().unwrap();
    assert_eq!(app.engine.get_stats().cycle, initial_cycles + 1);
}

#[test]
fn test_advanced_memory_integration() {
    let champ1 = encode_champion("TestChamp1", "Test champion 1", &[0x01, 0x80, 0x01, 0x00]).unwrap();
    let champ2 = encode_champion("TestChamp2", "Test champion 2", &[0x04, 0x80, 0x04, 0x00]).unwrap();

    let config = GameConfig {
        max_cycles: 100,
        dump_cycles: 0,
        speed: 1,
        verbose: false,
        start_paused: false,
    };

    let mut engine = GameEngine::new(config);
    engine
        .load_champions(&[champ1, champ2], None)
        .expect("Should load champions successfully");
    engine.set_running(true);

    let mut app = App::new(&mut engine);

    assert!(!app.paused);
    assert_eq!(app.speed, 1);

    for i in 0..10 {
        app.update().expect(&format!("Update {} should succeed", i));
    }

    assert!(!app.should_quit);
}

#[test]
fn test_app_memory_tracking() {
    let champ = encode_champion(
        "MemoryModifier",
        "A champion that modifies memory",
        &[0x01, 0x80, 0x01, 0x00, 0x03, 0x80, 0x03, 0x00],
    )
    .unwrap();

    let config = GameConfig::default();
    let mut engine = GameEngine::new(config);
    engine.load_champions(&[champ], None).expect("Should load champion successfully");
    engine.set_running(true);

    let mut app = App::new(&mut engine);

    for _ in 0..5 {
        app.update().expect("Update should succeed");
    }

    assert!(!app.should_quit);
}

#[test]
fn test_memory_grid() {
    let mut grid = MemoryGrid::new(64, 96);
    assert_eq!(grid.width, 64);
    assert_eq!(grid.height, 96);
    assert!(grid.show_addresses);

    assert_eq!(grid.grid_to_address(10, 5), 5 * 64 + 10);
    assert_eq!(grid.address_to_grid(330), (10, 5));

    grid.set_color_mode(ColorMode::Activity);
    assert_eq!(grid.color_mode, ColorMode::Activity);
}

#[test]
fn test_dashboard() {
    let mut dashboard = Dashboard::new();
    assert!(!dashboard.detailed);

    dashboard.toggle_detailed();
    assert!(dashboard.detailed);
}

#[test]
fn test_controls() {
    let mut controls = Controls::new();
    assert!(!controls.show_advanced);

    controls.toggle_advanced();
    assert!(controls.show_advanced);
}

#[test]
fn test_process_detail() {
    let mut detail = ProcessDetail::new();
    assert_eq!(detail.process_id, None);

    detail.set_process(42);
    assert_eq!(detail.process_id, Some(42));

    detail.clear_process();
    assert_eq!(detail.process_id, None);
}

#[test]
fn test_key_modifiers() {
    let modifiers = KeyModifiers::new();
    assert!(!modifiers.ctrl);
    assert!(!modifiers.alt);
    assert!(!modifiers.shift);

    let ctrl_mod = KeyModifiers::ctrl();
    assert!(ctrl_mod.ctrl);
    assert!(!ctrl_mod.alt);
    assert!(!ctrl_mod.shift);
}

#[test]
fn test_input_handler() {
    let mut handler = InputHandler::new();
    assert!(handler.mouse_enabled);

    handler.set_mouse_enabled(false);
    assert!(!handler.mouse_enabled);
}

#[test]
fn test_key_command_parsing() {
    let handler = InputHandler::new();

    let quit_event = KeyEvent {
        code: KeyCode::Char('q'),
        modifiers: KeyModifiers::new(),
    };
    assert_eq!(handler.parse_key_command(&quit_event), Some(Command::Quit));

    let pause_event = KeyEvent {
        code: KeyCode::Space,
        modifiers: KeyModifiers::new(),
    };
    assert_eq!(
        handler.parse_key_command(&pause_event),
        Some(Command::TogglePause)
    );

    let speed_up_event = KeyEvent {
        code: KeyCode::Char('+'),
        modifiers: KeyModifiers::new(),
    };
    assert_eq!(
        handler.parse_key_command(&speed_up_event),
        Some(Command::IncreaseSpeed)
    );
}

#[test]
fn test_mouse_command_parsing() {
    let handler = InputHandler::new();

    let click_event = MouseEvent::Down(MouseButton::Left, 10, 20);
    assert_eq!(
        handler.parse_mouse_command(&click_event),
        Some(Command::SelectMemory(10, 20))
    );

    let scroll_event = MouseEvent::Scroll(ScrollDirection::Up, 0, 0);
    assert_eq!(
        handler.parse_mouse_command(&scroll_event),
        Some(Command::IncreaseSpeed)
    );
}

#[test]
fn test_mouse_disabled() {
    let mut handler = InputHandler::new();
    handler.set_mouse_enabled(false);

    let click_event = MouseEvent::Down(MouseButton::Left, 10, 20);
    assert_eq!(handler.parse_mouse_command(&click_event), None);
}

#[test]
fn test_every_key() {
    let handler = InputHandler::new();
    let key = |code| KeyEvent { code, modifiers: KeyModifiers::shift() };
    let expected = [
        (KeyCode::Char('q'), Some(Command::Quit)),
        (KeyCode::Esc, Some(Command::Quit)),
        (KeyCode::Space, Some(Command::TogglePause)),
        (KeyCode::Char('='), Some(Command::IncreaseSpeed)),
        (KeyCode::Char('+'), Some(Command::IncreaseSpeed)),
        (KeyCode::Char('-'), Some(Command::DecreaseSpeed)),
        (KeyCode::Char('d'), Some(Command::ToggleDebug)),
        (KeyCode::Char('h'), Some(Command::ToggleHelp)),
        (KeyCode::Char('c'), Some(Command::CycleColorMode)),
        (KeyCode::Char('a'), Some(Command::ToggleAddresses)),
        (KeyCode::Up, Some(Command::Navigate(Direction::Up))),
        (KeyCode::Down, Some(Command::Navigate(Direction::Down))),
        (KeyCode::Left, Some(Command::Navigate(Direction::Left))),
        (KeyCode::Right, Some(Command::Navigate(Direction::Right))),
        (KeyCode::Char('s'), Some(Command::Step)),
        (KeyCode::Enter, Some(Command::Step)),
        (KeyCode::Char('1'), Some(Command::SetViewMode(corewar::ui::input::ViewMode::Normal))),
        (KeyCode::Char('2'), Some(Command::SetViewMode(corewar::ui::input::ViewMode::ProcessDetail))),
        (KeyCode::Char('3'), Some(Command::SetViewMode(corewar::ui::input::ViewMode::MemoryDump))),
        (KeyCode::Char('4'), None),
        (KeyCode::Char('Q'), None),
        (KeyCode::F(1), None),
        (KeyCode::Tab, None),
        (KeyCode::Backspace, None),
    ];
    for (code, command) in expected {
        assert_eq!(handler.parse_key_command(&key(code)), command);
    }
}

#[test]
fn test_other_mouse_events() {
    let handler = InputHandler::new();
    assert_eq!(
        handler.parse_mouse_command(&MouseEvent::Scroll(ScrollDirection::Down, 3, 4)),
        Some(Command::DecreaseSpeed)
    );
    assert_eq!(handler.parse_mouse_command(&MouseEvent::Down(MouseButton::Right, 1, 1)), None);
    assert_eq!(handler.parse_mouse_command(&MouseEvent::Up(MouseButton::Left, 1, 1)), None);
    assert_eq!(handler.parse_mouse_command(&MouseEvent::Move(1, 1)), None);
}

#[test]
fn test_events_without_a_terminal() {
    let mut handler = InputHandler::default();
    assert_eq!(handler.poll_event().unwrap(), None);
    assert_eq!(
        handler.read_event().unwrap(),
        InputEvent::Key(KeyEvent { code: KeyCode::Char('q'), modifiers: KeyModifiers::default() })
    );
    assert!(corewar::ui::initialize().is_ok());
    assert!(corewar::ui::cleanup().is_ok());
    assert_eq!(KeyModifiers::alt(), KeyModifiers { ctrl: false, alt: true, shift: false });
}

#[test]
fn test_speed_limits() {
    let mut engine = GameEngine::new(Default::default());
    let mut app = App::new(&mut engine);
    app.decrease_speed();
    assert_eq!(app.speed, 1);
    for _ in 0..20 {
        app.increase_speed();
    }
    assert_eq!(app.speed, 1024);
    app.speed = 999;
    app.increase_speed();
    assert_eq!(app.speed, 1998);
    app.increase_speed();
    assert_eq!(app.speed, 1998);
    app.set_view_mode(ViewMode::Help);
    assert_eq!(app.view_mode, ViewMode::Help);
}

#[test]
fn test_step_runs_only_when_paused() {
    let mut engine = GameEngine::new(Default::default());
    engine.set_running(true);
    let mut app = App::new(&mut engine);
    app.step().unwrap();
    assert_eq!(app.engine.state().cycle, 0);
    app.toggle_pause();
    app.step().unwrap();
    assert_eq!(app.engine.state().cycle, 1);
}

#[test]
fn test_select_next_process() {
    let file = encode_champion("c", "", &[0x01, 0, 0, 0, 1]).unwrap();
    let mut engine = GameEngine::new(Default::default());
    let mut app = App::new(&mut engine);
    app.select_next_process();
    assert_eq!(app.selected_process_id, None);
    app.engine.load_champions(&[file.clone(), file.clone(), file], None).unwrap();
    app.select_next_process();
    assert_eq!(app.selected_process_id, Some(1));
    app.select_next_process();
    assert_eq!(app.selected_process_id, Some(2));
    app.select_next_process();
    assert_eq!(app.selected_process_id, Some(3));
    app.select_next_process();
    assert_eq!(app.selected_process_id, Some(1));
    app.selected_process_id = Some(77);
    app.select_next_process();
    assert_eq!(app.selected_process_id, Some(1));
}

#[test]
fn test_grid_places() {
    let mut grid = MemoryGrid::new(32, 192);
    for address in [0usize, 31, 32, 6143] {
        let (x, y) = grid.address_to_grid(address);
        assert!(x < 32);
        assert_eq!(grid.grid_to_address(x, y), address);
    }
    grid.toggle_addresses();
    assert!(!grid.show_addresses);
    assert_eq!(Dashboard::default(), Dashboard { detailed: false });
    assert_eq!(Controls::default(), Controls { show_advanced: false });
    assert_eq!(ProcessDetail::default(), ProcessDetail { process_id: None });
}

#[test]
fn test_process_indicator() {
    let active: Vec<char> = (0..4).map(|id| AsciiArt::process_indicator(id, true)).collect();
    assert_eq!(active, vec!['◆', '●', '▲', '■']);
    let idle: Vec<char> = (4..8).map(|id| AsciiArt::process_indicator(id, false)).collect();
    assert_eq!(idle, vec!['◇', '○', '△', '□']);
}

#[test]
fn test_screen_coordinates() {
    assert_eq!(address_to_screen_coords(0), (0, 0));
    assert_eq!(address_to_screen_coords(31), (93, 0));
    assert_eq!(address_to_screen_coords(32), (0, 1));
    assert_eq!(address_to_screen_coords(6143), (93, 191));
}

#[test]
fn test_process_and_trail_maps() {
    let mut first = Process::new(1, 1, 5, ChampionColor::Red);
    first.set_pc(7, 100);
    first.set_pc(9, 100);
    let second = Process::new(2, 2, 9, ChampionColor::Blue);
    let third = Process::new(3, 3, 105, ChampionColor::Green);
    let processes = vec![&first, &second, &third];
    let map = process_map(&processes, 100);
    assert_eq!(map.len(), 100);
    assert_eq!(map[9], Some(2));
    assert_eq!(map[5], Some(3));
    assert_eq!(map[7], None);
    assert_eq!(map.iter().filter(|c| c.is_some()).count(), 2);
    let trails = trail_map(&processes, 100);
    assert_eq!(trails[5], Some(3));
    assert_eq!(trails[7], Some(1));
    assert_eq!(trails[9], Some(2));
    assert_eq!(trails[0], None);
    assert_eq!(trails.iter().filter(|c| c.is_some()).count(), 3);
    assert_eq!(process_map(&Vec::new(), 3), vec![None, None, None]);
}
