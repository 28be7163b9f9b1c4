use syscall_monitor::machine::{input_of_key, Action, App, AppMode, Event, Failure, Input, Key};
use syscall_monitor::process::ProcessInfo;

fn proc(pid: i32, name: &str, cmd: &str) -> ProcessInfo {
    ProcessInfo { pid, name: name.to_string(), cmd: cmd.to_string() }
}

fn snapshot() -> Vec<ProcessInfo> {
    vec![
        proc(40, "sshd", "sshd: u@pts/0"),
        proc(1, "init", "/sbin/init"),
        proc(21, "python3", "python3 /home/u/bashful.py"),
        proc(20, "bash", "/bin/bash -l"),
    ]
}

fn lines(raw: &[&str]) -> Vec<String> {
    raw.iter().map(|s| s.to_string()).collect()
}

fn pids(v: &[ProcessInfo]) -> Vec<i32> {
    v.iter().map(|p| p.pid).collect()
}

fn type_text(app: &mut App, text: &str) {
    for c in text.chars() {
        assert_eq!(app.handle_key(Key::Char(c)), Action::Idle);
    }
}

/// An app that monitors process 20 and has seen read, write and openat.
fn monitoring() -> App {
    let mut app = App::new(snapshot());
    assert_eq!(app.handle_key(Key::Down), Action::Idle);
    assert_eq!(app.handle_key(Key::Enter), Action::Spawn { pid: 20 });
    let seen = lines(&["read(3) = 1", "write(1) = 1", "openat(AT_FDCWD) = 3", "read(3) = 0"]);
    assert_eq!(app.on_polled(&seen, false), Action::Idle);
    app
}

#[test]
fn new_app_shows_the_selection_screen() {
    let app = App::new(snapshot());
    assert_eq!(app.mode(), AppMode::ProcessSelection);
    assert_eq!(pids(app.processes()), vec![1, 20, 21, 40]);
    assert_eq!(pids(app.filtered_processes()), vec![1, 20, 21, 40]);
    assert_eq!(app.process_filter(), "");
    assert_eq!(app.selected_process(), 0);
    assert_eq!(app.target_pid(), 0);
    assert_eq!(app.target_process_name(), "");
    assert!(app.syscalls().is_empty());
    assert!(!app.filter_mode());
    assert_eq!(app.syscall_filter(), "");
    assert!(app.filtered_syscalls().is_empty());
    assert_eq!(app.failure(), None);
    assert!(app.visible_syscalls().is_empty());
}

#[test]
fn new_app_over_no_process() {
    let mut app = App::new(Vec::new());
    assert!(app.filtered_processes().is_empty());
    assert_eq!(app.handle_key(Key::Enter), Action::Idle);
    assert_eq!(app.handle_key(Key::Down), Action::Idle);
    assert_eq!(app.handle_key(Key::Up), Action::Idle);
    assert_eq!(app.mode(), AppMode::ProcessSelection);
    assert_eq!(app.selected_process(), 0);
}

#[test]
fn keys_on_the_selection_screen() {
    let m = AppMode::ProcessSelection;
    assert_eq!(input_of_key(m, false, Key::Char('q')), Some(Input::Quit));
    assert_eq!(input_of_key(m, false, Key::Char('b')), Some(Input::Typed('b')));
    assert_eq!(input_of_key(m, false, Key::Char('k')), Some(Input::Typed('k')));
    assert_eq!(input_of_key(m, false, Key::Char('f')), Some(Input::Typed('f')));
    assert_eq!(input_of_key(m, false, Key::Backspace), Some(Input::Backspace));
    assert_eq!(input_of_key(m, false, Key::Up), Some(Input::Up));
    assert_eq!(input_of_key(m, false, Key::Down), Some(Input::Down));
    assert_eq!(input_of_key(m, false, Key::Enter), Some(Input::Enter));
    assert_eq!(input_of_key(m, false, Key::Esc), None);
    assert_eq!(input_of_key(m, false, Key::Other), None);
}

#[test]
fn keys_while_monitoring() {
    let m = AppMode::SyscallMonitoring;
    assert_eq!(input_of_key(m, false, Key::Char('q')), Some(Input::Quit));
    assert_eq!(input_of_key(m, false, Key::Char('b')), Some(Input::Back));
    assert_eq!(input_of_key(m, false, Key::Char('k')), Some(Input::Kill));
    assert_eq!(input_of_key(m, false, Key::Char('f')), Some(Input::Filter));
    assert_eq!(input_of_key(m, false, Key::Char('x')), None);
    assert_eq!(input_of_key(m, false, Key::Enter), None);
    assert_eq!(input_of_key(m, false, Key::Esc), None);
    assert_eq!(input_of_key(m, false, Key::Backspace), None);
    assert_eq!(input_of_key(m, false, Key::Up), None);
}

#[test]
fn keys_in_filter_mode() {
    let m = AppMode::SyscallMonitoring;
    assert_eq!(input_of_key(m, true, Key::Char('q')), Some(Input::Typed('q')));
    assert_eq!(input_of_key(m, true, Key::Char('k')), Some(Input::Typed('k')));
    assert_eq!(input_of_key(m, true, Key::Backspace), Some(Input::Backspace));
    assert_eq!(input_of_key(m, true, Key::Enter), Some(Input::Enter));
    assert_eq!(input_of_key(m, true, Key::Esc), Some(Input::Escape));
    assert_eq!(input_of_key(m, true, Key::Up), None);
    assert_eq!(input_of_key(m, true, Key::Other), None);
}

#[test]
fn quit_on_the_selection_screen_exits() {
    let mut app = App::new(snapshot());
    assert_eq!(app.handle_key(Key::Char('q')), Action::Exit);
    assert_eq!(app.mode(), AppMode::ProcessSelection);
    assert_eq!(app.process_filter(), "");
}

#[test]
fn typing_narrows_the_process_list() {
    let mut app = App::new(snapshot());
    type_text(&mut app, "bash");
    assert_eq!(app.process_filter(), "bash");
    assert_eq!(pids(app.filtered_processes()), vec![20, 21]);
    assert_eq!(pids(app.processes()), vec![1, 20, 21, 40]);
    assert_eq!(app.handle_key(Key::Backspace), Action::Idle);
    assert_eq!(app.process_filter(), "bas");
    type_text(&mut app, "X");
    assert!(app.filtered_processes().is_empty());
}

#[test]
fn backspace_on_an_empty_filter_changes_nothing() {
    let mut app = App::new(snapshot());
    assert_eq!(app.handle_key(Key::Backspace), Action::Idle);
    assert_eq!(app.process_filter(), "");
    assert_eq!(pids(app.filtered_processes()), vec![1, 20, 21, 40]);
}

#[test]
fn cursor_stays_within_the_list() {
    let mut app = App::new(snapshot());
    app.handle_key(Key::Up);
    assert_eq!(app.selected_process(), 0);
    for _ in 0..3 {
        app.handle_key(Key::Down);
    }
    assert_eq!(app.selected_process(), 3);
    app.handle_key(Key::Down);
    assert_eq!(app.selected_process(), 3);
    app.handle_key(Key::Up);
    assert_eq!(app.selected_process(), 2);
}

#[test]
fn cursor_past_the_end_goes_to_the_last_process() {
    let mut app = App::new(snapshot());
    for _ in 0..3 {
        app.handle_key(Key::Down);
    }
    type_text(&mut app, "ba");
    assert_eq!(pids(app.filtered_processes()), vec![20, 21]);
    assert_eq!(app.selected_process(), 1);
    type_text(&mut app, "sh ");
    assert_eq!(pids(app.filtered_processes()), vec![20]);
    assert_eq!(app.selected_process(), 0);
}

#[test]
fn cursor_within_the_narrowed_list_stays() {
    let mut app = App::new(snapshot());
    app.handle_key(Key::Down);
    type_text(&mut app, "ba");
    assert_eq!(pids(app.filtered_processes()), vec![20, 21]);
    assert_eq!(app.selected_process(), 1);
}

#[test]
fn enter_starts_monitoring_the_process_under_the_cursor() {
    let mut app = App::new(snapshot());
    type_text(&mut app, "py");
    assert_eq!(app.handle_key(Key::Enter), Action::Spawn { pid: 21 });
    assert_eq!(app.mode(), AppMode::SyscallMonitoring);
    assert_eq!(app.target_pid(), 21);
    assert_eq!(app.target_process_name(), "python3");
    assert!(app.syscalls().is_empty());
    assert!(!app.filter_mode());
}

#[test]
fn process_that_exits_at_once_returns_to_selection_within_one_tick() {
    let mut app = App::new(snapshot());
    assert_eq!(app.handle_key(Key::Enter), Action::Spawn { pid: 1 });
    assert_eq!(app.step(Event::Tick), Action::Poll { drain: true });
    let polled = Event::Polled { lines: Vec::new(), exited: true };
    assert_eq!(app.step(polled), Action::Teardown { kill: None });
    let stopped = Event::Stopped { processes: vec![proc(20, "bash", "/bin/bash -l")], kill_failed: false };
    assert_eq!(app.step(stopped), Action::Idle);
    assert_eq!(app.mode(), AppMode::ProcessSelection);
    assert!(app.syscalls().is_empty());
    assert_eq!(pids(app.processes()), vec![20]);
    assert_eq!(app.failure(), None);
}

#[test]
fn tick_asks_for_what_the_screen_needs() {
    let mut app = App::new(snapshot());
    assert_eq!(app.on_tick(), Action::Refresh);
    app.handle_key(Key::Enter);
    assert_eq!(app.on_tick(), Action::Poll { drain: true });
    app.handle_key(Key::Char('f'));
    assert_eq!(app.on_tick(), Action::Poll { drain: false });
    app.handle_key(Key::Esc);
    assert_eq!(app.on_tick(), Action::Poll { drain: true });
}

#[test]
fn polled_lines_are_ingested() {
    let app = monitoring();
    assert_eq!(app.syscalls().names(), &lines(&["read", "write", "openat"]));
    assert_eq!(app.visible_syscalls(), &lines(&["read", "write", "openat"]));
    assert_eq!(app.mode(), AppMode::SyscallMonitoring);
}

#[test]
fn polled_lines_on_the_selection_screen_are_ignored() {
    let mut app = App::new(snapshot());
    assert_eq!(app.on_polled(&lines(&["read(1)"]), true), Action::Idle);
    assert!(app.syscalls().is_empty());
    assert_eq!(app.mode(), AppMode::ProcessSelection);
}

#[test]
fn filter_mode_starts_with_every_syscall() {
    let mut app = monitoring();
    assert_eq!(app.handle_key(Key::Char('f')), Action::Idle);
    assert!(app.filter_mode());
    assert_eq!(app.syscall_filter(), "");
    assert_eq!(app.filtered_syscalls(), &lines(&["read", "write", "openat"]));
}

#[test]
fn query_narrows_the_syscalls() {
    let mut app = monitoring();
    app.handle_key(Key::Char('f'));
    type_text(&mut app, "rd");
    assert_eq!(app.syscall_filter(), "rd");
    assert_eq!(app.filtered_syscalls(), &lines(&["read"]));
    assert_eq!(app.visible_syscalls(), &lines(&["read"]));
    assert_eq!(app.handle_key(Key::Backspace), Action::Idle);
    assert_eq!(app.syscall_filter(), "r");
    let mut found = app.filtered_syscalls().clone();
    found.sort();
    assert_eq!(found, lines(&["read", "write"]));
    app.handle_key(Key::Backspace);
    app.handle_key(Key::Backspace);
    assert_eq!(app.syscall_filter(), "");
    assert_eq!(app.filtered_syscalls(), &lines(&["read", "write", "openat"]));
}

#[test]
fn command_letters_are_typed_in_filter_mode() {
    let mut app = monitoring();
    app.handle_key(Key::Char('f'));
    type_text(&mut app, "qbkf");
    assert_eq!(app.syscall_filter(), "qbkf");
    assert_eq!(app.mode(), AppMode::SyscallMonitoring);
    assert!(app.filter_mode());
    assert!(app.filtered_syscalls().is_empty());
}

#[test]
fn nothing_is_ingested_in_filter_mode() {
    let mut app = monitoring();
    app.handle_key(Key::Char('f'));
    assert_eq!(app.on_polled(&lines(&["close(3) = 0"]), false), Action::Idle);
    assert_eq!(app.syscalls().names(), &lines(&["read", "write", "openat"]));
    assert_eq!(app.filtered_syscalls(), &lines(&["read", "write", "openat"]));
}

#[test]
fn leaving_filter_mode_clears_it_and_ingestion_resumes() {
    for key in [Key::Enter, Key::Esc] {
        let mut app = monitoring();
        app.handle_key(Key::Char('f'));
        type_text(&mut app, "rd");
        assert_eq!(app.handle_key(key), Action::Idle);
        assert!(!app.filter_mode());
        assert_eq!(app.syscall_filter(), "");
        assert!(app.filtered_syscalls().is_empty());
        assert_eq!(app.visible_syscalls(), &lines(&["read", "write", "openat"]));
        assert_eq!(app.on_polled(&lines(&["close(3) = 0", "read(3) = 0"]), false), Action::Idle);
        assert_eq!(app.syscalls().names(), &lines(&["read", "write", "openat", "close"]));
    }
}

#[test]
fn tracer_exit_is_seen_in_filter_mode_too() {
    let mut app = monitoring();
    app.handle_key(Key::Char('f'));
    assert_eq!(app.on_polled(&Vec::new(), true), Action::Teardown { kill: None });
}

#[test]
fn back_and_quit_ask_for_teardown() {
    for c in ['b', 'q'] {
        let mut app = monitoring();
        assert_eq!(app.handle_key(Key::Char(c)), Action::Teardown { kill: None });
        assert_eq!(app.mode(), AppMode::SyscallMonitoring);
        app.on_stopped(snapshot(), false);
        assert_eq!(app.mode(), AppMode::ProcessSelection);
        assert_eq!(app.failure(), None);
    }
}

#[test]
fn kill_names_the_target() {
    let mut app = monitoring();
    assert_eq!(app.handle_key(Key::Char('k')), Action::Teardown { kill: Some(20) });
    app.on_stopped(vec![proc(1, "init", "/sbin/init")], false);
    assert_eq!(app.mode(), AppMode::ProcessSelection);
    assert_eq!(pids(app.processes()), vec![1]);
    assert_eq!(app.failure(), None);
}

#[test]
fn rejected_kill_is_noted_and_teardown_goes_on() {
    let mut app = monitoring();
    assert_eq!(app.on_input(Input::Kill), Action::Teardown { kill: Some(20) });
    app.on_stopped(snapshot(), true);
    assert_eq!(app.mode(), AppMode::ProcessSelection);
    assert_eq!(app.failure(), Some(Failure::KillFailed));
    assert_eq!(app.selected_process(), 1);
    assert_eq!(app.handle_key(Key::Enter), Action::Spawn { pid: 20 });
    assert_eq!(app.failure(), None);
}

#[test]
fn named_inputs_work_in_filter_mode() {
    let mut app = monitoring();
    app.on_input(Input::Filter);
    assert_eq!(app.on_input(Input::Back), Action::Teardown { kill: None });
    assert_eq!(app.on_input(Input::Quit), Action::Teardown { kill: None });
    assert_eq!(app.on_input(Input::Kill), Action::Teardown { kill: Some(20) });
    assert_eq!(app.on_input(Input::Filter), Action::Idle);
    assert!(app.filter_mode());
    app.on_stopped(snapshot(), false);
    assert!(!app.filter_mode());
    assert_eq!(app.syscall_filter(), "");
    assert!(app.filtered_syscalls().is_empty());
}

#[test]
fn stopped_keeps_what_was_seen_until_the_next_session() {
    let mut app = monitoring();
    app.handle_key(Key::Char('b'));
    app.on_stopped(snapshot(), false);
    assert_eq!(app.syscalls().names(), &lines(&["read", "write", "openat"]));
    assert_eq!(app.target_pid(), 20);
    app.handle_key(Key::Up);
    assert_eq!(app.handle_key(Key::Enter), Action::Spawn { pid: 1 });
    assert!(app.syscalls().is_empty());
    assert_eq!(app.target_process_name(), "init");
}

#[test]
fn stopped_takes_in_the_snapshot_sorted_and_filtered() {
    let mut app = App::new(snapshot());
    type_text(&mut app, "sh");
    app.handle_key(Key::Down);
    app.handle_key(Key::Down);
    assert_eq!(app.selected_process(), 2);
    assert_eq!(app.handle_key(Key::Enter), Action::Spawn { pid: 40 });
    app.on_stopped(vec![proc(9, "zsh", "zsh"), proc(3, "cron", "cron"), proc(5, "fish", "fish")], false);
    assert_eq!(pids(app.processes()), vec![3, 5, 9]);
    assert_eq!(pids(app.filtered_processes()), vec![5, 9]);
    assert_eq!(app.process_filter(), "sh");
    assert_eq!(app.selected_process(), 1);
}

#[test]
fn failed_start_returns_to_selection() {
    let mut app = App::new(snapshot());
    assert_eq!(app.handle_key(Key::Enter), Action::Spawn { pid: 1 });
    assert_eq!(app.step(Event::SpawnFailed), Action::Teardown { kill: None });
    assert_eq!(app.failure(), Some(Failure::SpawnFailed));
    assert_eq!(app.step(Event::Stopped { processes: snapshot(), kill_failed: false }), Action::Idle);
    assert_eq!(app.mode(), AppMode::ProcessSelection);
    assert_eq!(app.failure(), Some(Failure::SpawnFailed));
    assert!(app.syscalls().is_empty());
}

#[test]
fn failed_start_on_the_selection_screen_is_ignored() {
    let mut app = App::new(snapshot());
    assert_eq!(app.on_spawn_failed(), Action::Idle);
    assert_eq!(app.failure(), None);
}

#[test]
fn refreshed_replaces_the_list_on_the_selection_screen() {
    let mut app = App::new(snapshot());
    type_text(&mut app, "sh");
    app.handle_key(Key::Down);
    assert_eq!(app.step(Event::Tick), Action::Refresh);
    let fresh = vec![proc(8, "dash", "dash"), proc(2, "sh", "sh"), proc(4, "vim", "vim a.txt")];
    assert_eq!(app.step(Event::Refreshed { processes: fresh }), Action::Idle);
    assert_eq!(pids(app.processes()), vec![2, 4, 8]);
    assert_eq!(pids(app.filtered_processes()), vec![2, 8]);
    assert_eq!(app.selected_process(), 1);
    app.on_refreshed(vec![proc(2, "sh", "sh")]);
    assert_eq!(app.selected_process(), 0);
}

#[test]
fn refreshed_while_monitoring_is_ignored() {
    let mut app = monitoring();
    app.on_refreshed(Vec::new());
    assert_eq!(pids(app.processes()), vec![1, 20, 21, 40]);
    assert_eq!(app.mode(), AppMode::SyscallMonitoring);
}

#[test]
fn other_inputs_while_monitoring_do_nothing() {
    let mut app = monitoring();
    for input in [Input::Typed('x'), Input::Backspace, Input::Up, Input::Down, Input::Enter, Input::Escape] {
        assert_eq!(app.on_input(input), Action::Idle);
    }
    assert_eq!(app.mode(), AppMode::SyscallMonitoring);
    assert!(!app.filter_mode());
    assert_eq!(app.syscalls().names(), &lines(&["read", "write", "openat"]));
}

#[test]
fn named_inputs_on_the_selection_screen_do_nothing() {
    let mut app = App::new(snapshot());
    for input in [Input::Back, Input::Kill, Input::Filter, Input::Escape] {
        assert_eq!(app.on_input(input), Action::Idle);
    }
    assert_eq!(app.mode(), AppMode::ProcessSelection);
    assert_eq!(app.process_filter(), "");
}

#[test]
fn a_session_starts_only_from_the_selection_screen() {
    let mut app = App::new(snapshot());
    let mut alive = 0;
    let script: Vec<Event> = vec![
        Event::Input(Input::Enter),
        Event::Input(Input::Enter),
        Event::Tick,
        Event::Polled { lines: lines(&["read(1)"]), exited: false },
        Event::Input(Input::Filter),
        Event::Input(Input::Enter),
        Event::Input(Input::Enter),
        Event::Input(Input::Back),
        Event::Stopped { processes: snapshot(), kill_failed: false },
        Event::Input(Input::Enter),
        Event::Polled { lines: Vec::new(), exited: true },
        Event::Stopped { processes: snapshot(), kill_failed: false },
    ];
    for event in script {
        match app.step(event) {
            Action::Spawn { .. } => {
                assert_eq!(alive, 0);
                alive += 1;
            }
            Action::Teardown { .. } => alive = 0,
            _ => {}
        }
        assert!(alive <= 1);
        assert_eq!(alive == 1, app.mode() == AppMode::SyscallMonitoring && alive == 1);
        if app.mode() == AppMode::ProcessSelection {
            assert_eq!(alive, 0);
        }
    }
    assert_eq!(app.mode(), AppMode::ProcessSelection);
}

#[test]
fn update_filtered_processes_changes_nothing_when_up_to_date() {
    let mut app = App::new(snapshot());
    type_text(&mut app, "bash");
    app.handle_key(Key::Down);
    app.update_filtered_processes();
    assert_eq!(pids(app.filtered_processes()), vec![20, 21]);
    assert_eq!(app.selected_process(), 1);
}

#[test]
fn cursor_over_an_emptied_list_is_zero() {
    let mut app = App::new(snapshot());
    for _ in 0..3 {
        app.handle_key(Key::Down);
    }
    type_text(&mut app, "no such process");
    assert!(app.filtered_processes().is_empty());
    assert_eq!(app.selected_process(), 0);
    assert_eq!(app.handle_key(Key::Enter), Action::Idle);
}

#[test]
fn cursor_on_the_last_process_follows_a_shrinking_list() {
    let mut app = App::new(snapshot());
    for _ in 0..3 {
        app.handle_key(Key::Down);
    }
    assert_eq!(app.selected_process(), 3);
    app.on_refreshed(vec![proc(7, "a", "a"), proc(3, "b", "b"), proc(5, "c", "c")]);
    assert_eq!(app.selected_process(), 2);
    assert_eq!(app.handle_key(Key::Enter), Action::Spawn { pid: 7 });
}

#[test]
fn records_without_a_process_id_are_not_taken_in() {
    let mixed = || vec![proc(0, "idle", ""), proc(12, "a", "a"), proc(-4, "group", ""), proc(3, "b", "b")];
    let mut app = App::new(mixed());
    assert_eq!(pids(app.processes()), vec![3, 12]);
    assert_eq!(pids(app.filtered_processes()), vec![3, 12]);
    assert_eq!(app.handle_key(Key::Enter), Action::Spawn { pid: 3 });
    app.on_stopped(vec![proc(i32::MIN, "x", ""), proc(1, "init", ""), proc(0, "y", "")], false);
    assert_eq!(pids(app.processes()), vec![1]);
    app.on_refreshed(mixed());
    assert_eq!(pids(app.processes()), vec![3, 12]);
    app.on_refreshed(vec![proc(0, "idle", "")]);
    assert!(app.processes().is_empty());
    assert_eq!(app.handle_key(Key::Enter), Action::Idle);
}

#[test]
fn requests_name_process_ids_of_one_or_more() {
    let mut app = App::new(vec![proc(-1, "a", ""), proc(0, "b", ""), proc(1, "c", "")]);
    assert_eq!(app.handle_key(Key::Enter), Action::Spawn { pid: 1 });
    assert_eq!(app.handle_key(Key::Char('k')), Action::Teardown { kill: Some(1) });
}
