//! The monitor's state machine. It has two screens, process selection and
//! system-call monitoring, and a filter mode within monitoring. The machine
//! itself does no outside work: each step takes an event, moves the state, and
//! returns the action that the caller has to carry out. The caller reports
//! what came of the action as the next event.

use vstd::prelude::*;
use crate::process::{
    all_identified, filter_processes, filtered, is_process_id, is_sorted_by_pid, lemma_filtered,
    lemma_snapshot_of, records, snapshot, snapshot_of, with_process_ids, ProcessInfo,
    ProcessRecord,
};
use crate::search::{search, search_result};
use crate::syscalls::{ingested, lemma_ingested, SyscallSet};
use crate::text::texts;

verus! {

/// The two screens.
#[derive(Clone, Copy, Debug, PartialEq, Eq)]
pub enum AppMode {
    ProcessSelection,
    SyscallMonitoring,
}

/// A key as the terminal reports it.
#[derive(Clone, Copy, Debug, PartialEq, Eq)]
pub enum Key {
    Char(char),
    Backspace,
    Up,
    Down,
    Enter,
    Esc,
    Other,
}

/// An input event: what a key means on the screen on which it was pressed.
#[derive(Clone, Copy, Debug, PartialEq, Eq)]
pub enum Input {
    Typed(char),
    Backspace,
    Up,
    Down,
    Enter,
    Escape,
    Quit,
    Back,
    Kill,
    Filter,
}

/// What the machine asks its caller to do after a step.
#[derive(Clone, Copy, Debug, PartialEq, Eq)]
pub enum Action {
    /// Nothing.
    Idle,
    /// Leave the event loop.
    Exit,
    /// Start a trace session on the process `pid`. Where the tracer cannot be
    /// started, report `Event::SpawnFailed`.
    Spawn { pid: i32 },
    /// Look at the trace session and report `Event::Polled`: the lines that
    /// are pending if `drain` is set (none otherwise: they stay queued), and
    /// whether the tracer has exited.
    Poll { drain: bool },
    /// Send a termination signal to the process `kill`, if one is given; stop
    /// the trace session, if one is held; take a snapshot of the running
    /// processes; then report `Event::Stopped`.
    Teardown { kill: Option<i32> },
    /// Take a snapshot of the running processes and report `Event::Refreshed`.
    Refresh,
}

/// A failure that the operator is told of.
#[derive(Clone, Copy, Debug, PartialEq, Eq)]
pub enum Failure {
    /// The tracer could not be started.
    SpawnFailed,
    /// The termination signal was rejected.
    KillFailed,
}

/// An event as specifications see it.
pub enum EventView {
    Input(Input),
    Tick,
    Polled { lines: Seq<Seq<char>>, exited: bool },
    SpawnFailed,
    Stopped { processes: Seq<ProcessRecord>, kill_failed: bool },
    Refreshed { processes: Seq<ProcessRecord> },
}

/// The state of the monitor as specifications see it.
pub struct AppState {
    pub mode: AppMode,
    pub processes: Seq<ProcessRecord>,
    pub filtered_processes: Seq<ProcessRecord>,
    pub process_filter: Seq<char>,
    pub selected_process: int,
    pub target_pid: i32,
    pub target_process_name: Seq<char>,
    pub syscalls: Seq<Seq<char>>,
    pub filter_mode: bool,
    pub syscall_filter: Seq<char>,
    pub filtered_syscalls: Seq<Seq<char>>,
    pub failure: Option<Failure>,
}

/// What a step gives: the state after it and the action asked of the caller.
pub struct Outcome {
    pub state: AppState,
    pub action: Action,
}

/// `text` without its last character; an empty text stays empty.
pub open spec fn erased(text: Seq<char>) -> Seq<char> {
    if text.len() > 0 {
        text.drop_last()
    } else {
        text
    }
}

/// The input that `key` stands for on the given screen, if it stands for
/// one. On the selection screen `q` quits and every other character is typed
/// into the process filter. While monitoring, `q`, `b`, `k` and `f` are the
/// commands quit, back, kill and filter; in filter mode every character is
/// typed into the query.
pub open spec fn key_input(mode: AppMode, filter_mode: bool, key: Key) -> Option<Input> {
    match mode {
        AppMode::ProcessSelection => match key {
            Key::Char(c) => if c == 'q' {
                Some(Input::Quit)
            } else {
                Some(Input::Typed(c))
            },
            Key::Backspace => Some(Input::Backspace),
            Key::Down => Some(Input::Down),
            Key::Up => Some(Input::Up),
            Key::Enter => Some(Input::Enter),
            _ => None,
        },
        AppMode::SyscallMonitoring => if filter_mode {
            match key {
                Key::Char(c) => Some(Input::Typed(c)),
                Key::Backspace => Some(Input::Backspace),
                Key::Enter => Some(Input::Enter),
                Key::Esc => Some(Input::Escape),
                _ => None,
            }
        } else {
            match key {
                Key::Char(c) => if c == 'q' {
                    Some(Input::Quit)
                } else if c == 'b' {
                    Some(Input::Back)
                } else if c == 'k' {
                    Some(Input::Kill)
                } else if c == 'f' {
                    Some(Input::Filter)
                } else {
                    None
                },
                _ => None,
            }
        },
    }
}

impl AppState {
    /// What holds of every state that the machine reaches.
    ///
    /// Every process listed has a process id, which is 1 or more, and the
    /// list is sorted by it; the filtered list is the process list narrowed
    /// by the filter text; the cursor points into the filtered list, or is 0
    /// where that list is empty; while monitoring, the target has a process
    /// id; no system call is held twice; filter mode exists only while
    /// monitoring, and in it the results are those of a search for the query;
    /// outside it the query and the results are empty.
    pub open spec fn inv(self) -> bool {
        &&& all_identified(self.processes)
        &&& is_sorted_by_pid(self.processes)
        &&& (self.mode is SyscallMonitoring ==> is_process_id(self.target_pid))
        &&& self.filtered_processes == filtered(self.processes, self.process_filter)
        &&& 0 <= self.selected_process
        &&& (self.selected_process < self.filtered_processes.len() || self.selected_process == 0)
        &&& self.syscalls.no_duplicates()
        &&& (self.filter_mode ==> self.mode is SyscallMonitoring)
        &&& (self.filter_mode ==> self.filtered_syscalls == search_result(
            self.syscalls,
            self.syscall_filter,
        ))
        &&& (!self.filter_mode ==> self.syscall_filter.len() == 0 && self.filtered_syscalls.len()
            == 0)
    }

    /// Whether a trace session is held for this state: one is held exactly
    /// while monitoring.
    pub open spec fn tracing(self) -> bool {
        self.mode is SyscallMonitoring
    }

    /// The state with `text` as the process filter: the filtered list is
    /// computed anew, and the cursor is clamped into it: a cursor that would
    /// point past its end goes to its last process, and to 0 where the list
    /// is empty.
    pub open spec fn with_process_filter(self, text: Seq<char>) -> AppState {
        let kept = filtered(self.processes, text);
        AppState {
            process_filter: text,
            filtered_processes: kept,
            selected_process: if kept.len() == 0 {
                0
            } else if self.selected_process >= kept.len() {
                kept.len() - 1
            } else {
                self.selected_process
            },
            ..self
        }
    }

    /// The state with a new snapshot of the running processes: the records
    /// with a process id are taken in, sorted by it, and the filter is
    /// applied to them.
    pub open spec fn with_snapshot(self, snapshot: Seq<ProcessRecord>) -> AppState {
        AppState { processes: snapshot_of(snapshot), ..self }.with_process_filter(
            self.process_filter,
        )
    }

    /// The state with `text` as the query of filter mode and the results of
    /// the search for it.
    pub open spec fn with_query(self, text: Seq<char>) -> AppState {
        AppState {
            filter_mode: true,
            syscall_filter: text,
            filtered_syscalls: search_result(self.syscalls, text),
            ..self
        }
    }

    /// The state with filter mode left: query and results are cleared.
    pub open spec fn without_filter(self) -> AppState {
        AppState {
            filter_mode: false,
            syscall_filter: Seq::empty(),
            filtered_syscalls: Seq::empty(),
            ..self
        }
    }

    /// The state after the process under the cursor was chosen: monitoring
    /// begins on it with nothing seen yet, filter mode off and no failure to
    /// report.
    pub open spec fn with_target(self) -> AppState {
        let target = self.filtered_processes[self.selected_process];
        AppState {
            mode: AppMode::SyscallMonitoring,
            target_pid: target.pid,
            target_process_name: target.name,
            syscalls: Seq::empty(),
            failure: None,
            ..self.without_filter()
        }
    }

    /// The state after the session was stopped: the selection screen, with a
    /// new snapshot; a rejected termination signal is noted.
    pub open spec fn stopped(self, snapshot: Seq<ProcessRecord>, kill_failed: bool) -> AppState {
        AppState {
            mode: AppMode::ProcessSelection,
            failure: if kill_failed {
                Some(Failure::KillFailed)
            } else {
                self.failure
            },
            ..self.without_filter().with_snapshot(snapshot)
        }
    }

    /// The state and the action after an input on the selection screen.
    pub open spec fn select_input(self, input: Input) -> Outcome {
        match input {
            Input::Quit => Outcome { state: self, action: Action::Exit },
            Input::Typed(c) => Outcome {
                state: self.with_process_filter(self.process_filter.push(c)),
                action: Action::Idle,
            },
            Input::Backspace => Outcome {
                state: self.with_process_filter(erased(self.process_filter)),
                action: Action::Idle,
            },
            Input::Down => Outcome {
                state: if self.selected_process + 1 < self.filtered_processes.len() {
                    AppState { selected_process: self.selected_process + 1, ..self }
                } else {
                    self
                },
                action: Action::Idle,
            },
            Input::Up => Outcome {
                state: if self.selected_process > 0 {
                    AppState { selected_process: self.selected_process - 1, ..self }
                } else {
                    self
                },
                action: Action::Idle,
            },
            Input::Enter => if self.filtered_processes.len() > 0 {
                Outcome {
                    state: self.with_target(),
                    action: Action::Spawn {
                        pid: self.filtered_processes[self.selected_process].pid,
                    },
                }
            } else {
                Outcome { state: self, action: Action::Idle }
            },
            _ => Outcome { state: self, action: Action::Idle },
        }
    }

    /// The state and the action after an input while monitoring. Quit, back
    /// and kill ask for the session to be torn down, in filter mode too; the
    /// state moves only when the caller reports the session stopped.
    pub open spec fn monitor_input(self, input: Input) -> Outcome {
        match input {
            Input::Quit | Input::Back => Outcome {
                state: self,
                action: Action::Teardown { kill: None },
            },
            Input::Kill => Outcome {
                state: self,
                action: Action::Teardown { kill: Some(self.target_pid) },
            },
            Input::Typed(c) => Outcome {
                state: if self.filter_mode {
                    self.with_query(self.syscall_filter.push(c))
                } else {
                    self
                },
                action: Action::Idle,
            },
            Input::Backspace => Outcome {
                state: if self.filter_mode {
                    self.with_query(erased(self.syscall_filter))
                } else {
                    self
                },
                action: Action::Idle,
            },
            Input::Enter | Input::Escape => Outcome {
                state: if self.filter_mode {
                    self.without_filter()
                } else {
                    self
                },
                action: Action::Idle,
            },
            Input::Filter => Outcome {
                state: if self.filter_mode {
                    self
                } else {
                    self.with_query(self.syscall_filter)
                },
                action: Action::Idle,
            },
            _ => Outcome { state: self, action: Action::Idle },
        }
    }

    /// The state and the action after an input.
    pub open spec fn after_input(self, input: Input) -> Outcome {
        match self.mode {
            AppMode::ProcessSelection => self.select_input(input),
            AppMode::SyscallMonitoring => self.monitor_input(input),
        }
    }

    /// The state and the action after a key: those after the input that the
    /// key stands for, and nothing where it stands for none.
    pub open spec fn after_key(self, key: Key) -> Outcome {
        match key_input(self.mode, self.filter_mode, key) {
            Some(input) => self.after_input(input),
            None => Outcome { state: self, action: Action::Idle },
        }
    }

    /// What a tick asks for: a new snapshot on the selection screen; while
    /// monitoring, a look at the session, which drains the pending lines
    /// unless filter mode is on.
    pub open spec fn tick_action(self) -> Action {
        match self.mode {
            AppMode::ProcessSelection => Action::Refresh,
            AppMode::SyscallMonitoring => Action::Poll { drain: !self.filter_mode },
        }
    }

    /// The state and the action after the session was looked at. Outside
    /// filter mode the lines are ingested; in filter mode nothing is. Where
    /// the tracer has exited, the session is to be torn down.
    pub open spec fn after_polled(self, lines: Seq<Seq<char>>, exited: bool) -> Outcome {
        match self.mode {
            AppMode::ProcessSelection => Outcome { state: self, action: Action::Idle },
            AppMode::SyscallMonitoring => Outcome {
                state: if self.filter_mode {
                    self
                } else {
                    AppState { syscalls: ingested(self.syscalls, lines), ..self }
                },
                action: if exited {
                    Action::Teardown { kill: None }
                } else {
                    Action::Idle
                },
            },
        }
    }

    /// The state and the action after the tracer could not be started: the
    /// failure is noted and the session is to be torn down.
    pub open spec fn after_spawn_failed(self) -> Outcome {
        match self.mode {
            AppMode::ProcessSelection => Outcome { state: self, action: Action::Idle },
            AppMode::SyscallMonitoring => Outcome {
                state: AppState { failure: Some(Failure::SpawnFailed), ..self },
                action: Action::Teardown { kill: None },
            },
        }
    }

    /// The state after a snapshot that was asked for by `Action::Refresh`. It
    /// is taken in on the selection screen and ignored while monitoring.
    pub open spec fn after_refreshed(self, snapshot: Seq<ProcessRecord>) -> AppState {
        match self.mode {
            AppMode::ProcessSelection => self.with_snapshot(snapshot),
            AppMode::SyscallMonitoring => self,
        }
    }

    /// The state and the action after an event.
    pub open spec fn next(self, event: EventView) -> Outcome {
        match event {
            EventView::Input(input) => self.after_input(input),
            EventView::Tick => Outcome { state: self, action: self.tick_action() },
            EventView::Polled { lines, exited } => self.after_polled(lines, exited),
            EventView::SpawnFailed => self.after_spawn_failed(),
            EventView::Stopped { processes, kill_failed } => Outcome {
                state: self.stopped(processes, kill_failed),
                action: Action::Idle,
            },
            EventView::Refreshed { processes } => Outcome {
                state: self.after_refreshed(processes),
                action: Action::Idle,
            },
        }
    }
}

/// Every step keeps the invariant.
pub proof fn lemma_next_keeps_invariant(s: AppState, event: EventView)
    requires
        s.inv(),
    ensures
        s.next(event).state.inv(),
{
    match event {
        EventView::Polled { lines, exited } => {
            lemma_ingested(s.syscalls, lines);
        },
        EventView::Stopped { processes, kill_failed } => {
            lemma_snapshot_of(processes);
        },
        EventView::Refreshed { processes } => {
            lemma_snapshot_of(processes);
        },
        EventView::Input(input) => {
            lemma_filtered(s.processes, s.process_filter);
        },
        _ => {},
    }
}

/// The machine names only processes: the id in a request to start a session
/// is the id of the process under the cursor, a listed process, and it and
/// the id in a request to signal a process are 1 or more.
pub proof fn lemma_actions_name_processes(s: AppState, event: EventView)
    requires
        s.inv(),
    ensures
        s.next(event).action matches Action::Spawn { pid } ==> is_process_id(pid)
            && s.filtered_processes.len() > 0 && pid
            == s.filtered_processes[s.selected_process].pid && s.processes.contains(
            s.filtered_processes[s.selected_process],
        ),
        s.next(event).action matches Action::Teardown { kill: Some(pid) } ==> is_process_id(pid)
            && pid == s.target_pid,
{
    lemma_filtered(s.processes, s.process_filter);
    if s.next(event).action is Spawn {
        assert(s.filtered_processes.contains(s.filtered_processes[s.selected_process]));
    }
}

/// Sessions begin and end in one way each. The machine asks for a session to
/// be started only where none is held, and holds one from then on; it comes
/// to hold one in no other way; and it gives a session up only when the
/// caller reports it stopped.
pub proof fn lemma_session_lifetime(s: AppState, event: EventView)
    requires
        s.inv(),
    ensures
        s.next(event).action is Spawn ==> !s.tracing() && s.next(event).state.tracing(),
        !s.tracing() && s.next(event).state.tracing() ==> s.next(event).action is Spawn,
        s.tracing() && !s.next(event).state.tracing() ==> event is Stopped,
{
}

/// The system calls seen only grow while a session lasts: a step that starts
/// a session empties them, and every other step keeps what was seen, in
/// place. In filter mode nothing is added.
pub proof fn lemma_syscalls_grow(s: AppState, event: EventView)
    requires
        s.inv(),
    ensures
        s.next(event).action is Spawn ==> s.next(event).state.syscalls.len() == 0,
        !(s.next(event).action is Spawn) ==> s.syscalls.is_prefix_of(s.next(event).state.syscalls),
        s.filter_mode ==> s.next(event).state.syscalls == s.syscalls,
{
    match event {
        EventView::Polled { lines, exited } => {
            lemma_ingested(s.syscalls, lines);
        },
        _ => {},
    }
}

/// Whether `alive`, the number of trace sessions that the caller has running,
/// fits the state: at most one runs, and one runs only while the machine
/// holds a session.
pub open spec fn accounts_for(s: AppState, alive: int) -> bool {
    0 <= alive <= 1 && (alive == 1 ==> s.tracing())
}

/// Whether `after` may be the number of running sessions once the caller has
/// carried out `action` with `alive` sessions running before: starting one
/// adds one or, where it fails, none; tearing down leaves none; nothing else
/// changes the number.
pub open spec fn may_run_after(alive: int, action: Action, after: int) -> bool {
    match action {
        Action::Spawn { .. } => after == alive || after == alive + 1,
        Action::Teardown { .. } => after == 0,
        _ => after == alive,
    }
}

/// At most one trace session runs at any time. If the number of running
/// sessions fits the state before a step, and the caller reports a session
/// stopped only when none runs, then the number fits the state after the step
/// and after the action that the step asked for.
pub proof fn lemma_at_most_one_session(s: AppState, event: EventView, alive: int, after: int)
    requires
        s.inv(),
        accounts_for(s, alive),
        event is Stopped ==> alive == 0,
        may_run_after(alive, s.next(event).action, after),
    ensures
        accounts_for(s.next(event).state, after),
        s.next(event).action is Spawn ==> alive == 0,
{
}

/// Back, quit, kill, the tracer's exit and a failed start all ask for the
/// session to be torn down; kill alone names a process to signal, the target.
pub proof fn lemma_teardown_is_asked(s: AppState, event: EventView)
    requires
        s.inv(),
        s.tracing(),
    ensures
        event == EventView::Input(Input::Back) || event == EventView::Input(Input::Quit)
            ==> s.next(event).action == (Action::Teardown { kill: None }),
        event == EventView::Input(Input::Kill) ==> s.next(event).action == (Action::Teardown {
            kill: Some(s.target_pid),
        }),
        event matches EventView::Polled { exited, .. } && exited ==> s.next(event).action == (
        Action::Teardown { kill: None }),
        event is SpawnFailed ==> s.next(event).action == (Action::Teardown { kill: None }),
{
}

/// Once the session is reported stopped, no session is held, the selection
/// screen shows, and the process list is the snapshot that came with the
/// report: its records with a process id, sorted by it, narrowed by the
/// filter, the cursor within bounds. What was seen of the session stays.
pub proof fn lemma_stopped(s: AppState, snapshot: Seq<ProcessRecord>, kill_failed: bool)
    requires
        s.inv(),
    ensures
        ({
            let after = s.next(EventView::Stopped { processes: snapshot, kill_failed }).state;
            &&& !after.tracing()
            &&& !after.filter_mode
            &&& after.processes == snapshot_of(snapshot)
            &&& after.processes.to_multiset() == with_process_ids(snapshot).to_multiset()
            &&& all_identified(after.processes)
            &&& is_sorted_by_pid(after.processes)
            &&& after.filtered_processes == filtered(snapshot_of(snapshot), s.process_filter)
            &&& (after.selected_process < after.filtered_processes.len()
                || after.selected_process == 0)
            &&& after.syscalls == s.syscalls
            &&& (kill_failed ==> after.failure == Some(Failure::KillFailed))
            &&& (!kill_failed ==> after.failure == s.failure)
        }),
{
    lemma_snapshot_of(snapshot);
}

/// An event.
pub enum Event {
    /// The operator did something.
    Input(Input),
    /// The tick period has passed.
    Tick,
    /// The answer to `Action::Poll`: the lines drained from the session, in
    /// order, and whether the tracer has exited.
    Polled { lines: Vec<String>, exited: bool },
    /// The answer to `Action::Spawn` where the tracer could not be started.
    SpawnFailed,
    /// The answer to `Action::Teardown`: no session runs any more;
    /// `processes` is a snapshot taken after it was stopped, and
    /// `kill_failed` tells whether a termination signal was rejected.
    Stopped { processes: Vec<ProcessInfo>, kill_failed: bool },
    /// The answer to `Action::Refresh`: a snapshot of the running processes.
    Refreshed { processes: Vec<ProcessInfo> },
}

impl View for Event {
    type V = EventView;

    open spec fn view(&self) -> EventView {
        match *self {
            Event::Input(input) => EventView::Input(input),
            Event::Tick => EventView::Tick,
            Event::Polled { lines, exited } => EventView::Polled { lines: texts(lines@), exited },
            Event::SpawnFailed => EventView::SpawnFailed,
            Event::Stopped { processes, kill_failed } => EventView::Stopped {
                processes: records(processes@),
                kill_failed,
            },
            Event::Refreshed { processes } => EventView::Refreshed {
                processes: records(processes@),
            },
        }
    }
}

/// Tells which input `key` stands for on the given screen, if any.
pub fn input_of_key(mode: AppMode, filter_mode: bool, key: Key) -> (input: Option<Input>)
    ensures
        input == key_input(mode, filter_mode, key),
{
    match mode {
        AppMode::ProcessSelection => match key {
            Key::Char(c) => if c == 'q' {
                Some(Input::Quit)
            } else {
                Some(Input::Typed(c))
            },
            Key::Backspace => Some(Input::Backspace),
            Key::Down => Some(Input::Down),
            Key::Up => Some(Input::Up),
            Key::Enter => Some(Input::Enter),
            _ => None,
        },
        AppMode::SyscallMonitoring => if filter_mode {
            match key {
                Key::Char(c) => Some(Input::Typed(c)),
                Key::Backspace => Some(Input::Backspace),
                Key::Enter => Some(Input::Enter),
                Key::Esc => Some(Input::Escape),
                _ => None,
            }
        } else {
            match key {
                Key::Char(c) => if c == 'q' {
                    Some(Input::Quit)
                } else if c == 'b' {
                    Some(Input::Back)
                } else if c == 'k' {
                    Some(Input::Kill)
                } else if c == 'f' {
                    Some(Input::Filter)
                } else {
                    None
                },
                _ => None,
            }
        },
    }
}

/// The monitor: the state that the event loop keeps and the screens show.
pub struct App {
    mode: AppMode,
    processes: Vec<ProcessInfo>,
    filtered_processes: Vec<ProcessInfo>,
    process_filter: String,
    selected_process: usize,
    target_pid: i32,
    target_process_name: String,
    syscalls: SyscallSet,
    filter_mode: bool,
    syscall_filter: String,
    filtered_syscalls: Vec<String>,
    failure: Option<Failure>,
}

impl View for App {
    type V = AppState;

    closed spec fn view(&self) -> AppState {
        AppState {
            mode: self.mode,
            processes: records(self.processes@),
            filtered_processes: records(self.filtered_processes@),
            process_filter: self.process_filter@,
            selected_process: self.selected_process as int,
            target_pid: self.target_pid,
            target_process_name: self.target_process_name@,
            syscalls: self.syscalls@,
            filter_mode: self.filter_mode,
            syscall_filter: self.syscall_filter@,
            filtered_syscalls: texts(self.filtered_syscalls@),
            failure: self.failure,
        }
    }
}

impl App {
    /// Whether the state is one that the machine reaches.
    pub open spec fn wf(&self) -> bool {
        self@.inv()
    }

    /// The state at the start: the selection screen over the snapshot
    /// `processes`, of which the records with a process id are taken in, with
    /// no filter, the cursor on the first process, and nothing traced.
    pub fn new(processes: Vec<ProcessInfo>) -> (app: App)
        ensures
            app.wf(),
            app@ == (AppState {
                mode: AppMode::ProcessSelection,
                processes: snapshot_of(records(processes@)),
                filtered_processes: filtered(snapshot_of(records(processes@)), Seq::empty()),
                process_filter: Seq::empty(),
                selected_process: 0,
                target_pid: 0,
                target_process_name: Seq::empty(),
                syscalls: Seq::empty(),
                filter_mode: false,
                syscall_filter: Seq::empty(),
                filtered_syscalls: Seq::empty(),
                failure: None,
            }),
    {
        let sorted = snapshot(processes);
        let process_filter = String::new();
        let kept = filter_processes(&sorted, process_filter.as_str());
        let filtered_syscalls: Vec<String> = Vec::new();
        proof {
            lemma_snapshot_of(records(processes@));
            assert(texts(filtered_syscalls@) =~= Seq::<Seq<char>>::empty());
        }
        App {
            mode: AppMode::ProcessSelection,
            processes: sorted,
            filtered_processes: kept,
            process_filter,
            selected_process: 0,
            target_pid: 0,
            target_process_name: String::new(),
            syscalls: SyscallSet::new(),
            filter_mode: false,
            syscall_filter: String::new(),
            filtered_syscalls,
            failure: None,
        }
    }

    /// The screen that shows.
    pub fn mode(&self) -> (mode: AppMode)
        ensures
            mode == self@.mode,
    {
        self.mode
    }

    /// The running processes as of the last snapshot, by process id.
    pub fn processes(&self) -> (all: &Vec<ProcessInfo>)
        ensures
            records(all@) == self@.processes,
    {
        &self.processes
    }

    /// The processes that pass the filter.
    pub fn filtered_processes(&self) -> (kept: &Vec<ProcessInfo>)
        ensures
            records(kept@) == self@.filtered_processes,
    {
        &self.filtered_processes
    }

    /// The filter text of the selection screen.
    pub fn process_filter(&self) -> (text: &String)
        ensures
            text@ == self@.process_filter,
    {
        &self.process_filter
    }

    /// The cursor: an index into the filtered processes.
    pub fn selected_process(&self) -> (index: usize)
        ensures
            index == self@.selected_process,
    {
        self.selected_process
    }

    /// The id of the process that is, or was last, monitored.
    pub fn target_pid(&self) -> (pid: i32)
        ensures
            pid == self@.target_pid,
    {
        self.target_pid
    }

    /// The name of the process that is, or was last, monitored.
    pub fn target_process_name(&self) -> (name: &String)
        ensures
            name@ == self@.target_process_name,
    {
        &self.target_process_name
    }

    /// The system calls seen in the session, in the order of first appearance.
    pub fn syscalls(&self) -> (set: &SyscallSet)
        ensures
            set@ == self@.syscalls,
    {
        &self.syscalls
    }

    /// Whether filter mode is on.
    pub fn filter_mode(&self) -> (on: bool)
        ensures
            on == self@.filter_mode,
    {
        self.filter_mode
    }

    /// The query of filter mode.
    pub fn syscall_filter(&self) -> (text: &String)
        ensures
            text@ == self@.syscall_filter,
    {
        &self.syscall_filter
    }

    /// The results of the search for the query, best first.
    pub fn filtered_syscalls(&self) -> (names: &Vec<String>)
        ensures
            texts(names@) == self@.filtered_syscalls,
    {
        &self.filtered_syscalls
    }

    /// The failure to tell the operator of, if there is one.
    pub fn failure(&self) -> (failure: Option<Failure>)
        ensures
            failure == self@.failure,
    {
        self.failure
    }

    /// The system calls to show: in filter mode the results of the search,
    /// otherwise all that were seen, in the order of first appearance.
    pub fn visible_syscalls(&self) -> (names: &Vec<String>)
        ensures
            texts(names@) == if self@.filter_mode {
                self@.filtered_syscalls
            } else {
                self@.syscalls
            },
    {
        if self.filter_mode {
            &self.filtered_syscalls
        } else {
            self.syscalls.names()
        }
    }

    /// Applies the process filter anew: computes the filtered list and
    /// clamps the cursor into it, so that a cursor that would point past its
    /// end comes to stand on its last process (on 0 where the list is empty).
    pub fn update_filtered_processes(&mut self)
        ensures
            final(self)@ == old(self)@.with_process_filter(old(self)@.process_filter),
            old(self).wf() ==> final(self).wf(),
    {
        self.filtered_processes = filter_processes(&self.processes, self.process_filter.as_str());
        let shown = self.filtered_processes.len();
        if shown == 0 {
            self.selected_process = 0;
        } else if self.selected_process >= shown {
            self.selected_process = shown - 1;
        }
    }

    /// Searches the system calls for the query anew.
    fn update_filtered_syscalls(&mut self)
        ensures
            final(self)@ == (AppState {
                filtered_syscalls: search_result(old(self)@.syscalls, old(self)@.syscall_filter),
                ..old(self)@
            }),
    {
        self.filtered_syscalls = search(&self.syscalls, self.syscall_filter.as_str());
    }

    /// Leaves filter mode: clears the query and the results.
    fn leave_filter(&mut self)
        ensures
            final(self)@ == old(self)@.without_filter(),
    {
        self.filter_mode = false;
        self.syscall_filter = String::new();
        self.filtered_syscalls = Vec::new();
        assert(texts(self.filtered_syscalls@) =~= Seq::<Seq<char>>::empty());
    }

    /// Takes in a snapshot: keeps the records with a process id, sorts them
    /// by it and applies the filter.
    fn take_snapshot(&mut self, processes: Vec<ProcessInfo>)
        ensures
            final(self)@ == old(self)@.with_snapshot(records(processes@)),
    {
        self.processes = snapshot(processes);
        self.update_filtered_processes();
    }

    /// Handles an input on the selection screen.
    fn on_select_input(&mut self, input: Input) -> (action: Action)
        requires
            old(self).wf(),
        ensures
            final(self)@ == old(self)@.select_input(input).state,
            action == old(self)@.select_input(input).action,
    {
        match input {
            Input::Quit => Action::Exit,
            Input::Typed(c) => {
                self.process_filter.push(c);
                self.update_filtered_processes();
                Action::Idle
            },
            Input::Backspace => {
                self.process_filter.pop();
                self.update_filtered_processes();
                Action::Idle
            },
            Input::Down => {
                if self.selected_process < self.filtered_processes.len()
                    && self.selected_process + 1 < self.filtered_processes.len() {
                    self.selected_process += 1;
                }
                Action::Idle
            },
            Input::Up => {
                if self.selected_process > 0 {
                    self.selected_process -= 1;
                }
                Action::Idle
            },
            Input::Enter => {
                if self.filtered_processes.len() > 0 {
                    let pid = self.filtered_processes[self.selected_process].pid;
                    let name = self.filtered_processes[self.selected_process].name.clone();
                    self.leave_filter();
                    self.mode = AppMode::SyscallMonitoring;
                    self.target_pid = pid;
                    self.target_process_name = name;
                    self.syscalls.clear();
                    self.failure = None;
                    Action::Spawn { pid }
                } else {
                    Action::Idle
                }
            },
            _ => Action::Idle,
        }
    }

    /// Handles an input while monitoring.
    fn on_monitor_input(&mut self, input: Input) -> (action: Action)
        requires
            old(self).wf(),
        ensures
            final(self)@ == old(self)@.monitor_input(input).state,
            action == old(self)@.monitor_input(input).action,
    {
        match input {
            Input::Quit | Input::Back => Action::Teardown { kill: None },
            Input::Kill => Action::Teardown { kill: Some(self.target_pid) },
            Input::Typed(c) => {
                if self.filter_mode {
                    self.syscall_filter.push(c);
                    self.update_filtered_syscalls();
                }
                Action::Idle
            },
            Input::Backspace => {
                if self.filter_mode {
                    self.syscall_filter.pop();
                    self.update_filtered_syscalls();
                }
                Action::Idle
            },
            Input::Enter | Input::Escape => {
                if self.filter_mode {
                    self.leave_filter();
                }
                Action::Idle
            },
            Input::Filter => {
                if !self.filter_mode {
                    self.filter_mode = true;
                    self.update_filtered_syscalls();
                }
                Action::Idle
            },
            _ => Action::Idle,
        }
    }

    /// Handles an input event.
    pub fn on_input(&mut self, input: Input) -> (action: Action)
        requires
            old(self).wf(),
        ensures
            final(self).wf(),
            final(self)@ == old(self)@.after_input(input).state,
            action == old(self)@.after_input(input).action,
    {
        proof {
            lemma_next_keeps_invariant(self@, EventView::Input(input));
        }
        match self.mode {
            AppMode::ProcessSelection => self.on_select_input(input),
            AppMode::SyscallMonitoring => self.on_monitor_input(input),
        }
    }

    /// Handles a key: the input that it stands for on the current screen, or
    /// nothing where it stands for none.
    pub fn handle_key(&mut self, key: Key) -> (action: Action)
        requires
            old(self).wf(),
        ensures
            final(self).wf(),
            final(self)@ == old(self)@.after_key(key).state,
            action == old(self)@.after_key(key).action,
    {
        match input_of_key(self.mode, self.filter_mode, key) {
            Some(input) => self.on_input(input),
            None => Action::Idle,
        }
    }

    /// Tells what a tick asks for. The state stays as it is.
    pub fn on_tick(&self) -> (action: Action)
        ensures
            action == self@.tick_action(),
    {
        match self.mode {
            AppMode::ProcessSelection => Action::Refresh,
            AppMode::SyscallMonitoring => Action::Poll { drain: !self.filter_mode },
        }
    }

    /// Takes in what a look at the session gave: the drained lines and
    /// whether the tracer has exited.
    pub fn on_polled(&mut self, lines: &Vec<String>, exited: bool) -> (action: Action)
        requires
            old(self).wf(),
        ensures
            final(self).wf(),
            final(self)@ == old(self)@.after_polled(texts(lines@), exited).state,
            action == old(self)@.after_polled(texts(lines@), exited).action,
    {
        proof {
            lemma_next_keeps_invariant(self@, EventView::Polled { lines: texts(lines@), exited });
        }
        match self.mode {
            AppMode::ProcessSelection => Action::Idle,
            AppMode::SyscallMonitoring => {
                if !self.filter_mode {
                    self.syscalls.ingest(lines);
                }
                if exited {
                    Action::Teardown { kill: None }
                } else {
                    Action::Idle
                }
            },
        }
    }

    /// Takes in that the tracer could not be started.
    pub fn on_spawn_failed(&mut self) -> (action: Action)
        requires
            old(self).wf(),
        ensures
            final(self).wf(),
            final(self)@ == old(self)@.after_spawn_failed().state,
            action == old(self)@.after_spawn_failed().action,
    {
        match self.mode {
            AppMode::ProcessSelection => Action::Idle,
            AppMode::SyscallMonitoring => {
                self.failure = Some(Failure::SpawnFailed);
                Action::Teardown { kill: None }
            },
        }
    }

    /// Takes in that no session runs any more, with the snapshot taken after
    /// it was stopped: the selection screen shows again.
    pub fn on_stopped(&mut self, processes: Vec<ProcessInfo>, kill_failed: bool)
        requires
            old(self).wf(),
        ensures
            final(self).wf(),
            final(self)@ == old(self)@.stopped(records(processes@), kill_failed),
    {
        proof {
            lemma_next_keeps_invariant(
                self@,
                EventView::Stopped { processes: records(processes@), kill_failed },
            );
        }
        self.leave_filter();
        self.take_snapshot(processes);
        self.mode = AppMode::ProcessSelection;
        if kill_failed {
            self.failure = Some(Failure::KillFailed);
        }
    }

    /// Takes in a snapshot that a tick on the selection screen asked for.
    pub fn on_refreshed(&mut self, processes: Vec<ProcessInfo>)
        requires
            old(self).wf(),
        ensures
            final(self).wf(),
            final(self)@ == old(self)@.after_refreshed(records(processes@)),
    {
        proof {
            lemma_next_keeps_invariant(
                self@,
                EventView::Refreshed { processes: records(processes@) },
            );
        }
        match self.mode {
            AppMode::ProcessSelection => self.take_snapshot(processes),
            AppMode::SyscallMonitoring => {},
        }
    }

    /// One step of the machine: takes in `event`, moves the state and returns
    /// the action that the caller has to carry out.
    pub fn step(&mut self, event: Event) -> (action: Action)
        requires
            old(self).wf(),
        ensures
            final(self).wf(),
            final(self)@ == old(self)@.next(event@).state,
            action == old(self)@.next(event@).action,
    {
        match event {
            Event::Input(input) => self.on_input(input),
            Event::Tick => self.on_tick(),
            Event::Polled { lines, exited } => self.on_polled(&lines, exited),
            Event::SpawnFailed => self.on_spawn_failed(),
            Event::Stopped { processes, kill_failed } => {
                self.on_stopped(processes, kill_failed);
                Action::Idle
            },
            Event::Refreshed { processes } => {
                self.on_refreshed(processes);
                Action::Idle
            },
        }
    }
}

} // verus!
