//! The state of the application: what the user has chosen, and the engine
//! that it drives.

use vstd::prelude::*;
use crate::error::CoreWarError;
use crate::vm::engine::{EngineView, GameEngine};
use crate::vm::process::Process;

verus! {

/// The views of the interface.
#[derive(Debug, Clone, Copy, PartialEq, Eq, Structural)]
pub enum ViewMode {
    /// The grid and the dashboard.
    Normal,
    /// The detail of one process.
    ProcessDetail,
    /// A dump of the arena.
    MemoryDump,
    /// The help screen.
    Help,
}

/// The largest speed from which the speed can still be doubled.
pub const SPEED_LIMIT: u32 = 1000;

/// The state of the application.
pub struct App<'a> {
    /// Whether the application is to quit.
    pub should_quit: bool,
    /// Whether the display is paused.
    pub paused: bool,
    /// The speed of the display.
    pub speed: u32,
    /// Whether debug information is shown.
    pub debug_mode: bool,
    /// The address that is selected, if one is.
    pub selected_address: Option<usize>,
    /// The view that is shown.
    pub view_mode: ViewMode,
    /// The id of the process that is selected, if one is.
    pub selected_process_id: Option<u32>,
    /// The engine.
    pub engine: &'a mut GameEngine,
}

impl<'a> App<'a> {
    /// An application that drives `engine`: not paused, at speed one, in the
    /// normal view, with nothing selected.
    pub fn new(engine: &'a mut GameEngine) -> (app: Self)
        ensures
            !app.should_quit,
            !app.paused,
            app.speed == 1,
            !app.debug_mode,
            app.selected_address is None,
            app.view_mode == ViewMode::Normal,
            app.selected_process_id is None,
            app.engine@ == old(engine)@,
            final(app.engine)@ == final(engine)@,
    {
        App {
            should_quit: false,
            paused: false,
            speed: 1,
            debug_mode: false,
            selected_address: None,
            view_mode: ViewMode::Normal,
            selected_process_id: None,
            engine,
        }
    }

    /// Whether two states of the application agree in what the user has
    /// chosen.
    pub open spec fn same_choices(self, other: Self) -> bool {
        &&& self.should_quit == other.should_quit
        &&& self.paused == other.paused
        &&& self.speed == other.speed
        &&& self.debug_mode == other.debug_mode
        &&& self.selected_address == other.selected_address
        &&& self.view_mode == other.view_mode
        &&& self.selected_process_id == other.selected_process_id
    }

    /// Lets the engine run one cycle, unless the display is paused.
    pub fn update(&mut self) -> (r: Result<(), CoreWarError>)
        requires
            old(self).engine@.wf(),
        ensures
            final(self).same_choices(*old(self)),
            final(self).engine@.wf(),
            final(self).engine@ == if old(self).paused {
                old(self).engine@
            } else {
                old(self).engine@.stepped()
            },
            r is Err <==> !old(self).paused && old(self).engine@.active() && !old(
                self,
            ).engine@.has_room(),
            r matches Err(e) ==> (e matches CoreWarError::Process { message } && message@
                == crate::vm::scheduler::no_room_text()),
    {
        if !self.paused {
            match self.engine.tick() {
                Ok(_) => {},
                Err(e) => {
                    return Err(e);
                },
            }
        }
        Ok(())
    }

    /// Pauses the display if it runs, lets it run if it is paused.
    pub fn toggle_pause(&mut self)
        ensures
            final(self).paused == !old(self).paused,
            final(self).should_quit == old(self).should_quit,
            final(self).speed == old(self).speed,
            final(self).debug_mode == old(self).debug_mode,
            final(self).selected_address == old(self).selected_address,
            final(self).view_mode == old(self).view_mode,
            final(self).selected_process_id == old(self).selected_process_id,
            final(self).engine@ == old(self).engine@,
    {
        self.paused = !self.paused;
    }

    /// Doubles the speed, unless it has reached the limit.
    pub fn increase_speed(&mut self)
        ensures
            final(self).speed == if old(self).speed < SPEED_LIMIT {
                2 * old(self).speed
            } else {
                old(self).speed as int
            },
            final(self).should_quit == old(self).should_quit,
            final(self).paused == old(self).paused,
            final(self).debug_mode == old(self).debug_mode,
            final(self).selected_address == old(self).selected_address,
            final(self).view_mode == old(self).view_mode,
            final(self).selected_process_id == old(self).selected_process_id,
            final(self).engine@ == old(self).engine@,
    {
        if self.speed < SPEED_LIMIT {
            self.speed *= 2;
        }
    }

    /// Halves the speed, unless it is one or less.
    pub fn decrease_speed(&mut self)
        ensures
            final(self).speed == if old(self).speed > 1 {
                old(self).speed / 2
            } else {
                old(self).speed
            },
            final(self).should_quit == old(self).should_quit,
            final(self).paused == old(self).paused,
            final(self).debug_mode == old(self).debug_mode,
            final(self).selected_address == old(self).selected_address,
            final(self).view_mode == old(self).view_mode,
            final(self).selected_process_id == old(self).selected_process_id,
            final(self).engine@ == old(self).engine@,
    {
        if self.speed > 1 {
            self.speed /= 2;
        }
    }

    /// Shows the debug information if it is hidden, hides it if it is shown.
    pub fn toggle_debug(&mut self)
        ensures
            final(self).debug_mode == !old(self).debug_mode,
            final(self).should_quit == old(self).should_quit,
            final(self).paused == old(self).paused,
            final(self).speed == old(self).speed,
            final(self).selected_address == old(self).selected_address,
            final(self).view_mode == old(self).view_mode,
            final(self).selected_process_id == old(self).selected_process_id,
            final(self).engine@ == old(self).engine@,
    {
        self.debug_mode = !self.debug_mode;
    }

    /// Selects an address.
    pub fn select_address(&mut self, address: usize)
        ensures
            final(self).selected_address == Some(address),
            final(self).should_quit == old(self).should_quit,
            final(self).paused == old(self).paused,
            final(self).speed == old(self).speed,
            final(self).debug_mode == old(self).debug_mode,
            final(self).view_mode == old(self).view_mode,
            final(self).selected_process_id == old(self).selected_process_id,
            final(self).engine@ == old(self).engine@,
    {
        self.selected_address = Some(address);
    }

    /// Selects no address.
    pub fn clear_selection(&mut self)
        ensures
            final(self).selected_address is None,
            final(self).should_quit == old(self).should_quit,
            final(self).paused == old(self).paused,
            final(self).speed == old(self).speed,
            final(self).debug_mode == old(self).debug_mode,
            final(self).view_mode == old(self).view_mode,
            final(self).selected_process_id == old(self).selected_process_id,
            final(self).engine@ == old(self).engine@,
    {
        self.selected_address = None;
    }

    /// Shows the given view.
    pub fn set_view_mode(&mut self, mode: ViewMode)
        ensures
            final(self).view_mode == mode,
            final(self).should_quit == old(self).should_quit,
            final(self).paused == old(self).paused,
            final(self).speed == old(self).speed,
            final(self).debug_mode == old(self).debug_mode,
            final(self).selected_address == old(self).selected_address,
            final(self).selected_process_id == old(self).selected_process_id,
            final(self).engine@ == old(self).engine@,
    {
        self.view_mode = mode;
    }

    /// Asks the application to quit.
    pub fn quit(&mut self)
        ensures
            final(self).should_quit,
            final(self).paused == old(self).paused,
            final(self).speed == old(self).speed,
            final(self).debug_mode == old(self).debug_mode,
            final(self).selected_address == old(self).selected_address,
            final(self).view_mode == old(self).view_mode,
            final(self).selected_process_id == old(self).selected_process_id,
            final(self).engine@ == old(self).engine@,
    {
        self.should_quit = true;
    }

    /// Lets the engine run one cycle if the display is paused.
    pub fn step(&mut self) -> (r: Result<(), CoreWarError>)
        requires
            old(self).engine@.wf(),
        ensures
            final(self).same_choices(*old(self)),
            final(self).engine@.wf(),
            final(self).engine@ == if old(self).paused {
                old(self).engine@.stepped()
            } else {
                old(self).engine@
            },
            r is Err <==> old(self).paused && old(self).engine@.active() && !old(
                self,
            ).engine@.has_room(),
            r matches Err(e) ==> (e matches CoreWarError::Process { message } && message@
                == crate::vm::scheduler::no_room_text()),
    {
        if self.paused {
            match self.engine.tick() {
                Ok(_) => {},
                Err(e) => {
                    return Err(e);
                },
            }
        }
        Ok(())
    }

    /// Selects the process after the one that is selected, in the order of
    /// the list and round its end; the first process if none is selected or
    /// the selected one is gone; none if there is no process.
    pub fn select_next_process(&mut self)
        ensures
            final(self).selected_process_id == next_selection(
                old(self).engine@.scheduler.processes,
                old(self).selected_process_id,
            ),
            final(self).should_quit == old(self).should_quit,
            final(self).paused == old(self).paused,
            final(self).speed == old(self).speed,
            final(self).debug_mode == old(self).debug_mode,
            final(self).selected_address == old(self).selected_address,
            final(self).view_mode == old(self).view_mode,
            final(self).engine@ == old(self).engine@,
    {
        let processes = self.engine.processes();
        let n = processes.len();
        if n == 0 {
            self.selected_process_id = None;
            return ;
        }
        let found = match self.selected_process_id {
            Some(id) => find_process(&processes, id, Ghost(self.engine@.scheduler.processes)),
            None => n,
        };
        let current = if found < n {
            found
        } else {
            n - 1
        };
        let next = (current + 1) % n;
        self.selected_process_id = Some(processes[next].id);
    }
}

/// The index of the first process that has the given id, or the length of
/// the list if none has.
fn find_process(list: &Vec<&Process>, id: u32, Ghost(processes): Ghost<Seq<Process>>) -> (found:
    usize)
    requires
        list@.len() == processes.len(),
        forall|j: int| 0 <= j < list@.len() ==> *(#[trigger] list@[j]) == processes[j],
    ensures
        found == position_of(processes, id, 0),
        found <= list@.len(),
{
    let n = list.len();
    let mut i: usize = 0;
    while i < n
        invariant
            i <= n,
            n == list@.len(),
            n == processes.len(),
            forall|j: int| 0 <= j < n ==> *(#[trigger] list@[j]) == processes[j],
            position_of(processes, id, 0) == position_of(processes, id, i as int),
        decreases n - i,
    {
        assert(*list@[i as int] == processes[i as int]);
        if list[i].id == id {
            return i;
        }
        i += 1;
    }
    n
}

/// The index of the first process from `from` on that has the given id, or
/// the length of the list if none has.
pub open spec fn position_of(processes: Seq<Process>, id: u32, from: int) -> int
    decreases processes.len() - from,
{
    if from >= processes.len() {
        processes.len() as int
    } else if processes[from].id == id {
        from
    } else {
        position_of(processes, id, from + 1)
    }
}

/// The id of the process that is selected after `selected`.
pub open spec fn next_selection(processes: Seq<Process>, selected: Option<u32>) -> Option<u32> {
    if processes.len() == 0 {
        None
    } else {
        let found = match selected {
            Some(id) => position_of(processes, id, 0),
            None => processes.len() as int,
        };
        let current = if found < processes.len() {
            found
        } else {
            processes.len() - 1
        };
        Some(processes[(current + 1) % (processes.len() as int)].id)
    }
}

} // verus!
