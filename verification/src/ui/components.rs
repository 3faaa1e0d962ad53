//! Components of the interface: the grid on which the arena is shown, the
//! dashboard, the list of controls, and the detail of one process.

use vstd::prelude::*;
use crate::vm::process::{Process, TRAIL_LENGTH};

verus! {

/// The number of cells in a row of the display.
pub const BYTES_PER_ROW: usize = 32;

/// The number of characters that a cell takes in a row of the display.
pub const CELL_WIDTH: usize = 3;

/// The column and the row of the screen at which a cell is drawn: thirty-two
/// cells to a row, three characters to a cell.
pub fn address_to_screen_coords(address: usize) -> (position: (usize, usize))
    ensures
        position.0 == (address % BYTES_PER_ROW) * CELL_WIDTH,
        position.1 == address / BYTES_PER_ROW,
{
    let row = address / BYTES_PER_ROW;
    let col = (address % BYTES_PER_ROW) * CELL_WIDTH;
    (col, row)
}

/// The champion of the last of the first `n` processes that stands on a
/// cell of a display of `size` cells, if any does.
pub open spec fn occupant(processes: Seq<&Process>, size: int, cell: int, n: int) -> Option<u8>
    decreases n,
{
    if n <= 0 {
        None
    } else if processes[n - 1].pc as int % size == cell {
        Some(processes[n - 1].champion_id)
    } else {
        occupant(processes, size, cell, n - 1)
    }
}

/// The number of program counters that a process remembers.
pub open spec fn trail_size(p: Process) -> int {
    if p.trail_count < TRAIL_LENGTH {
        p.trail_count as int
    } else {
        TRAIL_LENGTH as int
    }
}

/// Whether one of the first `k` program counters that a process remembers
/// lies on a cell.
pub open spec fn trail_covers(p: Process, size: int, cell: int, k: int) -> bool
    decreases k,
{
    if k <= 0 {
        false
    } else {
        p.trail[k - 1] as int % size == cell || trail_covers(p, size, cell, k - 1)
    }
}

/// The champion of the last of the first `n` processes that has stood on a
/// cell, as far as the processes remember, if any has.
pub open spec fn visitor(processes: Seq<&Process>, size: int, cell: int, n: int) -> Option<u8>
    decreases n,
{
    if n <= 0 {
        None
    } else if trail_covers(*processes[n - 1], size, cell, trail_size(*processes[n - 1])) {
        Some(processes[n - 1].champion_id)
    } else {
        visitor(processes, size, cell, n - 1)
    }
}

/// For each cell of a display of `size` cells, the champion whose process
/// stands on it; where several do, the one whose process is last in the
/// list.
pub fn process_map(processes: &Vec<&Process>, size: usize) -> (map: Vec<Option<u8>>)
    requires
        size > 0,
    ensures
        map@.len() == size,
        forall|cell: int|
            0 <= cell < size ==> #[trigger] map@[cell] == occupant(
                processes@,
                size as int,
                cell,
                processes@.len() as int,
            ),
{
    let mut map: Vec<Option<u8>> = Vec::new();
    let mut c: usize = 0;
    while c < size
        invariant
            c <= size,
            map@.len() == c,
            forall|cell: int| 0 <= cell < c ==> #[trigger] map@[cell] == None::<u8>,
        decreases size - c,
    {
        map.push(None);
        c += 1;
    }
    let n = processes.len();
    let mut i: usize = 0;
    while i < n
        invariant
            i <= n,
            n == processes@.len(),
            size > 0,
            map@.len() == size,
            forall|cell: int|
                0 <= cell < size ==> #[trigger] map@[cell] == occupant(
                    processes@,
                    size as int,
                    cell,
                    i as int,
                ),
        decreases n - i,
    {
        let process = processes[i];
        map[process.pc % size] = Some(process.champion_id);
        i += 1;
    }
    map
}

/// For each cell of a display of `size` cells, the champion whose process
/// has stood on it, as far as the processes remember; where several have,
/// the one whose process is last in the list.
pub fn trail_map(processes: &Vec<&Process>, size: usize) -> (map: Vec<Option<u8>>)
    requires
        size > 0,
    ensures
        map@.len() == size,
        forall|cell: int|
            0 <= cell < size ==> #[trigger] map@[cell] == visitor(
                processes@,
                size as int,
                cell,
                processes@.len() as int,
            ),
{
    let mut map: Vec<Option<u8>> = Vec::new();
    let mut c: usize = 0;
    while c < size
        invariant
            c <= size,
            map@.len() == c,
            forall|cell: int| 0 <= cell < c ==> #[trigger] map@[cell] == None::<u8>,
        decreases size - c,
    {
        map.push(None);
        c += 1;
    }
    let n = processes.len();
    let mut i: usize = 0;
    while i < n
        invariant
            i <= n,
            n == processes@.len(),
            size > 0,
            map@.len() == size,
            forall|cell: int|
                0 <= cell < size ==> #[trigger] map@[cell] == visitor(
                    processes@,
                    size as int,
                    cell,
                    i as int,
                ),
        decreases n - i,
    {
        let process = processes[i];
        let ghost before = map@;
        let count = if process.trail_count < TRAIL_LENGTH {
            process.trail_count
        } else {
            TRAIL_LENGTH
        };
        let mut k: usize = 0;
        while k < count
            invariant
                k <= count,
                count == trail_size(*process),
                count <= TRAIL_LENGTH,
                size > 0,
                map@.len() == size,
                before.len() == size,
                forall|cell: int|
                    0 <= cell < size ==> #[trigger] map@[cell] == if trail_covers(
                        *process,
                        size as int,
                        cell,
                        k as int,
                    ) {
                        Some(process.champion_id)
                    } else {
                        before[cell]
                    },
            decreases count - k,
        {
            map[process.trail[k] % size] = Some(process.champion_id);
            k += 1;
        }
        i += 1;
    }
    map
}

/// How the cells of the grid are coloured.
#[derive(Debug, Clone, Copy, PartialEq, Eq, Structural)]
pub enum ColorMode {
    /// By the champion that owns the cell.
    Championship,
    /// By how often the cell is read and written.
    Activity,
    /// By the instruction that the cell holds.
    Instruction,
}

/// The grid on which the arena is shown: cell `address` stands in column
/// `address % width` of row `address / width`.
#[derive(Debug, Clone, Copy, PartialEq, Eq, Structural)]
pub struct MemoryGrid {
    /// The number of columns.
    pub width: usize,
    /// The number of rows.
    pub height: usize,
    /// Whether addresses are shown.
    pub show_addresses: bool,
    /// How the cells are coloured.
    pub color_mode: ColorMode,
}

impl MemoryGrid {
    /// A grid of the given size that shows addresses and colours by
    /// champion.
    pub fn new(width: usize, height: usize) -> (g: Self)
        ensures
            g == (MemoryGrid {
                width,
                height,
                show_addresses: true,
                color_mode: ColorMode::Championship,
            }),
    {
        MemoryGrid { width, height, show_addresses: true, color_mode: ColorMode::Championship }
    }

    /// Sets how the cells are coloured.
    pub fn set_color_mode(&mut self, mode: ColorMode)
        ensures
            *final(self) == (MemoryGrid { color_mode: mode, ..*old(self) }),
    {
        self.color_mode = mode;
    }

    /// Shows the addresses if they are hidden, hides them if they are shown.
    pub fn toggle_addresses(&mut self)
        ensures
            *final(self) == (MemoryGrid { show_addresses: !old(self).show_addresses, ..*old(self) }),
    {
        self.show_addresses = !self.show_addresses;
    }

    /// The address of the cell in column `x` of row `y`.
    pub fn grid_to_address(&self, x: usize, y: usize) -> (address: usize)
        requires
            y * self.width + x <= usize::MAX,
        ensures
            address == y * self.width + x,
    {
        assert(y * self.width <= y * self.width + x) by (nonlinear_arith)
            requires
                x >= 0,
        ;
        y * self.width + x
    }

    /// The column and the row of the cell with the given address.
    pub fn address_to_grid(&self, address: usize) -> (position: (usize, usize))
        requires
            self.width > 0,
        ensures
            position.0 == address % self.width,
            position.1 == address / self.width,
            position.0 < self.width,
            position.1 * self.width + position.0 == address,
    {
        let x = address % self.width;
        let y = address / self.width;
        proof {
            vstd::arithmetic::div_mod::lemma_fundamental_div_mod(address as int, self.width as int);
            assert(self.width * (address as int / self.width as int) == (address as int
                / self.width as int) * self.width) by (nonlinear_arith);
        }
        (x, y)
    }
}

/// The place of a cell on the grid and the address of a place are inverse
/// to each other: the cell in column `x < width` of row `y` has the address
/// whose place is column `x` of row `y`.
pub proof fn lemma_grid_round_trip(width: int, x: int, y: int)
    requires
        0 <= x < width,
        0 <= y,
    ensures
        (y * width + x) % width == x,
        (y * width + x) / width == y,
{
    vstd::arithmetic::div_mod::lemma_fundamental_div_mod_converse(y * width + x, width, y, x);
}

/// The dashboard.
#[derive(Debug, Clone, Copy, PartialEq, Eq, Structural)]
pub struct Dashboard {
    /// Whether detailed statistics are shown.
    pub detailed: bool,
}

impl Dashboard {
    /// A dashboard without details.
    pub fn new() -> (d: Self)
        ensures
            !d.detailed,
    {
        Dashboard { detailed: false }
    }

    /// Shows the details if they are hidden, hides them if they are shown.
    pub fn toggle_detailed(&mut self)
        ensures
            final(self).detailed == !old(self).detailed,
    {
        self.detailed = !self.detailed;
    }
}

impl Default for Dashboard {
    fn default() -> (d: Self)
        ensures
            !d.detailed,
    {
        Dashboard::new()
    }
}

/// The list of controls.
#[derive(Debug, Clone, Copy, PartialEq, Eq, Structural)]
pub struct Controls {
    /// Whether the advanced controls are listed.
    pub show_advanced: bool,
}

impl Controls {
    /// A list without the advanced controls.
    pub fn new() -> (c: Self)
        ensures
            !c.show_advanced,
    {
        Controls { show_advanced: false }
    }

    /// Lists the advanced controls if they are hidden, hides them if they
    /// are listed.
    pub fn toggle_advanced(&mut self)
        ensures
            final(self).show_advanced == !old(self).show_advanced,
    {
        self.show_advanced = !self.show_advanced;
    }
}

impl Default for Controls {
    fn default() -> (c: Self)
        ensures
            !c.show_advanced,
    {
        Controls::new()
    }
}

/// The detail of one process.
#[derive(Debug, Clone, Copy, PartialEq, Eq, Structural)]
pub struct ProcessDetail {
    /// The id of the process that is shown, if one is.
    pub process_id: Option<u32>,
}

impl ProcessDetail {
    /// A detail that shows no process.
    pub fn new() -> (d: Self)
        ensures
            d.process_id is None,
    {
        ProcessDetail { process_id: None }
    }

    /// Shows the process with the given id.
    pub fn set_process(&mut self, process_id: u32)
        ensures
            final(self).process_id == Some(process_id),
    {
        self.process_id = Some(process_id);
    }

    /// Shows no process.
    pub fn clear_process(&mut self)
        ensures
            final(self).process_id is None,
    {
        self.process_id = None;
    }
}

impl Default for ProcessDetail {
    fn default() -> (d: Self)
        ensures
            d.process_id is None,
    {
        ProcessDetail::new()
    }
}

} // verus!
