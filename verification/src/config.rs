//! What the table shows: visible columns, and the column and direction it
//! is sorted by.

use vstd::prelude::*;

verus! {

/// Which columns are visible in the table view.
#[derive(Debug, Clone, Copy, PartialEq, Eq, Structural)]
pub struct ColumnVisibility {
    pub vms: bool,
    pub cpu: bool,
    pub mem: bool,
    pub net: bool,
    pub io: bool,
    pub time_up: bool,
    pub last_chg: bool,
}

impl ColumnVisibility {
    /// The columns shown at start: all but NET and IO.
    pub open spec fn spec_default() -> ColumnVisibility {
        ColumnVisibility { vms: true, cpu: true, mem: true, net: false, io: false, time_up: true, last_chg: true }
    }

    /// The visibility after the number key `key` is pressed: keys 1 to 7
    /// flip the VMS, CPU, MEM, NET, IO, TIME-UP and LAST-CHG columns, any
    /// other key changes nothing.
    pub open spec fn toggled(self, key: u8) -> ColumnVisibility {
        if key == 1 {
            ColumnVisibility { vms: !self.vms, ..self }
        } else if key == 2 {
            ColumnVisibility { cpu: !self.cpu, ..self }
        } else if key == 3 {
            ColumnVisibility { mem: !self.mem, ..self }
        } else if key == 4 {
            ColumnVisibility { net: !self.net, ..self }
        } else if key == 5 {
            ColumnVisibility { io: !self.io, ..self }
        } else if key == 6 {
            ColumnVisibility { time_up: !self.time_up, ..self }
        } else if key == 7 {
            ColumnVisibility { last_chg: !self.last_chg, ..self }
        } else {
            self
        }
    }

    /// Toggles a column by number key (1-7).
    pub fn toggle(&mut self, key: u8)
        ensures
            *final(self) == old(self).toggled(key),
    {
        match key {
            1 => self.vms = !self.vms,
            2 => self.cpu = !self.cpu,
            3 => self.mem = !self.mem,
            4 => self.net = !self.net,
            5 => self.io = !self.io,
            6 => self.time_up = !self.time_up,
            7 => self.last_chg = !self.last_chg,
            _ => {},
        }
    }
}

impl Default for ColumnVisibility {
    fn default() -> (r: Self)
        ensures
            r == ColumnVisibility::spec_default(),
    {
        ColumnVisibility { vms: true, cpu: true, mem: true, net: false, io: false, time_up: true, last_chg: true }
    }
}

/// Toggling the same column twice restores the visibility.
pub proof fn toggle_twice_restores(c: ColumnVisibility, key: u8)
    ensures
        c.toggled(key).toggled(key) == c,
{
}

/// A key outside 1-7 changes nothing; a key in 1-7 flips exactly one column.
pub proof fn toggle_flips_one_column(c: ColumnVisibility, key: u8)
    ensures
        !(1 <= key <= 7) ==> c.toggled(key) == c,
        1 <= key <= 7 ==> c.toggled(key) != c,
        c.toggled(key).vms != c.vms ==> key == 1,
        c.toggled(key).cpu != c.cpu ==> key == 2,
        c.toggled(key).mem != c.mem ==> key == 3,
        c.toggled(key).net != c.net ==> key == 4,
        c.toggled(key).io != c.io ==> key == 5,
        c.toggled(key).time_up != c.time_up ==> key == 6,
        c.toggled(key).last_chg != c.last_chg ==> key == 7,
{
}

/// Column to sort by.
#[derive(Debug, Clone, Copy, PartialEq, Eq, Structural)]
pub enum SortColumn {
    Name,
    Vms,
    Cpu,
    Mem,
    NetRx,
    IoRead,
    TimeUp,
    LastChg,
}

/// The number of sort columns.
pub open spec fn sort_column_count() -> nat {
    8
}

/// The position of `c` in the cycle Name, Vms, Cpu, Mem, NetRx, IoRead, TimeUp, LastChg.
pub open spec fn sort_column_index(c: SortColumn) -> nat {
    match c {
        SortColumn::Name => 0,
        SortColumn::Vms => 1,
        SortColumn::Cpu => 2,
        SortColumn::Mem => 3,
        SortColumn::NetRx => 4,
        SortColumn::IoRead => 5,
        SortColumn::TimeUp => 6,
        SortColumn::LastChg => 7,
    }
}

/// The column at position `i` of the cycle (`i` below 8).
pub open spec fn sort_column_at(i: nat) -> SortColumn {
    if i == 0 {
        SortColumn::Name
    } else if i == 1 {
        SortColumn::Vms
    } else if i == 2 {
        SortColumn::Cpu
    } else if i == 3 {
        SortColumn::Mem
    } else if i == 4 {
        SortColumn::NetRx
    } else if i == 5 {
        SortColumn::IoRead
    } else if i == 6 {
        SortColumn::TimeUp
    } else {
        SortColumn::LastChg
    }
}

/// The column after `c` in the cycle (the last wraps to the first).
pub open spec fn cycled_next(c: SortColumn) -> SortColumn {
    sort_column_at((sort_column_index(c) + 1) % sort_column_count())
}

/// The column before `c` in the cycle (the first wraps to the last).
pub open spec fn cycled_prev(c: SortColumn) -> SortColumn {
    if sort_column_index(c) == 0 {
        sort_column_at((sort_column_count() - 1) as nat)
    } else {
        sort_column_at((sort_column_index(c) - 1) as nat)
    }
}

/// `c` moved forward `n` times.
pub open spec fn cycled_next_n(c: SortColumn, n: nat) -> SortColumn
    decreases n,
{
    if n == 0 {
        c
    } else {
        cycled_next(cycled_next_n(c, (n - 1) as nat))
    }
}

impl SortColumn {
    /// Next sort column (cycle forward).
    pub fn next(self) -> (r: Self)
        ensures
            r == cycled_next(self),
    {
        match self {
            SortColumn::Name => SortColumn::Vms,
            SortColumn::Vms => SortColumn::Cpu,
            SortColumn::Cpu => SortColumn::Mem,
            SortColumn::Mem => SortColumn::NetRx,
            SortColumn::NetRx => SortColumn::IoRead,
            SortColumn::IoRead => SortColumn::TimeUp,
            SortColumn::TimeUp => SortColumn::LastChg,
            SortColumn::LastChg => SortColumn::Name,
        }
    }

    /// Previous sort column (cycle backward).
    pub fn prev(self) -> (r: Self)
        ensures
            r == cycled_prev(self),
    {
        match self {
            SortColumn::Name => SortColumn::LastChg,
            SortColumn::Vms => SortColumn::Name,
            SortColumn::Cpu => SortColumn::Vms,
            SortColumn::Mem => SortColumn::Cpu,
            SortColumn::NetRx => SortColumn::Mem,
            SortColumn::IoRead => SortColumn::NetRx,
            SortColumn::TimeUp => SortColumn::IoRead,
            SortColumn::LastChg => SortColumn::TimeUp,
        }
    }

    /// The column's header label.
    pub fn label(&self) -> (r: &'static str)
        ensures
            r@ == column_label(*self),
    {
        match self {
            SortColumn::Name => "ENVIRONMENT",
            SortColumn::Vms => "VMS",
            SortColumn::Cpu => "CPU",
            SortColumn::Mem => "MEM",
            SortColumn::NetRx => "NET",
            SortColumn::IoRead => "IO",
            SortColumn::TimeUp => "TIME-UP",
            SortColumn::LastChg => "LAST-CHG",
        }
    }
}

/// The header label of a sort column.
pub open spec fn column_label(c: SortColumn) -> Seq<char> {
    match c {
        SortColumn::Name => "ENVIRONMENT"@,
        SortColumn::Vms => "VMS"@,
        SortColumn::Cpu => "CPU"@,
        SortColumn::Mem => "MEM"@,
        SortColumn::NetRx => "NET"@,
        SortColumn::IoRead => "IO"@,
        SortColumn::TimeUp => "TIME-UP"@,
        SortColumn::LastChg => "LAST-CHG"@,
    }
}

/// Positions and columns correspond one to one.
pub proof fn sort_column_positions(c: SortColumn, i: nat)
    ensures
        sort_column_index(c) < sort_column_count(),
        sort_column_at(sort_column_index(c)) == c,
        i < sort_column_count() ==> sort_column_index(sort_column_at(i)) == i,
{
}

/// Cycling backward undoes cycling forward, and the other way round.
pub proof fn next_prev_inverse(c: SortColumn)
    ensures
        cycled_prev(cycled_next(c)) == c,
        cycled_next(cycled_prev(c)) == c,
{
}

/// Cycling forward through all the columns comes back to the start, and
/// visits every column on the way.
pub proof fn next_cycles_through_all(c: SortColumn, d: SortColumn)
    ensures
        cycled_next_n(c, sort_column_count()) == c,
        exists|n: nat| n < sort_column_count() && cycled_next_n(c, n) == d,
{
    lemma_next_n_index(c, sort_column_count());
    sort_column_positions(cycled_next_n(c, sort_column_count()), 0);
    sort_column_positions(c, 0);
    let k = ((sort_column_index(d) + sort_column_count() - sort_column_index(c)) % sort_column_count() as int) as nat;
    lemma_next_n_index(c, k);
    sort_column_positions(cycled_next_n(c, k), 0);
    sort_column_positions(d, 0);
    assert(cycled_next_n(c, k) == d);
}

proof fn lemma_next_n_index(c: SortColumn, n: nat)
    ensures
        sort_column_index(cycled_next_n(c, n)) == (sort_column_index(c) + n) % sort_column_count(),
    decreases n,
{
    if n > 0 {
        lemma_next_n_index(c, (n - 1) as nat);
        let x = cycled_next_n(c, (n - 1) as nat);
        sort_column_positions(x, (sort_column_index(x) + 1) % sort_column_count());
    }
}

/// Sort configuration.
#[derive(Debug, Clone, Copy, PartialEq, Eq, Structural)]
pub struct SortConfig {
    pub column: SortColumn,
    pub ascending: bool,
}

impl Default for SortConfig {
    fn default() -> (r: Self)
        ensures
            r == (SortConfig { column: SortColumn::Name, ascending: true }),
    {
        SortConfig { column: SortColumn::Name, ascending: true }
    }
}

/// The sort column moves through the columns in the table's order: name,
/// VMs, CPU, memory, network, disk, uptime, last change, and back to the
/// name; backward in the reverse order.
pub proof fn sort_cycle_follows_table_order(c: SortColumn)
    ensures
        cycled_next(c) == (match c {
            SortColumn::Name => SortColumn::Vms,
            SortColumn::Vms => SortColumn::Cpu,
            SortColumn::Cpu => SortColumn::Mem,
            SortColumn::Mem => SortColumn::NetRx,
            SortColumn::NetRx => SortColumn::IoRead,
            SortColumn::IoRead => SortColumn::TimeUp,
            SortColumn::TimeUp => SortColumn::LastChg,
            SortColumn::LastChg => SortColumn::Name,
        }),
        cycled_prev(c) == (match c {
            SortColumn::Name => SortColumn::LastChg,
            SortColumn::Vms => SortColumn::Name,
            SortColumn::Cpu => SortColumn::Vms,
            SortColumn::Mem => SortColumn::Cpu,
            SortColumn::NetRx => SortColumn::Mem,
            SortColumn::IoRead => SortColumn::NetRx,
            SortColumn::TimeUp => SortColumn::IoRead,
            SortColumn::LastChg => SortColumn::TimeUp,
        }),
{
}

} // verus!
