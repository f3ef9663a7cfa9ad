//! What the screen shows, as text and plain values: status icons, colour
//! levels, table headers and cells, column widths, chart bars, the header,
//! footer and help texts. Drawing them is left to the terminal front end.

use vstd::prelude::*;

use crate::config::{ColumnVisibility, SortColumn, SortConfig};
use crate::model::{duration_text, elapsed_since, format_duration_secs, uptime_text, EnvironmentStatus, EnvironmentView, VagrantEnvironment};
use crate::text::{chars_of, decimal, digit_char, digit_to_char, push_char, push_chars, push_decimal, push_str, string_of};
use crate::vagrant::ConnectionState;
use crate::app_state::NANOS_PER_SEC;

verus! {

// ── Icons ───────────────────────────────────────────────────────────────────

pub const ICON_VAGRANT: &'static str = "\u{2601}";
pub const ICON_RUNNING: &'static str = "\u{f111}";
pub const ICON_STOPPED: &'static str = "\u{f28d}";
pub const ICON_SAVED: &'static str = "\u{f04c}";
pub const ICON_DEAD: &'static str = "\u{f071}";
pub const ICON_CPU: &'static str = "\u{f2db}";
pub const ICON_MEMORY: &'static str = "\u{efc5}";
pub const ICON_NETWORK: &'static str = "\u{f0ac}";
pub const ICON_DISK: &'static str = "\u{f0a0}";
pub const ICON_CLOCK: &'static str = "\u{f017}";
pub const ICON_SORT_ASC: &'static str = "\u{f0de}";
pub const ICON_SORT_DESC: &'static str = "\u{f0dd}";

/// The icon of an environment status.
pub open spec fn status_icon_text(s: EnvironmentStatus) -> Seq<char> {
    match s {
        EnvironmentStatus::Running => ICON_RUNNING@,
        EnvironmentStatus::Partial => ICON_RUNNING@,
        EnvironmentStatus::Stopped => ICON_STOPPED@,
        EnvironmentStatus::Saved => ICON_SAVED@,
        EnvironmentStatus::Crashed => ICON_DEAD@,
    }
}

/// Status icon for an environment.
pub fn status_icon(status: EnvironmentStatus) -> (r: &'static str)
    ensures
        r@ == status_icon_text(status),
{
    match status {
        EnvironmentStatus::Running => ICON_RUNNING,
        EnvironmentStatus::Partial => ICON_RUNNING,
        EnvironmentStatus::Stopped => ICON_STOPPED,
        EnvironmentStatus::Saved => ICON_SAVED,
        EnvironmentStatus::Crashed => ICON_DEAD,
    }
}


// ── Colour levels ───────────────────────────────────────────────────────────

/// How alarming a value is: drawn plain, in the warning colour, or in the
/// danger colour (bold).
#[derive(Debug, Clone, Copy, PartialEq, Eq, Structural)]
pub enum Level {
    Normal,
    Warning,
    Danger,
}

/// The level of a CPU usage in billionths of a percent: above 80% danger,
/// above 50% warning.
pub open spec fn cpu_level_of(e9: u64) -> Level {
    if e9 > 80_000_000_000 {
        Level::Danger
    } else if e9 > 50_000_000_000 {
        Level::Warning
    } else {
        Level::Normal
    }
}

/// Colour level for a CPU usage (billionths of a percent).
pub fn cpu_level(e9: u64) -> (r: Level)
    ensures
        r == cpu_level_of(e9),
{
    if e9 > 80_000_000_000 {
        Level::Danger
    } else if e9 > 50_000_000_000 {
        Level::Warning
    } else {
        Level::Normal
    }
}

/// The level of memory use `used` out of `limit` (0% when the limit is 0):
/// above 90% danger, above 70% warning, compared exactly.
pub open spec fn mem_level_of(used: u64, limit: u64) -> Level {
    if limit > 0 && used * 100 > 90 * limit {
        Level::Danger
    } else if limit > 0 && used * 100 > 70 * limit {
        Level::Warning
    } else {
        Level::Normal
    }
}

/// Colour level for memory use.
pub fn mem_level(used: u64, limit: u64) -> (r: Level)
    ensures
        r == mem_level_of(used, limit),
{
    let u = used as u128 * 100;
    let l = limit as u128;
    if limit > 0 && u > 90 * l {
        Level::Danger
    } else if limit > 0 && u > 70 * l {
        Level::Warning
    } else {
        Level::Normal
    }
}

/// The colour family of a status.
#[derive(Debug, Clone, Copy, PartialEq, Eq, Structural)]
pub enum Tone {
    Success,
    Warning,
    Muted,
    Danger,
}

/// The colour of an environment status: running success, partial and
/// saved warning, stopped muted, crashed danger.
pub open spec fn status_tone_of(s: EnvironmentStatus) -> Tone {
    match s {
        EnvironmentStatus::Running => Tone::Success,
        EnvironmentStatus::Partial => Tone::Warning,
        EnvironmentStatus::Stopped => Tone::Muted,
        EnvironmentStatus::Saved => Tone::Warning,
        EnvironmentStatus::Crashed => Tone::Danger,
    }
}

/// Colour of an environment status.
pub fn status_tone(status: EnvironmentStatus) -> (r: Tone)
    ensures
        r == status_tone_of(status),
{
    match status {
        EnvironmentStatus::Running => Tone::Success,
        EnvironmentStatus::Partial => Tone::Warning,
        EnvironmentStatus::Stopped => Tone::Muted,
        EnvironmentStatus::Saved => Tone::Warning,
        EnvironmentStatus::Crashed => Tone::Danger,
    }
}

// ── Byte sizes ──────────────────────────────────────────────────────────────

/// What `bytesize` displays for `b` bytes (IEC units, one decimal).
pub uninterp spec fn byte_size_text(b: u64) -> Seq<char>;

/// `ByteSize(b).to_string()` of the `bytesize` crate. Its `Display` writes
/// sizes below 1 KiB as the plain number and ` B`; larger sizes use a
/// floating-point value with an IEC prefix, which the contract only names.
#[verifier::external_body]
fn byte_size_string(b: u64) -> (r: String)
    ensures
        r@ == byte_size_text(b),
        b < 1024 ==> r@ == decimal(b as nat) + " B"@,
{
    bytesize::ByteSize(b).to_string()
}

/// Formats bytes as human-readable text.
pub fn fmt_bytes(b: u64) -> (r: String)
    ensures
        r@ == byte_size_text(b),
        b < 1024 ==> r@ == decimal(b as nat) + " B"@,
{
    byte_size_string(b)
}

// ── Table ───────────────────────────────────────────────────────────────────

/// A column header: `label`, then the direction icon when the table is
/// sorted by `col`.
pub open spec fn sort_header_text(label: Seq<char>, col: SortColumn, sort: SortConfig) -> Seq<char> {
    if sort.column == col {
        label + " "@ + (if sort.ascending { ICON_SORT_ASC@ } else { ICON_SORT_DESC@ })
    } else {
        label
    }
}

/// The header text of column `col`.
pub fn sort_header(label: &str, col: SortColumn, sort: SortConfig) -> (r: String)
    ensures
        r@ == sort_header_text(label@, col, sort),
{
    let mut r = string_of(label);
    if sort.column == col {
        push_str(&mut r, " ");
        if sort.ascending {
            push_str(&mut r, ICON_SORT_ASC);
        } else {
            push_str(&mut r, ICON_SORT_DESC);
        }
    }
    r
}

/// `s` as a one-element sequence when `show` holds, else empty.
pub open spec fn when(show: bool, s: Seq<char>) -> Seq<Seq<char>> {
    if show {
        seq![s]
    } else {
        Seq::empty()
    }
}

/// The header cells of the visible columns, in table order.
pub open spec fn header_texts(c: ColumnVisibility, sort: SortConfig) -> Seq<Seq<char>> {
    seq![sort_header_text("ENVIRONMENT"@, SortColumn::Name, sort)]
        + when(c.vms, sort_header_text("VMS"@, SortColumn::Vms, sort))
        + when(c.cpu, sort_header_text(ICON_CPU@ + " CPU"@, SortColumn::Cpu, sort))
        + when(c.mem, sort_header_text(ICON_MEMORY@ + " MEM"@, SortColumn::Mem, sort))
        + when(c.net, sort_header_text(ICON_NETWORK@ + " NET RX/TX"@, SortColumn::NetRx, sort))
        + when(c.io, sort_header_text(ICON_DISK@ + " IO R/W"@, SortColumn::IoRead, sort))
        + when(c.time_up, sort_header_text(ICON_CLOCK@ + " TIME-UP"@, SortColumn::TimeUp, sort))
        + when(c.last_chg, sort_header_text(ICON_CLOCK@ + " LAST-CHG"@, SortColumn::LastChg, sort))
}

/// The views of a list of strings.
pub open spec fn texts_view(v: Seq<String>) -> Seq<Seq<char>> {
    v.map_values(|s: String| s@)
}

fn push_when(v: &mut Vec<String>, show: bool, s: String)
    ensures
        texts_view(final(v)@) == texts_view(old(v)@) + when(show, s@),
{
    let ghost before = v@;
    if show {
        v.push(s);
        assert(texts_view(v@) =~= texts_view(before) + when(show, s@));
    } else {
        assert(texts_view(v@) =~= texts_view(before) + when(show, s@));
    }
}

fn icon_label(icon: &str, rest: &str) -> (r: String)
    ensures
        r@ == icon@ + rest@,
{
    let mut r = string_of(icon);
    push_str(&mut r, rest);
    r
}

/// The header cells of the table.
pub fn build_header_cells(columns: &ColumnVisibility, sort: &SortConfig) -> (r: Vec<String>)
    ensures
        texts_view(r@) == header_texts(*columns, *sort),
{
    let mut cells: Vec<String> = Vec::new();
    cells.push(sort_header("ENVIRONMENT", SortColumn::Name, *sort));
    assert(texts_view(cells@) =~= seq![sort_header_text("ENVIRONMENT"@, SortColumn::Name, *sort)]);
    push_when(&mut cells, columns.vms, sort_header("VMS", SortColumn::Vms, *sort));
    push_when(&mut cells, columns.cpu, sort_header(icon_label(ICON_CPU, " CPU").as_str(), SortColumn::Cpu, *sort));
    push_when(&mut cells, columns.mem, sort_header(icon_label(ICON_MEMORY, " MEM").as_str(), SortColumn::Mem, *sort));
    push_when(&mut cells, columns.net, sort_header(icon_label(ICON_NETWORK, " NET RX/TX").as_str(), SortColumn::NetRx, *sort));
    push_when(&mut cells, columns.io, sort_header(icon_label(ICON_DISK, " IO R/W").as_str(), SortColumn::IoRead, *sort));
    push_when(&mut cells, columns.time_up, sort_header(icon_label(ICON_CLOCK, " TIME-UP").as_str(), SortColumn::TimeUp, *sort));
    push_when(&mut cells, columns.last_chg, sort_header(icon_label(ICON_CLOCK, " LAST-CHG").as_str(), SortColumn::LastChg, *sort));
    cells
}

/// Billionths of a percent in a tenth of a percent.
pub const CPU_TENTH: u64 = 100_000_000;

/// A CPU usage in billionths of a percent rounded to tenths of a percent,
/// a remainder of exactly half a tenth going to the even tenth (as `{:.1}`
/// rounds).
pub open spec fn cpu_tenths(e9: u64) -> int {
    let q = e9 / CPU_TENTH;
    let r = e9 % CPU_TENTH;
    if r > CPU_TENTH / 2 || (r == CPU_TENTH / 2 && q % 2 == 1) {
        q + 1
    } else {
        q as int
    }
}

/// A CPU usage in billionths of a percent as a percentage with one decimal
/// (`12.3%`).
pub open spec fn cpu_text(e9: u64) -> Seq<char> {
    let tenths = cpu_tenths(e9);
    decimal((tenths / 10) as nat) + "."@ + seq![digit_char(tenths % 10)] + "%"@
}

/// The CPU cell text.
pub fn fmt_cpu(e9: u64) -> (r: String)
    ensures
        r@ == cpu_text(e9),
{
    let q = e9 / CPU_TENTH;
    let rem = e9 % CPU_TENTH;
    let tenths = if rem > CPU_TENTH / 2 || (rem == CPU_TENTH / 2 && q % 2 == 1) {
        q + 1
    } else {
        q
    };
    let mut r = String::new();
    push_decimal(&mut r, tenths / 10);
    push_str(&mut r, ".");
    push_char(&mut r, digit_to_char(tenths % 10));
    push_str(&mut r, "%");
    r
}

/// Two byte sizes separated by ` / `.
pub open spec fn pair_text(a: u64, b: u64) -> Seq<char> {
    byte_size_text(a) + " / "@ + byte_size_text(b)
}

fn fmt_pair(a: u64, b: u64) -> (r: String)
    ensures
        r@ == pair_text(a, b),
{
    let mut r = fmt_bytes(a);
    push_str(&mut r, " / ");
    let t = fmt_bytes(b);
    push_str(&mut r, t.as_str());
    r
}

/// The TIME-UP cell: how long since the oldest running VM started (epoch
/// seconds), seen at `now_secs`; `-` when unknown.
pub open spec fn time_up_text(oldest: Option<u64>, now_secs: u64) -> Seq<char> {
    match oldest {
        Some(t) => duration_text(elapsed_since(t, now_secs)),
        None => "-"@,
    }
}

/// The LAST-CHG cell: how long since the last state change (monotonic
/// nanoseconds), seen at `now_nanos`; `-` when none was seen.
pub open spec fn last_change_text(newest: Option<u64>, now_nanos: u64) -> Seq<char> {
    match newest {
        Some(t) => duration_text(elapsed_since(t, now_nanos) / (NANOS_PER_SEC as nat)),
        None => "-"@,
    }
}

/// The cells of an environment's row for the visible columns: the status
/// icon, a space and the name; VM count, CPU, memory used / limit, network
/// rx / tx, disk read / write, TIME-UP and LAST-CHG.
pub open spec fn row_texts(e: EnvironmentView, c: ColumnVisibility, now_secs: u64, now_nanos: u64) -> Seq<Seq<char>> {
    seq![status_icon_text(e.status) + " "@ + e.name]
        + when(c.vms, decimal(e.vms.len()))
        + when(c.cpu, cpu_text(e.total_cpu_e9))
        + when(c.mem, pair_text(e.total_mem, e.mem_limit))
        + when(c.net, pair_text(e.total_net_rx, e.total_net_tx))
        + when(c.io, pair_text(e.total_blk_read, e.total_blk_write))
        + when(c.time_up, time_up_text(e.oldest_started_at, now_secs))
        + when(c.last_chg, last_change_text(e.newest_started_at, now_nanos))
}

/// How a table cell is coloured.
#[derive(Debug, Clone, Copy, PartialEq, Eq, Structural)]
pub enum CellColour {
    /// The whole cell at a colour level.
    Level(Level),
    /// The first `chars` characters (the status icon and the space after
    /// it) in the status colour `tone`, the rest plain.
    Status { tone: Tone, chars: usize },
}

/// A table cell: its text and how it is coloured.
pub struct RowCell {
    pub text: String,
    pub colour: CellColour,
}

/// `c` as a one-element sequence when `show` holds, else empty.
pub open spec fn colour_when(show: bool, c: CellColour) -> Seq<CellColour> {
    if show {
        seq![c]
    } else {
        Seq::empty()
    }
}

/// The colours of a row's cells: the status icon in the status colour,
/// CPU and MEM at their levels, the others plain.
pub open spec fn row_colours(e: EnvironmentView, c: ColumnVisibility) -> Seq<CellColour> {
    let plain = CellColour::Level(Level::Normal);
    seq![CellColour::Status { tone: status_tone_of(e.status), chars: (status_icon_text(e.status).len() + 1) as usize }]
        + colour_when(c.vms, plain)
        + colour_when(c.cpu, CellColour::Level(cpu_level_of(e.total_cpu_e9)))
        + colour_when(c.mem, CellColour::Level(mem_level_of(e.total_mem, e.mem_limit)))
        + colour_when(c.net, plain)
        + colour_when(c.io, plain)
        + colour_when(c.time_up, plain)
        + colour_when(c.last_chg, plain)
}

/// The texts of a list of cells.
pub open spec fn cell_texts(v: Seq<RowCell>) -> Seq<Seq<char>> {
    v.map_values(|c: RowCell| c.text@)
}

/// The colours of a list of cells.
pub open spec fn cell_colours(v: Seq<RowCell>) -> Seq<CellColour> {
    v.map_values(|c: RowCell| c.colour)
}

fn push_cell_when(v: &mut Vec<RowCell>, show: bool, text: String, colour: CellColour)
    ensures
        cell_texts(final(v)@) == cell_texts(old(v)@) + when(show, text@),
        cell_colours(final(v)@) == cell_colours(old(v)@) + colour_when(show, colour),
{
    let ghost before = v@;
    let ghost t = text@;
    if show {
        v.push(RowCell { text, colour });
    }
    assert(cell_texts(v@) =~= cell_texts(before) + when(show, t));
    assert(cell_colours(v@) =~= cell_colours(before) + colour_when(show, colour));
}

/// The number of characters of a status icon and the space after it.
fn status_prefix_chars(status: EnvironmentStatus) -> (r: usize)
    ensures
        r == status_icon_text(status).len() + 1,
{
    proof {
        reveal_strlit("\u{f111}");
        reveal_strlit("\u{f28d}");
        reveal_strlit("\u{f04c}");
        reveal_strlit("\u{f071}");
    }
    2
}

/// The row cells of `env`, at wall time `now_secs` (epoch seconds) and
/// monotonic time `now_nanos`, with their colours.
pub fn build_row(env: &VagrantEnvironment, columns: &ColumnVisibility, now_secs: u64, now_nanos: u64) -> (r: Vec<RowCell>)
    ensures
        cell_texts(r@) == row_texts(env@, *columns, now_secs, now_nanos),
        cell_colours(r@) == row_colours(env@, *columns),
{
    let plain = CellColour::Level(Level::Normal);
    let mut first = string_of(status_icon(env.status));
    push_str(&mut first, " ");
    push_str(&mut first, env.name.as_str());
    let lead = CellColour::Status { tone: status_tone(env.status), chars: status_prefix_chars(env.status) };
    let mut cells: Vec<RowCell> = Vec::new();
    cells.push(RowCell { text: first, colour: lead });
    assert(cell_texts(cells@) =~= seq![status_icon_text(env.status) + " "@ + env@.name]);
    assert(cell_colours(cells@) =~= seq![lead]);
    let mut count = String::new();
    push_decimal(&mut count, env.vm_count() as u64);
    push_cell_when(&mut cells, columns.vms, count, plain);
    push_cell_when(&mut cells, columns.cpu, fmt_cpu(env.total_cpu_e9), CellColour::Level(cpu_level(env.total_cpu_e9)));
    push_cell_when(
        &mut cells,
        columns.mem,
        fmt_pair(env.total_mem, env.mem_limit),
        CellColour::Level(mem_level(env.total_mem, env.mem_limit)),
    );
    push_cell_when(&mut cells, columns.net, fmt_pair(env.total_net_rx, env.total_net_tx), plain);
    push_cell_when(&mut cells, columns.io, fmt_pair(env.total_blk_read, env.total_blk_write), plain);
    let up = match env.oldest_started_at {
        Some(t) => uptime_text(t, now_secs),
        None => string_of("-"),
    };
    push_cell_when(&mut cells, columns.time_up, up, plain);
    let chg = match env.newest_started_at {
        Some(t) => format_duration_secs(now_nanos.saturating_sub(t) / NANOS_PER_SEC),
        None => string_of("-"),
    };
    push_cell_when(&mut cells, columns.last_chg, chg, plain);
    cells
}

/// A column width: a share of the remaining space, or a fixed length.
#[derive(Debug, Clone, Copy, PartialEq, Eq, Structural)]
pub enum Width {
    Fill(u16),
    Length(u16),
}

/// `w` as a one-element sequence when `show` holds, else empty.
pub open spec fn width_when(show: bool, w: Width) -> Seq<Width> {
    if show {
        seq![w]
    } else {
        Seq::empty()
    }
}

/// The widths of the visible columns: the environment name takes the rest.
pub open spec fn widths_of(c: ColumnVisibility) -> Seq<Width> {
    seq![Width::Fill(1)]
        + width_when(c.vms, Width::Length(6))
        + width_when(c.cpu, Width::Length(9))
        + width_when(c.mem, Width::Length(17))
        + width_when(c.net, Width::Length(21))
        + width_when(c.io, Width::Length(15))
        + width_when(c.time_up, Width::Length(10))
        + width_when(c.last_chg, Width::Length(10))
}

fn push_width_when(v: &mut Vec<Width>, show: bool, w: Width)
    ensures
        final(v)@ == old(v)@ + width_when(show, w),
{
    if show {
        v.push(w);
    }
    assert(v@ =~= old(v)@ + width_when(show, w));
}

/// The column widths of the table.
pub fn build_widths(columns: &ColumnVisibility) -> (r: Vec<Width>)
    ensures
        r@ == widths_of(*columns),
{
    let mut w: Vec<Width> = Vec::new();
    w.push(Width::Fill(1));
    push_width_when(&mut w, columns.vms, Width::Length(6));
    push_width_when(&mut w, columns.cpu, Width::Length(9));
    push_width_when(&mut w, columns.mem, Width::Length(17));
    push_width_when(&mut w, columns.net, Width::Length(21));
    push_width_when(&mut w, columns.io, Width::Length(15));
    push_width_when(&mut w, columns.time_up, Width::Length(10));
    push_width_when(&mut w, columns.last_chg, Width::Length(10));
    assert(w@ =~= widths_of(*columns));
    w
}


// ── Chart ───────────────────────────────────────────────────────────────────

/// `name` cut to `max_len` characters: longer names keep their first
/// `max_len - 1` characters and end in an ellipsis.
pub open spec fn truncated_text(name: Seq<char>, max_len: nat) -> Seq<char> {
    if name.len() <= max_len {
        name
    } else {
        name.take(max_len - 1) + seq!['\u{2026}']
    }
}

/// Truncates a name for a bar label. A name longer than `max_len` needs
/// room for the ellipsis, so `max_len` is at least 1 then.
pub fn truncate_name(name: &str, max_len: usize) -> (r: String)
    requires
        max_len >= 1 || name@.len() == 0,
    ensures
        r@ == truncated_text(name@, max_len as nat),
{
    let v = chars_of(name);
    if v.len() <= max_len {
        let r = string_of(name);
        r
    } else {
        let mut r = String::new();
        push_chars(&mut r, v.as_slice(), 0, max_len - 1);
        push_char(&mut r, '\u{2026}');
        r
    }
}

/// The longest bar label, in characters.
pub const BAR_LABEL_LEN: usize = 12;

/// CPU bars: each environment's truncated name and its CPU usage in tenths
/// of a percent (rounded down).
pub fn cpu_bars(envs: &Vec<VagrantEnvironment>) -> (r: Vec<(String, u64)>)
    ensures
        r@.len() == envs@.len(),
        forall|i: int| 0 <= i < r@.len() ==> #[trigger] r@[i].0@ == truncated_text(envs@[i].name@, BAR_LABEL_LEN as nat)
            && r@[i].1 == envs@[i].total_cpu_e9 / CPU_TENTH,
{
    let mut r: Vec<(String, u64)> = Vec::new();
    let mut i: usize = 0;
    while i < envs.len()
        invariant
            i <= envs@.len(),
            r@.len() == i,
            forall|j: int| 0 <= j < i ==> #[trigger] r@[j].0@ == truncated_text(envs@[j].name@, BAR_LABEL_LEN as nat)
                && r@[j].1 == envs@[j].total_cpu_e9 / CPU_TENTH,
        decreases envs@.len() - i,
    {
        let e = &envs[i];
        let label = truncate_name(e.name.as_str(), BAR_LABEL_LEN);
        let value = e.total_cpu_e9 / CPU_TENTH;
        let ghost before = r@;
        r.push((label, value));
        assert forall|j: int| 0 <= j < i + 1 implies #[trigger] r@[j].0@ == truncated_text(envs@[j].name@, BAR_LABEL_LEN as nat)
            && r@[j].1 == envs@[j].total_cpu_e9 / CPU_TENTH by {
            if j < i {
                assert(r@[j] == before[j]);
            }
        }
        i += 1;
    }
    r
}

/// Bytes in a MiB.
pub const MIB: u64 = 1048576;

/// Memory bars: each environment's truncated name and its memory in whole MiB.
pub fn mem_bars(envs: &Vec<VagrantEnvironment>) -> (r: Vec<(String, u64)>)
    ensures
        r@.len() == envs@.len(),
        forall|i: int| 0 <= i < r@.len() ==> #[trigger] r@[i].0@ == truncated_text(envs@[i].name@, BAR_LABEL_LEN as nat)
            && r@[i].1 == envs@[i].total_mem / MIB,
{
    let mut r: Vec<(String, u64)> = Vec::new();
    let mut i: usize = 0;
    while i < envs.len()
        invariant
            i <= envs@.len(),
            r@.len() == i,
            forall|j: int| 0 <= j < i ==> #[trigger] r@[j].0@ == truncated_text(envs@[j].name@, BAR_LABEL_LEN as nat)
                && r@[j].1 == envs@[j].total_mem / MIB,
        decreases envs@.len() - i,
    {
        let e = &envs[i];
        let label = truncate_name(e.name.as_str(), BAR_LABEL_LEN);
        let value = e.total_mem / MIB;
        let ghost before = r@;
        r.push((label, value));
        assert forall|j: int| 0 <= j < i + 1 implies #[trigger] r@[j].0@ == truncated_text(envs@[j].name@, BAR_LABEL_LEN as nat)
            && r@[j].1 == envs@[j].total_mem / MIB by {
            if j < i {
                assert(r@[j] == before[j]);
            }
        }
        i += 1;
    }
    r
}

/// Whether the two charts sit side by side: when the area is at least 100
/// columns wide (else one above the other).
pub fn charts_side_by_side(width: u16) -> (r: bool)
    ensures
        r == (width >= 100),
{
    width >= 100
}

// ── Header, footer, help ────────────────────────────────────────────────────

/// The connection label of the header.
pub open spec fn connection_label_text(c: ConnectionState) -> Seq<char> {
    match c {
        ConnectionState::Connected => "Connected"@,
        ConnectionState::IndexOnly => "Index Only"@,
        ConnectionState::Disconnected => "Disconnected"@,
    }
}

/// The connection label and its colour: connected in the success colour,
/// the two others in the warning colour.
pub fn connection_label(c: ConnectionState) -> (r: (&'static str, Tone))
    ensures
        r.0@ == connection_label_text(c),
        r.1 == (if c == ConnectionState::Connected { Tone::Success } else { Tone::Warning }),
{
    match c {
        ConnectionState::Connected => ("Connected", Tone::Success),
        ConnectionState::IndexOnly => ("Index Only", Tone::Warning),
        ConnectionState::Disconnected => ("Disconnected", Tone::Warning),
    }
}

/// The header's poll age text.
pub fn poll_text(last_poll_secs: u64) -> (r: String)
    ensures
        r@ == "  Last poll: "@ + decimal(last_poll_secs as nat) + "s ago"@,
{
    let mut r = string_of("  Last poll: ");
    push_decimal(&mut r, last_poll_secs);
    push_str(&mut r, "s ago");
    r
}

/// The footer's key bindings: just quit and close-help while the help is
/// shown, the main bindings otherwise.
pub open spec fn footer_texts(show_help: bool) -> Seq<(Seq<char>, Seq<char>)> {
    if show_help {
        seq![("q"@, "quit"@), ("?"@, "close help"@)]
    } else {
        seq![
            ("q"@, "quit"@),
            ("j/k"@, "nav"@),
            ("Tab"@, "view"@),
            ("1-7"@, "columns"@),
            ("s"@, "sort"@),
            ("r"@, "reverse"@),
            ("?"@, "help"@),
        ]
    }
}

/// The views of a list of text pairs.
pub open spec fn pairs_view(v: Seq<(&'static str, &'static str)>) -> Seq<(Seq<char>, Seq<char>)> {
    v.map_values(|p: (&'static str, &'static str)| (p.0@, p.1@))
}

/// The footer's key bindings.
pub fn footer_bindings(show_help: bool) -> (r: Vec<(&'static str, &'static str)>)
    ensures
        pairs_view(r@) == footer_texts(show_help),
{
    let r = if show_help {
        vec![("q", "quit"), ("?", "close help")]
    } else {
        vec![
            ("q", "quit"),
            ("j/k", "nav"),
            ("Tab", "view"),
            ("1-7", "columns"),
            ("s", "sort"),
            ("r", "reverse"),
            ("?", "help"),
        ]
    };
    assert(pairs_view(r@) =~= footer_texts(show_help));
    r
}

/// The help overlay's lines: key and description.
pub open spec fn help_texts() -> Seq<(Seq<char>, Seq<char>)> {
    seq![
        ("q / Ctrl+C"@, "Quit"@),
        ("j / Down"@, "Next row"@),
        ("k / Up"@, "Previous row"@),
        ("g"@, "Jump to top"@),
        ("G"@, "Jump to bottom"@),
        ("Tab"@, "Toggle Table / Chart view"@),
        ("1-7"@, "Toggle columns"@),
        ("s"@, "Cycle sort column forward"@),
        ("S"@, "Cycle sort column backward"@),
        ("r"@, "Reverse sort direction"@),
        ("?"@, "Toggle this help"@),
    ]
}

/// The help overlay's lines.
pub fn help_entries() -> (r: Vec<(&'static str, &'static str)>)
    ensures
        pairs_view(r@) == help_texts(),
{
    let r = vec![
        ("q / Ctrl+C", "Quit"),
        ("j / Down", "Next row"),
        ("k / Up", "Previous row"),
        ("g", "Jump to top"),
        ("G", "Jump to bottom"),
        ("Tab", "Toggle Table / Chart view"),
        ("1-7", "Toggle columns"),
        ("s", "Cycle sort column forward"),
        ("S", "Cycle sort column backward"),
        ("r", "Reverse sort direction"),
        ("?", "Toggle this help"),
    ];
    assert(pairs_view(r@) =~= help_texts());
    r
}

/// `n` spaces.
pub open spec fn spaces(n: nat) -> Seq<char> {
    Seq::new(n, |i: int| ' ')
}

/// The key column of a help line: a space, the key right-aligned in 12
/// characters (`{:>12}`), two spaces.
pub open spec fn help_key_text(key: Seq<char>) -> Seq<char> {
    let pad = if key.len() < 12 { (12 - key.len()) as nat } else { 0 };
    " "@ + spaces(pad) + key + "  "@
}

/// Formats the key column of a help line.
pub fn help_key(key: &str) -> (r: String)
    ensures
        r@ == help_key_text(key@),
{
    let v = chars_of(key);
    let mut r = string_of(" ");
    let mut pad: usize = if v.len() < 12 {
        12 - v.len()
    } else {
        0
    };
    let ghost start = r@;
    let ghost total = pad;
    while pad > 0
        invariant
            pad <= total,
            r@ == start + spaces((total - pad) as nat),
        decreases pad,
    {
        push_char(&mut r, ' ');
        assert(spaces((total - pad + 1) as nat) =~= spaces((total - pad) as nat).push(' '));
        pad -= 1;
    }
    push_chars(&mut r, v.as_slice(), 0, v.len());
    assert(v@.subrange(0, v@.len() as int) =~= v@);
    push_str(&mut r, "  ");
    r
}

/// The percentages that put a box of `percent` of an area in its middle:
/// the margin, the box, the margin.
pub fn centered_percentages(percent: u16) -> (r: (u16, u16, u16))
    requires
        percent <= 100,
    ensures
        r.0 == (100 - percent) / 2,
        r.1 == percent,
        r.2 == (100 - percent) / 2,
{
    ((100 - percent) / 2, percent, (100 - percent) / 2)
}

/// 1 when `b` holds, else 0.
pub open spec fn shown(b: bool) -> int {
    if b {
        1
    } else {
        0
    }
}

/// The position of each column's cell in a row: the name cell is at 0 and
/// every visible column takes the next place.
pub open spec fn cell_position(c: ColumnVisibility, col: SortColumn) -> int {
    let p_cpu = 1 + shown(c.vms);
    let p_mem = p_cpu + shown(c.cpu);
    let p_net = p_mem + shown(c.mem);
    let p_io = p_net + shown(c.net);
    let p_up = p_io + shown(c.io);
    let p_chg = p_up + shown(c.time_up);
    match col {
        SortColumn::Name => 0,
        SortColumn::Vms => 1,
        SortColumn::Cpu => p_cpu,
        SortColumn::Mem => p_mem,
        SortColumn::NetRx => p_net,
        SortColumn::IoRead => p_io,
        SortColumn::TimeUp => p_up,
        SortColumn::LastChg => p_chg,
    }
}

/// The number of cells in a row: the name cell and one per visible column.
pub open spec fn cell_count(c: ColumnVisibility) -> int {
    cell_position(c, SortColumn::LastChg) + shown(c.last_chg)
}

proof fn lemma_append_when<A>(s: Seq<A>, b: bool, x: A, t: Seq<A>)
    requires
        t == s + (if b { seq![x] } else { Seq::<A>::empty() }),
    ensures
        t.len() == s.len() + shown(b),
        forall|i: int| 0 <= i < s.len() ==> #[trigger] t[i] == s[i],
        b ==> t[s.len() as int] == x,
{
}

/// A row holds one cell per visible column, in the table's column order,
/// and each cell shows its own column's value: the status icon, a space and
/// the name; the VM count; the CPU usage; memory in use / its limit; bytes
/// received / sent (the order of the `NET RX/TX` header); bytes read /
/// written (`IO R/W`); the time since the oldest start and since the last
/// change, `-` when unknown.
#[verifier::rlimit(40)]
pub proof fn row_cells_in_column_order(e: EnvironmentView, c: ColumnVisibility, now_secs: u64, now_nanos: u64)
    ensures
        ({
            let r = row_texts(e, c, now_secs, now_nanos);
            &&& r.len() == cell_count(c)
            &&& r[0] == status_icon_text(e.status) + " "@ + e.name
            &&& c.vms ==> r[1] == decimal(e.vms.len())
            &&& c.cpu ==> r[cell_position(c, SortColumn::Cpu)] == cpu_text(e.total_cpu_e9)
            &&& c.mem ==> r[cell_position(c, SortColumn::Mem)] == byte_size_text(e.total_mem) + " / "@ + byte_size_text(e.mem_limit)
            &&& c.net ==> r[cell_position(c, SortColumn::NetRx)] == byte_size_text(e.total_net_rx) + " / "@ + byte_size_text(
                e.total_net_tx,
            )
            &&& c.io ==> r[cell_position(c, SortColumn::IoRead)] == byte_size_text(e.total_blk_read) + " / "@ + byte_size_text(
                e.total_blk_write,
            )
            &&& c.time_up ==> r[cell_position(c, SortColumn::TimeUp)] == (match e.oldest_started_at {
                Some(t) => duration_text(elapsed_since(t, now_secs)),
                None => "-"@,
            })
            &&& c.last_chg ==> r[cell_position(c, SortColumn::LastChg)] == (match e.newest_started_at {
                Some(t) => duration_text(elapsed_since(t, now_nanos) / 1_000_000_000nat),
                None => "-"@,
            })
        }),
{
    let r = row_texts(e, c, now_secs, now_nanos);
    let r0 = seq![status_icon_text(e.status) + " "@ + e.name];
    let r1 = r0 + when(c.vms, decimal(e.vms.len()));
    let r2 = r1 + when(c.cpu, cpu_text(e.total_cpu_e9));
    let r3 = r2 + when(c.mem, pair_text(e.total_mem, e.mem_limit));
    let r4 = r3 + when(c.net, pair_text(e.total_net_rx, e.total_net_tx));
    let r5 = r4 + when(c.io, pair_text(e.total_blk_read, e.total_blk_write));
    let r6 = r5 + when(c.time_up, time_up_text(e.oldest_started_at, now_secs));
    let r7 = r6 + when(c.last_chg, last_change_text(e.newest_started_at, now_nanos));
    assert(r == r7);
    lemma_append_when(r0, c.vms, decimal(e.vms.len()), r1);
    lemma_append_when(r1, c.cpu, cpu_text(e.total_cpu_e9), r2);
    lemma_append_when(r2, c.mem, pair_text(e.total_mem, e.mem_limit), r3);
    lemma_append_when(r3, c.net, pair_text(e.total_net_rx, e.total_net_tx), r4);
    lemma_append_when(r4, c.io, pair_text(e.total_blk_read, e.total_blk_write), r5);
    lemma_append_when(r5, c.time_up, time_up_text(e.oldest_started_at, now_secs), r6);
    lemma_append_when(r6, c.last_chg, last_change_text(e.newest_started_at, now_nanos), r7);
}

/// The colours of a row's cells: the status icon in the status colour;
/// the CPU cell danger above 80% and warning above 50%; the MEM cell danger
/// above 90% and warning above 70% of the memory limit (plain when there is
/// no limit); every other cell plain.
#[verifier::rlimit(40)]
pub proof fn row_colours_by_column(e: EnvironmentView, c: ColumnVisibility)
    ensures
        ({
            let k = row_colours(e, c);
            let plain = CellColour::Level(Level::Normal);
            &&& k.len() == cell_count(c)
            &&& k[0] == CellColour::Status {
                tone: status_tone_of(e.status),
                chars: (status_icon_text(e.status).len() + 1) as usize,
            }
            &&& c.vms ==> k[1] == plain
            &&& c.cpu ==> k[cell_position(c, SortColumn::Cpu)] == CellColour::Level(
                if e.total_cpu_e9 > 80_000_000_000u64 {
                    Level::Danger
                } else if e.total_cpu_e9 > 50_000_000_000u64 {
                    Level::Warning
                } else {
                    Level::Normal
                },
            )
            &&& c.mem ==> k[cell_position(c, SortColumn::Mem)] == CellColour::Level(
                if e.mem_limit > 0 && e.total_mem * 100 > 90 * e.mem_limit {
                    Level::Danger
                } else if e.mem_limit > 0 && e.total_mem * 100 > 70 * e.mem_limit {
                    Level::Warning
                } else {
                    Level::Normal
                },
            )
            &&& c.net ==> k[cell_position(c, SortColumn::NetRx)] == plain
            &&& c.io ==> k[cell_position(c, SortColumn::IoRead)] == plain
            &&& c.time_up ==> k[cell_position(c, SortColumn::TimeUp)] == plain
            &&& c.last_chg ==> k[cell_position(c, SortColumn::LastChg)] == plain
        }),
{
    let k = row_colours(e, c);
    let plain = CellColour::Level(Level::Normal);
    let k0 = seq![CellColour::Status { tone: status_tone_of(e.status), chars: (status_icon_text(e.status).len() + 1) as usize }];
    let k1 = k0 + colour_when(c.vms, plain);
    let k2 = k1 + colour_when(c.cpu, CellColour::Level(cpu_level_of(e.total_cpu_e9)));
    let k3 = k2 + colour_when(c.mem, CellColour::Level(mem_level_of(e.total_mem, e.mem_limit)));
    let k4 = k3 + colour_when(c.net, plain);
    let k5 = k4 + colour_when(c.io, plain);
    let k6 = k5 + colour_when(c.time_up, plain);
    let k7 = k6 + colour_when(c.last_chg, plain);
    assert(k == k7);
    lemma_append_when(k0, c.vms, plain, k1);
    lemma_append_when(k1, c.cpu, CellColour::Level(cpu_level_of(e.total_cpu_e9)), k2);
    lemma_append_when(k2, c.mem, CellColour::Level(mem_level_of(e.total_mem, e.mem_limit)), k3);
    lemma_append_when(k3, c.net, plain, k4);
    lemma_append_when(k4, c.io, plain, k5);
    lemma_append_when(k5, c.time_up, plain, k6);
    lemma_append_when(k6, c.last_chg, plain, k7);
}

/// The label of column `col` in the table header.
pub open spec fn column_header_label(col: SortColumn) -> Seq<char> {
    match col {
        SortColumn::Name => "ENVIRONMENT"@,
        SortColumn::Vms => "VMS"@,
        SortColumn::Cpu => ICON_CPU@ + " CPU"@,
        SortColumn::Mem => ICON_MEMORY@ + " MEM"@,
        SortColumn::NetRx => ICON_NETWORK@ + " NET RX/TX"@,
        SortColumn::IoRead => ICON_DISK@ + " IO R/W"@,
        SortColumn::TimeUp => ICON_CLOCK@ + " TIME-UP"@,
        SortColumn::LastChg => ICON_CLOCK@ + " LAST-CHG"@,
    }
}

/// Whether column `col` is shown.
pub open spec fn column_shown(c: ColumnVisibility, col: SortColumn) -> bool {
    match col {
        SortColumn::Name => true,
        SortColumn::Vms => c.vms,
        SortColumn::Cpu => c.cpu,
        SortColumn::Mem => c.mem,
        SortColumn::NetRx => c.net,
        SortColumn::IoRead => c.io,
        SortColumn::TimeUp => c.time_up,
        SortColumn::LastChg => c.last_chg,
    }
}

/// `x` as a one-element sequence when `b` holds, else empty.
pub open spec fn opt_seq<A>(b: bool, x: A) -> Seq<A> {
    if b {
        seq![x]
    } else {
        Seq::empty()
    }
}

/// The cells of one value per column, the hidden ones left out.
pub open spec fn column_chain<A>(c: ColumnVisibility, xs: Seq<A>) -> Seq<A> {
    seq![xs[0]] + opt_seq(c.vms, xs[1]) + opt_seq(c.cpu, xs[2]) + opt_seq(c.mem, xs[3]) + opt_seq(c.net, xs[4]) + opt_seq(
        c.io,
        xs[5],
    ) + opt_seq(c.time_up, xs[6]) + opt_seq(c.last_chg, xs[7])
}

proof fn lemma_column_chain<A>(c: ColumnVisibility, xs: Seq<A>, col: SortColumn)
    requires
        xs.len() == 8,
    ensures
        column_chain(c, xs).len() == cell_count(c),
        column_shown(c, col) ==> column_chain(c, xs)[cell_position(c, col)] == xs[crate::config::sort_column_index(col) as int],
{
    let t0 = seq![xs[0]];
    let t1 = t0 + opt_seq(c.vms, xs[1]);
    let t2 = t1 + opt_seq(c.cpu, xs[2]);
    let t3 = t2 + opt_seq(c.mem, xs[3]);
    let t4 = t3 + opt_seq(c.net, xs[4]);
    let t5 = t4 + opt_seq(c.io, xs[5]);
    let t6 = t5 + opt_seq(c.time_up, xs[6]);
    let t7 = t6 + opt_seq(c.last_chg, xs[7]);
    lemma_append_when(t0, c.vms, xs[1], t1);
    lemma_append_when(t1, c.cpu, xs[2], t2);
    lemma_append_when(t2, c.mem, xs[3], t3);
    lemma_append_when(t3, c.net, xs[4], t4);
    lemma_append_when(t4, c.io, xs[5], t5);
    lemma_append_when(t5, c.time_up, xs[6], t6);
    lemma_append_when(t6, c.last_chg, xs[7], t7);
    let p = cell_position(c, col);
    if column_shown(c, col) {
        match col {
            SortColumn::Name => assert(t7[p] == t0[p]),
            SortColumn::Vms => assert(t7[p] == t1[p]),
            SortColumn::Cpu => assert(t7[p] == t2[p]),
            SortColumn::Mem => assert(t7[p] == t3[p]),
            SortColumn::NetRx => assert(t7[p] == t4[p]),
            SortColumn::IoRead => assert(t7[p] == t5[p]),
            SortColumn::TimeUp => assert(t7[p] == t6[p]),
            SortColumn::LastChg => {},
        }
    }
}

/// The header lines up with the rows: one header cell per row cell, and
/// each shown column's header cell, at the place its row cells take, is its
/// label, followed by a space and the arrow of the sort direction when the
/// table is sorted by it.
pub proof fn header_cells_by_column(c: ColumnVisibility, sort: SortConfig, col: SortColumn)
    ensures
        header_texts(c, sort).len() == cell_count(c),
        column_shown(c, col) ==> header_texts(c, sort)[cell_position(c, col)] == column_header_label(col) + (if sort.column
            == col {
            " "@ + (if sort.ascending { ICON_SORT_ASC@ } else { ICON_SORT_DESC@ })
        } else {
            Seq::<char>::empty()
        }),
{
    let xs = seq![
        sort_header_text(column_header_label(SortColumn::Name), SortColumn::Name, sort),
        sort_header_text(column_header_label(SortColumn::Vms), SortColumn::Vms, sort),
        sort_header_text(column_header_label(SortColumn::Cpu), SortColumn::Cpu, sort),
        sort_header_text(column_header_label(SortColumn::Mem), SortColumn::Mem, sort),
        sort_header_text(column_header_label(SortColumn::NetRx), SortColumn::NetRx, sort),
        sort_header_text(column_header_label(SortColumn::IoRead), SortColumn::IoRead, sort),
        sort_header_text(column_header_label(SortColumn::TimeUp), SortColumn::TimeUp, sort),
        sort_header_text(column_header_label(SortColumn::LastChg), SortColumn::LastChg, sort),
    ];
    assert(header_texts(c, sort) =~= column_chain(c, xs));
    lemma_column_chain(c, xs, col);
}

/// The widths line up with the rows: one width per row cell; the name
/// column fills the remaining width and each other shown column has its
/// fixed width at the place its cells take (VMS 6, CPU 9, MEM 17, NET 21,
/// IO 15, TIME-UP and LAST-CHG 10).
pub proof fn widths_by_column(c: ColumnVisibility, col: SortColumn)
    ensures
        widths_of(c).len() == cell_count(c),
        column_shown(c, col) ==> widths_of(c)[cell_position(c, col)] == (match col {
            SortColumn::Name => Width::Fill(1),
            SortColumn::Vms => Width::Length(6),
            SortColumn::Cpu => Width::Length(9),
            SortColumn::Mem => Width::Length(17),
            SortColumn::NetRx => Width::Length(21),
            SortColumn::IoRead => Width::Length(15),
            SortColumn::TimeUp => Width::Length(10),
            SortColumn::LastChg => Width::Length(10),
        }),
{
    let xs = seq![
        Width::Fill(1),
        Width::Length(6),
        Width::Length(9),
        Width::Length(17),
        Width::Length(21),
        Width::Length(15),
        Width::Length(10),
        Width::Length(10),
    ];
    assert(widths_of(c) =~= column_chain(c, xs));
    lemma_column_chain(c, xs, col);
}

} // verus!
