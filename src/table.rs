//! The status table: colors of statuses and health values, and fixed-width
//! lines.
use vstd::prelude::*;
use crate::printer::{color_println_fmt, colored, Color};
use crate::keyed::{first_keys, keyed, lemma_first_keys};
use crate::status::{
    correlation, inspect_entries, joined, lemma_usage_key, usage_entries, ContainerStats,
    ContainerStatsView, InspectView, StatsView,
};
use crate::text::{eq_ignore_case, eq_ignore_case_exec, pad_right, padded, views};

verus! {

/// The color of a container status: green when running, cyan when created,
/// yellow when paused or restarting, and the neutral white for any status
/// not named here (case of ASCII letters aside).
pub open spec fn status_color(status: Seq<char>) -> Color {
    if eq_ignore_case(status, "running"@) {
        Color::Green
    } else if eq_ignore_case(status, "created"@) {
        Color::Cyan
    } else if eq_ignore_case(status, "paused"@) || eq_ignore_case(status, "restarting"@) {
        Color::Yellow
    } else {
        Color::White
    }
}

/// The color of a health value: green when healthy, red when unhealthy, cyan
/// when starting, and the neutral white for anything else.
pub open spec fn health_color(health: Seq<char>) -> Color {
    if eq_ignore_case(health, "healthy"@) {
        Color::Green
    } else if eq_ignore_case(health, "unhealthy"@) {
        Color::Red
    } else if eq_ignore_case(health, "starting"@) {
        Color::Cyan
    } else {
        Color::White
    }
}

/// Picks the color of a container status.
pub fn status_color_of(status: &str) -> (r: Color)
    ensures
        r == status_color(status@),
{
    if eq_ignore_case_exec(status, "running") {
        Color::Green
    } else if eq_ignore_case_exec(status, "created") {
        Color::Cyan
    } else if eq_ignore_case_exec(status, "paused") || eq_ignore_case_exec(status, "restarting") {
        Color::Yellow
    } else {
        Color::White
    }
}

/// Picks the color of a health value.
pub fn health_color_of(health: &str) -> (r: Color)
    ensures
        r == health_color(health@),
{
    if eq_ignore_case_exec(health, "healthy") {
        Color::Green
    } else if eq_ignore_case_exec(health, "unhealthy") {
        Color::Red
    } else if eq_ignore_case_exec(health, "starting") {
        Color::Cyan
    } else {
        Color::White
    }
}

/// The number of columns of the status table.
pub const COLUMNS: usize = 8;

/// The width of each column of the status table: name, status, restart
/// policy, health, uptime, CPU, memory, ports.
pub open spec fn column_width(i: int) -> nat {
    if i == 0 {
        35
    } else if i == 1 {
        20
    } else if i == 2 {
        16
    } else if i == 3 {
        20
    } else if i == 4 {
        18
    } else if i == 5 {
        8
    } else if i == 6 {
        8
    } else {
        20
    }
}

fn column_width_exec(i: usize) -> (r: usize)
    ensures
        r == column_width(i as int),
{
    if i == 0 {
        35
    } else if i == 1 {
        20
    } else if i == 2 {
        16
    } else if i == 3 {
        20
    } else if i == 4 {
        18
    } else if i == 5 {
        8
    } else if i == 6 {
        8
    } else {
        20
    }
}

/// The first `n` cells, each left-aligned in its column, separated by a space.
pub open spec fn table_prefix(cells: Seq<Seq<char>>, n: int) -> Seq<char>
    decreases n,
{
    if n <= 0 {
        Seq::empty()
    } else if n == 1 {
        pad_right(cells[0], column_width(0))
    } else {
        table_prefix(cells, n - 1) + " "@ + pad_right(cells[n - 1], column_width(n - 1))
    }
}

/// A line of the status table.
pub open spec fn table_line(cells: Seq<Seq<char>>) -> Seq<char> {
    table_prefix(cells, cells.len() as int)
}

/// Lays out cells as a line of the status table.
pub fn format_table_line(cells: &Vec<String>) -> (r: String)
    requires
        cells@.len() == COLUMNS,
    ensures
        r@ == table_line(views(cells@)),
{
    let ghost cv = views(cells@);
    let mut r = padded(cells[0].as_str(), column_width_exec(0));
    let mut i: usize = 1;
    while i < cells.len()
        invariant
            cv == views(cells@),
            cells@.len() == COLUMNS,
            1 <= i <= cells@.len(),
            r@ == table_prefix(cv, i as int),
        decreases cells@.len() - i,
    {
        let cell = padded(cells[i].as_str(), column_width_exec(i));
        let r2 = r.concat(" ").concat(cell.as_str());
        r = r2;
        i = i + 1;
    }
    r
}

/// The cells of a row: name, status, restart policy, health, uptime, CPU,
/// memory and ports; when colored, the name in cyan and the status and health
/// in their colors.
pub open spec fn row_cells(row: ContainerStatsView, use_color: bool) -> Seq<Seq<char>> {
    seq![
        if use_color { colored(Color::Cyan, row.name) } else { row.name },
        if use_color { colored(status_color(row.status), row.status) } else { row.status },
        row.restart_policy,
        if use_color { colored(health_color(row.health), row.health) } else { row.health },
        row.uptime,
        row.cpu_usage,
        row.memory_usage,
        row.ports,
    ]
}

/// The cells of the header line; when colored, the name, status and health
/// titles in white.
pub open spec fn header_cells(use_color: bool) -> Seq<Seq<char>> {
    seq![
        if use_color { colored(Color::White, "NAME"@) } else { "NAME"@ },
        if use_color { colored(Color::White, "STATUS"@) } else { "STATUS"@ },
        "RESTART"@,
        if use_color { colored(Color::White, "HEALTH"@) } else { "HEALTH"@ },
        "UPTIME"@,
        "CPU %"@,
        "MEM %"@,
        "PORTS"@,
    ]
}

fn cell(text: &str, color: Color, use_color: bool) -> (r: String)
    ensures
        r@ == if use_color {
            colored(color, text@)
        } else {
            text@
        },
{
    if use_color {
        color_println_fmt(color, text)
    } else {
        String::from_str(text)
    }
}

impl ContainerStats {
    /// The row's line of the status table.
    pub fn render(&self, use_color: bool) -> (r: String)
        ensures
            r@ == table_line(row_cells(self@, use_color)),
    {
        let mut cells: Vec<String> = Vec::new();
        cells.push(cell(self.name.as_str(), Color::Cyan, use_color));
        cells.push(cell(self.status.as_str(), status_color_of(self.status.as_str()), use_color));
        cells.push(self.restart_policy.clone());
        cells.push(cell(self.health.as_str(), health_color_of(self.health.as_str()), use_color));
        cells.push(self.uptime.clone());
        cells.push(self.cpu_usage.clone());
        cells.push(self.memory_usage.clone());
        cells.push(self.ports.clone());
        assert(views(cells@) =~= row_cells(self@, use_color));
        format_table_line(&cells)
    }
}

/// The header line of the status table.
pub fn render_header(use_color: bool) -> (r: String)
    ensures
        r@ == table_line(header_cells(use_color)),
{
    let mut cells: Vec<String> = Vec::new();
    cells.push(cell("NAME", Color::White, use_color));
    cells.push(cell("STATUS", Color::White, use_color));
    cells.push(String::from_str("RESTART"));
    cells.push(cell("HEALTH", Color::White, use_color));
    cells.push(String::from_str("UPTIME"));
    cells.push(String::from_str("CPU %"));
    cells.push(String::from_str("MEM %"));
    cells.push(String::from_str("PORTS"));
    assert(views(cells@) =~= header_cells(use_color));
    format_table_line(&cells)
}

/// When the two snapshots' records name the same containers, each line of the
/// plain table belongs to one of them, `k`, and lays out in order `k`, the
/// status, restart policy, health and start time of `k`'s inspect record, the
/// CPU and memory shares of its usage record, and its ports.
pub proof fn lemma_plain_table_rows(us: Seq<StatsView>, is: Seq<InspectView>, j: int)
    requires
        keyed(usage_entries(us)).dom() == keyed(inspect_entries(is)).dom(),
        0 <= j < correlation(us, is)->Some_0.len(),
    ensures
        ({
            let um = keyed(usage_entries(us));
            let im = keyed(inspect_entries(is));
            let k = correlation(us, is)->Some_0[j].name;
            &&& um.dom().contains(k)
            &&& table_line(row_cells(correlation(us, is)->Some_0[j], false)) == table_line(
                seq![
                    k,
                    im[k].status,
                    im[k].restart_policy,
                    im[k].health,
                    im[k].uptime,
                    um[k].cpu,
                    um[k].memory,
                    im[k].ports,
                ],
            )
        }),
{
    let e = usage_entries(us);
    let fk = first_keys(e);
    lemma_first_keys(e);
    assert(fk.contains(fk[j]));
    lemma_usage_key(us, fk[j]);
    let um = keyed(e);
    let im = keyed(inspect_entries(is));
    let k = fk[j];
    assert(correlation(us, is)->Some_0[j] == joined(um[k], im[k]));
    assert(row_cells(correlation(us, is)->Some_0[j], false) =~= seq![
        k,
        im[k].status,
        im[k].restart_policy,
        im[k].health,
        im[k].uptime,
        um[k].cpu,
        um[k].memory,
        im[k].ports,
    ]);
}

} // verus!
