//! The admin console shell: its sections and their navigation (the wheel
//! steps through them cyclically), the theme switch, and the tone rules of
//! its tabs, chips and buttons.

use vstd::prelude::*;
use crate::text::str_eq;

verus! {

/// The top-level console sections, in navigation order.
#[derive(Clone, Copy, PartialEq, Eq, Debug, Structural)]
pub enum Section {
    Dashboard,
    Keys,
    Usage,
    Logs,
    Manage,
}

/// Position of a section in the navigation order.
pub open spec fn section_index(s: Section) -> int {
    match s {
        Section::Dashboard => 0,
        Section::Keys => 1,
        Section::Usage => 2,
        Section::Logs => 3,
        Section::Manage => 4,
    }
}

/// The section at a position of the navigation order (`0 <= i < 5`).
pub open spec fn section_at(i: int) -> Section {
    if i == 0 {
        Section::Dashboard
    } else if i == 1 {
        Section::Keys
    } else if i == 2 {
        Section::Usage
    } else if i == 3 {
        Section::Logs
    } else {
        Section::Manage
    }
}

impl Section {
    /// The section's label.
    pub fn label(self) -> (r: &'static str)
        ensures
            r@ == (match self {
                Section::Dashboard => "总览"@,
                Section::Keys => "密钥"@,
                Section::Usage => "用量"@,
                Section::Logs => "日志"@,
                Section::Manage => "管理"@,
            }),
    {
        match self {
            Section::Dashboard => "总览",
            Section::Keys => "密钥",
            Section::Usage => "用量",
            Section::Logs => "日志",
            Section::Manage => "管理",
        }
    }
}

/// The sections in navigation order.
pub fn sections() -> (r: [Section; 5])
    ensures
        forall|i: int| 0 <= i < 5 ==> #[trigger] r[i] == section_at(i),
{
    [Section::Dashboard, Section::Keys, Section::Usage, Section::Logs, Section::Manage]
}

/// The section `dir` steps away from `active`, wrapping around.
pub open spec fn stepped(active: Section, dir: int) -> Section {
    section_at((section_index(active) + dir) % 5)
}

/// The section a wheel step reaches: the next one for `dir = 1`, the
/// previous one for `dir = -1`, wrapping at both ends.
pub fn step(active: Section, dir: i32) -> (r: Section)
    ensures
        r == stepped(active, dir as int),
{
    let all = sections();
    let idx: usize = match active {
        Section::Dashboard => 0,
        Section::Keys => 1,
        Section::Usage => 2,
        Section::Logs => 3,
        Section::Manage => 4,
    };
    let pos: i64 = (idx as i64 + dir as i64) % 5;
    let pos: i64 = if pos < 0 {
        pos + 5
    } else {
        pos
    };
    assert(pos == (section_index(active) + dir as int) % 5);
    all[pos as usize]
}

/// A wheel step forward and one back return to the same section.
pub proof fn law_step_round_trip(s: Section)
    ensures
        stepped(stepped(s, 1), -1) == s,
        stepped(stepped(s, -1), 1) == s,
{
}

/// Stepping forward five times visits every section and comes back.
pub proof fn law_step_cycle(s: Section)
    ensures
        stepped(stepped(stepped(stepped(stepped(s, 1), 1), 1), 1), 1) == s,
{
}

/// The console theme.
#[derive(Clone, Copy, PartialEq, Eq, Debug, Structural)]
pub enum Theme {
    Dark,
    Light,
}

/// The theme switch: dark becomes light and light dark; the button shows the
/// theme it switches to.
pub fn toggle_theme(t: Theme) -> (r: (Theme, &'static str))
    ensures
        t == Theme::Dark ==> r.0 == Theme::Light && r.1@ == "Light"@,
        t == Theme::Light ==> r.0 == Theme::Dark && r.1@ == "Dark"@,
{
    match t {
        Theme::Dark => (Theme::Light, "Light"),
        Theme::Light => (Theme::Dark, "Dark"),
    }
}

/// The class of slot `i` of the top navigation meter: rounded on the left for
/// the first slot, on the right for the last, bright when active.
pub fn nav_slot_class(i: usize, len: usize, active: bool) -> (r: &'static str)
    ensures
        active && i == 0 ==> r@ == "flex h-6 items-center rounded-l-full bg-zinc-100 px-2 text-xs font-semibold text-zinc-900 transition-all"@,
        active && i != 0 && i + 1 == len ==> r@ == "flex h-6 items-center rounded-r-full bg-zinc-100 px-2 text-xs font-semibold text-zinc-900 transition-all"@,
        active && i != 0 && i + 1 != len ==> r@ == "flex h-6 items-center bg-zinc-100 px-2 text-xs font-semibold text-zinc-900 transition-all"@,
        !active && i == 0 ==> r@ == "flex h-6 items-center rounded-l-full px-2 text-xs font-medium text-zinc-300 transition-colors hover:bg-zinc-800 hover:text-zinc-100"@,
        !active && i != 0 && i + 1 == len ==> r@ == "flex h-6 items-center rounded-r-full px-2 text-xs font-medium text-zinc-300 transition-colors hover:bg-zinc-800 hover:text-zinc-100"@,
        !active && i != 0 && i + 1 != len ==> r@ == "flex h-6 items-center px-2 text-xs font-medium text-zinc-300 transition-colors hover:bg-zinc-800 hover:text-zinc-100"@,
{
    let last = len > 0 && i == len - 1;
    if active {
        if i == 0 {
            "flex h-6 items-center rounded-l-full bg-zinc-100 px-2 text-xs font-semibold text-zinc-900 transition-all"
        } else if last {
            "flex h-6 items-center rounded-r-full bg-zinc-100 px-2 text-xs font-semibold text-zinc-900 transition-all"
        } else {
            "flex h-6 items-center bg-zinc-100 px-2 text-xs font-semibold text-zinc-900 transition-all"
        }
    } else {
        if i == 0 {
            "flex h-6 items-center rounded-l-full px-2 text-xs font-medium text-zinc-300 transition-colors hover:bg-zinc-800 hover:text-zinc-100"
        } else if last {
            "flex h-6 items-center rounded-r-full px-2 text-xs font-medium text-zinc-300 transition-colors hover:bg-zinc-800 hover:text-zinc-100"
        } else {
            "flex h-6 items-center px-2 text-xs font-medium text-zinc-300 transition-colors hover:bg-zinc-800 hover:text-zinc-100"
        }
    }
}

/// The tone of an entity chip: bright when active, dimmed when disabled.
pub fn chip_tone(active: bool, ok: bool) -> (r: (&'static str, &'static str))
    ensures
        active ==> r.0@ == "border-zinc-100 bg-zinc-100 text-zinc-900"@,
        !active && ok ==> r.0@ == "border-zinc-700 bg-zinc-900 text-zinc-300 hover:border-zinc-500"@,
        !active && !ok ==> r.0@ == "border-zinc-800 bg-zinc-950 text-zinc-600 hover:border-zinc-700"@,
        ok ==> r.1@ == "bg-emerald-500"@,
        !ok ==> r.1@ == "bg-zinc-600"@,
{
    let tone = if active {
        "border-zinc-100 bg-zinc-100 text-zinc-900"
    } else if ok {
        "border-zinc-700 bg-zinc-900 text-zinc-300 hover:border-zinc-500"
    } else {
        "border-zinc-800 bg-zinc-950 text-zinc-600 hover:border-zinc-700"
    };
    let dot = if ok {
        "bg-emerald-500"
    } else {
        "bg-zinc-600"
    };
    (tone, dot)
}

/// The tone of a console tab label.
pub fn tab_tone(active: bool) -> (r: &'static str)
    ensures
        active ==> r@ == "text-zinc-100"@,
        !active ==> r@ == "text-zinc-500 hover:text-zinc-300"@,
{
    if active {
        "text-zinc-100"
    } else {
        "text-zinc-500 hover:text-zinc-300"
    }
}

/// The knob offset of a switch.
pub fn toggle_knob(on: bool) -> (r: &'static str)
    ensures
        on ==> r@ == "translate-x-4"@,
        !on ==> r@ == "translate-x-0"@,
{
    if on {
        "translate-x-4"
    } else {
        "translate-x-0"
    }
}

/// The page the URL fragment routes to: the retro scratch page for exactly
/// `#retro`, the console for anything else.
pub fn is_retro_route(hash: &str) -> (r: bool)
    ensures
        r == (hash@ == "#retro"@),
{
    str_eq(hash, "#retro")
}

/// The shade of an activity grid cell: a fixed pattern of five shades over
/// `(7 * row + 13 * col) % 5`.
pub open spec fn shade_of(row: int, col: int) -> Seq<char> {
    let v = (row * 7 + col * 13) % 5;
    if v == 0 {
        "bg-zinc-700"@
    } else if v == 1 {
        "bg-zinc-800"@
    } else if v == 2 {
        "bg-zinc-600"@
    } else if v == 3 {
        "bg-zinc-800/60"@
    } else {
        "bg-zinc-500"@
    }
}

/// The shade of an activity grid cell.
pub fn grid_shade(row: usize, col: usize) -> (r: &'static str)
    requires
        row * 7 + col * 13 <= usize::MAX,
    ensures
        r@ == shade_of(row as int, col as int),
{
    match (row * 7 + col * 13) % 5 {
        0 => "bg-zinc-700",
        1 => "bg-zinc-800",
        2 => "bg-zinc-600",
        3 => "bg-zinc-800/60",
        _ => "bg-zinc-500",
    }
}

} // verus!
