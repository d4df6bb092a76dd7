//! What is shown to the user, line by line.

use vstd::prelude::*;

use crate::clock::{format_filetime, CalendarTime};
use crate::config::{QDC_ALL_PATHS, QDC_ONLY_ACTIVE_PATHS};
use crate::connectivity::{ConnectivityEntry, OrphanedConfigEntry};
use crate::display::{Display, DisplaySet};
use crate::display_sets::{is_current, listing};
use crate::properties::{DisplayProperties, DisplaySettings};
use crate::text::{decimal_text, join_text};
use crate::topology::Topology;

verus! {

/// Which paths to ask for, and whether to keep one path for each monitor only.
/// Every possible path is more than every monitor, active or not, and that is
/// more than the active displays.
pub fn query_flags(include_all: bool, include_inactive: bool) -> (flags: (u32, bool))
    ensures
        flags == if include_all {
            (QDC_ALL_PATHS, false)
        } else if include_inactive {
            (QDC_ALL_PATHS, true)
        } else {
            (QDC_ONLY_ACTIVE_PATHS, false)
        },
{
    if include_all {
        (QDC_ALL_PATHS, false)
    } else if include_inactive {
        (QDC_ALL_PATHS, true)
    } else {
        (QDC_ONLY_ACTIVE_PATHS, false)
    }
}

/// The indices of the displays among the first `n` that are shown: those with a
/// connected monitor, or all.
pub open spec fn shown_indices(
    displays: Seq<DisplayProperties>,
    include_unavailable: bool,
    n: int,
) -> Seq<int>
    decreases n,
{
    if n <= 0 {
        Seq::empty()
    } else {
        let front = shown_indices(displays, include_unavailable, n - 1);
        if include_unavailable || displays[n - 1].target_available {
            front.push(n - 1)
        } else {
            front
        }
    }
}

/// Exactly the displays with a connected monitor are shown, or all, and in their
/// order.
pub proof fn law_shown_indices(
    displays: Seq<DisplayProperties>,
    include_unavailable: bool,
    n: int,
)
    requires
        0 <= n <= displays.len(),
    ensures
        ({
            let shown = shown_indices(displays, include_unavailable, n);
            &&& forall|a: int, b: int| 0 <= a < b < shown.len() ==> shown[a] < shown[b]
            &&& forall|a: int|
                0 <= a < shown.len() ==> 0 <= #[trigger] shown[a] < n && (include_unavailable
                    || displays[shown[a]].target_available)
            &&& forall|k: int|
                0 <= k < n && (include_unavailable || (#[trigger] displays[k]).target_available)
                    ==> shown.contains(k)
        }),
    decreases n,
{
    if n > 0 {
        law_shown_indices(displays, include_unavailable, n - 1);
        let front = shown_indices(displays, include_unavailable, n - 1);
        let shown = shown_indices(displays, include_unavailable, n);
        assert forall|k: int|
            0 <= k < n && (include_unavailable || (#[trigger] displays[k]).target_available) implies
            shown.contains(k) by {
            if k < n - 1 {
                assert(front.contains(k));
                let a = choose|a: int| 0 <= a < front.len() && front[a] == k;
                assert(shown[a] == k);
            } else {
                assert(shown[shown.len() - 1] == k);
            }
        }
    }
}

/// The displays that are shown: those with a connected monitor, or all.
pub fn shown_displays(set: &DisplaySet, include_unavailable: bool) -> (shown: Vec<Display>)
    ensures
        shown@.map_values(|display: Display| display.position()) == shown_indices(
            set@.displays,
            include_unavailable,
            set@.displays.len() as int,
        ),
        forall|i: int| 0 <= i < shown@.len() ==> (#[trigger] shown@[i]).is_in(*set),
{
    let displays: Vec<Display> = set.displays();
    let mut shown: Vec<Display> = Vec::new();
    let ghost position = |display: Display| display.position();
    let mut i: usize = 0;
    assert(shown@.map_values(position) =~= Seq::empty());
    while i < displays.len()
        invariant
            position == (|display: Display| display.position()),
            i <= displays.len(),
            displays@.len() == set@.displays.len(),
            forall|k: int| 0 <= k < displays@.len() ==> (#[trigger] displays@[k]).position() == k,
            shown@.map_values(position) == shown_indices(
                set@.displays,
                include_unavailable,
                i as int,
            ),
            forall|k: int| 0 <= k < shown@.len() ==> (#[trigger] shown@[k]).is_in(*set),
        decreases displays.len() - i,
    {
        let display: Display = displays[i];
        let ghost earlier = shown@;
        assert(display.of(*set) == set@.displays[i as int]);
        if include_unavailable || display.target_available(set) {
            shown.push(display);
            assert(shown@.map_values(position) =~= earlier.map_values(position).push(i as int));
        }
        i = i + 1;
    }
    shown
}

/// Lines as sequences of characters.
pub open spec fn line_views(lines: Seq<String>) -> Seq<Seq<char>> {
    lines.map_values(|line: String| line@)
}

/// Adds a line of a label and a value.
fn push_line(lines: &mut Vec<String>, label: &str, value: &str)
    ensures
        line_views(final(lines)@) == line_views(old(lines)@).push(label@ + value@),
{
    let ghost before = lines@;
    lines.push(label.to_owned().concat(value));
    assert(line_views(lines@) =~= line_views(before).push(label@ + value@));
}

/// Adds a fixed line.
fn push_text(lines: &mut Vec<String>, text: &str)
    ensures
        line_views(final(lines)@) == line_views(old(lines)@).push(text@),
{
    let ghost before = lines@;
    lines.push(text.to_owned());
    assert(line_views(lines@) =~= line_views(before).push(text@));
}

/// A truth value as text.
pub open spec fn bool_chars(value: bool) -> Seq<char> {
    if value {
        "true"@
    } else {
        "false"@
    }
}

/// A truth value as text.
fn bool_text(value: bool) -> (text: &'static str)
    ensures
        text@ == bool_chars(value),
{
    if value {
        "true"
    } else {
        "false"
    }
}

/// The lines on what a display is.
pub open spec fn identity_lines(
    index: int,
    display: DisplayProperties,
    primary: bool,
) -> Seq<Seq<char>> {
    seq![
        "Display ID: "@ + crate::text::decimal(index as nat),
        "Windows Display Number: "@ + crate::text::decimal((index + 1) as nat),
        "Name:       "@ + display.name@,
        "String:     "@ + display.string@,
        "Key:        "@ + display.key@,
        "Primary:    "@ + bool_chars(primary),
    ] + match display.connector_type {
        Some(connector) => seq!["Connector:  "@ + connector.as_text()],
        None => Seq::empty(),
    } + seq!["Available:  "@ + bool_chars(display.target_available)]
}

/// The lines on the settings of a display.
pub open spec fn settings_lines(settings: Option<DisplaySettings>) -> Seq<Seq<char>> {
    match settings {
        Some(settings) => seq![
            "Settings:"@,
            "  Position:          "@ + settings.position.as_text(),
            "  Resolution:        "@ + settings.resolution.as_text(),
            "  Frequency:         "@ + crate::text::decimal(settings.frequency.0 as nat) + " Hz"@,
            "  Orientation:       "@ + settings.orientation.as_text(),
            "  Scaling:           "@ + settings.scaling.as_text(),
            "  Bit Depth:         "@ + crate::text::decimal(settings.bit_depth.0 as nat),
            "  Scanline Ordering: "@ + settings.scanline_ordering.as_text(),
        ],
        None => seq!["Settings:   None (Inactive)"@],
    }
}

/// Adds the lines on what a display is. The number that the system settings show
/// is one more than the index.
fn push_identity(lines: &mut Vec<String>, set: &DisplaySet, display: &Display)
    requires
        display.is_in(*set),
    ensures
        line_views(final(lines)@) == line_views(old(lines)@) + identity_lines(
            display.position(),
            display.of(*set),
            set@.primary == display.position(),
        ),
{
    let ghost before = line_views(lines@);
    let index: u64 = display.index() as u64;
    let number: u64 = display.windows_number(set) as u64;
    push_line(lines, "Display ID: ", decimal_text(index).as_str());
    push_line(lines, "Windows Display Number: ", decimal_text(number).as_str());
    push_line(lines, "Name:       ", display.name(set));
    push_line(lines, "String:     ", display.string(set));
    push_line(lines, "Key:        ", display.key(set));
    push_line(lines, "Primary:    ", bool_text(display.is_primary(set)));
    if let Some(connector) = display.connector_type(set) {
        push_line(lines, "Connector:  ", connector.text().as_str());
    }
    push_line(lines, "Available:  ", bool_text(display.target_available(set)));
    assert(line_views(lines@) =~= before + identity_lines(
        display.position(),
        display.of(*set),
        set@.primary == display.position(),
    ));
}

/// Adds the lines on the settings of a display.
fn push_settings(lines: &mut Vec<String>, settings: &Option<DisplaySettings>)
    ensures
        line_views(final(lines)@) == line_views(old(lines)@) + settings_lines(*settings),
{
    let ghost before = line_views(lines@);
    match settings {
        Some(settings) => {
            let frequency = settings.frequency.text().concat(" Hz");
            push_text(lines, "Settings:");
            push_line(lines, "  Position:          ", settings.position.text().as_str());
            push_line(lines, "  Resolution:        ", settings.resolution.text().as_str());
            push_line(lines, "  Frequency:         ", frequency.as_str());
            push_line(lines, "  Orientation:       ", settings.orientation.text());
            push_line(lines, "  Scaling:           ", settings.scaling.text().as_str());
            push_line(lines, "  Bit Depth:         ", settings.bit_depth.text().as_str());
            push_line(
                lines,
                "  Scanline Ordering: ",
                settings.scanline_ordering.text().as_str(),
            );
            assert("  Frequency:         "@ + (crate::text::decimal(settings.frequency.0 as nat)
                + " Hz"@) =~= "  Frequency:         "@ + crate::text::decimal(
                settings.frequency.0 as nat,
            ) + " Hz"@);
        },
        None => {
            push_text(lines, "Settings:   None (Inactive)");
        },
    }
    assert(line_views(lines@) =~= before + settings_lines(*settings));
}

/// All that is shown of one display that was asked for.
pub fn display_report(set: &DisplaySet, display: &Display) -> (lines: Vec<String>)
    requires
        display.is_in(*set),
    ensures
        line_views(lines@) == identity_lines(
            display.position(),
            display.of(*set),
            set@.primary == display.position(),
        ) + seq![""@] + settings_lines(display.of(*set).settings),
{
    let mut lines: Vec<String> = Vec::new();
    assert(line_views(lines@) =~= Seq::empty());
    push_identity(&mut lines, set, display);
    push_text(&mut lines, "");
    push_settings(&mut lines, display.settings(set));
    assert(line_views(lines@) =~= identity_lines(
        display.position(),
        display.of(*set),
        set@.primary == display.position(),
    ) + seq![""@] + settings_lines(display.of(*set).settings));
    lines
}

/// What is shown of one display in the list of all displays.
pub open spec fn list_item(
    index: int,
    display: DisplayProperties,
    primary: bool,
) -> Seq<Seq<char>> {
    identity_lines(index, display, primary) + settings_lines(display.settings)
        + seq![""@]
}

/// The list of the first `n` of the given displays.
pub open spec fn list_lines(set: DisplaySet, shown: Seq<Display>, n: int) -> Seq<Seq<char>>
    decreases n,
{
    if n <= 0 {
        seq!["All Displays:"@, ""@]
    } else {
        list_lines(set, shown, n - 1) + list_item(
            shown[n - 1].position(),
            shown[n - 1].of(set),
            set@.primary == shown[n - 1].position(),
        )
    }
}

/// All that is shown where all displays are asked for, given those that are shown.
pub fn display_list(set: &DisplaySet, shown: &Vec<Display>) -> (lines: Vec<String>)
    requires
        forall|i: int| 0 <= i < shown@.len() ==> (#[trigger] shown@[i]).is_in(*set),
    ensures
        line_views(lines@) == list_lines(*set, shown@, shown@.len() as int),
{
    let mut lines: Vec<String> = Vec::new();
    assert(line_views(lines@) =~= Seq::empty());
    push_text(&mut lines, "All Displays:");
    push_text(&mut lines, "");
    assert(line_views(lines@) =~= seq!["All Displays:"@, ""@]);
    let mut i: usize = 0;
    while i < shown.len()
        invariant
            i <= shown.len(),
            forall|k: int| 0 <= k < shown@.len() ==> (#[trigger] shown@[k]).is_in(*set),
            line_views(lines@) == list_lines(*set, shown@, i as int),
        decreases shown.len() - i,
    {
        let display: Display = shown[i];
        let ghost before = line_views(lines@);
        push_identity(&mut lines, set, &display);
        push_settings(&mut lines, display.settings(set));
        push_text(&mut lines, "");
        assert(line_views(lines@) =~= before + list_item(
            display.position(),
            display.of(*set),
            set@.primary == display.position(),
        ));
        i = i + 1;
    }
    lines
}

/// The sentence for an index without a display.
pub fn not_found(id: usize) -> (text: String)
    ensures
        text@ == "Display with id "@ + crate::text::decimal(id as nat) + " not found"@,
{
    let number = decimal_text(id as u64);
    "Display with id ".to_owned().concat(number.as_str()).concat(" not found")
}

/// The line for the current topology.
pub fn topology_report(topology: &Topology) -> (line: String)
    ensures
        line@ == "Topology: "@ + topology.as_text(),
{
    let name = topology.text();
    "Topology: ".to_owned().concat(name.as_str())
}

/// The lines for the first `n` stored topologies.
pub open spec fn stored_lines(stored: Seq<(Topology, bool)>, n: int) -> Seq<Seq<char>>
    decreases n,
{
    if n <= 0 {
        seq!["Stored topologies for current display set:"@]
    } else {
        let (topology, is_current) = stored[n - 1];
        stored_lines(stored, n - 1).push(
            if is_current {
                "  * "@ + topology.as_text() + " (current)"@
            } else {
                "    "@ + topology.as_text()
            },
        )
    }
}

/// All that is shown of the stored topologies.
pub fn stored_report(stored: &Vec<(Topology, bool)>) -> (lines: Vec<String>)
    ensures
        line_views(lines@) == if stored@.len() == 0 {
            seq!["No stored topologies found for the current display set."@]
        } else {
            stored_lines(stored@, stored@.len() as int)
        },
{
    let mut lines: Vec<String> = Vec::new();
    assert(line_views(lines@) =~= Seq::empty());
    if stored.len() == 0 {
        push_text(&mut lines, "No stored topologies found for the current display set.");
        assert(line_views(lines@)
            =~= seq!["No stored topologies found for the current display set."@]);
        return lines;
    }
    push_text(&mut lines, "Stored topologies for current display set:");
    assert(line_views(lines@) =~= seq!["Stored topologies for current display set:"@]);
    let mut i: usize = 0;
    while i < stored.len()
        invariant
            i <= stored.len(),
            line_views(lines@) == stored_lines(stored@, i as int),
        decreases stored.len() - i,
    {
        let name = stored[i].0.text();
        if stored[i].1 {
            let marked = name.concat(" (current)");
            push_line(&mut lines, "  * ", marked.as_str());
            assert("  * "@ + marked@ =~= "  * "@ + stored@[i as int].0.as_text() + " (current)"@);
        } else {
            push_line(&mut lines, "    ", name.as_str());
        }
        i = i + 1;
    }
    lines
}

/// The calendar times of the timestamps of an entry, where there are any.
#[derive(Clone, Copy, Debug)]
pub struct EntryTimes {
    pub internal: Option<CalendarTime>,
    pub external: Option<CalendarTime>,
    pub extend: Option<CalendarTime>,
    pub clone: Option<CalendarTime>,
}

/// A topology that has a stored configuration, with the time when it was last
/// saved, if that is known; nothing where it has none.
pub open spec fn saved_topology(
    name: Seq<char>,
    config_id: Option<String>,
    timestamp: Option<u64>,
    converted: Option<CalendarTime>,
) -> Seq<Seq<char>> {
    match config_id {
        None => Seq::empty(),
        Some(_) => match timestamp {
            Some(timestamp) => seq![
                name + " ["@ + crate::clock::filetime_text(timestamp, converted) + "]"@,
            ],
            None => seq![name],
        },
    }
}

/// The topologies of an entry that have stored configurations.
pub open spec fn saved_topologies(entry: ConnectivityEntry, times: EntryTimes) -> Seq<Seq<char>> {
    saved_topology("Internal"@, entry.internal, entry.internal_timestamp, times.internal)
        + saved_topology("External"@, entry.external, entry.external_timestamp, times.external)
        + saved_topology("Extend"@, entry.extend, entry.extend_timestamp, times.extend)
        + saved_topology("Clone"@, entry.clone, entry.clone_timestamp, times.clone)
}

/// Adds a topology that has a stored configuration.
fn push_saved(
    saved: &mut Vec<String>,
    name: &str,
    config_id: &Option<String>,
    timestamp: Option<u64>,
    converted: Option<CalendarTime>,
)
    ensures
        line_views(final(saved)@) == line_views(old(saved)@) + saved_topology(
            name@,
            *config_id,
            timestamp,
            converted,
        ),
{
    let ghost before = line_views(saved@);
    if config_id.is_some() {
        match timestamp {
            Some(timestamp) => {
                let time = format_filetime(timestamp, converted);
                let suffix = " [".to_owned().concat(time.as_str()).concat("]");
                push_line(saved, name, suffix.as_str());
                assert(name@ + suffix@ =~= name@ + " ["@ + crate::clock::filetime_text(
                    timestamp,
                    converted,
                ) + "]"@);
            },
            None => {
                push_text(saved, name);
            },
        }
    }
    assert(line_views(saved@) =~= before + saved_topology(
        name@,
        *config_id,
        timestamp,
        converted,
    ));
}

/// The name of the topology that will be applied next, or that it is unknown.
pub open spec fn remembered(entry: ConnectivityEntry) -> Seq<char> {
    match entry.recent_name() {
        Some(name) => name,
        None => "Unknown"@,
    }
}

/// What is shown of a display set.
pub open spec fn entry_lines(
    entry: ConnectivityEntry,
    current: bool,
    include_orphaned: bool,
    times: EntryTimes,
) -> Seq<Seq<char>> {
    let saved = saved_topologies(entry, times);
    let orphaned = entry.internal_timestamp is None && entry.external_timestamp is None
        && entry.extend_timestamp is None && entry.clone_timestamp is None;
    seq![
        "Display set:"@ + if current {
            " [current set]"@
        } else {
            ""@
        },
        "  Monitors:   "@ + entry.set_id@,
        "  Full key:   "@ + entry.key_name@,
        "  Remembered: "@ + remembered(entry),
        "  Available:  "@ + if saved.len() == 0 {
            "(none)"@
        } else {
            crate::text::join(saved, ", "@)
        },
    ] + if include_orphaned && orphaned {
        seq!["  Has configuration key: false"@]
    } else {
        Seq::empty()
    } + seq![""@]
}

/// What is shown of a display set.
pub fn entry_report(
    entry: &ConnectivityEntry,
    current: bool,
    include_orphaned: bool,
    times: &EntryTimes,
) -> (lines: Vec<String>)
    ensures
        line_views(lines@) == entry_lines(*entry, current, include_orphaned, *times),
{
    let mut lines: Vec<String> = Vec::new();
    let mut saved: Vec<String> = Vec::new();
    assert(line_views(lines@) =~= Seq::empty());
    push_saved(&mut saved, "Internal", &entry.internal, entry.internal_timestamp, times.internal);
    push_saved(&mut saved, "External", &entry.external, entry.external_timestamp, times.external);
    push_saved(&mut saved, "Extend", &entry.extend, entry.extend_timestamp, times.extend);
    push_saved(&mut saved, "Clone", &entry.clone, entry.clone_timestamp, times.clone);
    assert(line_views(saved@) =~= saved_topologies(*entry, *times));
    push_line(&mut lines, "Display set:", if current { " [current set]" } else { "" });
    push_line(&mut lines, "  Monitors:   ", entry.set_id.as_str());
    push_line(&mut lines, "  Full key:   ", entry.key_name.as_str());
    match entry.recent_topology() {
        Some(name) => {
            push_line(&mut lines, "  Remembered: ", name);
        },
        None => {
            push_line(&mut lines, "  Remembered: ", "Unknown");
        },
    }
    if saved.len() == 0 {
        push_line(&mut lines, "  Available:  ", "(none)");
    } else {
        let available = join_text(&saved, ", ");
        push_line(&mut lines, "  Available:  ", available.as_str());
    }
    if include_orphaned && !entry.has_any_configuration_key() {
        push_text(&mut lines, "  Has configuration key: false");
    }
    push_text(&mut lines, "");
    assert(line_views(lines@) =~= entry_lines(*entry, current, include_orphaned, *times));
    lines
}

/// What is shown of a configuration entry that no display set refers to.
pub open spec fn orphan_lines(
    orphan: OrphanedConfigEntry,
    converted: Option<CalendarTime>,
) -> Seq<Seq<char>> {
    seq![
        "Configuration entry:"@,
        "  Config ID:  "@ + orphan.config_id@,
        "  Full key:   "@ + orphan.key_name@,
        "  Timestamp:  "@ + crate::clock::filetime_text(orphan.timestamp, converted),
        "  Has connectivity key: false"@,
        ""@,
    ]
}

/// What is shown of a configuration entry that no display set refers to.
pub fn orphan_report(orphan: &OrphanedConfigEntry, converted: Option<CalendarTime>) -> (lines: Vec<
    String,
>)
    ensures
        line_views(lines@) == orphan_lines(*orphan, converted),
{
    let mut lines: Vec<String> = Vec::new();
    assert(line_views(lines@) =~= Seq::empty());
    let time = format_filetime(orphan.timestamp, converted);
    push_text(&mut lines, "Configuration entry:");
    push_line(&mut lines, "  Config ID:  ", orphan.config_id.as_str());
    push_line(&mut lines, "  Full key:   ", orphan.key_name.as_str());
    push_line(&mut lines, "  Timestamp:  ", time.as_str());
    push_text(&mut lines, "  Has connectivity key: false");
    push_text(&mut lines, "");
    assert(line_views(lines@) =~= orphan_lines(*orphan, converted));
    lines
}

/// What is shown of the entries at the first `n` places of a listing.
pub open spec fn listing_lines(
    entries: Seq<ConnectivityEntry>,
    codes: Seq<Seq<char>>,
    include_orphaned: bool,
    times: Seq<EntryTimes>,
    order: Seq<usize>,
    n: int,
) -> Seq<Seq<char>>
    decreases n,
{
    if n <= 0 {
        Seq::empty()
    } else {
        let k = order[n - 1] as int;
        listing_lines(entries, codes, include_orphaned, times, order, n - 1) + entry_lines(
            entries[k],
            crate::display_sets::current_entry(entries[k], codes),
            include_orphaned,
            times[k],
        )
    }
}

/// What is shown of the first `n` orphans.
pub open spec fn orphan_list_lines(
    orphans: Seq<OrphanedConfigEntry>,
    times: Seq<Option<CalendarTime>>,
    n: int,
) -> Seq<Seq<char>>
    decreases n,
{
    if n <= 0 {
        Seq::empty()
    } else {
        orphan_list_lines(orphans, times, n - 1) + orphan_lines(orphans[n - 1], times[n - 1])
    }
}

/// All that is shown where the display sets are asked for, given the listing of
/// the entries. Orphans are shown where they are asked for.
pub open spec fn database_lines(
    entries: Seq<ConnectivityEntry>,
    orphans: Seq<OrphanedConfigEntry>,
    codes: Seq<Seq<char>>,
    include_orphaned: bool,
    times: Seq<EntryTimes>,
    orphan_times: Seq<Option<CalendarTime>>,
    order: Seq<usize>,
) -> Seq<Seq<char>> {
    (if entries.len() == 0 {
        seq!["No connectivity entries found (try running as administrator)."@]
    } else {
        Seq::empty()
    }) + listing_lines(
        entries,
        codes,
        include_orphaned,
        times,
        order,
        order.len() as int,
    ) + if include_orphaned {
        orphan_list_lines(orphans, orphan_times, orphans.len() as int)
    } else {
        Seq::empty()
    }
}

/// Adds several lines.
fn push_lines(lines: &mut Vec<String>, more: Vec<String>)
    ensures
        line_views(final(lines)@) == line_views(old(lines)@) + line_views(more@),
{
    let ghost before = lines@;
    let ghost added = more@;
    let mut more: Vec<String> = more;
    lines.append(&mut more);
    assert(line_views(lines@) =~= line_views(before) + line_views(added));
}

/// All that is shown where the display sets are asked for. `codes` are those of
/// the connected monitors, `times` the calendar times of the entries, and
/// `orphan_times` those of the orphans.
pub fn database_report(
    entries: &Vec<ConnectivityEntry>,
    orphans: &Vec<OrphanedConfigEntry>,
    codes: &Vec<String>,
    include_orphaned: bool,
    include_empty: bool,
    times: &Vec<EntryTimes>,
    orphan_times: &Vec<Option<CalendarTime>>,
) -> (lines: Vec<String>)
    requires
        times@.len() == entries@.len(),
        orphan_times@.len() == orphans@.len(),
    ensures
        exists|order: Seq<usize>|
            {
                &&& #[trigger] crate::display_sets::is_listing(
                    entries@,
                    crate::display_sets::text_views(codes@),
                    include_orphaned,
                    include_empty,
                    order,
                )
                &&& line_views(lines@) == database_lines(
                    entries@,
                    orphans@,
                    crate::display_sets::text_views(codes@),
                    include_orphaned,
                    times@,
                    orphan_times@,
                    order,
                )
            },
{
    let ghost views = crate::display_sets::text_views(codes@);
    let mut lines: Vec<String> = Vec::new();
    assert(line_views(lines@) =~= Seq::empty());
    if entries.len() == 0 {
        push_text(&mut lines, "No connectivity entries found (try running as administrator).");
    }
    let ghost head = line_views(lines@);
    let order: Vec<usize> = listing(entries, codes, include_orphaned, include_empty);
    let mut i: usize = 0;
    assert(line_views(lines@) =~= head + Seq::<Seq<char>>::empty());
    while i < order.len()
        invariant
            views == crate::display_sets::text_views(codes@),
            times@.len() == entries@.len(),
            forall|k: int| 0 <= k < order@.len() ==> (#[trigger] order@[k]) < entries@.len(),
            i <= order.len(),
            line_views(lines@) == head + listing_lines(
                entries@,
                views,
                include_orphaned,
                times@,
                order@,
                i as int,
            ),
        decreases order.len() - i,
    {
        let k: usize = order[i];
        let ghost before = line_views(lines@);
        let current: bool = is_current(&entries[k], codes);
        push_lines(&mut lines, entry_report(&entries[k], current, include_orphaned, &times[k]));
        i = i + 1;
        assert(line_views(lines@) =~= head + listing_lines(
            entries@,
            views,
            include_orphaned,
            times@,
            order@,
            i as int,
        ));
    }
    let ghost listed = line_views(lines@);
    if include_orphaned {
        let mut j: usize = 0;
        assert(line_views(lines@) =~= listed + Seq::<Seq<char>>::empty());
        while j < orphans.len()
            invariant
                orphan_times@.len() == orphans@.len(),
                j <= orphans.len(),
                line_views(lines@) == listed + orphan_list_lines(
                    orphans@,
                    orphan_times@,
                    j as int,
                ),
            decreases orphans.len() - j,
        {
            push_lines(&mut lines, orphan_report(&orphans[j], orphan_times[j]));
            j = j + 1;
            assert(line_views(lines@) =~= listed + orphan_list_lines(
                orphans@,
                orphan_times@,
                j as int,
            ));
        }
    }
    assert(line_views(lines@) =~= database_lines(
        entries@,
        orphans@,
        views,
        include_orphaned,
        times@,
        orphan_times@,
        order@,
    ));
    lines
}

/// As many topologies of a display set are shown as available as have a stored
/// configuration; so none is if and only if there is no stored configuration.
pub proof fn law_nothing_available(entry: ConnectivityEntry, times: EntryTimes)
    ensures
        saved_topologies(entry, times).len() == entry.available_names().len(),
{
}

} // verus!
