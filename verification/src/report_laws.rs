//! What the lines of a report say.

use vstd::prelude::*;

use crate::clock::CalendarTime;
use crate::connectivity::{ConnectivityEntry, OrphanedConfigEntry};
use crate::display::{Display, DisplaySet};
use crate::properties::{DisplayProperties, DisplaySettings};
use crate::report::EntryTimes;
use crate::topology::Topology;

verus! {

/// A display is shown with its index, the number one above it, its names, its key
/// and whether it is the primary one and available. The connector is shown if and
/// only if it is known.
pub proof fn law_identity_lines(index: nat, display: DisplayProperties, primary: bool)
    ensures
        ({
            let lines = crate::report::identity_lines(index as int, display, primary);
            &&& lines.len() == if display.connector_type is Some { 8int } else { 7int }
            &&& lines[0] == "Display ID: "@ + crate::text::decimal(index)
            &&& lines[1] == "Windows Display Number: "@ + crate::text::decimal(index + 1)
            &&& lines[2] == "Name:       "@ + display.name@
            &&& lines[3] == "String:     "@ + display.string@
            &&& lines[4] == "Key:        "@ + display.key@
            &&& primary ==> lines[5] == "Primary:    "@ + "true"@
            &&& !primary ==> lines[5] == "Primary:    "@ + "false"@
            &&& display.connector_type matches Some(connector) ==> lines[6] == "Connector:  "@
                + connector.as_text()
            &&& display.target_available ==> lines.last() == "Available:  "@ + "true"@
            &&& !display.target_available ==> lines.last() == "Available:  "@ + "false"@
        }),
{
}

/// The settings of a display are shown one by one; a display without settings is
/// shown as inactive.
pub proof fn law_settings_lines(settings: DisplaySettings)
    ensures
        crate::report::settings_lines(None) == seq!["Settings:   None (Inactive)"@],
        ({
            let lines = crate::report::settings_lines(Some(settings));
            &&& lines.len() == 8
            &&& lines[0] == "Settings:"@
            &&& lines[1] == "  Position:          "@ + settings.position.as_text()
            &&& lines[2] == "  Resolution:        "@ + settings.resolution.as_text()
            &&& lines[3] == "  Frequency:         "@ + crate::text::decimal(
                settings.frequency.0 as nat,
            ) + " Hz"@
            &&& lines[4] == "  Orientation:       "@ + settings.orientation.as_text()
            &&& lines[5] == "  Scaling:           "@ + settings.scaling.as_text()
            &&& lines[6] == "  Bit Depth:         "@ + crate::text::decimal(
                settings.bit_depth.0 as nat,
            )
            &&& lines[7] == "  Scanline Ordering: "@ + settings.scanline_ordering.as_text()
        }),
{
}

/// The list of displays has a heading and an empty line, and behind it each display
/// that is shown, with its settings and an empty line, in order.
pub proof fn law_list_lines(set: DisplaySet, shown: Seq<Display>, n: int)
    ensures
        crate::report::list_lines(set, shown, 0) == seq!["All Displays:"@, ""@],
        0 <= n < shown.len() ==> ({
            let index = shown[n].position();
            let display = set@.displays[index];
            crate::report::list_lines(set, shown, n + 1) == crate::report::list_lines(set, shown, n)
                + crate::report::identity_lines(index, display, set@.primary == index)
                + crate::report::settings_lines(display.settings) + seq![""@]
        }),
{
    if 0 <= n < shown.len() {
        let index = shown[n].position();
        let display = set@.displays[index];
        assert(crate::report::list_lines(set, shown, n + 1) =~= crate::report::list_lines(
            set,
            shown,
            n,
        ) + crate::report::identity_lines(index, display, set@.primary == index)
            + crate::report::settings_lines(display.settings) + seq![""@]);
    }
}

/// Each stored topology has a line of its own behind the heading, and the current
/// one is marked.
pub proof fn law_stored_lines(stored: Seq<(Topology, bool)>, n: int, k: int)
    requires
        0 <= k < n <= stored.len(),
    ensures
        ({
            let lines = crate::report::stored_lines(stored, n);
            &&& lines.len() == n + 1
            &&& lines[0] == "Stored topologies for current display set:"@
            &&& stored[k].1 ==> lines[k + 1] == "  * "@ + stored[k].0.as_text() + " (current)"@
            &&& !stored[k].1 ==> lines[k + 1] == "    "@ + stored[k].0.as_text()
        }),
    decreases n,
{
    if k < n - 1 {
        law_stored_lines(stored, n - 1, k);
    } else if n > 1 {
        law_stored_lines(stored, n - 1, 0);
    } else {
        assert(crate::report::stored_lines(stored, 0).len() == 1);
    }
}

/// What is shown of a topology that has a stored configuration: its name, and in
/// brackets the time when it was last saved, if that is known.
pub open spec fn with_time(
    name: Seq<char>,
    timestamp: Option<u64>,
    converted: Option<CalendarTime>,
) -> Seq<char> {
    match timestamp {
        Some(timestamp) => name + " ["@ + crate::clock::filetime_text(timestamp, converted) + "]"@,
        None => name,
    }
}

/// The topologies that are shown are those with a stored configuration, in the
/// order internal, external, extend, clone. Each has its own name and its own time.
pub proof fn law_saved_topologies(entry: ConnectivityEntry, times: EntryTimes)
    ensures
        ({
            let saved = crate::report::saved_topologies(entry, times);
            let internal: int = if entry.internal is Some { 1 } else { 0 };
            let external: int = if entry.external is Some { 1 } else { 0 };
            let extend: int = if entry.extend is Some { 1 } else { 0 };
            let clone: int = if entry.clone is Some { 1 } else { 0 };
            &&& saved.len() == internal + external + extend + clone
            &&& entry.internal is Some ==> saved[0] == with_time(
                "Internal"@,
                entry.internal_timestamp,
                times.internal,
            )
            &&& entry.external is Some ==> saved[internal] == with_time(
                "External"@,
                entry.external_timestamp,
                times.external,
            )
            &&& entry.extend is Some ==> saved[internal + external] == with_time(
                "Extend"@,
                entry.extend_timestamp,
                times.extend,
            )
            &&& entry.clone is Some ==> saved[internal + external + extend] == with_time(
                "Clone"@,
                entry.clone_timestamp,
                times.clone,
            )
        }),
{
}

/// The names that are shown as available are those of the available topologies:
/// each shown text begins with the name in the same place, and is that name where
/// no timestamp is known.
pub proof fn law_saved_names(entry: ConnectivityEntry, times: EntryTimes, k: int)
    requires
        0 <= k < entry.available_names().len(),
    ensures
        ({
            let saved = crate::report::saved_topologies(entry, times);
            let names = entry.available_names();
            &&& saved.len() == names.len()
            &&& crate::text::starts_with(saved[k], names[k])
            &&& entry.internal_timestamp is None && entry.external_timestamp is None
                && entry.extend_timestamp is None && entry.clone_timestamp is None ==> saved[k]
                == names[k]
        }),
{
    law_saved_topologies(entry, times);
    crate::connectivity_laws::law_available_names(entry);
    let saved = crate::report::saved_topologies(entry, times);
    let names = entry.available_names();
    assert(saved[k].take(names[k].len() as int) =~= names[k]);
}

/// A display set is shown with its monitors, its key, the topology that is
/// remembered and those that are available. The current set is marked, and that no
/// configuration key was found is told where orphaned entries are asked for.
pub proof fn law_entry_lines(
    entry: ConnectivityEntry,
    current: bool,
    include_orphaned: bool,
    times: EntryTimes,
)
    ensures
        ({
            let lines = crate::report::entry_lines(entry, current, include_orphaned, times);
            let saved = crate::report::saved_topologies(entry, times);
            let orphaned = entry.internal_timestamp is None && entry.external_timestamp is None
                && entry.extend_timestamp is None && entry.clone_timestamp is None;
            &&& lines.len() == if include_orphaned && orphaned { 7int } else { 6int }
            &&& current ==> lines[0] == "Display set:"@ + " [current set]"@
            &&& !current ==> lines[0] == "Display set:"@ + ""@
            &&& lines[1] == "  Monitors:   "@ + entry.set_id@
            &&& lines[2] == "  Full key:   "@ + entry.key_name@
            &&& entry.recent_name() matches Some(name) ==> lines[3] == "  Remembered: "@ + name
            &&& entry.recent_name() is None ==> lines[3] == "  Remembered: "@ + "Unknown"@
            &&& saved.len() == 0 ==> lines[4] == "  Available:  "@ + "(none)"@
            &&& saved.len() > 0 ==> lines[4] == "  Available:  "@ + crate::text::join(saved, ", "@)
            &&& include_orphaned && orphaned ==> lines[5] == "  Has configuration key: false"@
            &&& lines.last() == ""@
        }),
{
}

/// An orphan is shown with its ID, its key and its time.
pub proof fn law_orphan_lines(orphan: OrphanedConfigEntry, converted: Option<CalendarTime>)
    ensures
        ({
            let lines = crate::report::orphan_lines(orphan, converted);
            &&& lines.len() == 6
            &&& lines[0] == "Configuration entry:"@
            &&& lines[1] == "  Config ID:  "@ + orphan.config_id@
            &&& lines[2] == "  Full key:   "@ + orphan.key_name@
            &&& lines[3] == "  Timestamp:  "@ + crate::clock::filetime_text(
                orphan.timestamp,
                converted,
            )
            &&& lines[4] == "  Has connectivity key: false"@
            &&& lines[5] == ""@
        }),
{
}

/// The display sets are shown in the order of the listing, each with its own times
/// and marked if and only if it is the current one.
pub proof fn law_listing_lines(
    entries: Seq<ConnectivityEntry>,
    codes: Seq<Seq<char>>,
    include_orphaned: bool,
    times: Seq<EntryTimes>,
    order: Seq<usize>,
    n: int,
)
    ensures
        crate::report::listing_lines(entries, codes, include_orphaned, times, order, 0).len() == 0,
        0 <= n < order.len() ==> ({
            let k = order[n] as int;
            crate::report::listing_lines(entries, codes, include_orphaned, times, order, n + 1)
                == crate::report::listing_lines(entries, codes, include_orphaned, times, order, n)
                + crate::report::entry_lines(
                entries[k],
                crate::display_sets::current_entry(entries[k], codes),
                include_orphaned,
                times[k],
            )
        }),
{
}

/// The orphans are shown one after the other, each with its own time.
pub proof fn law_orphan_list_lines(
    orphans: Seq<OrphanedConfigEntry>,
    times: Seq<Option<CalendarTime>>,
    n: int,
)
    ensures
        crate::report::orphan_list_lines(orphans, times, 0).len() == 0,
        0 <= n < orphans.len() ==> crate::report::orphan_list_lines(orphans, times, n + 1)
            == crate::report::orphan_list_lines(orphans, times, n) + crate::report::orphan_lines(
            orphans[n],
            times[n],
        ),
{
}

/// An empty database is told. The display sets come next, and the orphans last and
/// only where they are asked for.
pub proof fn law_database_lines(
    entries: Seq<ConnectivityEntry>,
    orphans: Seq<OrphanedConfigEntry>,
    codes: Seq<Seq<char>>,
    times: Seq<EntryTimes>,
    orphan_times: Seq<Option<CalendarTime>>,
    order: Seq<usize>,
)
    ensures
        ({
            let plain = crate::report::database_lines(
                entries,
                orphans,
                codes,
                false,
                times,
                orphan_times,
                order,
            );
            let full = crate::report::database_lines(
                entries,
                orphans,
                codes,
                true,
                times,
                orphan_times,
                order,
            );
            let sets = crate::report::listing_lines(
                entries,
                codes,
                false,
                times,
                order,
                order.len() as int,
            );
            let all_sets = crate::report::listing_lines(
                entries,
                codes,
                true,
                times,
                order,
                order.len() as int,
            );
            let rest = crate::report::orphan_list_lines(
                orphans,
                orphan_times,
                orphans.len() as int,
            );
            let notice = seq!["No connectivity entries found (try running as administrator)."@];
            &&& entries.len() == 0 ==> plain == notice + sets && full == notice + all_sets + rest
            &&& entries.len() > 0 ==> plain == sets && full == all_sets + rest
        }),
{
    let sets = crate::report::listing_lines(
        entries,
        codes,
        false,
        times,
        order,
        order.len() as int,
    );
    let all_sets = crate::report::listing_lines(
        entries,
        codes,
        true,
        times,
        order,
        order.len() as int,
    );
    let none = Seq::<Seq<char>>::empty();
    let notice = seq!["No connectivity entries found (try running as administrator)."@];
    assert(none + sets + none =~= sets);
    assert(none + all_sets =~= all_sets);
    assert(notice + sets + none =~= notice + sets);
}

} // verus!
