//! Which stored display set belongs to the connected monitors, and in which
//! order display sets are listed.

use vstd::prelude::*;

use crate::connectivity::ConnectivityEntry;
use crate::display::{Display, DisplaySet};
use crate::properties::DisplayProperties;
use crate::text::{begins_with, split_text};

verus! {

/// The code of the model in the device path of a monitor, such as `DEL430F` in
/// `\\?\DISPLAY#DEL430F#5&155a3a47&0&UID4353`: the second of the parts between
/// the number signs.
pub open spec fn model_code(key: Seq<char>) -> Option<Seq<char>> {
    let parts = crate::text::split(key, '#');
    if parts.len() > 1 {
        Some(parts[1])
    } else {
        None
    }
}

/// The codes of the models of the connected monitors.
pub open spec fn connected_codes(displays: Seq<DisplayProperties>) -> Seq<Seq<char>>
    decreases displays.len(),
{
    if displays.len() == 0 {
        Seq::empty()
    } else {
        let front = connected_codes(displays.drop_last());
        let last = displays.last();
        match model_code(last.key@) {
            Some(code) => if last.target_available {
                front.push(code)
            } else {
                front
            },
            None => front,
        }
    }
}

/// A code is among those of the connected monitors if and only if a display with
/// a connected monitor has it in its device path.
pub proof fn law_connected_codes(displays: Seq<DisplayProperties>, code: Seq<char>)
    ensures
        connected_codes(displays).contains(code) <==> exists|i: int|
            0 <= i < displays.len() && (#[trigger] displays[i]).target_available && model_code(
                displays[i].key@,
            ) == Some(code),
    decreases displays.len(),
{
    if displays.len() > 0 {
        let shorter = displays.drop_last();
        let last = displays.last();
        let front = connected_codes(shorter);
        let all = connected_codes(displays);
        law_connected_codes(shorter, code);
        assert(displays[displays.len() - 1] == last);
        if front.contains(code) {
            let k = choose|k: int| 0 <= k < front.len() && front[k] == code;
            assert(all[k] == code);
            let i = choose|i: int|
                0 <= i < shorter.len() && (#[trigger] shorter[i]).target_available && model_code(
                    shorter[i].key@,
                ) == Some(code);
            assert(displays[i] == shorter[i]);
        }
        if last.target_available && model_code(last.key@) == Some(code) {
            assert(all[all.len() - 1] == code);
        }
        if all.contains(code) && !front.contains(code) {
            let k = choose|k: int| 0 <= k < all.len() && all[k] == code;
            if k < front.len() {
                assert(front[k] == code);
            }
        }
        if exists|i: int|
            0 <= i < displays.len() && (#[trigger] displays[i]).target_available && model_code(
                displays[i].key@,
            ) == Some(code) {
            let i = choose|i: int|
                0 <= i < displays.len() && (#[trigger] displays[i]).target_available
                    && model_code(displays[i].key@) == Some(code);
            if i < shorter.len() {
                assert(shorter[i] == displays[i]);
            }
        }
    }
}

/// Texts as sequences of characters.
pub open spec fn text_views(texts: Seq<String>) -> Seq<Seq<char>> {
    texts.map_values(|text: String| text@)
}

/// The code of the model in the device path of a monitor.
pub fn model_code_of(key: &str) -> (code: Option<&str>)
    ensures
        match code {
            Some(code) => model_code(key@) == Some(code@),
            None => model_code(key@) is None,
        },
{
    let parts = split_text(key, '#');
    let ghost views = parts@.map_values(|part: &str| part@);
    if parts.len() > 1 {
        assert(views[1] == parts[1]@);
        Some(parts[1])
    } else {
        None
    }
}

/// The codes of the models of the connected monitors, in the order of the displays.
pub fn current_prefixes(set: &DisplaySet) -> (codes: Vec<String>)
    ensures
        text_views(codes@) == connected_codes(set@.displays),
{
    let displays: Vec<Display> = set.displays();
    let mut codes: Vec<String> = Vec::new();
    let mut i: usize = 0;
    assert(set@.displays.take(0) =~= Seq::empty());
    assert(text_views(codes@) =~= Seq::empty());
    while i < displays.len()
        invariant
            i <= displays.len(),
            displays@.len() == set@.displays.len(),
            forall|k: int| 0 <= k < displays@.len() ==> (#[trigger] displays@[k]).position() == k,
            text_views(codes@) == connected_codes(set@.displays.take(i as int)),
        decreases displays.len() - i,
    {
        let display: Display = displays[i];
        let ghost earlier = codes@;
        proof {
            let longer = set@.displays.take(i + 1);
            assert(longer.drop_last() =~= set@.displays.take(i as int));
            assert(longer.last() == display.of(*set));
        }
        if display.target_available(set) {
            if let Some(code) = model_code_of(display.key(set)) {
                codes.push(code.to_owned());
                assert(text_views(codes@) =~= text_views(earlier).push(code@));
            }
        }
        i = i + 1;
    }
    assert(set@.displays.take(i as int) =~= set@.displays);
    codes
}

/// Whether a prefix and a code can belong to the same model: one of them begins
/// with the other.
pub open spec fn same_model(prefix: Seq<char>, code: Seq<char>) -> bool {
    crate::text::starts_with(code, prefix) || crate::text::starts_with(prefix, code)
}

/// Whether a prefix can belong to one of the codes.
pub open spec fn matches_one(prefix: Seq<char>, codes: Seq<Seq<char>>) -> bool {
    exists|j: int| 0 <= j < codes.len() && same_model(prefix, #[trigger] codes[j])
}

/// Whether monitors with these prefixes can be those with these codes: there are
/// as many of them, and each matches one.
pub open spec fn same_monitors(prefixes: Seq<Seq<char>>, codes: Seq<Seq<char>>) -> bool {
    &&& prefixes.len() == codes.len()
    &&& forall|i: int| 0 <= i < prefixes.len() ==> matches_one(#[trigger] prefixes[i], codes)
}

/// Whether the entry is that of the connected monitors.
pub open spec fn current_entry(entry: ConnectivityEntry, codes: Seq<Seq<char>>) -> bool {
    same_monitors(
        crate::connectivity::model_prefixes(crate::text::split(entry.set_id@, '^')),
        codes,
    )
}

/// Whether a prefix can belong to one of the codes.
fn matches_any(prefix: &str, codes: &Vec<String>) -> (yes: bool)
    ensures
        yes == matches_one(prefix@, text_views(codes@)),
{
    let ghost views = text_views(codes@);
    let mut j: usize = 0;
    while j < codes.len()
        invariant
            views == text_views(codes@),
            j <= codes.len(),
            forall|k: int| 0 <= k < j ==> !same_model(prefix@, #[trigger] views[k]),
        decreases codes.len() - j,
    {
        let code = codes[j].as_str();
        assert(views[j as int] == code@);
        if begins_with(code, prefix) || begins_with(prefix, code) {
            assert(same_model(prefix@, views[j as int]));
            return true;
        }
        j = j + 1;
    }
    false
}

/// Whether the entry is that of the connected monitors.
pub fn is_current(entry: &ConnectivityEntry, codes: &Vec<String>) -> (current: bool)
    ensures
        current == current_entry(*entry, text_views(codes@)),
        current <==> {
            let prefixes = crate::connectivity::model_prefixes(
                crate::text::split(entry.set_id@, '^'),
            );
            &&& prefixes.len() == codes@.len()
            &&& forall|i: int|
                0 <= i < prefixes.len() ==> matches_one(#[trigger] prefixes[i], text_views(codes@))
        },
{
    let prefixes = entry.monitor_prefixes();
    let ghost views = prefixes@.map_values(|prefix: &str| prefix@);
    if prefixes.len() != codes.len() {
        return false;
    }
    let mut i: usize = 0;
    while i < prefixes.len()
        invariant
            views == prefixes@.map_values(|prefix: &str| prefix@),
            views == crate::connectivity::model_prefixes(crate::text::split(entry.set_id@, '^')),
            i <= prefixes.len(),
            forall|k: int| 0 <= k < i ==> matches_one(#[trigger] views[k], text_views(codes@)),
        decreases prefixes.len() - i,
    {
        assert(views[i as int] == prefixes[i as int]@);
        if !matches_any(prefixes[i], codes) {
            return false;
        }
        i = i + 1;
    }
    true
}

/// The first entry that is that of the connected monitors.
pub fn find_current(entries: &Vec<ConnectivityEntry>, codes: &Vec<String>) -> (found: Option<
    usize,
>)
    ensures
        match found {
            Some(i) => {
                &&& i < entries@.len()
                &&& current_entry(entries@[i as int], text_views(codes@))
                &&& forall|j: int|
                    0 <= j < i ==> !current_entry(#[trigger] entries@[j], text_views(codes@))
            },
            None => forall|j: int|
                0 <= j < entries@.len() ==> !current_entry(
                    #[trigger] entries@[j],
                    text_views(codes@),
                ),
        },
{
    let mut i: usize = 0;
    while i < entries.len()
        invariant
            i <= entries.len(),
            forall|j: int|
                0 <= j < i ==> !current_entry(#[trigger] entries@[j], text_views(codes@)),
        decreases entries.len() - i,
    {
        if is_current(&entries[i], codes) {
            return Some(i);
        }
        i = i + 1;
    }
    None
}

/// A timestamp, or zero where it is missing.
pub open spec fn or_zero(timestamp: Option<u64>) -> u64 {
    match timestamp {
        Some(timestamp) => timestamp,
        None => 0,
    }
}

/// The larger of two timestamps.
pub open spec fn later(a: u64, b: u64) -> u64 {
    if a >= b {
        a
    } else {
        b
    }
}

/// The latest timestamp of an entry; zero where it has none.
pub open spec fn latest(entry: ConnectivityEntry) -> u64 {
    later(
        later(or_zero(entry.internal_timestamp), or_zero(entry.external_timestamp)),
        later(or_zero(entry.extend_timestamp), or_zero(entry.clone_timestamp)),
    )
}

/// The later of a timestamp that may be missing and one that is there.
fn later_of(timestamp: Option<u64>, other: u64) -> (result: u64)
    ensures
        result == later(or_zero(timestamp), other),
{
    match timestamp {
        Some(timestamp) => if timestamp >= other {
            timestamp
        } else {
            other
        },
        None => other,
    }
}

/// The latest timestamp of an entry; zero where it has none.
pub fn max_timestamp(entry: &ConnectivityEntry) -> (timestamp: u64)
    ensures
        timestamp == latest(*entry),
        entry.internal_timestamp matches Some(t) ==> t <= timestamp,
        entry.external_timestamp matches Some(t) ==> t <= timestamp,
        entry.extend_timestamp matches Some(t) ==> t <= timestamp,
        entry.clone_timestamp matches Some(t) ==> t <= timestamp,
        timestamp == 0 || entry.internal_timestamp == Some(timestamp) || entry.external_timestamp
            == Some(timestamp) || entry.extend_timestamp == Some(timestamp) || entry.clone_timestamp
            == Some(timestamp),
{
    let first: u64 = later_of(entry.clone_timestamp, 0);
    let second: u64 = later_of(entry.extend_timestamp, first);
    let third: u64 = later_of(entry.external_timestamp, second);
    later_of(entry.internal_timestamp, third)
}

/// Whether entry `a` is listed before entry `b`: current entries come first, of
/// these and of the others the ones saved last, and otherwise the order stays.
pub open spec fn listed_before(
    entries: Seq<ConnectivityEntry>,
    codes: Seq<Seq<char>>,
    a: int,
    b: int,
) -> bool {
    let a_current = current_entry(entries[a], codes);
    let b_current = current_entry(entries[b], codes);
    if a_current != b_current {
        a_current
    } else if latest(entries[a]) != latest(entries[b]) {
        latest(entries[a]) > latest(entries[b])
    } else {
        a < b
    }
}

/// Whether an entry is listed. One without stored topologies is listed where
/// empty entries are asked for. One with stored topologies, but without a
/// configuration key for any of them, is listed where orphaned entries are asked
/// for.
pub open spec fn listed(
    entry: ConnectivityEntry,
    include_orphaned: bool,
    include_empty: bool,
) -> bool {
    if entry.available_names().len() == 0 {
        include_empty
    } else {
        include_orphaned || entry.internal_timestamp is Some || entry.external_timestamp is Some
            || entry.extend_timestamp is Some || entry.clone_timestamp is Some
    }
}

/// Whether an entry is listed.
pub fn is_listed(entry: &ConnectivityEntry, include_orphaned: bool, include_empty: bool) -> (yes:
    bool)
    ensures
        yes == listed(*entry, include_orphaned, include_empty),
        yes <==> if entry.internal is None && entry.external is None && entry.extend is None
            && entry.clone is None {
            include_empty
        } else {
            include_orphaned || entry.internal_timestamp is Some || entry.external_timestamp is Some
                || entry.extend_timestamp is Some || entry.clone_timestamp is Some
        },
{
    let names = entry.available_topologies();
    assert(names@.map_values(|name: &str| name@).len() == names@.len());
    if names.len() == 0 {
        include_empty
    } else {
        include_orphaned || entry.has_any_configuration_key()
    }
}

/// Whether entry `a` is listed before entry `b`.
fn is_listed_before(entries: &Vec<ConnectivityEntry>, codes: &Vec<String>, a: usize, b: usize) -> (yes:
    bool)
    requires
        a < entries@.len(),
        b < entries@.len(),
    ensures
        yes == listed_before(entries@, text_views(codes@), a as int, b as int),
{
    let a_current: bool = is_current(&entries[a], codes);
    let b_current: bool = is_current(&entries[b], codes);
    let a_time: u64 = max_timestamp(&entries[a]);
    let b_time: u64 = max_timestamp(&entries[b]);
    if a_current != b_current {
        a_current
    } else if a_time != b_time {
        a_time > b_time
    } else {
        a < b
    }
}

/// Whether `order` are, in their order, the indices of the entries that are listed.
pub open spec fn is_listing(
    entries: Seq<ConnectivityEntry>,
    codes: Seq<Seq<char>>,
    include_orphaned: bool,
    include_empty: bool,
    order: Seq<usize>,
) -> bool {
    &&& forall|i: int, j: int|
        0 <= i < j < order.len() ==> listed_before(
            entries,
            codes,
            #[trigger] order[i] as int,
            #[trigger] order[j] as int,
        )
    &&& forall|i: int|
        0 <= i < order.len() ==> (#[trigger] order[i]) < entries.len() && listed(
            entries[order[i] as int],
            include_orphaned,
            include_empty,
        )
    &&& forall|k: int|
        0 <= k < entries.len() && listed(
            #[trigger] entries[k],
            include_orphaned,
            include_empty,
        ) ==> exists|i: int| 0 <= i < order.len() && #[trigger] order[i] == k
}

/// The listing of the first `n` entries, with the next one put in its place.
proof fn lemma_listing_insert(
    entries: Seq<ConnectivityEntry>,
    codes: Seq<Seq<char>>,
    include_orphaned: bool,
    include_empty: bool,
    before: Seq<usize>,
    n: usize,
    p: int,
)
    requires
        n < entries.len(),
        is_listing(entries.take(n as int), codes, include_orphaned, include_empty, before),
        listed(entries[n as int], include_orphaned, include_empty),
        0 <= p <= before.len(),
        forall|i: int|
            0 <= i < p ==> listed_before(entries, codes, #[trigger] before[i] as int, n as int),
        p < before.len() ==> listed_before(entries, codes, n as int, before[p] as int),
    ensures
        is_listing(
            entries.take(n + 1),
            codes,
            include_orphaned,
            include_empty,
            before.insert(p, n),
        ),
{
    let shorter = entries.take(n as int);
    let longer = entries.take(n + 1);
    let after = before.insert(p, n);
    assert forall|i: int, j: int| 0 <= i < j < after.len() implies listed_before(
        longer,
        codes,
        #[trigger] after[i] as int,
        #[trigger] after[j] as int,
    ) by {
        let i2 = if i < p { i } else { i - 1 };
        let j2 = if j < p { j } else { j - 1 };
        if j == p {
            assert(after[i] == before[i]);
            assert(before[i] < shorter.len());
        } else if i == p {
            assert(after[j] == before[j2]);
            assert(before[j2] < shorter.len());
            assert(before[p] < shorter.len());
            if j2 > p {
                assert(listed_before(shorter, codes, before[p] as int, before[j2] as int));
            }
        } else {
            assert(after[i] == before[i2] && after[j] == before[j2]);
            assert(before[i2] < shorter.len() && before[j2] < shorter.len());
            assert(listed_before(shorter, codes, before[i2] as int, before[j2] as int));
        }
    }
    assert forall|i: int| 0 <= i < after.len() implies (#[trigger] after[i]) < longer.len()
        && listed(longer[after[i] as int], include_orphaned, include_empty) by {
        if i != p {
            let i2 = if i < p { i } else { i - 1 };
            assert(after[i] == before[i2]);
            assert(before[i2] < shorter.len());
            assert(shorter[before[i2] as int] == longer[before[i2] as int]);
        }
    }
    assert forall|k: int|
        0 <= k < longer.len() && listed(
            #[trigger] longer[k],
            include_orphaned,
            include_empty,
        ) implies exists|i: int| 0 <= i < after.len() && #[trigger] after[i] == k by {
        if k == n {
            assert(after[p] == n);
        } else {
            assert(shorter[k] == longer[k]);
            let i2 = choose|i: int| 0 <= i < before.len() && #[trigger] before[i] == k;
            let i = if i2 < p { i2 } else { i2 + 1 };
            assert(after[i] == before[i2]);
        }
    }
}

/// The listing of the first `n` entries where the next one is not listed.
proof fn lemma_listing_pass(
    entries: Seq<ConnectivityEntry>,
    codes: Seq<Seq<char>>,
    include_orphaned: bool,
    include_empty: bool,
    order: Seq<usize>,
    n: int,
)
    requires
        0 <= n < entries.len(),
        is_listing(entries.take(n), codes, include_orphaned, include_empty, order),
        !listed(entries[n], include_orphaned, include_empty),
    ensures
        is_listing(entries.take(n + 1), codes, include_orphaned, include_empty, order),
{
    let shorter = entries.take(n);
    let longer = entries.take(n + 1);
    assert forall|i: int, j: int| 0 <= i < j < order.len() implies listed_before(
        longer,
        codes,
        #[trigger] order[i] as int,
        #[trigger] order[j] as int,
    ) by {
        assert(order[i] < shorter.len() && order[j] < shorter.len());
        assert(listed_before(shorter, codes, order[i] as int, order[j] as int));
    }
    assert forall|i: int| 0 <= i < order.len() implies (#[trigger] order[i]) < longer.len()
        && listed(longer[order[i] as int], include_orphaned, include_empty) by {
        assert(shorter[order[i] as int] == longer[order[i] as int]);
    }
    assert forall|k: int|
        0 <= k < longer.len() && listed(
            #[trigger] longer[k],
            include_orphaned,
            include_empty,
        ) implies exists|i: int| 0 <= i < order.len() && #[trigger] order[i] == k by {
        assert(shorter[k] == longer[k]);
    }
}

/// The indices of the entries that are listed, in the order of the listing.
pub fn listing(
    entries: &Vec<ConnectivityEntry>,
    codes: &Vec<String>,
    include_orphaned: bool,
    include_empty: bool,
) -> (order: Vec<usize>)
    ensures
        is_listing(entries@, text_views(codes@), include_orphaned, include_empty, order@),
{
    let ghost views = text_views(codes@);
    let mut order: Vec<usize> = Vec::new();
    let mut n: usize = 0;
    while n < entries.len()
        invariant
            views == text_views(codes@),
            n <= entries.len(),
            is_listing(
                entries@.take(n as int),
                views,
                include_orphaned,
                include_empty,
                order@,
            ),
        decreases entries.len() - n,
    {
        let ghost before = order@;
        if is_listed(&entries[n], include_orphaned, include_empty) {
            let mut p: usize = 0;
            proof {
                assert forall|i: int| 0 <= i < before.len() implies (#[trigger] before[i]) < n by {
                    assert(before[i] < entries@.take(n as int).len());
                }
            }
            while p < order.len() && is_listed_before(entries, codes, order[p], n)
                invariant
                    views == text_views(codes@),
                    order@ == before,
                    n < entries.len(),
                    forall|i: int| 0 <= i < before.len() ==> (#[trigger] before[i]) < n,
                    p <= before.len(),
                    forall|i: int|
                        0 <= i < p ==> listed_before(
                            entries@,
                            views,
                            #[trigger] before[i] as int,
                            n as int,
                        ),
                decreases before.len() - p,
            {
                p = p + 1;
            }
            order.insert(p, n);
            proof {
                lemma_listing_insert(
                    entries@,
                    views,
                    include_orphaned,
                    include_empty,
                    before,
                    n,
                    p as int,
                );
            }
        } else {
            proof {
                lemma_listing_pass(
                    entries@,
                    views,
                    include_orphaned,
                    include_empty,
                    before,
                    n as int,
                );
            }
        }
        n = n + 1;
    }
    assert(entries@.take(n as int) =~= entries@);
    order
}

/// Current display sets are listed in front of all others.
pub proof fn law_current_first(
    entries: Seq<ConnectivityEntry>,
    codes: Seq<Seq<char>>,
    include_orphaned: bool,
    include_empty: bool,
    order: Seq<usize>,
    i: int,
    j: int,
)
    requires
        is_listing(entries, codes, include_orphaned, include_empty, order),
        0 <= i < order.len(),
        0 <= j < order.len(),
        current_entry(entries[order[i] as int], codes),
        !current_entry(entries[order[j] as int], codes),
    ensures
        i < j,
{
    if j < i {
        assert(listed_before(entries, codes, order[j] as int, order[i] as int));
    }
}

/// A listing is determined: there is no other one.
pub proof fn law_listing_unique(
    entries: Seq<ConnectivityEntry>,
    codes: Seq<Seq<char>>,
    include_orphaned: bool,
    include_empty: bool,
    a: Seq<usize>,
    b: Seq<usize>,
)
    requires
        is_listing(entries, codes, include_orphaned, include_empty, a),
        is_listing(entries, codes, include_orphaned, include_empty, b),
    ensures
        a == b,
{
    lemma_listing_prefix(entries, codes, include_orphaned, include_empty, a, b, a.len() as int);
    lemma_listing_prefix(entries, codes, include_orphaned, include_empty, b, a, b.len() as int);
    assert(a =~= b);
}

/// Two listings agree as far as the first one goes.
proof fn lemma_listing_prefix(
    entries: Seq<ConnectivityEntry>,
    codes: Seq<Seq<char>>,
    include_orphaned: bool,
    include_empty: bool,
    a: Seq<usize>,
    b: Seq<usize>,
    n: int,
)
    requires
        is_listing(entries, codes, include_orphaned, include_empty, a),
        is_listing(entries, codes, include_orphaned, include_empty, b),
        0 <= n <= a.len(),
    ensures
        n <= b.len(),
        forall|k: int| 0 <= k < n ==> a[k] == b[k],
    decreases n,
{
    if n > 0 {
        lemma_listing_prefix(entries, codes, include_orphaned, include_empty, a, b, n - 1);
        let next = a[n - 1];
        assert(listed(entries[next as int], include_orphaned, include_empty));
        let at = choose|k: int| 0 <= k < b.len() && #[trigger] b[k] == next as int;
        assert(b[at] == next);
        if at < n - 1 {
            assert(a[at] == b[at]);
            assert(listed_before(entries, codes, a[at] as int, a[n - 1] as int));
        } else if at > n - 1 {
            let skipped = b[n - 1];
            assert(listed(entries[skipped as int], include_orphaned, include_empty));
            let back = choose|k: int| 0 <= k < a.len() && #[trigger] a[k] == skipped as int;
            assert(a[back] == skipped);
            assert(listed_before(entries, codes, b[n - 1] as int, b[at] as int));
            if back < n - 1 {
                assert(b[back] == a[back]);
                assert(listed_before(entries, codes, b[back] as int, b[n - 1] as int));
            } else if back > n - 1 {
                assert(listed_before(entries, codes, a[n - 1] as int, a[back] as int));
            }
        }
    }
}

/// An entry is that of the connected monitors if and only if it has as many
/// prefixes as there are codes, and each of them matches a code.
pub proof fn law_current_entry(entry: ConnectivityEntry, codes: Seq<Seq<char>>)
    ensures
        current_entry(entry, codes) <==> {
            let prefixes = crate::connectivity::model_prefixes(
                crate::text::split(entry.set_id@, '^'),
            );
            &&& prefixes.len() == codes.len()
            &&& forall|i: int|
                0 <= i < prefixes.len() ==> matches_one(#[trigger] prefixes[i], codes)
        },
{
}

/// A prefix matches one of the codes if and only if it and some code agree as far
/// as the shorter of the two goes.
pub proof fn law_matches_one(prefix: Seq<char>, codes: Seq<Seq<char>>)
    ensures
        matches_one(prefix, codes) <==> exists|j: int|
            0 <= j < codes.len() && {
                let code = #[trigger] codes[j];
                let shorter = if prefix.len() < code.len() {
                    prefix.len()
                } else {
                    code.len()
                };
                prefix.take(shorter as int) == code.take(shorter as int)
            },
{
    if matches_one(prefix, codes) {
        let j = choose|j: int| 0 <= j < codes.len() && same_model(prefix, #[trigger] codes[j]);
        let code = codes[j];
        assert(prefix.take(prefix.len() as int) =~= prefix);
        assert(code.take(code.len() as int) =~= code);
        if prefix.len() == code.len() {
            assert(prefix =~= code);
        }
    }
    if exists|j: int|
        0 <= j < codes.len() && {
            let code = #[trigger] codes[j];
            let shorter = if prefix.len() < code.len() {
                prefix.len()
            } else {
                code.len()
            };
            prefix.take(shorter as int) == code.take(shorter as int)
        } {
        let j = choose|j: int|
            0 <= j < codes.len() && {
                let code = #[trigger] codes[j];
                let shorter = if prefix.len() < code.len() {
                    prefix.len()
                } else {
                    code.len()
                };
                prefix.take(shorter as int) == code.take(shorter as int)
            };
        let code = codes[j];
        assert(prefix.take(prefix.len() as int) =~= prefix);
        assert(code.take(code.len() as int) =~= code);
        assert(same_model(prefix, code));
    }
}

/// The code of a model is what stands between the first two number signs of a
/// device path, or behind the only one. Without a number sign there is none.
pub proof fn law_model_code(front: Seq<char>, code: Seq<char>, rest: Seq<char>)
    requires
        forall|i: int| 0 <= i < front.len() ==> front[i] != '#',
        forall|i: int| 0 <= i < code.len() ==> code[i] != '#',
    ensures
        model_code(front) is None,
        model_code(front + seq!['#'] + code) == Some(code),
        model_code(front + seq!['#'] + code + seq!['#'] + rest) == Some(code),
{
    crate::text::lemma_find_is(front, '#', front.len() as int);
    let short = front + seq!['#'] + code;
    crate::text::lemma_find_is(short, '#', front.len() as int);
    crate::text::lemma_find_is(code, '#', code.len() as int);
    assert(short.skip(front.len() as int + 1) =~= code);
    assert(crate::text::split(short, '#')[1] == crate::text::split(code, '#')[0]);
    let long = front + seq!['#'] + code + seq!['#'] + rest;
    let tail = code + seq!['#'] + rest;
    crate::text::lemma_find_is(long, '#', front.len() as int);
    assert(long.skip(front.len() as int + 1) =~= tail);
    crate::text::lemma_find_is(tail, '#', code.len() as int);
    assert(tail.take(code.len() as int) =~= code);
    assert(crate::text::split(tail, '#')[0] =~= code);
    assert(crate::text::split(long, '#')[1] == crate::text::split(tail, '#')[0]);
}

/// Each further display adds the code of its model behind the others where its
/// monitor is connected and has one, and nothing otherwise.
pub proof fn law_connected_codes_in_order(
    displays: Seq<DisplayProperties>,
    last: DisplayProperties,
)
    ensures
        connected_codes(Seq::empty()).len() == 0,
        last.target_available && model_code(last.key@) is Some ==> connected_codes(
            displays.push(last),
        ) == connected_codes(displays).push(model_code(last.key@)->0),
        !last.target_available || model_code(last.key@) is None ==> connected_codes(
            displays.push(last),
        ) == connected_codes(displays),
{
    let more = displays.push(last);
    assert(more.drop_last() =~= displays);
    assert(more.last() == last);
}

/// The latest timestamp of an entry is one of its timestamps and not earlier than
/// any of them; without timestamps it is zero.
pub proof fn law_latest(entry: ConnectivityEntry)
    ensures
        entry.internal_timestamp matches Some(t) ==> t <= latest(entry),
        entry.external_timestamp matches Some(t) ==> t <= latest(entry),
        entry.extend_timestamp matches Some(t) ==> t <= latest(entry),
        entry.clone_timestamp matches Some(t) ==> t <= latest(entry),
        latest(entry) == 0 || entry.internal_timestamp == Some(latest(entry))
            || entry.external_timestamp == Some(latest(entry)) || entry.extend_timestamp == Some(
            latest(entry),
        ) || entry.clone_timestamp == Some(latest(entry)),
{
}

/// Of two entries that are both current, or both not, the one saved last is listed
/// first; of two saved at the same time, the one that was read first.
pub proof fn law_latest_first(
    entries: Seq<ConnectivityEntry>,
    codes: Seq<Seq<char>>,
    include_orphaned: bool,
    include_empty: bool,
    order: Seq<usize>,
    i: int,
    j: int,
)
    requires
        is_listing(entries, codes, include_orphaned, include_empty, order),
        0 <= i < j < order.len(),
        current_entry(entries[order[i] as int], codes) == current_entry(
            entries[order[j] as int],
            codes,
        ),
    ensures
        latest(entries[order[i] as int]) >= latest(entries[order[j] as int]),
        latest(entries[order[i] as int]) == latest(entries[order[j] as int]) ==> order[i]
            < order[j],
{
    assert(listed_before(entries, codes, order[i] as int, order[j] as int));
}

/// An entry is in the listing if and only if it is asked for: one without stored
/// configurations where empty entries are, one with a configuration key always, and
/// any other one where orphaned entries are. No entry is listed twice.
pub proof fn law_listed_entries(
    entries: Seq<ConnectivityEntry>,
    codes: Seq<Seq<char>>,
    include_orphaned: bool,
    include_empty: bool,
    order: Seq<usize>,
    k: usize,
)
    requires
        is_listing(entries, codes, include_orphaned, include_empty, order),
        k < entries.len(),
    ensures
        order.contains(k) <==> {
            let entry = entries[k as int];
            if entry.internal is None && entry.external is None && entry.extend is None
                && entry.clone is None {
                include_empty
            } else {
                include_orphaned || entry.internal_timestamp is Some || entry.external_timestamp
                    is Some || entry.extend_timestamp is Some || entry.clone_timestamp is Some
            }
        },
        forall|i: int, j: int| 0 <= i < j < order.len() ==> order[i] != order[j],
        forall|i: int| 0 <= i < order.len() ==> (#[trigger] order[i]) < entries.len(),
{
    let entry = entries[k as int];
    crate::connectivity_laws::law_available_names(entry);
    if order.contains(k) {
        let i = choose|i: int| 0 <= i < order.len() && order[i] == k;
        assert(listed(entries[order[i] as int], include_orphaned, include_empty));
    }
    if listed(entry, include_orphaned, include_empty) {
        let i = choose|i: int| 0 <= i < order.len() && #[trigger] order[i] == k as int;
        assert(order[i] == k);
    }
    assert forall|i: int, j: int| 0 <= i < j < order.len() implies order[i] != order[j] by {
        assert(listed_before(entries, codes, order[i] as int, order[j] as int));
    }
}

} // verus!
