//! Asking the system for its display configuration.
//!
//! Each question takes several calls. The value that a step gives says what to
//! ask next, and takes the answer.

use std::collections::HashMap;
use vstd::prelude::*;

use crate::config::{
    commit_display_config, ModeInfo, PathInfo, QDC_DATABASE_CURRENT, QDC_ONLY_ACTIVE_PATHS,
    SDC_ALLOW_CHANGES, SDC_APPLY, SDC_USE_SUPPLIED_DISPLAY_CONFIG,
};
use crate::display::{DisplaySet, DisplaySetModel};
use crate::error::{call_failed, DisplayError, DisplayPropertiesError};
use crate::properties::{Description, DisplayProperties};

verus! {

broadcast use vstd::std_specs::hash::group_hash_axioms;

/// The number of paths and of modes that a configuration needs room for, or the
/// error where the system did not say.
pub fn buffer_sizes(reply: Result<(u32, u32), String>) -> (sizes: Result<(u32, u32), DisplayError>)
    ensures
        match reply {
            Ok(counts) => sizes == Ok::<(u32, u32), DisplayError>(counts),
            Err(said) => sizes is Err && sizes->Err_0@ == crate::error::ErrorModel::WinAPI(
                "GetDisplayConfigBufferSizes failed: "@ + said@,
            ),
        },
{
    match reply {
        Ok(counts) => Ok(counts),
        Err(said) => Err(call_failed("GetDisplayConfigBufferSizes failed: ", said.as_str())),
    }
}

/// The configuration, or the error where the system gave none.
pub fn queried_config<T>(reply: Result<T, String>) -> (config: Result<T, DisplayError>)
    ensures
        match reply {
            Ok(value) => config == Ok::<T, DisplayError>(value),
            Err(said) => config is Err && config->Err_0@ == crate::error::ErrorModel::WinAPI(
                "QueryDisplayConfig failed: "@ + said@,
            ),
        },
{
    match reply {
        Ok(value) => Ok(value),
        Err(said) => Err(call_failed("QueryDisplayConfig failed: ", said.as_str())),
    }
}

/// Whether path `i` is the one to keep for its monitor: the first active path to
/// that monitor, or, where none is active, the first path.
pub open spec fn is_kept(paths: Seq<PathInfo>, i: int) -> bool {
    forall|j: int|
        0 <= j < paths.len() && j != i && (#[trigger] paths[j]).monitor() == paths[i].monitor()
            ==> if paths[i].active() {
            i < j || !paths[j].active()
        } else {
            i < j && !paths[j].active()
        }
}

/// Whether `kept` are, in ascending order, the indices of the paths to keep.
pub open spec fn kept_paths(paths: Seq<PathInfo>, kept: Seq<usize>) -> bool {
    &&& forall|a: int, b: int| 0 <= a < b < kept.len() ==> kept[a] < kept[b]
    &&& forall|a: int|
        0 <= a < kept.len() ==> (#[trigger] kept[a]) < paths.len() && is_kept(paths, kept[a] as int)
    &&& forall|i: int|
        0 <= i < paths.len() && #[trigger] is_kept(paths, i) ==> exists|a: int|
            0 <= a < kept.len() && kept[a] == i
}

/// One number for a physical monitor.
spec fn monitor_number(path: PathInfo) -> int {
    path.adapter_low + 0x1_0000_0000 * (path.adapter_high as u32)
        + 0x1_0000_0000_0000_0000 * path.target_id
}

/// Different monitors have different numbers.
proof fn lemma_monitor_number(a: PathInfo, b: PathInfo)
    ensures
        monitor_number(a) == monitor_number(b) <==> a.monitor() == b.monitor(),
        0 <= monitor_number(a) <= u128::MAX,
{
    let x = a.adapter_high;
    let y = b.adapter_high;
    assert(x as u32 == y as u32 ==> x == y) by (bit_vector);
}

fn monitor_key(path: &PathInfo) -> (key: u128)
    ensures
        key == monitor_number(*path),
{
    path.adapter_low as u128 + 0x1_0000_0000 * (path.adapter_high as u32 as u128)
        + 0x1_0000_0000_0000_0000 * (path.target_id as u128)
}

/// Of the first `n` paths, the one to keep for the monitor with number `key`.
spec fn best_path(paths: Seq<PathInfo>, n: int, key: int) -> Option<int>
    decreases n,
{
    if n <= 0 {
        None
    } else {
        let earlier = best_path(paths, n - 1, key);
        if monitor_number(paths[n - 1]) != key {
            earlier
        } else {
            match earlier {
                None => Some(n - 1),
                Some(e) => if paths[n - 1].active() && !paths[e].active() {
                    Some(n - 1)
                } else {
                    earlier
                },
            }
        }
    }
}

/// What the best of the first `n` paths is.
proof fn lemma_best_path(paths: Seq<PathInfo>, n: int, key: int)
    requires
        0 <= n <= paths.len(),
    ensures
        match best_path(paths, n, key) {
            None => forall|j: int| 0 <= j < n ==> monitor_number(#[trigger] paths[j]) != key,
            Some(e) => {
                &&& 0 <= e < n
                &&& monitor_number(paths[e]) == key
                &&& forall|j: int|
                    0 <= j < n && j != e && monitor_number(#[trigger] paths[j]) == key
                        ==> if paths[e].active() {
                        e < j || !paths[j].active()
                    } else {
                        e < j && !paths[j].active()
                    }
            },
        },
    decreases n,
{
    if n > 0 {
        lemma_best_path(paths, n - 1, key);
    }
}

/// A path is the best one of its monitor if and only if it is the one to keep.
proof fn lemma_best_is_kept(paths: Seq<PathInfo>, i: int)
    requires
        0 <= i < paths.len(),
    ensures
        (best_path(paths, paths.len() as int, monitor_number(paths[i])) == Some(i)) == is_kept(
            paths,
            i,
        ),
        best_path(paths, paths.len() as int, monitor_number(paths[i])) is Some,
{
    let key = monitor_number(paths[i]);
    let best = best_path(paths, paths.len() as int, key);
    lemma_best_path(paths, paths.len() as int, key);
    assert forall|j: int| 0 <= j < paths.len() implies (monitor_number(#[trigger] paths[j]) == key)
        == (paths[j].monitor() == paths[i].monitor()) by {
        lemma_monitor_number(paths[j], paths[i]);
    }
    if best is Some {
        let e = best->0;
        if is_kept(paths, i) && e != i {
            assert(paths[e].monitor() == paths[i].monitor());
            assert(monitor_number(paths[i]) == key);
        }
    }
}

/// Keeps one path for each physical monitor, the active one where there is one,
/// so that its settings are available.
pub fn deduplicated(paths: &Vec<PathInfo>) -> (kept: Vec<usize>)
    ensures
        kept_paths(paths@, kept@),
        forall|a: int, b: int| 0 <= a < b < kept@.len() ==> kept@[a] < kept@[b],
        forall|a: int, j: int|
            #![trigger kept@[a], paths@[j]]
            0 <= a < kept@.len() && 0 <= j < paths@.len() && j != kept@[a]
                && paths@[j].adapter_low == paths@[kept@[a] as int].adapter_low
                && paths@[j].adapter_high == paths@[kept@[a] as int].adapter_high
                && paths@[j].target_id == paths@[kept@[a] as int].target_id ==> if paths@[j].flags
                % 2 == 1 {
                kept@[a] < j && paths@[kept@[a] as int].flags % 2 == 1
            } else {
                kept@[a] < j || paths@[kept@[a] as int].flags % 2 == 1
            },
{
    let mut best: HashMap<u128, usize> = HashMap::new();
    let mut i: usize = 0;
    while i < paths.len()
        invariant
            i <= paths.len(),
            forall|key: u128| #[trigger]
                best@.contains_key(key) == (best_path(paths@, i as int, key as int) is Some),
            forall|key: u128| #[trigger]
                best@.contains_key(key) ==> best@[key] == best_path(paths@, i as int, key as int)->0,
        decreases paths.len() - i,
    {
        let key: u128 = monitor_key(&paths[i]);
        proof {
            lemma_best_path(paths@, i as int, key as int);
        }
        let earlier: Option<usize> = match best.get(&key) {
            Some(index) => Some(*index),
            None => None,
        };
        match earlier {
            None => {
                best.insert(key, i);
            },
            Some(index) => {
                if paths[i].is_active() && !paths[index].is_active() {
                    best.insert(key, i);
                }
            },
        }
        i = i + 1;
    }
    let mut kept: Vec<usize> = Vec::new();
    let mut k: usize = 0;
    while k < paths.len()
        invariant
            k <= paths.len(),
            i == paths.len(),
            forall|key: u128| #[trigger]
                best@.contains_key(key) == (best_path(paths@, i as int, key as int) is Some),
            forall|key: u128| #[trigger]
                best@.contains_key(key) ==> best@[key] == best_path(paths@, i as int, key as int)->0,
            forall|a: int, b: int| 0 <= a < b < kept@.len() ==> kept@[a] < kept@[b],
            forall|a: int|
                0 <= a < kept@.len() ==> (#[trigger] kept@[a]) < k && is_kept(
                    paths@,
                    kept@[a] as int,
                ),
            forall|j: int|
                0 <= j < k && #[trigger] is_kept(paths@, j) ==> exists|a: int|
                    0 <= a < kept@.len() && kept@[a] == j,
        decreases paths.len() - k,
    {
        let key: u128 = monitor_key(&paths[k]);
        proof {
            lemma_best_is_kept(paths@, k as int);
        }
        let ghost earlier = kept@;
        let chosen: Option<&usize> = best.get(&key);
        let mut keep: bool = false;
        if let Some(index) = chosen {
            keep = *index == k;
        }
        if keep {
            kept.push(k);
            assert(kept@[kept@.len() - 1] == k);
        }
        assert forall|j: int|
            0 <= j < k + 1 && #[trigger] is_kept(paths@, j) implies exists|a: int|
            0 <= a < kept@.len() && kept@[a] == j by {
            if j < k {
                let a = choose|a: int| 0 <= a < earlier.len() && earlier[a] == j;
                assert(kept@[a] == j);
            }
        }
        k = k + 1;
    }
    proof {
        law_kept_is_best(paths@, kept@);
    }
    kept
}

/// A question for all displays: how much room the configuration needs, with
/// these flags, is to be asked first.
#[derive(Clone, Copy, Debug)]
pub struct DisplayQuery {
    pub flags: u32,
    pub deduplicate: bool,
}

/// Next, the configuration is to be asked for, with this much room.
#[derive(Clone, Copy, Debug)]
pub struct SizedQuery {
    pub flags: u32,
    pub deduplicate: bool,
    pub num_paths: u32,
    pub num_modes: u32,
    /// Whether the call has to ask for the topology, too. The question for the
    /// topology database requires that; all others forbid it.
    pub with_topology_id: bool,
}

/// A configuration as the system gave it: the room that was offered, and how
/// much of it was used.
#[derive(Debug)]
pub struct QueriedConfig {
    pub num_paths: u32,
    pub num_modes: u32,
    pub paths: Vec<PathInfo>,
    pub modes: Vec<ModeInfo>,
}

/// Next, the properties of each display are to be asked for.
#[derive(Debug)]
pub struct SelectedPaths {
    /// The indices of the paths in the configuration that the system gave.
    pub kept: Vec<usize>,
    /// These paths, one for each display.
    pub paths: Vec<PathInfo>,
    /// All modes.
    pub modes: Vec<ModeInfo>,
}

/// Starts the question for all displays.
pub fn query_displays(flags: u32, deduplicate: bool) -> (query: DisplayQuery)
    ensures
        query == (DisplayQuery { flags, deduplicate }),
{
    DisplayQuery { flags, deduplicate }
}

impl DisplayQuery {
    /// Takes the answer on the room that is needed.
    pub fn sized(self, reply: Result<(u32, u32), String>) -> (next: Result<
        SizedQuery,
        DisplayError,
    >)
        ensures
            match reply {
                Ok(counts) => next == Ok::<SizedQuery, DisplayError>(
                    SizedQuery {
                        flags: self.flags,
                        deduplicate: self.deduplicate,
                        num_paths: counts.0,
                        num_modes: counts.1,
                        with_topology_id: self.flags == QDC_DATABASE_CURRENT,
                    },
                ),
                Err(said) => next is Err && next->Err_0@ == crate::error::ErrorModel::WinAPI(
                    "GetDisplayConfigBufferSizes failed: "@ + said@,
                ),
            },
    {
        match buffer_sizes(reply) {
            Ok(counts) => Ok(
                SizedQuery {
                    flags: self.flags,
                    deduplicate: self.deduplicate,
                    num_paths: counts.0,
                    num_modes: counts.1,
                    with_topology_id: self.flags == QDC_DATABASE_CURRENT,
                },
            ),
            Err(error) => Err(error),
        }
    }
}

/// The first `count` elements, or all where there are fewer.
pub open spec fn at_most<T>(s: Seq<T>, count: u32) -> Seq<T> {
    if count < s.len() {
        s.take(count as int)
    } else {
        s
    }
}

/// The selection from a configuration: what was used of the room, and of the
/// paths one for each monitor, if that is asked for.
pub open spec fn is_selection(
    config: QueriedConfig,
    deduplicate: bool,
    selection: SelectedPaths,
) -> bool {
    let used = at_most(config.paths@, config.num_paths);
    &&& selection.modes@ == at_most(config.modes@, config.num_modes)
    &&& selection.paths@.len() == selection.kept@.len()
    &&& forall|a: int|
        0 <= a < selection.kept@.len() ==> selection.kept@[a] < used.len() && selection.paths@[a]
            == used[#[trigger] selection.kept@[a] as int]
    &&& if deduplicate {
        kept_paths(used, selection.kept@)
    } else {
        selection.paths@ == used && forall|a: int|
            0 <= a < selection.kept@.len() ==> #[trigger] selection.kept@[a] == a
    }
}

impl SizedQuery {
    /// Takes the configuration.
    pub fn queried(self, reply: Result<QueriedConfig, String>) -> (next: Result<
        SelectedPaths,
        DisplayError,
    >)
        ensures
            match reply {
                Ok(config) => {
                    &&& next is Ok
                    &&& is_selection(config, self.deduplicate, next->Ok_0)
                    &&& next->Ok_0.modes@ == if config.num_modes < config.modes@.len() {
                        config.modes@.take(config.num_modes as int)
                    } else {
                        config.modes@
                    }
                    &&& next->Ok_0.paths@.len() == next->Ok_0.kept@.len()
                    &&& forall|a: int|
                        0 <= a < next->Ok_0.kept@.len() ==> {
                            let k = #[trigger] next->Ok_0.kept@[a];
                            &&& k < config.num_paths
                            &&& k < config.paths@.len()
                            &&& next->Ok_0.paths@[a] == config.paths@[k as int]
                        }
                    &&& !self.deduplicate ==> next->Ok_0.paths@ == if config.num_paths
                        < config.paths@.len() {
                        config.paths@.take(config.num_paths as int)
                    } else {
                        config.paths@
                    }
                },
                Err(said) => next is Err && next->Err_0@ == crate::error::ErrorModel::WinAPI(
                    "QueryDisplayConfig failed: "@ + said@,
                ),
            },
    {
        let config: QueriedConfig = match queried_config(reply) {
            Ok(config) => config,
            Err(error) => {
                return Err(error);
            },
        };
        let mut used: Vec<PathInfo> = config.paths;
        used.truncate(config.num_paths as usize);
        let mut modes: Vec<ModeInfo> = config.modes;
        modes.truncate(config.num_modes as usize);
        assert(used@ =~= at_most(config.paths@, config.num_paths));
        assert(modes@ =~= at_most(config.modes@, config.num_modes));
        let kept: Vec<usize> = if self.deduplicate {
            deduplicated(&used)
        } else {
            all_indices(used.len())
        };
        let mut paths: Vec<PathInfo> = Vec::new();
        let mut i: usize = 0;
        while i < kept.len()
            invariant
                i <= kept.len(),
                forall|a: int| 0 <= a < kept@.len() ==> (#[trigger] kept@[a]) < used@.len(),
                paths@.len() == i,
                forall|a: int| 0 <= a < i ==> paths@[a] == used@[#[trigger] kept@[a] as int],
            decreases kept.len() - i,
        {
            paths.push(used[kept[i]]);
            i = i + 1;
        }
        proof {
            if !self.deduplicate {
                assert forall|a: int| 0 <= a < used@.len() implies paths@[a] == used@[a] by {
                    assert(kept@[a] == a);
                }
                assert(paths@ =~= used@);
            }
        }
        Ok(SelectedPaths { kept, paths, modes })
    }
}

/// The indices below `count`.
fn all_indices(count: usize) -> (indices: Vec<usize>)
    ensures
        indices@.len() == count,
        forall|a: int| 0 <= a < count ==> #[trigger] indices@[a] == a,
{
    let mut indices: Vec<usize> = Vec::new();
    let mut i: usize = 0;
    while i < count
        invariant
            i <= count,
            indices@.len() == i,
            forall|a: int| 0 <= a < i ==> #[trigger] indices@[a] == a,
        decreases count - i,
    {
        indices.push(i);
        i = i + 1;
    }
    indices
}

/// The first of the answers that is an error; the number of answers where there
/// is none.
pub open spec fn first_error<T, E>(replies: Seq<Result<T, E>>) -> int
    decreases replies.len(),
{
    if replies.len() == 0 || replies[0] is Err {
        0
    } else {
        1 + first_error(replies.skip(1))
    }
}

/// What the first error means.
pub proof fn lemma_first_error<T, E>(replies: Seq<Result<T, E>>)
    ensures
        0 <= first_error(replies) <= replies.len(),
        first_error(replies) < replies.len() ==> replies[first_error(replies)] is Err,
        forall|j: int| 0 <= j < first_error(replies) ==> (#[trigger] replies[j]) is Ok,
    decreases replies.len(),
{
    if replies.len() == 0 || replies[0] is Err {
    } else {
        lemma_first_error(replies.skip(1));
        assert forall|j: int| 0 <= j < first_error(replies) implies (#[trigger] replies[j]) is Ok by {
            if j > 0 {
                assert(replies[j] == replies.skip(1)[j - 1]);
            }
        }
    }
}

/// An error in front of which there is none is the first one.
pub proof fn lemma_first_error_is<T, E>(replies: Seq<Result<T, E>>, i: int)
    requires
        0 <= i <= replies.len(),
        i < replies.len() ==> replies[i] is Err,
        forall|j: int| 0 <= j < i ==> (#[trigger] replies[j]) is Ok,
    ensures
        first_error(replies) == i,
{
    lemma_first_error(replies);
    let first = first_error(replies);
    if first < i {
        assert(replies[first] is Ok);
    }
}

/// The values of answers without error.
pub open spec fn reply_values<T, E>(replies: Seq<Result<T, E>>) -> Seq<T> {
    replies.map_values(|reply: Result<T, E>| reply->Ok_0)
}

impl SelectedPaths {
    /// Takes the properties of the displays, one for each path. The first that
    /// could not be read ends the question; the rest need not be asked for.
    pub fn described(
        self,
        properties: Vec<Result<DisplayProperties, DisplayPropertiesError>>,
    ) -> (set: Result<DisplaySet, DisplayError>)
        requires
            first_error(properties@) < properties@.len() || properties@.len() == self.paths@.len(),
        ensures
            ({
                let error = first_error(properties@);
                if error < properties@.len() {
                    set is Err && set->Err_0@ == crate::error::ErrorModel::Properties(
                        properties@[error]->Err_0.message@,
                    )
                } else {
                    &&& set is Ok
                    &&& set->Ok_0@ == DisplaySetModel {
                        displays: reply_values(properties@),
                        primary: crate::display::last_primary(reply_values(properties@)),
                        paths: self.paths@,
                        modes: crate::config::mode_words(self.modes@),
                    }
                    &&& set->Ok_0@.wf()
                    &&& set->Ok_0@.displays.len() == properties@.len()
                    &&& forall|i: int|
                        0 <= i < properties@.len() ==> #[trigger] set->Ok_0@.displays[i]
                            == properties@[i]->Ok_0
                    &&& forall|i: int|
                        set->Ok_0@.primary < i < set->Ok_0@.displays.len() ==> !(
                        #[trigger] set->Ok_0@.displays[i]).primary
                    &&& set->Ok_0@.primary == 0
                        || set->Ok_0@.displays[set->Ok_0@.primary].primary
                }
            }),
    {
        let ghost replies = properties@;
        let mut displays: Vec<DisplayProperties> = Vec::new();
        for reply in it: properties
            invariant
                it.seq() == replies,
                displays@.len() == it.index(),
                forall|j: int|
                    0 <= j < it.index() ==> (#[trigger] replies[j]) is Ok && replies[j]->Ok_0
                        == displays@[j],
        {
            match reply {
                Ok(display) => {
                    displays.push(display);
                },
                Err(error) => {
                    proof {
                        lemma_first_error_is(replies, it.index());
                    }
                    return Err(DisplayError::Properties(error));
                },
            }
        }
        proof {
            lemma_first_error_is(replies, replies.len() as int);
            assert(displays@ =~= reply_values(replies));
            crate::display_laws::law_last_primary(displays@);
        }
        Ok(DisplaySet::assemble(displays, self.paths, self.modes))
    }
}

/// The properties of the displays at the ends of the paths, in order, given what
/// the system says of each.
pub open spec fn described_displays(
    paths: Seq<PathInfo>,
    modes: Seq<Seq<u32>>,
    descriptions: Seq<Result<Description, DisplayPropertiesError>>,
) -> Seq<DisplayProperties> {
    Seq::new(
        paths.len(),
        |i: int| crate::properties::path_properties(paths[i], modes, descriptions[i]->Ok_0),
    )
}

impl SelectedPaths {
    /// Takes what the system says of each display, one answer for each path. Each
    /// display has its settings from its own path and the modes. The first answer
    /// that is an error ends the question; the rest need not be asked for.
    pub fn described_by(
        self,
        descriptions: Vec<Result<Description, DisplayPropertiesError>>,
    ) -> (set: Result<DisplaySet, DisplayError>)
        requires
            descriptions@.len() == self.paths@.len() || first_error(descriptions@)
                < descriptions@.len() && first_error(descriptions@) < self.paths@.len(),
        ensures
            ({
                let error = first_error(descriptions@);
                let modes = crate::config::mode_words(self.modes@);
                let displays = described_displays(self.paths@, modes, descriptions@);
                if error < descriptions@.len() {
                    set is Err && set->Err_0@ == crate::error::ErrorModel::Properties(
                        descriptions@[error]->Err_0.message@,
                    )
                } else {
                    &&& set is Ok
                    &&& set->Ok_0@ == DisplaySetModel {
                        displays,
                        primary: crate::display::last_primary(displays),
                        paths: self.paths@,
                        modes,
                    }
                    &&& set->Ok_0@.wf()
                    &&& set->Ok_0@.displays.len() == self.paths@.len()
                    &&& forall|i: int|
                        0 <= i < self.paths@.len() ==> {
                            let display = #[trigger] set->Ok_0@.displays[i];
                            let description = descriptions@[i]->Ok_0;
                            &&& display.name == description.name
                            &&& display.string == description.string
                            &&& display.key == description.key
                            &&& display.connector_type == description.connector_type
                            &&& display.target_available == description.target_available
                            &&& display.active <==> self.paths@[i].flags % 2 == 1
                            &&& display.primary <==> display.settings is Some
                                && display.settings->0.position.x == 0
                                && display.settings->0.position.y == 0
                        }
                    &&& forall|i: int|
                        set->Ok_0@.primary < i < set->Ok_0@.displays.len() ==> !(
                        #[trigger] set->Ok_0@.displays[i]).primary
                    &&& set->Ok_0@.primary == 0
                        || set->Ok_0@.displays[set->Ok_0@.primary].primary
                }
            }),
    {
        let ghost replies = descriptions@;
        let ghost modes = crate::config::mode_words(self.modes@);
        let mut displays: Vec<DisplayProperties> = Vec::new();
        let mut i: usize = 0;
        for reply in it: descriptions
            invariant
                it.seq() == replies,
                replies == descriptions@,
                modes == crate::config::mode_words(self.modes@),
                replies.len() == self.paths@.len() || first_error(replies) < replies.len()
                    && first_error(replies) < self.paths@.len(),
                i == it.index(),
                i <= self.paths@.len(),
                displays@.len() == i,
                forall|j: int|
                    0 <= j < i ==> (#[trigger] displays@[j])
                        == crate::properties::path_properties(
                        self.paths@[j],
                        modes,
                        replies[j]->Ok_0,
                    ),
                forall|j: int| 0 <= j < i ==> (#[trigger] replies[j]) is Ok,
        {
            match reply {
                Ok(description) => {
                    proof {
                        lemma_first_error(replies);
                        assert(replies[i as int] is Ok);
                        assert(i < self.paths.len());
                    }
                    displays.push(
                        DisplayProperties::from_display_config(
                            &self.paths[i],
                            &self.modes,
                            description,
                        ),
                    );
                },
                Err(error) => {
                    proof {
                        lemma_first_error_is(replies, i as int);
                    }
                    return Err(DisplayError::Properties(error));
                },
            }
            i = i + 1;
        }
        proof {
            lemma_first_error_is(replies, replies.len() as int);
            assert(displays@ =~= described_displays(self.paths@, modes, replies));
            crate::display_laws::law_last_primary(displays@);
            assert forall|j: int| 0 <= j < self.paths@.len() implies {
                let display = #[trigger] displays@[j];
                &&& display.active <==> self.paths@[j].flags % 2 == 1
                &&& display.primary <==> display.settings is Some
                    && display.settings->0.position.x == 0 && display.settings->0.position.y == 0
            } by {
                crate::properties::law_read_display(self.paths@[j], modes, replies[j]->Ok_0);
            }
        }
        Ok(DisplaySet::assemble(displays, self.paths, self.modes))
    }
}

/// Setting the current configuration once more: how much room the paths in use
/// need is to be asked first.
#[derive(Clone, Copy, Debug)]
pub struct Refresh {
    pub flags: u32,
}

/// Next, the configuration is to be asked for, with this much room.
#[derive(Clone, Copy, Debug)]
pub struct SizedRefresh {
    pub flags: u32,
    pub num_paths: u32,
    pub num_modes: u32,
}

/// Next, the first paths and modes of the configuration are to be set.
#[derive(Clone, Copy, Debug)]
pub struct RefreshCommit {
    pub num_paths: u32,
    pub num_modes: u32,
    pub flags: u32,
}

/// Starts to refresh the screen, so that changes show.
pub fn refresh() -> (refresh: Refresh)
    ensures
        refresh.flags == QDC_ONLY_ACTIVE_PATHS,
{
    Refresh { flags: QDC_ONLY_ACTIVE_PATHS }
}

impl Refresh {
    /// Takes the answer on the room that is needed.
    pub fn sized(self, reply: Result<(u32, u32), String>) -> (next: Result<
        SizedRefresh,
        DisplayError,
    >)
        ensures
            match reply {
                Ok(counts) => next == Ok::<SizedRefresh, DisplayError>(
                    SizedRefresh {
                        flags: self.flags,
                        num_paths: counts.0,
                        num_modes: counts.1,
                    },
                ),
                Err(said) => next is Err && next->Err_0@ == crate::error::ErrorModel::WinAPI(
                    "GetDisplayConfigBufferSizes failed: "@ + said@,
                ),
            },
    {
        match buffer_sizes(reply) {
            Ok(counts) => Ok(
                SizedRefresh { flags: self.flags, num_paths: counts.0, num_modes: counts.1 },
            ),
            Err(error) => Err(error),
        }
    }
}

impl SizedRefresh {
    /// Takes the numbers of paths and modes that the configuration has, which are
    /// no more than there was room for.
    pub fn queried(self, reply: Result<(u32, u32), String>) -> (next: Result<
        RefreshCommit,
        DisplayError,
    >)
        requires
            reply matches Ok(used) ==> used.0 <= self.num_paths && used.1 <= self.num_modes,
        ensures
            match reply {
                Ok(used) => next == Ok::<RefreshCommit, DisplayError>(
                    RefreshCommit {
                        num_paths: used.0,
                        num_modes: used.1,
                        flags: SDC_APPLY | SDC_USE_SUPPLIED_DISPLAY_CONFIG | SDC_ALLOW_CHANGES,
                    },
                ),
                Err(said) => next is Err && next->Err_0@ == crate::error::ErrorModel::WinAPI(
                    "QueryDisplayConfig failed: "@ + said@,
                ),
            },
    {
        match queried_config(reply) {
            Ok(used) => Ok(
                RefreshCommit {
                    num_paths: used.0,
                    num_modes: used.1,
                    flags: SDC_APPLY | SDC_USE_SUPPLIED_DISPLAY_CONFIG | SDC_ALLOW_CHANGES,
                },
            ),
            Err(error) => Err(error),
        }
    }
}

impl RefreshCommit {
    /// Takes the code that the system returned.
    pub fn committed(self, code: i32) -> (result: Result<(), DisplayError>)
        ensures
            code == 0 ==> result is Ok,
            code != 0 ==> result == Err::<(), DisplayError>(DisplayError::FailedToCommit(code)),
    {
        commit_display_config(code)
    }
}

/// Each monitor that has a path keeps one, and that path is active if the
/// monitor has an active one.
pub proof fn law_each_monitor_kept(paths: Seq<PathInfo>, i: int)
    requires
        0 <= i < paths.len(),
    ensures
        exists|j: int|
            0 <= j < paths.len() && is_kept(paths, j) && (#[trigger] paths[j]).monitor()
                == paths[i].monitor() && (paths[i].active() ==> paths[j].active()),
{
    lemma_best_is_kept(paths, i);
    let key = monitor_number(paths[i]);
    lemma_best_path(paths, paths.len() as int, key);
    let e = best_path(paths, paths.len() as int, key)->0;
    lemma_best_is_kept(paths, e);
    lemma_monitor_number(paths[e], paths[i]);
    assert(paths[e].monitor() == paths[i].monitor());
    if paths[i].active() && e != i {
        assert(monitor_number(paths[i]) == key);
    }
}

/// No monitor keeps two paths.
pub proof fn law_one_path_for_each_monitor(paths: Seq<PathInfo>, i: int, j: int)
    requires
        0 <= i < paths.len(),
        0 <= j < paths.len(),
        is_kept(paths, i),
        is_kept(paths, j),
        paths[i].monitor() == paths[j].monitor(),
    ensures
        i == j,
{
}

/// The indices to keep are determined: there is no other such sequence.
pub proof fn law_kept_paths_unique(paths: Seq<PathInfo>, a: Seq<usize>, b: Seq<usize>)
    requires
        kept_paths(paths, a),
        kept_paths(paths, b),
    ensures
        a == b,
{
    lemma_kept_prefix(paths, a, b, a.len() as int);
    lemma_kept_prefix(paths, b, a, b.len() as int);
    assert(a =~= b);
}

/// Two such sequences agree as far as the first one goes.
proof fn lemma_kept_prefix(paths: Seq<PathInfo>, a: Seq<usize>, b: Seq<usize>, n: int)
    requires
        kept_paths(paths, a),
        kept_paths(paths, b),
        0 <= n <= a.len(),
    ensures
        n <= b.len(),
        forall|k: int| 0 <= k < n ==> a[k] == b[k],
    decreases n,
{
    if n > 0 {
        lemma_kept_prefix(paths, a, b, n - 1);
        let next = a[n - 1];
        assert(next < paths.len() && is_kept(paths, next as int));
        let at = choose|k: int| 0 <= k < b.len() && b[k] == next as int;
        assert(0 <= at < b.len() && b[at] == next);
        if at < n - 1 {
            assert(a[at] == b[at]);
            assert(a[at] < a[n - 1]);
        }
        assert(n - 1 < b.len());
        if at > n - 1 {
            let skipped = b[n - 1];
            assert(skipped < b[at]);
            assert(skipped < paths.len() && is_kept(paths, skipped as int));
            let back = choose|k: int| 0 <= k < a.len() && a[k] == skipped as int;
            assert(0 <= back < a.len() && a[back] == skipped);
            if back < n - 1 {
                assert(b[back] == a[back]);
                assert(b[back] < b[n - 1]);
            } else if back > n - 1 {
                assert(a[n - 1] < a[back]);
            }
        }
    }
}

/// Choosing again among the paths that were kept keeps them all.
pub proof fn law_deduplicate_idempotent(paths: Seq<PathInfo>, kept: Seq<usize>, i: int)
    requires
        kept_paths(paths, kept),
        0 <= i < kept.len(),
    ensures
        is_kept(kept.map_values(|k: usize| paths[k as int]), i),
{
    let rest = kept.map_values(|k: usize| paths[k as int]);
    assert forall|j: int|
        0 <= j < rest.len() && j != i && (#[trigger] rest[j]).monitor() == rest[i].monitor() implies
        false by {
        assert(rest[j] == paths[kept[j] as int]);
        assert(rest[i] == paths[kept[i] as int]);
        law_one_path_for_each_monitor(paths, kept[i] as int, kept[j] as int);
        if i < j {
            assert(kept[i] < kept[j]);
        } else {
            assert(kept[j] < kept[i]);
        }
    }
}

/// The path that is kept for a monitor is the best one: no other path to the same
/// monitor is active unless the kept one is, and among active ones, and likewise
/// among inactive ones, the kept one comes first.
pub proof fn law_kept_is_best(paths: Seq<PathInfo>, kept: Seq<usize>)
    requires
        kept_paths(paths, kept),
    ensures
        forall|a: int, j: int|
            #![trigger kept[a], paths[j]]
            0 <= a < kept.len() && 0 <= j < paths.len() && j != kept[a] && paths[j].adapter_low
                == paths[kept[a] as int].adapter_low && paths[j].adapter_high
                == paths[kept[a] as int].adapter_high && paths[j].target_id
                == paths[kept[a] as int].target_id ==> if paths[j].flags % 2 == 1 {
                kept[a] < j && paths[kept[a] as int].flags % 2 == 1
            } else {
                kept[a] < j || paths[kept[a] as int].flags % 2 == 1
            },
{
    assert forall|a: int, j: int|
        #![trigger kept[a], paths[j]]
        0 <= a < kept.len() && 0 <= j < paths.len() && j != kept[a] && paths[j].adapter_low
            == paths[kept[a] as int].adapter_low && paths[j].adapter_high
            == paths[kept[a] as int].adapter_high && paths[j].target_id
            == paths[kept[a] as int].target_id implies if paths[j].flags % 2 == 1 {
        kept[a] < j && paths[kept[a] as int].flags % 2 == 1
    } else {
        kept[a] < j || paths[kept[a] as int].flags % 2 == 1
    } by {
        let k = kept[a] as int;
        assert(is_kept(paths, k));
        crate::config::law_path_active(paths[j]);
        crate::config::law_path_active(paths[k]);
        crate::config::law_same_monitor(paths[j], paths[k]);
    }
}

/// Each path has a kept path to the same monitor.
pub proof fn law_no_monitor_is_lost(paths: Seq<PathInfo>, kept: Seq<usize>, i: int)
    requires
        kept_paths(paths, kept),
        0 <= i < paths.len(),
    ensures
        exists|a: int|
            0 <= a < kept.len() && kept[a] < paths.len() && {
                let path = paths[#[trigger] kept[a] as int];
                &&& path.adapter_low == paths[i].adapter_low
                &&& path.adapter_high == paths[i].adapter_high
                &&& path.target_id == paths[i].target_id
            },
{
    law_each_monitor_kept(paths, i);
    let j = choose|j: int|
        0 <= j < paths.len() && is_kept(paths, j) && (#[trigger] paths[j]).monitor()
            == paths[i].monitor() && (paths[i].active() ==> paths[j].active());
    let a = choose|a: int| 0 <= a < kept.len() && kept[a] == j;
    assert(kept[a] == j);
    crate::config::law_same_monitor(paths[j], paths[i]);
}

/// No two kept paths end at the same monitor.
pub proof fn law_kept_monitors_differ(paths: Seq<PathInfo>, kept: Seq<usize>, a: int, b: int)
    requires
        kept_paths(paths, kept),
        0 <= a < b < kept.len(),
    ensures
        ({
            let p = paths[kept[a] as int];
            let q = paths[kept[b] as int];
            p.adapter_low != q.adapter_low || p.adapter_high != q.adapter_high || p.target_id
                != q.target_id
        }),
{
    let i = kept[a] as int;
    let j = kept[b] as int;
    assert(kept[a] < kept[b]);
    assert(is_kept(paths, i) && is_kept(paths, j));
    if paths[i].monitor() == paths[j].monitor() {
        law_one_path_for_each_monitor(paths, i, j);
    }
    crate::config::law_same_monitor(paths[i], paths[j]);
}

/// The first error is an error behind values only; where there is none, all are
/// values.
pub proof fn law_first_error<T, E>(replies: Seq<Result<T, E>>)
    ensures
        ({
            let first = first_error(replies);
            &&& 0 <= first <= replies.len()
            &&& first < replies.len() ==> replies[first] is Err
            &&& forall|j: int| 0 <= j < first ==> (#[trigger] replies[j]) is Ok
        }),
{
    lemma_first_error(replies);
}

/// Where one path for each monitor was asked for, no two selected paths end at the
/// same monitor.
pub proof fn law_selected_monitors_differ(
    config: QueriedConfig,
    selection: SelectedPaths,
    a: int,
    b: int,
)
    requires
        is_selection(config, true, selection),
        0 <= a < b < selection.paths@.len(),
    ensures
        ({
            let p = selection.paths@[a];
            let q = selection.paths@[b];
            p.adapter_low != q.adapter_low || p.adapter_high != q.adapter_high || p.target_id
                != q.target_id
        }),
{
    let used = at_most(config.paths@, config.num_paths);
    let kept = selection.kept@;
    law_kept_monitors_differ(used, kept, a, b);
    assert(kept[a] < used.len() && kept[b] < used.len());
}

/// Where one path for each monitor was asked for, each path of the used room has a
/// selected one to the same monitor, and that one is active if the path is.
pub proof fn law_each_monitor_selected(config: QueriedConfig, selection: SelectedPaths, i: int)
    requires
        is_selection(config, true, selection),
        0 <= i < config.paths@.len(),
        i < config.num_paths,
    ensures
        exists|c: int|
            0 <= c < selection.paths@.len() && {
                let path = #[trigger] selection.paths@[c];
                &&& path.adapter_low == config.paths@[i].adapter_low
                &&& path.adapter_high == config.paths@[i].adapter_high
                &&& path.target_id == config.paths@[i].target_id
                &&& config.paths@[i].flags % 2 == 1 ==> path.flags % 2 == 1
            },
{
    let used = at_most(config.paths@, config.num_paths);
    let kept = selection.kept@;
    assert(used[i] == config.paths@[i]);
    law_each_monitor_kept(used, i);
    let j = choose|j: int|
        0 <= j < used.len() && is_kept(used, j) && (#[trigger] used[j]).monitor()
            == used[i].monitor() && (used[i].active() ==> used[j].active());
    let c = choose|c: int| 0 <= c < kept.len() && kept[c] == j;
    assert(kept[c] == j);
    assert(selection.paths@[c] == used[j]);
    crate::config::law_same_monitor(used[j], used[i]);
    crate::config::law_path_active(used[j]);
    crate::config::law_path_active(used[i]);
}

/// Where one path for each monitor was asked for, the selected path is the best one
/// of its monitor in the used room: the first active one, or the first one where
/// none is active.
pub proof fn law_selected_path_is_best(
    config: QueriedConfig,
    selection: SelectedPaths,
    a: int,
    j: int,
)
    requires
        is_selection(config, true, selection),
        0 <= a < selection.paths@.len(),
        0 <= j < config.paths@.len(),
        j < config.num_paths,
        j != selection.kept@[a],
        config.paths@[j].adapter_low == selection.paths@[a].adapter_low,
        config.paths@[j].adapter_high == selection.paths@[a].adapter_high,
        config.paths@[j].target_id == selection.paths@[a].target_id,
    ensures
        config.paths@[j].flags % 2 == 1 ==> selection.kept@[a] < j && selection.paths@[a].flags % 2
            == 1,
        config.paths@[j].flags % 2 != 1 ==> selection.kept@[a] < j || selection.paths@[a].flags % 2
            == 1,
{
    let used = at_most(config.paths@, config.num_paths);
    let kept = selection.kept@;
    law_kept_is_best(used, kept);
    assert(used[j] == config.paths@[j]);
    assert(selection.paths@[a] == used[kept[a] as int]);
}

/// The selected paths come in the order of the configuration, and are those that
/// stand at the kept indices of the used room. Of the modes, the used ones stay.
pub proof fn law_selection_in_order(
    config: QueriedConfig,
    deduplicate: bool,
    selection: SelectedPaths,
    a: int,
    b: int,
)
    requires
        is_selection(config, deduplicate, selection),
    ensures
        0 <= a < b < selection.paths@.len() ==> selection.kept@[a] < selection.kept@[b],
        0 <= a < selection.paths@.len() ==> {
            &&& selection.kept@[a] < config.num_paths
            &&& selection.kept@[a] < config.paths@.len()
            &&& selection.paths@[a] == config.paths@[selection.kept@[a] as int]
            &&& !deduplicate ==> selection.kept@[a] == a
        },
        !deduplicate ==> selection.paths@.len() == config.paths@.len() || selection.paths@.len()
            == config.num_paths,
        forall|m: int|
            0 <= m < selection.modes@.len() ==> #[trigger] selection.modes@[m] == config.modes@[m],
        selection.modes@.len() == config.modes@.len() || selection.modes@.len() == config.num_modes,
        selection.modes@.len() <= config.num_modes,
{
    let used = at_most(config.paths@, config.num_paths);
    let kept = selection.kept@;
    if 0 <= a < selection.paths@.len() {
        assert(kept[a] < used.len());
        if a < b < selection.paths@.len() && !deduplicate {
            assert(kept[a] == a && kept[b] == b);
        }
    }
}

} // verus!
