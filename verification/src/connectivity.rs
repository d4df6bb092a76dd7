//! The registry's record of display sets.
//!
//! The connectivity database has an entry for each set of monitors that was ever
//! connected together, with the configurations to use for them. The settings of
//! these configurations are kept in entries of their own.

use vstd::prelude::*;

use crate::error::{call_failed, DisplayError};
use crate::text::{same_text, split_text, text_before, text_before_other};
use crate::topology::Topology;

verus! {

/// A stored display configuration entry from the connectivity database. The
/// system remembers one "recent" topology for each physical display set and
/// applies it when that set of monitors is detected.
#[derive(Debug)]
pub struct ConnectivityEntry {
    /// Full registry key name with the hash suffix (`<SetId>^<Hash>`).
    pub key_name: String,
    /// The display set identifier (monitor IDs joined with `^`).
    pub set_id: String,
    /// The configuration to apply the next time this display set connects.
    pub recent: Option<String>,
    /// Stored configuration for the internal (primary only) topology.
    pub internal: Option<String>,
    /// Stored configuration for the external (secondary only) topology.
    pub external: Option<String>,
    /// Stored configuration for the extend topology.
    pub extend: Option<String>,
    /// Stored configuration for the clone topology.
    pub clone: Option<String>,
    /// When each topology's configuration was last saved, as a file time.
    pub internal_timestamp: Option<u64>,
    pub external_timestamp: Option<u64>,
    pub extend_timestamp: Option<u64>,
    pub clone_timestamp: Option<u64>,
}

/// A configuration entry that no connectivity entry refers to.
#[derive(Debug)]
pub struct OrphanedConfigEntry {
    /// Full registry key name with the hash suffix (`<ConfigId>^<Hash>`).
    pub key_name: String,
    /// The configuration ID, in front of the hash.
    pub config_id: String,
    /// When the configuration was last saved, as a file time.
    pub timestamp: u64,
}

/// A text that may be missing, as a sequence of characters.
pub open spec fn text_view(text: Option<String>) -> Option<Seq<char>> {
    match text {
        Some(text) => Some(text@),
        None => None,
    }
}

/// The name where the text is there, nothing where it is missing.
pub open spec fn name_if(text: Option<String>, name: Seq<char>) -> Seq<Seq<char>> {
    match text {
        Some(_) => seq![name],
        None => Seq::empty(),
    }
}

/// The full length of the code of a monitor's model: three letters for the
/// manufacturer and four digits for the model.
pub const MODEL_CODE_LENGTH: usize = 7;

/// The code of the model at the front of a monitor ID.
pub open spec fn model_prefix(id: Seq<char>) -> Seq<char> {
    let part = crate::text::before(id, '_');
    if part.len() > MODEL_CODE_LENGTH {
        part.take(MODEL_CODE_LENGTH as int)
    } else {
        part
    }
}

/// The codes of the models of several monitors; IDs without one are left out.
pub open spec fn model_prefixes(ids: Seq<Seq<char>>) -> Seq<Seq<char>>
    decreases ids.len(),
{
    if ids.len() == 0 {
        Seq::empty()
    } else {
        let front = model_prefixes(ids.drop_last());
        let prefix = model_prefix(ids.last());
        if prefix.len() == 0 {
            front
        } else {
            front.push(prefix)
        }
    }
}

/// Whether a text is there and is `id`.
fn holds(text: &Option<String>, id: &str) -> (yes: bool)
    ensures
        yes == (text_view(*text) == Some(id@)),
{
    match text {
        Some(text) => same_text(text.as_str(), id),
        None => false,
    }
}

impl ConnectivityEntry {
    /// The name of the topology whose stored configuration is the recent one.
    pub open spec fn recent_name(self) -> Option<Seq<char>> {
        if self.recent is None {
            None
        } else if text_view(self.internal) == text_view(self.recent) {
            Some("Internal"@)
        } else if text_view(self.external) == text_view(self.recent) {
            Some("External"@)
        } else if text_view(self.extend) == text_view(self.recent) {
            Some("Extend"@)
        } else if text_view(self.clone) == text_view(self.recent) {
            Some("Clone"@)
        } else {
            None
        }
    }

    /// The names of the topologies that have stored configurations.
    pub open spec fn available_names(self) -> Seq<Seq<char>> {
        name_if(self.internal, "Internal"@) + name_if(self.external, "External"@) + name_if(
            self.extend,
            "Extend"@,
        ) + name_if(self.clone, "Clone"@)
    }

    /// The stored configuration for a topology.
    pub open spec fn stored_id(self, topology: Topology) -> Option<Seq<char>> {
        match topology {
            Topology::Internal => text_view(self.internal),
            Topology::External => text_view(self.external),
            Topology::Extend => text_view(self.extend),
            Topology::Clone => text_view(self.clone),
            Topology::Unknown(_) => None,
        }
    }

    /// Whether the entry refers to the configuration `id`.
    pub open spec fn refers_to(self, id: Seq<char>) -> bool {
        ||| text_view(self.internal) == Some(id)
        ||| text_view(self.external) == Some(id)
        ||| text_view(self.extend) == Some(id)
        ||| text_view(self.clone) == Some(id)
    }

    /// Whether the entry refers to the configuration `id`.
    fn is_reference_to(&self, id: &str) -> (yes: bool)
        ensures
            yes == self.refers_to(id@),
    {
        holds(&self.internal, id) || holds(&self.external, id) || holds(&self.extend, id) || holds(
            &self.clone,
            id,
        )
    }

    /// Returns the topology name that will be applied on next connect, if
    /// determinable.
    pub fn recent_topology(&self) -> (name: Option<&str>)
        ensures
            match name {
                Some(name) => self.recent_name() == Some(name@),
                None => self.recent_name() is None,
            },
    {
        match &self.recent {
            None => None,
            Some(recent) => {
                let id = recent.as_str();
                if holds(&self.internal, id) {
                    Some("Internal")
                } else if holds(&self.external, id) {
                    Some("External")
                } else if holds(&self.extend, id) {
                    Some("Extend")
                } else if holds(&self.clone, id) {
                    Some("Clone")
                } else {
                    None
                }
            },
        }
    }

    /// Returns names of all topology types that have stored configurations.
    pub fn available_topologies(&self) -> (names: Vec<&str>)
        ensures
            names@.map_values(|name: &str| name@) == self.available_names(),
    {
        let mut names: Vec<&str> = Vec::new();
        if self.internal.is_some() {
            names.push("Internal");
        }
        if self.external.is_some() {
            names.push("External");
        }
        if self.extend.is_some() {
            names.push("Extend");
        }
        if self.clone.is_some() {
            names.push("Clone");
        }
        assert(names@.map_values(|name: &str| name@) =~= self.available_names());
        names
    }

    /// Extracts model-code prefixes for each monitor in this display set, such as
    /// `DEL430F` and `SNY07CB` of
    /// `DEL430F6C19C34_34_07E8_46^SNY07CB16843009_01_07E7_C7`.
    pub fn monitor_prefixes(&self) -> (prefixes: Vec<&str>)
        ensures
            prefixes@.map_values(|prefix: &str| prefix@) == model_prefixes(
                crate::text::split(self.set_id@, '^'),
            ),
    {
        let ids = split_text(self.set_id.as_str(), '^');
        let ghost view = |part: &str| part@;
        let ghost parts = ids@.map_values(view);
        let mut prefixes: Vec<&str> = Vec::new();
        let mut i: usize = 0;
        assert(parts.take(0) =~= Seq::empty());
        assert(prefixes@.map_values(view) =~= Seq::empty());
        while i < ids.len()
            invariant
                i <= ids.len(),
                view == (|part: &str| part@),
                parts == ids@.map_values(view),
                prefixes@.map_values(view) == model_prefixes(parts.take(i as int)),
            decreases ids.len() - i,
        {
            let front = text_before(ids[i], '_');
            let prefix = if front.unicode_len() > MODEL_CODE_LENGTH {
                front.substring_char(0, MODEL_CODE_LENGTH)
            } else {
                front
            };
            let ghost earlier = prefixes@;
            proof {
                let longer = parts.take(i + 1);
                assert(longer.drop_last() =~= parts.take(i as int));
                assert(longer.last() == ids[i as int]@);
                assert(prefix@ =~= model_prefix(ids[i as int]@));
            }
            if !prefix.is_empty() {
                prefixes.push(prefix);
                assert(prefixes@.map_values(view) =~= earlier.map_values(view).push(prefix@));
            }
            i = i + 1;
        }
        assert(parts.take(i as int) =~= parts);
        prefixes
    }

    /// Returns true if at least one topology's configuration was found among the
    /// configuration entries.
    pub fn has_any_configuration_key(&self) -> (any: bool)
        ensures
            any == (self.internal_timestamp is Some || self.external_timestamp is Some
                || self.extend_timestamp is Some || self.clone_timestamp is Some),
    {
        self.internal_timestamp.is_some() || self.external_timestamp.is_some()
            || self.extend_timestamp.is_some() || self.clone_timestamp.is_some()
    }
}

/// What was read of one configuration key.
#[derive(Debug)]
pub struct ConfigReading {
    /// The name of the key, where it could be listed.
    pub name: Option<String>,
    /// The timestamp in the key, where it could be read.
    pub timestamp: Option<u64>,
}

/// What was read of one connectivity key.
#[derive(Debug)]
pub struct ConnectivityReading {
    /// The name of the key.
    pub key_name: String,
    /// The values of the key, where they are there.
    pub set_id: Option<String>,
    pub recent: Option<String>,
    pub internal: Option<String>,
    pub external: Option<String>,
    pub extend: Option<String>,
    pub clone: Option<String>,
}

/// The names of the values of a connectivity key, in the order in which they are
/// read.
pub open spec fn value_names() -> Seq<Seq<char>> {
    seq!["SetId"@, "Recent"@, "Internal"@, "External"@, "eXtend"@, "Clone"@]
}

/// The name of the value that holds the configuration to apply next.
pub open spec fn recent_value() -> Seq<char> {
    "Recent"@
}

/// The names of the values to read of a connectivity key.
pub fn connectivity_values() -> (names: Vec<&'static str>)
    ensures
        names@.map_values(|name: &str| name@) == value_names(),
{
    let mut names: Vec<&'static str> = Vec::new();
    names.push("SetId");
    names.push("Recent");
    names.push("Internal");
    names.push("External");
    names.push("eXtend");
    names.push("Clone");
    assert(names@.map_values(|name: &str| name@) =~= value_names());
    names
}

impl ConnectivityReading {
    /// What was read of a connectivity key, given its values in the order of their
    /// names.
    pub fn from_values(key_name: String, values: Vec<Option<String>>) -> (reading: ConnectivityReading)
        requires
            values@.len() == value_names().len(),
        ensures
            reading == (ConnectivityReading {
                key_name,
                set_id: values@[0],
                recent: values@[1],
                internal: values@[2],
                external: values@[3],
                extend: values@[4],
                clone: values@[5],
            }),
    {
        let mut values: Vec<Option<String>> = values;
        let clone = values.remove(5);
        let extend = values.remove(4);
        let external = values.remove(3);
        let internal = values.remove(2);
        let recent = values.remove(1);
        let set_id = values.remove(0);
        ConnectivityReading { key_name, set_id, recent, internal, external, extend, clone }
    }
}

/// One configuration entry.
#[derive(Debug)]
struct ConfigEntry {
    config_id: String,
    key_name: String,
    timestamp: u64,
}

/// The configuration entries: for each configuration ID the name of its key and
/// its timestamp.
#[derive(Debug)]
pub struct ConfigEntries {
    entries: Vec<ConfigEntry>,
}

/// What entries with different IDs say.
spec fn entries_map(entries: Seq<ConfigEntry>) -> Map<Seq<char>, (Seq<char>, u64)>
    decreases entries.len(),
{
    if entries.len() == 0 {
        Map::empty()
    } else {
        let last = entries.last();
        entries_map(entries.drop_last()).insert(
            last.config_id@,
            (last.key_name@, last.timestamp),
        )
    }
}

/// Whether no two entries have the same ID.
spec fn different_ids(entries: Seq<ConfigEntry>) -> bool {
    forall|i: int, j: int|
        0 <= i < j < entries.len() ==> entries[i].config_id@ != entries[j].config_id@
}

/// An ID is known if and only if some entry has it, and that entry gives its key
/// and timestamp.
proof fn lemma_entries_map(entries: Seq<ConfigEntry>)
    requires
        different_ids(entries),
    ensures
        forall|id: Seq<char>| #[trigger]
            entries_map(entries).contains_key(id) <==> exists|i: int|
                0 <= i < entries.len() && (#[trigger] entries[i]).config_id@ == id,
        forall|i: int|
            0 <= i < entries.len() ==> entries_map(entries)[(#[trigger] entries[i]).config_id@] == (
                entries[i].key_name@,
                entries[i].timestamp,
            ),
    decreases entries.len(),
{
    if entries.len() > 0 {
        let front = entries.drop_last();
        assert(different_ids(front));
        lemma_entries_map(front);
        assert forall|id: Seq<char>| #[trigger]
            entries_map(entries).contains_key(id) <==> exists|i: int|
                0 <= i < entries.len() && (#[trigger] entries[i]).config_id@ == id by {
            if entries_map(front).contains_key(id) {
                let i = choose|i: int| 0 <= i < front.len() && (#[trigger] front[i]).config_id@ == id;
                assert(entries[i].config_id@ == id);
            }
            if exists|i: int| 0 <= i < entries.len() && (#[trigger] entries[i]).config_id@ == id {
                let i = choose|i: int|
                    0 <= i < entries.len() && (#[trigger] entries[i]).config_id@ == id;
                if i < front.len() {
                    assert(front[i].config_id@ == id);
                }
            }
            assert(entries[entries.len() - 1] == entries.last());
        }
        assert forall|i: int| 0 <= i < entries.len() implies entries_map(
            entries,
        )[(#[trigger] entries[i]).config_id@] == (entries[i].key_name@, entries[i].timestamp) by {
            if i < front.len() {
                assert(front[i] == entries[i]);
                assert(entries[i].config_id@ != entries[entries.len() - 1].config_id@);
            }
        }
    }
}

impl View for ConfigEntries {
    type V = Map<Seq<char>, (Seq<char>, u64)>;

    closed spec fn view(&self) -> Map<Seq<char>, (Seq<char>, u64)> {
        entries_map(self.entries@)
    }
}

impl ConfigEntries {
    /// No ID occurs twice, and each is what stands in front of the hash in the
    /// name of its key.
    pub closed spec fn wf(self) -> bool {
        &&& different_ids(self.entries@)
        &&& forall|i: int|
            0 <= i < self.entries@.len() ==> (#[trigger] self.entries@[i]).config_id@
                == crate::text::before(self.entries@[i].key_name@, '^')
    }

    /// No entries.
    pub fn new() -> (entries: ConfigEntries)
        ensures
            entries@ == Map::<Seq<char>, (Seq<char>, u64)>::empty(),
            entries.wf(),
    {
        ConfigEntries { entries: Vec::new() }
    }

    /// The place of an ID, or the number of entries.
    fn place(&self, config_id: &str) -> (place: usize)
        ensures
            place <= self.entries@.len(),
            place < self.entries@.len() ==> self.entries@[place as int].config_id@ == config_id@,
            forall|i: int|
                0 <= i < place ==> (#[trigger] self.entries@[i]).config_id@ != config_id@,
    {
        let mut i: usize = 0;
        while i < self.entries.len()
            invariant
                i <= self.entries.len(),
                forall|j: int| 0 <= j < i ==> (#[trigger] self.entries@[j]).config_id@ != config_id@,
            decreases self.entries.len() - i,
        {
            if same_text(self.entries[i].config_id.as_str(), config_id) {
                return i;
            }
            i = i + 1;
        }
        i
    }

    /// Puts in the entry of a key; it takes the place of an earlier one with the
    /// same ID.
    pub fn insert(&mut self, key_name: String, timestamp: u64)
        requires
            old(self).wf(),
        ensures
            final(self)@ == old(self)@.insert(
                crate::text::before(key_name@, '^'),
                (key_name@, timestamp),
            ),
            final(self).wf(),
    {
        let ghost before = self.entries@;
        let config_id: String = text_before(key_name.as_str(), '^').to_owned();
        let ghost id = config_id@;
        let place: usize = self.place(config_id.as_str());
        let entry = ConfigEntry { config_id, key_name, timestamp };
        if place < self.entries.len() {
            self.entries.set(place, entry);
        } else {
            self.entries.push(entry);
        }
        proof {
            let after = self.entries@;
            assert forall|i: int, j: int| 0 <= i < j < after.len() implies after[i].config_id@
                != after[j].config_id@ by {
                if i < before.len() && j < before.len() {
                    assert(before[i].config_id@ != before[j].config_id@);
                } else if i < before.len() {
                    assert(before[i].config_id@ != id);
                }
            }
            lemma_entries_map(before);
            lemma_entries_map(after);
            let expected = entries_map(before).insert(id, (key_name@, timestamp));
            assert(after[place as int] == entry);
            assert forall|k: Seq<char>| #[trigger]
                entries_map(after).contains_key(k) == expected.contains_key(k) by {
                if entries_map(after).contains_key(k) {
                    let i = choose|i: int| 0 <= i < after.len() && (#[trigger] after[i]).config_id@ == k;
                    if i != place {
                        assert(before[i] == after[i]);
                    }
                }
                if entries_map(before).contains_key(k) {
                    let i = choose|i: int| 0 <= i < before.len() && (#[trigger] before[i]).config_id@ == k;
                    if i != place {
                        assert(before[i] == after[i]);
                    }
                }
                if k == id {
                    assert(after[place as int].config_id@ == k);
                }
            }
            assert forall|k: Seq<char>| #[trigger]
                expected.contains_key(k) implies entries_map(after)[k] == expected[k] by {
                assert(entries_map(after).contains_key(k));
                let i = choose|i: int| 0 <= i < after.len() && (#[trigger] after[i]).config_id@ == k;
                if i != place {
                    assert(before[i] == after[i]);
                    if k == id {
                        assert(after[i].config_id@ == after[place as int].config_id@);
                    }
                }
            }
            assert(entries_map(after) =~= expected);
        }
    }

    /// The timestamp of a configuration, if there is one with that ID.
    pub fn timestamp(&self, config_id: &str) -> (timestamp: Option<u64>)
        requires
            self.wf(),
        ensures
            timestamp == timestamp_of(self@, Some(config_id@)),
    {
        let place: usize = self.place(config_id);
        proof {
            lemma_entries_map(self.entries@);
        }
        if place < self.entries.len() {
            assert(self.entries@[place as int].config_id@ == config_id@);
            Some(self.entries[place].timestamp)
        } else {
            None
        }
    }

    /// The timestamp of a configuration that may be missing.
    fn timestamp_if(&self, config_id: &Option<String>) -> (timestamp: Option<u64>)
        requires
            self.wf(),
        ensures
            timestamp == timestamp_of(self@, text_view(*config_id)),
    {
        match config_id {
            Some(config_id) => self.timestamp(config_id.as_str()),
            None => None,
        }
    }
}

/// The timestamp of a configuration, if it is given and known.
pub open spec fn timestamp_of(
    config: Map<Seq<char>, (Seq<char>, u64)>,
    id: Option<Seq<char>>,
) -> Option<u64> {
    match id {
        Some(id) => if config.contains_key(id) {
            Some(config[id].1)
        } else {
            None
        },
        None => None,
    }
}

/// The configuration entries that the keys hold, a later key taking the place of
/// an earlier one with the same ID. Keys that could not be read are left out.
pub open spec fn config_map(keys: Seq<ConfigReading>) -> Map<Seq<char>, (Seq<char>, u64)>
    decreases keys.len(),
{
    if keys.len() == 0 {
        Map::empty()
    } else {
        let front = config_map(keys.drop_last());
        match (keys.last().name, keys.last().timestamp) {
            (Some(name), Some(timestamp)) => front.insert(
                crate::text::before(name@, '^'),
                (name@, timestamp),
            ),
            _ => front,
        }
    }
}

/// The configuration entries of the registry; none where it could not be opened.
pub open spec fn config_map_if(keys: Option<Vec<ConfigReading>>) -> Map<
    Seq<char>,
    (Seq<char>, u64),
> {
    match keys {
        Some(keys) => config_map(keys@),
        None => Map::empty(),
    }
}

/// Reads all configuration entries, by configuration ID.
pub fn read_config_entries(keys: Option<Vec<ConfigReading>>) -> (entries: ConfigEntries)
    ensures
        entries@ == config_map_if(keys),
        entries.wf(),
{
    let mut entries = ConfigEntries::new();
    let keys: Vec<ConfigReading> = match keys {
        Some(keys) => keys,
        None => {
            return entries;
        },
    };
    let ghost all = keys@;
    assert(all.take(0) =~= Seq::empty());
    for key in it: keys
        invariant
            it.seq() == all,
            entries.wf(),
            entries@ == config_map(all.take(it.index())),
    {
        proof {
            let longer = all.take(it.index() + 1);
            assert(longer.drop_last() =~= all.take(it.index()));
            assert(longer.last() == key);
        }
        if let Some(name) = key.name {
            if let Some(timestamp) = key.timestamp {
                entries.insert(name, timestamp);
            }
        }
    }
    assert(all.take(all.len() as int) =~= all);
    entries
}

/// Whether `entry` is what was read of a key, with the timestamps of its
/// configurations.
pub open spec fn is_entry_of(
    entry: ConnectivityEntry,
    reading: ConnectivityReading,
    config: Map<Seq<char>, (Seq<char>, u64)>,
) -> bool {
    &&& entry.key_name == reading.key_name
    &&& entry.set_id@ == match reading.set_id {
        Some(set_id) => set_id@,
        None => Seq::empty(),
    }
    &&& entry.recent == reading.recent
    &&& entry.internal == reading.internal
    &&& entry.external == reading.external
    &&& entry.extend == reading.extend
    &&& entry.clone == reading.clone
    &&& entry.internal_timestamp == timestamp_of(config, text_view(reading.internal))
    &&& entry.external_timestamp == timestamp_of(config, text_view(reading.external))
    &&& entry.extend_timestamp == timestamp_of(config, text_view(reading.extend))
    &&& entry.clone_timestamp == timestamp_of(config, text_view(reading.clone))
}

/// Whether one of the entries refers to the configuration `id`.
pub open spec fn referenced(entries: Seq<ConnectivityEntry>, id: Seq<char>) -> bool {
    exists|i: int| 0 <= i < entries.len() && (#[trigger] entries[i]).refers_to(id)
}

/// Whether `orphan` is the configuration entry of its ID.
pub open spec fn is_config(
    orphan: OrphanedConfigEntry,
    config: Map<Seq<char>, (Seq<char>, u64)>,
) -> bool {
    config.contains_key(orphan.config_id@) && config[orphan.config_id@] == (
        orphan.key_name@,
        orphan.timestamp,
    )
}

/// Whether the names of the keys ascend.
pub open spec fn by_key_name(orphans: Seq<OrphanedConfigEntry>) -> bool {
    forall|a: int, b: int|
        0 <= a < b < orphans.len() ==> crate::text::text_less(
            (#[trigger] orphans[a]).key_name@,
            (#[trigger] orphans[b]).key_name@,
        )
}

/// Whether `orphans` are the configuration entries that no connectivity entry
/// refers to, by the names of their keys.
pub open spec fn are_orphans(
    orphans: Seq<OrphanedConfigEntry>,
    entries: Seq<ConnectivityEntry>,
    config: Map<Seq<char>, (Seq<char>, u64)>,
) -> bool {
    &&& by_key_name(orphans)
    &&& forall|a: int|
        0 <= a < orphans.len() ==> is_config(#[trigger] orphans[a], config) && !referenced(
            entries,
            orphans[a].config_id@,
        )
    &&& forall|id: Seq<char>| #[trigger]
        config.contains_key(id) && !referenced(entries, id) ==> exists|a: int|
            0 <= a < orphans.len() && (#[trigger] orphans[a]).config_id@ == id
}

/// Whether one of the entries refers to the configuration `id`.
fn is_referenced(entries: &Vec<ConnectivityEntry>, id: &str) -> (yes: bool)
    ensures
        yes == referenced(entries@, id@),
{
    let mut i: usize = 0;
    while i < entries.len()
        invariant
            i <= entries.len(),
            forall|j: int| 0 <= j < i ==> !(#[trigger] entries@[j]).refers_to(id@),
        decreases entries.len() - i,
    {
        if entries[i].is_reference_to(id) {
            assert(entries@[i as int].refers_to(id@));
            return true;
        }
        i = i + 1;
    }
    false
}

/// Puts an orphan in its place.
fn insert_orphan(orphans: &mut Vec<OrphanedConfigEntry>, orphan: OrphanedConfigEntry)
    requires
        by_key_name(old(orphans)@),
        forall|a: int|
            0 <= a < old(orphans)@.len() ==> (#[trigger] old(orphans)@[a]).key_name@
                != orphan.key_name@,
    ensures
        by_key_name(final(orphans)@),
        exists|p: int|
            0 <= p <= old(orphans)@.len() && final(orphans)@ == #[trigger] old(orphans)@.insert(
                p,
                orphan,
            ),
{
    let ghost before = orphans@;
    let ghost key = orphan.key_name@;
    let mut p: usize = 0;
    while p < orphans.len() && text_before_other(
        orphans[p].key_name.as_str(),
        orphan.key_name.as_str(),
    )
        invariant
            orphans@ == before,
            p <= orphans.len(),
            key == orphan.key_name@,
            forall|a: int|
                0 <= a < p ==> crate::text::text_less((#[trigger] before[a]).key_name@, key),
        decreases orphans.len() - p,
    {
        p = p + 1;
    }
    orphans.insert(p, orphan);
    proof {
        let after = orphans@;
        assert(after == before.insert(p as int, orphan));
        assert forall|a: int, b: int| 0 <= a < b < after.len() implies crate::text::text_less(
            (#[trigger] after[a]).key_name@,
            (#[trigger] after[b]).key_name@,
        ) by {
            if b == p {
                assert(after[a] == before[a]);
            } else if a == p {
                assert(after[b] == before[b - 1]);
                crate::text::lemma_text_less_total(before[p as int].key_name@, key);
                if b - 1 > p {
                    crate::text::lemma_text_less_transitive(
                        key,
                        before[p as int].key_name@,
                        before[b - 1].key_name@,
                    );
                }
            } else {
                let i = if a < p { a } else { a - 1 };
                let j = if b < p { b } else { b - 1 };
                assert(after[a] == before[i]);
                assert(after[b] == before[j]);
            }
        }
    }
}

/// Whether `orphan` is made from `entry`.
spec fn made_from(orphan: OrphanedConfigEntry, entry: ConfigEntry) -> bool {
    &&& orphan.config_id@ == entry.config_id@
    &&& orphan.key_name@ == entry.key_name@
    &&& orphan.timestamp == entry.timestamp
}

/// Whether `orphan` is made from one of the first `n` entries.
spec fn made_from_one(orphan: OrphanedConfigEntry, all: Seq<ConfigEntry>, n: int) -> bool {
    exists|i: int| 0 <= i < n && made_from(orphan, #[trigger] all[i])
}

/// Whether one of the orphans has the ID.
spec fn has_orphan(orphans: Seq<OrphanedConfigEntry>, id: Seq<char>) -> bool {
    exists|a: int| 0 <= a < orphans.len() && (#[trigger] orphans[a]).config_id@ == id
}

/// Whether `orphans` are those of the first `n` configuration entries to which no
/// connectivity entry refers.
spec fn orphans_of(
    orphans: Seq<OrphanedConfigEntry>,
    entries: Seq<ConnectivityEntry>,
    all: Seq<ConfigEntry>,
    n: int,
) -> bool {
    &&& by_key_name(orphans)
    &&& forall|a: int|
        0 <= a < orphans.len() ==> made_from_one(#[trigger] orphans[a], all, n) && !referenced(
            entries,
            orphans[a].config_id@,
        )
    &&& forall|i: int|
        0 <= i < n && !referenced(entries, (#[trigger] all[i]).config_id@) ==> has_orphan(
            orphans,
            all[i].config_id@,
        )
}

/// The entry at `n` is no orphan: nothing is to be added.
proof fn lemma_orphans_pass(
    orphans: Seq<OrphanedConfigEntry>,
    entries: Seq<ConnectivityEntry>,
    all: Seq<ConfigEntry>,
    n: int,
)
    requires
        0 <= n < all.len(),
        orphans_of(orphans, entries, all, n),
        referenced(entries, all[n].config_id@),
    ensures
        orphans_of(orphans, entries, all, n + 1),
{
    assert forall|a: int| 0 <= a < orphans.len() implies made_from_one(
        #[trigger] orphans[a],
        all,
        n + 1,
    ) by {
        let i = choose|i: int| 0 <= i < n && made_from(orphans[a], #[trigger] all[i]);
        assert(made_from(orphans[a], all[i]));
    }
}

/// The entry at `n` is an orphan, and has been put in its place.
proof fn lemma_orphans_insert(
    before: Seq<OrphanedConfigEntry>,
    after: Seq<OrphanedConfigEntry>,
    p: int,
    orphan: OrphanedConfigEntry,
    entries: Seq<ConnectivityEntry>,
    all: Seq<ConfigEntry>,
    n: int,
)
    requires
        0 <= n < all.len(),
        orphans_of(before, entries, all, n),
        !referenced(entries, all[n].config_id@),
        made_from(orphan, all[n]),
        0 <= p <= before.len(),
        after == before.insert(p, orphan),
        by_key_name(after),
    ensures
        orphans_of(after, entries, all, n + 1),
{
    assert(after[p] == orphan);
    assert forall|a: int| 0 <= a < after.len() implies made_from_one(
        #[trigger] after[a],
        all,
        n + 1,
    ) && !referenced(entries, after[a].config_id@) by {
        if a == p {
            assert(made_from(after[a], all[n]));
        } else {
            let b = if a < p { a } else { a - 1 };
            assert(after[a] == before[b]);
            let i = choose|i: int| 0 <= i < n && made_from(before[b], #[trigger] all[i]);
            assert(made_from(after[a], all[i]));
        }
    }
    assert forall|i: int|
        0 <= i < n + 1 && !referenced(entries, (#[trigger] all[i]).config_id@) implies has_orphan(
        after,
        all[i].config_id@,
    ) by {
        if i == n {
            assert(after[p].config_id@ == all[i].config_id@);
        } else {
            assert(has_orphan(before, all[i].config_id@));
            let b = choose|b: int|
                0 <= b < before.len() && (#[trigger] before[b]).config_id@ == all[i].config_id@;
            let a = if b < p { b } else { b + 1 };
            assert(after[a] == before[b]);
        }
    }
}

/// No orphan so far has the key of the entry at `n`.
proof fn lemma_orphan_key_is_new(
    orphans: Seq<OrphanedConfigEntry>,
    entries: Seq<ConnectivityEntry>,
    config: ConfigEntries,
    n: int,
)
    requires
        config.wf(),
        0 <= n < config.entries@.len(),
        orphans_of(orphans, entries, config.entries@, n),
    ensures
        forall|a: int|
            0 <= a < orphans.len() ==> (#[trigger] orphans[a]).key_name@
                != config.entries@[n].key_name@,
{
    let all = config.entries@;
    assert forall|a: int| 0 <= a < orphans.len() implies (#[trigger] orphans[a]).key_name@
        != all[n].key_name@ by {
        let i = choose|i: int| 0 <= i < n && made_from(orphans[a], #[trigger] all[i]);
        assert(all[i].config_id@ != all[n].config_id@);
    }
}

/// The orphans of all entries are the orphans.
proof fn lemma_orphans_done(
    orphans: Seq<OrphanedConfigEntry>,
    entries: Seq<ConnectivityEntry>,
    config: ConfigEntries,
)
    requires
        config.wf(),
        orphans_of(orphans, entries, config.entries@, config.entries@.len() as int),
    ensures
        are_orphans(orphans, entries, config@),
{
    let all = config.entries@;
    lemma_entries_map(all);
    assert forall|a: int| 0 <= a < orphans.len() implies is_config(#[trigger] orphans[a], config@) by {
        let i = choose|i: int| 0 <= i < all.len() && made_from(orphans[a], #[trigger] all[i]);
        assert(config@.contains_key(all[i].config_id@));
    }
    assert forall|id: Seq<char>| #[trigger]
        config@.contains_key(id) && !referenced(entries, id) implies exists|a: int|
        0 <= a < orphans.len() && (#[trigger] orphans[a]).config_id@ == id by {
        let i = choose|i: int| 0 <= i < all.len() && (#[trigger] all[i]).config_id@ == id;
        assert(has_orphan(orphans, all[i].config_id@));
    }
}

/// Finds the configuration entries that no connectivity entry refers to, by the
/// names of their keys.
pub fn orphaned_configs(config: ConfigEntries, entries: &Vec<ConnectivityEntry>) -> (orphans: Vec<
    OrphanedConfigEntry,
>)
    requires
        config.wf(),
    ensures
        are_orphans(orphans@, entries@, config@),
{
    let ghost all = config.entries@;
    let mut orphans: Vec<OrphanedConfigEntry> = Vec::new();
    for entry in it: config.entries
        invariant
            it.seq() == all,
            config.wf(),
            all == config.entries@,
            orphans_of(orphans@, entries@, all, it.index()),
    {
        let ghost n = it.index();
        let ghost before = orphans@;
        assert(entry == all[n]);
        if is_referenced(entries, entry.config_id.as_str()) {
            proof {
                lemma_orphans_pass(before, entries@, all, n);
            }
        } else {
            let orphan = OrphanedConfigEntry {
                key_name: entry.key_name,
                config_id: entry.config_id,
                timestamp: entry.timestamp,
            };
            proof {
                lemma_orphan_key_is_new(before, entries@, config, n);
            }
            insert_orphan(&mut orphans, orphan);
            proof {
                let p = choose|p: int|
                    0 <= p <= before.len() && orphans@ == #[trigger] before.insert(p, orphan);
                lemma_orphans_insert(before, orphans@, p, orphan, entries@, all, n);
            }
        }
    }
    proof {
        lemma_orphans_done(orphans@, entries@, config);
    }
    orphans
}

/// Reads the connectivity database and finds, by comparing it with the
/// configuration entries, what is orphaned on either side.
///
/// `config_keys` is what was read of the configuration keys, if they could be
/// listed at all. `connectivity_keys` is what was read of the connectivity keys,
/// or what the system said; the first key that could not be read ends the
/// reading.
pub fn read_connectivity_database(
    config_keys: Option<Vec<ConfigReading>>,
    connectivity_keys: Result<Vec<Result<ConnectivityReading, String>>, String>,
) -> (database: Result<(Vec<ConnectivityEntry>, Vec<OrphanedConfigEntry>), DisplayError>)
    ensures
        match connectivity_keys {
            Err(said) => database is Err && database->Err_0@ == crate::error::ErrorModel::WinAPI(
                "Cannot open Connectivity key (run as administrator): "@ + said@,
            ),
            Ok(keys) => {
                let error = crate::query::first_error(keys@);
                let config = config_map_if(config_keys);
                if error < keys@.len() {
                    database is Err && database->Err_0@ == crate::error::ErrorModel::WinAPI(
                        keys@[error]->Err_0@,
                    )
                } else {
                    &&& database is Ok
                    &&& database->Ok_0.0@.len() == keys@.len()
                    &&& forall|i: int|
                        0 <= i < keys@.len() ==> is_entry_of(
                            #[trigger] database->Ok_0.0@[i],
                            keys@[i]->Ok_0,
                            config,
                        )
                    &&& are_orphans(database->Ok_0.1@, database->Ok_0.0@, config)
                    &&& forall|i: int|
                        0 <= i < keys@.len() ==> {
                            let entry = #[trigger] database->Ok_0.0@[i];
                            let reading = keys@[i]->Ok_0;
                            &&& entry.key_name@ == reading.key_name@
                            &&& reading.set_id is Some ==> entry.set_id@ == reading.set_id->0@
                            &&& reading.set_id is None ==> entry.set_id@.len() == 0
                            &&& entry.recent == reading.recent
                            &&& entry.internal == reading.internal
                            &&& entry.external == reading.external
                            &&& entry.extend == reading.extend
                            &&& entry.clone == reading.clone
                            &&& entry.internal_timestamp == match reading.internal {
                                Some(id) => if config.contains_key(id@) {
                                    Some(config[id@].1)
                                } else {
                                    None
                                },
                                None => None,
                            }
                            &&& entry.external_timestamp == match reading.external {
                                Some(id) => if config.contains_key(id@) {
                                    Some(config[id@].1)
                                } else {
                                    None
                                },
                                None => None,
                            }
                            &&& entry.extend_timestamp == match reading.extend {
                                Some(id) => if config.contains_key(id@) {
                                    Some(config[id@].1)
                                } else {
                                    None
                                },
                                None => None,
                            }
                            &&& entry.clone_timestamp == match reading.clone {
                                Some(id) => if config.contains_key(id@) {
                                    Some(config[id@].1)
                                } else {
                                    None
                                },
                                None => None,
                            }
                        }
                }
            },
        },
{
    let config: ConfigEntries = read_config_entries(config_keys);
    let keys = match connectivity_keys {
        Ok(keys) => keys,
        Err(said) => {
            return Err(
                call_failed(
                    "Cannot open Connectivity key (run as administrator): ",
                    said.as_str(),
                ),
            );
        },
    };
    let ghost all = keys@;
    let mut entries: Vec<ConnectivityEntry> = Vec::new();
    for key in it: keys
        invariant
            it.seq() == all,
            connectivity_keys is Ok,
            connectivity_keys->Ok_0@ == all,
            config.wf(),
            entries@.len() == it.index(),
            forall|i: int| 0 <= i < it.index() ==> (#[trigger] all[i]) is Ok,
            forall|i: int|
                0 <= i < it.index() ==> is_entry_of(
                    #[trigger] entries@[i],
                    all[i]->Ok_0,
                    config@,
                ),
    {
        match key {
            Err(said) => {
                proof {
                    crate::query::lemma_first_error_is(all, it.index());
                }
                return Err(DisplayError::WinAPI(said));
            },
            Ok(reading) => {
                let internal_timestamp = config.timestamp_if(&reading.internal);
                let external_timestamp = config.timestamp_if(&reading.external);
                let extend_timestamp = config.timestamp_if(&reading.extend);
                let clone_timestamp = config.timestamp_if(&reading.clone);
                let set_id = match reading.set_id {
                    Some(set_id) => set_id,
                    None => String::new(),
                };
                entries.push(
                    ConnectivityEntry {
                        key_name: reading.key_name,
                        set_id,
                        recent: reading.recent,
                        internal: reading.internal,
                        external: reading.external,
                        extend: reading.extend,
                        clone: reading.clone,
                        internal_timestamp,
                        external_timestamp,
                        extend_timestamp,
                        clone_timestamp,
                    },
                );
            },
        }
    }
    proof {
        crate::query::lemma_first_error_is(all, all.len() as int);
    }
    let orphans = orphaned_configs(config, &entries);
    Ok((entries, orphans))
}

} // verus!
