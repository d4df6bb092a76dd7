//! What holds of every connectivity database.

use vstd::prelude::*;

use crate::connectivity::{
    ConfigReading, ConnectivityEntry, ConnectivityReading, OrphanedConfigEntry,
};
use crate::topology::Topology;

verus! {

/// The topology that will be applied next is one of those that are available.
pub proof fn law_recent_is_available(entry: ConnectivityEntry)
    ensures
        entry.recent_name() matches Some(name) ==> entry.available_names().contains(name),
{
    let names = entry.available_names();
    let a = crate::connectivity::name_if(entry.internal, "Internal"@);
    let b = crate::connectivity::name_if(entry.external, "External"@);
    let c = crate::connectivity::name_if(entry.extend, "Extend"@);
    let d = crate::connectivity::name_if(entry.clone, "Clone"@);
    if entry.recent_name() is Some {
        if crate::connectivity::text_view(entry.internal) == crate::connectivity::text_view(
            entry.recent,
        ) {
            assert(names[0] == "Internal"@);
        } else if crate::connectivity::text_view(entry.external) == crate::connectivity::text_view(
            entry.recent,
        ) {
            assert(names[a.len() as int] == "External"@);
        } else if crate::connectivity::text_view(entry.extend) == crate::connectivity::text_view(
            entry.recent,
        ) {
            assert(names[a.len() + b.len() as int] == "Extend"@);
        } else {
            assert(names[a.len() + b.len() + c.len() as int] == "Clone"@);
        }
    }
}

/// Whether no topology that is looked at before `topology` has the same stored
/// configuration.
pub open spec fn first_with_id(entry: ConnectivityEntry, topology: Topology) -> bool {
    let id = entry.stored_id(topology);
    match topology {
        Topology::Internal => true,
        Topology::External => entry.stored_id(Topology::Internal) != id,
        Topology::Extend => entry.stored_id(Topology::Internal) != id && entry.stored_id(
            Topology::External,
        ) != id,
        Topology::Clone => entry.stored_id(Topology::Internal) != id && entry.stored_id(
            Topology::External,
        ) != id && entry.stored_id(Topology::Extend) != id,
        Topology::Unknown(_) => false,
    }
}

/// After the stored configuration of a topology was written as the recent one,
/// the display set gets that configuration: the topology that will be applied is
/// one with the same stored configuration, and it is the chosen topology itself
/// unless one that is looked at earlier shares its configuration.
pub proof fn law_recent_after_change(
    before: ConnectivityEntry,
    after: ConnectivityEntry,
    topology: Topology,
)
    requires
        before.stored_id(topology) is Some,
        after.internal == before.internal,
        after.external == before.external,
        after.extend == before.extend,
        after.clone == before.clone,
        crate::connectivity::text_view(after.recent) == before.stored_id(topology),
    ensures
        exists|applied: Topology|
            #![trigger before.stored_id(applied)]
            after.recent_name() == Some(applied.as_text()) && before.stored_id(applied)
                == before.stored_id(topology),
        first_with_id(before, topology) ==> after.recent_name() == Some(topology.as_text()),
{
    let id = before.stored_id(topology);
    let applied = if before.stored_id(Topology::Internal) == id {
        Topology::Internal
    } else if before.stored_id(Topology::External) == id {
        Topology::External
    } else if before.stored_id(Topology::Extend) == id {
        Topology::Extend
    } else {
        Topology::Clone
    };
    assert(before.stored_id(applied) == id);
    assert(after.recent_name() == Some(applied.as_text()));
}

/// The names of the registry values are all different.
proof fn lemma_value_names_differ()
    ensures
        forall|i: int, j: int|
            0 <= i < j < crate::connectivity::value_names().len() ==> (
            #[trigger] crate::connectivity::value_names()[i])
                != #[trigger] crate::connectivity::value_names()[j],
{
    reveal_strlit("SetId");
    reveal_strlit("Recent");
    reveal_strlit("Internal");
    reveal_strlit("External");
    reveal_strlit("eXtend");
    reveal_strlit("Clone");
    let names = crate::connectivity::value_names();
    assert(names[0].len() == 5 && names[0][0] == 'S');
    assert(names[1].len() == 6 && names[1][0] == 'R');
    assert(names[2].len() == 8 && names[2][0] == 'I');
    assert(names[3].len() == 8 && names[3][0] == 'E');
    assert(names[4].len() == 6 && names[4][0] == 'e');
    assert(names[5].len() == 5 && names[5][0] == 'C');
}

/// The registry value that a change of the recent topology reads is the stored
/// configuration of that topology in the entry.
pub proof fn law_registry_value_is_stored_id(
    entry: ConnectivityEntry,
    reading: ConnectivityReading,
    config: Map<Seq<char>, (Seq<char>, u64)>,
    values: Seq<Option<String>>,
    topology: Topology,
    i: int,
)
    requires
        crate::connectivity::is_entry_of(entry, reading, config),
        reading == reading_of(reading.key_name, values),
        0 <= i < crate::connectivity::value_names().len(),
        topology.registry_value() == Some(crate::connectivity::value_names()[i]),
    ensures
        entry.stored_id(topology) == crate::connectivity::text_view(values[i]),
{
    lemma_value_names_differ();
    let names = crate::connectivity::value_names();
    match topology {
        Topology::Internal => {
            assert(names[2] == names[i]);
        },
        Topology::External => {
            assert(names[3] == names[i]);
        },
        Topology::Extend => {
            assert(names[4] == names[i]);
        },
        Topology::Clone => {
            assert(names[5] == names[i]);
        },
        Topology::Unknown(_) => {},
    }
}

/// What was read of a key with the given values.
pub open spec fn reading_of(key_name: String, values: Seq<Option<String>>) -> ConnectivityReading {
    ConnectivityReading {
        key_name,
        set_id: values[0],
        recent: values[1],
        internal: values[2],
        external: values[3],
        extend: values[4],
        clone: values[5],
    }
}

/// A change of the recent topology takes effect: where the value that `Recent`
/// names got what the value of `topology` holds, and all other values stayed,
/// the entry that is read afterwards remembers a topology with that stored
/// configuration, and `topology` itself unless one that is looked at earlier
/// shares its configuration.
pub proof fn law_recent_write_takes_effect(
    key_name: String,
    before_values: Seq<Option<String>>,
    after_values: Seq<Option<String>>,
    before: ConnectivityEntry,
    after: ConnectivityEntry,
    before_config: Map<Seq<char>, (Seq<char>, u64)>,
    after_config: Map<Seq<char>, (Seq<char>, u64)>,
    topology: Topology,
    read: int,
    written: int,
)
    requires
        before_values.len() == crate::connectivity::value_names().len(),
        after_values.len() == before_values.len(),
        crate::connectivity::is_entry_of(
            before,
            reading_of(key_name, before_values),
            before_config,
        ),
        crate::connectivity::is_entry_of(after, reading_of(key_name, after_values), after_config),
        0 <= read < before_values.len(),
        topology.registry_value() == Some(crate::connectivity::value_names()[read]),
        before_values[read] is Some,
        0 <= written < before_values.len(),
        crate::connectivity::value_names()[written] == crate::connectivity::recent_value(),
        crate::connectivity::text_view(after_values[written]) == crate::connectivity::text_view(
            before_values[read],
        ),
        forall|i: int|
            0 <= i < before_values.len() && i != written ==> #[trigger] after_values[i]
                == before_values[i],
    ensures
        before.stored_id(topology) == crate::connectivity::text_view(before_values[read]),
        exists|applied: Topology|
            #![trigger before.stored_id(applied)]
            after.recent_name() == Some(applied.as_text()) && before.stored_id(applied)
                == before.stored_id(topology),
        first_with_id(before, topology) ==> after.recent_name() == Some(topology.as_text()),
{
    let names = crate::connectivity::value_names();
    lemma_value_names_differ();
    assert(names[1] == names[written]);
    assert(written == 1);
    law_registry_value_is_stored_id(
        before,
        reading_of(key_name, before_values),
        before_config,
        before_values,
        topology,
        read,
    );
    law_recent_after_change(before, after, topology);
}

/// Whether a configuration key could be listed and read, and is one of the
/// configuration `id`.
pub open spec fn is_key_of(key: ConfigReading, id: Seq<char>) -> bool {
    &&& key.name is Some
    &&& key.timestamp is Some
    &&& crate::text::before(key.name->0@, '^') == id
}

/// A configuration is known if and only if there is a readable key of it.
pub proof fn law_config_map_known(keys: Seq<ConfigReading>, id: Seq<char>)
    ensures
        crate::connectivity::config_map(keys).contains_key(id) <==> exists|i: int|
            0 <= i < keys.len() && is_key_of(#[trigger] keys[i], id),
    decreases keys.len(),
{
    if keys.len() > 0 {
        let front = keys.drop_last();
        law_config_map_known(front, id);
        assert(keys[keys.len() - 1] == keys.last());
        if exists|i: int| 0 <= i < front.len() && is_key_of(#[trigger] front[i], id) {
            let i = choose|i: int| 0 <= i < front.len() && is_key_of(#[trigger] front[i], id);
            assert(is_key_of(keys[i], id));
        }
        if exists|i: int| 0 <= i < keys.len() && is_key_of(#[trigger] keys[i], id) {
            let i = choose|i: int| 0 <= i < keys.len() && is_key_of(#[trigger] keys[i], id);
            if i < front.len() {
                assert(is_key_of(front[i], id));
            }
        }
    }
}

/// Of several readable keys of a configuration the last one counts.
pub proof fn law_config_map_last_wins(keys: Seq<ConfigReading>, id: Seq<char>, i: int)
    requires
        0 <= i < keys.len(),
        is_key_of(keys[i], id),
        forall|j: int| i < j < keys.len() ==> !is_key_of(#[trigger] keys[j], id),
    ensures
        crate::connectivity::config_map(keys).contains_key(id),
        crate::connectivity::config_map(keys)[id] == (keys[i].name->0@, keys[i].timestamp->0),
    decreases keys.len(),
{
    if i < keys.len() - 1 {
        let front = keys.drop_last();
        assert(front[i] == keys[i]);
        assert forall|j: int| i < j < front.len() implies !is_key_of(#[trigger] front[j], id) by {
            assert(front[j] == keys[j]);
        }
        law_config_map_last_wins(front, id, i);
        assert(!is_key_of(keys[keys.len() - 1], id));
    }
}

/// A timestamp is known only of a topology that has a stored configuration.
pub proof fn law_timestamp_needs_configuration(
    entry: ConnectivityEntry,
    reading: ConnectivityReading,
    config: Map<Seq<char>, (Seq<char>, u64)>,
)
    requires
        crate::connectivity::is_entry_of(entry, reading, config),
    ensures
        entry.internal_timestamp is Some ==> entry.internal is Some,
        entry.external_timestamp is Some ==> entry.external is Some,
        entry.extend_timestamp is Some ==> entry.extend is Some,
        entry.clone_timestamp is Some ==> entry.clone is Some,
{
}

/// An entry has a timestamp if and only if one of the configurations that it
/// refers to is among the configuration entries.
pub proof fn law_configuration_key(
    entry: ConnectivityEntry,
    reading: ConnectivityReading,
    config: Map<Seq<char>, (Seq<char>, u64)>,
)
    requires
        crate::connectivity::is_entry_of(entry, reading, config),
    ensures
        (entry.internal_timestamp is Some || entry.external_timestamp is Some
            || entry.extend_timestamp is Some || entry.clone_timestamp is Some) <==> exists|
            id: Seq<char>,
        | #[trigger] config.contains_key(id) && entry.refers_to(id),
{
    if entry.internal_timestamp is Some {
        assert(config.contains_key(entry.internal->0@));
    }
    if entry.external_timestamp is Some {
        assert(config.contains_key(entry.external->0@));
    }
    if entry.extend_timestamp is Some {
        assert(config.contains_key(entry.extend->0@));
    }
    if entry.clone_timestamp is Some {
        assert(config.contains_key(entry.clone->0@));
    }
}

/// Each configuration entry is either referred to or listed as an orphan, and
/// never both.
pub proof fn law_orphans_are_the_rest(
    orphans: Seq<OrphanedConfigEntry>,
    entries: Seq<ConnectivityEntry>,
    config: Map<Seq<char>, (Seq<char>, u64)>,
    id: Seq<char>,
)
    requires
        crate::connectivity::are_orphans(orphans, entries, config),
        config.contains_key(id),
    ensures
        crate::connectivity::referenced(entries, id) != exists|a: int|
            0 <= a < orphans.len() && (#[trigger] orphans[a]).config_id@ == id,
{
}

/// The list of orphans is determined, in whatever order the configuration
/// entries were stored.
pub proof fn law_orphans_unique(
    a: Seq<OrphanedConfigEntry>,
    b: Seq<OrphanedConfigEntry>,
    entries: Seq<ConnectivityEntry>,
    config: Map<Seq<char>, (Seq<char>, u64)>,
)
    requires
        crate::connectivity::are_orphans(a, entries, config),
        crate::connectivity::are_orphans(b, entries, config),
    ensures
        a.len() == b.len(),
        forall|k: int|
            0 <= k < a.len() ==> (#[trigger] a[k]).key_name@ == b[k].key_name@ && a[k].config_id@
                == b[k].config_id@ && a[k].timestamp == b[k].timestamp,
{
    lemma_orphans_prefix(a, b, entries, config, a.len() as int);
    lemma_orphans_prefix(b, a, entries, config, b.len() as int);
    assert forall|k: int| 0 <= k < a.len() implies (#[trigger] a[k]).key_name@ == b[k].key_name@
        && a[k].config_id@ == b[k].config_id@ && a[k].timestamp == b[k].timestamp by {
        assert(crate::connectivity::is_config(a[k], config));
        assert(crate::connectivity::is_config(b[k], config));
    }
}

/// Two lists of orphans agree as far as the first one goes.
proof fn lemma_orphans_prefix(
    a: Seq<OrphanedConfigEntry>,
    b: Seq<OrphanedConfigEntry>,
    entries: Seq<ConnectivityEntry>,
    config: Map<Seq<char>, (Seq<char>, u64)>,
    n: int,
)
    requires
        crate::connectivity::are_orphans(a, entries, config),
        crate::connectivity::are_orphans(b, entries, config),
        0 <= n <= a.len(),
    ensures
        n <= b.len(),
        forall|k: int| 0 <= k < n ==> (#[trigger] a[k]).config_id@ == b[k].config_id@,
    decreases n,
{
    if n > 0 {
        lemma_orphans_prefix(a, b, entries, config, n - 1);
        let next = a[n - 1];
        assert(crate::connectivity::is_config(next, config));
        assert(config.contains_key(next.config_id@));
        let at = choose|k: int|
            0 <= k < b.len() && (#[trigger] b[k]).config_id@ == next.config_id@;
        assert(crate::connectivity::is_config(b[at], config));
        if at < n - 1 {
            assert(a[at].config_id@ == b[at].config_id@);
            assert(crate::connectivity::is_config(a[at], config));
            assert(crate::text::text_less(a[at].key_name@, a[n - 1].key_name@));
            crate::text::lemma_text_less_irreflexive(next.key_name@);
        } else if at > n - 1 {
            let skipped = b[n - 1];
            assert(crate::connectivity::is_config(skipped, config));
            assert(config.contains_key(skipped.config_id@));
            let back = choose|k: int|
                0 <= k < a.len() && (#[trigger] a[k]).config_id@ == skipped.config_id@;
            assert(crate::connectivity::is_config(a[back], config));
            assert(crate::text::text_less(skipped.key_name@, b[at].key_name@));
            if back < n - 1 {
                assert(a[back].config_id@ == b[back].config_id@);
                assert(crate::connectivity::is_config(b[back], config));
                assert(crate::text::text_less(b[back].key_name@, b[n - 1].key_name@));
                crate::text::lemma_text_less_irreflexive(skipped.key_name@);
            } else if back > n - 1 {
                assert(crate::text::text_less(a[n - 1].key_name@, a[back].key_name@));
                crate::text::lemma_text_less_transitive(
                    next.key_name@,
                    skipped.key_name@,
                    next.key_name@,
                );
                crate::text::lemma_text_less_irreflexive(next.key_name@);
            } else {
                crate::text::lemma_text_less_irreflexive(next.key_name@);
            }
        }
    }
}

/// Each prefix stands at the front of one of the monitor IDs; it is not empty,
/// not longer than the code of a model, and without an underscore.
pub proof fn law_monitor_prefixes(ids: Seq<Seq<char>>, k: int)
    requires
        0 <= k < crate::connectivity::model_prefixes(ids).len(),
    ensures
        ({
            let prefix = crate::connectivity::model_prefixes(ids)[k];
            &&& 0 < prefix.len() <= crate::connectivity::MODEL_CODE_LENGTH
            &&& forall|i: int| 0 <= i < prefix.len() ==> prefix[i] != '_'
            &&& exists|j: int|
                0 <= j < ids.len() && crate::text::starts_with(#[trigger] ids[j], prefix)
        }),
    decreases ids.len(),
{
    if ids.len() > 0 {
        let front = crate::connectivity::model_prefixes(ids.drop_last());
        let prefix = crate::connectivity::model_prefixes(ids)[k];
        if k < front.len() {
            law_monitor_prefixes(ids.drop_last(), k);
            let j = choose|j: int|
                0 <= j < ids.drop_last().len() && crate::text::starts_with(
                    #[trigger] ids.drop_last()[j],
                    prefix,
                );
            assert(crate::text::starts_with(ids[j], prefix));
        } else {
            let id = ids.last();
            crate::text::lemma_find(id, '_');
            assert(id.take(prefix.len() as int) =~= prefix);
            assert(crate::text::starts_with(ids[ids.len() - 1], prefix));
        }
    }
}

/// A monitor ID that begins with a code of the full length, without an underscore
/// in it, gives that code.
pub proof fn law_model_prefix_of_monitor(code: Seq<char>, rest: Seq<char>)
    requires
        code.len() == crate::connectivity::MODEL_CODE_LENGTH,
        forall|i: int| 0 <= i < code.len() ==> code[i] != '_',
    ensures
        crate::connectivity::model_prefix(code + rest) == code,
{
    let id = code + rest;
    crate::text::lemma_find(id, '_');
    let end = crate::text::find(id, '_');
    if end < code.len() {
        assert(id[end] == code[end]);
    }
    assert(id.take(end).take(code.len() as int) =~= code);
    assert(crate::connectivity::model_prefix(id) =~= code);
}

/// The prefix of a monitor ID is of the model whose code, of whatever length,
/// the ID begins with.
pub proof fn law_model_prefix_is_of_the_model(id: Seq<char>, code: Seq<char>)
    requires
        crate::text::starts_with(id, code),
    ensures
        crate::display_sets::same_model(crate::connectivity::model_prefix(id), code),
{
    let prefix = crate::connectivity::model_prefix(id);
    crate::text::lemma_find(id, '_');
    assert(prefix =~= id.take(prefix.len() as int));
    if prefix.len() <= code.len() {
        assert(code.take(prefix.len() as int) =~= prefix);
    } else {
        assert(prefix.take(code.len() as int) =~= code);
    }
}

/// Whether each text can be a monitor ID: there is something in front of its
/// first underscore, and it does not hold the separator of IDs.
pub open spec fn are_monitor_ids(ids: Seq<Seq<char>>) -> bool {
    &&& forall|i: int|
        0 <= i < ids.len() ==> (#[trigger] ids[i]).len() > 0 && ids[i][0] != '_'
    &&& forall|i: int, j: int|
        0 <= i < ids.len() && 0 <= j < ids[i].len() ==> #[trigger] ids[i][j] != '^'
}

/// Each ID with something in front of its first underscore has a prefix.
proof fn lemma_prefixes_of_ids(ids: Seq<Seq<char>>)
    requires
        forall|i: int| 0 <= i < ids.len() ==> (#[trigger] ids[i]).len() > 0 && ids[i][0] != '_',
    ensures
        crate::connectivity::model_prefixes(ids) == ids.map_values(
            |id: Seq<char>| crate::connectivity::model_prefix(id),
        ),
    decreases ids.len(),
{
    let prefixes = ids.map_values(|id: Seq<char>| crate::connectivity::model_prefix(id));
    if ids.len() > 0 {
        let front = ids.drop_last();
        let last = ids.last();
        assert forall|i: int| 0 <= i < front.len() implies (#[trigger] front[i]).len() > 0
            && front[i][0] != '_' by {
            assert(front[i] == ids[i]);
        }
        lemma_prefixes_of_ids(front);
        assert(ids[ids.len() - 1] == last);
        crate::text::lemma_find(last, '_');
        assert(crate::text::find(last, '_') > 0);
        assert(crate::connectivity::model_prefix(last).len() > 0);
    }
    assert(crate::connectivity::model_prefixes(ids) =~= prefixes);
}

/// The identifier of a display set gives the prefixes of the IDs of its monitors,
/// one for each and in their order.
pub proof fn law_prefixes_of_display_set(ids: Seq<Seq<char>>)
    requires
        are_monitor_ids(ids),
    ensures
        crate::connectivity::model_prefixes(
            crate::text::split(crate::text::join(ids, seq!['^']), '^'),
        ) == ids.map_values(|id: Seq<char>| crate::connectivity::model_prefix(id)),
{
    let set_id = crate::text::join(ids, seq!['^']);
    if ids.len() > 0 {
        crate::text::law_split_join(ids, '^');
        lemma_prefixes_of_ids(ids);
    } else {
        let parts = crate::text::split(set_id, '^');
        assert(parts =~= seq![set_id]);
        assert(crate::connectivity::model_prefix(set_id).len() == 0);
        assert(parts.drop_last() =~= Seq::empty());
        assert(crate::connectivity::model_prefixes(parts.drop_last()) =~= Seq::empty());
        assert(parts.last() == set_id);
        assert(crate::connectivity::model_prefixes(parts) =~= ids.map_values(
            |id: Seq<char>| crate::connectivity::model_prefix(id),
        ));
    }
}

/// Where the IDs of the monitors begin with codes of the full length, without an
/// underscore, the identifier of the display set gives these codes.
pub proof fn law_codes_of_display_set(ids: Seq<Seq<char>>, codes: Seq<Seq<char>>)
    requires
        are_monitor_ids(ids),
        codes.len() == ids.len(),
        forall|i: int|
            0 <= i < codes.len() ==> (#[trigger] codes[i]).len()
                == crate::connectivity::MODEL_CODE_LENGTH && crate::text::starts_with(
                ids[i],
                codes[i],
            ),
        forall|i: int, j: int|
            0 <= i < codes.len() && 0 <= j < codes[i].len() ==> #[trigger] codes[i][j] != '_',
    ensures
        crate::connectivity::model_prefixes(
            crate::text::split(crate::text::join(ids, seq!['^']), '^'),
        ) == codes,
{
    law_prefixes_of_display_set(ids);
    let prefixes = ids.map_values(|id: Seq<char>| crate::connectivity::model_prefix(id));
    assert forall|i: int| 0 <= i < codes.len() implies prefixes[i] == #[trigger] codes[i] by {
        let code = codes[i];
        let rest = ids[i].skip(code.len() as int);
        assert forall|j: int| 0 <= j < code.len() implies code[j] != '_' by {
            assert(codes[i][j] != '_');
        }
        law_model_prefix_of_monitor(code, rest);
        assert(ids[i] =~= code + rest);
    }
    assert(prefixes =~= codes);
}

/// A display set is recognised: where its monitors are the connected ones, its
/// entry is the current one. There are as many of either, and the ID of each
/// monitor begins with the code of a connected model. The codes may have any
/// length, and the monitors may come in any order.
pub proof fn law_display_set_is_recognised(
    entry: ConnectivityEntry,
    ids: Seq<Seq<char>>,
    connected: Seq<Seq<char>>,
)
    requires
        are_monitor_ids(ids),
        entry.set_id@ == crate::text::join(ids, seq!['^']),
        connected.len() == ids.len(),
        forall|i: int|
            0 <= i < ids.len() ==> exists|j: int|
                0 <= j < connected.len() && crate::text::starts_with(
                    #[trigger] ids[i],
                    #[trigger] connected[j],
                ),
    ensures
        crate::display_sets::current_entry(entry, connected),
{
    law_prefixes_of_display_set(ids);
    let prefixes = ids.map_values(|id: Seq<char>| crate::connectivity::model_prefix(id));
    assert forall|i: int| 0 <= i < prefixes.len() implies crate::display_sets::matches_one(
        #[trigger] prefixes[i],
        connected,
    ) by {
        let id = ids[i];
        let j = choose|j: int|
            0 <= j < connected.len() && crate::text::starts_with(id, #[trigger] connected[j]);
        law_model_prefix_is_of_the_model(id, connected[j]);
        assert(crate::display_sets::same_model(prefixes[i], connected[j]));
    }
}

/// Whether a stored configuration is there and has the ID.
pub open spec fn stored_as(stored: Option<String>, id: Seq<char>) -> bool {
    stored is Some && stored->0@ == id
}

/// The topology that is remembered is the first, of internal, external, extend and
/// clone, whose stored configuration is the recent one. Without a recent one, or
/// where none is the same, nothing is remembered.
pub proof fn law_recent_name(entry: ConnectivityEntry)
    ensures
        entry.recent is None ==> entry.recent_name() is None,
        entry.recent matches Some(recent) ==> {
            let internal = stored_as(entry.internal, recent@);
            let external = stored_as(entry.external, recent@);
            let extend = stored_as(entry.extend, recent@);
            let clone = stored_as(entry.clone, recent@);
            &&& internal ==> entry.recent_name() == Some("Internal"@)
            &&& !internal && external ==> entry.recent_name() == Some("External"@)
            &&& !internal && !external && extend ==> entry.recent_name() == Some("Extend"@)
            &&& !internal && !external && !extend && clone ==> entry.recent_name() == Some(
                "Clone"@,
            )
            &&& !internal && !external && !extend && !clone ==> entry.recent_name() is None
        },
{
}

/// A topology is available if and only if it has a stored configuration. The names
/// stand in the order internal, external, extend, clone, each once.
pub proof fn law_available_names(entry: ConnectivityEntry)
    ensures
        ({
            let names = entry.available_names();
            let internal: int = if entry.internal is Some { 1 } else { 0 };
            let external: int = if entry.external is Some { 1 } else { 0 };
            let extend: int = if entry.extend is Some { 1 } else { 0 };
            let clone: int = if entry.clone is Some { 1 } else { 0 };
            &&& names.len() == internal + external + extend + clone
            &&& entry.internal is Some ==> names[0] == "Internal"@
            &&& entry.external is Some ==> names[internal] == "External"@
            &&& entry.extend is Some ==> names[internal + external] == "Extend"@
            &&& entry.clone is Some ==> names[internal + external + extend] == "Clone"@
        }),
{
}

/// The stored configuration of each topology is the one under its name.
pub proof fn law_stored_id(entry: ConnectivityEntry, topology: Topology, id: Seq<char>)
    ensures
        entry.stored_id(topology) == Some(id) <==> match topology {
            Topology::Internal => stored_as(entry.internal, id),
            Topology::External => stored_as(entry.external, id),
            Topology::Extend => stored_as(entry.extend, id),
            Topology::Clone => stored_as(entry.clone, id),
            Topology::Unknown(_) => false,
        },
{
}

/// A configuration is referred to if and only if it is stored for one of the four
/// topologies of an entry.
pub proof fn law_referenced(entries: Seq<ConnectivityEntry>, id: Seq<char>)
    ensures
        crate::connectivity::referenced(entries, id) <==> exists|i: int|
            0 <= i < entries.len() && {
                let entry = #[trigger] entries[i];
                ||| stored_as(entry.internal, id)
                ||| stored_as(entry.external, id)
                ||| stored_as(entry.extend, id)
                ||| stored_as(entry.clone, id)
            },
{
    if crate::connectivity::referenced(entries, id) {
        let i = choose|i: int| 0 <= i < entries.len() && (#[trigger] entries[i]).refers_to(id);
        assert(entries[i].refers_to(id));
    }
    if exists|i: int|
        0 <= i < entries.len() && {
            let entry = #[trigger] entries[i];
            ||| stored_as(entry.internal, id)
            ||| stored_as(entry.external, id)
            ||| stored_as(entry.extend, id)
            ||| stored_as(entry.clone, id)
        } {
        let i = choose|i: int|
            0 <= i < entries.len() && {
                let entry = #[trigger] entries[i];
                ||| stored_as(entry.internal, id)
                ||| stored_as(entry.external, id)
                ||| stored_as(entry.extend, id)
                ||| stored_as(entry.clone, id)
            };
        assert(entries[i].refers_to(id));
    }
}

/// Each orphan carries the key and the timestamp of its configuration entry, none
/// of the entries stores its ID for any topology, and the names of the keys ascend.
pub proof fn law_orphan(
    orphans: Seq<OrphanedConfigEntry>,
    entries: Seq<ConnectivityEntry>,
    config: Map<Seq<char>, (Seq<char>, u64)>,
    a: int,
    i: int,
)
    requires
        crate::connectivity::are_orphans(orphans, entries, config),
        0 <= a < orphans.len(),
    ensures
        config.contains_key(orphans[a].config_id@),
        config[orphans[a].config_id@].0 == orphans[a].key_name@,
        config[orphans[a].config_id@].1 == orphans[a].timestamp,
        0 <= i < entries.len() ==> {
            let id = orphans[a].config_id@;
            &&& !stored_as(entries[i].internal, id)
            &&& !stored_as(entries[i].external, id)
            &&& !stored_as(entries[i].extend, id)
            &&& !stored_as(entries[i].clone, id)
        },
        a < i < orphans.len() ==> crate::text::text_less(
            orphans[a].key_name@,
            orphans[i].key_name@,
        ),
{
    let id = orphans[a].config_id@;
    assert(crate::connectivity::is_config(orphans[a], config));
    assert(!crate::connectivity::referenced(entries, id));
    if 0 <= i < entries.len() {
        assert(!entries[i].refers_to(id));
    }
}

/// Where the configuration keys cannot be listed, no configuration is known.
pub proof fn law_no_configuration_keys(id: Seq<char>)
    ensures
        !crate::connectivity::config_map_if(None).contains_key(id),
{
}

/// The configurations that are known are those of the listed keys.
pub proof fn law_listed_configuration_keys(keys: Vec<ConfigReading>)
    ensures
        crate::connectivity::config_map_if(Some(keys)) == crate::connectivity::config_map(keys@),
{
}

/// The prefix of a monitor ID begins the ID. It ends at the first underscore, at
/// the full length of a code, or at the end of the ID, whatever comes first.
pub proof fn law_model_prefix(id: Seq<char>)
    ensures
        ({
            let prefix = crate::connectivity::model_prefix(id);
            &&& prefix.len() <= 7
            &&& prefix.len() <= id.len()
            &&& prefix == id.take(prefix.len() as int)
            &&& forall|i: int| 0 <= i < prefix.len() ==> #[trigger] prefix[i] != '_'
            &&& prefix.len() == 7 || prefix.len() == id.len() || id[prefix.len() as int] == '_'
        }),
{
    crate::text::lemma_find(id, '_');
    let prefix = crate::connectivity::model_prefix(id);
    assert(prefix =~= id.take(prefix.len() as int));
}

/// Each further ID adds its prefix behind the others, or nothing where it has none.
pub proof fn law_model_prefixes(ids: Seq<Seq<char>>, last: Seq<char>)
    ensures
        crate::connectivity::model_prefixes(Seq::empty()).len() == 0,
        last.len() > 0 && last[0] != '_' ==> crate::connectivity::model_prefixes(ids.push(last))
            == crate::connectivity::model_prefixes(ids).push(crate::connectivity::model_prefix(last)),
        last.len() == 0 || last[0] == '_' ==> crate::connectivity::model_prefixes(ids.push(last))
            == crate::connectivity::model_prefixes(ids),
{
    let more = ids.push(last);
    assert(more.drop_last() =~= ids);
    assert(more.last() == last);
    law_model_prefix(last);
    crate::text::lemma_find(last, '_');
}

/// An entry with a monitor whose model is not connected is not the current one: its
/// prefix neither begins with a connected code nor is the beginning of one.
pub proof fn law_unknown_monitor_is_not_current(
    entry: ConnectivityEntry,
    ids: Seq<Seq<char>>,
    connected: Seq<Seq<char>>,
    i: int,
)
    requires
        are_monitor_ids(ids),
        entry.set_id@ == crate::text::join(ids, seq!['^']),
        0 <= i < ids.len(),
        forall|j: int|
            0 <= j < connected.len() ==> {
                let prefix = crate::connectivity::model_prefix(ids[i]);
                &&& !crate::text::starts_with(prefix, #[trigger] connected[j])
                &&& !crate::text::starts_with(connected[j], prefix)
            },
    ensures
        !crate::display_sets::current_entry(entry, connected),
{
    law_prefixes_of_display_set(ids);
    let prefixes = ids.map_values(|id: Seq<char>| crate::connectivity::model_prefix(id));
    if crate::display_sets::current_entry(entry, connected) {
        assert(crate::display_sets::matches_one(prefixes[i], connected));
        let j = choose|j: int|
            0 <= j < connected.len() && crate::display_sets::same_model(
                prefixes[i],
                #[trigger] connected[j],
            );
        assert(prefixes[i] == crate::connectivity::model_prefix(ids[i]));
    }
}

/// An entry with more or fewer monitors than are connected is not the current one.
pub proof fn law_other_count_is_not_current(
    entry: ConnectivityEntry,
    ids: Seq<Seq<char>>,
    connected: Seq<Seq<char>>,
)
    requires
        are_monitor_ids(ids),
        entry.set_id@ == crate::text::join(ids, seq!['^']),
        ids.len() != connected.len(),
    ensures
        !crate::display_sets::current_entry(entry, connected),
{
    law_prefixes_of_display_set(ids);
}

/// Which value of a key is read for what: the first is the identifier of the set,
/// the second the recent configuration, and the other four are those of the
/// topologies.
pub proof fn law_value_names()
    ensures
        ({
            let names = crate::connectivity::value_names();
            &&& names.len() == 6
            &&& names[0] == "SetId"@
            &&& names[1] == crate::connectivity::recent_value()
            &&& names[1] == "Recent"@
            &&& Topology::Internal.registry_value() == Some(names[2])
            &&& Topology::External.registry_value() == Some(names[3])
            &&& Topology::Extend.registry_value() == Some(names[4])
            &&& Topology::Clone.registry_value() == Some(names[5])
        }),
{
}

} // verus!
