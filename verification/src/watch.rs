//! Noticing that the topology or the display set changes.

use vstd::prelude::*;

use crate::connectivity::ConnectivityEntry;
use crate::display_sets::find_current;
use crate::text::same_text;
use crate::topology::Topology;

verus! {

/// What is shown at one moment: the topology and the key of the display set.
#[derive(Debug)]
pub struct Observation {
    pub topology: String,
    pub display_set: String,
}

/// The key of the first entry that is that of the connected monitors.
pub open spec fn current_key(entries: Seq<ConnectivityEntry>, codes: Seq<Seq<char>>) -> Option<
    Seq<char>,
>
    decreases entries.len(),
{
    if entries.len() == 0 {
        None
    } else if crate::display_sets::current_entry(entries[0], codes) {
        Some(entries[0].key_name@)
    } else {
        current_key(entries.skip(1), codes)
    }
}

/// Where no entry in front of `i` is current, the key is found from there on.
proof fn lemma_current_key(entries: Seq<ConnectivityEntry>, codes: Seq<Seq<char>>, i: int)
    requires
        0 <= i <= entries.len(),
        forall|j: int|
            0 <= j < i ==> !crate::display_sets::current_entry(#[trigger] entries[j], codes),
    ensures
        current_key(entries, codes) == current_key(entries.skip(i), codes),
    decreases i,
{
    if i == 0 {
        assert(entries.skip(0) =~= entries);
    } else {
        assert(!crate::display_sets::current_entry(entries[0], codes));
        let rest = entries.skip(1);
        assert forall|j: int| 0 <= j < i - 1 implies !crate::display_sets::current_entry(
            #[trigger] rest[j],
            codes,
        ) by {
            assert(rest[j] == entries[j + 1]);
        }
        lemma_current_key(rest, codes, i - 1);
        assert(rest.skip(i - 1) =~= entries.skip(i));
    }
}

/// The key of the current display set is that of the first current entry; there
/// is none if and only if no entry is current.
pub proof fn law_current_key(entries: Seq<ConnectivityEntry>, codes: Seq<Seq<char>>, i: int)
    requires
        0 <= i <= entries.len(),
        i < entries.len() ==> crate::display_sets::current_entry(entries[i], codes),
        forall|j: int|
            0 <= j < i ==> !crate::display_sets::current_entry(#[trigger] entries[j], codes),
    ensures
        current_key(entries, codes) == if i < entries.len() {
            Some(entries[i].key_name@)
        } else {
            None
        },
{
    lemma_current_key(entries, codes, i);
    if i < entries.len() {
        assert(entries.skip(i)[0] == entries[i]);
    }
}

/// The key of the display set of the connected monitors, if it has an entry.
pub fn current_display_set<'a>(entries: &'a Vec<ConnectivityEntry>, codes: &Vec<String>) -> (key:
    Option<&'a str>)
    ensures
        match key {
            Some(key) => current_key(entries@, crate::display_sets::text_views(codes@)) == Some(
                key@,
            ),
            None => current_key(entries@, crate::display_sets::text_views(codes@)) is None,
        },
{
    let ghost views = crate::display_sets::text_views(codes@);
    match find_current(entries, codes) {
        Some(i) => {
            proof {
                law_current_key(entries@, views, i as int);
            }
            Some(entries[i].key_name.as_str())
        },
        None => {
            proof {
                law_current_key(entries@, views, entries@.len() as int);
            }
            None
        },
    }
}

/// What is printed where the key of the current display set is asked for.
pub fn current_report(key: Option<&str>) -> (line: String)
    ensures
        line@ == match key {
            Some(key) => key@,
            None => "No matching display set found."@,
        },
{
    match key {
        Some(key) => key.to_owned(),
        None => "No matching display set found.".to_owned(),
    }
}

impl Observation {
    /// What is shown of a topology and the key of a display set, if it has one.
    pub fn new(topology: &Topology, key: Option<&str>) -> (observation: Observation)
        ensures
            observation.topology@ == topology.as_text(),
            observation.display_set@ == match key {
                Some(key) => key@,
                None => "(none)"@,
            },
    {
        let display_set = match key {
            Some(key) => key.to_owned(),
            None => "(none)".to_owned(),
        };
        Observation { topology: topology.text(), display_set }
    }

    /// The line for the observation.
    pub open spec fn line(self, time: Seq<char>) -> Seq<char> {
        "["@ + time + "] Topology: "@ + self.topology@ + " | "@ + self.display_set@
    }

    /// Whether something else is shown.
    pub open spec fn differs(self, other: Observation) -> bool {
        self.topology@ != other.topology@ || self.display_set@ != other.display_set@
    }

    /// Writes the line for the observation.
    pub fn report(&self, time: &str) -> (line: String)
        ensures
            line@ == self.line(time@),
            line@ == "["@ + time@ + "] Topology: "@ + self.topology@ + " | "@ + self.display_set@,
    {
        "[".to_owned().concat(time).concat("] Topology: ").concat(self.topology.as_str()).concat(
            " | ",
        ).concat(self.display_set.as_str())
    }

    /// Takes a new observation. The line for it is given where something changed,
    /// and the new observation is the one to compare with from then on.
    pub fn observe(&mut self, next: Observation, time: &str) -> (line: Option<String>)
        ensures
            match line {
                Some(line) => {
                    &&& next.differs(*old(self))
                    &&& line@ == next.line(time@)
                    &&& *final(self) == next
                },
                None => !next.differs(*old(self)) && *final(self) == *old(self),
            },
            line is None <==> next.topology@ == old(self).topology@ && next.display_set@ == old(
                self,
            ).display_set@,
            line is Some ==> line->0@ == "["@ + time@ + "] Topology: "@ + next.topology@ + " | "@
                + next.display_set@,
            final(self).topology@ == next.topology@,
            final(self).display_set@ == next.display_set@,
    {
        if same_text(next.topology.as_str(), self.topology.as_str()) && same_text(
            next.display_set.as_str(),
            self.display_set.as_str(),
        ) {
            None
        } else {
            let line = next.report(time);
            *self = next;
            Some(line)
        }
    }
}

} // verus!
