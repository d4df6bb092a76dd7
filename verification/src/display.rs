//! Sets of displays, and which of them is the primary one.

use vstd::prelude::*;

use crate::config::{
    update_path_info, update_source_mode, update_target_mode, ModeInfo, PathInfo, SDC_ALLOW_CHANGES,
    SDC_APPLY, SDC_SAVE_TO_DATABASE, SDC_USE_SUPPLIED_DISPLAY_CONFIG,
};
use crate::error::DisplayError;
use crate::properties::{set_properties, DisplayProperties, DisplaySettings, PropertiesOpt};
use crate::text::{decimal_text, join_text, same_text};
use crate::types::{ConnectorType, Position};

verus! {

/// A display of a set, by its index.
#[derive(Clone, Copy, PartialEq, Eq, Structural)]
pub struct Display {
    /// The index of the display in the display set.
    index: usize,
}

/// A set of displays.
#[derive(Clone)]
pub struct DisplaySet {
    /// The displays in this set.
    displays: Vec<DisplayProperties>,
    /// The index of the primary display.
    primary_display: usize,
    /// The paths of the configuration, one for each display.
    paths: Vec<PathInfo>,
    /// The modes of the configuration.
    modes: Vec<ModeInfo>,
}

/// What a set of displays holds.
pub struct DisplaySetModel {
    pub displays: Seq<DisplayProperties>,
    pub primary: int,
    pub paths: Seq<PathInfo>,
    pub modes: Seq<Seq<u32>>,
}

impl View for DisplaySet {
    type V = DisplaySetModel;

    closed spec fn view(&self) -> DisplaySetModel {
        DisplaySetModel {
            displays: self.displays@,
            primary: self.primary_display as int,
            paths: self.paths@,
            modes: crate::config::mode_words(self.modes@),
        }
    }
}

impl DisplaySetModel {
    /// Each display has a path, each mode is whole, and the primary display is one
    /// of the displays, if there are any.
    pub open spec fn wf(self) -> bool {
        &&& self.paths.len() == self.displays.len()
        &&& crate::config::whole_modes(self.modes)
        &&& 0 <= self.primary
        &&& self.displays.len() > 0 ==> self.primary < self.displays.len()
    }

    /// The text of the set for debugging, given that of its displays. Of the
    /// configuration only the sizes are shown.
    pub open spec fn debug_chars(self, displays: Seq<char>) -> Seq<char> {
        "DisplaySet { displays: "@ + displays + ", primary_display: Cell { value: "@
            + crate::text::decimal(self.primary as nat) + " }, paths: \"<"@ + crate::text::decimal(
            self.paths.len(),
        ) + " paths>\", modes: \"<"@ + crate::text::decimal(self.modes.len()) + " modes>\" }"@
    }
}

/// Whether display `k` is active, is not to become the primary one, and has no
/// settings to move.
pub open spec fn lacks_settings(displays: Seq<DisplayProperties>, index: int, k: int) -> bool {
    displays[k].active && k != index && displays[k].settings is None
}

/// The first display from `k` on that is active but has no settings, except the
/// one at `index`; the number of displays where there is none.
pub open spec fn first_lacking(displays: Seq<DisplayProperties>, index: int, k: int) -> int
    decreases displays.len() - k,
{
    if k >= displays.len() || lacks_settings(displays, index, k) {
        k
    } else {
        first_lacking(displays, index, k + 1)
    }
}

/// The display seen from the new origin; only an active display with settings
/// has a place on the desktop.
pub open spec fn moved_display(display: DisplayProperties, origin: Position) -> DisplayProperties {
    match display.settings {
        Some(settings) => if display.active {
            DisplayProperties {
                settings: Some(
                    DisplaySettings { position: settings.position.seen_from(origin), ..settings },
                ),
                primary: false,
                ..display
            }
        } else {
            display
        },
        None => display,
    }
}

/// The displays after all in front of `end`, except the one at `index`, moved to
/// the new origin.
pub open spec fn moved_displays(
    displays: Seq<DisplayProperties>,
    index: int,
    end: int,
    origin: Position,
) -> Seq<DisplayProperties> {
    Seq::new(
        displays.len(),
        |k: int|
            if k < end && k != index {
                moved_display(displays[k], origin)
            } else {
                displays[k]
            },
    )
}

/// The display as the primary one, at the origin.
pub open spec fn primary_display(display: DisplayProperties) -> DisplayProperties {
    DisplayProperties {
        settings: Some(
            DisplaySettings { position: Position { x: 0, y: 0 }, ..display.settings->0 },
        ),
        primary: true,
        ..display
    }
}

/// The displays after the one at `index` became the primary one.
pub open spec fn with_primary(displays: Seq<DisplayProperties>, index: int) -> Seq<
    DisplayProperties,
> {
    moved_displays(
        displays,
        index,
        displays.len() as int,
        displays[index].settings->0.position,
    ).update(index, primary_display(displays[index]))
}

/// Whether the display at `index` may become the primary one.
pub open spec fn may_be_primary(displays: Seq<DisplayProperties>, index: int) -> bool {
    displays[index].active && displays[index].settings is Some
}

/// Whether every position that changes when the display at `index` becomes the
/// primary one can be computed in 32 bits.
pub open spec fn can_move_to(displays: Seq<DisplayProperties>, index: int) -> bool {
    may_be_primary(displays, index) ==> forall|k: int|
        0 <= k < first_lacking(displays, index, 0) && k != index && (#[trigger] displays[k]).active
            ==> displays[k].settings->0.position.can_move(displays[index].settings->0.position)
}

/// What the first display without settings means.
pub proof fn lemma_first_lacking(displays: Seq<DisplayProperties>, index: int, k: int)
    requires
        0 <= k <= displays.len(),
    ensures
        k <= first_lacking(displays, index, k) <= displays.len(),
        forall|j: int|
            k <= j < first_lacking(displays, index, k) ==> !lacks_settings(displays, index, j),
        first_lacking(displays, index, k) < displays.len() ==> lacks_settings(
            displays,
            index,
            first_lacking(displays, index, k),
        ),
    decreases displays.len() - k,
{
    if k >= displays.len() || lacks_settings(displays, index, k) {
    } else {
        lemma_first_lacking(displays, index, k + 1);
    }
}

/// A display before which none lacks settings, and which does, is the first one.
proof fn lemma_first_lacking_is(displays: Seq<DisplayProperties>, index: int, k: int)
    requires
        0 <= k <= displays.len(),
        forall|j: int| 0 <= j < k ==> !lacks_settings(displays, index, j),
        k < displays.len() ==> lacks_settings(displays, index, k),
    ensures
        first_lacking(displays, index, 0) == k,
{
    lemma_first_lacking(displays, index, 0);
    let first = first_lacking(displays, index, 0);
    if first < k {
        assert(!lacks_settings(displays, index, first));
    } else if k < first {
        assert(!lacks_settings(displays, index, k));
    }
}

impl Display {
    /// The index as a number.
    pub closed spec fn position(self) -> int {
        self.index as int
    }

    /// Whether the display is one of `set`.
    pub open spec fn is_in(self, set: DisplaySet) -> bool {
        0 <= self.position() < set@.displays.len()
    }

    /// The properties of the display in `set`.
    pub open spec fn of(self, set: DisplaySet) -> DisplayProperties {
        set@.displays[self.position()]
    }

    /// The index of the display in its set.
    pub fn index(&self) -> (index: usize)
        ensures
            index == self.position(),
    {
        self.index
    }

    /// The number of the display in the settings of the system, which count from one.
    pub fn windows_number(&self, set: &DisplaySet) -> (number: usize)
        requires
            self.is_in(*set),
        ensures
            number == self.position() + 1,
    {
        assert(self.index < set.displays.len());
        self.index + 1
    }

    /// The properties of the display.
    pub fn properties<'a>(&self, set: &'a DisplaySet) -> (properties: &'a DisplayProperties)
        requires
            self.is_in(*set),
        ensures
            *properties == self.of(*set),
    {
        &set.displays[self.index]
    }

    /// The name of the device that draws the picture.
    pub fn name<'a>(&self, set: &'a DisplaySet) -> (name: &'a str)
        requires
            self.is_in(*set),
        ensures
            name@ == self.of(*set).name@,
    {
        self.properties(set).name.as_str()
    }

    /// The name of the monitor.
    pub fn string<'a>(&self, set: &'a DisplaySet) -> (string: &'a str)
        requires
            self.is_in(*set),
        ensures
            string@ == self.of(*set).string@,
    {
        self.properties(set).string.as_str()
    }

    /// The device path of the monitor.
    pub fn key<'a>(&self, set: &'a DisplaySet) -> (key: &'a str)
        requires
            self.is_in(*set),
        ensures
            key@ == self.of(*set).key@,
    {
        self.properties(set).key.as_str()
    }

    /// The settings, if the display has any.
    pub fn settings<'a>(&self, set: &'a DisplaySet) -> (settings: &'a Option<DisplaySettings>)
        requires
            self.is_in(*set),
        ensures
            *settings == self.of(*set).settings,
    {
        &self.properties(set).settings
    }

    /// How the display is connected, if that is known.
    pub fn connector_type<'a>(&self, set: &'a DisplaySet) -> (connector: &'a Option<ConnectorType>)
        requires
            self.is_in(*set),
        ensures
            *connector == self.of(*set).connector_type,
    {
        &self.properties(set).connector_type
    }

    /// Whether a monitor is connected.
    pub fn target_available(&self, set: &DisplaySet) -> (available: bool)
        requires
            self.is_in(*set),
        ensures
            available == self.of(*set).target_available,
    {
        self.properties(set).target_available
    }

    /// Whether the display is the primary one of `set`.
    pub fn is_primary(&self, set: &DisplaySet) -> (primary: bool)
        ensures
            primary == (set@.primary == self.position()),
    {
        set.primary_display == self.index
    }

    /// Makes the display the primary one of `set`.
    pub fn set_primary(&self, set: &mut DisplaySet) -> (result: Result<(), DisplayError>)
        requires
            self.is_in(*old(set)),
            can_move_to(old(set)@.displays, self.position()),
        ensures
            primary_set(old(set)@, self.position(), final(set)@, result),
            old(set)@.wf() ==> final(set)@.wf(),
            result is Ok <==> old(set)@.displays[self.position()].active && forall|k: int|
                0 <= k < old(set)@.displays.len() && (#[trigger] old(set)@.displays[k]).active
                    ==> old(set)@.displays[k].settings is Some,
            result is Ok ==> {
                let before = old(set)@.displays;
                let after = final(set)@.displays;
                let index = self.position();
                &&& after.len() == before.len()
                &&& final(set)@.primary == index
                &&& after[index].primary
                &&& after[index].settings->0.position.x == 0
                &&& after[index].settings->0.position.y == 0
                &&& forall|k: int|
                    0 <= k < before.len() && before[k].active && k != index ==> !(
                    #[trigger] after[k]).primary
                &&& forall|i: int, j: int|
                    #![trigger after[i], after[j]]
                    0 <= i < before.len() && 0 <= j < before.len() && before[i].active
                        && before[j].active ==> {
                        let p = before[i].settings->0.position;
                        let q = before[j].settings->0.position;
                        let p2 = after[i].settings->0.position;
                        let q2 = after[j].settings->0.position;
                        p2.x - q2.x == p.x - q.x && p2.y - q2.y == p.y - q.y
                    }
            },
    {
        set.set_primary(self)
    }

    /// The text of the display for debugging, given that of the displays of `set`.
    pub fn debug_text(&self, set: &DisplaySet, displays: &str) -> (text: String)
        ensures
            text@ == "Display { index: "@ + crate::text::decimal(self.position() as nat)
                + ", display_set: "@ + set@.debug_chars(displays@) + " }"@,
    {
        let index = decimal_text(self.index as u64);
        let set_text = set.debug_text(displays);
        "Display { index: ".to_owned().concat(index.as_str()).concat(", display_set: ").concat(
            set_text.as_str(),
        ).concat(" }")
    }
}

/// What making the display at `index` the primary one does: an inactive display
/// and one without settings are refused, and nothing changes. Otherwise the
/// others move, in order. One that has no settings stops that; those in front
/// of it have moved by then.
pub open spec fn primary_set(
    before: DisplaySetModel,
    index: int,
    after: DisplaySetModel,
    result: Result<(), DisplayError>,
) -> bool {
    let displays = before.displays;
    let stop = first_lacking(displays, index, 0);
    if !displays[index].active {
        &&& result matches Err(error)
        &&& error@ == crate::error::ErrorModel::PrimaryDisplay
        &&& after == before
    } else if displays[index].settings is None {
        &&& result matches Err(error)
        &&& error@ == crate::error::ErrorModel::NoSettings(displays[index].name@)
        &&& after == before
    } else if stop < displays.len() {
        &&& result matches Err(error)
        &&& error@ == crate::error::ErrorModel::NoSettings(displays[stop].name@)
        &&& after == DisplaySetModel {
            displays: moved_displays(
                displays,
                index,
                stop,
                displays[index].settings->0.position,
            ),
            ..before
        }
    } else {
        &&& result is Ok
        &&& after == DisplaySetModel {
            displays: with_primary(displays, index),
            primary: index,
            ..before
        }
    }
}

impl DisplaySet {
    /// The displays in this set, in order.
    pub fn displays(&self) -> (displays: Vec<Display>)
        ensures
            displays@.len() == self@.displays.len(),
            forall|i: int| 0 <= i < displays@.len() ==> (#[trigger] displays@[i]).position() == i,
    {
        let mut displays: Vec<Display> = Vec::new();
        let mut index: usize = 0;
        while index < self.displays.len()
            invariant
                index <= self.displays.len(),
                displays@.len() == index,
                forall|i: int| 0 <= i < index ==> (#[trigger] displays@[i]).position() == i,
            decreases self.displays.len() - index,
        {
            displays.push(Display { index });
            index = index + 1;
        }
        displays
    }

    /// The display with the given `index`, if there is one.
    pub fn get(&self, index: usize) -> (display: Option<Display>)
        ensures
            match display {
                Some(display) => index < self@.displays.len() && display.position() == index,
                None => index >= self@.displays.len(),
            },
    {
        if index >= self.displays.len() {
            return None;
        }
        Some(Display { index })
    }

    /// The primary display.
    pub fn primary(&self) -> (display: Display)
        ensures
            display.position() == self@.primary,
    {
        Display { index: self.primary_display }
    }

    /// Makes `display` the primary display: it becomes the origin of the desktop,
    /// and the other active displays keep their places relative to it.
    pub fn set_primary(&mut self, display: &Display) -> (result: Result<(), DisplayError>)
        requires
            display.is_in(*old(self)),
            can_move_to(old(self)@.displays, display.position()),
        ensures
            primary_set(old(self)@, display.position(), final(self)@, result),
            old(self)@.wf() ==> final(self)@.wf(),
            result is Ok <==> old(self)@.displays[display.position()].active && forall|k: int|
                0 <= k < old(self)@.displays.len() && (#[trigger] old(self)@.displays[k]).active
                    ==> old(self)@.displays[k].settings is Some,
            result is Ok ==> {
                let before = old(self)@.displays;
                let after = final(self)@.displays;
                let index = display.position();
                &&& after.len() == before.len()
                &&& final(self)@.primary == index
                &&& after[index].primary
                &&& after[index].settings->0.position.x == 0
                &&& after[index].settings->0.position.y == 0
                &&& forall|k: int|
                    0 <= k < before.len() && before[k].active && k != index ==> !(
                    #[trigger] after[k]).primary
                &&& forall|i: int, j: int|
                    #![trigger after[i], after[j]]
                    0 <= i < before.len() && 0 <= j < before.len() && before[i].active
                        && before[j].active ==> {
                        let p = before[i].settings->0.position;
                        let q = before[j].settings->0.position;
                        let p2 = after[i].settings->0.position;
                        let q2 = after[j].settings->0.position;
                        p2.x - q2.x == p.x - q.x && p2.y - q2.y == p.y - q.y
                    }
            },
    {
        let result = self.make_primary(display);
        proof {
            crate::display_laws::law_set_primary_moves_the_desktop(
                old(self)@,
                display.position(),
                self@,
                result,
            );
        }
        result
    }

    /// Moves the other active displays, one after the other, and makes `display`
    /// the primary one.
    fn make_primary(&mut self, display: &Display) -> (result: Result<(), DisplayError>)
        requires
            display.is_in(*old(self)),
            can_move_to(old(self)@.displays, display.position()),
        ensures
            primary_set(old(self)@, display.position(), final(self)@, result),
            old(self)@.wf() ==> final(self)@.wf(),
    {
        let index: usize = display.index;
        let ghost before = self.displays@;
        if !self.displays[index].active {
            return Err(DisplayError::PrimaryDisplay);
        }
        let new_settings = match self.displays[index].settings {
            Some(settings) => settings,
            None => {
                return Err(DisplayError::NoSettings(self.displays[index].name.clone()));
            },
        };
        let origin: Position = new_settings.position;
        let mut i: usize = 0;
        proof {
            lemma_first_lacking(before, index as int, 0);
            assert(moved_displays(before, index as int, 0, origin) =~= before);
        }
        while i < self.displays.len()
            invariant
                index < before.len(),
                index == display.index,
                old(self)@.displays == before,
                before[index as int].active,
                before[index as int].settings == Some(new_settings),
                origin == new_settings.position,
                can_move_to(before, index as int),
                i <= self.displays.len(),
                self.displays@ == moved_displays(before, index as int, i as int, origin),
                self.primary_display == old(self).primary_display,
                self.paths == old(self).paths,
                self.modes == old(self).modes,
                i <= first_lacking(before, index as int, 0) <= before.len(),
                forall|j: int| 0 <= j < i ==> !lacks_settings(before, index as int, j),
            decreases self.displays.len() - i,
        {
            proof {
                lemma_first_lacking(before, index as int, 0);
            }
            if self.displays[i].active && i != index {
                match self.displays[i].settings {
                    None => {
                        proof {
                            lemma_first_lacking_is(before, index as int, i as int);
                        }
                        return Err(DisplayError::NoSettings(self.displays[i].name.clone()));
                    },
                    Some(settings) => {
                        assert(i < first_lacking(before, index as int, 0)) by {
                            assert(!lacks_settings(before, index as int, i as int));
                        }
                        assert(before[i as int].active);
                        let position: Position = settings.position.relative_to(origin);
                        self.displays[i].settings = Some(DisplaySettings { position, ..settings });
                        self.displays[i].primary = false;
                    },
                }
            }
            assert(!lacks_settings(before, index as int, i as int));
            i = i + 1;
            assert(self.displays@ =~= moved_displays(before, index as int, i as int, origin));
        }
        proof {
            lemma_first_lacking_is(before, index as int, before.len() as int);
        }
        self.displays[index].settings = Some(
            DisplaySettings { position: Position::new(0, 0), ..new_settings },
        );
        self.displays[index].primary = true;
        self.primary_display = index;
        assert(self.displays@ =~= with_primary(before, index as int));
        Ok(())
    }

    /// Whether all positions that `set_primary` would compute fit into 32 bits.
    pub fn can_set_primary(&self, display: &Display) -> (can: bool)
        requires
            display.is_in(*self),
        ensures
            can == can_move_to(self@.displays, display.position()),
    {
        let index: usize = display.index;
        let ghost displays = self.displays@;
        if !self.displays[index].active {
            return true;
        }
        let origin = match self.displays[index].settings {
            Some(settings) => settings.position,
            None => {
                return true;
            },
        };
        let mut i: usize = 0;
        while i < self.displays.len()
            invariant
                index < displays.len(),
                index == display.index,
                displays == self.displays@,
                may_be_primary(displays, index as int),
                displays[index as int].settings->0.position == origin,
                i <= displays.len(),
                forall|j: int| 0 <= j < i ==> !lacks_settings(displays, index as int, j),
                forall|j: int|
                    0 <= j < i && j != index && (#[trigger] displays[j]).active
                        ==> displays[j].settings->0.position.can_move(origin),
            decreases displays.len() - i,
        {
            if self.displays[i].active && i != index {
                match self.displays[i].settings {
                    None => {
                        proof {
                            lemma_first_lacking_is(displays, index as int, i as int);
                        }
                        return true;
                    },
                    Some(settings) => {
                        if !settings.position.is_movable(origin) {
                            proof {
                                lemma_first_lacking(displays, index as int, 0);
                                let stop = first_lacking(displays, index as int, 0);
                                if stop <= i {
                                    assert(lacks_settings(displays, index as int, stop));
                                }
                                assert(displays[i as int].active);
                            }
                            return false;
                        }
                    },
                }
            }
            assert(!lacks_settings(displays, index as int, i as int));
            i = i + 1;
        }
        proof {
            lemma_first_lacking_is(displays, index as int, displays.len() as int);
        }
        true
    }

    /// Replaces the settings of `display`: any of them, scaling among them, may
    /// differ. Answers whether the display has settings at all; nothing changes
    /// where it has none.
    pub fn replace_settings(&mut self, display: &Display, settings: DisplaySettings) -> (replaced:
        bool)
        requires
            display.is_in(*old(self)),
        ensures
            replaced == (display.of(*old(self)).settings is Some),
            final(self)@ == settings_replaced(old(self)@, display.position(), settings),
            old(self)@.wf() ==> final(self)@.wf(),
    {
        let ghost before = self.displays@;
        if self.displays[display.index].settings.is_none() {
            return false;
        }
        self.displays[display.index].settings = Some(settings);
        assert(self.displays@ =~= before.update(
            display.index as int,
            DisplayProperties { settings: Some(settings), ..before[display.index as int] },
        ));
        true
    }

    /// Changes the settings of `display` as requested. Answers whether the
    /// display has settings at all; nothing changes where it has none.
    pub fn change_settings(&mut self, display: &Display, properties: &PropertiesOpt) -> (changed:
        bool)
        requires
            display.is_in(*old(self)),
        ensures
            changed == (display.of(*old(self)).settings is Some),
            final(self)@ == settings_changed(old(self)@, display.position(), *properties),
            old(self)@.wf() ==> final(self)@.wf(),
    {
        match self.displays[display.index].settings {
            None => false,
            Some(settings) => {
                let mut settings: DisplaySettings = settings;
                set_properties(properties, &mut settings);
                self.replace_settings(display, settings)
            },
        }
    }

    /// Writes the settings of all active displays into the paths and modes of the
    /// configuration. `source_names` holds, for each path, the name of its source
    /// device, if that could be read. Position, resolution, frequency,
    /// orientation and scaling are written; bit depth and scanline ordering are
    /// read only. Answers the flags with which the configuration is to be
    /// committed.
    pub fn apply(&mut self, source_names: &Vec<Option<String>>) -> (flags: u32)
        requires
            source_names@.len() == old(self)@.paths.len(),
        ensures
            flags == SDC_APPLY | SDC_USE_SUPPLIED_DISPLAY_CONFIG | SDC_ALLOW_CHANGES
                | SDC_SAVE_TO_DATABASE,
            final(self)@ == settings_applied(old(self)@, name_views(source_names@)),
            old(self)@.wf() ==> final(self)@.wf(),
    {
        let ghost names = name_views(source_names@);
        let ghost before = self@;
        let mut i: usize = 0;
        assert(self.displays@.take(0) =~= Seq::empty());
        while i < self.displays.len()
            invariant
                names == name_views(source_names@),
                names.len() == before.paths.len(),
                i <= self.displays.len(),
                self@.displays == before.displays,
                self@.primary == before.primary,
                (self@.paths, self@.modes) == written_config(
                    before.paths,
                    before.modes,
                    before.displays.take(i as int),
                    names,
                ),
                self@.paths.len() == before.paths.len(),
            decreases self.displays.len() - i,
        {
            let ghost display = before.displays[i as int];
            proof {
                let shown = before.displays.take(i + 1);
                assert(shown.drop_last() =~= before.displays.take(i as int));
                assert(shown.last() == display);
            }
            if self.displays[i].active {
                let found = DisplaySet::find_path_for_display(
                    source_names,
                    self.displays[i].name.as_str(),
                );
                if let Some(path_idx) = found {
                    let source_idx: usize = self.paths[path_idx].source_mode_idx as usize;
                    let target_idx: usize = self.paths[path_idx].target_mode_idx as usize;
                    if let Some(settings) = self.displays[i].settings {
                        let ghost paths = self.paths@;
                        update_source_mode(&mut self.modes, source_idx, &settings);
                        update_target_mode(&mut self.modes, target_idx, &settings);
                        update_path_info(&mut self.paths[path_idx], &settings);
                        assert(self.paths@ =~= paths.update(
                            path_idx as int,
                            crate::config::path_updated(paths[path_idx as int], settings),
                        ));
                    }
                }
            }
            i = i + 1;
        }
        assert(before.displays.take(i as int) =~= before.displays);
        proof {
            if before.wf() {
                crate::display_laws::lemma_apply_wf(before, names);
            }
        }
        SDC_APPLY | SDC_USE_SUPPLIED_DISPLAY_CONFIG | SDC_ALLOW_CHANGES | SDC_SAVE_TO_DATABASE
    }

    /// The first path whose source device has the name of the display.
    pub fn find_path_for_display(source_names: &Vec<Option<String>>, display_name: &str) -> (found:
        Option<usize>)
        ensures
            match found {
                Some(path) => path_of(name_views(source_names@), display_name@) == path
                    && path < source_names@.len(),
                None => path_of(name_views(source_names@), display_name@) == source_names@.len(),
            },
            match found {
                Some(path) => {
                    &&& source_names@[path as int] is Some
                    &&& source_names@[path as int]->0@ == display_name@
                    &&& forall|j: int|
                        0 <= j < path && (#[trigger] source_names@[j]) is Some
                            ==> source_names@[j]->0@ != display_name@
                },
                None => forall|j: int|
                    0 <= j < source_names@.len() && (#[trigger] source_names@[j]) is Some
                        ==> source_names@[j]->0@ != display_name@,
            },
    {
        let ghost names = name_views(source_names@);
        let mut i: usize = 0;
        assert(names.skip(0) =~= names);
        while i < source_names.len()
            invariant
                names == name_views(source_names@),
                i <= source_names.len(),
                path_of(names, display_name@) == i + path_of(names.skip(i as int), display_name@),
                forall|j: int|
                    0 <= j < i && (#[trigger] source_names@[j]) is Some ==> source_names@[j]->0@
                        != display_name@,
            decreases source_names.len() - i,
        {
            assert(names.skip(i as int)[0] == names[i as int]);
            if let Some(name) = &source_names[i] {
                if same_text(name.as_str(), display_name) {
                    return Some(i);
                }
            }
            assert(names.skip(i as int).skip(1) =~= names.skip(i + 1));
            i = i + 1;
        }
        None
    }

    /// The paths of the configuration.
    pub fn paths(&self) -> (paths: &Vec<PathInfo>)
        ensures
            paths@ == self@.paths,
    {
        &self.paths
    }

    /// The modes of the configuration.
    pub fn modes(&self) -> (modes: &Vec<ModeInfo>)
        ensures
            crate::config::mode_words(modes@) == self@.modes,
    {
        &self.modes
    }

    /// The set of the given displays, the last one that is marked as primary
    /// being the primary one.
    pub(crate) fn assemble(
        displays: Vec<DisplayProperties>,
        paths: Vec<PathInfo>,
        modes: Vec<ModeInfo>,
    ) -> (set: DisplaySet)
        requires
            displays@.len() == paths@.len(),
        ensures
            set@ == (DisplaySetModel {
                displays: displays@,
                primary: last_primary(displays@),
                paths: paths@,
                modes: crate::config::mode_words(modes@),
            }),
            set@.wf(),
    {
        let mut primary_display: usize = 0;
        let mut i: usize = 0;
        assert(displays@.take(0) =~= Seq::empty());
        while i < displays.len()
            invariant
                i <= displays.len(),
                primary_display == last_primary(displays@.take(i as int)),
                primary_display < i || primary_display == 0,
            decreases displays.len() - i,
        {
            proof {
                let longer = displays@.take(i + 1);
                assert(longer.drop_last() =~= displays@.take(i as int));
                assert(longer.last() == displays@[i as int]);
            }
            if displays[i].primary {
                primary_display = i;
            }
            i = i + 1;
        }
        assert(displays@.take(i as int) =~= displays@);
        DisplaySet { displays, primary_display, paths, modes }
    }

    /// The text of the set, given the texts of its displays.
    pub fn text(&self, displays: &Vec<String>) -> (text: String)
        requires
            displays@.len() == self@.displays.len(),
        ensures
            text@ == "DisplaySet { displays: [\n"@ + crate::text::join(
                displays@.map_values(|display: String| "    "@ + display@),
                ", \n"@,
            ) + "\n] }"@,
    {
        let mut lines: Vec<String> = Vec::new();
        let ghost indented = |display: String| "    "@ + display@;
        let ghost view = |part: String| part@;
        let mut i: usize = 0;
        while i < displays.len()
            invariant
                i <= displays.len(),
                lines@.len() == i,
                forall|k: int| 0 <= k < i ==> (#[trigger] lines@[k])@ == "    "@ + displays@[k]@,
            decreases displays.len() - i,
        {
            lines.push("    ".to_owned().concat(displays[i].as_str()));
            i = i + 1;
        }
        assert(lines@.map_values(view) =~= displays@.map_values(indented));
        let body = join_text(&lines, ", \n");
        "DisplaySet { displays: [\n".to_owned().concat(body.as_str()).concat("\n] }")
    }

    /// The text of the set for debugging, given that of its displays. Of the
    /// configuration only the sizes are shown.
    pub fn debug_text(&self, displays: &str) -> (text: String)
        ensures
            text@ == self@.debug_chars(displays@),
            text@ == "DisplaySet { displays: "@ + displays@ + ", primary_display: Cell { value: "@
                + crate::text::decimal(self@.primary as nat) + " }, paths: \"<"@
                + crate::text::decimal(self@.paths.len()) + " paths>\", modes: \"<"@
                + crate::text::decimal(self@.modes.len()) + " modes>\" }"@,
    {
        let primary = decimal_text(self.primary_display as u64);
        let paths = decimal_text(self.paths.len() as u64);
        let modes = decimal_text(self.modes.len() as u64);
        "DisplaySet { displays: ".to_owned().concat(displays).concat(
            ", primary_display: Cell { value: ",
        ).concat(primary.as_str()).concat(" }, paths: \"<").concat(paths.as_str()).concat(
            " paths>\", modes: \"<",
        ).concat(modes.as_str()).concat(" modes>\" }")
    }
}

/// The index of the last display that is marked as primary; zero where none is.
pub open spec fn last_primary(displays: Seq<DisplayProperties>) -> int
    decreases displays.len(),
{
    if displays.len() == 0 {
        0
    } else if displays.last().primary {
        displays.len() - 1
    } else {
        last_primary(displays.drop_last())
    }
}

/// The set after the settings of the display at `index`, if it has any, were
/// replaced.
pub open spec fn settings_replaced(
    before: DisplaySetModel,
    index: int,
    settings: DisplaySettings,
) -> DisplaySetModel {
    let display = before.displays[index];
    match display.settings {
        None => before,
        Some(_) => DisplaySetModel {
            displays: before.displays.update(
                index,
                DisplayProperties { settings: Some(settings), ..display },
            ),
            ..before
        },
    }
}

/// The set after the settings of the display at `index`, if it has any, changed
/// as requested.
pub open spec fn settings_changed(
    before: DisplaySetModel,
    index: int,
    properties: PropertiesOpt,
) -> DisplaySetModel {
    match before.displays[index].settings {
        None => before,
        Some(settings) => settings_replaced(before, index, properties.applied_to(settings)),
    }
}

/// The names of the sources as sequences of characters.
pub open spec fn name_views(names: Seq<Option<String>>) -> Seq<Option<Seq<char>>> {
    names.map_values(
        |name: Option<String>|
            match name {
                Some(name) => Some(name@),
                None => None,
            },
    )
}

/// The first path with the given name; the number of paths where there is none.
pub open spec fn path_of(names: Seq<Option<Seq<char>>>, name: Seq<char>) -> int
    decreases names.len(),
{
    if names.len() == 0 || names[0] == Some(name) {
        0
    } else {
        1 + path_of(names.skip(1), name)
    }
}

/// The paths and modes after the settings of one display were written: into its
/// path, into the source mode of that path, and after it into the target mode.
pub open spec fn display_written(
    paths: Seq<PathInfo>,
    modes: Seq<Seq<u32>>,
    display: DisplayProperties,
    names: Seq<Option<Seq<char>>>,
) -> (Seq<PathInfo>, Seq<Seq<u32>>) {
    let p = path_of(names, display.name@);
    match display.settings {
        Some(settings) => if display.active && p < names.len() {
            (
                paths.update(p, crate::config::path_updated(paths[p], settings)),
                crate::config::target_updated(
                    crate::config::source_updated(
                        modes,
                        paths[p].source_mode_idx as int,
                        settings,
                    ),
                    paths[p].target_mode_idx as int,
                    settings,
                ),
            )
        } else {
            (paths, modes)
        },
        None => (paths, modes),
    }
}

/// The paths and modes after the settings of all the displays were written, one
/// display after the other.
pub open spec fn written_config(
    paths: Seq<PathInfo>,
    modes: Seq<Seq<u32>>,
    displays: Seq<DisplayProperties>,
    names: Seq<Option<Seq<char>>>,
) -> (Seq<PathInfo>, Seq<Seq<u32>>)
    decreases displays.len(),
{
    if displays.len() == 0 {
        (paths, modes)
    } else {
        let (p, m) = written_config(paths, modes, displays.drop_last(), names);
        display_written(p, m, displays.last(), names)
    }
}

/// The set after the settings of its displays were written into its configuration.
pub open spec fn settings_applied(
    before: DisplaySetModel,
    names: Seq<Option<Seq<char>>>,
) -> DisplaySetModel {
    let (paths, modes) = written_config(before.paths, before.modes, before.displays, names);
    DisplaySetModel { paths, modes, ..before }
}

} // verus!
