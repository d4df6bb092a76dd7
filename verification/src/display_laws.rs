//! What holds of every set of displays, whatever is done to it.

use vstd::prelude::*;

use crate::config::PathInfo;
use crate::display::DisplaySetModel;
use crate::error::DisplayError;
use crate::properties::{DisplayProperties, DisplaySettings, PropertiesOpt};

verus! {

/// Whether the display at `index` becomes the primary one when asked to, with
/// all positions within 32 bits.
pub open spec fn becomes_primary(displays: Seq<DisplayProperties>, index: int) -> bool {
    &&& 0 <= index < displays.len()
    &&& crate::display::may_be_primary(displays, index)
    &&& crate::display::first_lacking(displays, index, 0) == displays.len()
    &&& crate::display::can_move_to(displays, index)
}

/// The new primary display lies at the origin and is marked as primary, and no
/// other active display is.
pub proof fn law_one_primary(displays: Seq<DisplayProperties>, index: int, k: int)
    requires
        becomes_primary(displays, index),
        0 <= k < displays.len(),
        displays[k].active,
    ensures
        crate::display::with_primary(displays, index)[k].primary == (k == index),
        crate::display::with_primary(displays, index)[index].settings->0.position.x == 0,
        crate::display::with_primary(displays, index)[index].settings->0.position.y == 0,
{
    crate::display::lemma_first_lacking(displays, index, 0);
    assert(!crate::display::lacks_settings(displays, index, k));
}

/// Making a display the primary one moves the desktop as a whole: any two active
/// displays lie as far apart as before.
pub proof fn law_set_primary_keeps_distances(
    displays: Seq<DisplayProperties>,
    index: int,
    i: int,
    j: int,
)
    requires
        becomes_primary(displays, index),
        0 <= i < displays.len(),
        0 <= j < displays.len(),
        displays[i].active,
        displays[j].active,
    ensures
        ({
            let after = crate::display::with_primary(displays, index);
            let p = displays[i].settings->0.position;
            let q = displays[j].settings->0.position;
            let p2 = after[i].settings->0.position;
            let q2 = after[j].settings->0.position;
            p2.x - q2.x == p.x - q.x && p2.y - q2.y == p.y - q.y
        }),
{
    crate::display::lemma_first_lacking(displays, index, 0);
    assert(!crate::display::lacks_settings(displays, index, i));
    assert(!crate::display::lacks_settings(displays, index, j));
}

/// Nothing but position and primary mark of a display changes, and of an
/// inactive display nothing at all.
pub proof fn law_set_primary_keeps_the_rest(
    displays: Seq<DisplayProperties>,
    index: int,
    k: int,
)
    requires
        becomes_primary(displays, index),
        0 <= k < displays.len(),
    ensures
        ({
            let before = displays[k];
            let after = crate::display::with_primary(displays, index)[k];
            &&& after == DisplayProperties {
                settings: after.settings,
                primary: after.primary,
                ..before
            }
            &&& before.settings is Some ==> after.settings == Some(
                DisplaySettings {
                    position: after.settings->0.position,
                    ..before.settings->0
                },
            )
            &&& !before.active ==> after == before
        }),
{
}

/// The last request wins: making `i` and after it `j` the primary display gives
/// what making `j` the primary display gives. With `i` and `j` the same, a
/// second request changes nothing.
pub proof fn law_set_primary_last_wins(displays: Seq<DisplayProperties>, i: int, j: int)
    requires
        becomes_primary(displays, i),
        becomes_primary(displays, j),
        becomes_primary(crate::display::with_primary(displays, i), j),
    ensures
        crate::display::with_primary(crate::display::with_primary(displays, i), j)
            == crate::display::with_primary(displays, j),
{
    let first = crate::display::with_primary(displays, i);
    let both = crate::display::with_primary(first, j);
    let direct = crate::display::with_primary(displays, j);
    assert(both.len() == direct.len());
    assert forall|k: int| 0 <= k < both.len() implies both[k] == direct[k] by {
        crate::display::lemma_first_lacking(displays, i, 0);
        crate::display::lemma_first_lacking(displays, j, 0);
        crate::display::lemma_first_lacking(first, j, 0);
        assert(!crate::display::lacks_settings(displays, i, k));
        assert(!crate::display::lacks_settings(displays, j, k));
        assert(!crate::display::lacks_settings(displays, i, j));
        assert(!crate::display::lacks_settings(first, j, k));
        let origin_i = displays[i].settings->0.position;
        let origin_j = displays[j].settings->0.position;
        if displays[k].active {
            assert(displays[k].settings is Some);
            assert(first[k].active);
            let s = displays[k].settings->0;
            if k != j {
                assert(both[k].settings->0.position == direct[k].settings->0.position);
                assert(both[k].settings == direct[k].settings);
            }
        }
    }
    assert(both =~= direct);
}

/// Whatever comes of a request, the configuration stays as it is, no display is
/// lost, and a well-formed set stays well-formed. A refused display changes
/// nothing.
pub proof fn law_set_primary_frame(
    before: DisplaySetModel,
    index: int,
    after: DisplaySetModel,
    result: Result<(), DisplayError>,
)
    requires
        0 <= index < before.displays.len(),
        crate::display::primary_set(before, index, after, result),
    ensures
        after.paths == before.paths,
        after.modes == before.modes,
        after.displays.len() == before.displays.len(),
        before.wf() ==> after.wf(),
        result is Ok ==> after.primary == index,
        result is Err ==> after.primary == before.primary,
        !crate::display::may_be_primary(before.displays, index) ==> result is Err && after == before,
{
}

/// Changing the settings of a display leaves the other displays, the primary
/// display and the configuration alone.
pub proof fn law_change_settings_frame(
    before: DisplaySetModel,
    index: int,
    properties: PropertiesOpt,
    k: int,
)
    requires
        0 <= index < before.displays.len(),
        0 <= k < before.displays.len(),
        k != index,
    ensures
        ({
            let after = crate::display::settings_changed(before, index, properties);
            &&& before.wf() ==> after.wf()
            &&& after.displays.len() == before.displays.len()
            &&& after.displays[k] == before.displays[k]
            &&& after.primary == before.primary
            &&& after.paths == before.paths
            &&& after.modes == before.modes
        }),
{
}

/// Replacing the settings of a display leaves the other displays, the primary
/// display, the configuration and all else about the display alone. A display
/// with settings has the new ones afterwards; to one without, nothing happens.
pub proof fn law_replace_settings_frame(
    before: DisplaySetModel,
    index: int,
    settings: DisplaySettings,
    k: int,
)
    requires
        0 <= index < before.displays.len(),
        0 <= k < before.displays.len(),
    ensures
        ({
            let after = crate::display::settings_replaced(before, index, settings);
            &&& before.wf() ==> after.wf()
            &&& after.displays.len() == before.displays.len()
            &&& k != index ==> after.displays[k] == before.displays[k]
            &&& after.displays[index] == DisplayProperties {
                settings: if before.displays[index].settings is Some {
                    Some(settings)
                } else {
                    None
                },
                ..before.displays[index]
            }
            &&& after.primary == before.primary
            &&& after.paths == before.paths
            &&& after.modes == before.modes
        }),
{
}

/// Whether the settings of `display` are written into path `p`.
pub open spec fn writes_path(
    display: DisplayProperties,
    names: Seq<Option<Seq<char>>>,
    p: int,
) -> bool {
    &&& display.active
    &&& display.settings is Some
    &&& p == crate::display::path_of(names, display.name@)
    &&& p < names.len()
}

/// The settings that are written last into path `p`, if any are.
pub open spec fn last_path_write(
    displays: Seq<DisplayProperties>,
    names: Seq<Option<Seq<char>>>,
    p: int,
) -> Option<DisplaySettings>
    decreases displays.len(),
{
    if displays.len() == 0 {
        None
    } else if writes_path(displays.last(), names, p) {
        displays.last().settings
    } else {
        last_path_write(displays.drop_last(), names, p)
    }
}

/// What the settings put into word `w` of the target mode.
pub open spec fn target_word(settings: DisplaySettings, w: int) -> Option<u32> {
    if w == crate::config::WORD_VSYNC_NUMERATOR {
        Some(settings.frequency.0)
    } else if w == crate::config::WORD_VSYNC_DENOMINATOR {
        Some(1u32)
    } else {
        None
    }
}

/// What the settings put into word `w` of the source mode.
pub open spec fn source_word(settings: DisplaySettings, w: int) -> Option<u32> {
    if w == crate::config::WORD_WIDTH {
        Some(settings.resolution.width)
    } else if w == crate::config::WORD_HEIGHT {
        Some(settings.resolution.height)
    } else if w == crate::config::WORD_POSITION_X {
        Some(settings.position.x as u32)
    } else if w == crate::config::WORD_POSITION_Y {
        Some(settings.position.y as u32)
    } else {
        None
    }
}

/// What `display` puts into word `w` of mode `m`, if anything.
pub open spec fn word_write(
    display: DisplayProperties,
    paths: Seq<PathInfo>,
    names: Seq<Option<Seq<char>>>,
    m: int,
    w: int,
) -> Option<u32> {
    let p = crate::display::path_of(names, display.name@);
    if !writes_path(display, names, p) {
        None
    } else {
        let settings = display.settings->0;
        if paths[p].target_mode_idx == m && target_word(settings, w) is Some {
            target_word(settings, w)
        } else if paths[p].source_mode_idx == m {
            source_word(settings, w)
        } else {
            None
        }
    }
}

/// What is written last into word `w` of mode `m`, if anything.
pub open spec fn last_word_write(
    displays: Seq<DisplayProperties>,
    paths: Seq<PathInfo>,
    names: Seq<Option<Seq<char>>>,
    m: int,
    w: int,
) -> Option<u32>
    decreases displays.len(),
{
    if displays.len() == 0 {
        None
    } else {
        match word_write(displays.last(), paths, names, m, w) {
            Some(word) => Some(word),
            None => last_word_write(displays.drop_last(), paths, names, m, w),
        }
    }
}

/// The path of a name is the first one whose source has that name; where there is
/// none, it is the number of paths.
pub proof fn law_path_of(names: Seq<Option<Seq<char>>>, name: Seq<char>)
    ensures
        ({
            let p = crate::display::path_of(names, name);
            &&& 0 <= p <= names.len()
            &&& p < names.len() ==> names[p] == Some(name)
            &&& forall|j: int| 0 <= j < p ==> #[trigger] names[j] != Some(name)
        }),
    decreases names.len(),
{
    if names.len() == 0 || names[0] == Some(name) {
    } else {
        law_path_of(names.skip(1), name);
        let p = crate::display::path_of(names, name);
        assert forall|j: int| 0 <= j < p implies #[trigger] names[j] != Some(name) by {
            if j > 0 {
                assert(names[j] == names.skip(1)[j - 1]);
            }
        }
    }
}

/// The primary display of a new set is the last one that is marked as primary;
/// where none is, it is the first display.
pub proof fn law_last_primary(displays: Seq<DisplayProperties>)
    ensures
        ({
            let primary = crate::display::last_primary(displays);
            &&& forall|j: int|
                primary < j < displays.len() ==> !(#[trigger] displays[j]).primary
            &&& if exists|j: int| 0 <= j < displays.len() && (#[trigger] displays[j]).primary {
                0 <= primary < displays.len() && displays[primary].primary
            } else {
                primary == 0
            }
        }),
    decreases displays.len(),
{
    if displays.len() > 0 {
        let front = displays.drop_last();
        assert(displays[displays.len() - 1] == displays.last());
        if !displays.last().primary {
            law_last_primary(front);
            let primary = crate::display::last_primary(front);
            assert forall|j: int| primary < j < displays.len() implies !(
            #[trigger] displays[j]).primary by {
                if j < front.len() {
                    assert(front[j] == displays[j]);
                }
            }
            if exists|j: int| 0 <= j < displays.len() && (#[trigger] displays[j]).primary {
                let j = choose|j: int| 0 <= j < displays.len() && (#[trigger] displays[j]).primary;
                assert(front[j] == displays[j]);
                assert(front[j].primary);
            } else {
                assert forall|j: int| 0 <= j < front.len() implies !(#[trigger] front[j]).primary by {
                    assert(front[j] == displays[j]);
                }
            }
        }
    }
}

/// What is in a configuration after the settings were written: in each place
/// what was written there last, or what was there before.
pub proof fn lemma_written_config(
    paths: Seq<PathInfo>,
    modes: Seq<Seq<u32>>,
    displays: Seq<DisplayProperties>,
    names: Seq<Option<Seq<char>>>,
)
    requires
        names.len() == paths.len(),
        crate::config::whole_modes(modes),
    ensures
        ({
            let (paths2, modes2) = crate::display::written_config(paths, modes, displays, names);
            &&& paths2.len() == paths.len()
            &&& modes2.len() == modes.len()
            &&& crate::config::whole_modes(modes2)
            &&& forall|p: int|
                0 <= p < paths.len() ==> #[trigger] paths2[p] == match last_path_write(
                    displays,
                    names,
                    p,
                ) {
                    Some(settings) => crate::config::path_updated(paths[p], settings),
                    None => paths[p],
                }
            &&& forall|m: int, w: int|
                0 <= m < modes.len() && 0 <= w < 12 ==> #[trigger] modes2[m][w]
                    == match last_word_write(displays, paths, names, m, w) {
                    Some(word) => word,
                    None => modes[m][w],
                }
        }),
    decreases displays.len(),
{
    if displays.len() > 0 {
        let front = displays.drop_last();
        let last = displays.last();
        lemma_written_config(paths, modes, front, names);
        law_path_of(names, last.name@);
        let (paths1, modes1) = crate::display::written_config(paths, modes, front, names);
        let (paths2, modes2) = crate::display::written_config(paths, modes, displays, names);
        let p = crate::display::path_of(names, last.name@);
        if writes_path(last, names, p) {
            let settings = last.settings->0;
            assert(paths1[p].source_mode_idx == paths[p].source_mode_idx);
            assert(paths1[p].target_mode_idx == paths[p].target_mode_idx);
            assert forall|m: int, w: int| 0 <= m < modes.len() && 0 <= w < 12 implies
                #[trigger] modes2[m][w] == match last_word_write(displays, paths, names, m, w) {
                    Some(word) => word,
                    None => modes[m][w],
                } by {
                assert(modes1[m].len() == 12);
                assert(modes1[m][w] == match last_word_write(front, paths, names, m, w) {
                    Some(word) => word,
                    None => modes[m][w],
                });
            }
        } else {
            assert(paths2 == paths1 && modes2 == modes1);
        }
    }
}

/// Writing the settings into a well-formed set keeps it well-formed.
pub proof fn lemma_apply_wf(before: DisplaySetModel, names: Seq<Option<Seq<char>>>)
    requires
        names.len() == before.paths.len(),
        before.wf(),
    ensures
        crate::display::settings_applied(before, names).wf(),
{
    lemma_written_config(before.paths, before.modes, before.displays, names);
}

/// What is written depends on the paths only by the modes that they refer to.
proof fn lemma_word_write_paths(
    displays: Seq<DisplayProperties>,
    paths: Seq<PathInfo>,
    paths2: Seq<PathInfo>,
    names: Seq<Option<Seq<char>>>,
    m: int,
    w: int,
)
    requires
        names.len() == paths.len() == paths2.len(),
        forall|p: int|
            0 <= p < paths.len() ==> (#[trigger] paths2[p]).source_mode_idx
                == paths[p].source_mode_idx && paths2[p].target_mode_idx
                == paths[p].target_mode_idx,
    ensures
        last_word_write(displays, paths2, names, m, w) == last_word_write(
            displays,
            paths,
            names,
            m,
            w,
        ),
    decreases displays.len(),
{
    if displays.len() > 0 {
        law_path_of(names, displays.last().name@);
        lemma_word_write_paths(displays.drop_last(), paths, paths2, names, m, w);
    }
}

/// Writing the settings changes no more than rotation and scaling of a path, and
/// neither the number of paths and modes nor anything about the displays.
pub proof fn law_apply_keeps_structure(
    before: DisplaySetModel,
    names: Seq<Option<Seq<char>>>,
    p: int,
)
    requires
        names.len() == before.paths.len(),
        before.wf(),
        0 <= p < before.paths.len(),
    ensures
        ({
            let after = crate::display::settings_applied(before, names);
            &&& after.wf()
            &&& after.displays == before.displays
            &&& after.primary == before.primary
            &&& after.paths.len() == before.paths.len()
            &&& after.modes.len() == before.modes.len()
            &&& after.paths[p] == PathInfo {
                rotation: after.paths[p].rotation,
                scaling: after.paths[p].scaling,
                ..before.paths[p]
            }
        }),
{
    lemma_written_config(before.paths, before.modes, before.displays, names);
}

/// A word that holds neither size, position nor refresh rate is never written.
proof fn lemma_unwritten_word(
    displays: Seq<DisplayProperties>,
    paths: Seq<PathInfo>,
    names: Seq<Option<Seq<char>>>,
    m: int,
    w: int,
)
    requires
        w == crate::config::WORD_PIXEL_FORMAT || w > crate::config::WORD_VSYNC_DENOMINATOR,
    ensures
        last_word_write(displays, paths, names, m, w) is None,
    decreases displays.len(),
{
    if displays.len() > 0 {
        lemma_unwritten_word(displays.drop_last(), paths, names, m, w);
    }
}

/// What is read only cannot be changed: the pixel format of each source, which
/// gives the bit depth, and the scanline ordering of each monitor stay as they
/// are.
pub proof fn law_apply_keeps_read_only(
    before: DisplaySetModel,
    names: Seq<Option<Seq<char>>>,
    m: int,
)
    requires
        names.len() == before.paths.len(),
        before.wf(),
        0 <= m < before.modes.len(),
    ensures
        ({
            let after = crate::display::settings_applied(before, names);
            let pixel_format = crate::config::WORD_PIXEL_FORMAT as int;
            let scanline_ordering = crate::config::WORD_SCANLINE_ORDERING as int;
            &&& after.modes[m][pixel_format] == before.modes[m][pixel_format]
            &&& after.modes[m][scanline_ordering] == before.modes[m][scanline_ordering]
        }),
{
    lemma_written_config(before.paths, before.modes, before.displays, names);
    lemma_unwritten_word(
        before.displays,
        before.paths,
        names,
        m,
        crate::config::WORD_PIXEL_FORMAT as int,
    );
    lemma_unwritten_word(
        before.displays,
        before.paths,
        names,
        m,
        crate::config::WORD_SCANLINE_ORDERING as int,
    );
}

/// Writing the same settings again changes nothing.
pub proof fn law_apply_idempotent(before: DisplaySetModel, names: Seq<Option<Seq<char>>>)
    requires
        names.len() == before.paths.len(),
        before.wf(),
    ensures
        crate::display::settings_applied(crate::display::settings_applied(before, names), names)
            == crate::display::settings_applied(before, names),
{
    let once = crate::display::settings_applied(before, names);
    let twice = crate::display::settings_applied(once, names);
    let displays = before.displays;
    lemma_written_config(before.paths, before.modes, displays, names);
    lemma_written_config(once.paths, once.modes, displays, names);
    assert(twice.paths =~= once.paths) by {
        assert forall|p: int| 0 <= p < once.paths.len() implies twice.paths[p] == once.paths[p] by {
        }
    }
    assert forall|m: int| 0 <= m < once.modes.len() implies twice.modes[m] == once.modes[m] by {
        assert(twice.modes[m].len() == 12 && once.modes[m].len() == 12);
        assert forall|w: int| 0 <= w < 12 implies twice.modes[m][w] == once.modes[m][w] by {
            lemma_word_write_paths(displays, before.paths, once.paths, names, m, w);
        }
        assert(twice.modes[m] =~= once.modes[m]);
    }
    assert(twice.modes =~= once.modes);
}

/// Whether no display from `i` on touches path `p` or the two modes of that path.
pub open spec fn untouched_from(
    displays: Seq<DisplayProperties>,
    paths: Seq<PathInfo>,
    names: Seq<Option<Seq<char>>>,
    p: int,
    i: int,
) -> bool {
    forall|j: int, q: int|
        #![trigger writes_path(displays[j], names, q)]
        i <= j < displays.len() && writes_path(displays[j], names, q) ==> {
            &&& q != p
            &&& paths[q].source_mode_idx != paths[p].source_mode_idx
            &&& paths[q].source_mode_idx != paths[p].target_mode_idx
            &&& paths[q].target_mode_idx != paths[p].source_mode_idx
            &&& paths[q].target_mode_idx != paths[p].target_mode_idx
        }
}

/// What a display wrote stays where no later display writes to the same places.
proof fn lemma_last_write_stays(
    displays: Seq<DisplayProperties>,
    paths: Seq<PathInfo>,
    names: Seq<Option<Seq<char>>>,
    i: int,
    p: int,
)
    requires
        0 <= i < displays.len(),
        names.len() == paths.len(),
        writes_path(displays[i], names, p),
        untouched_from(displays, paths, names, p, i + 1),
    ensures
        last_path_write(displays, names, p) == displays[i].settings,
        forall|m: int, w: int|
            m == paths[p].source_mode_idx || m == paths[p].target_mode_idx ==> word_write(
                displays[i],
                paths,
                names,
                m,
                w,
            ) is Some ==> #[trigger] last_word_write(displays, paths, names, m, w) == word_write(
                displays[i],
                paths,
                names,
                m,
                w,
            ),
    decreases displays.len(),
{
    if i < displays.len() - 1 {
        let front = displays.drop_last();
        let q = crate::display::path_of(names, displays.last().name@);
        assert(displays[displays.len() - 1] == displays.last());
        assert(!writes_path(displays.last(), names, p)) by {
            if writes_path(displays[displays.len() - 1], names, p) {
            }
        }
        assert(untouched_from(front, paths, names, p, i + 1)) by {
            assert forall|j: int, q2: int|
                #![trigger writes_path(front[j], names, q2)]
                i + 1 <= j < front.len() && writes_path(front[j], names, q2) implies {
                &&& q2 != p
                &&& paths[q2].source_mode_idx != paths[p].source_mode_idx
                &&& paths[q2].source_mode_idx != paths[p].target_mode_idx
                &&& paths[q2].target_mode_idx != paths[p].source_mode_idx
                &&& paths[q2].target_mode_idx != paths[p].target_mode_idx
            } by {
                assert(writes_path(displays[j], names, q2));
            }
        }
        assert(front[i] == displays[i]);
        lemma_last_write_stays(front, paths, names, i, p);
        assert forall|m: int, w: int|
            m == paths[p].source_mode_idx || m == paths[p].target_mode_idx implies word_write(
            displays.last(),
            paths,
            names,
            m,
            w,
        ) is None by {
            if writes_path(displays.last(), names, q) {
                assert(writes_path(displays[displays.len() - 1], names, q));
            }
        }
        assert forall|m: int, w: int|
            (m == paths[p].source_mode_idx || m == paths[p].target_mode_idx) && word_write(
                displays[i],
                paths,
                names,
                m,
                w,
            ) is Some implies #[trigger] last_word_write(displays, paths, names, m, w)
            == word_write(displays[i], paths, names, m, w) by {
            assert(word_write(displays.last(), paths, names, m, w) is None);
            assert(last_word_write(front, paths, names, m, w) == word_write(
                front[i],
                paths,
                names,
                m,
                w,
            ));
        }
    } else {
        assert(displays[i] == displays.last());
    }
}

/// Where its path and modes are its own, an active display has its settings in
/// the configuration afterwards: orientation and scaling in its path, position
/// and resolution in its source mode, and its frequency in its target mode.
pub proof fn law_apply_writes_settings(
    before: DisplaySetModel,
    names: Seq<Option<Seq<char>>>,
    i: int,
    p: int,
)
    requires
        names.len() == before.paths.len(),
        before.wf(),
        0 <= i < before.displays.len(),
        writes_path(before.displays[i], names, p),
        before.paths[p].source_mode_idx < before.modes.len(),
        before.paths[p].target_mode_idx < before.modes.len(),
        before.paths[p].source_mode_idx != before.paths[p].target_mode_idx,
        untouched_from(before.displays, before.paths, names, p, i + 1),
    ensures
        ({
            let after = crate::display::settings_applied(before, names);
            let settings = before.displays[i].settings->0;
            let source = after.modes[before.paths[p].source_mode_idx as int];
            let target = after.modes[before.paths[p].target_mode_idx as int];
            &&& after.paths[p].rotation == settings.orientation.rotation()
            &&& after.paths[p].scaling == settings.scaling.0
            &&& source[crate::config::WORD_WIDTH as int] == settings.resolution.width
            &&& source[crate::config::WORD_HEIGHT as int] == settings.resolution.height
            &&& source[crate::config::WORD_POSITION_X as int] as i32 == settings.position.x
            &&& source[crate::config::WORD_POSITION_Y as int] as i32 == settings.position.y
            &&& target[crate::config::WORD_VSYNC_NUMERATOR as int] == settings.frequency.0
            &&& target[crate::config::WORD_VSYNC_DENOMINATOR as int] == 1
        }),
{
    let display = before.displays[i];
    let settings = display.settings->0;
    let paths = before.paths;
    law_path_of(names, display.name@);
    lemma_written_config(paths, before.modes, before.displays, names);
    lemma_last_write_stays(before.displays, paths, names, i, p);
    let after = crate::display::settings_applied(before, names);
    let s = paths[p].source_mode_idx as int;
    let t = paths[p].target_mode_idx as int;
    assert(after.modes[s].len() == 12 && after.modes[t].len() == 12);
    assert forall|w: int| 0 <= w < 12 && source_word(settings, w) is Some implies
        after.modes[s][w] == source_word(settings, w)->0 by {
        assert(word_write(display, paths, names, s, w) == source_word(settings, w));
        assert(last_word_write(before.displays, paths, names, s, w) == source_word(settings, w));
    }
    assert forall|w: int| 0 <= w < 12 && target_word(settings, w) is Some implies
        after.modes[t][w] == target_word(settings, w)->0 by {
        assert(word_write(display, paths, names, t, w) == target_word(settings, w));
        assert(last_word_write(before.displays, paths, names, t, w) == target_word(settings, w));
    }
    crate::config::lemma_coordinate_word(settings.position.x);
    crate::config::lemma_coordinate_word(settings.position.y);
}

/// What was written is what is read back: reading the settings of an active path
/// from the configuration gives the settings that its display had, where path
/// and modes are its own. What is read only is read as it was.
pub proof fn law_apply_reads_back(
    before: DisplaySetModel,
    names: Seq<Option<Seq<char>>>,
    i: int,
    p: int,
)
    requires
        names.len() == before.paths.len(),
        before.wf(),
        0 <= i < before.displays.len(),
        writes_path(before.displays[i], names, p),
        before.paths[p].active(),
        before.paths[p].source_mode_idx < before.modes.len(),
        before.paths[p].target_mode_idx < before.modes.len(),
        before.paths[p].source_mode_idx != before.paths[p].target_mode_idx,
        untouched_from(before.displays, before.paths, names, p, i + 1),
    ensures
        ({
            let after = crate::display::settings_applied(before, names);
            let old_settings = crate::properties::path_settings(before.paths[p], before.modes);
            crate::properties::path_settings(after.paths[p], after.modes) == Some(
                DisplaySettings {
                    bit_depth: old_settings->0.bit_depth,
                    scanline_ordering: old_settings->0.scanline_ordering,
                    ..before.displays[i].settings->0
                },
            )
        }),
{
    law_path_of(names, before.displays[i].name@);
    law_apply_writes_settings(before, names, i, p);
    law_apply_keeps_structure(before, names, p);
    law_apply_keeps_read_only(before, names, before.paths[p].source_mode_idx as int);
    law_apply_keeps_read_only(before, names, before.paths[p].target_mode_idx as int);
}

/// What making a display the primary one comes to. It succeeds if and only if the
/// display is active and every active display has settings. The display
/// is the primary one then, lies at the origin, and is the only active display
/// with the mark. Any two active displays lie as far apart as before. Nothing else
/// changes.
pub proof fn law_set_primary_moves_the_desktop(
    before: DisplaySetModel,
    index: int,
    after: DisplaySetModel,
    result: Result<(), DisplayError>,
)
    requires
        0 <= index < before.displays.len(),
        crate::display::can_move_to(before.displays, index),
        crate::display::primary_set(before, index, after, result),
    ensures
        result is Ok <==> before.displays[index].active && forall|k: int|
            0 <= k < before.displays.len() && (#[trigger] before.displays[k]).active
                ==> before.displays[k].settings is Some,
        result is Ok ==> {
            &&& after.primary == index
            &&& after.displays.len() == before.displays.len()
            &&& after.paths == before.paths
            &&& after.modes == before.modes
            &&& after.displays[index].primary
            &&& after.displays[index].settings is Some
            &&& after.displays[index].settings->0.position.x == 0
            &&& after.displays[index].settings->0.position.y == 0
        },
        result is Ok ==> forall|k: int|
            0 <= k < before.displays.len() && before.displays[k].active && k != index ==> !(
            #[trigger] after.displays[k]).primary,
        result is Ok ==> forall|i: int, j: int|
            #![trigger after.displays[i], after.displays[j]]
            0 <= i < before.displays.len() && 0 <= j < before.displays.len()
                && before.displays[i].active && before.displays[j].active ==> {
                let p = before.displays[i].settings->0.position;
                let q = before.displays[j].settings->0.position;
                let p2 = after.displays[i].settings->0.position;
                let q2 = after.displays[j].settings->0.position;
                p2.x - q2.x == p.x - q.x && p2.y - q2.y == p.y - q.y
            },
        result is Ok ==> forall|k: int|
            0 <= k < before.displays.len() ==> {
                let old_display = before.displays[k];
                let new_display = #[trigger] after.displays[k];
                &&& !old_display.active ==> new_display == old_display
                &&& new_display == DisplayProperties {
                    settings: new_display.settings,
                    primary: new_display.primary,
                    ..old_display
                }
                &&& old_display.settings matches Some(old_settings) ==> new_display.settings
                    == Some(
                    DisplaySettings {
                        position: new_display.settings->0.position,
                        ..old_settings
                    },
                )
            },
{
    let displays = before.displays;
    crate::display::lemma_first_lacking(displays, index, 0);
    let stop = crate::display::first_lacking(displays, index, 0);
    if crate::display::may_be_primary(displays, index) && stop < displays.len() {
        assert(displays[stop].active && displays[stop].settings is None);
    }
    if result is Ok {
        assert forall|k: int| 0 <= k < displays.len() && (#[trigger] displays[k]).active implies
            displays[k].settings is Some && (k != index ==> displays[k].settings->0.position.can_move(
            displays[index].settings->0.position,
        )) by {
            assert(!crate::display::lacks_settings(displays, index, k));
        }
    }
}

/// What happens where a display cannot become the primary one. An inactive display
/// and one without settings are refused, and nothing changes. Where `first` is the
/// first active display without settings, its name is the answer: the
/// active displays in front of it have moved and lost their marks, and the display
/// that was chosen, those behind, and the primary display are as before.
pub proof fn law_set_primary_refusals(
    before: DisplaySetModel,
    index: int,
    after: DisplaySetModel,
    result: Result<(), DisplayError>,
    first: int,
)
    requires
        0 <= index < before.displays.len(),
        crate::display::can_move_to(before.displays, index),
        crate::display::primary_set(before, index, after, result),
    ensures
        !before.displays[index].active ==> {
            &&& result matches Err(DisplayError::PrimaryDisplay)
            &&& after == before
        },
        before.displays[index].active && before.displays[index].settings is None ==> {
            &&& result matches Err(DisplayError::NoSettings(name))
            &&& name@ == before.displays[index].name@
            &&& after == before
        },
        before.displays[index].active && before.displays[index].settings is Some && 0 <= first
            < before.displays.len() && before.displays[first].active
            && before.displays[first].settings is None && (forall|j: int|
            0 <= j < first && (#[trigger] before.displays[j]).active
                ==> before.displays[j].settings is Some) ==> {
            let origin = before.displays[index].settings->0.position;
            &&& result matches Err(DisplayError::NoSettings(name))
            &&& name@ == before.displays[first].name@
            &&& after.primary == before.primary
            &&& after.paths == before.paths
            &&& after.modes == before.modes
            &&& after.displays.len() == before.displays.len()
            &&& forall|k: int|
                0 <= k < before.displays.len() && (k >= first || k == index
                    || !before.displays[k].active) ==> #[trigger] after.displays[k]
                    == before.displays[k]
            &&& forall|k: int|
                0 <= k < first && k != index && before.displays[k].active ==> {
                    let old_position = before.displays[k].settings->0.position;
                    let new_position = (#[trigger] after.displays[k]).settings->0.position;
                    &&& !after.displays[k].primary
                    &&& new_position.x + origin.x == old_position.x
                    &&& new_position.y + origin.y == old_position.y
                }
        },
{
    let displays = before.displays;
    crate::display::lemma_first_lacking(displays, index, 0);
    let stop = crate::display::first_lacking(displays, index, 0);
    if displays[index].active && displays[index].settings is Some && 0 <= first < displays.len()
        && displays[first].active && displays[first].settings is None && (forall|j: int|
        0 <= j < first && (#[trigger] displays[j]).active ==> displays[j].settings is Some) {
        assert(crate::display::lacks_settings(displays, index, first));
        assert(stop <= first) by {
            if first < stop {
                assert(!crate::display::lacks_settings(displays, index, first));
            }
        }
        assert(crate::display::lacks_settings(displays, index, stop));
        assert(displays[stop].active);
        assert(stop == first);
        assert forall|k: int| 0 <= k < first && k != index && (#[trigger] displays[k]).active implies
            displays[k].settings->0.position.can_move(displays[index].settings->0.position) by {
        }
    }
}

/// The positions fit if and only if each active display that is reached can be
/// moved in 32 bits. A display is reached where no active one in front of it lacks
/// settings, and it does not lack them itself.
pub proof fn law_can_move_to(displays: Seq<DisplayProperties>, index: int)
    requires
        0 <= index < displays.len(),
    ensures
        crate::display::can_move_to(displays, index) <==> (displays[index].active
            && displays[index].settings is Some ==> forall|k: int|
            0 <= k < displays.len() && k != index && (#[trigger] displays[k]).active && (forall|j: int|
                0 <= j <= k && (#[trigger] displays[j]).active ==> displays[j].settings is Some) ==> {
                let origin = displays[index].settings->0.position;
                let position = displays[k].settings->0.position;
                &&& i32::MIN <= -origin.x <= i32::MAX
                &&& i32::MIN <= -origin.y <= i32::MAX
                &&& i32::MIN <= -origin.x + position.x <= i32::MAX
                &&& i32::MIN <= -origin.y + position.y <= i32::MAX
            }),
{
    crate::display::lemma_first_lacking(displays, index, 0);
    let stop = crate::display::first_lacking(displays, index, 0);
    if displays[index].active && displays[index].settings is Some {
        assert forall|k: int| 0 <= k < displays.len() && k != index && (#[trigger]
        displays[k]).active implies (k < stop <==> (forall|j: int|
            0 <= j <= k && (#[trigger] displays[j]).active ==> displays[j].settings is Some)) by {
            if k < stop {
                assert forall|j: int| 0 <= j <= k && (#[trigger] displays[j]).active implies
                    displays[j].settings is Some by {
                    assert(!crate::display::lacks_settings(displays, index, j));
                }
            } else {
                assert(crate::display::lacks_settings(displays, index, stop));
                assert(displays[stop].active && displays[stop].settings is None);
            }
        }
    }
}

/// Changing settings gives the display what is asked for and leaves the rest of
/// its settings and all else about it.
pub proof fn law_change_settings_values(
    before: DisplaySetModel,
    index: int,
    properties: PropertiesOpt,
)
    requires
        0 <= index < before.displays.len(),
    ensures
        ({
            let after = crate::display::settings_changed(before, index, properties);
            let old_display = before.displays[index];
            let new_display = after.displays[index];
            &&& new_display == DisplayProperties { settings: new_display.settings, ..old_display }
            &&& old_display.settings is None ==> after == before
            &&& old_display.settings matches Some(old_settings) ==> {
                &&& new_display.settings matches Some(new_settings)
                &&& new_settings.position == match properties.position {
                    Some(position) => position,
                    None => old_settings.position,
                }
                &&& new_settings.resolution == match properties.resolution {
                    Some(resolution) => resolution,
                    None => old_settings.resolution,
                }
                &&& new_settings.frequency == match properties.frequency {
                    Some(frequency) => frequency,
                    None => old_settings.frequency,
                }
                &&& new_settings.orientation == match properties.orientation {
                    Some(orientation) => orientation,
                    None => old_settings.orientation,
                }
                &&& new_settings.scaling == old_settings.scaling
                &&& new_settings.bit_depth == old_settings.bit_depth
                &&& new_settings.scanline_ordering == old_settings.scanline_ordering
            }
        }),
{
}

/// A path that no display writes to has no last write.
proof fn lemma_no_path_write(
    displays: Seq<DisplayProperties>,
    names: Seq<Option<Seq<char>>>,
    p: int,
)
    requires
        forall|i: int| 0 <= i < displays.len() ==> !writes_path(#[trigger] displays[i], names, p),
    ensures
        last_path_write(displays, names, p) is None,
    decreases displays.len(),
{
    if displays.len() > 0 {
        assert(!writes_path(displays[displays.len() - 1], names, p));
        assert forall|i: int| 0 <= i < displays.drop_last().len() implies !writes_path(
            #[trigger] displays.drop_last()[i],
            names,
            p,
        ) by {
            assert(!writes_path(displays[i], names, p));
        }
        lemma_no_path_write(displays.drop_last(), names, p);
    }
}

/// A mode that no path with a writer refers to has no last write.
proof fn lemma_no_mode_write(
    displays: Seq<DisplayProperties>,
    paths: Seq<PathInfo>,
    names: Seq<Option<Seq<char>>>,
    m: int,
    w: int,
)
    requires
        forall|i: int, p: int|
            #![trigger writes_path(displays[i], names, p)]
            0 <= i < displays.len() && writes_path(displays[i], names, p)
                ==> paths[p].source_mode_idx != m && paths[p].target_mode_idx != m,
    ensures
        last_word_write(displays, paths, names, m, w) is None,
    decreases displays.len(),
{
    if displays.len() > 0 {
        let last = displays.len() - 1;
        let p = crate::display::path_of(names, displays.last().name@);
        assert(writes_path(displays.last(), names, p) == writes_path(displays[last], names, p));
        let front = displays.drop_last();
        assert forall|i: int, p: int|
            #![trigger writes_path(front[i], names, p)]
            0 <= i < front.len() && writes_path(front[i], names, p) implies
            paths[p].source_mode_idx != m && paths[p].target_mode_idx != m by {
            assert(writes_path(displays[i], names, p));
        }
        lemma_no_mode_write(front, paths, names, m, w);
    }
}

/// A path that no active display with settings has as its own stays as it is.
pub proof fn law_apply_leaves_other_paths(
    before: DisplaySetModel,
    names: Seq<Option<Seq<char>>>,
    p: int,
)
    requires
        names.len() == before.paths.len(),
        before.wf(),
        0 <= p < before.paths.len(),
        forall|i: int|
            0 <= i < before.displays.len() && (#[trigger] before.displays[i]).active
                && before.displays[i].settings is Some && names[p] == Some(
                before.displays[i].name@,
            ) ==> exists|q: int| 0 <= q < p && #[trigger] names[q] == names[p],
    ensures
        crate::display::settings_applied(before, names).paths[p] == before.paths[p],
{
    lemma_written_config(before.paths, before.modes, before.displays, names);
    assert forall|i: int| 0 <= i < before.displays.len() implies !writes_path(
        #[trigger] before.displays[i],
        names,
        p,
    ) by {
        law_path_of(names, before.displays[i].name@);
    }
    lemma_no_path_write(before.displays, names, p);
}

/// A mode that belongs to no path of an active display with settings stays as it
/// is.
pub proof fn law_apply_leaves_other_modes(
    before: DisplaySetModel,
    names: Seq<Option<Seq<char>>>,
    m: int,
)
    requires
        names.len() == before.paths.len(),
        before.wf(),
        0 <= m < before.modes.len(),
        forall|i: int, p: int|
            #![trigger before.displays[i], before.paths[p]]
            0 <= i < before.displays.len() && before.displays[i].active
                && before.displays[i].settings is Some && 0 <= p < names.len() && names[p] == Some(
                before.displays[i].name@,
            ) ==> before.paths[p].source_mode_idx != m && before.paths[p].target_mode_idx != m,
    ensures
        crate::display::settings_applied(before, names).modes[m] == before.modes[m],
{
    let after = crate::display::settings_applied(before, names);
    lemma_written_config(before.paths, before.modes, before.displays, names);
    assert forall|i: int, p: int|
        #![trigger writes_path(before.displays[i], names, p)]
        0 <= i < before.displays.len() && writes_path(before.displays[i], names, p) implies
        before.paths[p].source_mode_idx != m && before.paths[p].target_mode_idx != m by {
        law_path_of(names, before.displays[i].name@);
        let path = before.paths[p];
    }
    assert(after.modes[m].len() == 12 && before.modes[m].len() == 12);
    assert forall|w: int| 0 <= w < 12 implies after.modes[m][w] == before.modes[m][w] by {
        lemma_no_mode_write(before.displays, before.paths, names, m, w);
    }
    assert(after.modes[m] =~= before.modes[m]);
}

/// Where displays write to the same places, the last one counts, and within one
/// display the refresh rate is written after the position. An index without a mode
/// is passed over.
pub proof fn law_apply_last_write_counts(
    before: DisplaySetModel,
    names: Seq<Option<Seq<char>>>,
    i: int,
    p: int,
)
    requires
        names.len() == before.paths.len(),
        before.wf(),
        0 <= i < before.displays.len(),
        before.displays[i].active,
        before.displays[i].settings is Some,
        0 <= p < names.len(),
        names[p] == Some(before.displays[i].name@),
        forall|q: int| 0 <= q < p ==> #[trigger] names[q] != Some(before.displays[i].name@),
        untouched_from(before.displays, before.paths, names, p, i + 1),
    ensures
        ({
            let after = crate::display::settings_applied(before, names);
            let settings = before.displays[i].settings->0;
            let s = before.paths[p].source_mode_idx as int;
            let t = before.paths[p].target_mode_idx as int;
            &&& after.paths[p].rotation == settings.orientation.rotation()
            &&& after.paths[p].scaling == settings.scaling.0
            &&& s < before.modes.len() ==> {
                &&& after.modes[s][0] == settings.resolution.width
                &&& after.modes[s][1] == settings.resolution.height
                &&& after.modes[s][3] as i32 == settings.position.x
                &&& s != t ==> after.modes[s][4] as i32 == settings.position.y
            }
            &&& t < before.modes.len() ==> {
                &&& after.modes[t][4] == settings.frequency.0
                &&& after.modes[t][5] == 1
            }
        }),
{
    let display = before.displays[i];
    let settings = display.settings->0;
    let paths = before.paths;
    law_path_of(names, display.name@);
    assert(writes_path(display, names, p));
    lemma_written_config(paths, before.modes, before.displays, names);
    lemma_last_write_stays(before.displays, paths, names, i, p);
    let after = crate::display::settings_applied(before, names);
    let s = paths[p].source_mode_idx as int;
    let t = paths[p].target_mode_idx as int;
    if s < before.modes.len() {
        assert(after.modes[s].len() == 12);
        assert forall|w: int|
            0 <= w < 12 && source_word(settings, w) is Some && (s != t || target_word(settings, w)
                is None) implies #[trigger] after.modes[s][w] == source_word(settings, w)->0 by {
            assert(word_write(display, paths, names, s, w) == source_word(settings, w));
            assert(last_word_write(before.displays, paths, names, s, w) == source_word(settings, w));
        }
    }
    if t < before.modes.len() {
        assert(after.modes[t].len() == 12);
        assert forall|w: int| 0 <= w < 12 && target_word(settings, w) is Some implies
            #[trigger] after.modes[t][w] == target_word(settings, w)->0 by {
            assert(word_write(display, paths, names, t, w) == target_word(settings, w));
            assert(last_word_write(before.displays, paths, names, t, w) == target_word(settings, w));
        }
    }
    crate::config::lemma_coordinate_word(settings.position.x);
    crate::config::lemma_coordinate_word(settings.position.y);
}

} // verus!
