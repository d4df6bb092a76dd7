//! Display configurations as the system hands them out: paths from a source of
//! pictures to a monitor, and the modes that the paths refer to.

use vstd::prelude::*;

use crate::error::DisplayError;
use crate::properties::DisplaySettings;

verus! {

/// Ask for every path, used or not.
pub const QDC_ALL_PATHS: u32 = 1;

/// Ask for the paths in use.
pub const QDC_ONLY_ACTIVE_PATHS: u32 = 2;

/// Ask for the paths that the topology database holds for the connected monitors.
pub const QDC_DATABASE_CURRENT: u32 = 4;

/// Show the desktop on the internal display only.
pub const SDC_TOPOLOGY_INTERNAL: u32 = 0x1;

/// Show the same picture on each display.
pub const SDC_TOPOLOGY_CLONE: u32 = 0x2;

/// Extend the desktop over the displays.
pub const SDC_TOPOLOGY_EXTEND: u32 = 0x4;

/// Show the desktop on the external display only.
pub const SDC_TOPOLOGY_EXTERNAL: u32 = 0x8;

/// Use the paths and the modes that come with the call.
pub const SDC_USE_SUPPLIED_DISPLAY_CONFIG: u32 = 0x20;

/// Only try whether the configuration could be set.
pub const SDC_VALIDATE: u32 = 0x40;

/// Set the configuration.
pub const SDC_APPLY: u32 = 0x80;

/// Keep the configuration in the topology database.
pub const SDC_SAVE_TO_DATABASE: u32 = 0x200;

/// Let the system adjust what it cannot set exactly.
pub const SDC_ALLOW_CHANGES: u32 = 0x400;

/// The flag of a path in use.
pub const PATH_ACTIVE: u32 = 0x1;

/// A path from a source to a monitor.
#[derive(Clone, Copy, Debug, PartialEq, Eq, Structural)]
pub struct PathInfo {
    /// Which mode the source uses.
    pub source_mode_idx: u32,
    /// Which mode the monitor uses.
    pub target_mode_idx: u32,
    /// The lower half of the number of the monitor's adapter.
    pub adapter_low: u32,
    /// The upper half of the number of the monitor's adapter.
    pub adapter_high: i32,
    /// The number of the monitor on its adapter.
    pub target_id: u32,
    pub rotation: i32,
    pub scaling: i32,
    pub flags: u32,
}

impl PathInfo {
    /// The physical monitor at the end of the path.
    pub open spec fn monitor(self) -> (u32, i32, u32) {
        (self.adapter_low, self.adapter_high, self.target_id)
    }

    /// Whether the path is in use.
    pub open spec fn active(self) -> bool {
        self.flags & PATH_ACTIVE != 0
    }

    /// Whether the path is in use.
    pub fn is_active(&self) -> (active: bool)
        ensures
            active == self.active(),
    {
        self.flags & PATH_ACTIVE != 0
    }
}

/// A mode. What it holds is read as the mode of a source or as the mode of a
/// monitor, and the two lie on the same twelve words of memory.
#[derive(Clone, Copy, Debug)]
pub struct ModeInfo {
    pub words: [u32; 12],
}

/// The word of a source's width.
pub const WORD_WIDTH: usize = 0;

/// The word of a source's height.
pub const WORD_HEIGHT: usize = 1;

/// The word of a source's pixel format.
pub const WORD_PIXEL_FORMAT: usize = 2;

/// The word of a source's horizontal position.
pub const WORD_POSITION_X: usize = 3;

/// The word of a source's vertical position.
pub const WORD_POSITION_Y: usize = 4;

/// The word of the numerator of a monitor's refresh rate.
pub const WORD_VSYNC_NUMERATOR: usize = 4;

/// The word of the denominator of a monitor's refresh rate.
pub const WORD_VSYNC_DENOMINATOR: usize = 5;

/// The word of the order in which a monitor draws its lines.
pub const WORD_SCANLINE_ORDERING: usize = 11;

impl View for ModeInfo {
    type V = Seq<u32>;

    open spec fn view(&self) -> Seq<u32> {
        self.words@
    }
}

/// The words of a mode with the position and the size of `settings` in the
/// places of a source.
pub open spec fn source_written(words: Seq<u32>, settings: DisplaySettings) -> Seq<u32> {
    words.update(WORD_POSITION_X as int, settings.position.x as u32)
        .update(WORD_POSITION_Y as int, settings.position.y as u32)
        .update(WORD_WIDTH as int, settings.resolution.width)
        .update(WORD_HEIGHT as int, settings.resolution.height)
}

/// The words of a mode with the refresh rate of `settings` in the places of a
/// monitor.
pub open spec fn target_written(words: Seq<u32>, settings: DisplaySettings) -> Seq<u32> {
    words.update(WORD_VSYNC_NUMERATOR as int, settings.frequency.0)
        .update(WORD_VSYNC_DENOMINATOR as int, 1u32)
}

/// The modes as sequences of words.
pub open spec fn mode_words(modes: Seq<ModeInfo>) -> Seq<Seq<u32>> {
    modes.map_values(|mode: ModeInfo| mode@)
}

/// Whether each mode has its twelve words.
pub open spec fn whole_modes(modes: Seq<Seq<u32>>) -> bool {
    forall|m: int| 0 <= m < modes.len() ==> (#[trigger] modes[m]).len() == 12
}

/// The modes after the source mode at `idx`, if there is one, took the settings.
pub open spec fn source_updated(
    modes: Seq<Seq<u32>>,
    idx: int,
    settings: DisplaySettings,
) -> Seq<Seq<u32>> {
    if idx < modes.len() {
        modes.update(idx, source_written(modes[idx], settings))
    } else {
        modes
    }
}

/// The modes after the target mode at `idx`, if there is one, took the settings.
pub open spec fn target_updated(
    modes: Seq<Seq<u32>>,
    idx: int,
    settings: DisplaySettings,
) -> Seq<Seq<u32>> {
    if idx < modes.len() {
        modes.update(idx, target_written(modes[idx], settings))
    } else {
        modes
    }
}

/// The path with the rotation and the scaling of `settings`.
pub open spec fn path_updated(path: PathInfo, settings: DisplaySettings) -> PathInfo {
    PathInfo {
        rotation: settings.orientation.rotation() as i32,
        scaling: settings.scaling.0,
        ..path
    }
}

/// Writes position and size into the source mode at `idx`; an index without a
/// mode is passed over.
pub fn update_source_mode(modes: &mut Vec<ModeInfo>, idx: usize, settings: &DisplaySettings)
    ensures
        mode_words(final(modes)@) == source_updated(mode_words(old(modes)@), idx as int, *settings),
{
    if idx >= modes.len() {
        return;
    }
    let mut mode: ModeInfo = modes[idx];
    mode.words[WORD_POSITION_X] = settings.position.x as u32;
    mode.words[WORD_POSITION_Y] = settings.position.y as u32;
    mode.words[WORD_WIDTH] = settings.resolution.width;
    mode.words[WORD_HEIGHT] = settings.resolution.height;
    modes.set(idx, mode);
    assert(mode_words(modes@) =~= source_updated(mode_words(old(modes)@), idx as int, *settings));
}

/// Writes the refresh rate into the target mode at `idx`; an index without a
/// mode is passed over.
pub fn update_target_mode(modes: &mut Vec<ModeInfo>, idx: usize, settings: &DisplaySettings)
    ensures
        mode_words(final(modes)@) == target_updated(mode_words(old(modes)@), idx as int, *settings),
{
    if idx >= modes.len() {
        return;
    }
    let mut mode: ModeInfo = modes[idx];
    mode.words[WORD_VSYNC_NUMERATOR] = settings.frequency.0;
    mode.words[WORD_VSYNC_DENOMINATOR] = 1;
    modes.set(idx, mode);
    assert(mode_words(modes@) =~= target_updated(mode_words(old(modes)@), idx as int, *settings));
}

/// Writes rotation and scaling into a path.
pub fn update_path_info(path: &mut PathInfo, settings: &DisplaySettings)
    ensures
        *final(path) == path_updated(*old(path), *settings),
{
    path.rotation = settings.orientation.to_rotation() as i32;
    path.scaling = settings.scaling.to_value();
}

/// What comes of handing a configuration to the system, by the code that it
/// returned: zero is success.
pub fn commit_display_config(code: i32) -> (result: Result<(), DisplayError>)
    ensures
        code == 0 ==> result is Ok,
        code != 0 ==> result == Err::<(), DisplayError>(DisplayError::FailedToCommit(code)),
{
    if code == 0 {
        Ok(())
    } else {
        Err(DisplayError::FailedToCommit(code))
    }
}

/// A coordinate is read back from the word that it was written into.
pub proof fn lemma_coordinate_word(coordinate: i32)
    ensures
        (coordinate as u32) as i32 == coordinate,
{
    assert((coordinate as u32) as i32 == coordinate) by (bit_vector);
}

/// The numbers that the system gives the flags, and the flags that are used
/// together.
pub proof fn law_flags()
    ensures
        QDC_ALL_PATHS == 1,
        QDC_ONLY_ACTIVE_PATHS == 2,
        QDC_DATABASE_CURRENT == 4,
        SDC_TOPOLOGY_INTERNAL | SDC_VALIDATE == 0x41,
        SDC_TOPOLOGY_CLONE | SDC_VALIDATE == 0x42,
        SDC_TOPOLOGY_EXTEND | SDC_VALIDATE == 0x44,
        SDC_TOPOLOGY_EXTERNAL | SDC_VALIDATE == 0x48,
        SDC_APPLY | SDC_USE_SUPPLIED_DISPLAY_CONFIG | SDC_ALLOW_CHANGES == 0x4a0,
        SDC_APPLY | SDC_USE_SUPPLIED_DISPLAY_CONFIG | SDC_ALLOW_CHANGES | SDC_SAVE_TO_DATABASE
            == 0x6a0,
{
    assert(0x1u32 | 0x40u32 == 0x41u32) by (bit_vector);
    assert(0x2u32 | 0x40u32 == 0x42u32) by (bit_vector);
    assert(0x4u32 | 0x40u32 == 0x44u32) by (bit_vector);
    assert(0x8u32 | 0x40u32 == 0x48u32) by (bit_vector);
    assert(0x80u32 | 0x20u32 | 0x400u32 == 0x4a0u32) by (bit_vector);
    assert(0x80u32 | 0x20u32 | 0x400u32 | 0x200u32 == 0x6a0u32) by (bit_vector);
}

/// A path is in use if and only if the lowest of its flags is set.
pub proof fn law_path_active(path: PathInfo)
    ensures
        path.active() <==> path.flags % 2 == 1,
{
    let flags = path.flags;
    assert((flags & 1 != 0) <==> flags % 2 == 1) by (bit_vector);
}

/// Two paths end at the same monitor if and only if adapter and number agree.
pub proof fn law_same_monitor(a: PathInfo, b: PathInfo)
    ensures
        a.monitor() == b.monitor() <==> a.adapter_low == b.adapter_low && a.adapter_high
            == b.adapter_high && a.target_id == b.target_id,
{
}

/// A source mode that takes settings has their size in its first two words and
/// their position in the fourth and the fifth; its other words and the other
/// modes stay. An index without a mode changes nothing.
pub proof fn law_source_updated(
    modes: Seq<Seq<u32>>,
    idx: int,
    settings: DisplaySettings,
    m: int,
    w: int,
)
    requires
        whole_modes(modes),
        0 <= idx,
        0 <= m < modes.len(),
        0 <= w < 12,
    ensures
        ({
            let after = source_updated(modes, idx, settings);
            &&& after.len() == modes.len()
            &&& after[m].len() == 12
            &&& m == idx ==> {
                &&& after[m][0] == settings.resolution.width
                &&& after[m][1] == settings.resolution.height
                &&& after[m][3] as i32 == settings.position.x
                &&& after[m][4] as i32 == settings.position.y
            }
            &&& m != idx || w == 2 || w >= 5 ==> after[m][w] == modes[m][w]
        }),
{
    lemma_coordinate_word(settings.position.x);
    lemma_coordinate_word(settings.position.y);
}

/// A target mode that takes settings has their refresh rate in its fifth word and
/// one in its sixth; its other words and the other modes stay. An index without a
/// mode changes nothing.
pub proof fn law_target_updated(
    modes: Seq<Seq<u32>>,
    idx: int,
    settings: DisplaySettings,
    m: int,
    w: int,
)
    requires
        whole_modes(modes),
        0 <= idx,
        0 <= m < modes.len(),
        0 <= w < 12,
    ensures
        ({
            let after = target_updated(modes, idx, settings);
            &&& after.len() == modes.len()
            &&& after[m].len() == 12
            &&& m == idx ==> after[m][4] == settings.frequency.0 && after[m][5] == 1
            &&& m != idx || (w != 4 && w != 5) ==> after[m][w] == modes[m][w]
        }),
{
}

/// A path that takes settings has their orientation and scaling; all else stays.
pub proof fn law_path_updated(path: PathInfo, settings: DisplaySettings)
    ensures
        ({
            let after = path_updated(path, settings);
            &&& after.rotation == settings.orientation.rotation()
            &&& after.scaling == settings.scaling.0
            &&& after == PathInfo { rotation: after.rotation, scaling: after.scaling, ..path }
        }),
{
}

} // verus!
