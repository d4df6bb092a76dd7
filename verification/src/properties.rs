//! The properties and the settings of one display.

use vstd::prelude::*;

use crate::config::{
    ModeInfo, PathInfo, WORD_HEIGHT, WORD_PIXEL_FORMAT, WORD_POSITION_X, WORD_POSITION_Y,
    WORD_SCANLINE_ORDERING, WORD_VSYNC_DENOMINATOR, WORD_VSYNC_NUMERATOR, WORD_WIDTH,
};
use crate::types::{
    BitDepth, ConnectorType, Frequency, Orientation, Position, Resolution, Scaling,
    ScanlineOrdering,
};

verus! {

/// The settings of an active display.
#[derive(Clone, Copy, Debug, PartialEq, Eq, Structural)]
pub struct DisplaySettings {
    pub position: Position,
    pub resolution: Resolution,
    pub frequency: Frequency,
    pub orientation: Orientation,
    pub scaling: Scaling,
    /// Read only.
    pub bit_depth: BitDepth,
    /// Read only.
    pub scanline_ordering: ScanlineOrdering,
}

/// What is known of a display.
#[derive(Clone, Debug)]
pub struct DisplayProperties {
    /// The name of the device that draws the picture.
    pub name: String,
    /// The name of the monitor.
    pub string: String,
    /// The device path of the monitor.
    pub key: String,
    /// The settings, of an active display.
    pub settings: Option<DisplaySettings>,
    pub connector_type: Option<ConnectorType>,
    /// Whether a monitor is connected.
    pub target_available: bool,
    /// Whether the display shows a part of the desktop.
    pub active: bool,
    /// Whether the display is the primary one.
    pub primary: bool,
}

/// What the system says of the display at the end of a path, besides its settings.
#[derive(Debug)]
pub struct Description {
    /// The name of the device that draws the picture.
    pub name: String,
    /// The name of the monitor.
    pub string: String,
    /// The device path of the monitor.
    pub key: String,
    pub connector_type: Option<ConnectorType>,
    /// Whether a monitor is connected.
    pub target_available: bool,
}

/// The bits per pixel of a pixel format; zero where a format has no such number.
pub open spec fn format_bits(pixel_format: u32) -> u32 {
    if 1 <= pixel_format <= 4 {
        (8 * pixel_format) as u32
    } else {
        0
    }
}

/// The orientation of a rotation; an unknown one is taken for landscape.
pub open spec fn rotation_orientation(rotation: i32) -> Orientation {
    if rotation == 2 {
        Orientation::Portrait
    } else if rotation == 3 {
        Orientation::LandscapeFlipped
    } else if rotation == 4 {
        Orientation::PortraitFlipped
    } else {
        Orientation::Landscape
    }
}

/// The settings that a configuration holds for a path: an active path with both
/// its modes has settings. The refresh rate is a fraction, rounded down.
pub open spec fn path_settings(path: PathInfo, modes: Seq<Seq<u32>>) -> Option<DisplaySettings> {
    if path.active() && path.source_mode_idx < modes.len() && path.target_mode_idx < modes.len() {
        let source = modes[path.source_mode_idx as int];
        let target = modes[path.target_mode_idx as int];
        let numerator = target[WORD_VSYNC_NUMERATOR as int];
        let denominator = target[WORD_VSYNC_DENOMINATOR as int];
        Some(
            DisplaySettings {
                position: Position {
                    x: source[WORD_POSITION_X as int] as i32,
                    y: source[WORD_POSITION_Y as int] as i32,
                },
                resolution: Resolution {
                    width: source[WORD_WIDTH as int],
                    height: source[WORD_HEIGHT as int],
                },
                frequency: Frequency(
                    if denominator == 0 {
                        0
                    } else {
                        numerator / denominator
                    },
                ),
                orientation: rotation_orientation(path.rotation),
                scaling: Scaling(path.scaling),
                bit_depth: BitDepth(format_bits(source[WORD_PIXEL_FORMAT as int])),
                scanline_ordering: ScanlineOrdering(target[WORD_SCANLINE_ORDERING as int] as i32),
            },
        )
    } else {
        None
    }
}

/// The properties of the display at the end of a path, given what the system
/// says of it. The primary display is the one at the origin.
pub open spec fn path_properties(
    path: PathInfo,
    modes: Seq<Seq<u32>>,
    description: Description,
) -> DisplayProperties {
    let settings = path_settings(path, modes);
    DisplayProperties {
        name: description.name,
        string: description.string,
        key: description.key,
        settings,
        connector_type: description.connector_type,
        target_available: description.target_available,
        active: path.active(),
        primary: settings is Some && settings->0.position == (Position { x: 0, y: 0 }),
    }
}

impl DisplayProperties {
    /// The properties of the display at the end of `path`. The primary display is
    /// the one at the origin.
    pub fn from_display_config(
        path: &PathInfo,
        modes: &Vec<ModeInfo>,
        description: Description,
    ) -> (properties: DisplayProperties)
        ensures
            properties == path_properties(*path, crate::config::mode_words(modes@), description),
            properties.primary <==> properties.settings is Some && properties.settings->0.position.x
                == 0 && properties.settings->0.position.y == 0,
            properties.active <==> path.flags % 2 == 1,
            properties.settings is Some <==> properties.active && path.source_mode_idx
                < modes@.len() && path.target_mode_idx < modes@.len(),
            properties.name == description.name,
            properties.string == description.string,
            properties.key == description.key,
            properties.connector_type == description.connector_type,
            properties.target_available == description.target_available,
    {
        proof {
            crate::config::law_path_active(*path);
        }
        let active: bool = path.is_active();
        let source_idx: usize = path.source_mode_idx as usize;
        let target_idx: usize = path.target_mode_idx as usize;
        let mut settings: Option<DisplaySettings> = None;
        let mut primary: bool = false;
        if active && source_idx < modes.len() && target_idx < modes.len() {
            let source: ModeInfo = modes[source_idx];
            let target: ModeInfo = modes[target_idx];
            let numerator: u32 = target.words[WORD_VSYNC_NUMERATOR];
            let denominator: u32 = target.words[WORD_VSYNC_DENOMINATOR];
            let rate: u32 = if denominator == 0 { 0 } else { numerator / denominator };
            let format: u32 = source.words[WORD_PIXEL_FORMAT];
            let bits: u32 = if 1 <= format && format <= 4 { 8 * format } else { 0 };
            let orientation = match path.rotation {
                2 => Orientation::Portrait,
                3 => Orientation::LandscapeFlipped,
                4 => Orientation::PortraitFlipped,
                _ => Orientation::Landscape,
            };
            let position = Position::new(
                source.words[WORD_POSITION_X] as i32,
                source.words[WORD_POSITION_Y] as i32,
            );
            primary = position.x == 0 && position.y == 0;
            settings = Some(
                DisplaySettings {
                    position,
                    resolution: Resolution {
                        width: source.words[WORD_WIDTH],
                        height: source.words[WORD_HEIGHT],
                    },
                    frequency: Frequency(rate),
                    orientation,
                    scaling: Scaling(path.scaling),
                    bit_depth: BitDepth(bits),
                    scanline_ordering: ScanlineOrdering(
                        target.words[WORD_SCANLINE_ORDERING] as i32,
                    ),
                },
            );
            assert(crate::config::mode_words(modes@)[source_idx as int] == source@);
            assert(crate::config::mode_words(modes@)[target_idx as int] == target@);
        }
        DisplayProperties {
            name: description.name,
            string: description.string,
            key: description.key,
            settings,
            connector_type: description.connector_type,
            target_available: description.target_available,
            active,
            primary,
        }
    }
}

/// The settings that a user asks to change; the others stay as they are.
#[derive(Clone, Copy, Debug)]
pub struct PropertiesOpt {
    pub position: Option<Position>,
    pub resolution: Option<Resolution>,
    pub frequency: Option<Frequency>,
    pub orientation: Option<Orientation>,
}

impl PropertiesOpt {
    /// `settings` with the requested changes.
    pub open spec fn applied_to(self, settings: DisplaySettings) -> DisplaySettings {
        DisplaySettings {
            position: match self.position {
                Some(position) => position,
                None => settings.position,
            },
            resolution: match self.resolution {
                Some(resolution) => resolution,
                None => settings.resolution,
            },
            frequency: match self.frequency {
                Some(frequency) => frequency,
                None => settings.frequency,
            },
            orientation: match self.orientation {
                Some(orientation) => orientation,
                None => settings.orientation,
            },
            ..settings
        }
    }
}

/// Sets all requested properties.
pub fn set_properties(properties: &PropertiesOpt, settings: &mut DisplaySettings)
    ensures
        *final(settings) == properties.applied_to(*old(settings)),
        final(settings).position == match properties.position {
            Some(position) => position,
            None => old(settings).position,
        },
        final(settings).resolution == match properties.resolution {
            Some(resolution) => resolution,
            None => old(settings).resolution,
        },
        final(settings).frequency == match properties.frequency {
            Some(frequency) => frequency,
            None => old(settings).frequency,
        },
        final(settings).orientation == match properties.orientation {
            Some(orientation) => orientation,
            None => old(settings).orientation,
        },
        final(settings).scaling == old(settings).scaling,
        final(settings).bit_depth == old(settings).bit_depth,
        final(settings).scanline_ordering == old(settings).scanline_ordering,
{
    if let Some(position) = properties.position {
        settings.position = position;
    }
    if let Some(resolution) = properties.resolution {
        settings.resolution = resolution;
    }
    if let Some(frequency) = properties.frequency {
        settings.frequency = frequency;
    }
    if let Some(orientation) = properties.orientation {
        settings.orientation = orientation;
    }
}

/// Asking for the same changes again changes nothing.
pub proof fn law_set_properties_idempotent(properties: PropertiesOpt, settings: DisplaySettings)
    ensures
        properties.applied_to(properties.applied_to(settings)) == properties.applied_to(settings),
{
}

/// Bit depth and scanline ordering are read only: they stay as they are, whatever
/// is asked for. Scaling is not among what can be asked for here, and stays, too.
pub proof fn law_set_properties_keeps_read_only(
    properties: PropertiesOpt,
    settings: DisplaySettings,
)
    ensures
        properties.applied_to(settings).bit_depth == settings.bit_depth,
        properties.applied_to(settings).scanline_ordering == settings.scanline_ordering,
        properties.applied_to(settings).scaling == settings.scaling,
{
}

/// Each value that is asked for is in the settings afterwards, whatever else is
/// asked for.
pub proof fn law_requests_are_met(properties: PropertiesOpt, settings: DisplaySettings)
    ensures
        properties.position matches Some(position) ==> properties.applied_to(settings).position
            == position,
        properties.resolution matches Some(resolution) ==> properties.applied_to(
            settings,
        ).resolution == resolution,
        properties.frequency matches Some(frequency) ==> properties.applied_to(settings).frequency
            == frequency,
        properties.orientation matches Some(orientation) ==> properties.applied_to(
            settings,
        ).orientation == orientation,
{
}

/// Each value that is not asked for stays as it is, whatever else is asked for.
pub proof fn law_the_rest_stays(properties: PropertiesOpt, settings: DisplaySettings)
    ensures
        properties.position is None ==> properties.applied_to(settings).position
            == settings.position,
        properties.resolution is None ==> properties.applied_to(settings).resolution
            == settings.resolution,
        properties.frequency is None ==> properties.applied_to(settings).frequency
            == settings.frequency,
        properties.orientation is None ==> properties.applied_to(settings).orientation
            == settings.orientation,
{
}

/// A display that is read from a configuration is marked as primary if and only if
/// it has settings and lies at the origin in both directions. It is active if and
/// only if its path is in use, and has settings if and only if it is active and
/// both its modes are there. What the system says of it is taken over.
pub proof fn law_read_display(path: PathInfo, modes: Seq<Seq<u32>>, description: Description)
    ensures
        ({
            let display = path_properties(path, modes, description);
            &&& display.primary <==> display.settings is Some && display.settings->0.position.x == 0
                && display.settings->0.position.y == 0
            &&& display.active <==> path.flags % 2 == 1
            &&& display.settings is Some <==> display.active && path.source_mode_idx < modes.len()
                && path.target_mode_idx < modes.len()
            &&& display.name == description.name
            &&& display.string == description.string
            &&& display.key == description.key
            &&& display.connector_type == description.connector_type
            &&& display.target_available == description.target_available
        }),
{
    crate::config::law_path_active(path);
}

/// The settings that are read are those of the path and its two modes: size, pixel
/// format and position from the source mode, refresh rate and scanline ordering
/// from the target mode, orientation and scaling from the path.
pub proof fn law_read_settings(path: PathInfo, modes: Seq<Seq<u32>>)
    ensures
        path_settings(path, modes) matches Some(settings) ==> {
            let source = modes[path.source_mode_idx as int];
            let target = modes[path.target_mode_idx as int];
            &&& settings.resolution.width == source[0]
            &&& settings.resolution.height == source[1]
            &&& settings.position.x == source[3] as i32
            &&& settings.position.y == source[4] as i32
            &&& 1 <= source[2] <= 4 ==> settings.bit_depth.0 == 8 * source[2]
            &&& source[2] < 1 || source[2] > 4 ==> settings.bit_depth.0 == 0
            &&& target[5] == 0 ==> settings.frequency.0 == 0
            &&& path.rotation < 1 || path.rotation > 4 ==> settings.orientation is Landscape
            &&& target[5] > 0 ==> settings.frequency.0 * target[5] <= target[4] < (
            settings.frequency.0 + 1) * target[5]
            &&& settings.scanline_ordering.0 == target[11] as i32
            &&& settings.scaling.0 == path.scaling
            &&& 1 <= path.rotation <= 4 ==> settings.orientation.rotation() == path.rotation
        },
{
    if path_settings(path, modes) is Some {
        let target = modes[path.target_mode_idx as int];
        let numerator = target[4] as int;
        let denominator = target[5] as int;
        if denominator > 0 {
            vstd::arithmetic::div_mod::lemma_fundamental_div_mod(numerator, denominator);
            vstd::arithmetic::div_mod::lemma_mod_bound(numerator, denominator);
            let quotient = numerator / denominator;
            assert(quotient * denominator <= numerator < (quotient + 1) * denominator)
                by (nonlinear_arith)
                requires
                    numerator == denominator * quotient + numerator % denominator,
                    0 <= numerator % denominator < denominator,
            ;
        }
    }
}

} // verus!
