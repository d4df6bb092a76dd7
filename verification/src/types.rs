//! The values that a display is set to.

use vstd::prelude::*;

use crate::text::{
    decimal_text, read_signed, read_unsigned, same_text, signed_decimal_text, split_text,
};

verus! {

/// Where the upper left corner of a display lies on the virtual desktop.
#[derive(Clone, Copy, Debug, PartialEq, Eq, Structural)]
pub struct Position {
    /// To the right of the primary display where positive.
    pub x: i32,
    /// Below the primary display where positive.
    pub y: i32,
}

impl Position {
    /// The position with the given coordinates.
    pub fn new(x: i32, y: i32) -> (position: Position)
        ensures
            position == (Position { x, y }),
    {
        Position { x, y }
    }

    /// Whether `self`, seen from `origin`, can be computed as `-origin + self`
    /// in 32 bits.
    pub open spec fn can_move(self, origin: Position) -> bool {
        &&& origin.x > i32::MIN
        &&& origin.y > i32::MIN
        &&& i32::MIN <= self.x - origin.x <= i32::MAX
        &&& i32::MIN <= self.y - origin.y <= i32::MAX
    }

    /// Whether `relative_to` can compute the position in 32 bits.
    pub fn is_movable(self, origin: Position) -> (movable: bool)
        ensures
            movable == self.can_move(origin),
    {
        let x: i64 = self.x as i64 - origin.x as i64;
        let y: i64 = self.y as i64 - origin.y as i64;
        origin.x > i32::MIN && origin.y > i32::MIN && i32::MIN as i64 <= x && x <= i32::MAX as i64
            && i32::MIN as i64 <= y && y <= i32::MAX as i64
    }

    /// `self` seen from `origin`.
    pub open spec fn seen_from(self, origin: Position) -> Position {
        Position { x: (self.x - origin.x) as i32, y: (self.y - origin.y) as i32 }
    }

    /// The position seen from another origin: `-origin + self`.
    pub fn relative_to(self, origin: Position) -> (position: Position)
        requires
            self.can_move(origin),
        ensures
            position == self.seen_from(origin),
    {
        Position::new(-origin.x + self.x, -origin.y + self.y)
    }

    /// The text of a position, `<x>,<y>`.
    pub open spec fn as_text(self) -> Seq<char> {
        crate::text::signed_decimal(self.x as int) + seq![','] + crate::text::signed_decimal(self.y as int)
    }

    /// The position that a text of the form `<x>,<y>` stands for.
    pub open spec fn of_text(text: Seq<char>) -> Option<Position> {
        let parts = crate::text::split(text, ',');
        if parts.len() != 2 {
            None
        } else {
            match (crate::text::signed_value(parts[0]), crate::text::signed_value(parts[1])) {
                (Some(x), Some(y)) => if i32::MIN <= x <= i32::MAX && i32::MIN <= y <= i32::MAX {
                    Some(Position { x: x as i32, y: y as i32 })
                } else {
                    None
                },
                _ => None,
            }
        }
    }

    /// Writes the position as `<x>,<y>`.
    pub fn text(&self) -> (text: String)
        ensures
            text@ == self.as_text(),
    {
        let mut text = signed_decimal_text(self.x);
        proof {
            reveal_strlit(",");
        }
        text.append(",");
        text.append(signed_decimal_text(self.y).as_str());
        assert(text@ =~= self.as_text());
        text
    }

    /// Reads a position of the form `<x>,<y>`.
    pub fn parse(text: &str) -> (position: Option<Position>)
        ensures
            position == Position::of_text(text@),
    {
        let parts = split_text(text, ',');
        let ghost views = parts@.map_values(|part: &str| part@);
        if parts.len() != 2 {
            return None;
        }
        assert(views[0] == parts[0]@ && views[1] == parts[1]@);
        let x = read_signed(parts[0]);
        let y = read_signed(parts[1]);
        match (x, y) {
            (Some(x), Some(y)) => Some(Position::new(x, y)),
            _ => None,
        }
    }
}

/// The size of a display in pixels.
#[derive(Clone, Copy, Debug, PartialEq, Eq, Structural)]
pub struct Resolution {
    pub width: u32,
    pub height: u32,
}

impl Resolution {
    /// The text of a resolution, `<width>x<height>`.
    pub open spec fn as_text(self) -> Seq<char> {
        crate::text::decimal(self.width as nat) + seq!['x'] + crate::text::decimal(self.height as nat)
    }

    /// The resolution that a text of the form `<width>x<height>` stands for.
    pub open spec fn of_text(text: Seq<char>) -> Option<Resolution> {
        let parts = crate::text::split(text, 'x');
        if parts.len() != 2 {
            None
        } else {
            match (crate::text::unsigned_value(parts[0]), crate::text::unsigned_value(parts[1])) {
                (Some(w), Some(h)) => if w <= u32::MAX && h <= u32::MAX {
                    Some(Resolution { width: w as u32, height: h as u32 })
                } else {
                    None
                },
                _ => None,
            }
        }
    }

    /// Writes the resolution as `<width>x<height>`.
    pub fn text(&self) -> (text: String)
        ensures
            text@ == self.as_text(),
    {
        let mut text = decimal_text(self.width as u64);
        proof {
            reveal_strlit("x");
        }
        text.append("x");
        text.append(decimal_text(self.height as u64).as_str());
        assert(text@ =~= self.as_text());
        text
    }

    /// Reads a resolution of the form `<width>x<height>`.
    pub fn parse(text: &str) -> (resolution: Option<Resolution>)
        ensures
            resolution == Resolution::of_text(text@),
    {
        let parts = split_text(text, 'x');
        let ghost views = parts@.map_values(|part: &str| part@);
        if parts.len() != 2 {
            return None;
        }
        assert(views[0] == parts[0]@ && views[1] == parts[1]@);
        let width = read_unsigned(parts[0]);
        let height = read_unsigned(parts[1]);
        match (width, height) {
            (Some(width), Some(height)) => Some(Resolution { width, height }),
            _ => None,
        }
    }
}

/// The refresh rate of a display in Hertz.
#[derive(Clone, Copy, Debug, PartialEq, Eq, Structural)]
pub struct Frequency(pub u32);

impl Frequency {
    /// The refresh rate that a text of the form `<n>` stands for.
    pub open spec fn of_text(text: Seq<char>) -> Option<Frequency> {
        match crate::text::unsigned_value(text) {
            Some(n) => if n <= u32::MAX {
                Some(Frequency(n as u32))
            } else {
                None
            },
            None => None,
        }
    }

    /// Writes the refresh rate as `<n>`.
    pub fn text(&self) -> (text: String)
        ensures
            text@ == crate::text::decimal(self.0 as nat),
    {
        decimal_text(self.0 as u64)
    }

    /// Reads a refresh rate of the form `<n>`.
    pub fn parse(text: &str) -> (frequency: Option<Frequency>)
        ensures
            frequency == Frequency::of_text(text@),
    {
        match read_unsigned(text) {
            Some(n) => Some(Frequency(n)),
            None => None,
        }
    }
}

/// Which way up a display is.
#[derive(Clone, Copy, Debug, PartialEq, Eq, Structural)]
pub enum Orientation {
    Landscape,
    Portrait,
    LandscapeFlipped,
    PortraitFlipped,
}

impl Orientation {
    /// The rotation of a display path: quarter turns, counted from one.
    pub open spec fn rotation(self) -> u32 {
        match self {
            Orientation::Landscape => 1,
            Orientation::Portrait => 2,
            Orientation::LandscapeFlipped => 3,
            Orientation::PortraitFlipped => 4,
        }
    }

    /// The name of the orientation.
    pub open spec fn as_text(self) -> Seq<char> {
        match self {
            Orientation::Landscape => "landscape"@,
            Orientation::Portrait => "portrait"@,
            Orientation::LandscapeFlipped => "landscape_flipped"@,
            Orientation::PortraitFlipped => "portrait_flipped"@,
        }
    }

    /// The rotation to write into a display path.
    pub fn to_rotation(&self) -> (rotation: u32)
        ensures
            rotation == self.rotation(),
    {
        match self {
            Orientation::Landscape => 1,
            Orientation::Portrait => 2,
            Orientation::LandscapeFlipped => 3,
            Orientation::PortraitFlipped => 4,
        }
    }

    /// Writes the name of the orientation.
    pub fn text(&self) -> (text: &'static str)
        ensures
            text@ == self.as_text(),
    {
        match self {
            Orientation::Landscape => "landscape",
            Orientation::Portrait => "portrait",
            Orientation::LandscapeFlipped => "landscape_flipped",
            Orientation::PortraitFlipped => "portrait_flipped",
        }
    }

    /// Reads the name of an orientation.
    pub fn parse(text: &str) -> (orientation: Option<Orientation>)
        ensures
            match orientation {
                Some(o) => text@ == o.as_text(),
                None => forall|o: Orientation| text@ != #[trigger] o.as_text(),
            },
    {
        if same_text(text, "landscape") {
            Some(Orientation::Landscape)
        } else if same_text(text, "portrait") {
            Some(Orientation::Portrait)
        } else if same_text(text, "landscape_flipped") {
            Some(Orientation::LandscapeFlipped)
        } else if same_text(text, "portrait_flipped") {
            Some(Orientation::PortraitFlipped)
        } else {
            None
        }
    }
}

/// The text for a number without a name.
pub open spec fn unknown_number(number: i32) -> Seq<char> {
    "Unknown("@ + crate::text::signed_decimal(number as int) + ")"@
}

/// Writes the text for a number without a name.
pub(crate) fn unknown_number_text(number: i32) -> (text: String)
    ensures
        text@ == unknown_number(number),
{
    let digits = signed_decimal_text(number);
    "Unknown(".to_owned().concat(digits.as_str()).concat(")")
}

/// How a picture is fitted to a display, as the system numbers it.
#[derive(Clone, Copy, Debug, PartialEq, Eq, Structural)]
pub struct Scaling(pub i32);

impl Scaling {
    /// The name of the way in which a picture is fitted.
    pub open spec fn as_text(self) -> Seq<char> {
        if self.0 == 1 {
            "Identity"@
        } else if self.0 == 2 {
            "Centered"@
        } else if self.0 == 3 {
            "Stretched"@
        } else if self.0 == 4 {
            "Aspect Ratio Centered Max"@
        } else if self.0 == 5 {
            "Custom"@
        } else if self.0 == 128 {
            "Preferred"@
        } else {
            unknown_number(self.0)
        }
    }

    /// Writes the name of the way in which a picture is fitted.
    pub fn text(&self) -> (text: String)
        ensures
            text@ == self.as_text(),
    {
        if self.0 == 1 {
            "Identity".to_owned()
        } else if self.0 == 2 {
            "Centered".to_owned()
        } else if self.0 == 3 {
            "Stretched".to_owned()
        } else if self.0 == 4 {
            "Aspect Ratio Centered Max".to_owned()
        } else if self.0 == 5 {
            "Custom".to_owned()
        } else if self.0 == 128 {
            "Preferred".to_owned()
        } else {
            unknown_number_text(self.0)
        }
    }

    /// The number to write into a display path.
    pub fn to_value(&self) -> (value: i32)
        ensures
            value == self.0,
    {
        self.0
    }
}

/// The bits per pixel of a display.
#[derive(Clone, Copy, Debug, PartialEq, Eq, Structural)]
pub struct BitDepth(pub u32);

impl BitDepth {
    /// Writes the bits per pixel as `<n>`.
    pub fn text(&self) -> (text: String)
        ensures
            text@ == crate::text::decimal(self.0 as nat),
    {
        decimal_text(self.0 as u64)
    }
}

/// The order in which a display draws its lines, as the system numbers it.
#[derive(Clone, Copy, Debug, PartialEq, Eq, Structural)]
pub struct ScanlineOrdering(pub i32);

impl ScanlineOrdering {
    /// The name of the order.
    pub open spec fn as_text(self) -> Seq<char> {
        if self.0 == 0 {
            "Unspecified"@
        } else if self.0 == 1 {
            "Progressive"@
        } else if self.0 == 2 {
            "Interlaced"@
        } else if self.0 == 3 {
            "Interlaced, lower field first"@
        } else {
            unknown_number(self.0)
        }
    }

    /// Writes the name of the order.
    pub fn text(&self) -> (text: String)
        ensures
            text@ == self.as_text(),
    {
        if self.0 == 0 {
            "Unspecified".to_owned()
        } else if self.0 == 1 {
            "Progressive".to_owned()
        } else if self.0 == 2 {
            "Interlaced".to_owned()
        } else if self.0 == 3 {
            "Interlaced, lower field first".to_owned()
        } else {
            unknown_number_text(self.0)
        }
    }
}

/// How a display is connected, as the system numbers it.
#[derive(Clone, Copy, Debug, PartialEq, Eq, Structural)]
pub struct ConnectorType(pub i32);

impl ConnectorType {
    /// The name of the connector.
    pub open spec fn as_text(self) -> Seq<char> {
        if self.0 == -1 {
            "Other"@
        } else if self.0 == 0 {
            "VGA"@
        } else if self.0 == 1 {
            "S-Video"@
        } else if self.0 == 2 {
            "Composite"@
        } else if self.0 == 3 {
            "Component"@
        } else if self.0 == 4 {
            "DVI"@
        } else if self.0 == 5 {
            "HDMI"@
        } else if self.0 == 6 {
            "LVDS"@
        } else if self.0 == 8 {
            "D-Terminal"@
        } else if self.0 == 9 {
            "SDI"@
        } else if self.0 == 10 {
            "DisplayPort"@
        } else if self.0 == 11 {
            "Embedded DisplayPort"@
        } else if self.0 == 12 {
            "UDI"@
        } else if self.0 == 13 {
            "Embedded UDI"@
        } else if self.0 == 14 {
            "SDTV Dongle"@
        } else if self.0 == 15 {
            "Miracast"@
        } else if self.0 == 16 {
            "Indirect Wired"@
        } else if self.0 == 17 {
            "Indirect Virtual"@
        } else if self.0 == 18 {
            "DisplayPort over USB"@
        } else if self.0 == i32::MIN {
            "Internal"@
        } else {
            unknown_number(self.0)
        }
    }

    /// Writes the name of the connector.
    pub fn text(&self) -> (text: String)
        ensures
            text@ == self.as_text(),
    {
        if self.0 == -1 {
            "Other".to_owned()
        } else if self.0 == 0 {
            "VGA".to_owned()
        } else if self.0 == 1 {
            "S-Video".to_owned()
        } else if self.0 == 2 {
            "Composite".to_owned()
        } else if self.0 == 3 {
            "Component".to_owned()
        } else if self.0 == 4 {
            "DVI".to_owned()
        } else if self.0 == 5 {
            "HDMI".to_owned()
        } else if self.0 == 6 {
            "LVDS".to_owned()
        } else if self.0 == 8 {
            "D-Terminal".to_owned()
        } else if self.0 == 9 {
            "SDI".to_owned()
        } else if self.0 == 10 {
            "DisplayPort".to_owned()
        } else if self.0 == 11 {
            "Embedded DisplayPort".to_owned()
        } else if self.0 == 12 {
            "UDI".to_owned()
        } else if self.0 == 13 {
            "Embedded UDI".to_owned()
        } else if self.0 == 14 {
            "SDTV Dongle".to_owned()
        } else if self.0 == 15 {
            "Miracast".to_owned()
        } else if self.0 == 16 {
            "Indirect Wired".to_owned()
        } else if self.0 == 17 {
            "Indirect Virtual".to_owned()
        } else if self.0 == 18 {
            "DisplayPort over USB".to_owned()
        } else if self.0 == i32::MIN {
            "Internal".to_owned()
        } else {
            unknown_number_text(self.0)
        }
    }
}

/// A text of digits and a minus sign holds no other character.
proof fn lemma_signed_decimal_lacks(n: int, c: char)
    requires
        crate::text::digit_value(c) is None,
        c != '-',
    ensures
        forall|i: int| 0 <= i < crate::text::signed_decimal(n).len()
            ==> #[trigger] crate::text::signed_decimal(n)[i] != c,
{
    let magnitude: nat = if n < 0 { (-n) as nat } else { n as nat };
    crate::text::lemma_decimal_value(magnitude);
    let digits = crate::text::decimal(magnitude);
    assert forall|i: int| 0 <= i < crate::text::signed_decimal(n).len() implies
        #[trigger] crate::text::signed_decimal(n)[i] != c by {
        if n < 0 {
            if i > 0 {
                assert(crate::text::signed_decimal(n)[i] == digits[i - 1]);
            }
        } else {
            assert(crate::text::digit_value(digits[i]) is Some);
        }
    }
}

/// Two texts without the separator are the parts of the two texts around it.
proof fn lemma_split_pair(left: Seq<char>, right: Seq<char>, separator: char)
    requires
        forall|i: int| 0 <= i < left.len() ==> left[i] != separator,
        forall|i: int| 0 <= i < right.len() ==> right[i] != separator,
    ensures
        crate::text::split(left + seq![separator] + right, separator) == seq![left, right],
{
    let all = left + seq![separator] + right;
    crate::text::lemma_find_is(all, separator, left.len() as int);
    crate::text::lemma_find_is(right, separator, right.len() as int);
    assert(all.take(left.len() as int) =~= left);
    assert(all.skip(left.len() as int + 1) =~= right);
    assert(crate::text::split(right, separator) =~= seq![right]);
    assert(crate::text::split(all, separator) =~= seq![left, right]);
}

/// Orientations have different names, so that a name is read as the orientation
/// that it was written for.
pub proof fn law_orientation_names_differ(a: Orientation, b: Orientation)
    requires
        a.as_text() == b.as_text(),
    ensures
        a == b,
{
    reveal_strlit("landscape");
    reveal_strlit("portrait");
    reveal_strlit("landscape_flipped");
    reveal_strlit("portrait_flipped");
    assert("landscape"@.len() == 9);
    assert("portrait"@.len() == 8);
    assert("landscape_flipped"@.len() == 17);
    assert("portrait_flipped"@.len() == 16);
}

/// Reading the text of a position gives that position.
pub proof fn law_position_round_trip(position: Position)
    ensures
        Position::of_text(position.as_text()) == Some(position),
{
    lemma_signed_decimal_lacks(position.x as int, ',');
    lemma_signed_decimal_lacks(position.y as int, ',');
    lemma_split_pair(
        crate::text::signed_decimal(position.x as int),
        crate::text::signed_decimal(position.y as int),
        ',',
    );
    crate::text::lemma_signed_decimal_value(position.x as int);
    crate::text::lemma_signed_decimal_value(position.y as int);
}

/// Reading the text of a resolution gives that resolution.
pub proof fn law_resolution_round_trip(resolution: Resolution)
    ensures
        Resolution::of_text(resolution.as_text()) == Some(resolution),
{
    lemma_signed_decimal_lacks(resolution.width as int, 'x');
    lemma_signed_decimal_lacks(resolution.height as int, 'x');
    assert(crate::text::signed_decimal(resolution.width as int)
        == crate::text::decimal(resolution.width as nat));
    assert(crate::text::signed_decimal(resolution.height as int)
        == crate::text::decimal(resolution.height as nat));
    lemma_split_pair(
        crate::text::decimal(resolution.width as nat),
        crate::text::decimal(resolution.height as nat),
        'x',
    );
    crate::text::lemma_decimal_unsigned_value(resolution.width as nat);
    crate::text::lemma_decimal_unsigned_value(resolution.height as nat);
}

/// Reading the text of a refresh rate gives that refresh rate.
pub proof fn law_frequency_round_trip(frequency: Frequency)
    ensures
        Frequency::of_text(crate::text::decimal(frequency.0 as nat)) == Some(frequency),
{
    crate::text::lemma_decimal_unsigned_value(frequency.0 as nat);
}

/// A move is undone by adding the origin again, and it can be made if and only if
/// the negated origin and the sum fit into 32 bits.
pub proof fn law_position_moves(position: Position, origin: Position)
    ensures
        position.can_move(origin) <==> {
            &&& i32::MIN <= -origin.x <= i32::MAX
            &&& i32::MIN <= -origin.y <= i32::MAX
            &&& i32::MIN <= -origin.x + position.x <= i32::MAX
            &&& i32::MIN <= -origin.y + position.y <= i32::MAX
        },
        position.can_move(origin) ==> position.seen_from(origin).x + origin.x == position.x,
        position.can_move(origin) ==> position.seen_from(origin).y + origin.y == position.y,
{
}

/// Two numbers with a comma between them are read as a position, the first one as
/// its horizontal coordinate, if both fit into 32 bits. Nothing else is.
pub proof fn law_position_syntax(left: Seq<char>, right: Seq<char>)
    requires
        forall|i: int| 0 <= i < left.len() ==> left[i] != ',',
        forall|i: int| 0 <= i < right.len() ==> right[i] != ',',
    ensures
        ({
            let read = Position::of_text(left + seq![','] + right);
            let x = crate::text::signed_value(left);
            let y = crate::text::signed_value(right);
            &&& read is Some <==> {
                &&& x is Some && i32::MIN <= x->0 <= i32::MAX
                &&& y is Some && i32::MIN <= y->0 <= i32::MAX
            }
            &&& read is Some ==> read->0.x == x->0 && read->0.y == y->0
        }),
{
    lemma_split_pair(left, right, ',');
}

/// A text that is read as a position has exactly one comma.
pub proof fn law_position_has_a_comma(text: Seq<char>)
    ensures
        Position::of_text(text) is Some ==> exists|left: Seq<char>, right: Seq<char>|
            text == #[trigger] (left + seq![','] + right) && !left.contains(',')
                && !right.contains(','),
{
    if Position::of_text(text) is Some {
        let parts = crate::text::split(text, ',');
        crate::text::law_join_split(text, ',');
        crate::text_laws::law_split_parts(text, ',');
        crate::text_laws::law_join(Seq::empty(), parts[0], seq![',']);
        crate::text_laws::law_join(seq![parts[0]], parts[1], seq![',']);
        assert(parts =~= seq![parts[0]].push(parts[1]));
        assert(!parts[0].contains(',')) by {
            if parts[0].contains(',') {
                let j = choose|j: int| 0 <= j < parts[0].len() && parts[0][j] == ',';
                assert(parts[0][j] != ',');
            }
        }
        assert(!parts[1].contains(',')) by {
            if parts[1].contains(',') {
                let j = choose|j: int| 0 <= j < parts[1].len() && parts[1][j] == ',';
                assert(parts[1][j] != ',');
            }
        }
        assert(text == parts[0] + seq![','] + parts[1]);
    }
}

/// A position is written as its coordinates, the horizontal one first, with a
/// comma between them.
pub proof fn law_position_text(position: Position)
    ensures
        position.as_text() == crate::text::signed_decimal(position.x as int) + seq![',']
            + crate::text::signed_decimal(position.y as int),
{
}

/// Two numbers with an `x` between them are read as a resolution, the first one as
/// its width, if both fit into 32 bits.
pub proof fn law_resolution_syntax(left: Seq<char>, right: Seq<char>)
    requires
        forall|i: int| 0 <= i < left.len() ==> left[i] != 'x',
        forall|i: int| 0 <= i < right.len() ==> right[i] != 'x',
    ensures
        ({
            let read = Resolution::of_text(left + seq!['x'] + right);
            let width = crate::text::unsigned_value(left);
            let height = crate::text::unsigned_value(right);
            &&& read is Some <==> {
                &&& width is Some && width->0 <= u32::MAX
                &&& height is Some && height->0 <= u32::MAX
            }
            &&& read is Some ==> read->0.width == width->0 && read->0.height == height->0
        }),
{
    lemma_split_pair(left, right, 'x');
}

/// A text that is read as a resolution has exactly one `x`.
pub proof fn law_resolution_has_an_x(text: Seq<char>)
    ensures
        Resolution::of_text(text) is Some ==> exists|left: Seq<char>, right: Seq<char>|
            text == #[trigger] (left + seq!['x'] + right) && !left.contains('x')
                && !right.contains('x'),
{
    if Resolution::of_text(text) is Some {
        let parts = crate::text::split(text, 'x');
        crate::text::law_join_split(text, 'x');
        crate::text_laws::law_split_parts(text, 'x');
        crate::text_laws::law_join(Seq::empty(), parts[0], seq!['x']);
        crate::text_laws::law_join(seq![parts[0]], parts[1], seq!['x']);
        assert(parts =~= seq![parts[0]].push(parts[1]));
        assert(!parts[0].contains('x')) by {
            if parts[0].contains('x') {
                let j = choose|j: int| 0 <= j < parts[0].len() && parts[0][j] == 'x';
                assert(parts[0][j] != 'x');
            }
        }
        assert(!parts[1].contains('x')) by {
            if parts[1].contains('x') {
                let j = choose|j: int| 0 <= j < parts[1].len() && parts[1][j] == 'x';
                assert(parts[1][j] != 'x');
            }
        }
        assert(text == parts[0] + seq!['x'] + parts[1]);
    }
}

/// A resolution is written as its width and height with an `x` between them.
pub proof fn law_resolution_text(resolution: Resolution)
    ensures
        resolution.as_text() == crate::text::decimal(resolution.width as nat) + seq!['x']
            + crate::text::decimal(resolution.height as nat),
{
}

/// A refresh rate is read from a number that fits into 32 bits, and is that number.
pub proof fn law_frequency_syntax(text: Seq<char>)
    ensures
        Frequency::of_text(text) is Some <==> crate::text::unsigned_value(text) is Some
            && crate::text::unsigned_value(text)->0 <= u32::MAX,
        Frequency::of_text(text) matches Some(frequency) ==> frequency.0
            == crate::text::unsigned_value(text)->0,
{
}

/// A quarter turn more is the next rotation; landscape is not turned. Turning by a
/// half gives the flipped orientation.
pub proof fn law_orientation_rotation()
    ensures
        Orientation::Landscape.rotation() == 1,
        Orientation::Portrait.rotation() == Orientation::Landscape.rotation() + 1,
        Orientation::LandscapeFlipped.rotation() == Orientation::Landscape.rotation() + 2,
        Orientation::PortraitFlipped.rotation() == Orientation::Portrait.rotation() + 2,
{
}

/// The names by which orientations are asked for and shown.
pub proof fn law_orientation_names(orientation: Orientation)
    ensures
        orientation is Landscape <==> orientation.as_text() == "landscape"@,
        orientation is Portrait <==> orientation.as_text() == "portrait"@,
        orientation is LandscapeFlipped <==> orientation.as_text() == "landscape_flipped"@,
        orientation is PortraitFlipped <==> orientation.as_text() == "portrait_flipped"@,
{
    reveal_strlit("landscape");
    reveal_strlit("portrait");
    reveal_strlit("landscape_flipped");
    reveal_strlit("portrait_flipped");
    assert("landscape"@.len() == 9);
    assert("portrait"@.len() == 8);
    assert("landscape_flipped"@.len() == 17);
    assert("portrait_flipped"@.len() == 16);
}

} // verus!
