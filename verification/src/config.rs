//! The configuration model: colors, theme, logo, images, launcher and
//! application settings, with their defaults and the rules they must meet.
use vstd::prelude::*;
use crate::i18n::Language;
use vstd::string::StringSliceAdditionalSpecFns;
use crate::text::{hex_fixed, owned, push_char, push_hex_fixed};
use crate::paths::{resolve_path, resolve_spec};
pub use crate::paths::{data_dirs, desktop_dir, global_config_path, home_from as home, user_config_path, xdg_path};
use crate::document::{resolve_all, resolve_list};

verus! {

/// `u8::from_str_radix(_, 16)` on one byte.
pub open spec fn hex_byte(b: u8) -> Option<u8> {
    if 48 <= b <= 57 {
        Some((b - 48) as u8)
    } else if 97 <= b <= 102 {
        Some((b - 87) as u8)
    } else if 65 <= b <= 70 {
        Some((b - 55) as u8)
    } else {
        None
    }
}

/// `u8::from_str_radix(_, 16)` on a two-byte slice: two hex digits, or a
/// `+` sign followed by one.
pub open spec fn hex_pair(b0: u8, b1: u8) -> Option<u8> {
    if b0 == 43 {
        hex_byte(b1)
    } else {
        match (hex_byte(b0), hex_byte(b1)) {
            (Some(h), Some(l)) => Some((h * 16 + l) as u8),
            _ => None,
        }
    }
}

/// Whether `b` continues a multi-byte UTF-8 character.
pub open spec fn continues_char(b: u8) -> bool {
    128 <= b < 192
}

pub open spec fn message_format() -> Seq<char> {
    "debe usar el formato #RRGGBB"@
}

pub open spec fn message_length() -> Seq<char> {
    "debe usar exactamente seis dígitos hexadecimales"@
}

/// `#RRGGBB` in the bytes of a setting: the color, or the message that
/// rejects it.
pub open spec fn parse_rgb_bytes(b: Seq<u8>) -> Result<(u8, u8, u8), Seq<char>> {
    if b.len() == 0 || b[0] != 35 {
        Err(message_format())
    } else if b.len() != 7 {
        Err(message_length())
    } else {
        match (hex_pair(b[1], b[2]), hex_pair(b[3], b[4]), hex_pair(b[5], b[6])) {
            (Some(r), Some(g), Some(bl)) => Ok((r, g, bl)),
            _ => Err(message_format()),
        }
    }
}

/// The inputs on which the parser reads its pairs at character
/// boundaries: the second pair is only read once the first has parsed.
pub open spec fn rgb_bytes_readable(b: Seq<u8>) -> bool {
    b.len() == 7 && b[0] == 35 ==> {
        &&& !continues_char(b[3])
        &&& hex_pair(b[1], b[2]) is Some ==> !continues_char(b[5])
    }
}

/// ASCII lowercase of one byte.
pub open spec fn ascii_lower(b: u8) -> u8 {
    if 65 <= b <= 90 { (b + 32) as u8 } else { b }
}

/// Whether `b` spells `word` (given in lowercase ASCII) ignoring ASCII case.
pub open spec fn equals_ignoring_case(b: Seq<u8>, word: Seq<u8>) -> bool {
    b.len() == word.len() && forall|i: int| 0 <= i < b.len() ==> ascii_lower(#[trigger] b[i]) == word[i]
}

pub open spec fn word_terminal() -> Seq<u8> {
    seq![116u8, 101, 114, 109, 105, 110, 97, 108]
}

pub open spec fn word_plain() -> Seq<u8> {
    seq![112u8, 108, 97, 105, 110]
}

pub open spec fn word_rounded() -> Seq<u8> {
    seq![114u8, 111, 117, 110, 100, 101, 100]
}

pub open spec fn word_double() -> Seq<u8> {
    seq![100u8, 111, 117, 98, 108, 101]
}

pub open spec fn word_thick() -> Seq<u8> {
    seq![116u8, 104, 105, 99, 107]
}

fn hex_of_byte(b: u8) -> (r: Option<u8>)
    ensures
        r == hex_byte(b),
{
    if 48 <= b && b <= 57 {
        Some(b - 48)
    } else if 97 <= b && b <= 102 {
        Some(b - 87)
    } else if 65 <= b && b <= 70 {
        Some(b - 55)
    } else {
        None
    }
}

fn parse_pair(b0: u8, b1: u8) -> (r: Option<u8>)
    ensures
        r == hex_pair(b0, b1),
{
    if b0 == 43 {
        hex_of_byte(b1)
    } else {
        match (hex_of_byte(b0), hex_of_byte(b1)) {
            (Some(h), Some(l)) => Some(h * 16 + l),
            _ => None,
        }
    }
}

fn lower_byte(b: u8) -> (r: u8)
    ensures
        r == ascii_lower(b),
{
    if 65 <= b && b <= 90 { b + 32 } else { b }
}

/// Compares `b` with a lowercase ASCII `word`, ignoring ASCII case.
fn bytes_equal_ignoring_case(b: &[u8], word: &[u8]) -> (r: bool)
    ensures
        r == equals_ignoring_case(b@, word@),
{
    if b.len() != word.len() {
        return false;
    }
    let mut i: usize = 0;
    while i < b.len()
        invariant
            b@.len() == word@.len(),
            0 <= i <= b@.len(),
            forall|k: int| 0 <= k < i ==> ascii_lower(#[trigger] b@[k]) == word@[k],
        decreases b@.len() - i,
    {
        if lower_byte(b[i]) != word[i] {
            return false;
        }
        i += 1;
    }
    true
}

/// A color given as red, green and blue components.
#[derive(Debug, Clone, Copy, PartialEq, Eq, Structural)]
pub struct RgbColor {
    red: u8,
    green: u8,
    blue: u8,
}

/// The `#rrggbb` form of a color.
pub open spec fn hex_text(c: RgbColor) -> Seq<char> {
    "#"@ + hex_fixed(c.spec_red() as nat, 2) + hex_fixed(c.spec_green() as nat, 2) + hex_fixed(
        c.spec_blue() as nat,
        2,
    )
}

impl RgbColor {
    pub closed spec fn spec_red(self) -> u8 {
        self.red
    }

    pub closed spec fn spec_green(self) -> u8 {
        self.green
    }

    pub closed spec fn spec_blue(self) -> u8 {
        self.blue
    }

    pub open spec fn spec_components(self) -> (u8, u8, u8) {
        (self.spec_red(), self.spec_green(), self.spec_blue())
    }

    pub fn new(red: u8, green: u8, blue: u8) -> (r: Self)
        ensures
            r.spec_components() == (red, green, blue),
    {
        Self { red, green, blue }
    }

    pub fn components(self) -> (r: (u8, u8, u8))
        ensures
            r == self.spec_components(),
    {
        (self.red, self.green, self.blue)
    }

    /// The color as `#rrggbb` in lowercase hexadecimal.
    pub fn as_hex(self) -> (r: String)
        ensures
            r@ == hex_text(self),
    {
        let mut s = owned("#");
        push_hex_fixed(&mut s, self.red as u32, 2);
        push_hex_fixed(&mut s, self.green as u32, 2);
        push_hex_fixed(&mut s, self.blue as u32, 2);
        s
    }

    /// Reads `#RRGGBB` (hexadecimal digits of either case).
    pub fn parse(value: &str) -> (r: Result<Self, String>)
        requires
            rgb_bytes_readable(value.spec_bytes()),
        ensures
            match (r, parse_rgb_bytes(value.spec_bytes())) {
                (Ok(c), Ok(t)) => c.spec_components() == t,
                (Err(m), Err(e)) => m@ == e,
                _ => false,
            },
    {
        let b = value.as_bytes();
        if b.len() == 0 || b[0] != 35 {
            return Err(owned("debe usar el formato #RRGGBB"));
        }
        if b.len() != 7 {
            return Err(owned("debe usar exactamente seis dígitos hexadecimales"));
        }
        let red = parse_pair(b[1], b[2]);
        let green = parse_pair(b[3], b[4]);
        let blue = parse_pair(b[5], b[6]);
        match (red, green, blue) {
            (Some(r), Some(g), Some(bl)) => Ok(Self::new(r, g, bl)),
            _ => Err(owned("debe usar el formato #RRGGBB")),
        }
    }
}

/// A color that may defer to the terminal's own.
#[derive(Debug, Clone, Copy, PartialEq, Eq, Structural)]
pub enum ThemeColor {
    Terminal,
    Rgb(RgbColor),
}

/// The setting text of a theme color.
pub open spec fn theme_color_text(c: ThemeColor) -> Seq<char> {
    match c {
        ThemeColor::Terminal => "terminal"@,
        ThemeColor::Rgb(rgb) => hex_text(rgb),
    }
}

/// `terminal` in any ASCII case (`None`), or the components of a
/// `#RRGGBB` color.
pub open spec fn parse_theme_color_bytes(b: Seq<u8>) -> Result<Option<(u8, u8, u8)>, Seq<char>> {
    if equals_ignoring_case(b, word_terminal()) {
        Ok(None)
    } else {
        match parse_rgb_bytes(b) {
            Ok(t) => Ok(Some(t)),
            Err(e) => Err(e),
        }
    }
}

/// Whether `c` is the terminal color (`None`) or the color with components `t`.
pub open spec fn theme_color_is(c: ThemeColor, t: Option<(u8, u8, u8)>) -> bool {
    match (c, t) {
        (ThemeColor::Terminal, None) => true,
        (ThemeColor::Rgb(x), Some(v)) => x.spec_components() == v,
        _ => false,
    }
}

impl ThemeColor {
    pub fn rgb(self) -> (r: Option<RgbColor>)
        ensures
            r == match self {
                ThemeColor::Terminal => None,
                ThemeColor::Rgb(c) => Some(c),
            },
    {
        match self {
            ThemeColor::Terminal => None,
            ThemeColor::Rgb(color) => Some(color),
        }
    }

    pub fn parse(value: &str) -> (r: Result<Self, String>)
        requires
            rgb_bytes_readable(value.spec_bytes()),
        ensures
            match (r, parse_theme_color_bytes(value.spec_bytes())) {
                (Ok(c), Ok(t)) => theme_color_is(c, t),
                (Err(m), Err(e)) => m@ == e,
                _ => false,
            },
    {
        let word: [u8; 8] = [116, 101, 114, 109, 105, 110, 97, 108];
        assert(word@ =~= word_terminal());
        if bytes_equal_ignoring_case(value.as_bytes(), word.as_slice()) {
            Ok(ThemeColor::Terminal)
        } else {
            match RgbColor::parse(value) {
                Ok(c) => Ok(ThemeColor::Rgb(c)),
                Err(e) => Err(e),
            }
        }
    }

    pub fn as_config_value(self) -> (r: String)
        ensures
            r@ == theme_color_text(self),
    {
        match self {
            ThemeColor::Terminal => owned("terminal"),
            ThemeColor::Rgb(c) => c.as_hex(),
        }
    }
}

/// The border drawn around boxes.
#[derive(Debug, Clone, Copy, PartialEq, Eq, Structural)]
pub enum BorderStyle {
    Plain,
    Rounded,
    Double,
    Thick,
}

pub open spec fn border_index(s: BorderStyle) -> int {
    match s {
        BorderStyle::Plain => 0,
        BorderStyle::Rounded => 1,
        BorderStyle::Double => 2,
        BorderStyle::Thick => 3,
    }
}

pub open spec fn border_at(i: int) -> BorderStyle {
    if i == 0 { BorderStyle::Plain } else if i == 1 { BorderStyle::Rounded } else if i == 2 {
        BorderStyle::Double } else { BorderStyle::Thick }
}

pub open spec fn border_name(s: BorderStyle) -> Seq<char> {
    match s {
        BorderStyle::Plain => "plain"@,
        BorderStyle::Rounded => "rounded"@,
        BorderStyle::Double => "double"@,
        BorderStyle::Thick => "thick"@,
    }
}

pub open spec fn parse_border_bytes(b: Seq<u8>) -> Result<BorderStyle, Seq<char>> {
    if equals_ignoring_case(b, word_plain()) {
        Ok(BorderStyle::Plain)
    } else if equals_ignoring_case(b, word_rounded()) {
        Ok(BorderStyle::Rounded)
    } else if equals_ignoring_case(b, word_double()) {
        Ok(BorderStyle::Double)
    } else if equals_ignoring_case(b, word_thick()) {
        Ok(BorderStyle::Thick)
    } else {
        Err("debe ser plain, rounded, double o thick"@)
    }
}

impl BorderStyle {
    pub fn parse(value: &str) -> (r: Result<Self, String>)
        ensures
            match (r, parse_border_bytes(value.spec_bytes())) {
                (Ok(c), Ok(t)) => c == t,
                (Err(m), Err(e)) => m@ == e,
                _ => false,
            },
    {
        let b = value.as_bytes();
        let plain: [u8; 5] = [112, 108, 97, 105, 110];
        let rounded: [u8; 7] = [114, 111, 117, 110, 100, 101, 100];
        let double: [u8; 6] = [100, 111, 117, 98, 108, 101];
        let thick: [u8; 5] = [116, 104, 105, 99, 107];
        assert(plain@ =~= word_plain());
        assert(rounded@ =~= word_rounded());
        assert(double@ =~= word_double());
        assert(thick@ =~= word_thick());
        if bytes_equal_ignoring_case(b, plain.as_slice()) {
            Ok(BorderStyle::Plain)
        } else if bytes_equal_ignoring_case(b, rounded.as_slice()) {
            Ok(BorderStyle::Rounded)
        } else if bytes_equal_ignoring_case(b, double.as_slice()) {
            Ok(BorderStyle::Double)
        } else if bytes_equal_ignoring_case(b, thick.as_slice()) {
            Ok(BorderStyle::Thick)
        } else {
            Err(owned("debe ser plain, rounded, double o thick"))
        }
    }

    /// The next style in the order plain, rounded, double, thick, wrapping
    /// around; backwards when `direction` is negative.
    pub fn cycle(self, direction: isize) -> (r: Self)
        ensures
            r == border_at(
                if direction < 0 { (border_index(self) + 3) % 4 } else { (border_index(self) + 1) % 4 },
            ),
    {
        let index: usize = match self {
            BorderStyle::Plain => 0,
            BorderStyle::Rounded => 1,
            BorderStyle::Double => 2,
            BorderStyle::Thick => 3,
        };
        let next = if direction < 0 { (index + 3) % 4 } else { (index + 1) % 4 };
        if next == 0 { BorderStyle::Plain } else if next == 1 { BorderStyle::Rounded } else if next == 2 {
            BorderStyle::Double } else { BorderStyle::Thick }
    }

    pub fn to_string(self) -> (r: &'static str)
        ensures
            r@ == border_name(self),
    {
        match self {
            BorderStyle::Plain => "plain",
            BorderStyle::Rounded => "rounded",
            BorderStyle::Double => "double",
            BorderStyle::Thick => "thick",
        }
    }
}


/// The colors and border of the interface.
#[derive(Debug, Clone, Copy, PartialEq, Eq, Structural)]
pub struct Theme {
    pub background: ThemeColor,
    pub foreground: ThemeColor,
    pub muted: RgbColor,
    pub accent: RgbColor,
    pub info: RgbColor,
    pub border: RgbColor,
    pub error: RgbColor,
    pub selection: RgbColor,
    pub header_background: RgbColor,
    pub header_foreground: ThemeColor,
    pub launcher_background: RgbColor,
    pub installer_background: RgbColor,
    pub manager_background: RgbColor,
    pub launcher_foreground: RgbColor,
    pub installer_manager_foreground: RgbColor,
    pub image_background: RgbColor,
    pub border_style: BorderStyle,
}

/// The number of editable theme fields.
pub const THEME_FIELD_COUNT: usize = 17;

/// Whether field `index` holds a color that may be the terminal's.
pub open spec fn is_theme_color_field(index: int) -> bool {
    index == 0 || index == 1 || index == 9
}

/// Whether field `index` holds an RGB color.
pub open spec fn is_rgb_field(index: int) -> bool {
    2 <= index <= 15 && index != 9
}

/// The palette that `cycle_field` walks through.
pub open spec fn palette_color(i: int) -> (u8, u8, u8) {
    if i == 0 { (24, 24, 37) } else if i == 1 { (69, 71, 90) } else if i == 2 { (127, 132, 156) } else if i == 3 { (203, 166, 247) } else if i == 4 { (137, 220, 235) } else if i == 5 { (166, 227, 161) } else if i == 6 { (243, 139, 168) } else if i == 7 { (249, 226, 175) } else if i == 8 { (250, 179, 135) } else if i == 9 { (137, 180, 250) } else if i == 10 { (255, 255, 255) } else { (0, 0, 0) }
}

/// The number of colors in the palette.
pub const PALETTE_LEN: usize = 12;

/// The palette color at `i`.
pub fn palette(i: usize) -> (r: RgbColor)
    requires
        i < PALETTE_LEN,
    ensures
        r.spec_components() == palette_color(i as int),
{
    if i == 0 { RgbColor::new(24, 24, 37) } else if i == 1 { RgbColor::new(69, 71, 90) } else if i == 2 { RgbColor::new(127, 132, 156) } else if i == 3 { RgbColor::new(203, 166, 247) } else if i == 4 { RgbColor::new(137, 220, 235) } else if i == 5 { RgbColor::new(166, 227, 161) } else if i == 6 { RgbColor::new(243, 139, 168) } else if i == 7 { RgbColor::new(249, 226, 175) } else if i == 8 { RgbColor::new(250, 179, 135) } else if i == 9 { RgbColor::new(137, 180, 250) } else if i == 10 { RgbColor::new(255, 255, 255) } else { RgbColor::new(0, 0, 0) }
}

/// The position of a color in the palette, if it is there.
pub open spec fn palette_position(c: (u8, u8, u8)) -> Option<int> {
    if exists|i: int| 0 <= i < 12 && palette_color(i) == c {
        Some(choose|i: int| 0 <= i < 12 && palette_color(i) == c)
    } else {
        None
    }
}

/// The color that follows `c` in the palette (the one before it when
/// `backwards`); a color outside the palette moves to its first color, or
/// to its last one when going backwards.
pub open spec fn cycled_color(c: (u8, u8, u8), backwards: bool) -> (u8, u8, u8) {
    match palette_position(c) {
        Some(i) => if backwards { palette_color((i + 11) % 12) } else { palette_color((i + 1) % 12) },
        None => if backwards { palette_color(11) } else { palette_color(0) },
    }
}

pub proof fn lemma_palette_distinct(i: int, j: int)
    requires
        0 <= i < 12,
        0 <= j < 12,
        palette_color(i) == palette_color(j),
    ensures
        i == j,
{
}

fn palette_index(c: RgbColor) -> (r: Option<usize>)
    ensures
        match r {
            Some(i) => i < 12 && palette_position(c.spec_components()) == Some(i as int),
            None => palette_position(c.spec_components()) is None,
        },
{
    let mut i: usize = 0;
    while i < PALETTE_LEN
        invariant
            0 <= i <= 12,
            forall|k: int| 0 <= k < i ==> palette_color(k) != c.spec_components(),
        decreases 12 - i,
    {
        if palette(i) == c {
            proof {
                let j = choose|j: int| 0 <= j < 12 && palette_color(j) == c.spec_components();
                lemma_palette_distinct(i as int, j);
            }
            return Some(i);
        }
        i += 1;
    }
    None
}

fn cycle_rgb_color(color: &mut RgbColor, direction: isize)
    ensures
        final(color).spec_components() == cycled_color(old(color).spec_components(), direction < 0),
{
    let next = match (palette_index(*color), direction < 0) {
        (Some(index), true) => (index + PALETTE_LEN - 1) % PALETTE_LEN,
        (Some(index), false) => (index + 1) % PALETTE_LEN,
        (None, true) => PALETTE_LEN - 1,
        (None, false) => 0,
    };
    *color = palette(next);
}

/// The theme color after a cycling step: an RGB color walks the palette;
/// the terminal color becomes the palette's first color, or its last one
/// when going backwards.
pub open spec fn theme_color_cycled(c: ThemeColor, backwards: bool) -> (u8, u8, u8) {
    match c {
        ThemeColor::Rgb(x) => cycled_color(x.spec_components(), backwards),
        ThemeColor::Terminal => if backwards { palette_color(11) } else { palette_color(0) },
    }
}

fn cycle_theme_color(color: &mut ThemeColor, direction: isize)
    ensures
        *final(color) matches ThemeColor::Rgb(x) && x.spec_components() == theme_color_cycled(*old(color), direction < 0),
{
    match color {
        ThemeColor::Rgb(value) => {
            let mut v = *value;
            cycle_rgb_color(&mut v, direction);
            *color = ThemeColor::Rgb(v);
        },
        ThemeColor::Terminal => {
            *color = ThemeColor::Rgb(if direction < 0 { palette(PALETTE_LEN - 1) } else { palette(0) });
        },
    }
}

impl Theme {
    /// The RGB color held by field `index` (for RGB fields).
    pub open spec fn rgb_field(self, index: int) -> RgbColor {
        if index == 2 { self.muted } else if index == 3 { self.accent } else if index == 4 { self.info } else if index == 5 { self.border } else if index == 6 { self.error } else if index == 7 { self.selection } else if index == 8 { self.header_background } else if index == 10 { self.launcher_background } else if index == 11 { self.launcher_foreground } else if index == 12 { self.installer_background } else if index == 13 { self.manager_background } else if index == 14 { self.installer_manager_foreground } else { self.image_background }
    }

    /// The theme color held by field `index` (for fields 0, 1 and 9).
    pub open spec fn theme_color_field(self, index: int) -> ThemeColor {
        if index == 0 { self.background } else if index == 1 { self.foreground } else { self.header_foreground }
    }

    /// This theme with RGB field `index` replaced by `c`.
    pub open spec fn with_rgb(self, index: int, c: RgbColor) -> Theme {
        if index == 2 { Theme { muted: c, ..self } } else if index == 3 { Theme { accent: c, ..self } } else if index == 4 { Theme { info: c, ..self } } else if index == 5 { Theme { border: c, ..self } } else if index == 6 { Theme { error: c, ..self } } else if index == 7 { Theme { selection: c, ..self } } else if index == 8 { Theme { header_background: c, ..self } } else if index == 10 { Theme { launcher_background: c, ..self } } else if index == 11 { Theme { launcher_foreground: c, ..self } } else if index == 12 { Theme { installer_background: c, ..self } } else if index == 13 { Theme { manager_background: c, ..self } } else if index == 14 { Theme { installer_manager_foreground: c, ..self } } else if index == 15 { Theme { image_background: c, ..self } } else { self }
    }

    /// This theme with theme-color field `index` replaced by `c`.
    pub open spec fn with_theme_color(self, index: int, c: ThemeColor) -> Theme {
        if index == 0 { Theme { background: c, ..self } } else if index == 1 { Theme { foreground: c, ..self } } else if index == 9 { Theme { header_foreground: c, ..self } } else { self }
    }

    /// This theme with another border style.
    pub open spec fn with_border(self, b: BorderStyle) -> Theme {
        Theme { border_style: b, ..self }
    }

    /// The RGB color of field `index`, if it has one.
    pub open spec fn spec_field_color(self, index: int) -> Option<RgbColor> {
        if is_theme_color_field(index) {
            match self.theme_color_field(index) {
                ThemeColor::Terminal => None,
                ThemeColor::Rgb(c) => Some(c),
            }
        } else if is_rgb_field(index) {
            Some(self.rgb_field(index))
        } else {
            None
        }
    }

    /// The setting text of field `index` (empty past the last field).
    pub open spec fn spec_field_value(self, index: int) -> Seq<char> {
        if is_theme_color_field(index) {
            theme_color_text(self.theme_color_field(index))
        } else if is_rgb_field(index) {
            hex_text(self.rgb_field(index))
        } else if index == 16 {
            border_name(self.border_style)
        } else {
            Seq::empty()
        }
    }

    pub fn field_color(&self, index: usize) -> (r: Option<RgbColor>)
        ensures
            r == self.spec_field_color(index as int),
    {
        match index {
            0 => self.background.rgb(),
            1 => self.foreground.rgb(),
            2 => Some(self.muted),
            3 => Some(self.accent),
            4 => Some(self.info),
            5 => Some(self.border),
            6 => Some(self.error),
            7 => Some(self.selection),
            8 => Some(self.header_background),
            9 => self.header_foreground.rgb(),
            10 => Some(self.launcher_background),
            11 => Some(self.launcher_foreground),
            12 => Some(self.installer_background),
            13 => Some(self.manager_background),
            14 => Some(self.installer_manager_foreground),
            15 => Some(self.image_background),
            _ => None,
        }
    }

    pub fn field_value(&self, index: usize) -> (r: String)
        ensures
            r@ == self.spec_field_value(index as int),
    {
        match index {
            0 => self.background.as_config_value(),
            1 => self.foreground.as_config_value(),
            2 => self.muted.as_hex(),
            3 => self.accent.as_hex(),
            4 => self.info.as_hex(),
            5 => self.border.as_hex(),
            6 => self.error.as_hex(),
            7 => self.selection.as_hex(),
            8 => self.header_background.as_hex(),
            9 => self.header_foreground.as_config_value(),
            10 => self.launcher_background.as_hex(),
            11 => self.launcher_foreground.as_hex(),
            12 => self.installer_background.as_hex(),
            13 => self.manager_background.as_hex(),
            14 => self.installer_manager_foreground.as_hex(),
            15 => self.image_background.as_hex(),
            16 => owned(self.border_style.to_string()),
            _ => String::new(),
        }
    }

    /// Sets field `index` from its setting text; on an error the theme is
    /// unchanged.
    pub fn set_field_value(&mut self, index: usize, value: &str) -> (r: Result<(), String>)
        requires
            index < 16 ==> rgb_bytes_readable(value.spec_bytes()),
        ensures
            index >= 17 ==> r is Err && r->Err_0@ == "campo de tema inválido"@ && *final(self) == *old(self),
            is_theme_color_field(index as int) ==> match parse_theme_color_bytes(value.spec_bytes()) {
                Ok(t) => r is Ok && theme_color_is(final(self).theme_color_field(index as int), t)
                    && *final(self) == old(self).with_theme_color(index as int, final(self).theme_color_field(index as int)),
                Err(e) => r is Err && r->Err_0@ == e && *final(self) == *old(self),
            },
            is_rgb_field(index as int) ==> match parse_rgb_bytes(value.spec_bytes()) {
                Ok(t) => r is Ok && final(self).rgb_field(index as int).spec_components() == t
                    && *final(self) == old(self).with_rgb(index as int, final(self).rgb_field(index as int)),
                Err(e) => r is Err && r->Err_0@ == e && *final(self) == *old(self),
            },
            index == 16 ==> match parse_border_bytes(value.spec_bytes()) {
                Ok(t) => r is Ok && *final(self) == old(self).with_border(t),
                Err(e) => r is Err && r->Err_0@ == e && *final(self) == *old(self),
            },
    {
        match index {
            0 => match ThemeColor::parse(value) { Ok(c) => { self.background = c; } Err(e) => { return Err(e); } },
            1 => match ThemeColor::parse(value) { Ok(c) => { self.foreground = c; } Err(e) => { return Err(e); } },
            2 => match RgbColor::parse(value) { Ok(c) => { self.muted = c; } Err(e) => { return Err(e); } },
            3 => match RgbColor::parse(value) { Ok(c) => { self.accent = c; } Err(e) => { return Err(e); } },
            4 => match RgbColor::parse(value) { Ok(c) => { self.info = c; } Err(e) => { return Err(e); } },
            5 => match RgbColor::parse(value) { Ok(c) => { self.border = c; } Err(e) => { return Err(e); } },
            6 => match RgbColor::parse(value) { Ok(c) => { self.error = c; } Err(e) => { return Err(e); } },
            7 => match RgbColor::parse(value) { Ok(c) => { self.selection = c; } Err(e) => { return Err(e); } },
            8 => match RgbColor::parse(value) { Ok(c) => { self.header_background = c; } Err(e) => { return Err(e); } },
            9 => match ThemeColor::parse(value) { Ok(c) => { self.header_foreground = c; } Err(e) => { return Err(e); } },
            10 => match RgbColor::parse(value) { Ok(c) => { self.launcher_background = c; } Err(e) => { return Err(e); } },
            11 => match RgbColor::parse(value) { Ok(c) => { self.launcher_foreground = c; } Err(e) => { return Err(e); } },
            12 => match RgbColor::parse(value) { Ok(c) => { self.installer_background = c; } Err(e) => { return Err(e); } },
            13 => match RgbColor::parse(value) { Ok(c) => { self.manager_background = c; } Err(e) => { return Err(e); } },
            14 => match RgbColor::parse(value) { Ok(c) => { self.installer_manager_foreground = c; } Err(e) => { return Err(e); } },
            15 => match RgbColor::parse(value) { Ok(c) => { self.image_background = c; } Err(e) => { return Err(e); } },
            16 => match BorderStyle::parse(value) { Ok(c) => { self.border_style = c; } Err(e) => { return Err(e); } },
            _ => {
                return Err(owned("campo de tema inválido"));
            },
        }
        Ok(())
    }

    /// Moves field `index` one step through its choices (see
    /// `theme_color_cycled`, `cycled_color` and `BorderStyle::cycle`);
    /// nothing happens past the last field.
    pub fn cycle_field(&mut self, index: usize, direction: isize)
        ensures
            index >= 17 ==> *final(self) == *old(self),
            is_theme_color_field(index as int) ==> (final(self).theme_color_field(index as int) matches ThemeColor::Rgb(x)
                && x.spec_components() == theme_color_cycled(old(self).theme_color_field(index as int), direction < 0))
                && *final(self) == old(self).with_theme_color(index as int, final(self).theme_color_field(index as int)),
            is_rgb_field(index as int) ==> final(self).rgb_field(index as int).spec_components() == cycled_color(
                old(self).rgb_field(index as int).spec_components(), direction < 0)
                && *final(self) == old(self).with_rgb(index as int, final(self).rgb_field(index as int)),
            index == 16 ==> *final(self) == old(self).with_border(old(self).border_style.spec_cycle(direction)),
    {
        match index {
            0 => cycle_theme_color(&mut self.background, direction),
            1 => cycle_theme_color(&mut self.foreground, direction),
            2 => cycle_rgb_color(&mut self.muted, direction),
            3 => cycle_rgb_color(&mut self.accent, direction),
            4 => cycle_rgb_color(&mut self.info, direction),
            5 => cycle_rgb_color(&mut self.border, direction),
            6 => cycle_rgb_color(&mut self.error, direction),
            7 => cycle_rgb_color(&mut self.selection, direction),
            8 => cycle_rgb_color(&mut self.header_background, direction),
            9 => cycle_theme_color(&mut self.header_foreground, direction),
            10 => cycle_rgb_color(&mut self.launcher_background, direction),
            11 => cycle_rgb_color(&mut self.launcher_foreground, direction),
            12 => cycle_rgb_color(&mut self.installer_background, direction),
            13 => cycle_rgb_color(&mut self.manager_background, direction),
            14 => cycle_rgb_color(&mut self.installer_manager_foreground, direction),
            15 => cycle_rgb_color(&mut self.image_background, direction),
            16 => {
                self.border_style = self.border_style.cycle(direction);
            },
            _ => {},
        }
    }
}

impl BorderStyle {
    pub open spec fn spec_cycle(self, direction: isize) -> BorderStyle {
        border_at(if direction < 0 { (border_index(self) + 3) % 4 } else { (border_index(self) + 1) % 4 })
    }
}

impl Default for Theme {
    fn default() -> (r: Self)
        ensures
            r.background == ThemeColor::Terminal,
            r.foreground == ThemeColor::Terminal,
            r.header_foreground == ThemeColor::Terminal,
            r.muted.spec_components() == (127u8, 132u8, 156u8),
            r.accent.spec_components() == (203u8, 166u8, 247u8),
            r.info.spec_components() == (137u8, 220u8, 235u8),
            r.border.spec_components() == (69u8, 71u8, 90u8),
            r.error.spec_components() == (243u8, 139u8, 168u8),
            r.selection.spec_components() == (203u8, 166u8, 247u8),
            r.header_background.spec_components() == (203u8, 166u8, 247u8),
            r.launcher_background.spec_components() == (166u8, 227u8, 161u8),
            r.installer_background.spec_components() == (220u8, 38u8, 38u8),
            r.manager_background.spec_components() == (220u8, 38u8, 38u8),
            r.launcher_foreground.spec_components() == (0u8, 0u8, 0u8),
            r.installer_manager_foreground.spec_components() == (255u8, 255u8, 255u8),
            r.image_background.spec_components() == (24u8, 24u8, 37u8),
            r.border_style == BorderStyle::Rounded,
    {
        Theme {
            background: ThemeColor::Terminal,
            foreground: ThemeColor::Terminal,
            muted: RgbColor::new(127, 132, 156),
            accent: RgbColor::new(203, 166, 247),
            info: RgbColor::new(137, 220, 235),
            border: RgbColor::new(69, 71, 90),
            error: RgbColor::new(243, 139, 168),
            selection: RgbColor::new(203, 166, 247),
            header_background: RgbColor::new(203, 166, 247),
            header_foreground: ThemeColor::Terminal,
            launcher_background: RgbColor::new(166, 227, 161),
            installer_background: RgbColor::new(220, 38, 38),
            manager_background: RgbColor::new(220, 38, 38),
            launcher_foreground: RgbColor::new(0, 0, 0),
            installer_manager_foreground: RgbColor::new(255, 255, 255),
            image_background: RgbColor::new(24, 24, 37),
            border_style: BorderStyle::Rounded,
        }
    }
}


/// Where the logo comes from when no image path is configured.
#[derive(Debug, Clone, Copy, PartialEq, Eq, Structural)]
pub enum LogoSource {
    Builtin,
    Os,
    Desktop,
}

/// The `[logo]` settings; `width` and `height` count terminal cells.
pub struct Logo {
    pub source: LogoSource,
    pub path: Option<String>,
    pub width: u16,
    pub height: u16,
}

impl Default for Logo {
    fn default() -> (r: Self)
        ensures
            r.source == LogoSource::Builtin,
            r.path matches Some(p) && p@ == "logo.png"@,
            r.width == 22,
            r.height == 7,
    {
        Logo { source: LogoSource::Builtin, path: Some(owned("logo.png")), width: 22, height: 7 }
    }
}

/// The terminal graphics protocol to use for images.
#[derive(Debug, Clone, Copy, PartialEq, Eq, Structural)]
pub enum ImageProtocol {
    Auto,
    Halfblocks,
    Kitty,
    KittyLegacy,
    Sixel,
    Iterm2,
}

/// The `[images]` settings.
pub struct Images {
    pub enabled: bool,
    pub protocol: ImageProtocol,
    pub icon_theme: Option<String>,
}

impl Default for Images {
    fn default() -> (r: Self)
        ensures
            r.enabled,
            r.protocol == ImageProtocol::Auto,
            r.icon_theme is None,
    {
        Images { enabled: true, protocol: ImageProtocol::Auto, icon_theme: None }
    }
}

/// The `[launcher]` settings.
pub struct Launcher {
    pub terminal: Vec<String>,
    pub recent_limit: usize,
    pub close_on_launch: bool,
}

impl Default for Launcher {
    fn default() -> (r: Self)
        ensures
            r.terminal@.len() == 0,
            r.recent_limit == 12,
            !r.close_on_launch,
    {
        Launcher { terminal: Vec::new(), recent_limit: 12, close_on_launch: false }
    }
}

/// The `[applications]` settings.
pub struct Applications {
    pub extra_dirs: Vec<String>,
    pub desktop_dir: Option<String>,
}

impl Default for Applications {
    fn default() -> (r: Self)
        ensures
            r.extra_dirs@.len() == 0,
            r.desktop_dir is None,
    {
        Applications { extra_dirs: Vec::new(), desktop_dir: None }
    }
}

/// The `[interface]` settings.
pub struct Interface {
    pub language: Language,
}

impl Default for Interface {
    fn default() -> (r: Self)
        ensures
            r.language == Language::Auto,
    {
        Interface { language: Language::Auto }
    }
}

/// The whole configuration.
pub struct Config {
    pub logo: Logo,
    pub images: Images,
    pub launcher: Launcher,
    pub applications: Applications,
    pub interface: Interface,
    pub theme: Theme,
}

impl Default for Config {
    fn default() -> (r: Self)
        ensures
            r.logo.source == LogoSource::Builtin,
            r.logo.path matches Some(p) && p@ == "logo.png"@,
            r.logo.width == 22,
            r.logo.height == 7,
            r.images.enabled,
            r.images.protocol == ImageProtocol::Auto,
            r.images.icon_theme is None,
            r.launcher.terminal@.len() == 0,
            r.launcher.recent_limit == 12,
            !r.launcher.close_on_launch,
            r.applications.extra_dirs@.len() == 0,
            r.applications.desktop_dir is None,
            r.interface.language == Language::Auto,
            r.theme.border_style == BorderStyle::Rounded,
    {
        Config {
            logo: Logo::default(),
            images: Images::default(),
            launcher: Launcher::default(),
            applications: Applications::default(),
            interface: Interface::default(),
            theme: Theme::default(),
        }
    }
}

/// The configured paths resolved against the folder `base` of the
/// configuration file, or the first error: the logo's path, the extra
/// application folders in order, then the desktop folder.
pub open spec fn resolved_paths(c: Config, base: Seq<char>, home: Option<Seq<char>>) -> Result<
    (Option<Seq<char>>, Seq<Seq<char>>, Option<Seq<char>>),
    Seq<char>,
> {
    let logo = match c.logo.path {
        Some(p) => match resolve_spec(p@, base, home) {
            Ok(q) => Ok(Some(q)),
            Err(e) => Err(e),
        },
        None => Ok(None),
    };
    match logo {
        Err(e) => Err(e),
        Ok(l) => match resolve_all(c.applications.extra_dirs@.map_values(|s: String| s@), base, home) {
            Err(e) => Err(e),
            Ok(dirs) => match c.applications.desktop_dir {
                Some(p) => match resolve_spec(p@, base, home) {
                    Ok(q) => Ok((l, dirs, Some(q))),
                    Err(e) => Err(e),
                },
                None => Ok((l, dirs, None)),
            },
        },
    }
}

/// The first setting out of its range: the logo 8 to 60 columns wide and
/// 3 to 16 rows tall, at most 100 recent items, no empty terminal
/// argument.
pub open spec fn settings_error(c: Config) -> Option<Seq<char>> {
    if !(8 <= c.logo.width <= 60) {
        Some("logo.width debe estar entre 8 y 60"@)
    } else if !(3 <= c.logo.height <= 16) {
        Some("logo.height debe estar entre 3 y 16"@)
    } else if c.launcher.recent_limit > 100 {
        Some("launcher.recent_limit no puede superar 100"@)
    } else if exists|i: int| 0 <= i < c.launcher.terminal@.len() && #[trigger] c.launcher.terminal@[i]@.len() == 0 {
        Some("launcher.terminal contiene un argumento vacío"@)
    } else {
        None
    }
}

fn resolve_optional(p: &Option<String>, base: &str, home: &Option<String>) -> (r: Result<Option<String>, String>)
    ensures
        match p {
            Some(path) => match (r, resolve_spec(path@, base@, match home {
                Some(h) => Some(h@),
                None => None,
            })) {
                (Ok(Some(q)), Ok(t)) => q@ == t,
                (Err(m), Err(e)) => m@ == e,
                _ => false,
            },
            None => r matches Ok(None),
        },
{
    match p {
        Some(path) => match resolve_path(path.as_str(), base, home) {
            Ok(q) => Ok(Some(q)),
            Err(e) => Err(e),
        },
        None => Ok(None),
    }
}

impl Config {
    /// Finishes a configuration read from a file kept in the folder
    /// `base`: resolves its paths (`~` stands for the personal folder
    /// `home`) and checks its settings; the first problem is the error.
    pub fn finish(&mut self, base: &str, home: &Option<String>) -> (r: Result<(), String>)
        ensures
            match resolved_paths(*old(self), base@, match home {
                Some(h) => Some(h@),
                None => None,
            }) {
                Err(e) => r matches Err(m) && m@ == e,
                Ok((logo, dirs, desktop)) => match settings_error(*old(self)) {
                    Some(e) => r matches Err(m) && m@ == e,
                    None => r is Ok && match final(self).logo.path {
                        Some(p) => logo == Some(p@),
                        None => logo is None,
                    } && final(self).applications.extra_dirs@.map_values(|s: String| s@) == dirs && match final(self).applications.desktop_dir {
                        Some(p) => desktop == Some(p@),
                        None => desktop is None,
                    } && final(self).logo.width == old(self).logo.width && final(self).logo.height
                        == old(self).logo.height && final(self).logo.source == old(self).logo.source
                        && final(self).images == old(self).images && final(self).launcher == old(self).launcher
                        && final(self).interface == old(self).interface && final(self).theme == old(self).theme,
                },
            },
    {
        let ghost start = *self;
        let logo = match resolve_optional(&self.logo.path, base, home) {
            Ok(l) => l,
            Err(e) => return Err(e),
        };
        let dirs = match resolve_list(&self.applications.extra_dirs, base, home) {
            Ok(d) => d,
            Err(e) => return Err(e),
        };
        let desktop = match resolve_optional(&self.applications.desktop_dir, base, home) {
            Ok(d) => d,
            Err(e) => return Err(e),
        };
        if !(8 <= self.logo.width && self.logo.width <= 60) {
            return Err(owned("logo.width debe estar entre 8 y 60"));
        }
        if !(3 <= self.logo.height && self.logo.height <= 16) {
            return Err(owned("logo.height debe estar entre 3 y 16"));
        }
        if self.launcher.recent_limit > 100 {
            return Err(owned("launcher.recent_limit no puede superar 100"));
        }
        let mut i: usize = 0;
        while i < self.launcher.terminal.len()
            invariant
                0 <= i <= self.launcher.terminal@.len(),
                *self == start,
                8 <= start.logo.width <= 60,
                3 <= start.logo.height <= 16,
                start.launcher.recent_limit <= 100,
                resolved_paths(start, base@, match home {
                    Some(h) => Some(h@),
                    None => None,
                }) is Ok,
                forall|q: int| 0 <= q < i ==> #[trigger] self.launcher.terminal@[q]@.len() != 0,
            decreases self.launcher.terminal@.len() - i,
        {
            if self.launcher.terminal[i].as_str().is_empty() {
                assert(self.launcher.terminal@[i as int]@.len() == 0);
                return Err(owned("launcher.terminal contiene un argumento vacío"));
            }
            i += 1;
        }
        self.logo.path = logo;
        self.applications.extra_dirs = dirs;
        self.applications.desktop_dir = desktop;
        Ok(())
    }
}

/// Which configuration files are read.
#[derive(Debug, Clone, Copy, PartialEq, Eq, Structural)]
pub enum ConfigSource {
    /// The user's file laid over the global one.
    Layered,
    /// The user's file alone.
    User,
    /// The global file alone.
    Global,
    /// The file beside the program, copied to the user's place first.
    Legacy,
    /// A new user file made from the example.
    Default,
}

/// Which configuration files are read, from which of the user's, the
/// global and the old file beside the program exist.
pub open spec fn config_source_spec(user: bool, global: bool, legacy: bool) -> ConfigSource {
    if user {
        if global { ConfigSource::Layered } else { ConfigSource::User }
    } else if global {
        ConfigSource::Global
    } else if legacy {
        ConfigSource::Legacy
    } else {
        ConfigSource::Default
    }
}

/// Decides which configuration files are read.
pub fn config_source(user: bool, global: bool, legacy: bool) -> (r: ConfigSource)
    ensures
        r == config_source_spec(user, global, legacy),
{
    if user {
        if global { ConfigSource::Layered } else { ConfigSource::User }
    } else if global {
        ConfigSource::Global
    } else if legacy {
        ConfigSource::Legacy
    } else {
        ConfigSource::Default
    }
}

impl Config {
    /// Keeps an old configuration's logo portable when it is copied to the
    /// user's place: a logo path that names the old file's own `logo.png`
    /// becomes `./logo.png` when that file is the official logo or
    /// missing (`official_or_missing`).
    pub fn migrate_legacy_logo(&mut self, legacy_logo: &str, official_or_missing: bool)
        ensures
            final(self).logo.path == (if old(self).logo.path matches Some(p) && crate::paths::same_path(
                p@,
                legacy_logo@,
            ) && official_or_missing {
                final(self).logo.path
            } else {
                old(self).logo.path
            }),
            (old(self).logo.path matches Some(p) && crate::paths::same_path(p@, legacy_logo@)
                && official_or_missing) ==> (final(self).logo.path matches Some(q) && q@ == "./logo.png"@),
            final(self).logo.width == old(self).logo.width,
            final(self).logo.height == old(self).logo.height,
            final(self).logo.source == old(self).logo.source,
            final(self).images == old(self).images,
            final(self).launcher == old(self).launcher,
            final(self).applications == old(self).applications,
            final(self).interface == old(self).interface,
            final(self).theme == old(self).theme,
    {
        let same = match &self.logo.path {
            Some(p) => crate::paths::paths_equal(p.as_str(), legacy_logo),
            None => false,
        };
        if same && official_or_missing {
            self.logo.path = Some(owned("./logo.png"));
        }
    }
}

/// The three components of a color determine it: two colors are equal
/// exactly when their components are.
pub proof fn law_color_components(a: RgbColor, b: RgbColor)
    ensures
        a.spec_components() == b.spec_components() <==> a == b,
{
}

} // verus!
