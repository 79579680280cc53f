//! Table theming: the theme's settings, hex and named colors, and the default theme text.

use crate::textops::str_equal;
use crate::text::{chars_of, lowercase, str_to_lowercase};
use vstd::utf8::encode_utf8;
use vstd::prelude::*;
use vstd::string::StringSliceAdditionalSpecFns;

verus! {

/// The default theme, in TOML: warm orange sunset colors.
pub const OXUR_DEFAULT: &'static str = "[table]
padding_left = 0
padding_right = 0
padding_top = 0
padding_bottom = 0

[title]
enabled = true
bg_color = \"#F97316\"
fg_color = \"#451A03\"
justification_char = \" \"
vertical_fg_color = \"#F97316\"

[header]
bg_color = \"#D45500\"
fg_color = \"#451A03\"
justification_char = \" \"
vertical_char = \"│\"
vertical_bg_color = \"#D45500\"
vertical_fg_color = \"#D45500\"

[rows]
colors = [
    { bg = \"#451A03\", fg = \"#FED7AA\" },
    { bg = \"#451A03\", fg = \"#FDBA74\" }
]
justification_char = \" \"

[style]
vertical_bg_color = \"#451A03\"
vertical_fg_color = \"#803300\"

[footer]
enabled = true
bg_color = \"#803300\"
fg_color = \"#D45500\"
vertical_bg_color = \"#803300\"
vertical_fg_color = \"#803300\"
";

/// A theme: padding, optional title and footer rows, the header, alternating row colors,
/// and separator colors.
#[derive(Debug, Clone)]
pub struct TableStyleConfig {
    pub table: TableConfig,
    pub title: Option<TitleConfig>,
    pub header: HeaderConfig,
    pub rows: RowsConfig,
    pub style: StyleConfig,
    pub footer: Option<FooterConfig>,
}

/// The styling of a title row (the first data row).
#[derive(Debug, Clone)]
pub struct TitleConfig {
    pub enabled: bool,
    pub bg_color: Option<String>,
    pub fg_color: Option<String>,
    pub justification_char: Option<String>,
    pub vertical_char: Option<String>,
    pub vertical_fg_color: Option<String>,
    pub vertical_bg_color: Option<String>,
}

/// The styling of a footer row (the last data row).
#[derive(Debug, Clone)]
pub struct FooterConfig {
    pub enabled: bool,
    pub bg_color: Option<String>,
    pub fg_color: Option<String>,
    pub justification_char: Option<String>,
    pub vertical_char: Option<String>,
    pub vertical_fg_color: Option<String>,
    pub vertical_bg_color: Option<String>,
}

/// Cell padding.
#[derive(Debug, Clone)]
pub struct TableConfig {
    pub padding_left: usize,
    pub padding_right: usize,
    pub padding_top: usize,
    pub padding_bottom: usize,
}

/// The styling of the header row.
#[derive(Debug, Clone)]
pub struct HeaderConfig {
    pub bg_color: String,
    pub fg_color: String,
    pub justification_char: String,
    pub vertical_char: Option<String>,
    pub vertical_fg_color: Option<String>,
    pub vertical_bg_color: Option<String>,
}

/// The alternating colors of the data rows.
#[derive(Debug, Clone)]
pub struct RowsConfig {
    pub colors: Vec<RowColor>,
    pub justification_char: Option<String>,
}

/// One row color pair.
#[derive(Debug, Clone)]
pub struct RowColor {
    pub bg: String,
    pub fg: String,
}

/// The separators of the data rows.
#[derive(Debug, Clone)]
pub struct StyleConfig {
    pub vertical_char: Option<String>,
    pub vertical_fg_color: Option<String>,
    pub vertical_bg_color: Option<String>,
}

/// Whether an optional setting holds exactly the given text.
pub open spec fn set_to(o: Option<String>, t: Seq<char>) -> bool {
    o is Some && o->0@ == t
}

/// The default theme's settings, the values `OXUR_DEFAULT` writes out.
pub open spec fn is_default_theme(c: TableStyleConfig) -> bool {
    &&& c.table.padding_left == 0 && c.table.padding_right == 0
    &&& c.table.padding_top == 0 && c.table.padding_bottom == 0
    &&& c.title is Some
    &&& c.title->0.enabled
    &&& set_to(c.title->0.bg_color, "#F97316"@)
    &&& set_to(c.title->0.fg_color, "#451A03"@)
    &&& set_to(c.title->0.justification_char, " "@)
    &&& c.title->0.vertical_char is None
    &&& set_to(c.title->0.vertical_fg_color, "#F97316"@)
    &&& c.title->0.vertical_bg_color is None
    &&& c.header.bg_color@ == "#D45500"@
    &&& c.header.fg_color@ == "#451A03"@
    &&& c.header.justification_char@ == " "@
    &&& set_to(c.header.vertical_char, "│"@)
    &&& set_to(c.header.vertical_bg_color, "#D45500"@)
    &&& set_to(c.header.vertical_fg_color, "#D45500"@)
    &&& c.rows.colors@.len() == 2
    &&& c.rows.colors@[0].bg@ == "#451A03"@ && c.rows.colors@[0].fg@ == "#FED7AA"@
    &&& c.rows.colors@[1].bg@ == "#451A03"@ && c.rows.colors@[1].fg@ == "#FDBA74"@
    &&& set_to(c.rows.justification_char, " "@)
    &&& c.style.vertical_char is None
    &&& set_to(c.style.vertical_bg_color, "#451A03"@)
    &&& set_to(c.style.vertical_fg_color, "#803300"@)
    &&& c.footer is Some
    &&& c.footer->0.enabled
    &&& set_to(c.footer->0.bg_color, "#803300"@)
    &&& set_to(c.footer->0.fg_color, "#D45500"@)
    &&& c.footer->0.justification_char is None
    &&& c.footer->0.vertical_char is None
    &&& set_to(c.footer->0.vertical_bg_color, "#803300"@)
    &&& set_to(c.footer->0.vertical_fg_color, "#803300"@)
}

fn owned(lit: &str) -> (r: String)
    ensures
        r@ == lit@,
{
    lit.to_string()
}

fn setting(lit: &str) -> (r: Option<String>)
    ensures
        set_to(r, lit@),
{
    Some(owned(lit))
}

impl Default for TableStyleConfig {
    /// The default theme (warm orange sunset colors), as `OXUR_DEFAULT` writes it out.
    fn default() -> (r: Self)
        ensures
            is_default_theme(r),
    {
        let mut colors: Vec<RowColor> = Vec::new();
        colors.push(RowColor { bg: owned("#451A03"), fg: owned("#FED7AA") });
        colors.push(RowColor { bg: owned("#451A03"), fg: owned("#FDBA74") });
        TableStyleConfig {
            table: TableConfig { padding_left: 0, padding_right: 0, padding_top: 0, padding_bottom: 0 },
            title: Some(
                TitleConfig {
                    enabled: true,
                    bg_color: setting("#F97316"),
                    fg_color: setting("#451A03"),
                    justification_char: setting(" "),
                    vertical_char: None,
                    vertical_fg_color: setting("#F97316"),
                    vertical_bg_color: None,
                },
            ),
            header: HeaderConfig {
                bg_color: owned("#D45500"),
                fg_color: owned("#451A03"),
                justification_char: owned(" "),
                vertical_char: setting("│"),
                vertical_fg_color: setting("#D45500"),
                vertical_bg_color: setting("#D45500"),
            },
            rows: RowsConfig { colors, justification_char: setting(" ") },
            style: StyleConfig {
                vertical_char: None,
                vertical_fg_color: setting("#803300"),
                vertical_bg_color: setting("#451A03"),
            },
            footer: Some(
                FooterConfig {
                    enabled: true,
                    bg_color: setting("#803300"),
                    fg_color: setting("#D45500"),
                    justification_char: None,
                    vertical_char: None,
                    vertical_fg_color: setting("#803300"),
                    vertical_bg_color: setting("#803300"),
                },
            ),
        }
    }
}

// ---------------------------------------------------------------------------
// Hex colors
// ---------------------------------------------------------------------------

/// The value of a hexadecimal digit byte.
pub open spec fn hex_val(b: u8) -> Option<u8> {
    if 48 <= b <= 57 {
        Some((b - 48) as u8)
    } else if 97 <= b <= 102 {
        Some((b - 87) as u8)
    } else if 65 <= b <= 70 {
        Some((b - 55) as u8)
    } else {
        None
    }
}

/// The value of two hexadecimal digits, high digit first.
pub open spec fn pair_value(hi: u8, lo: u8) -> Option<u8> {
    match (hex_val(hi), hex_val(lo)) {
        (Some(x), Some(y)) => Some((16 * x + y) as u8),
        _ => None,
    }
}

/// The bytes after any leading `#` bytes.
pub open spec fn strip_hashes(bs: Seq<u8>) -> Seq<u8>
    decreases bs.len(),
{
    if bs.len() > 0 && bs[0] == 35 {
        strip_hashes(bs.drop_first())
    } else {
        bs
    }
}

/// Three channels of `w` digits each from the start of `h`; a one-digit channel is
/// read doubled.
pub open spec fn rgb_of(h: Seq<u8>, w: int) -> Option<(u8, u8, u8)> {
    let last = w - 1;
    match (
        pair_value(h[0], h[last]),
        pair_value(h[w], h[w + last]),
        pair_value(h[2 * w], h[2 * w + last]),
    ) {
        (Some(r), Some(g), Some(b)) => Some((r, g, b)),
        _ => None,
    }
}

/// The color that UTF-8 text `bytes` spells in hex: after any leading `#`, exactly three
/// digits (each read doubled, as `F` reads as `FF`) or exactly six (two per channel);
/// `None` for any other text.
pub open spec fn hex_color_value(bytes: Seq<u8>) -> Option<(u8, u8, u8)> {
    let h = strip_hashes(bytes);
    if h.len() == 3 {
        rgb_of(h, 1)
    } else if h.len() == 6 {
        rgb_of(h, 2)
    } else {
        None
    }
}

proof fn lemma_strip_hashes_suffix(bs: Seq<u8>, k: int)
    requires
        0 <= k <= bs.len(),
        forall|j: int| 0 <= j < k ==> bs[j] == 35,
        k == bs.len() || bs[k] != 35,
    ensures
        strip_hashes(bs) == bs.skip(k),
    decreases k,
{
    if k > 0 {
        assert(bs.drop_first().skip(k - 1) =~= bs.skip(k));
        lemma_strip_hashes_suffix(bs.drop_first(), k - 1);
    } else {
        assert(bs.skip(0) =~= bs);
    }
}

fn hex_digit_value(b: u8) -> (r: Option<u8>)
    ensures
        r == hex_val(b),
{
    if 48 <= b && b <= 57 {
        Some(b - 48)
    } else if 97 <= b && b <= 102 {
        Some(b - 87)
    } else if 65 <= b && b <= 70 {
        Some(b - 55)
    } else {
        None
    }
}

fn pair_of(hi: u8, lo: u8) -> (r: Option<u8>)
    ensures
        r == pair_value(hi, lo),
{
    match (hex_digit_value(hi), hex_digit_value(lo)) {
        (Some(x), Some(y)) => {
            assert(16 * x + y <= 255) by (nonlinear_arith)
                requires
                    x < 16,
                    y < 16,
            ;
            Some(16 * x + y)
        },
        _ => None,
    }
}

/// Reads a hex color such as `#FF8800` or `F80` (leading `#` optional); `None` when the
/// text is not a hex color.
pub fn parse_hex_color(hex: &str) -> (r: Option<(u8, u8, u8)>)
    ensures
        r == hex_color_value(hex.spec_bytes()),
{
    let bytes = hex.as_bytes();
    let mut k: usize = 0;
    while k < bytes.len() && bytes[k] == 35
        invariant
            k <= bytes@.len(),
            forall|j: int| 0 <= j < k ==> bytes@[j] == 35,
        decreases bytes@.len() - k,
    {
        k = k + 1;
    }
    proof {
        lemma_strip_hashes_suffix(bytes@, k as int);
    }
    let ghost h = bytes@.skip(k as int);
    let n = bytes.len() - k;
    let w: usize = if n == 3 {
        1
    } else if n == 6 {
        2
    } else {
        return None;
    };
    let last = w - 1;
    assert(bytes@[k as int] == h[0]);
    assert(bytes@[k + last] == h[last as int]);
    assert(bytes@[k + w] == h[w as int]);
    assert(bytes@[k + w + last] == h[w + last]);
    assert(bytes@[k + 2 * w] == h[2 * w]);
    assert(bytes@[k + 2 * w + last] == h[2 * w + last]);
    let r = pair_of(bytes[k], bytes[k + last]);
    let g = pair_of(bytes[k + w], bytes[k + w + last]);
    let b = pair_of(bytes[k + 2 * w], bytes[k + 2 * w + last]);
    match (r, g, b) {
        (Some(r), Some(g), Some(b)) => Some((r, g, b)),
        _ => None,
    }
}

// ---------------------------------------------------------------------------
// Named colors
// ---------------------------------------------------------------------------

/// The sixteen terminal colors.
#[derive(Debug, Clone, Copy, PartialEq, Eq, Structural)]
pub enum BasicColor {
    Black,
    Red,
    Green,
    Yellow,
    Blue,
    Magenta,
    Cyan,
    White,
    BrightBlack,
    BrightRed,
    BrightGreen,
    BrightYellow,
    BrightBlue,
    BrightMagenta,
    BrightCyan,
    BrightWhite,
}

/// A color as a theme names it: a hex value or one of the sixteen terminal colors.
#[derive(Debug, Clone, Copy, PartialEq, Eq, Structural)]
pub enum ColorChoice {
    Rgb(u8, u8, u8),
    Basic(BasicColor),
}

/// The terminal color a lowercased name names.
pub open spec fn basic_color_named(n: Seq<char>) -> Option<BasicColor> {
    if n == "black"@ {
        Some(BasicColor::Black)
    } else if n == "red"@ {
        Some(BasicColor::Red)
    } else if n == "green"@ {
        Some(BasicColor::Green)
    } else if n == "yellow"@ {
        Some(BasicColor::Yellow)
    } else if n == "blue"@ {
        Some(BasicColor::Blue)
    } else if n == "magenta"@ {
        Some(BasicColor::Magenta)
    } else if n == "cyan"@ {
        Some(BasicColor::Cyan)
    } else if n == "white"@ {
        Some(BasicColor::White)
    } else if n == "bright_black"@ || n == "gray"@ || n == "grey"@ {
        Some(BasicColor::BrightBlack)
    } else if n == "bright_red"@ {
        Some(BasicColor::BrightRed)
    } else if n == "bright_green"@ {
        Some(BasicColor::BrightGreen)
    } else if n == "bright_yellow"@ {
        Some(BasicColor::BrightYellow)
    } else if n == "bright_blue"@ {
        Some(BasicColor::BrightBlue)
    } else if n == "bright_magenta"@ {
        Some(BasicColor::BrightMagenta)
    } else if n == "bright_cyan"@ {
        Some(BasicColor::BrightCyan)
    } else if n == "bright_white"@ {
        Some(BasicColor::BrightWhite)
    } else {
        None
    }
}

/// The name of each terminal color, in lowercase with `_` between words.
pub open spec fn terminal_color_name(c: BasicColor) -> Seq<char> {
    match c {
        BasicColor::Black => "black"@,
        BasicColor::Red => "red"@,
        BasicColor::Green => "green"@,
        BasicColor::Yellow => "yellow"@,
        BasicColor::Blue => "blue"@,
        BasicColor::Magenta => "magenta"@,
        BasicColor::Cyan => "cyan"@,
        BasicColor::White => "white"@,
        BasicColor::BrightBlack => "bright_black"@,
        BasicColor::BrightRed => "bright_red"@,
        BasicColor::BrightGreen => "bright_green"@,
        BasicColor::BrightYellow => "bright_yellow"@,
        BasicColor::BrightBlue => "bright_blue"@,
        BasicColor::BrightMagenta => "bright_magenta"@,
        BasicColor::BrightCyan => "bright_cyan"@,
        BasicColor::BrightWhite => "bright_white"@,
    }
}

/// Every terminal color is named by its own name, and a name names a color only when it
/// is that color's name, or `gray` or `grey` for bright black.
pub proof fn lemma_color_names(c: BasicColor, n: Seq<char>)
    ensures
        basic_color_named(terminal_color_name(c)) == Some(c),
        basic_color_named(n) == Some(c) <==> (n == terminal_color_name(c) || (c
            == BasicColor::BrightBlack && (n == "gray"@ || n == "grey"@))),
{
    reveal_strlit("black");
    reveal_strlit("red");
    reveal_strlit("green");
    reveal_strlit("yellow");
    reveal_strlit("blue");
    reveal_strlit("magenta");
    reveal_strlit("cyan");
    reveal_strlit("white");
    reveal_strlit("bright_black");
    reveal_strlit("gray");
    reveal_strlit("grey");
    reveal_strlit("bright_red");
    reveal_strlit("bright_green");
    reveal_strlit("bright_yellow");
    reveal_strlit("bright_blue");
    reveal_strlit("bright_magenta");
    reveal_strlit("bright_cyan");
    reveal_strlit("bright_white");
    assert("black"@.len() == 5 && "black"@[0] == 'b' && "black"@[2] == 'a');
    assert("red"@.len() == 3 && "red"@[0] == 'r' && "red"@[2] == 'd');
    assert("green"@.len() == 5 && "green"@[0] == 'g' && "green"@[2] == 'e');
    assert("yellow"@.len() == 6 && "yellow"@[0] == 'y' && "yellow"@[2] == 'l');
    assert("blue"@.len() == 4 && "blue"@[0] == 'b' && "blue"@[2] == 'u');
    assert("magenta"@.len() == 7 && "magenta"@[0] == 'm' && "magenta"@[2] == 'g');
    assert("cyan"@.len() == 4 && "cyan"@[0] == 'c' && "cyan"@[2] == 'a');
    assert("white"@.len() == 5 && "white"@[0] == 'w' && "white"@[2] == 'i');
    assert("bright_black"@.len() == 12 && "bright_black"@[0] == 'b' && "bright_black"@[2] == 'i' && "bright_black"@[7] == 'b');
    assert("gray"@.len() == 4 && "gray"@[0] == 'g' && "gray"@[2] == 'a');
    assert("grey"@.len() == 4 && "grey"@[0] == 'g' && "grey"@[2] == 'e');
    assert("bright_red"@.len() == 10 && "bright_red"@[0] == 'b' && "bright_red"@[2] == 'i' && "bright_red"@[7] == 'r');
    assert("bright_green"@.len() == 12 && "bright_green"@[0] == 'b' && "bright_green"@[2] == 'i' && "bright_green"@[7] == 'g');
    assert("bright_yellow"@.len() == 13 && "bright_yellow"@[0] == 'b' && "bright_yellow"@[2] == 'i' && "bright_yellow"@[7] == 'y');
    assert("bright_blue"@.len() == 11 && "bright_blue"@[0] == 'b' && "bright_blue"@[2] == 'i' && "bright_blue"@[7] == 'b');
    assert("bright_magenta"@.len() == 14 && "bright_magenta"@[0] == 'b' && "bright_magenta"@[2] == 'i' && "bright_magenta"@[7] == 'm');
    assert("bright_cyan"@.len() == 11 && "bright_cyan"@[0] == 'b' && "bright_cyan"@[2] == 'i' && "bright_cyan"@[7] == 'c');
    assert("bright_white"@.len() == 12 && "bright_white"@[0] == 'b' && "bright_white"@[2] == 'i' && "bright_white"@[7] == 'w');
}

fn basic_color_of(n: &str) -> (r: Option<BasicColor>)
    ensures
        r == basic_color_named(n@),
{
    if str_equal(n, "black") {
        Some(BasicColor::Black)
    } else if str_equal(n, "red") {
        Some(BasicColor::Red)
    } else if str_equal(n, "green") {
        Some(BasicColor::Green)
    } else if str_equal(n, "yellow") {
        Some(BasicColor::Yellow)
    } else if str_equal(n, "blue") {
        Some(BasicColor::Blue)
    } else if str_equal(n, "magenta") {
        Some(BasicColor::Magenta)
    } else if str_equal(n, "cyan") {
        Some(BasicColor::Cyan)
    } else if str_equal(n, "white") {
        Some(BasicColor::White)
    } else if str_equal(n, "bright_black") || str_equal(n, "gray") || str_equal(n, "grey") {
        Some(BasicColor::BrightBlack)
    } else if str_equal(n, "bright_red") {
        Some(BasicColor::BrightRed)
    } else if str_equal(n, "bright_green") {
        Some(BasicColor::BrightGreen)
    } else if str_equal(n, "bright_yellow") {
        Some(BasicColor::BrightYellow)
    } else if str_equal(n, "bright_blue") {
        Some(BasicColor::BrightBlue)
    } else if str_equal(n, "bright_magenta") {
        Some(BasicColor::BrightMagenta)
    } else if str_equal(n, "bright_cyan") {
        Some(BasicColor::BrightCyan)
    } else if str_equal(n, "bright_white") {
        Some(BasicColor::BrightWhite)
    } else {
        None
    }
}

/// The color a theme entry names: a hex value, else a terminal color named in any case,
/// else `fallback`.
pub open spec fn color_named(text: Seq<char>, bytes: Seq<u8>, fallback: BasicColor) -> ColorChoice {
    match hex_color_value(bytes) {
        Some((r, g, b)) => ColorChoice::Rgb(r, g, b),
        _ => match basic_color_named(lowercase(text)) {
            Some(c) => ColorChoice::Basic(c),
            None => ColorChoice::Basic(fallback),
        },
    }
}

fn color_with_default(text: &str, fallback: BasicColor) -> (r: ColorChoice)
    ensures
        r == color_named(text@, text.spec_bytes(), fallback),
{
    match parse_hex_color(text) {
        Some((r, g, b)) => ColorChoice::Rgb(r, g, b),
        None => {
            let lower = str_to_lowercase(text);
            match basic_color_of(lower.as_str()) {
                Some(c) => ColorChoice::Basic(c),
                None => ColorChoice::Basic(fallback),
            }
        },
    }
}

/// The foreground color a theme entry names (white when it names none).
pub fn parse_single_color(color: &str) -> (r: ColorChoice)
    ensures
        r == color_named(color@, color.spec_bytes(), BasicColor::White),
{
    color_with_default(color, BasicColor::White)
}

/// The background color a theme entry names (black when it names none).
pub fn parse_bg_color(bg: &str) -> (r: ColorChoice)
    ensures
        r == color_named(bg@, bg.spec_bytes(), BasicColor::Black),
{
    color_with_default(bg, BasicColor::Black)
}

/// The background and foreground colors of a cell, as a theme names them.
pub fn parse_color(bg: &str, fg: &str) -> (r: (ColorChoice, ColorChoice))
    ensures
        r.0 == color_named(bg@, bg.spec_bytes(), BasicColor::Black),
        r.1 == color_named(fg@, fg.spec_bytes(), BasicColor::White),
{
    (parse_bg_color(bg), parse_single_color(fg))
}


// ---------------------------------------------------------------------------
// Styling a table
// ---------------------------------------------------------------------------

/// The color text names, read as UTF-8 (`fallback` when it names none).
#[verifier::opaque]
pub open spec fn color_text(s: Seq<char>, fallback: BasicColor) -> ColorChoice {
    color_named(s, encode_utf8(s), fallback)
}

/// The text of an optional setting, or `d` when it is unset.
pub open spec fn text_or(o: Option<String>, d: Seq<char>) -> Seq<char> {
    match o {
        Some(s) => s@,
        None => d,
    }
}

/// The first character of a text, if it has one.
pub open spec fn first_char(s: Seq<char>) -> Option<char> {
    if s.len() > 0 {
        Some(s[0])
    } else {
        None
    }
}

/// The first character of a text, or a space for the empty text.
pub open spec fn first_or_space(s: Seq<char>) -> char {
    if s.len() > 0 {
        s[0]
    } else {
        ' '
    }
}

/// A foreground setting: the color it names, white when unset.
pub open spec fn fg_or_white(o: Option<String>) -> ColorChoice {
    match o {
        Some(s) => color_text(s@, BasicColor::White),
        None => ColorChoice::Basic(BasicColor::White),
    }
}

/// A background setting: the color it names, black when unset.
pub open spec fn bg_or_black(o: Option<String>) -> ColorChoice {
    match o {
        Some(s) => color_text(s@, BasicColor::Black),
        None => ColorChoice::Basic(BasicColor::Black),
    }
}

/// The rows a styling step applies to.
#[derive(Debug, Clone, Copy, PartialEq, Eq, Structural)]
pub enum Region {
    /// The first row (the title, when there is one).
    First,
    /// The second row (the header).
    Second,
    /// The last row (the footer, when there is one).
    Last,
    /// Every cell outside the flagged rows.
    AllBut { first: bool, second: bool, last: bool },
}

/// How a step colors cells: background and foreground together, or a background alone.
#[derive(Debug, Clone, Copy, PartialEq, Eq, Structural)]
pub enum Paint {
    Pair(ColorChoice, ColorChoice),
    Background(ColorChoice),
}

/// One styling step, applied in order after the row colors.
#[derive(Debug, Clone, Copy, PartialEq, Eq, Structural)]
pub enum TableStep {
    /// Color the cells of a region.
    Colors(Region, Paint),
    /// Fill the cells of a region with a character in a background color.
    Justify(Region, char, ColorChoice),
    /// Color the vertical separators of a region.
    Borders(Region, Paint),
}

/// All a theme does to a table: the separator character, the padding, the column
/// widths, the alternating row colors and the styling steps.
#[derive(Debug)]
pub struct TablePlan {
    pub vertical_char: Option<char>,
    pub padding: (usize, usize, usize, usize),
    pub column_widths: (usize, usize, usize),
    pub row_colors: Vec<(ColorChoice, ColorChoice)>,
    pub steps: Vec<TableStep>,
}

/// The background and foreground a pair of settings name.
pub open spec fn pair_paint(bg: Seq<char>, fg: Seq<char>) -> Paint {
    Paint::Pair(color_text(bg, BasicColor::Black), color_text(fg, BasicColor::White))
}

/// Whether the title row is styled.
pub open spec fn title_on(c: TableStyleConfig) -> bool {
    c.title is Some && c.title->0.enabled
}

/// Whether the footer row is styled.
pub open spec fn footer_on(c: TableStyleConfig) -> bool {
    c.footer is Some && c.footer->0.enabled
}

/// The separator character: the header's setting, else the style's, if non-empty.
pub open spec fn separator_char(c: TableStyleConfig) -> Option<char> {
    first_char(text_or(c.header.vertical_char, text_or(c.style.vertical_char, Seq::empty())))
}

/// The color of each alternating row.
pub open spec fn row_color_pairs(c: TableStyleConfig) -> Seq<(ColorChoice, ColorChoice)> {
    c.rows.colors@.map_values(
        |rc: RowColor| (color_text(rc.bg@, BasicColor::Black), color_text(rc.fg@, BasicColor::White)),
    )
}

/// Separator colors of a highlighted row: the row's own vertical settings, defaulting to
/// white on the row's background; the row's background alone when neither is set.
pub open spec fn row_border_paint(
    vfg: Option<String>,
    vbg: Option<String>,
    row_bg: Seq<char>,
) -> Paint {
    if vfg is Some || vbg is Some {
        Paint::Pair(color_text(text_or(vbg, row_bg), BasicColor::Black), fg_or_white(vfg))
    } else {
        Paint::Background(color_text(row_bg, BasicColor::Black))
    }
}

/// Colors, fill and separators of a highlighted row (title or footer), whose unset colors
/// and fill character default to the header's.
pub open spec fn banner_steps(
    at: Region,
    bg: Option<String>,
    fg: Option<String>,
    just: Option<String>,
    vfg: Option<String>,
    vbg: Option<String>,
    h: HeaderConfig,
) -> (Seq<TableStep>, TableStep) {
    let b = text_or(bg, h.bg_color@);
    let f = text_or(fg, h.fg_color@);
    (
        seq![
            TableStep::Colors(at, pair_paint(b, f)),
            TableStep::Justify(
                at,
                first_or_space(text_or(just, h.justification_char@)),
                color_text(b, BasicColor::Black),
            ),
        ],
        TableStep::Borders(at, row_border_paint(vfg, vbg, b)),
    )
}

/// The title's colors and fill, when the title is on.
pub open spec fn title_fill_steps(c: TableStyleConfig) -> Seq<TableStep> {
    if title_on(c) {
        let t = c.title->0;
        banner_steps(
            Region::First,
            t.bg_color,
            t.fg_color,
            t.justification_char,
            t.vertical_fg_color,
            t.vertical_bg_color,
            c.header,
        ).0
    } else {
        Seq::empty()
    }
}

/// The header's colors and fill.
pub open spec fn header_fill_steps(c: TableStyleConfig) -> Seq<TableStep> {
    seq![
        TableStep::Colors(Region::Second, pair_paint(c.header.bg_color@, c.header.fg_color@)),
        TableStep::Justify(
            Region::Second,
            first_or_space(c.header.justification_char@),
            color_text(c.header.bg_color@, BasicColor::Black),
        ),
    ]
}

/// The data rows' fill, when the rows set a fill character: every row but the first two
/// and, when the footer is on, the last, on the first row color's background.
pub open spec fn data_fill_steps(c: TableStyleConfig) -> Seq<TableStep> {
    match data_fill_step(c) {
        Some(step) => seq![step],
        None => Seq::empty(),
    }
}

/// The data rows' fill step, if any.
pub open spec fn data_fill_step(c: TableStyleConfig) -> Option<TableStep> {
    match first_char(text_or(c.rows.justification_char, Seq::empty())) {
        Some(ch) => Some(
            TableStep::Justify(
                Region::AllBut { first: true, second: true, last: footer_on(c) },
                ch,
                color_text(c.rows.colors@[0].bg@, BasicColor::Black),
            ),
        ),
        None => None,
    }
}

/// The data rows' separator colors, when the style sets either: white on black by
/// default, on every row but the first, the second when the title is on, and the last
/// when the footer is on.
pub open spec fn data_border_steps(c: TableStyleConfig) -> Seq<TableStep> {
    if c.style.vertical_fg_color is Some || c.style.vertical_bg_color is Some {
        seq![
            TableStep::Borders(
                Region::AllBut { first: true, second: title_on(c), last: footer_on(c) },
                Paint::Pair(bg_or_black(c.style.vertical_bg_color), fg_or_white(c.style.vertical_fg_color)),
            ),
        ]
    } else {
        Seq::empty()
    }
}

/// The title's separator colors, when the title is on.
pub open spec fn title_border_steps(c: TableStyleConfig) -> Seq<TableStep> {
    if title_on(c) {
        let t = c.title->0;
        seq![
            banner_steps(
                Region::First,
                t.bg_color,
                t.fg_color,
                t.justification_char,
                t.vertical_fg_color,
                t.vertical_bg_color,
                c.header,
            ).1,
        ]
    } else {
        Seq::empty()
    }
}

/// The header's separator colors.
pub open spec fn header_border_steps(c: TableStyleConfig) -> Seq<TableStep> {
    seq![
        TableStep::Borders(
            Region::Second,
            row_border_paint(
                c.header.vertical_fg_color,
                c.header.vertical_bg_color,
                c.header.bg_color@,
            ),
        ),
    ]
}

/// The footer's colors, fill and separators, when the footer is on.
pub open spec fn footer_steps(c: TableStyleConfig) -> Seq<TableStep> {
    if footer_on(c) {
        let f = c.footer->0;
        let b = banner_steps(
            Region::Last,
            f.bg_color,
            f.fg_color,
            f.justification_char,
            f.vertical_fg_color,
            f.vertical_bg_color,
            c.header,
        );
        b.0.push(b.1)
    } else {
        Seq::empty()
    }
}

/// Every styling step of a theme, in the order they are applied.
pub open spec fn styling_steps(c: TableStyleConfig) -> Seq<TableStep> {
    title_fill_steps(c) + header_fill_steps(c) + data_fill_steps(c) + data_border_steps(c)
        + title_border_steps(c) + header_border_steps(c) + footer_steps(c)
}

/// Whether styling with this theme completes without a panic: a fill character for the
/// data rows takes its background from the first row color, which must then exist.
pub open spec fn theme_readable(c: TableStyleConfig) -> bool {
    first_char(text_or(c.rows.justification_char, Seq::empty())) is Some ==> c.rows.colors@.len() > 0
}

fn text_color(s: &str, fallback: BasicColor) -> (r: ColorChoice)
    ensures
        r == color_text(s@, fallback),
{
    proof {
        reveal(color_text);
    }
    color_with_default(s, fallback)
}

fn first_char_of(s: &str) -> (r: Option<char>)
    ensures
        r == first_char(s@),
{
    let v = chars_of(s);
    if v.len() > 0 {
        Some(v[0])
    } else {
        None
    }
}

fn opt_first_char(o: &Option<String>, d: &str) -> (r: Option<char>)
    ensures
        r == first_char(text_or(*o, d@)),
{
    match o {
        Some(s) => first_char_of(s.as_str()),
        None => first_char_of(d),
    }
}

fn text_of<'a>(o: &'a Option<String>, d: &'a String) -> (r: &'a str)
    ensures
        r@ == text_or(*o, d@),
{
    match o {
        Some(s) => s.as_str(),
        None => d.as_str(),
    }
}

fn fg_setting(o: &Option<String>) -> (r: ColorChoice)
    ensures
        r == fg_or_white(*o),
{
    match o {
        Some(s) => text_color(s.as_str(), BasicColor::White),
        None => ColorChoice::Basic(BasicColor::White),
    }
}

fn bg_setting(o: &Option<String>) -> (r: ColorChoice)
    ensures
        r == bg_or_black(*o),
{
    match o {
        Some(s) => text_color(s.as_str(), BasicColor::Black),
        None => ColorChoice::Basic(BasicColor::Black),
    }
}

fn border_paint(vfg: &Option<String>, vbg: &Option<String>, row_bg: &str) -> (r: Paint)
    ensures
        r == row_border_paint(*vfg, *vbg, row_bg@),
{
    if vfg.is_some() || vbg.is_some() {
        let bg = match vbg {
            Some(s) => s.as_str(),
            None => row_bg,
        };
        Paint::Pair(text_color(bg, BasicColor::Black), fg_setting(vfg))
    } else {
        Paint::Background(text_color(row_bg, BasicColor::Black))
    }
}

fn banner(
    at: Region,
    bg: &Option<String>,
    fg: &Option<String>,
    just: &Option<String>,
    vfg: &Option<String>,
    vbg: &Option<String>,
    h: &HeaderConfig,
) -> (r: (TableStep, TableStep, TableStep))
    ensures
        ({
            let b = banner_steps(at, *bg, *fg, *just, *vfg, *vbg, *h);
            b.0 == seq![r.0, r.1] && b.1 == r.2
        }),
{
    let b = text_of(bg, &h.bg_color);
    let f = text_of(fg, &h.fg_color);
    let pair = (text_color(b, BasicColor::Black), text_color(f, BasicColor::White));
    let fill = match opt_first_char(just, h.justification_char.as_str()) {
        Some(ch) => ch,
        None => ' ',
    };
    let s0 = TableStep::Colors(at, Paint::Pair(pair.0, pair.1));
    let s1 = TableStep::Justify(at, fill, text_color(b, BasicColor::Black));
    let s2 = TableStep::Borders(at, border_paint(vfg, vbg, b));
    proof {
        let bs = banner_steps(at, *bg, *fg, *just, *vfg, *vbg, *h);
        assert(bs.0 =~= seq![s0, s1]);
    }
    (s0, s1, s2)
}

impl TableStyleConfig {
    /// Whether styling with this theme completes without a panic (`theme_readable`).
    pub fn theme_is_readable(&self) -> (b: bool)
        ensures
            b == theme_readable(*self),
    {
        let n = self.rows.colors.len();
        let empty = String::new();
        assert(empty@ =~= Seq::<char>::empty());
        match opt_first_char(&self.rows.justification_char, empty.as_str()) {
            Some(_) => n > 0,
            None => true,
        }
    }
}

fn row_colors_of(c: &TableStyleConfig) -> (r: Vec<(ColorChoice, ColorChoice)>)
    ensures
        r@ == row_color_pairs(*c),
{
    let mut row_colors: Vec<(ColorChoice, ColorChoice)> = Vec::new();
    let n = c.rows.colors.len();
    let mut i: usize = 0;
    while i < n
        invariant
            n == c.rows.colors@.len(),
            i <= n,
            row_colors@ == row_color_pairs(*c).take(i as int),
        decreases n - i,
    {
        let rc = &c.rows.colors[i];
        let pair = (
            text_color(rc.bg.as_str(), BasicColor::Black),
            text_color(rc.fg.as_str(), BasicColor::White),
        );
        row_colors.push(pair);
        i = i + 1;
        assert(row_colors@ =~= row_color_pairs(*c).take(i as int));
    }
    assert(row_colors@ =~= row_color_pairs(*c));
    row_colors
}

fn is_title_on(c: &TableStyleConfig) -> (b: bool)
    ensures
        b == title_on(*c),
{
    match &c.title {
        Some(t) => t.enabled,
        None => false,
    }
}

fn is_footer_on(c: &TableStyleConfig) -> (b: bool)
    ensures
        b == footer_on(*c),
{
    match &c.footer {
        Some(f) => f.enabled,
        None => false,
    }
}

fn title_banner(c: &TableStyleConfig) -> (r: (TableStep, TableStep, TableStep))
    requires
        title_on(*c),
    ensures
        title_fill_steps(*c) == seq![r.0, r.1],
        title_border_steps(*c) == seq![r.2],
{
    let t = c.title.as_ref().unwrap();
    banner(
        Region::First,
        &t.bg_color,
        &t.fg_color,
        &t.justification_char,
        &t.vertical_fg_color,
        &t.vertical_bg_color,
        &c.header,
    )
}

fn data_fill(c: &TableStyleConfig) -> (r: Option<TableStep>)
    requires
        first_char(text_or(c.rows.justification_char, Seq::empty())) is Some ==> c.rows.colors@.len()
            > 0,
    ensures
        r == data_fill_step(*c),
{
    let empty = String::new();
    assert(empty@ =~= Seq::<char>::empty());
    match opt_first_char(&c.rows.justification_char, empty.as_str()) {
        Some(ch) => {
            let data_bg = text_color(c.rows.colors[0].bg.as_str(), BasicColor::Black);
            Some(
                TableStep::Justify(
                    Region::AllBut { first: true, second: true, last: is_footer_on(c) },
                    ch,
                    data_bg,
                ),
            )
        },
        None => None,
    }
}

fn push_fill_steps(c: &TableStyleConfig, steps: &mut Vec<TableStep>)
    requires
        theme_readable(*c),
    ensures
        final(steps)@ == old(steps)@ + title_fill_steps(*c) + header_fill_steps(*c)
            + data_fill_steps(*c),
{
    let ghost start = steps@;
    if is_title_on(c) {
        let (s0, s1, _) = title_banner(c);
        steps.push(s0);
        steps.push(s1);
    }
    assert(steps@ =~= start + title_fill_steps(*c));
    let h = &c.header;
    let hp = (
        text_color(h.bg_color.as_str(), BasicColor::Black),
        text_color(h.fg_color.as_str(), BasicColor::White),
    );
    steps.push(TableStep::Colors(Region::Second, Paint::Pair(hp.0, hp.1)));
    let hfill = match first_char_of(h.justification_char.as_str()) {
        Some(ch) => ch,
        None => ' ',
    };
    steps.push(TableStep::Justify(Region::Second, hfill, text_color(h.bg_color.as_str(), BasicColor::Black)));
    assert(steps@ =~= start + title_fill_steps(*c) + header_fill_steps(*c));
    match data_fill(c) {
        Some(step) => steps.push(step),
        None => {},
    }
    assert(steps@ =~= start + title_fill_steps(*c) + header_fill_steps(*c) + data_fill_steps(*c));
}

fn push_border_steps(c: &TableStyleConfig, steps: &mut Vec<TableStep>)
    requires
        theme_readable(*c),
    ensures
        final(steps)@ == old(steps)@ + data_border_steps(*c) + title_border_steps(*c)
            + header_border_steps(*c),
{
    let ghost start = steps@;
    if c.style.vertical_fg_color.is_some() || c.style.vertical_bg_color.is_some() {
        let fg = fg_setting(&c.style.vertical_fg_color);
        let bg = bg_setting(&c.style.vertical_bg_color);
        steps.push(
            TableStep::Borders(
                Region::AllBut { first: true, second: is_title_on(c), last: is_footer_on(c) },
                Paint::Pair(bg, fg),
            ),
        );
    }
    assert(steps@ =~= start + data_border_steps(*c));
    if is_title_on(c) {
        let (_, _, s2) = title_banner(c);
        steps.push(s2);
    }
    assert(steps@ =~= start + data_border_steps(*c) + title_border_steps(*c));
    let h = &c.header;
    let hb = border_paint(&h.vertical_fg_color, &h.vertical_bg_color, h.bg_color.as_str());
    steps.push(TableStep::Borders(Region::Second, hb));
    assert(steps@ =~= start + data_border_steps(*c) + title_border_steps(*c) + header_border_steps(
        *c,
    ));
}

fn push_footer_steps(c: &TableStyleConfig, steps: &mut Vec<TableStep>)
    requires
        theme_readable(*c),
    ensures
        final(steps)@ == old(steps)@ + footer_steps(*c),
{
    let ghost start = steps@;
    if is_footer_on(c) {
        let f = c.footer.as_ref().unwrap();
        let (s0, s1, s2) = banner(
            Region::Last,
            &f.bg_color,
            &f.fg_color,
            &f.justification_char,
            &f.vertical_fg_color,
            &f.vertical_bg_color,
            &c.header,
        );
        steps.push(s0);
        steps.push(s1);
        steps.push(s2);
    }
    assert(steps@ =~= start + footer_steps(*c));
}

impl TableStyleConfig {
    /// What the theme does to a table, in order: the separator character (the header's
    /// setting, else the style's), the padding, the column widths, the alternating row
    /// colors, then the title, header, data-row, separator and footer styling of
    /// `styling_steps`.
    pub fn styling_plan(&self) -> (plan: TablePlan)
        requires
            theme_readable(*self),
        ensures
            plan.vertical_char == separator_char(*self),
            plan.padding == (
                self.table.padding_left,
                self.table.padding_right,
                self.table.padding_top,
                self.table.padding_bottom,
            ),
            plan.column_widths == (10usize, 75usize, 15usize),
            plan.row_colors@ == row_color_pairs(*self),
            plan.steps@ == styling_steps(*self),
    {
        let empty = String::new();
        assert(empty@ =~= Seq::<char>::empty());
        let vertical_char = match &self.header.vertical_char {
            Some(s) => first_char_of(s.as_str()),
            None => opt_first_char(&self.style.vertical_char, empty.as_str()),
        };
        let row_colors = row_colors_of(self);
        let mut steps: Vec<TableStep> = Vec::new();
        push_fill_steps(self, &mut steps);
        push_border_steps(self, &mut steps);
        push_footer_steps(self, &mut steps);
        assert(steps@ =~= styling_steps(*self));
        TablePlan {
            vertical_char,
            padding: (
                self.table.padding_left,
                self.table.padding_right,
                self.table.padding_top,
                self.table.padding_bottom,
            ),
            column_widths: (10, 75, 15),
            row_colors,
            steps,
        }
    }
}

} // verus!
