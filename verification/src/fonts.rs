//! The bitmap font and the route icons.
//!
//! A glyph is a list of row integers in which bit `i`, counted from the least
//! significant, is the pixel of column `i`. An icon row is read the other way
//! round: the pixel of column `x` is bit `width - 1 - x`. The two orders are
//! part of the asset format and are kept apart on purpose.

use std::collections::HashMap;
use vstd::prelude::*;
use vstd::string::*;
use crate::colors::{hex_to_rgb, hex_to_rgb_spec, Rgb};
use crate::text::str_eq;

verus! {

broadcast use vstd::std_specs::hash::group_hash_axioms;

/// Rows of a glyph.
pub const FONT_HEIGHT: usize = 16;

/// Width of the space character and of a character that the font lacks.
pub const DEFAULT_CHAR_WIDTH: usize = 4;

/// No row is wider than the integer that holds it.
pub const MAX_GLYPH_WIDTH: usize = 64;

/// A decoded glyph: one list of pixels per row, `true` where a pixel is lit.
/// Rows are as wide as their highest set bit and so differ in length.
pub type CharBitmap = Vec<Vec<bool>>;

/// One pixel of an icon: red, green, blue and alpha.
pub type IconPixel = (u8, u8, u8, u8);

/// A decoded route icon.
#[derive(Debug)]
pub struct RouteIcon {
    /// Row-major pixels.
    pub pixels: Vec<Vec<IconPixel>>,
    pub width: usize,
    pub height: usize,
    /// Rows by which the icon is raised so that it sits on the text baseline.
    pub baseline_offset: i32,
    pub color: Rgb,
}

/// What the icon metadata says of one icon.
#[derive(Debug)]
pub struct IconMeta {
    pub name: String,
    pub width: usize,
    pub height: usize,
    pub baseline_offset: i32,
    /// A hex colour string.
    pub color: String,
}

/// One entry of the font asset: the rows stored under a key. The key of a
/// glyph is its character code in decimal, the key of an icon is its name.
#[derive(Debug)]
pub struct AssetRows {
    pub key: String,
    pub rows: Vec<u64>,
}

/// The mathematical value of a [`RouteIcon`].
pub struct RouteIconView {
    pub pixels: Seq<Seq<IconPixel>>,
    pub width: nat,
    pub height: nat,
    pub baseline_offset: int,
    pub color: Rgb,
}

impl View for RouteIcon {
    type V = RouteIconView;

    open spec fn view(&self) -> RouteIconView {
        RouteIconView {
            pixels: Seq::new(self.pixels@.len(), |r: int| self.pixels@[r]@),
            width: self.width as nat,
            height: self.height as nat,
            baseline_offset: self.baseline_offset as int,
            color: self.color,
        }
    }
}

/// The mathematical value of a [`CharBitmap`].
pub open spec fn bitmap_view(bitmap: &CharBitmap) -> Seq<Seq<bool>> {
    Seq::new(bitmap@.len(), |r: int| bitmap@[r]@)
}

// ---------------------------------------------------------------------
// Glyph rows
// ---------------------------------------------------------------------

/// Whether bit `i` of a row is set.
pub open spec fn bit_at(row: u64, i: int) -> bool {
    0 <= i < 64 && row & (1u64 << (i as u64)) != 0
}

/// Pixels in a glyph row: up to the highest set bit, one for an empty row.
pub open spec fn row_width(row: u64) -> nat {
    if row > 0 {
        (64 - vstd::std_specs::bits::u64_leading_zeros(row)) as nat
    } else {
        1
    }
}

/// A glyph row decoded from the least significant bit upwards.
pub open spec fn decode_row(row: u64) -> Seq<bool> {
    Seq::new(row_width(row), |i: int| bit_at(row, i))
}

/// A glyph decoded row by row.
pub open spec fn decode_glyph(rows: Seq<u64>) -> Seq<Seq<bool>> {
    Seq::new(rows.len(), |r: int| decode_row(rows[r]))
}

/// Row `y` of the italic variant of a glyph: every row moves one column to
/// the right to make room, and the rows of the upper half one column more.
pub open spec fn italic_row(y: int, row: u64) -> u64 {
    if y < 8 {
        row << 2u64
    } else {
        row << 1u64
    }
}

/// The italic variant of a glyph.
pub open spec fn italic_rows(rows: Seq<u64>) -> Seq<u64> {
    Seq::new(rows.len(), |y: int| italic_row(y, rows[y]))
}

/// The widest row of a glyph, zero for a glyph without rows.
pub open spec fn max_row_width(rows: Seq<u64>) -> nat
    decreases rows.len(),
{
    if rows.len() == 0 {
        0
    } else {
        let rest = max_row_width(rows.drop_last());
        if row_width(rows.last()) > rest {
            row_width(rows.last())
        } else {
            rest
        }
    }
}

/// The column of the first lit pixel of a row at or after column `from`.
pub open spec fn first_lit_from(row: u64, from: int) -> Option<int>
    decreases 64 - from,
{
    if from < 0 || from >= 64 {
        None
    } else if bit_at(row, from) {
        Some(from)
    } else {
        first_lit_from(row, from + 1)
    }
}

/// The least first-lit column over the rows of a glyph, `None` where no row
/// has a lit pixel.
pub open spec fn min_first_lit(rows: Seq<u64>) -> Option<int>
    decreases rows.len(),
{
    if rows.len() == 0 {
        None
    } else {
        let rest = min_first_lit(rows.drop_last());
        match (first_lit_from(rows.last(), 0), rest) {
            (Some(c), Some(m)) => Some(if c < m { c } else { m }),
            (Some(c), None) => Some(c),
            (None, r) => r,
        }
    }
}

/// Every row is from 1 to 64 pixels wide.
pub proof fn lemma_row_width_bounds(row: u64)
    ensures
        1 <= row_width(row) <= 64,
{
    vstd::std_specs::bits::axiom_u64_leading_zeros(row);
}

/// No glyph is wider than 64 pixels, and one with rows is at least one
/// pixel wide.
pub proof fn lemma_max_row_width_bounds(rows: Seq<u64>)
    ensures
        max_row_width(rows) <= 64,
        rows.len() > 0 ==> max_row_width(rows) >= 1,
    decreases rows.len(),
{
    if rows.len() > 0 {
        lemma_row_width_bounds(rows.last());
        lemma_max_row_width_bounds(rows.drop_last());
    }
}

/// The width of a glyph row in pixels.
pub fn glyph_row_width(row: u64) -> (w: usize)
    ensures
        w == row_width(row),
        1 <= w <= MAX_GLYPH_WIDTH,
{
    proof {
        lemma_row_width_bounds(row);
    }
    if row > 0 {
        64 - row.leading_zeros() as usize
    } else {
        1
    }
}

/// Decodes one glyph row, least significant bit first.
pub fn decode_glyph_row(row: u64) -> (bits: Vec<bool>)
    ensures
        bits@ == decode_row(row),
{
    let width = glyph_row_width(row);
    let mut bits: Vec<bool> = Vec::with_capacity(width);
    let mut i: usize = 0;
    while i < width
        invariant
            i <= width <= 64,
            width == row_width(row),
            bits@.len() == i,
            forall|j: int| 0 <= j < i ==> bits@[j] == bit_at(row, j),
        decreases width - i,
    {
        bits.push(row & (1u64 << (i as u64)) != 0);
        i += 1;
    }
    assert(bits@ =~= decode_row(row));
    bits
}

/// Builds the italic variant of a glyph by shifting its rows.
pub fn generate_italic(rows: &Vec<u64>) -> (italic: Vec<u64>)
    ensures
        italic@ == italic_rows(rows@),
{
    let midpoint = FONT_HEIGHT / 2;
    let mut italic: Vec<u64> = Vec::with_capacity(rows.len());
    let mut y: usize = 0;
    while y < rows.len()
        invariant
            y <= rows@.len(),
            midpoint == 8,
            italic@.len() == y,
            forall|j: int| 0 <= j < y ==> italic@[j] == italic_row(j, rows@[j]),
        decreases rows@.len() - y,
    {
        let shifted = if y < midpoint {
            rows[y] << 2u64
        } else {
            rows[y] << 1u64
        };
        italic.push(shifted);
        y += 1;
    }
    assert(italic@ =~= italic_rows(rows@));
    italic
}

// ---------------------------------------------------------------------
// The font
// ---------------------------------------------------------------------

/// An icon with the name it is looked up by.
#[derive(Debug)]
pub struct NamedIcon {
    pub name: String,
    pub icon: RouteIcon,
}

/// The font: glyph rows by character code, their italic variants, and the
/// route icons by name.
pub struct MtaFont {
    chars: HashMap<u32, Vec<u64>>,
    italic_chars: HashMap<u32, Vec<u64>>,
    route_icons: Vec<NamedIcon>,
}

/// The mathematical value of an [`MtaFont`].
pub struct FontView {
    /// Regular glyph rows by character code.
    pub glyphs: Map<u32, Seq<u64>>,
    /// Italic glyph rows by character code.
    pub italic: Map<u32, Seq<u64>>,
    /// The icons in table order, each with its name.
    pub icons: Seq<(Seq<char>, RouteIconView)>,
}

/// An icon whose pixel grid has the declared size and whose rows fit in one
/// row integer.
pub open spec fn icon_wf(icon: RouteIconView) -> bool {
    &&& icon.width <= 64
    &&& icon.pixels.len() == icon.height
    &&& forall|r: int| 0 <= r < icon.pixels.len() ==> (#[trigger] icon.pixels[r]).len() == icon.width
}

/// The name under which the icon of a route is stored.
pub open spec fn icon_name(route: Seq<char>, diamond: bool) -> Seq<char> {
    "ROUTE_"@ + route + (if diamond {
        "_DIAMOND"@
    } else {
        "_CIRCLE"@
    })
}

/// The index of the first icon stored under `name`.
pub open spec fn find_name(icons: Seq<(Seq<char>, RouteIconView)>, name: Seq<char>) -> Option<int>
    decreases icons.len(),
{
    if icons.len() == 0 {
        None
    } else {
        match find_name(icons.drop_last(), name) {
            Some(i) => Some(i),
            None => if icons.last().0 == name {
                Some(icons.len() - 1)
            } else {
                None
            },
        }
    }
}

/// What is found under a name is the first icon of that name.
pub proof fn lemma_find_name(icons: Seq<(Seq<char>, RouteIconView)>, name: Seq<char>)
    ensures
        match find_name(icons, name) {
            Some(i) => 0 <= i < icons.len() && icons[i].0 == name && forall|j: int|
                0 <= j < i ==> (#[trigger] icons[j]).0 != name,
            None => forall|j: int| 0 <= j < icons.len() ==> (#[trigger] icons[j]).0 != name,
        },
    decreases icons.len(),
{
    if icons.len() > 0 {
        let front = icons.drop_last();
        lemma_find_name(front, name);
        assert(forall|j: int| 0 <= j < front.len() ==> front[j] == icons[j]);
        match find_name(front, name) {
            Some(i) => {
                assert(front[i] == icons[i]);
                assert forall|j: int| 0 <= j < i implies (#[trigger] icons[j]).0 != name by {
                    assert(front[j] == icons[j]);
                }
            },
            None => {
                assert forall|j: int| 0 <= j < front.len() implies (#[trigger] icons[j]).0
                    != name by {
                    assert(front[j] == icons[j]);
                }
            },
        }
    }
}

/// A name found in a prefix of the table is found at the same place in the
/// whole table.
pub proof fn lemma_find_name_extends(
    icons: Seq<(Seq<char>, RouteIconView)>,
    name: Seq<char>,
    k: int,
)
    requires
        0 <= k <= icons.len(),
        find_name(icons.take(k), name) is Some,
    ensures
        find_name(icons, name) == find_name(icons.take(k), name),
    decreases icons.len() - k,
{
    if k < icons.len() {
        assert(icons.take(k + 1).drop_last() =~= icons.take(k));
        lemma_find_name_extends(icons, name, k + 1);
    } else {
        assert(icons.take(k) =~= icons);
    }
}

impl FontView {
    /// Icons are well formed and no name occurs twice; each italic glyph is
    /// the shifted regular glyph.
    pub open spec fn wf(self) -> bool {
        &&& forall|c: u32| self.italic.contains_key(c) <==> self.glyphs.contains_key(c)
        &&& forall|c: u32| #[trigger]
            self.glyphs.contains_key(c) ==> self.italic[c] == italic_rows(self.glyphs[c])
        &&& forall|i: int| 0 <= i < self.icons.len() ==> icon_wf((#[trigger] self.icons[i]).1)
        &&& forall|i: int, j: int|
            0 <= i < j < self.icons.len() ==> (#[trigger] self.icons[i]).0 != (
            #[trigger] self.icons[j]).0
    }

    /// The rows from which a character is drawn: the italic rows where
    /// italic is asked for and the font has them, else the regular rows,
    /// else none.
    pub open spec fn glyph_rows(self, ch: char, italic: bool) -> Option<Seq<u64>> {
        let code = ch as u32;
        if italic && self.italic.contains_key(code) {
            Some(self.italic[code])
        } else if self.glyphs.contains_key(code) {
            Some(self.glyphs[code])
        } else {
            None
        }
    }

    /// The bitmap of a character.
    pub open spec fn char_bitmap(self, ch: char, italic: bool) -> Option<Seq<Seq<bool>>> {
        match self.glyph_rows(ch, italic) {
            Some(rows) => Some(decode_glyph(rows)),
            None => None,
        }
    }

    /// The width by which a character advances the cursor: 4 for a space,
    /// for a character that the font lacks and for a glyph without rows,
    /// else the width of the glyph's widest row.
    pub open spec fn char_width(self, ch: char, italic: bool) -> nat {
        if ch == ' ' {
            4
        } else {
            match self.glyph_rows(ch, italic) {
                Some(rows) => if rows.len() == 0 {
                    4
                } else {
                    max_row_width(rows)
                },
                None => 4,
            }
        }
    }

    /// Empty columns to the left of a character's first lit pixel, zero for
    /// a character that is missing or has no lit pixel.
    pub open spec fn char_left_padding(self, ch: char, italic: bool) -> nat {
        match self.glyph_rows(ch, italic) {
            Some(rows) => match min_first_lit(rows) {
                Some(c) => c as nat,
                None => 0,
            },
            None => 0,
        }
    }

    /// The widths of the characters of a text added up.
    pub open spec fn sum_widths(self, text: Seq<char>, italic: bool) -> nat
        decreases text.len(),
    {
        if text.len() == 0 {
            0
        } else {
            self.sum_widths(text.drop_last(), italic) + self.char_width(text.last(), italic)
        }
    }

    /// The width of a text: the character widths plus the spacing between
    /// each two neighbours, never below zero.
    pub open spec fn text_width(self, text: Seq<char>, spacing: int, italic: bool) -> nat {
        if text.len() == 0 {
            0
        } else {
            let total = self.sum_widths(text, italic) + spacing * (text.len() - 1);
            if total < 0 {
                0
            } else {
                total as nat
            }
        }
    }

    /// The icon drawn for a route: the diamond for express service where the
    /// font has one, else the circle; for local service the circle only.
    pub open spec fn route_icon_index(self, route: Seq<char>, is_express: bool) -> Option<int> {
        match find_name(self.icons, icon_name(route, is_express)) {
            Some(i) => Some(i),
            None => if is_express {
                find_name(self.icons, icon_name(route, false))
            } else {
                None
            },
        }
    }

    /// The icon drawn for a route, as a value.
    pub open spec fn route_icon(self, route: Seq<char>, is_express: bool) -> Option<RouteIconView> {
        match self.route_icon_index(route, is_express) {
            Some(i) => Some(self.icons[i].1),
            None => None,
        }
    }
}

/// A text of `chars` characters drawn with `spacing` stays within the
/// coordinates of a 32-bit canvas, whatever its glyphs.
pub open spec fn text_extent_fits(chars: nat, spacing: int) -> bool {
    chars * (64 + if spacing < 0 { -spacing } else { spacing }) <= i32::MAX
}

/// Every character is from 1 to 64 pixels wide.
pub proof fn lemma_char_width_bounds(font: FontView, ch: char, italic: bool)
    ensures
        1 <= font.char_width(ch, italic) <= 64,
{
    match font.glyph_rows(ch, italic) {
        Some(rows) => lemma_max_row_width_bounds(rows),
        None => {},
    }
}

/// The widths of a text add up to from 1 to 64 pixels for each
/// character.
pub proof fn lemma_sum_widths_bounds(font: FontView, text: Seq<char>, italic: bool)
    ensures
        text.len() <= font.sum_widths(text, italic) <= 64 * text.len(),
    decreases text.len(),
{
    if text.len() > 0 {
        lemma_sum_widths_bounds(font, text.drop_last(), italic);
        lemma_char_width_bounds(font, text.last(), italic);
    }
}

/// A text of up to a mebibyte of characters fits with the spacing of -1.
pub proof fn lemma_short_text_fits(chars: nat)
    requires
        chars <= 0x10_0000,
    ensures
        text_extent_fits(chars, -1),
{
    assert(chars * 65 <= i32::MAX);
}

/// A shorter text fits where a longer one does.
pub proof fn lemma_extent_of_prefix(chars: nat, spacing: int, k: nat)
    requires
        text_extent_fits(chars, spacing),
        k <= chars,
    ensures
        text_extent_fits(k, spacing),
{
    let a: int = if spacing < 0 { -spacing } else { spacing };
    assert(k * (64 + a) <= chars * (64 + a)) by (nonlinear_arith)
        requires
            k <= chars,
            a >= 0,
    ;
}

/// What [`text_extent_fits`] gives in linear form.
pub proof fn lemma_text_extent(chars: nat, spacing: int, k: nat)
    requires
        text_extent_fits(chars, spacing),
        k <= chars,
    ensures
        64 * chars <= i32::MAX,
        -(i32::MAX as int) <= spacing * k <= i32::MAX,
        -(i32::MAX as int) <= 64 * chars + spacing * k <= i32::MAX,
{
    let a: int = if spacing < 0 { -spacing } else { spacing };
    assert(chars * (64 + a) == 64 * chars + a * chars) by (nonlinear_arith);
    assert(0 <= a * k <= a * chars) by (nonlinear_arith)
        requires
            a >= 0,
            0 <= k <= chars,
    ;
    assert(spacing * k == a * k || spacing * k == -(a * k)) by (nonlinear_arith)
        requires
            a == spacing || a == -spacing,
    ;
}

/// The rows of each glyph of a map, as values.
pub open spec fn rows_map(m: Map<u32, Vec<u64>>) -> Map<u32, Seq<u64>> {
    Map::new(|c: u32| m.contains_key(c), |c: u32| m[c]@)
}

/// The icons of a list with their names, as values.
pub open spec fn icons_view(icons: Seq<NamedIcon>) -> Seq<(Seq<char>, RouteIconView)> {
    Seq::new(icons.len(), |i: int| (icons[i].name@, icons[i].icon@))
}

/// A text of one character is as wide as that character, whatever the
/// spacing.
pub proof fn lemma_single_char_width(font: FontView, ch: char, spacing: int, italic: bool)
    ensures
        font.text_width(seq![ch], spacing, italic) == font.char_width(ch, italic),
{
    let text = seq![ch];
    assert(text.drop_last() =~= Seq::<char>::empty());
    assert(font.sum_widths(text.drop_last(), italic) == 0);
    assert(font.sum_widths(text, italic) == font.char_width(ch, italic));
    assert(spacing * 0 == 0);
}

/// A text of two characters is as wide as the two characters and the
/// spacing between them, where that sum is not negative.
pub proof fn lemma_two_char_width(font: FontView, a: char, b: char, spacing: int, italic: bool)
    requires
        font.char_width(a, italic) + font.char_width(b, italic) + spacing >= 0,
    ensures
        font.text_width(seq![a, b], spacing, italic) == font.char_width(a, italic)
            + font.char_width(b, italic) + spacing,
{
    let text = seq![a, b];
    assert(text.drop_last() =~= seq![a]);
    assert(seq![a].drop_last() =~= Seq::<char>::empty());
    assert(font.sum_widths(seq![a].drop_last(), italic) == 0);
    assert(font.sum_widths(seq![a], italic) == font.char_width(a, italic));
    assert(font.sum_widths(text, italic) == font.char_width(a, italic) + font.char_width(
        b,
        italic,
    ));
    assert(spacing * 1 == spacing);
}

/// The empty text has no width, whatever the spacing and the style.
pub proof fn lemma_empty_text_width(font: FontView, spacing: int, italic: bool)
    ensures
        font.text_width(Seq::<char>::empty(), spacing, italic) == 0,
{
}

impl View for MtaFont {
    type V = FontView;

    closed spec fn view(&self) -> FontView {
        FontView {
            glyphs: rows_map(self.chars@),
            italic: rows_map(self.italic_chars@),
            icons: icons_view(self.route_icons@),
        }
    }
}

/// The index of the first icon of a list stored under `name`.
fn find_icon_in(icons: &Vec<NamedIcon>, name: &str) -> (r: Option<usize>)
    ensures
        match r {
            Some(i) => find_name(icons_view(icons@), name@) == Some(i as int) && i < icons@.len(),
            None => find_name(icons_view(icons@), name@) is None,
        },
{
    let ghost all = icons_view(icons@);
    let mut i: usize = 0;
    while i < icons.len()
        invariant
            i <= icons@.len(),
            all == icons_view(icons@),
            find_name(all.take(i as int), name@) is None,
        decreases icons@.len() - i,
    {
        assert(all.take(i + 1).drop_last() =~= all.take(i as int));
        if str_eq(icons[i].name.as_str(), name) {
            proof {
                lemma_find_name_extends(all, name@, i + 1);
            }
            return Some(i);
        }
        i += 1;
    }
    assert(all.take(i as int) =~= all);
    None
}

impl MtaFont {
    /// The rows from which a character is drawn.
    fn rows_of(&self, ch: char, italic: bool) -> (r: Option<&Vec<u64>>)
        ensures
            match r {
                Some(rows) => self@.glyph_rows(ch, italic) == Some(rows@),
                None => self@.glyph_rows(ch, italic) is None,
            },
    {
        let code = ch as u32;
        if italic {
            match self.italic_chars.get(&code) {
                Some(rows) => {
                    return Some(rows);
                },
                None => {},
            }
        }
        self.chars.get(&code)
    }

    /// The bitmap of a character, decoded from the least significant bit of
    /// each row. `None` where the font lacks the character.
    pub fn get_char_bitmap(&self, ch: char, italic: bool) -> (r: Option<CharBitmap>)
        ensures
            match r {
                Some(bitmap) => self@.char_bitmap(ch, italic) == Some(bitmap_view(&bitmap)),
                None => self@.char_bitmap(ch, italic) is None,
            },
    {
        let rows = match self.rows_of(ch, italic) {
            Some(rows) => rows,
            None => {
                return None;
            },
        };
        let mut bitmap: Vec<Vec<bool>> = Vec::with_capacity(rows.len());
        let mut r: usize = 0;
        while r < rows.len()
            invariant
                r <= rows@.len(),
                bitmap@.len() == r,
                forall|j: int| 0 <= j < r ==> (#[trigger] bitmap@[j])@ == decode_row(rows@[j]),
            decreases rows@.len() - r,
        {
            bitmap.push(decode_glyph_row(rows[r]));
            r += 1;
        }
        assert(bitmap_view(&bitmap) =~= decode_glyph(rows@));
        Some(bitmap)
    }

    /// The width of a character in pixels.
    pub fn get_char_width(&self, ch: char, italic: bool) -> (w: usize)
        ensures
            w == self@.char_width(ch, italic),
            1 <= w <= 64,
    {
        proof {
            lemma_char_width_bounds(self@, ch, italic);
        }
        if ch == ' ' {
            return DEFAULT_CHAR_WIDTH;
        }
        let rows = match self.rows_of(ch, italic) {
            Some(rows) => rows,
            None => {
                return DEFAULT_CHAR_WIDTH;
            },
        };
        if rows.len() == 0 {
            return DEFAULT_CHAR_WIDTH;
        }
        let mut widest: usize = 0;
        let mut r: usize = 0;
        while r < rows.len()
            invariant
                r <= rows@.len(),
                widest == max_row_width(rows@.take(r as int)),
            decreases rows@.len() - r,
        {
            assert(rows@.take(r + 1).drop_last() =~= rows@.take(r as int));
            let w = glyph_row_width(rows[r]);
            if w > widest {
                widest = w;
            }
            r += 1;
        }
        assert(rows@.take(r as int) =~= rows@);
        widest
    }

    /// Empty columns to the left of a character's first lit pixel.
    pub fn get_char_left_padding(&self, ch: char, italic: bool) -> (p: usize)
        ensures
            p == self@.char_left_padding(ch, italic),
    {
        let rows = match self.rows_of(ch, italic) {
            Some(rows) => rows,
            None => {
                return 0;
            },
        };
        let mut leftmost: Option<usize> = None;
        let mut r: usize = 0;
        while r < rows.len()
            invariant
                r <= rows@.len(),
                match leftmost {
                    Some(m) => min_first_lit(rows@.take(r as int)) == Some(m as int) && m < 64,
                    None => min_first_lit(rows@.take(r as int)) is None,
                },
            decreases rows@.len() - r,
        {
            assert(rows@.take(r + 1).drop_last() =~= rows@.take(r as int));
            let row = rows[r];
            let mut col: usize = 0;
            let mut found: Option<usize> = None;
            while col < 64 && found.is_none()
                invariant
                    col <= 64,
                    match found {
                        Some(c) => first_lit_from(row, 0) == Some(c as int) && c < 64,
                        None => first_lit_from(row, 0) == first_lit_from(row, col as int),
                    },
                decreases 64 - col + (if found is None { 1int } else { 0int }),
            {
                if row & (1u64 << (col as u64)) != 0 {
                    found = Some(col);
                } else {
                    col += 1;
                }
            }
            match (found, leftmost) {
                (Some(c), Some(m)) => {
                    if c < m {
                        leftmost = Some(c);
                    }
                },
                (Some(c), None) => {
                    leftmost = Some(c);
                },
                (None, _) => {},
            }
            r += 1;
        }
        assert(rows@.take(r as int) =~= rows@);
        match leftmost {
            Some(m) => m,
            None => 0,
        }
    }

    /// The width of a text in pixels.
    pub fn measure_text(&self, text: &str, spacing: i32, italic: bool) -> (w: usize)
        requires
            text_extent_fits(text@.len(), spacing as int),
        ensures
            w == self@.text_width(text@, spacing as int, italic),
            text@.len() == 0 ==> w == 0,
            w <= i32::MAX,
    {
        let count = text.unicode_len();
        if count == 0 {
            return 0;
        }
        proof {
            lemma_text_extent(text@.len(), spacing as int, (text@.len() - 1) as nat);
        }
        let ghost gap: int = (spacing as int) * (text@.len() - 1);
        let mut total: i64 = 0;
        for ch in it: text.chars()
            invariant
                it.seq() == text@,
                count == text@.len(),
                64 * count <= i32::MAX,
                total == self@.sum_widths(text@.take(it.index() as int), italic),
                0 <= total <= 64 * it.index(),
        {
            proof {
                let i = it.index() as int;
                assert(text@.take(i + 1).drop_last() =~= text@.take(i));
                assert(text@.take(i + 1).last() == text@[i]);
            }
            let w = self.get_char_width(ch, italic);
            total = total + w as i64;
        }
        assert(text@.take(text@.len() as int) =~= text@);
        if count > 1 {
            let between: i64 = count as i64 - 1;
            assert((spacing as i64) * between == gap);
            total = total + (spacing as i64) * between;
        } else {
            assert(gap == 0) by (nonlinear_arith)
                requires
                    gap == (spacing as int) * (text@.len() - 1),
                    text@.len() == 1,
            ;
        }
        assert(total == self@.sum_widths(text@, italic) + gap);
        if total < 0 {
            0
        } else {
            total as usize
        }
    }

    /// The index of the first icon stored under `name`.
    fn find_icon(&self, name: &str) -> (r: Option<usize>)
        ensures
            match r {
                Some(i) => find_name(self@.icons, name@) == Some(i as int) && i
                    < self.route_icons@.len(),
                None => find_name(self@.icons, name@) is None,
            },
    {
        find_icon_in(&self.route_icons, name)
    }

    /// The icon of a route: the diamond for express service, the circle for
    /// local service. An express route without a diamond gets its circle.
    pub fn get_route_icon(&self, route: &str, is_express: bool) -> (r: Option<&RouteIcon>)
        ensures
            match r {
                Some(icon) => self@.route_icon(route@, is_express) == Some(icon@),
                None => self@.route_icon(route@, is_express) is None,
            },
    {
        let mut name = String::from_str("ROUTE_");
        name.append(route);
        name.append(if is_express { "_DIAMOND" } else { "_CIRCLE" });
        assert(name@ == icon_name(route@, is_express));
        match self.find_icon(name.as_str()) {
            Some(i) => Some(&self.route_icons[i].icon),
            None => {
                if is_express {
                    let mut fallback = String::from_str("ROUTE_");
                    fallback.append(route);
                    fallback.append("_CIRCLE");
                    assert(fallback@ == icon_name(route@, false));
                    match self.find_icon(fallback.as_str()) {
                        Some(i) => Some(&self.route_icons[i].icon),
                        None => None,
                    }
                } else {
                    None
                }
            },
        }
    }

    /// Whether the font has a glyph for a character.
    pub fn has_char(&self, ch: char) -> (r: bool)
        ensures
            r == self@.glyphs.contains_key(ch as u32),
    {
        let code = ch as u32;
        self.chars.contains_key(&code)
    }

    /// The names of all icons, in table order.
    pub fn icon_names(&self) -> (names: Vec<&String>)
        ensures
            names@.len() == self@.icons.len(),
            forall|i: int| 0 <= i < names@.len() ==> (#[trigger] names@[i])@ == self@.icons[i].0,
    {
        let mut names: Vec<&String> = Vec::with_capacity(self.route_icons.len());
        let mut i: usize = 0;
        while i < self.route_icons.len()
            invariant
                i <= self.route_icons@.len(),
                self@.icons.len() == self.route_icons@.len(),
                names@.len() == i,
                forall|j: int| 0 <= j < i ==> (#[trigger] names@[j])@ == self@.icons[j].0,
            decreases self.route_icons@.len() - i,
        {
            names.push(&self.route_icons[i].name);
            i += 1;
        }
        names
    }
}

// ---------------------------------------------------------------------
// Building the font from its asset tables
// ---------------------------------------------------------------------

/// The value of a decimal digit.
pub open spec fn digit_value(b: u8) -> Option<nat> {
    if 0x30 <= b <= 0x39 {
        Some((b - 0x30) as nat)
    } else {
        None
    }
}

/// The number that a run of decimal digits stands for, `None` where a byte
/// is no digit.
pub open spec fn decimal_value(bytes: Seq<u8>) -> Option<nat>
    decreases bytes.len(),
{
    if bytes.len() == 0 {
        Some(0)
    } else {
        match (decimal_value(bytes.drop_last()), digit_value(bytes.last())) {
            (Some(v), Some(d)) => Some(v * 10 + d),
            _ => None,
        }
    }
}

/// A key read as a 32-bit unsigned number: an optional plus sign, then at
/// least one digit and nothing else, and a value that fits.
pub open spec fn parse_u32(bytes: Seq<u8>) -> Option<u32> {
    let digits = if bytes.len() > 0 && bytes[0] == 0x2B {
        bytes.drop_first()
    } else {
        bytes
    };
    if digits.len() == 0 {
        None
    } else {
        match decimal_value(digits) {
            Some(v) => if v <= u32::MAX {
                Some(v as u32)
            } else {
                None
            },
            None => None,
        }
    }
}

/// Whether a number is the code of a character.
pub open spec fn is_char_code(code: u32) -> bool {
    code <= 0x10FFFF && !(0xD800 <= code <= 0xDFFF)
}

/// The character code that a key of the font asset names, `None` for a key
/// that names no character (an icon's name, for one).
pub open spec fn glyph_code(key: Seq<char>) -> Option<u32> {
    match parse_u32(vstd::utf8::encode_utf8(key)) {
        Some(code) => if is_char_code(code) {
            Some(code)
        } else {
            None
        },
        None => None,
    }
}

/// The value of a prefix of a digit run is defined and no larger than the
/// value of the run.
pub proof fn lemma_decimal_prefix(bytes: Seq<u8>, k: int)
    requires
        0 <= k <= bytes.len(),
        decimal_value(bytes) is Some,
    ensures
        decimal_value(bytes.take(k)) is Some,
        decimal_value(bytes.take(k))->0 <= decimal_value(bytes)->0,
    decreases bytes.len(),
{
    if k == bytes.len() {
        assert(bytes.take(k) =~= bytes);
    } else {
        assert(bytes.drop_last().take(k) =~= bytes.take(k));
        lemma_decimal_prefix(bytes.drop_last(), k);
    }
}

/// Reads a key of the font asset as a character code.
pub fn parse_glyph_code(key: &str) -> (r: Option<u32>)
    ensures
        r == glyph_code(key@),
{
    let bytes = key.as_bytes();
    let start: usize = if bytes.len() > 0 && bytes[0] == 0x2B { 1 } else { 0 };
    let ghost digits = bytes@.subrange(start as int, bytes@.len() as int);
    proof {
        if start == 1 {
            assert(digits =~= bytes@.drop_first());
        } else {
            assert(digits =~= bytes@);
        }
    }
    if bytes.len() == start {
        return None;
    }
    let mut value: u64 = 0;
    let mut i: usize = start;
    while i < bytes.len()
        invariant
            start <= i <= bytes@.len(),
            bytes@ == key.spec_bytes(),
            digits == bytes@.subrange(start as int, bytes@.len() as int),
            digits == (if bytes@.len() > 0 && bytes@[0] == 0x2B {
                bytes@.drop_first()
            } else {
                bytes@
            }),
            digits.len() > 0,
            decimal_value(digits.take(i - start)) == Some(value as nat),
            value <= u32::MAX,
        decreases bytes@.len() - i,
    {
        let b = bytes[i];
        proof {
            assert(digits.take(i - start + 1).drop_last() =~= digits.take(i - start));
            assert(digits.take(i - start + 1).last() == b);
            if decimal_value(digits) is Some {
                lemma_decimal_prefix(digits, i - start + 1);
            }
        }
        if b < 0x30 || b > 0x39 {
            return None;
        }
        value = value * 10 + (b - 0x30) as u64;
        if value > 0xFFFF_FFFF {
            return None;
        }
        i += 1;
    }
    assert(digits.take(i - start) =~= digits);
    if value > 0x10FFFF || (0xD800 <= value && value <= 0xDFFF) {
        return None;
    }
    Some(value as u32)
}

/// The mathematical value of an [`IconMeta`].
pub struct IconMetaView {
    pub name: Seq<char>,
    pub width: nat,
    pub height: nat,
    pub baseline_offset: int,
    pub color: Seq<char>,
}

impl View for IconMeta {
    type V = IconMetaView;

    open spec fn view(&self) -> IconMetaView {
        IconMetaView {
            name: self.name@,
            width: self.width as nat,
            height: self.height as nat,
            baseline_offset: self.baseline_offset as int,
            color: self.color@,
        }
    }
}

impl View for AssetRows {
    type V = (Seq<char>, Seq<u64>);

    open spec fn view(&self) -> (Seq<char>, Seq<u64>) {
        (self.key@, self.rows@)
    }
}

/// The entries of an asset table, as values.
pub open spec fn table_view(table: Seq<AssetRows>) -> Seq<(Seq<char>, Seq<u64>)> {
    Seq::new(table.len(), |i: int| table[i]@)
}

/// The entries of the icon metadata, as values.
pub open spec fn metadata_view(metadata: Seq<IconMeta>) -> Seq<IconMetaView> {
    Seq::new(metadata.len(), |i: int| metadata[i]@)
}

/// The glyphs of an asset table: each entry whose key names a character
/// code, a later entry replacing an earlier one for the same code.
pub open spec fn glyph_table(table: Seq<(Seq<char>, Seq<u64>)>) -> Map<u32, Seq<u64>>
    decreases table.len(),
{
    if table.len() == 0 {
        Map::empty()
    } else {
        let before = glyph_table(table.drop_last());
        match glyph_code(table.last().0) {
            Some(code) => before.insert(code, table.last().1),
            None => before,
        }
    }
}

/// The italic variant of every glyph of a map.
pub open spec fn italic_table(glyphs: Map<u32, Seq<u64>>) -> Map<u32, Seq<u64>> {
    Map::new(|c: u32| glyphs.contains_key(c), |c: u32| italic_rows(glyphs[c]))
}

/// The rows of the last entry of an asset table stored under `key`.
pub open spec fn find_rows(table: Seq<(Seq<char>, Seq<u64>)>, key: Seq<char>) -> Option<Seq<u64>>
    decreases table.len(),
{
    if table.len() == 0 {
        None
    } else if table.last().0 == key {
        Some(table.last().1)
    } else {
        find_rows(table.drop_last(), key)
    }
}

/// One pixel of an icon row, read from the most significant of the row's
/// `width` bits: opaque in the icon's colour where the bit is set, else
/// transparent.
pub open spec fn icon_pixel(row: u64, width: nat, x: int, color: Rgb) -> IconPixel {
    if bit_at(row, width - 1 - x) {
        (color.0, color.1, color.2, 255u8)
    } else {
        (0u8, 0u8, 0u8, 0u8)
    }
}

/// An icon row decoded from the most significant bit downwards.
pub open spec fn decode_icon_row(row: u64, width: nat, color: Rgb) -> Seq<IconPixel> {
    Seq::new(width, |x: int| icon_pixel(row, width, x, color))
}

/// The icon that rows and metadata give. There is none where the number of
/// rows is not the declared height, or where the declared width is more than
/// the 64 bits of a row.
pub open spec fn decode_icon(rows: Seq<u64>, meta: IconMetaView) -> Option<RouteIconView> {
    if rows.len() != meta.height || meta.width > 64 {
        None
    } else {
        let color = hex_to_rgb_spec(vstd::utf8::encode_utf8(meta.color));
        Some(
            RouteIconView {
                pixels: Seq::new(rows.len(), |r: int| decode_icon_row(rows[r], meta.width, color)),
                width: meta.width,
                height: meta.height,
                baseline_offset: meta.baseline_offset,
                color,
            },
        )
    }
}

/// A list of icons with one more icon stored under `name`: in the place of
/// the icon that had the name, or at the end.
pub open spec fn upsert_icon(
    icons: Seq<(Seq<char>, RouteIconView)>,
    name: Seq<char>,
    icon: RouteIconView,
) -> Seq<(Seq<char>, RouteIconView)> {
    match find_name(icons, name) {
        Some(i) => icons.update(i, (name, icon)),
        None => icons.push((name, icon)),
    }
}

/// The icons that an asset table and the icon metadata give: for each
/// metadata entry in turn, the icon decoded from the rows stored under its
/// name. An entry without rows or with rows that do not fit adds nothing.
pub open spec fn icon_table(
    table: Seq<(Seq<char>, Seq<u64>)>,
    metadata: Seq<IconMetaView>,
) -> Seq<(Seq<char>, RouteIconView)>
    decreases metadata.len(),
{
    if metadata.len() == 0 {
        Seq::empty()
    } else {
        let before = icon_table(table, metadata.drop_last());
        let meta = metadata.last();
        match find_rows(table, meta.name) {
            Some(rows) => match decode_icon(rows, meta) {
                Some(icon) => upsert_icon(before, meta.name, icon),
                None => before,
            },
            None => before,
        }
    }
}

/// No name occurs twice in a list of icons.
pub open spec fn names_unique(icons: Seq<(Seq<char>, RouteIconView)>) -> bool {
    forall|i: int, j: int|
        0 <= i < j < icons.len() ==> (#[trigger] icons[i]).0 != (#[trigger] icons[j]).0
}

/// Every icon of a list is well formed.
pub open spec fn icons_wf(icons: Seq<(Seq<char>, RouteIconView)>) -> bool {
    forall|i: int| 0 <= i < icons.len() ==> icon_wf((#[trigger] icons[i]).1)
}

/// Putting a well-formed icon into a well-formed table keeps the table
/// well-formed.
pub proof fn lemma_upsert_keeps_wf(
    icons: Seq<(Seq<char>, RouteIconView)>,
    name: Seq<char>,
    icon: RouteIconView,
)
    requires
        names_unique(icons),
        icons_wf(icons),
        icon_wf(icon),
    ensures
        names_unique(upsert_icon(icons, name, icon)),
        icons_wf(upsert_icon(icons, name, icon)),
{
    lemma_find_name(icons, name);
    let out = upsert_icon(icons, name, icon);
    match find_name(icons, name) {
        Some(k) => {
            assert forall|i: int, j: int| 0 <= i < j < out.len() implies (#[trigger] out[i]).0 != (
            #[trigger] out[j]).0 by {
                assert(out[i].0 == icons[i].0);
                assert(out[j].0 == icons[j].0);
            }
            assert forall|i: int| 0 <= i < out.len() implies icon_wf((#[trigger] out[i]).1) by {
                if i != k {
                    assert(out[i] == icons[i]);
                }
            }
        },
        None => {
            assert forall|i: int, j: int| 0 <= i < j < out.len() implies (#[trigger] out[i]).0 != (
            #[trigger] out[j]).0 by {
                assert(out[i] == icons[i]);
                if j < icons.len() {
                    assert(out[j] == icons[j]);
                }
            }
            assert forall|i: int| 0 <= i < out.len() implies icon_wf((#[trigger] out[i]).1) by {
                if i < icons.len() {
                    assert(out[i] == icons[i]);
                }
            }
        },
    }
}

/// The icons that the tables give are well formed and differ in name.
pub proof fn lemma_icon_table_wf(
    table: Seq<(Seq<char>, Seq<u64>)>,
    metadata: Seq<IconMetaView>,
)
    ensures
        names_unique(icon_table(table, metadata)),
        icons_wf(icon_table(table, metadata)),
    decreases metadata.len(),
{
    if metadata.len() > 0 {
        let before = icon_table(table, metadata.drop_last());
        lemma_icon_table_wf(table, metadata.drop_last());
        let meta = metadata.last();
        match find_rows(table, meta.name) {
            Some(rows) => match decode_icon(rows, meta) {
                Some(icon) => {
                    lemma_upsert_keeps_wf(before, meta.name, icon);
                },
                None => {},
            },
            None => {},
        }
    }
}

/// A copy of the rows of a glyph.
fn copy_rows(rows: &Vec<u64>) -> (copy: Vec<u64>)
    ensures
        copy@ == rows@,
{
    let mut copy: Vec<u64> = Vec::with_capacity(rows.len());
    let mut i: usize = 0;
    while i < rows.len()
        invariant
            i <= rows@.len(),
            copy@ == rows@.take(i as int),
        decreases rows@.len() - i,
    {
        copy.push(rows[i]);
        assert(copy@ =~= rows@.take(i + 1));
        i += 1;
    }
    assert(rows@.take(i as int) =~= rows@);
    copy
}

/// The rows of the last entry of an asset table stored under `key`.
fn find_asset_rows<'a>(table: &'a Vec<AssetRows>, key: &str) -> (r: Option<&'a Vec<u64>>)
    ensures
        match r {
            Some(rows) => find_rows(table_view(table@), key@) == Some(rows@),
            None => find_rows(table_view(table@), key@) is None,
        },
{
    let ghost all = table_view(table@);
    let mut i: usize = table.len();
    assert(all.take(i as int) =~= all);
    while i > 0
        invariant
            i <= table@.len(),
            all == table_view(table@),
            find_rows(all, key@) == find_rows(all.take(i as int), key@),
        decreases i,
    {
        assert(all.take(i as int).drop_last() =~= all.take(i - 1));
        assert(all.take(i as int).last() == table@[i - 1]@);
        if str_eq(table[i - 1].key.as_str(), key) {
            return Some(&table[i - 1].rows);
        }
        i -= 1;
    }
    None
}

/// Decodes one icon row, most significant bit first.
fn decode_icon_pixels(row: u64, width: usize, color: Rgb) -> (pixels: Vec<IconPixel>)
    requires
        width <= 64,
    ensures
        pixels@ == decode_icon_row(row, width as nat, color),
{
    let mut pixels: Vec<IconPixel> = Vec::with_capacity(width);
    let mut x: usize = 0;
    while x < width
        invariant
            x <= width <= 64,
            pixels@.len() == x,
            forall|j: int| 0 <= j < x ==> pixels@[j] == icon_pixel(row, width as nat, j, color),
        decreases width - x,
    {
        let bit: usize = width - 1 - x;
        if row & (1u64 << (bit as u64)) != 0 {
            pixels.push((color.0, color.1, color.2, 255));
        } else {
            pixels.push((0, 0, 0, 0));
        }
        x += 1;
    }
    assert(pixels@ =~= decode_icon_row(row, width as nat, color));
    pixels
}

/// Decodes an icon from its rows and metadata. `None` where the rows do not
/// match the metadata.
pub fn decode_route_icon(rows: &Vec<u64>, meta: &IconMeta) -> (r: Option<RouteIcon>)
    ensures
        match r {
            Some(icon) => decode_icon(rows@, meta@) == Some(icon@),
            None => decode_icon(rows@, meta@) is None,
        },
{
    if rows.len() != meta.height || meta.width > 64 {
        return None;
    }
    let color = hex_to_rgb(meta.color.as_str());
    let mut pixels: Vec<Vec<IconPixel>> = Vec::with_capacity(rows.len());
    let mut r: usize = 0;
    while r < rows.len()
        invariant
            r <= rows@.len(),
            meta.width <= 64,
            pixels@.len() == r,
            forall|j: int|
                0 <= j < r ==> (#[trigger] pixels@[j])@ == decode_icon_row(
                    rows@[j],
                    meta.width as nat,
                    color,
                ),
        decreases rows@.len() - r,
    {
        pixels.push(decode_icon_pixels(rows[r], meta.width, color));
        r += 1;
    }
    let icon = RouteIcon {
        pixels,
        width: meta.width,
        height: meta.height,
        baseline_offset: meta.baseline_offset,
        color,
    };
    assert(icon@.pixels =~= decode_icon(rows@, meta@)->0.pixels);
    Some(icon)
}

impl MtaFont {
    /// Builds the font from the entries of the font asset and the icon
    /// metadata: the glyphs with their italic variants, and the icons that
    /// have both rows and fitting metadata.
    pub fn load(table: &Vec<AssetRows>, metadata: &Vec<IconMeta>) -> (font: MtaFont)
        ensures
            font@.glyphs == glyph_table(table_view(table@)),
            font@.italic == italic_table(font@.glyphs),
            font@.icons == icon_table(table_view(table@), metadata_view(metadata@)),
            font@.wf(),
    {
        let ghost entries = table_view(table@);
        let ghost metas = metadata_view(metadata@);
        let mut chars: HashMap<u32, Vec<u64>> = HashMap::new();
        let mut italic_chars: HashMap<u32, Vec<u64>> = HashMap::new();
        let mut i: usize = 0;
        while i < table.len()
            invariant
                i <= table@.len(),
                entries == table_view(table@),
                rows_map(chars@) == glyph_table(entries.take(i as int)),
                rows_map(italic_chars@) == italic_table(rows_map(chars@)),
            decreases table@.len() - i,
        {
            assert(entries.take(i + 1).drop_last() =~= entries.take(i as int));
            assert(entries.take(i + 1).last() == table@[i as int]@);
            match parse_glyph_code(table[i].key.as_str()) {
                Some(code) => {
                    let ghost before = rows_map(chars@);
                    let ghost before_italic = rows_map(italic_chars@);
                    let regular = copy_rows(&table[i].rows);
                    let slanted = generate_italic(&table[i].rows);
                    chars.insert(code, regular);
                    italic_chars.insert(code, slanted);
                    assert(rows_map(chars@) =~= before.insert(code, table@[i as int].rows@));
                    assert(rows_map(italic_chars@) =~= before_italic.insert(
                        code,
                        italic_rows(table@[i as int].rows@),
                    ));
                    assert(rows_map(italic_chars@) =~= italic_table(rows_map(chars@)));
                },
                None => {},
            }
            i += 1;
        }
        assert(entries.take(i as int) =~= entries);

        let mut route_icons: Vec<NamedIcon> = Vec::new();
        let mut m: usize = 0;
        assert(icons_view(route_icons@) =~= icon_table(entries, metas.take(0)));
        while m < metadata.len()
            invariant
                m <= metadata@.len(),
                entries == table_view(table@),
                metas == metadata_view(metadata@),
                icons_view(route_icons@) == icon_table(entries, metas.take(m as int)),
            decreases metadata@.len() - m,
        {
            assert(metas.take(m + 1).drop_last() =~= metas.take(m as int));
            assert(metas.take(m + 1).last() == metadata@[m as int]@);
            let meta = &metadata[m];
            match find_asset_rows(table, meta.name.as_str()) {
                Some(rows) => match decode_route_icon(rows, meta) {
                    Some(icon) => {
                        let ghost before = icons_view(route_icons@);
                        let named = NamedIcon { name: meta.name.clone(), icon };
                        match find_icon_in(&route_icons, meta.name.as_str()) {
                            Some(k) => {
                                route_icons.set(k, named);
                                assert(icons_view(route_icons@) =~= before.update(
                                    k as int,
                                    (meta.name@, named.icon@),
                                ));
                            },
                            None => {
                                route_icons.push(named);
                                assert(icons_view(route_icons@) =~= before.push(
                                    (meta.name@, named.icon@),
                                ));
                            },
                        }
                    },
                    None => {},
                },
                None => {},
            }
            m += 1;
        }
        assert(metas.take(m as int) =~= metas);
        proof {
            lemma_icon_table_wf(entries, metas);
        }
        MtaFont { chars, italic_chars, route_icons }
    }
}

} // verus!
