//! The font read from its two asset files.
//!
//! The font file is a JSON object. A member whose name is a character code
//! holds the rows of that character's glyph, a member under an icon's name
//! the rows of the icon; rows that are no unsigned whole numbers do not
//! count, and members that are no arrays are passed over. The metadata file
//! is a JSON object with one member for each icon: an object that gives the
//! icon's width, height, baseline offset and colour.

use vstd::prelude::*;
use vstd::string::*;
use crate::fonts::{
    glyph_table, icon_table, italic_table, metadata_view, table_view, AssetRows, FontView,
    IconMeta, IconMetaView, MtaFont,
};
use crate::json::{
    items_view, json_value_spec, lemma_array_view, lemma_object_view, members_view, Json,
    JsonMember, JsonView,
};
use crate::text::str_eq;

verus! {

/// Why a font could not be read.
#[derive(Clone, Copy, Debug, PartialEq, Eq, Structural)]
pub enum FontError {
    /// The font file is no JSON object.
    FontData,
    /// The metadata file is no JSON object of icon descriptions.
    IconMetadata,
}

/// The unsigned whole numbers among the items of an array, in order.
pub open spec fn whole_numbers(items: Seq<JsonView>) -> Seq<u64>
    decreases items.len(),
{
    if items.len() == 0 {
        Seq::empty()
    } else {
        let before = whole_numbers(items.drop_last());
        match items.last() {
            JsonView::Number(n) => match n.unsigned {
                Some(v) => before.push(v),
                None => before,
            },
            _ => before,
        }
    }
}

/// The rows of the members of an object that are arrays, each under the
/// member's name.
pub open spec fn member_rows(members: Seq<(Seq<char>, JsonView)>) -> Seq<(Seq<char>, Seq<u64>)>
    decreases members.len(),
{
    if members.len() == 0 {
        Seq::empty()
    } else {
        let before = member_rows(members.drop_last());
        match members.last().1 {
            JsonView::Array(items) => before.push((members.last().0, whole_numbers(items))),
            _ => before,
        }
    }
}

/// The asset table that a font file holds, `None` for a file that is no
/// object.
pub open spec fn asset_table(font: JsonView) -> Option<Seq<(Seq<char>, Seq<u64>)>> {
    match font {
        JsonView::Object(members) => Some(member_rows(members)),
        _ => None,
    }
}

/// The value of the last member of an object under a name.
pub open spec fn member_value(members: Seq<(Seq<char>, JsonView)>, name: Seq<char>) -> Option<
    JsonView,
>
    decreases members.len(),
{
    if members.len() == 0 {
        None
    } else if members.last().0 == name {
        Some(members.last().1)
    } else {
        member_value(members.drop_last(), name)
    }
}

/// A member read as a size: an unsigned whole number that fits.
pub open spec fn size_member(members: Seq<(Seq<char>, JsonView)>, name: Seq<char>) -> Option<nat> {
    match member_value(members, name) {
        Some(JsonView::Number(n)) => match n.unsigned {
            Some(v) => if v <= usize::MAX {
                Some(v as nat)
            } else {
                None
            },
            None => None,
        },
        _ => None,
    }
}

/// A member read as an offset: a whole number of 32 bits.
pub open spec fn offset_member(members: Seq<(Seq<char>, JsonView)>, name: Seq<char>) -> Option<
    int,
> {
    match member_value(members, name) {
        Some(JsonView::Number(n)) => match n.signed {
            Some(v) => if i32::MIN <= v <= i32::MAX {
                Some(v as int)
            } else {
                None
            },
            None => None,
        },
        _ => None,
    }
}

/// A member read as a text.
pub open spec fn text_member(members: Seq<(Seq<char>, JsonView)>, name: Seq<char>) -> Option<
    Seq<char>,
> {
    match member_value(members, name) {
        Some(JsonView::Text(t)) => Some(t),
        _ => None,
    }
}

/// What a member of the metadata file says of the icon it is named after.
/// It must be an object that gives `width` and `height` as sizes,
/// `baseline_offset` as an offset and `color` as a text.
pub open spec fn icon_meta_of(name: Seq<char>, value: JsonView) -> Option<IconMetaView> {
    match value {
        JsonView::Object(members) => match (
            size_member(members, "width"@),
            size_member(members, "height"@),
            offset_member(members, "baseline_offset"@),
            text_member(members, "color"@),
        ) {
            (Some(width), Some(height), Some(baseline_offset), Some(color)) => Some(
                IconMetaView { name, width, height, baseline_offset, color },
            ),
            _ => None,
        },
        _ => None,
    }
}

/// What the members of the metadata file say, `None` where one of them
/// does not describe an icon.
pub open spec fn members_metadata(members: Seq<(Seq<char>, JsonView)>) -> Option<
    Seq<IconMetaView>,
>
    decreases members.len(),
{
    if members.len() == 0 {
        Some(Seq::empty())
    } else {
        match (
            members_metadata(members.drop_last()),
            icon_meta_of(members.last().0, members.last().1),
        ) {
            (Some(before), Some(meta)) => Some(before.push(meta)),
            _ => None,
        }
    }
}

/// The icon metadata that a metadata file holds.
pub open spec fn icon_metadata(metadata: JsonView) -> Option<Seq<IconMetaView>> {
    match metadata {
        JsonView::Object(members) => members_metadata(members),
        _ => None,
    }
}

/// The font that an asset table and icon metadata give.
pub open spec fn font_of_tables(
    table: Seq<(Seq<char>, Seq<u64>)>,
    metadata: Seq<IconMetaView>,
) -> FontView {
    FontView {
        glyphs: glyph_table(table),
        italic: italic_table(glyph_table(table)),
        icons: icon_table(table, metadata),
    }
}

/// The font that the values of the two asset files give.
pub open spec fn font_of_values(font: JsonView, metadata: JsonView) -> Result<FontView, FontError> {
    match asset_table(font) {
        None => Err(FontError::FontData),
        Some(table) => match icon_metadata(metadata) {
            None => Err(FontError::IconMetadata),
            Some(metas) => Ok(font_of_tables(table, metas)),
        },
    }
}

/// The font that the texts of the two asset files give. The font file is
/// looked at first: where it is no JSON object the metadata file is not
/// read.
pub open spec fn font_of_json(font_json: Seq<char>, metadata_json: Seq<char>) -> Result<
    FontView,
    FontError,
> {
    match json_value_spec(font_json) {
        None => Err(FontError::FontData),
        Some(font) => match asset_table(font) {
            None => Err(FontError::FontData),
            Some(_) => match json_value_spec(metadata_json) {
                None => Err(FontError::IconMetadata),
                Some(metadata) => font_of_values(font, metadata),
            },
        },
    }
}

/// The items of an array as row integers.
fn whole_numbers_of(items: &Vec<Json>) -> (rows: Vec<u64>)
    ensures
        rows@ == whole_numbers(items_view(items@)),
{
    let ghost all = items_view(items@);
    let mut rows: Vec<u64> = Vec::new();
    let mut i: usize = 0;
    assert(all.take(0) =~= Seq::<JsonView>::empty());
    while i < items.len()
        invariant
            i <= items@.len(),
            all == items_view(items@),
            rows@ == whole_numbers(all.take(i as int)),
        decreases items@.len() - i,
    {
        proof {
            assert(all.take(i + 1).drop_last() =~= all.take(i as int));
            assert(all.take(i + 1).last() == items@[i as int]@);
        }
        match &items[i] {
            Json::Number(n) => match n.unsigned {
                Some(v) => {
                    rows.push(v);
                },
                None => {},
            },
            _ => {},
        }
        i += 1;
    }
    assert(all.take(i as int) =~= all);
    rows
}

/// The asset table that a font file holds.
pub fn asset_rows(font: &Json) -> (r: Option<Vec<AssetRows>>)
    ensures
        match r {
            Some(table) => asset_table(font@) == Some(table_view(table@)),
            None => asset_table(font@) is None,
        },
{
    let members = match font {
        Json::Object(members) => members,
        _ => {
            return None;
        },
    };
    proof {
        lemma_object_view(*members);
    }
    let ghost all = members_view(members@);
    let mut table: Vec<AssetRows> = Vec::new();
    let mut i: usize = 0;
    assert(all.take(0) =~= Seq::<(Seq<char>, JsonView)>::empty());
    assert(table_view(table@) =~= Seq::<(Seq<char>, Seq<u64>)>::empty());
    while i < members.len()
        invariant
            i <= members@.len(),
            all == members_view(members@),
            table_view(table@) == member_rows(all.take(i as int)),
        decreases members@.len() - i,
    {
        proof {
            assert(all.take(i + 1).drop_last() =~= all.take(i as int));
            assert(all.take(i + 1).last() == (members@[i as int].name@, members@[i as int].value@));
        }
        let ghost before = table_view(table@);
        match &members[i].value {
            Json::Array(items) => {
                proof {
                    lemma_array_view(*items);
                }
                let rows = whole_numbers_of(items);
                table.push(AssetRows { key: members[i].name.clone(), rows });
                assert(table_view(table@) =~= before.push((members@[i as int].name@, rows@)));
            },
            _ => {},
        }
        i += 1;
    }
    assert(all.take(i as int) =~= all);
    Some(table)
}

/// The value of the member of the given name.
fn find_member<'a>(members: &'a Vec<JsonMember>, name: &str) -> (r: Option<&'a Json>)
    ensures
        match r {
            Some(value) => member_value(members_view(members@), name@) == Some(value@),
            None => member_value(members_view(members@), name@) is None,
        },
{
    let ghost all = members_view(members@);
    let mut k: usize = members.len();
    assert(all.take(k as int) =~= all);
    while k > 0
        invariant
            k <= members@.len(),
            all == members_view(members@),
            member_value(all, name@) == member_value(all.take(k as int), name@),
        decreases k,
    {
        proof {
            assert(all.take(k as int).drop_last() =~= all.take(k - 1));
            assert(all.take(k as int).last() == (members@[k - 1].name@, members@[k - 1].value@));
        }
        if str_eq(members[k - 1].name.as_str(), name) {
            return Some(&members[k - 1].value);
        }
        k -= 1;
    }
    None
}

/// The member of the given name as a size.
fn size_of_member(members: &Vec<JsonMember>, name: &str) -> (r: Option<usize>)
    ensures
        match r {
            Some(v) => size_member(members_view(members@), name@) == Some(v as nat),
            None => size_member(members_view(members@), name@) is None,
        },
{
    match find_member(members, name) {
        Some(Json::Number(n)) => match n.unsigned {
            Some(v) => {
                if v <= usize::MAX as u64 {
                    Some(v as usize)
                } else {
                    None
                }
            },
            None => None,
        },
        _ => None,
    }
}

/// The member of the given name as an offset.
fn offset_of_member(members: &Vec<JsonMember>, name: &str) -> (r: Option<i32>)
    ensures
        match r {
            Some(v) => offset_member(members_view(members@), name@) == Some(v as int),
            None => offset_member(members_view(members@), name@) is None,
        },
{
    match find_member(members, name) {
        Some(Json::Number(n)) => match n.signed {
            Some(v) => {
                if i32::MIN as i64 <= v && v <= i32::MAX as i64 {
                    Some(v as i32)
                } else {
                    None
                }
            },
            None => None,
        },
        _ => None,
    }
}

/// The member of the given name as a text.
fn text_of_member(members: &Vec<JsonMember>, name: &str) -> (r: Option<String>)
    ensures
        match r {
            Some(t) => text_member(members_view(members@), name@) == Some(t@),
            None => text_member(members_view(members@), name@) is None,
        },
{
    match find_member(members, name) {
        Some(Json::Text(t)) => Some(t.clone()),
        _ => None,
    }
}

/// What a member of the metadata file says of the icon it is named after.
pub fn icon_meta_from(name: &str, value: &Json) -> (r: Option<IconMeta>)
    ensures
        match r {
            Some(meta) => icon_meta_of(name@, value@) == Some(meta@),
            None => icon_meta_of(name@, value@) is None,
        },
{
    let members = match value {
        Json::Object(members) => members,
        _ => {
            return None;
        },
    };
    proof {
        lemma_object_view(*members);
    }
    let width = size_of_member(members, "width");
    let height = size_of_member(members, "height");
    let baseline_offset = offset_of_member(members, "baseline_offset");
    let color = text_of_member(members, "color");
    match (width, height, baseline_offset, color) {
        (Some(width), Some(height), Some(baseline_offset), Some(color)) => Some(
            IconMeta { name: String::from_str(name), width, height, baseline_offset, color },
        ),
        _ => None,
    }
}

/// The icon metadata that a metadata file holds.
pub fn icon_metadata_from(metadata: &Json) -> (r: Option<Vec<IconMeta>>)
    ensures
        match r {
            Some(metas) => icon_metadata(metadata@) == Some(metadata_view(metas@)),
            None => icon_metadata(metadata@) is None,
        },
{
    let members = match metadata {
        Json::Object(members) => members,
        _ => {
            return None;
        },
    };
    proof {
        lemma_object_view(*members);
    }
    let ghost all = members_view(members@);
    let mut metas: Vec<IconMeta> = Vec::new();
    let mut i: usize = 0;
    assert(all.take(0) =~= Seq::<(Seq<char>, JsonView)>::empty());
    assert(metadata_view(metas@) =~= Seq::<IconMetaView>::empty());
    while i < members.len()
        invariant
            i <= members@.len(),
            all == members_view(members@),
            metadata@ == JsonView::Object(all),
            members_metadata(all.take(i as int)) == Some(metadata_view(metas@)),
        decreases members@.len() - i,
    {
        proof {
            assert(all.take(i + 1).drop_last() =~= all.take(i as int));
            assert(all.take(i + 1).last() == (members@[i as int].name@, members@[i as int].value@));
        }
        let ghost before = metadata_view(metas@);
        match icon_meta_from(members[i].name.as_str(), &members[i].value) {
            Some(meta) => {
                metas.push(meta);
                assert(metadata_view(metas@) =~= before.push(meta@));
            },
            None => {
                proof {
                    lemma_bad_member_spoils_all(all, i + 1);
                }
                return None;
            },
        }
        i += 1;
    }
    assert(all.take(i as int) =~= all);
    Some(metas)
}

/// One member that does not describe an icon makes the whole file invalid.
pub proof fn lemma_bad_member_spoils_all(members: Seq<(Seq<char>, JsonView)>, k: int)
    requires
        0 <= k <= members.len(),
        members_metadata(members.take(k)) is None,
    ensures
        members_metadata(members) is None,
    decreases members.len() - k,
{
    if k < members.len() {
        assert(members.take(k + 1).drop_last() =~= members.take(k));
        lemma_bad_member_spoils_all(members, k + 1);
    } else {
        assert(members.take(k) =~= members);
    }
}

impl MtaFont {
    /// Builds the font from the values of the font file and the metadata
    /// file.
    pub fn from_values(font: &Json, metadata: &Json) -> (r: Result<MtaFont, FontError>)
        ensures
            match r {
                Ok(f) => font_of_values(font@, metadata@) == Ok::<FontView, FontError>(f@) && f@.wf(),
                Err(e) => font_of_values(font@, metadata@) == Err::<FontView, FontError>(e),
            },
    {
        let table = match asset_rows(font) {
            Some(table) => table,
            None => {
                return Err(FontError::FontData);
            },
        };
        let metas = match icon_metadata_from(metadata) {
            Some(metas) => metas,
            None => {
                return Err(FontError::IconMetadata);
            },
        };
        Ok(MtaFont::load(&table, &metas))
    }

    /// Builds the font from the texts of the font file and the metadata
    /// file.
    pub fn from_json(font_json: &str, metadata_json: &str) -> (r: Result<MtaFont, FontError>)
        ensures
            match r {
                Ok(f) => font_of_json(font_json@, metadata_json@) == Ok::<FontView, FontError>(f@)
                    && f@.wf(),
                Err(e) => font_of_json(font_json@, metadata_json@) == Err::<FontView, FontError>(
                    e,
                ),
            },
    {
        let font = match Json::parse(font_json) {
            Some(font) => font,
            None => {
                return Err(FontError::FontData);
            },
        };
        let table = match asset_rows(&font) {
            Some(table) => table,
            None => {
                return Err(FontError::FontData);
            },
        };
        let metadata = match Json::parse(metadata_json) {
            Some(metadata) => metadata,
            None => {
                return Err(FontError::IconMetadata);
            },
        };
        let metas = match icon_metadata_from(&metadata) {
            Some(metas) => metas,
            None => {
                return Err(FontError::IconMetadata);
            },
        };
        Ok(MtaFont::load(&table, &metas))
    }
}

} // verus!
