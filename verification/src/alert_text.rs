//! The text of an alert cut into plain text and route tokens.
//!
//! A route token is a route id in square brackets, `[A]`, or with a trailing
//! `x` or `X` for express service, `[AX]`. Finding the tokens is the work of
//! the regex engine; what is made of the places it reports is stated and
//! proved here.

use vstd::prelude::*;
use vstd::string::*;
use vstd::utf8::*;
use crate::colors::{is_express_capable, is_express_capable_spec};

verus! {

/// The pattern of a route token: digits or upper-case letters in square
/// brackets, with an optional `x` or `X` before the closing bracket. The
/// first group is the route id, the second the express marker.
pub const ROUTE_PATTERN: &'static str = r"\[(\d+|[A-Z]+)([xX])?\]";

/// A stretch of a text, from the byte offset `start` up to but not including
/// the byte offset `end`.
#[derive(Clone, Copy, Debug, PartialEq, Eq, Structural)]
pub struct Span {
    pub start: usize,
    pub end: usize,
}

/// The place of one capture group in the text; `None` for a group that took
/// no part in the match.
pub type GroupSpan = Option<Span>;

/// The groups of one match, the whole match first.
pub type MatchGroups = Vec<GroupSpan>;

/// The matches of a list, as values.
pub open spec fn captures_view(captures: Seq<MatchGroups>) -> Seq<Seq<GroupSpan>> {
    Seq::new(captures.len(), |i: int| captures[i]@)
}

/// What the regex engine finds: for a pattern and a text, the successive
/// non-overlapping matches of the pattern in the text, each with the places
/// of its capture groups; `None` for a pattern that the engine rejects.
pub uninterp spec fn regex_captures_spec(pattern: Seq<char>, text: Seq<char>) -> Option<
    Seq<Seq<GroupSpan>>,
>;

/// Runs `regex::Regex::new` on the pattern and `Regex::captures_iter` on the
/// text, and copies out the offsets that `Match::start` and `Match::end`
/// give for every group of every match. The contract only names the result:
/// it is what the engine finds for this pattern in this text.
#[verifier::external_body]
fn regex_captures(pattern: &str, text: &str) -> (r: Option<Vec<MatchGroups>>)
    ensures
        match r {
            Some(captures) => regex_captures_spec(pattern@, text@) == Some(captures_view(captures@)),
            None => regex_captures_spec(pattern@, text@) is None,
        },
{
    let re = match regex::Regex::new(pattern) {
        Ok(re) => re,
        Err(_) => return None,
    };
    let mut all = Vec::new();
    for caps in re.captures_iter(text) {
        let mut groups = Vec::new();
        for group in caps.iter() {
            groups.push(group.map(|m| Span { start: m.start(), end: m.end() }));
        }
        all.push(groups);
    }
    Some(all)
}

/// The route tokens of a text as the engine reports them; none where the
/// engine rejects the pattern.
pub open spec fn route_tokens(text: Seq<char>) -> Seq<Seq<GroupSpan>> {
    match regex_captures_spec(ROUTE_PATTERN@, text) {
        Some(captures) => captures,
        None => Seq::empty(),
    }
}

/// Finds the route tokens of a text.
pub fn find_route_tokens(text: &str) -> (captures: Vec<MatchGroups>)
    ensures
        captures_view(captures@) == route_tokens(text@),
{
    match regex_captures(ROUTE_PATTERN, text) {
        Some(captures) => captures,
        None => {
            let captures: Vec<MatchGroups> = Vec::new();
            assert(captures_view(captures@) =~= Seq::<Seq<GroupSpan>>::empty());
            captures
        },
    }
}

// ---------------------------------------------------------------------
// Slices of a text by byte offsets
// ---------------------------------------------------------------------

/// Whether the bytes from `from` to `to` can be cut out of a text: the
/// offsets are in order and in range and fall between characters.
pub open spec fn slice_ok(bytes: Seq<u8>, from: int, to: int) -> bool {
    &&& 0 <= from <= to <= bytes.len()
    &&& is_char_boundary(bytes, to)
    &&& is_char_boundary(bytes.subrange(0, to), from)
}

/// The characters that the bytes from `from` to `to` hold.
pub open spec fn slice_chars(bytes: Seq<u8>, from: int, to: int) -> Seq<char> {
    decode_utf8(bytes.subrange(from, to))
}

/// A text has no more characters than bytes.
pub proof fn lemma_chars_le_bytes(chars: Seq<char>)
    ensures
        chars.len() <= encode_utf8(chars).len(),
    decreases chars.len(),
{
    if chars.len() > 0 {
        lemma_chars_le_bytes(chars.drop_first());
    }
}

/// The number of bytes of a text.
pub fn byte_len(text: &str) -> (n: usize)
    ensures
        n == text.spec_bytes().len(),
{
    text.as_bytes().len()
}

/// The part of a text between two byte offsets, `None` where it cannot be
/// cut out.
pub fn slice(text: &str, from: usize, to: usize) -> (r: Option<String>)
    ensures
        match r {
            Some(part) => slice_ok(text.spec_bytes(), from as int, to as int) && part@
                == slice_chars(text.spec_bytes(), from as int, to as int) && encode_utf8(part@)
                == text.spec_bytes().subrange(from as int, to as int),
            None => !slice_ok(text.spec_bytes(), from as int, to as int),
        },
{
    broadcast use encode_utf8_valid_utf8, encode_utf8_decode_utf8;

    if from > to || to > byte_len(text) {
        return None;
    }
    if !text.is_char_boundary(to) {
        return None;
    }
    let (head, _) = text.split_at(to);
    if !head.is_char_boundary(from) {
        return None;
    }
    let (_, part) = head.split_at(from);
    let owned = part.to_owned();
    proof {
        let bytes = text.spec_bytes();
        assert(bytes.subrange(0, to as int).subrange(from as int, to as int) =~= bytes.subrange(
            from as int,
            to as int,
        ));
        assert(encode_utf8(owned@) == bytes.subrange(from as int, to as int));
        assert(decode_utf8(encode_utf8(owned@)) == owned@);
    }
    Some(owned)
}

// ---------------------------------------------------------------------
// Parts
// ---------------------------------------------------------------------

/// One part of an alert: a run of plain text, or the icon of a route.
pub enum AlertPart {
    Text(String),
    Icon { route: String, is_express: bool },
}

/// The mathematical value of an [`AlertPart`].
pub enum AlertPartView {
    Text(Seq<char>),
    Icon { route: Seq<char>, is_express: bool },
}

impl View for AlertPart {
    type V = AlertPartView;

    open spec fn view(&self) -> AlertPartView {
        match self {
            AlertPart::Text(t) => AlertPartView::Text(t@),
            AlertPart::Icon { route, is_express } => AlertPartView::Icon {
                route: route@,
                is_express: *is_express,
            },
        }
    }
}

/// The parts of a list, as values.
pub open spec fn parts_view(parts: Seq<AlertPart>) -> Seq<AlertPartView> {
    Seq::new(parts.len(), |i: int| parts[i]@)
}

/// Whether a reported match is taken as a token when the text has been read
/// up to `read`: the match and its first group are there, the match starts
/// at or after `read` and is not empty, and the text before it, the match's
/// end and the route id can be cut out.
pub open spec fn token_ok(bytes: Seq<u8>, groups: Seq<GroupSpan>, read: int) -> bool {
    &&& groups.len() >= 2
    &&& groups[0] is Some
    &&& groups[1] is Some
    &&& read <= groups[0]->0.start < groups[0]->0.end <= bytes.len()
    &&& is_char_boundary(bytes, groups[0]->0.end as int)
    &&& slice_ok(bytes, read, groups[0]->0.start as int)
    &&& slice_ok(bytes, groups[1]->0.start as int, groups[1]->0.end as int)
}

/// Whether a match carries the express marker.
pub open spec fn has_marker(groups: Seq<GroupSpan>) -> bool {
    groups.len() >= 3 && groups[2] is Some
}

/// The parts made of the first `n` reported matches, and how far the text
/// has been read. A match that is no token is passed over.
pub open spec fn parts_upto(bytes: Seq<u8>, captures: Seq<Seq<GroupSpan>>, n: nat) -> (
    Seq<AlertPartView>,
    int,
)
    decreases n,
{
    if n == 0 || n > captures.len() {
        (Seq::empty(), 0)
    } else {
        let (parts, read) = parts_upto(bytes, captures, (n - 1) as nat);
        let groups = captures[n - 1];
        if !token_ok(bytes, groups, read) {
            (parts, read)
        } else {
            let start = groups[0]->0.start as int;
            let end = groups[0]->0.end as int;
            let route = slice_chars(bytes, groups[1]->0.start as int, groups[1]->0.end as int);
            let with_text = if start > read {
                parts.push(AlertPartView::Text(slice_chars(bytes, read, start)))
            } else {
                parts
            };
            (
                with_text.push(
                    AlertPartView::Icon {
                        route,
                        is_express: is_express_capable_spec(route) || has_marker(groups),
                    },
                ),
                end,
            )
        }
    }
}

/// The parts of an alert text: the text between the tokens and an icon for
/// each token, in the order of the text. The icon is the express one where
/// the route may run express or the token carries the marker.
pub open spec fn alert_parts(text: Seq<char>, captures: Seq<Seq<GroupSpan>>) -> Seq<AlertPartView> {
    let bytes = encode_utf8(text);
    let (parts, read) = parts_upto(bytes, captures, captures.len());
    if read < bytes.len() {
        parts.push(AlertPartView::Text(slice_chars(bytes, read, bytes.len() as int)))
    } else {
        parts
    }
}

/// The bytes of text that a part stands for, counted at least: the bytes of
/// a run of text, one for an icon.
pub open spec fn part_weight(part: AlertPartView) -> nat {
    match part {
        AlertPartView::Text(t) => encode_utf8(t).len(),
        AlertPartView::Icon { .. } => 1,
    }
}

/// The weights of the parts added up.
pub open spec fn parts_weight(parts: Seq<AlertPartView>) -> nat
    decreases parts.len(),
{
    if parts.len() == 0 {
        0
    } else {
        parts_weight(parts.drop_last()) + part_weight(parts.last())
    }
}

/// Cuts an alert text into its parts, given the matches that the regex
/// engine reported for it.
pub fn parse_alert_parts(text: &str, captures: &Vec<MatchGroups>) -> (parts: Vec<AlertPart>)
    ensures
        parts_view(parts@) == alert_parts(text@, captures_view(captures@)),
        parts_weight(parts_view(parts@)) <= text.spec_bytes().len(),
        forall|i: int| 0 <= i < parts@.len() ==> part_weight(#[trigger] parts@[i]@) >= 1,
{
    broadcast use encode_utf8_valid_utf8, is_char_boundary_start_end_of_seq;

    let ghost bytes = text.spec_bytes();
    let ghost caps = captures_view(captures@);
    let mut parts: Vec<AlertPart> = Vec::new();
    let mut read: usize = 0;
    let mut i: usize = 0;
    assert(parts_view(parts@) =~= Seq::<AlertPartView>::empty());
    while i < captures.len()
        invariant
            i <= captures@.len(),
            bytes == text.spec_bytes(),
            caps == captures_view(captures@),
            (parts_view(parts@), read as int) == parts_upto(bytes, caps, i as nat),
            read <= bytes.len(),
            is_char_boundary(bytes, read as int),
            parts_weight(parts_view(parts@)) <= read,
            forall|j: int| 0 <= j < parts@.len() ==> part_weight(#[trigger] parts@[j]@) >= 1,
        decreases captures@.len() - i,
    {
        let groups = &captures[i];
        assert(caps[i as int] == groups@);
        let ghost before = parts_view(parts@);
        if groups.len() >= 2 {
            match (groups[0], groups[1]) {
                (Some(whole), Some(id)) => {
                    let start = whole.start;
                    let end = whole.end;
                    let route_start = id.start;
                    let route_end = id.end;
                    if read <= start && start < end && end <= byte_len(text) && text.is_char_boundary(
                        end,
                    ) {
                        match (slice(text, read, start), slice(text, route_start, route_end)) {
                            (Some(lead), Some(route)) => {
                                let marker = groups.len() >= 3 && groups[2].is_some();
                                let is_express = is_express_capable(route.as_str()) || marker;
                                if start > read {
                                    parts.push(AlertPart::Text(lead));
                                    proof {
                                        let mid = parts_view(parts@);
                                        assert(mid =~= before.push(
                                            AlertPartView::Text(
                                                slice_chars(bytes, read as int, start as int),
                                            ),
                                        ));
                                        assert(mid.drop_last() =~= before);
                                        assert(encode_utf8(lead@).len() == start - read);
                                        assert(part_weight(mid.last()) == start - read);
                                        assert(parts_weight(mid) == parts_weight(before) + (start
                                            - read));
                                    }
                                }
                                let ghost mid = parts_view(parts@);
                                parts.push(AlertPart::Icon { route, is_express });
                                proof {
                                    let after = parts_view(parts@);
                                    assert(after =~= mid.push(
                                        AlertPartView::Icon { route: route@, is_express },
                                    ));
                                    assert(after.drop_last() =~= mid);
                                    assert(part_weight(after.last()) == 1);
                                    assert(parts_weight(after) == parts_weight(mid) + 1);
                                }
                                read = end;
                            },
                            _ => {},
                        }
                    }
                },
                _ => {},
            }
        }
        i += 1;
    }
    let total = byte_len(text);
    if read < total {
        let ghost before = parts_view(parts@);
        assert(bytes.subrange(0, bytes.len() as int) =~= bytes);
        match slice(text, read, total) {
            Some(tail) => {
                parts.push(AlertPart::Text(tail));
                proof {
                    let after = parts_view(parts@);
                    assert(after =~= before.push(
                        AlertPartView::Text(slice_chars(bytes, read as int, bytes.len() as int)),
                    ));
                    assert(after.drop_last() =~= before);
                }
            },
            None => {},
        }
    }
    parts
}

} // verus!
