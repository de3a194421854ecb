//! The tag-document codec.
//!
//! A tag document is a JSON object with a single field `tags`, mapping each
//! key to a record `{path, name, description, value}` of four strings. This
//! module defines the document format mathematically — a serializer and a
//! parser over character sequences — together with executable functions
//! proved against those definitions, and the round-trip law: parsing a
//! serialized tag set yields that set back.
//!
//! The parser accepts the record members in any order, skips unknown
//! members at either level, reads the full JSON escape set back (including
//! `\u` escapes and surrogate pairs), and allows arbitrary whitespace
//! between tokens; an unescaped control character inside a string is
//! refused, as JSON demands. It refuses documents holding the same key twice, a
//! repeated member, or a missing record member. The serializer writes the
//! members in canonical order and escapes every control character, so its
//! output is plain JSON; the round-trip law below closes the loop.

use crate::error::UnsError;
use crate::strutil::{char_from_u32, chars_of, push_char, str_eq};
use crate::tag::{Tag, TagM};
use crate::tag_map::{entry_views, unique_keys, EntryM, TagEntry, TagMap};
use vstd::prelude::*;

verus! {

// ------------------------------------------------------------------
// Serialization, mathematically.
// ------------------------------------------------------------------
/// How one character is written inside a JSON string: `"` and `\` get a
/// backslash, the named control characters their letter escape, any other
/// control character a `\u00..` escape, and everything else stands for
/// itself.
pub open spec fn esc_char(c: char) -> Seq<char> {
    if c == '"' || c == '\\' {
        seq!['\\', c]
    } else if c == '\n' {
        seq!['\\', 'n']
    } else if c == '\r' {
        seq!['\\', 'r']
    } else if c == '\t' {
        seq!['\\', 't']
    } else if c == '\u{8}' {
        seq!['\\', 'b']
    } else if c == '\u{c}' {
        seq!['\\', 'f']
    } else if (c as u32) < 32 {
        seq!['\\', 'u', '0', '0', hex_char_of((c as u32) as int / 16), hex_char_of((c as u32) as int % 16)]
    } else {
        seq![c]
    }
}

/// The lower-case digit writing a hexadecimal value.
pub open spec fn hex_char_of(n: int) -> char {
    if n == 0 { '0' } else if n == 1 { '1' } else if n == 2 { '2' } else if n == 3 { '3' }
    else if n == 4 { '4' } else if n == 5 { '5' } else if n == 6 { '6' } else if n == 7 { '7' }
    else if n == 8 { '8' } else if n == 9 { '9' } else if n == 10 { 'a' } else if n == 11 { 'b' }
    else if n == 12 { 'c' } else if n == 13 { 'd' } else if n == 14 { 'e' } else { 'f' }
}

/// The escaped body of a JSON string.
pub open spec fn json_escape(s: Seq<char>) -> Seq<char>
    decreases s.len(),
{
    if s.len() == 0 {
        Seq::empty()
    } else {
        esc_char(s[0]) + json_escape(s.drop_first())
    }
}

/// A JSON string: the escaped body between double quotes.
pub open spec fn json_quote(s: Seq<char>) -> Seq<char> {
    seq!['"'] + json_escape(s) + seq!['"']
}

/// One `"name":"value"` member of an object.
pub open spec fn field_json(name: Seq<char>, v: Seq<char>) -> Seq<char> {
    json_quote(name) + seq![':'] + json_quote(v)
}

/// The record a tag is written as.
pub open spec fn tag_json(t: TagM) -> Seq<char> {
    seq!['{'] + field_json("path"@, t.path) + seq![','] + field_json("name"@, t.name) + seq![',']
        + field_json("description"@, t.description) + seq![','] + field_json("value"@, t.value)
        + seq!['}']
}

/// One `"key":record` member of the `tags` object.
pub open spec fn entry_json(e: EntryM) -> Seq<char> {
    json_quote(e.key) + seq![':'] + tag_json(e.tag)
}

/// The members of the `tags` object, comma-separated, in entry order.
pub open spec fn entries_json(es: Seq<EntryM>) -> Seq<char>
    decreases es.len(),
{
    if es.len() == 0 {
        Seq::empty()
    } else if es.len() == 1 {
        entry_json(es[0])
    } else {
        entry_json(es[0]) + seq![','] + entries_json(es.drop_first())
    }
}

/// A whole tag document: `{"tags":{ ... }}`.
pub open spec fn db_json(es: Seq<EntryM>) -> Seq<char> {
    seq!['{'] + json_quote("tags"@) + seq![':'] + seq!['{'] + entries_json(es) + seq!['}']
        + seq!['}']
}

// ------------------------------------------------------------------
// Parsing, mathematically.
// ------------------------------------------------------------------
/// JSON whitespace.
pub open spec fn is_ws(c: char) -> bool {
    c == ' ' || c == '\n' || c == '\t' || c == '\r'
}

/// The first position at or after `i` holding no whitespace.
pub open spec fn skip_ws(s: Seq<char>, i: int) -> int
    decreases s.len() - i,
{
    if 0 <= i < s.len() && is_ws(s[i]) {
        skip_ws(s, i + 1)
    } else {
        i
    }
}

/// Consumes whitespace, then the single character `c`.
pub open spec fn tok_at(s: Seq<char>, i: int, c: char) -> Option<int> {
    let j = skip_ws(s, i);
    if 0 <= j < s.len() && s[j] == c {
        Some(j + 1)
    } else {
        None
    }
}

/// The character a two-character escape stands for, by its letter.
pub open spec fn unescaped(e: char) -> Option<char> {
    if e == '"' {
        Some('"')
    } else if e == '\\' {
        Some('\\')
    } else if e == '/' {
        Some('/')
    } else if e == 'n' {
        Some('\n')
    } else if e == 'r' {
        Some('\r')
    } else if e == 't' {
        Some('\t')
    } else if e == 'b' {
        Some('\u{8}')
    } else if e == 'f' {
        Some('\u{c}')
    } else {
        None
    }
}

/// The value of one hexadecimal digit, or a negative number for any other
/// character.
pub open spec fn hex_val_of(c: char) -> int {
    if '0' as u32 <= c as u32 && c as u32 <= '9' as u32 {
        c as u32 - '0' as u32
    } else if 'a' as u32 <= c as u32 && c as u32 <= 'f' as u32 {
        c as u32 - 'a' as u32 + 10
    } else if 'A' as u32 <= c as u32 && c as u32 <= 'F' as u32 {
        c as u32 - 'A' as u32 + 10
    } else {
        -1
    }
}

/// Whether four hexadecimal digits stand at `i`.
pub open spec fn hex4_ok(s: Seq<char>, i: int) -> bool {
    &&& 0 <= i
    &&& i + 4 <= s.len()
    &&& hex_val_of(s[i]) >= 0
    &&& hex_val_of(s[i + 1]) >= 0
    &&& hex_val_of(s[i + 2]) >= 0
    &&& hex_val_of(s[i + 3]) >= 0
}

/// The value of the four hexadecimal digits at `i`.
pub open spec fn hex4_at(s: Seq<char>, i: int) -> int {
    hex_val_of(s[i]) * 4096 + hex_val_of(s[i + 1]) * 256 + hex_val_of(s[i + 2]) * 16 + hex_val_of(
        s[i + 3],
    )
}

/// Consumes a string body up to and including the closing quote, undoing the
/// escapes; `i` points just past the opening quote. The two-character
/// escapes, `\u` escapes and surrogate pairs are read back; any unescaped
/// character other than `"` and `\` stands for itself.
pub open spec fn parse_str_body(s: Seq<char>, i: int) -> Option<(Seq<char>, int)>
    decreases s.len() - i,
{
    if i < 0 || i >= s.len() {
        None
    } else if s[i] == '"' {
        Some((Seq::empty(), i + 1))
    } else if s[i] == '\\' {
        if i + 1 < s.len() && unescaped(s[i + 1]) is Some {
            match parse_str_body(s, i + 2) {
                Some(r) => Some((seq![unescaped(s[i + 1])->Some_0] + r.0, r.1)),
                None => None,
            }
        } else if i + 1 < s.len() && s[i + 1] == 'u' {
            if hex4_ok(s, i + 2) {
                let code = hex4_at(s, i + 2);
                if 0xD800 <= code && code <= 0xDBFF {
                    if i + 7 < s.len() && s[i + 6] == '\\' && s[i + 7] == 'u' && hex4_ok(
                        s,
                        i + 8,
                    ) {
                        let low = hex4_at(s, i + 8);
                        if 0xDC00 <= low && low <= 0xDFFF {
                            let scalar = 0x10000 + (code - 0xD800) * 0x400 + (low - 0xDC00);
                            match parse_str_body(s, i + 12) {
                                Some(r) => Some((seq![(scalar as u32) as char] + r.0, r.1)),
                                None => None,
                            }
                        } else {
                            None
                        }
                    } else {
                        None
                    }
                } else if 0xDC00 <= code && code <= 0xDFFF {
                    None
                } else {
                    match parse_str_body(s, i + 6) {
                        Some(r) => Some((seq![(code as u32) as char] + r.0, r.1)),
                        None => None,
                    }
                }
            } else {
                None
            }
        } else {
            None
        }
    } else if (s[i] as u32) < 32 {
        None
    } else {
        match parse_str_body(s, i + 1) {
            Some(r) => Some((seq![s[i]] + r.0, r.1)),
            None => None,
        }
    }
}

/// Consumes whitespace, then a quoted JSON string.
pub open spec fn parse_string(s: Seq<char>, i: int) -> Option<(Seq<char>, int)> {
    let j = skip_ws(s, i);
    if 0 <= j < s.len() && s[j] == '"' {
        parse_str_body(s, j + 1)
    } else {
        None
    }
}

/// A character that may stand inside an unquoted scalar token.
pub open spec fn is_token_char(c: char) -> bool {
    !(c == ',' || c == '}' || c == ']' || is_ws(c))
}

/// The first position at or after `k` outside the scalar token.
pub open spec fn scalar_end(s: Seq<char>, k: int) -> int
    decreases s.len() - k,
{
    if 0 <= k < s.len() && is_token_char(s[k]) {
        scalar_end(s, k + 1)
    } else {
        k
    }
}

/// Consumes the remainder of a nested composite value entered at nesting
/// level `depth`: strings are jumped over, braces and brackets are matched
/// by count alone.
pub open spec fn skip_composite(s: Seq<char>, i: int, depth: int) -> Option<int>
    decreases s.len() - i,
    via skip_composite_dec
{
    if depth <= 0 || i < 0 || i >= s.len() {
        None
    } else if s[i] == '"' {
        match parse_str_body(s, i + 1) {
            Some(r) => skip_composite(s, r.1, depth),
            None => None,
        }
    } else if s[i] == '{' || s[i] == '[' {
        skip_composite(s, i + 1, depth + 1)
    } else if s[i] == '}' || s[i] == ']' {
        if depth == 1 {
            Some(i + 1)
        } else {
            skip_composite(s, i + 1, depth - 1)
        }
    } else {
        skip_composite(s, i + 1, depth)
    }
}

#[via_fn]
proof fn skip_composite_dec(s: Seq<char>, i: int, depth: int) {
    lemma_parse_str_body_bounds(s, i + 1);
}

/// Consumes one JSON value of any kind, leniently: a string, a composite,
/// or a run of separator-free characters standing for a scalar literal.
/// Unknown members' values pass through here and are not interpreted.
pub open spec fn skip_value(s: Seq<char>, i: int) -> Option<int> {
    let j = skip_ws(s, i);
    if 0 <= j < s.len() {
        if s[j] == '"' {
            match parse_str_body(s, j + 1) {
                Some(r) => Some(r.1),
                None => None,
            }
        } else if s[j] == '{' || s[j] == '[' {
            skip_composite(s, j + 1, 1)
        } else if is_token_char(s[j]) {
            Some(scalar_end(s, j + 1))
        } else {
            None
        }
    } else {
        None
    }
}

/// The four record members collected while reading a tag record.
pub ghost struct TagAcc {
    pub path: Option<Seq<char>>,
    pub name: Option<Seq<char>>,
    pub description: Option<Seq<char>>,
    pub value: Option<Seq<char>>,
}

/// One member's value: a string stored under the named field — a second
/// occurrence of a field is refused — or any value skipped when the member
/// name is unknown.
pub open spec fn parse_tag_member_value(s: Seq<char>, i: int, acc: TagAcc, k: Seq<char>) -> Option<
    (TagAcc, int),
> {
    if k == "path"@ {
        if acc.path is Some {
            None
        } else {
            match parse_string(s, i) {
                Some((v, j)) => Some((TagAcc { path: Some(v), ..acc }, j)),
                None => None,
            }
        }
    } else if k == "name"@ {
        if acc.name is Some {
            None
        } else {
            match parse_string(s, i) {
                Some((v, j)) => Some((TagAcc { name: Some(v), ..acc }, j)),
                None => None,
            }
        }
    } else if k == "description"@ {
        if acc.description is Some {
            None
        } else {
            match parse_string(s, i) {
                Some((v, j)) => Some((TagAcc { description: Some(v), ..acc }, j)),
                None => None,
            }
        }
    } else if k == "value"@ {
        if acc.value is Some {
            None
        } else {
            match parse_string(s, i) {
                Some((v, j)) => Some((TagAcc { value: Some(v), ..acc }, j)),
                None => None,
            }
        }
    } else {
        match skip_value(s, i) {
            Some(j) => Some((acc, j)),
            None => None,
        }
    }
}

/// Consumes the members of a non-empty tag record, in any order, up to and
/// including its closing brace.
pub open spec fn parse_tag_members(s: Seq<char>, i: int, acc: TagAcc) -> Option<(TagAcc, int)>
    decreases s.len() - i,
    via parse_tag_members_dec
{
    if i < 0 {
        None
    } else {
        match parse_string(s, i) {
            Some((k, j)) => match tok_at(s, j, ':') {
                Some(j2) => match parse_tag_member_value(s, j2, acc, k) {
                    Some((acc2, j3)) => {
                        let j4 = skip_ws(s, j3);
                        if 0 <= j4 < s.len() && s[j4] == ',' {
                            parse_tag_members(s, j4 + 1, acc2)
                        } else if 0 <= j4 < s.len() && s[j4] == '}' {
                            Some((acc2, j4 + 1))
                        } else {
                            None
                        }
                    },
                    None => None,
                },
                None => None,
            },
            None => None,
        }
    }
}

#[via_fn]
proof fn parse_tag_members_dec(s: Seq<char>, i: int, acc: TagAcc) {
    if 0 <= i <= s.len() {
        lemma_parse_string_bounds(s, i);
        if let Some((k, j)) = parse_string(s, i) {
            lemma_tok_bounds(s, j, ':');
            if let Some(j2) = tok_at(s, j, ':') {
                lemma_parse_tag_member_value_bounds(s, j2, acc, k);
                if let Some((acc2, j3)) = parse_tag_member_value(s, j2, acc, k) {
                    lemma_skip_ws_bounds(s, j3);
                }
            }
        }
    }
}

/// Consumes one tag record: the four string fields, in any order, each
/// exactly once, with unknown members ignored.
pub open spec fn parse_tag_obj(s: Seq<char>, i: int) -> Option<(TagM, int)> {
    match tok_at(s, i, '{') {
        Some(j0) => match parse_tag_members(
            s,
            j0,
            TagAcc { path: None, name: None, description: None, value: None },
        ) {
            Some((acc, j)) => if acc.path is Some && acc.name is Some && acc.description is Some
                && acc.value is Some {
                Some(
                    (
                        TagM {
                            path: acc.path->Some_0,
                            name: acc.name->Some_0,
                            description: acc.description->Some_0,
                            value: acc.value->Some_0,
                        },
                        j,
                    ),
                )
            } else {
                None
            },
            None => None,
        },
        None => None,
    }
}

/// Consumes the members of a non-empty `tags` object, up to and including
/// its closing brace.
pub open spec fn parse_entries(s: Seq<char>, i: int) -> Option<(Seq<EntryM>, int)>
    decreases s.len() - i,
    via parse_entries_dec
{
    if i < 0 {
        None
    } else {
        match parse_string(s, i) {
            Some((k, j)) => match tok_at(s, j, ':') {
                Some(j2) => match parse_tag_obj(s, j2) {
                    Some((t, j3)) => {
                        let j4 = skip_ws(s, j3);
                        if 0 <= j4 < s.len() && s[j4] == ',' {
                            match parse_entries(s, j4 + 1) {
                                Some((rest, j5)) => Some(
                                    (seq![EntryM { key: k, tag: t }] + rest, j5),
                                ),
                                None => None,
                            }
                        } else if 0 <= j4 < s.len() && s[j4] == '}' {
                            Some((seq![EntryM { key: k, tag: t }], j4 + 1))
                        } else {
                            None
                        }
                    },
                    None => None,
                },
                None => None,
            },
            None => None,
        }
    }
}

#[via_fn]
proof fn parse_entries_dec(s: Seq<char>, i: int) {
    if 0 <= i <= s.len() {
        lemma_parse_string_bounds(s, i);
        if let Some((k, j)) = parse_string(s, i) {
            lemma_tok_bounds(s, j, ':');
            if let Some(j2) = tok_at(s, j, ':') {
                lemma_parse_tag_obj_bounds(s, j2);
                if let Some((t, j3)) = parse_tag_obj(s, j2) {
                    lemma_skip_ws_bounds(s, j3);
                }
            }
        }
    }
}

/// The `tags` member's value: an object of entries, possibly empty.
pub open spec fn parse_tags_object(s: Seq<char>, i: int) -> Option<(Seq<EntryM>, int)> {
    match tok_at(s, i, '{') {
        Some(j0) => {
            let j = skip_ws(s, j0);
            if 0 <= j < s.len() && s[j] == '}' {
                Some((Seq::empty(), j + 1))
            } else {
                parse_entries(s, j0)
            }
        },
        None => None,
    }
}

/// One outer member's value: the entries under `tags` — a second `tags`
/// member is refused — with any other value skipped.
pub open spec fn parse_doc_member_value(
    s: Seq<char>,
    i: int,
    found: Option<Seq<EntryM>>,
    k: Seq<char>,
) -> Option<(Option<Seq<EntryM>>, int)> {
    if k == "tags"@ {
        if found is Some {
            None
        } else {
            match parse_tags_object(s, i) {
                Some((es, j)) => Some((Some(es), j)),
                None => None,
            }
        }
    } else {
        match skip_value(s, i) {
            Some(j) => Some((found, j)),
            None => None,
        }
    }
}

/// Consumes the members of the outer object, requiring a `tags` member to
/// occur, exactly once, among any ignored others.
pub open spec fn parse_doc_members(s: Seq<char>, i: int, found: Option<Seq<EntryM>>) -> Option<
    (Seq<EntryM>, int),
>
    decreases s.len() - i,
    via parse_doc_members_dec
{
    if i < 0 {
        None
    } else {
        match parse_string(s, i) {
            Some((k, j)) => match tok_at(s, j, ':') {
                Some(j2) => match parse_doc_member_value(s, j2, found, k) {
                    Some((found2, j3)) => {
                        let j4 = skip_ws(s, j3);
                        if 0 <= j4 < s.len() && s[j4] == ',' {
                            parse_doc_members(s, j4 + 1, found2)
                        } else if 0 <= j4 < s.len() && s[j4] == '}' {
                            match found2 {
                                Some(es) => Some((es, j4 + 1)),
                                None => None,
                            }
                        } else {
                            None
                        }
                    },
                    None => None,
                },
                None => None,
            },
            None => None,
        }
    }
}

#[via_fn]
proof fn parse_doc_members_dec(s: Seq<char>, i: int, found: Option<Seq<EntryM>>) {
    if 0 <= i <= s.len() {
        lemma_parse_string_bounds(s, i);
        if let Some((k, j)) = parse_string(s, i) {
            lemma_tok_bounds(s, j, ':');
            if let Some(j2) = tok_at(s, j, ':') {
                lemma_parse_doc_member_value_bounds(s, j2, found, k);
                if let Some((found2, j3)) = parse_doc_member_value(s, j2, found, k) {
                    lemma_skip_ws_bounds(s, j3);
                }
            }
        }
    }
}

/// Parses a whole tag document: the outer object holding a single `tags`
/// member, and nothing but whitespace after it. Yields the entries in
/// document order.
pub open spec fn parse_doc(s: Seq<char>) -> Option<Seq<EntryM>> {
    match tok_at(s, 0, '{') {
        Some(i1) => match parse_doc_members(s, i1, None) {
            Some((es, j)) => if skip_ws(s, j) == s.len() {
                Some(es)
            } else {
                None
            },
            None => None,
        },
        None => None,
    }
}

/// What loading a document yields: its entries, provided the document is
/// well formed and no key occurs twice.
pub open spec fn load_doc(s: Seq<char>) -> Option<Seq<EntryM>> {
    match parse_doc(s) {
        Some(es) => if unique_keys(es) {
            Some(es)
        } else {
            None
        },
        None => None,
    }
}

// ------------------------------------------------------------------
// Bounds of the parsing functions.
// ------------------------------------------------------------------
pub proof fn lemma_skip_ws_bounds(s: Seq<char>, i: int)
    requires
        0 <= i <= s.len(),
    ensures
        i <= skip_ws(s, i) <= s.len(),
    decreases s.len() - i,
{
    if i < s.len() && is_ws(s[i]) {
        lemma_skip_ws_bounds(s, i + 1);
    }
}

pub proof fn lemma_tok_bounds(s: Seq<char>, i: int, c: char)
    requires
        0 <= i <= s.len(),
    ensures
        tok_at(s, i, c) matches Some(j) ==> i < j <= s.len(),
{
    lemma_skip_ws_bounds(s, i);
}

pub proof fn lemma_parse_str_body_bounds(s: Seq<char>, i: int)
    ensures
        parse_str_body(s, i) matches Some(r) ==> i < r.1 <= s.len(),
    decreases s.len() - i,
{
    if 0 <= i < s.len() {
        if s[i] == '"' {
        } else if s[i] == '\\' {
            if i + 1 < s.len() && unescaped(s[i + 1]) is Some {
                lemma_parse_str_body_bounds(s, i + 2);
            } else if i + 1 < s.len() && s[i + 1] == 'u' {
                if hex4_ok(s, i + 2) {
                    let code = hex4_at(s, i + 2);
                    if 0xD800 <= code && code <= 0xDBFF {
                        if i + 7 < s.len() && s[i + 6] == '\\' && s[i + 7] == 'u' && hex4_ok(
                            s,
                            i + 8,
                        ) {
                            lemma_parse_str_body_bounds(s, i + 12);
                        }
                    } else if 0xDC00 <= code && code <= 0xDFFF {
                    } else {
                        lemma_parse_str_body_bounds(s, i + 6);
                    }
                }
            }
        } else if (s[i] as u32) < 32 {
        } else {
            lemma_parse_str_body_bounds(s, i + 1);
        }
    }
}

pub proof fn lemma_parse_string_bounds(s: Seq<char>, i: int)
    requires
        0 <= i <= s.len(),
    ensures
        parse_string(s, i) matches Some(r) ==> i < r.1 <= s.len(),
{
    lemma_skip_ws_bounds(s, i);
    lemma_parse_str_body_bounds(s, skip_ws(s, i) + 1);
}

proof fn lemma_scalar_end_bounds(s: Seq<char>, k: int)
    requires
        0 <= k <= s.len(),
    ensures
        k <= scalar_end(s, k) <= s.len(),
    decreases s.len() - k,
{
    if k < s.len() && is_token_char(s[k]) {
        lemma_scalar_end_bounds(s, k + 1);
    }
}

proof fn lemma_skip_composite_bounds(s: Seq<char>, i: int, depth: int)
    ensures
        skip_composite(s, i, depth) matches Some(j) ==> i < j <= s.len(),
    decreases s.len() - i,
{
    if depth <= 0 || i < 0 || i >= s.len() {
    } else if s[i] == '"' {
        lemma_parse_str_body_bounds(s, i + 1);
        if let Some(r) = parse_str_body(s, i + 1) {
            lemma_skip_composite_bounds(s, r.1, depth);
        }
    } else if s[i] == '{' || s[i] == '[' {
        lemma_skip_composite_bounds(s, i + 1, depth + 1);
    } else if s[i] == '}' || s[i] == ']' {
        if depth != 1 {
            lemma_skip_composite_bounds(s, i + 1, depth - 1);
        }
    } else {
        lemma_skip_composite_bounds(s, i + 1, depth);
    }
}

pub proof fn lemma_skip_value_bounds(s: Seq<char>, i: int)
    requires
        0 <= i <= s.len(),
    ensures
        skip_value(s, i) matches Some(j) ==> i < j <= s.len(),
{
    lemma_skip_ws_bounds(s, i);
    let j = skip_ws(s, i);
    if 0 <= j < s.len() {
        lemma_parse_str_body_bounds(s, j + 1);
        lemma_skip_composite_bounds(s, j + 1, 1);
        lemma_scalar_end_bounds(s, j + 1);
    }
}

proof fn lemma_parse_tag_member_value_bounds(s: Seq<char>, i: int, acc: TagAcc, k: Seq<char>)
    requires
        0 <= i <= s.len(),
    ensures
        parse_tag_member_value(s, i, acc, k) matches Some(r) ==> i < r.1 <= s.len(),
{
    lemma_parse_string_bounds(s, i);
    lemma_skip_value_bounds(s, i);
}

pub proof fn lemma_parse_tag_members_bounds(s: Seq<char>, i: int, acc: TagAcc)
    requires
        0 <= i <= s.len(),
    ensures
        parse_tag_members(s, i, acc) matches Some(r) ==> i < r.1 <= s.len(),
    decreases s.len() - i,
{
    lemma_parse_string_bounds(s, i);
    if let Some((k, j)) = parse_string(s, i) {
        lemma_tok_bounds(s, j, ':');
        if let Some(j2) = tok_at(s, j, ':') {
            lemma_parse_tag_member_value_bounds(s, j2, acc, k);
            if let Some((acc2, j3)) = parse_tag_member_value(s, j2, acc, k) {
                lemma_skip_ws_bounds(s, j3);
                let j4 = skip_ws(s, j3);
                if 0 <= j4 < s.len() && s[j4] == ',' {
                    lemma_parse_tag_members_bounds(s, j4 + 1, acc2);
                }
            }
        }
    }
}

pub proof fn lemma_parse_tag_obj_bounds(s: Seq<char>, i: int)
    requires
        0 <= i <= s.len(),
    ensures
        parse_tag_obj(s, i) matches Some(r) ==> i < r.1 <= s.len(),
{
    lemma_tok_bounds(s, i, '{');
    if let Some(j0) = tok_at(s, i, '{') {
        lemma_parse_tag_members_bounds(
            s,
            j0,
            TagAcc { path: None, name: None, description: None, value: None },
        );
    }
}

pub proof fn lemma_parse_tags_object_bounds(s: Seq<char>, i: int)
    requires
        0 <= i <= s.len(),
    ensures
        parse_tags_object(s, i) matches Some(r) ==> i < r.1 <= s.len(),
{
    lemma_tok_bounds(s, i, '{');
    if let Some(j0) = tok_at(s, i, '{') {
        lemma_skip_ws_bounds(s, j0);
        lemma_parse_entries_bounds(s, j0);
    }
}

proof fn lemma_parse_doc_member_value_bounds(
    s: Seq<char>,
    i: int,
    found: Option<Seq<EntryM>>,
    k: Seq<char>,
)
    requires
        0 <= i <= s.len(),
    ensures
        parse_doc_member_value(s, i, found, k) matches Some(r) ==> i < r.1 <= s.len(),
{
    lemma_parse_tags_object_bounds(s, i);
    lemma_skip_value_bounds(s, i);
}

pub proof fn lemma_parse_entries_bounds(s: Seq<char>, i: int)
    requires
        0 <= i <= s.len(),
    ensures
        parse_entries(s, i) matches Some(r) ==> i < r.1 <= s.len(),
    decreases s.len() - i,
{
    lemma_parse_string_bounds(s, i);
    if let Some((k, j)) = parse_string(s, i) {
        lemma_tok_bounds(s, j, ':');
        if let Some(j2) = tok_at(s, j, ':') {
            lemma_parse_tag_obj_bounds(s, j2);
            if let Some((t, j3)) = parse_tag_obj(s, j2) {
                lemma_skip_ws_bounds(s, j3);
                let j4 = skip_ws(s, j3);
                if 0 <= j4 < s.len() && s[j4] == ',' {
                    lemma_parse_entries_bounds(s, j4 + 1);
                }
            }
        }
    }
}

// ------------------------------------------------------------------
// The round trip: parsing a serialized document yields it back.
// ------------------------------------------------------------------
/// The characters of `x` stand in `s` starting at position `i`.
pub open spec fn occurs_at(s: Seq<char>, i: int, x: Seq<char>) -> bool {
    0 <= i && i + x.len() <= s.len() && s.subrange(i, i + x.len()) == x
}

proof fn lemma_occurs_index(s: Seq<char>, i: int, x: Seq<char>, k: int)
    requires
        occurs_at(s, i, x),
        0 <= k < x.len(),
    ensures
        s[i + k] == x[k],
{
    assert(s.subrange(i, i + x.len())[k] == s[i + k]);
}

proof fn lemma_occurs_split(s: Seq<char>, i: int, x: Seq<char>, y: Seq<char>)
    requires
        occurs_at(s, i, x + y),
    ensures
        occurs_at(s, i, x),
        occurs_at(s, i + x.len(), y),
{
    let n = x.len() as int;
    let m = y.len() as int;
    assert(s.subrange(i, i + n) =~= x) by {
        assert forall|k: int| 0 <= k < n implies s.subrange(i, i + n)[k] == x[k] by {
            assert(s.subrange(i, i + n + m)[k] == s[i + k]);
            assert(s.subrange(i, i + n)[k] == s[i + k]);
            assert((x + y)[k] == x[k]);
        }
    }
    assert(s.subrange(i + n, i + n + m) =~= y) by {
        assert forall|k: int| 0 <= k < m implies s.subrange(i + n, i + n + m)[k] == y[k] by {
            assert(s.subrange(i, i + n + m)[n + k] == s[i + n + k]);
            assert(s.subrange(i + n, i + n + m)[k] == s[i + n + k]);
            assert((x + y)[n + k] == y[k]);
        }
    }
}

proof fn lemma_occurs_join(s: Seq<char>, i: int, x: Seq<char>, y: Seq<char>)
    requires
        occurs_at(s, i, x),
        occurs_at(s, i + x.len(), y),
    ensures
        occurs_at(s, i, x + y),
{
    let n = x.len() as int;
    let m = y.len() as int;
    assert(s.subrange(i, i + n + m) =~= x + y) by {
        assert forall|k: int| 0 <= k < n + m implies s.subrange(i, i + n + m)[k] == (x + y)[k] by {
            assert(s.subrange(i, i + n + m)[k] == s[i + k]);
            if k < n {
                assert(s.subrange(i, i + n)[k] == s[i + k]);
            } else {
                assert(s.subrange(i + n, i + n + m)[k - n] == s[i + k]);
            }
        }
    }
}

proof fn lemma_occurs_self(x: Seq<char>)
    ensures
        occurs_at(x, 0, x),
{
    assert(x.subrange(0, x.len() as int) =~= x);
}

proof fn lemma_tok_exact(s: Seq<char>, i: int, c: char)
    requires
        occurs_at(s, i, seq![c]),
        !is_ws(c),
    ensures
        tok_at(s, i, c) == Some(i + 1),
{
    lemma_occurs_index(s, i, seq![c], 0);
    assert(skip_ws(s, i) == i);
}

/// A hexadecimal digit written by the serializer reads back as its value.
proof fn lemma_hex_char_val(n: int)
    requires
        0 <= n < 16,
    ensures
        hex_val_of(hex_char_of(n)) == n,
{
}

proof fn lemma_parse_str_body_exact(s: Seq<char>, i: int, t: Seq<char>)
    requires
        occurs_at(s, i, json_escape(t) + seq!['"']),
    ensures
        parse_str_body(s, i) == Some((t, i + json_escape(t).len() + 1)),
    decreases t.len(),
{
    let w = json_escape(t);
    if t.len() == 0 {
        assert(w == Seq::<char>::empty());
        lemma_occurs_split(s, i, w, seq!['"']);
        lemma_occurs_index(s, i, seq!['"'], 0);
        assert(t =~= Seq::<char>::empty());
    } else {
        let c = t[0];
        let t1 = t.drop_first();
        assert(w == esc_char(c) + json_escape(t1));
        lemma_occurs_split(s, i, esc_char(c) + json_escape(t1), seq!['"']);
        lemma_occurs_split(s, i, esc_char(c), json_escape(t1));
        lemma_occurs_join(s, i + esc_char(c).len(), json_escape(t1), seq!['"']);
        lemma_parse_str_body_exact(s, i + esc_char(c).len(), t1);
        if c == '"' || c == '\\' || c == '\n' || c == '\r' || c == '\t' || c == '\u{8}'
            || c == '\u{c}' {
            lemma_occurs_index(s, i, esc_char(c), 0);
            lemma_occurs_index(s, i, esc_char(c), 1);
            assert(unescaped(s[i + 1]) == Some(c));
            assert(seq![unescaped(s[i + 1])->Some_0] + t1 =~= t);
        } else if (c as u32) < 32 {
            let u = (c as u32) as int;
            lemma_occurs_index(s, i, esc_char(c), 0);
            lemma_occurs_index(s, i, esc_char(c), 1);
            lemma_occurs_index(s, i, esc_char(c), 2);
            lemma_occurs_index(s, i, esc_char(c), 3);
            lemma_occurs_index(s, i, esc_char(c), 4);
            lemma_occurs_index(s, i, esc_char(c), 5);
            assert(unescaped('u') is None);
            lemma_hex_char_val(u / 16);
            lemma_hex_char_val(u % 16);
            assert(hex_val_of('0') == 0);
            assert(hex4_ok(s, i + 2));
            assert(hex4_at(s, i + 2) == u);
            assert(((u as u32) as char) == c) by {
                vstd::utf8::char_u32_cast(c, c as u32);
            }
            assert(seq![(hex4_at(s, i + 2) as u32) as char] + t1 =~= t);
        } else {
            lemma_occurs_index(s, i, esc_char(c), 0);
            assert(seq![s[i]] + t1 =~= t);
        }
    }
}

proof fn lemma_parse_string_exact(s: Seq<char>, i: int, t: Seq<char>)
    requires
        occurs_at(s, i, json_quote(t)),
    ensures
        parse_string(s, i) == Some((t, i + json_quote(t).len())),
{
    assert(json_quote(t) == (seq!['"'] + json_escape(t)) + seq!['"']);
    lemma_occurs_split(s, i, seq!['"'] + json_escape(t), seq!['"']);
    lemma_occurs_split(s, i, seq!['"'], json_escape(t));
    lemma_occurs_index(s, i, seq!['"'], 0);
    lemma_occurs_join(s, i + 1, json_escape(t), seq!['"']);
    assert(skip_ws(s, i) == i);
    lemma_parse_str_body_exact(s, i + 1, t);
}

proof fn lemma_parse_field_pieces(s: Seq<char>, i: int, name: Seq<char>, v: Seq<char>)
    requires
        occurs_at(s, i, field_json(name, v)),
    ensures
        parse_string(s, i) == Some((name, i + json_quote(name).len())),
        tok_at(s, i + json_quote(name).len(), ':') == Some(i + json_quote(name).len() + 1),
        parse_string(s, i + json_quote(name).len() + 1) == Some(
            (v, i + field_json(name, v).len()),
        ),
{
    let qn = json_quote(name);
    let qv = json_quote(v);
    assert(field_json(name, v) == (qn + seq![':']) + qv);
    lemma_occurs_split(s, i, qn + seq![':'], qv);
    lemma_occurs_split(s, i, qn, seq![':']);
    lemma_parse_string_exact(s, i, name);
    lemma_tok_exact(s, i + qn.len(), ':');
    lemma_parse_string_exact(s, i + qn.len() + 1, v);
}

#[verifier::rlimit(100)]
#[verifier::spinoff_prover]
proof fn lemma_parse_tag_obj_exact(s: Seq<char>, i: int, t: TagM)
    requires
        occurs_at(s, i, tag_json(t)),
    ensures
        parse_tag_obj(s, i) == Some((t, i + tag_json(t).len())),
{
    let f1 = field_json("path"@, t.path);
    let f2 = field_json("name"@, t.name);
    let f3 = field_json("description"@, t.description);
    let f4 = field_json("value"@, t.value);
    let a8 = seq!['{'] + f1 + seq![','] + f2 + seq![','] + f3 + seq![','] + f4;
    let a7 = seq!['{'] + f1 + seq![','] + f2 + seq![','] + f3 + seq![','];
    let a6 = seq!['{'] + f1 + seq![','] + f2 + seq![','] + f3;
    let a5 = seq!['{'] + f1 + seq![','] + f2 + seq![','];
    let a4 = seq!['{'] + f1 + seq![','] + f2;
    let a3 = seq!['{'] + f1 + seq![','];
    let a2 = seq!['{'] + f1;
    assert(tag_json(t) == a8 + seq!['}']);
    lemma_occurs_split(s, i, a8, seq!['}']);
    lemma_occurs_split(s, i, a7, f4);
    lemma_occurs_split(s, i, a6, seq![',']);
    lemma_occurs_split(s, i, a5, f3);
    lemma_occurs_split(s, i, a4, seq![',']);
    lemma_occurs_split(s, i, a3, f2);
    lemma_occurs_split(s, i, a2, seq![',']);
    lemma_occurs_split(s, i, seq!['{'], f1);
    lemma_tok_exact(s, i, '{');
    lemma_parse_field_pieces(s, i + 1, "path"@, t.path);
    lemma_tok_exact(s, i + a2.len(), ',');
    lemma_parse_field_pieces(s, i + a3.len(), "name"@, t.name);
    lemma_tok_exact(s, i + a4.len(), ',');
    lemma_parse_field_pieces(s, i + a5.len(), "description"@, t.description);
    lemma_tok_exact(s, i + a6.len(), ',');
    lemma_parse_field_pieces(s, i + a7.len(), "value"@, t.value);
    lemma_tok_exact(s, i + a8.len(), '}');
    assert("name"@ != "path"@ && "description"@ != "path"@ && "description"@ != "name"@
        && "value"@ != "path"@ && "value"@ != "name"@ && "value"@ != "description"@) by {
        reveal_strlit("path");
        reveal_strlit("name");
        reveal_strlit("description");
        reveal_strlit("value");
    }
    let acc0 = TagAcc { path: None, name: None, description: None, value: None };
    let acc1 = TagAcc { path: Some(t.path), name: None, description: None, value: None };
    let acc2 = TagAcc { path: Some(t.path), name: Some(t.name), description: None, value: None };
    let acc3 = TagAcc {
        path: Some(t.path),
        name: Some(t.name),
        description: Some(t.description),
        value: None,
    };
    let acc4 = TagAcc {
        path: Some(t.path),
        name: Some(t.name),
        description: Some(t.description),
        value: Some(t.value),
    };
    assert(skip_ws(s, i + a2.len()) == i + a2.len() && s[i + a2.len()] == ',');
    assert(skip_ws(s, i + a4.len()) == i + a4.len() && s[i + a4.len()] == ',');
    assert(skip_ws(s, i + a6.len()) == i + a6.len() && s[i + a6.len()] == ',');
    assert(skip_ws(s, i + a8.len()) == i + a8.len() && s[i + a8.len()] == '}');
    assert(parse_tag_members(s, i + a7.len(), acc3) == Some((acc4, i + a8.len() + 1)));
    assert(parse_tag_members(s, i + a5.len(), acc2) == Some((acc4, i + a8.len() + 1)));
    assert(parse_tag_members(s, i + a3.len(), acc1) == Some((acc4, i + a8.len() + 1)));
    assert(parse_tag_members(s, i + 1, acc0) == Some((acc4, i + a8.len() + 1)));
    assert(t == (TagM { path: t.path, name: t.name, description: t.description, value: t.value }));
}

#[verifier::rlimit(100)]
#[verifier::spinoff_prover]
proof fn lemma_parse_entries_exact(s: Seq<char>, i: int, es: Seq<EntryM>)
    requires
        es.len() >= 1,
        occurs_at(s, i, entries_json(es) + seq!['}']),
    ensures
        parse_entries(s, i) == Some((es, i + entries_json(es).len() + 1)),
    decreases es.len(),
{
    let e = es[0];
    let ej = entry_json(e);
    let qk = json_quote(e.key);
    let tj = tag_json(e.tag);
    assert(ej == (qk + seq![':']) + tj);
    let j3 = i + ej.len() as int;
    if es.len() == 1 {
        assert(entries_json(es) == ej);
        lemma_occurs_split(s, i, ej, seq!['}']);
        lemma_occurs_split(s, i, qk + seq![':'], tj);
        lemma_occurs_split(s, i, qk, seq![':']);
        lemma_parse_string_exact(s, i, e.key);
        lemma_tok_exact(s, i + qk.len(), ':');
        lemma_parse_tag_obj_exact(s, i + qk.len() + 1, e.tag);
        lemma_occurs_index(s, j3, seq!['}'], 0);
        assert(skip_ws(s, j3) == j3);
        assert(seq![EntryM { key: e.key, tag: e.tag }] =~= es);
    } else {
        let es1 = es.drop_first();
        assert(entries_json(es) == (ej + seq![',']) + entries_json(es1));
        lemma_occurs_split(s, i, (ej + seq![',']) + entries_json(es1), seq!['}']);
        lemma_occurs_split(s, i, ej + seq![','], entries_json(es1));
        lemma_occurs_split(s, i, ej, seq![',']);
        lemma_occurs_split(s, i, qk + seq![':'], tj);
        lemma_occurs_split(s, i, qk, seq![':']);
        lemma_parse_string_exact(s, i, e.key);
        lemma_tok_exact(s, i + qk.len(), ':');
        lemma_parse_tag_obj_exact(s, i + qk.len() + 1, e.tag);
        lemma_occurs_index(s, j3, seq![','], 0);
        assert(skip_ws(s, j3) == j3);
        lemma_occurs_join(s, j3 + 1, entries_json(es1), seq!['}']);
        lemma_parse_entries_exact(s, j3 + 1, es1);
        assert(seq![EntryM { key: e.key, tag: e.tag }] + es1 =~= es);
    }
}

#[verifier::rlimit(100)]
#[verifier::spinoff_prover]
proof fn lemma_parse_doc_exact(es: Seq<EntryM>)
    ensures
        parse_doc(db_json(es)) == Some(es),
{
    let s = db_json(es);
    let qt = json_quote("tags"@);
    let inner = entries_json(es);
    lemma_occurs_self(s);
    let b5 = seq!['{'] + qt + seq![':'] + seq!['{'] + inner + seq!['}'];
    let b4 = seq!['{'] + qt + seq![':'] + seq!['{'] + inner;
    let b3 = seq!['{'] + qt + seq![':'] + seq!['{'];
    let b2 = seq!['{'] + qt + seq![':'];
    let b1 = seq!['{'] + qt;
    assert(db_json(es) == b5 + seq!['}']);
    lemma_occurs_split(s, 0, b5, seq!['}']);
    lemma_occurs_split(s, 0, b4, seq!['}']);
    lemma_occurs_split(s, 0, b3, inner);
    lemma_occurs_split(s, 0, b2, seq!['{']);
    lemma_occurs_split(s, 0, b1, seq![':']);
    lemma_occurs_split(s, 0, seq!['{'], qt);
    lemma_tok_exact(s, 0, '{');
    lemma_parse_string_exact(s, 1, "tags"@);
    lemma_tok_exact(s, b2.len() - 1, ':');
    lemma_tok_exact(s, b3.len() - 1, '{');
    let i4 = b3.len() as int;
    let j3 = i4 + inner.len() as int + 1;
    if es.len() == 0 {
        assert(inner =~= Seq::<char>::empty());
        lemma_occurs_index(s, i4, seq!['}'], 0);
        assert(skip_ws(s, i4) == i4);
        assert(parse_tags_object(s, b2.len() as int) == Some((Seq::<EntryM>::empty(), j3)));
        assert(Seq::<EntryM>::empty() =~= es);
    } else {
        assert(inner[0] == '"') by {
            let e = es[0];
            assert(entry_json(e) == (json_quote(e.key) + seq![':']) + tag_json(e.tag));
            assert(json_quote(e.key)[0] == '"');
            assert(entry_json(e)[0] == '"');
        }
        lemma_occurs_index(s, i4, inner, 0);
        assert(s[i4] == '"');
        assert(skip_ws(s, i4) == i4);
        lemma_occurs_join(s, i4, inner, seq!['}']);
        lemma_parse_entries_exact(s, i4, es);
        assert(parse_tags_object(s, b2.len() as int) == Some((es, j3)));
    }
    lemma_occurs_index(s, b5.len() as int, seq!['}'], 0);
    assert(s[j3] == '}');
    assert(skip_ws(s, j3) == j3);
    assert(parse_doc_member_value(s, b2.len() as int, Option::<Seq<EntryM>>::None, "tags"@)
        == Some((Some(es), j3)));
    assert(parse_doc_members(s, 1, Option::<Seq<EntryM>>::None) == Some((es, j3 + 1)));
    assert(j3 + 1 == s.len());
    assert(skip_ws(s, s.len() as int) == s.len() as int);
}

/// Law: saving a tag set and loading the result yields the same set of
/// entries, in the same order — and so a mapping equal to the one saved.
pub proof fn lemma_save_load_round_trip(es: Seq<EntryM>)
    requires
        unique_keys(es),
    ensures
        load_doc(db_json(es)) == Some(es),
{
    lemma_parse_doc_exact(es);
}

// ------------------------------------------------------------------
// The executable parser.
// ------------------------------------------------------------------
/// The body parsed so far, prepended to the outcome of the rest.
pub open spec fn opt_prepend(p: Seq<char>, r: Option<(Seq<char>, int)>) -> Option<
    (Seq<char>, int),
> {
    match r {
        Some(t) => Some((p + t.0, t.1)),
        None => None,
    }
}

/// The entries parsed so far, prepended to the outcome of the rest.
pub open spec fn opt_prepend_entries(p: Seq<EntryM>, r: Option<(Seq<EntryM>, int)>) -> Option<
    (Seq<EntryM>, int),
> {
    match r {
        Some(t) => Some((p + t.0, t.1)),
        None => None,
    }
}

fn is_ws_char(c: char) -> (r: bool)
    ensures
        r == is_ws(c),
{
    c == ' ' || c == '\n' || c == '\t' || c == '\r'
}

fn w_skip(s: &Vec<char>, i: usize) -> (r: usize)
    requires
        i <= s@.len(),
    ensures
        r as int == skip_ws(s@, i as int),
        i <= r <= s@.len(),
{
    let mut j = i;
    while j < s.len() && is_ws_char(s[j])
        invariant
            i <= j <= s@.len(),
            skip_ws(s@, i as int) == skip_ws(s@, j as int),
        decreases s@.len() - j,
    {
        j = j + 1;
    }
    proof {
        assert(skip_ws(s@, j as int) == j as int);
    }
    j
}

fn w_tok(s: &Vec<char>, i: usize, c: char) -> (r: Option<usize>)
    requires
        i <= s@.len(),
    ensures
        (match r {
            Some(j) => tok_at(s@, i as int, c) == Some(j as int) && i < j <= s@.len(),
            None => tok_at(s@, i as int, c) is None,
        }),
{
    let j = w_skip(s, i);
    if j < s.len() && s[j] == c {
        Some(j + 1)
    } else {
        None
    }
}

fn unescape2(e: char) -> (r: Option<char>)
    ensures
        r == unescaped(e),
{
    if e == '"' {
        Some('"')
    } else if e == '\\' {
        Some('\\')
    } else if e == '/' {
        Some('/')
    } else if e == 'n' {
        Some('\n')
    } else if e == 'r' {
        Some('\r')
    } else if e == 't' {
        Some('\t')
    } else if e == 'b' {
        Some('\u{8}')
    } else if e == 'f' {
        Some('\u{c}')
    } else {
        None
    }
}

fn hex_digit_val(c: char) -> (r: Option<u32>)
    ensures
        (match r {
            Some(v) => hex_val_of(c) == v as int && v < 16,
            None => hex_val_of(c) < 0,
        }),
{
    let u = c as u32;
    if u >= '0' as u32 && u <= '9' as u32 {
        Some(u - '0' as u32)
    } else if u >= 'a' as u32 && u <= 'f' as u32 {
        Some(u - 'a' as u32 + 10)
    } else if u >= 'A' as u32 && u <= 'F' as u32 {
        Some(u - 'A' as u32 + 10)
    } else {
        None
    }
}

fn read_hex4(s: &Vec<char>, p: usize) -> (r: Option<u32>)
    requires
        p <= s@.len(),
    ensures
        (match r {
            Some(v) => hex4_ok(s@, p as int) && hex4_at(s@, p as int) == v as int && v <= 0xFFFF,
            None => !hex4_ok(s@, p as int),
        }),
{
    if s.len() - p < 4 {
        return None;
    }
    let h0 = match hex_digit_val(s[p]) {
        Some(v) => v,
        None => {
            return None;
        },
    };
    let h1 = match hex_digit_val(s[p + 1]) {
        Some(v) => v,
        None => {
            return None;
        },
    };
    let h2 = match hex_digit_val(s[p + 2]) {
        Some(v) => v,
        None => {
            return None;
        },
    };
    let h3 = match hex_digit_val(s[p + 3]) {
        Some(v) => v,
        None => {
            return None;
        },
    };
    Some(h0 * 4096 + h1 * 256 + h2 * 16 + h3)
}

fn w_str_body(s: &Vec<char>, i: usize) -> (r: Option<(String, usize)>)
    requires
        i <= s@.len(),
    ensures
        (match r {
            Some((t, j)) => parse_str_body(s@, i as int) == Some((t@, j as int)) && i < j
                <= s@.len(),
            None => parse_str_body(s@, i as int) is None,
        }),
{
    proof {
        lemma_parse_str_body_bounds(s@, i as int);
        if let Some(r0) = parse_str_body(s@, i as int) {
            assert(Seq::<char>::empty() + r0.0 =~= r0.0);
        }
    }
    let mut out = String::new();
    let mut j = i;
    loop
        invariant
            i <= j <= s@.len(),
            parse_str_body(s@, i as int) == opt_prepend(out@, parse_str_body(s@, j as int)),
        decreases s@.len() - j,
    {
        if j == s.len() {
            return None;
        }
        let c = s[j];
        if c == '"' {
            proof {
                assert(out@ + Seq::<char>::empty() =~= out@);
            }
            return Some((out, j + 1));
        }
        if c == '\\' {
            if j + 1 >= s.len() {
                return None;
            }
            let e = s[j + 1];
            match unescape2(e) {
                Some(d) => {
                    let ghost prev = out@;
                    let ghost jo = j as int;
                    push_char(&mut out, d);
                    j = j + 2;
                    proof {
                        if let Some(r0) = parse_str_body(s@, jo + 2) {
                            assert(prev + (seq![unescaped(s@[jo + 1])->Some_0] + r0.0) =~= (prev
                                + seq![unescaped(s@[jo + 1])->Some_0]) + r0.0);
                        }
                    }
                },
                None => {
                    if e != 'u' {
                        return None;
                    }
                    let code = match read_hex4(s, j + 2) {
                        Some(v) => v,
                        None => {
                            return None;
                        },
                    };
                    if code >= 0xD800 && code <= 0xDBFF {
                        if s.len() - j > 7 && s[j + 6] == '\\' && s[j + 7] == 'u' {
                            let low = match read_hex4(s, j + 8) {
                                Some(v) => v,
                                None => {
                                    return None;
                                },
                            };
                            if low >= 0xDC00 && low <= 0xDFFF {
                                let scalar = 0x10000 + (code - 0xD800) * 0x400 + (low - 0xDC00);
                                let d = match char_from_u32(scalar) {
                                    Some(d) => d,
                                    None => {
                                        proof {
                                            assert(false);
                                        }
                                        return None;
                                    },
                                };
                                let ghost prev = out@;
                                let ghost jo = j as int;
                                push_char(&mut out, d);
                                j = j + 12;
                                proof {
                                    vstd::utf8::char_u32_cast(d, scalar);
                                    if let Some(r0) = parse_str_body(s@, jo + 12) {
                                        assert(prev + (seq![d] + r0.0) =~= (prev + seq![d])
                                            + r0.0);
                                    }
                                }
                            } else {
                                return None;
                            }
                        } else {
                            return None;
                        }
                    } else if code >= 0xDC00 && code <= 0xDFFF {
                        return None;
                    } else {
                        let d = match char_from_u32(code) {
                            Some(d) => d,
                            None => {
                                proof {
                                    assert(false);
                                }
                                return None;
                            },
                        };
                        let ghost prev = out@;
                        let ghost jo = j as int;
                        push_char(&mut out, d);
                        j = j + 6;
                        proof {
                            vstd::utf8::char_u32_cast(d, code);
                            if let Some(r0) = parse_str_body(s@, jo + 6) {
                                assert(prev + (seq![d] + r0.0) =~= (prev + seq![d]) + r0.0);
                            }
                        }
                    }
                },
            }
        } else if (c as u32) < 32 {
            return None;
        } else {
            let ghost prev = out@;
            let ghost jo = j as int;
            push_char(&mut out, c);
            j = j + 1;
            proof {
                if let Some(r0) = parse_str_body(s@, jo + 1) {
                    assert(prev + (seq![s@[jo]] + r0.0) =~= (prev + seq![s@[jo]]) + r0.0);
                }
            }
        }
    }
}

fn w_string(s: &Vec<char>, i: usize) -> (r: Option<(String, usize)>)
    requires
        i <= s@.len(),
    ensures
        (match r {
            Some((t, j)) => parse_string(s@, i as int) == Some((t@, j as int)) && i < j
                <= s@.len(),
            None => parse_string(s@, i as int) is None,
        }),
{
    let j = w_skip(s, i);
    if j < s.len() && s[j] == '"' {
        w_str_body(s, j + 1)
    } else {
        None
    }
}

fn is_token(c: char) -> (r: bool)
    ensures
        r == is_token_char(c),
{
    !(c == ',' || c == '}' || c == ']' || is_ws_char(c))
}

fn w_scalar_end(s: &Vec<char>, k: usize) -> (r: usize)
    requires
        k <= s@.len(),
    ensures
        r as int == scalar_end(s@, k as int),
        k <= r <= s@.len(),
{
    let mut j = k;
    while j < s.len() && is_token(s[j])
        invariant
            k <= j <= s@.len(),
            scalar_end(s@, k as int) == scalar_end(s@, j as int),
        decreases s@.len() - j,
    {
        j = j + 1;
    }
    proof {
        assert(scalar_end(s@, j as int) == j as int);
    }
    j
}

fn w_skip_composite(s: &Vec<char>, i: usize) -> (r: Option<usize>)
    requires
        1 <= i <= s@.len(),
    ensures
        (match r {
            Some(j) => skip_composite(s@, i as int, 1) == Some(j as int) && i < j <= s@.len(),
            None => skip_composite(s@, i as int, 1) is None,
        }),
{
    proof {
        lemma_skip_composite_bounds(s@, i as int, 1);
    }
    let mut j = i;
    let mut depth: usize = 1;
    loop
        invariant
            i <= j <= s@.len(),
            1 <= depth <= j,
            skip_composite(s@, i as int, 1) == skip_composite(s@, j as int, depth as int),
        decreases s@.len() - j,
    {
        if j == s.len() {
            return None;
        }
        let c = s[j];
        if c == '"' {
            match w_str_body(s, j + 1) {
                Some((_t, j2)) => {
                    j = j2;
                },
                None => {
                    return None;
                },
            }
        } else if c == '{' || c == '[' {
            depth = depth + 1;
            j = j + 1;
        } else if c == '}' || c == ']' {
            if depth == 1 {
                return Some(j + 1);
            }
            depth = depth - 1;
            j = j + 1;
        } else {
            j = j + 1;
        }
    }
}

fn w_skip_value(s: &Vec<char>, i: usize) -> (r: Option<usize>)
    requires
        i <= s@.len(),
    ensures
        (match r {
            Some(j) => skip_value(s@, i as int) == Some(j as int) && i < j <= s@.len(),
            None => skip_value(s@, i as int) is None,
        }),
{
    proof {
        lemma_skip_value_bounds(s@, i as int);
    }
    let j = w_skip(s, i);
    if j < s.len() {
        let c = s[j];
        if c == '"' {
            match w_str_body(s, j + 1) {
                Some((_t, j2)) => Some(j2),
                None => None,
            }
        } else if c == '{' || c == '[' {
            w_skip_composite(s, j + 1)
        } else if is_token(c) {
            Some(w_scalar_end(s, j + 1))
        } else {
            None
        }
    } else {
        None
    }
}

/// The view of a collected optional member.
pub open spec fn opt_str_view(o: Option<String>) -> Option<Seq<char>> {
    match o {
        Some(x) => Some(x@),
        None => None,
    }
}

fn w_tag_obj(s: &Vec<char>, i: usize) -> (r: Option<(Tag, usize)>)
    requires
        i <= s@.len(),
    ensures
        (match r {
            Some((t, j)) => parse_tag_obj(s@, i as int) == Some((t@, j as int)) && i < j
                <= s@.len(),
            None => parse_tag_obj(s@, i as int) is None,
        }),
{
    proof {
        lemma_parse_tag_obj_bounds(s@, i as int);
    }
    let j0 = match w_tok(s, i, '{') {
        Some(x) => x,
        None => {
            return None;
        },
    };
    let ghost acc0 = TagAcc { path: None, name: None, description: None, value: None };
    let mut path: Option<String> = None;
    let mut name: Option<String> = None;
    let mut description: Option<String> = None;
    let mut value: Option<String> = None;
    let mut j = j0;
    loop
        invariant
            i < j0 <= s@.len(),
            j0 <= j <= s@.len(),
            tok_at(s@, i as int, '{') == Some(j0 as int),
            acc0 == (TagAcc { path: None, name: None, description: None, value: None }),
            parse_tag_members(s@, j0 as int, acc0) == parse_tag_members(
                s@,
                j as int,
                TagAcc {
                    path: opt_str_view(path),
                    name: opt_str_view(name),
                    description: opt_str_view(description),
                    value: opt_str_view(value),
                },
            ),
        decreases s@.len() - j,
    {
        let ghost acc_before = TagAcc {
            path: opt_str_view(path),
            name: opt_str_view(name),
            description: opt_str_view(description),
            value: opt_str_view(value),
        };
        let ghost jo = j as int;
        let (k, j1) = match w_string(s, j) {
            Some(x) => x,
            None => {
                return None;
            },
        };
        let j2 = match w_tok(s, j1, ':') {
            Some(x) => x,
            None => {
                return None;
            },
        };
        let j3: usize;
        if str_eq(k.as_str(), "path") {
            if path.is_some() {
                return None;
            }
            let (v, jv) = match w_string(s, j2) {
                Some(x) => x,
                None => {
                    return None;
                },
            };
            path = Some(v);
            j3 = jv;
        } else if str_eq(k.as_str(), "name") {
            if name.is_some() {
                return None;
            }
            let (v, jv) = match w_string(s, j2) {
                Some(x) => x,
                None => {
                    return None;
                },
            };
            name = Some(v);
            j3 = jv;
        } else if str_eq(k.as_str(), "description") {
            if description.is_some() {
                return None;
            }
            let (v, jv) = match w_string(s, j2) {
                Some(x) => x,
                None => {
                    return None;
                },
            };
            description = Some(v);
            j3 = jv;
        } else if str_eq(k.as_str(), "value") {
            if value.is_some() {
                return None;
            }
            let (v, jv) = match w_string(s, j2) {
                Some(x) => x,
                None => {
                    return None;
                },
            };
            value = Some(v);
            j3 = jv;
        } else {
            j3 = match w_skip_value(s, j2) {
                Some(x) => x,
                None => {
                    return None;
                },
            };
        }
        let ghost acc_after = TagAcc {
            path: opt_str_view(path),
            name: opt_str_view(name),
            description: opt_str_view(description),
            value: opt_str_view(value),
        };
        proof {
            assert(parse_tag_member_value(s@, j2 as int, acc_before, k@) == Some(
                (acc_after, j3 as int),
            ));
        }
        let j4 = w_skip(s, j3);
        if j4 < s.len() && s[j4] == ',' {
            j = j4 + 1;
            proof {
                assert(parse_tag_members(s@, jo, acc_before) == parse_tag_members(
                    s@,
                    j as int,
                    acc_after,
                ));
            }
        } else if j4 < s.len() && s[j4] == '}' {
            proof {
                assert(parse_tag_members(s@, jo, acc_before) == Some(
                    (acc_after, j4 + 1 as int),
                ));
            }
            match (path, name, description, value) {
                (Some(p), Some(n), Some(d), Some(v)) => {
                    return Some((Tag { path: p, name: n, description: d, value: v }, j4 + 1));
                },
                _ => {
                    return None;
                },
            }
        } else {
            return None;
        }
    }
}

fn w_entries(s: &Vec<char>, i: usize) -> (r: Option<(Vec<TagEntry>, usize)>)
    requires
        i <= s@.len(),
    ensures
        (match r {
            Some((v, j)) => parse_entries(s@, i as int) == Some((entry_views(v@), j as int)) && i
                < j <= s@.len(),
            None => parse_entries(s@, i as int) is None,
        }),
{
    proof {
        if let Some(r0) = parse_entries(s@, i as int) {
            assert(Seq::<EntryM>::empty() + r0.0 =~= r0.0);
            assert(entry_views(Seq::<TagEntry>::empty()) =~= Seq::<EntryM>::empty());
        }
        lemma_parse_entries_bounds(s@, i as int);
    }
    let mut acc: Vec<TagEntry> = Vec::new();
    let mut j = i;
    loop
        invariant
            i <= j <= s@.len(),
            parse_entries(s@, i as int) == opt_prepend_entries(
                entry_views(acc@),
                parse_entries(s@, j as int),
            ),
        decreases s@.len() - j,
    {
        let (k, j1) = match w_string(s, j) {
            Some(x) => x,
            None => {
                return None;
            },
        };
        let j2 = match w_tok(s, j1, ':') {
            Some(x) => x,
            None => {
                return None;
            },
        };
        let (tag, j3) = match w_tag_obj(s, j2) {
            Some(x) => x,
            None => {
                return None;
            },
        };
        let j4 = w_skip(s, j3);
        let ghost jo = j as int;
        let ghost prev = acc@;
        let ghost em = EntryM { key: k@, tag: tag@ };
        if j4 < s.len() && s[j4] == ',' {
            acc.push(TagEntry { key: k, tag });
            j = j4 + 1;
            proof {
                assert(entry_views(acc@) =~= entry_views(prev) + seq![em]);
                if let Some(r0) = parse_entries(s@, j as int) {
                    assert(entry_views(prev) + (seq![em] + r0.0) =~= (entry_views(prev)
                        + seq![em]) + r0.0);
                }
            }
        } else if j4 < s.len() && s[j4] == '}' {
            acc.push(TagEntry { key: k, tag });
            proof {
                assert(entry_views(acc@) =~= entry_views(prev) + seq![em]);
            }
            return Some((acc, j4 + 1));
        } else {
            return None;
        }
    }
}

/// An error naming a structural fault of a tag document.
fn malformed() -> (r: UnsError)
    ensures
        r is Serialization,
{
    UnsError::Serialization(String::from_str("malformed tag document"))
}

/// The view of the entries collected for the `tags` member, if seen.
pub open spec fn found_view(o: Option<Vec<TagEntry>>) -> Option<Seq<EntryM>> {
    match o {
        Some(v) => Some(entry_views(v@)),
        None => None,
    }
}

/// Parses a whole tag document into a tag map.
///
/// Succeeds exactly on documents of the expected shape — the four record
/// members in any order, unknown members ignored, the full JSON escape set
/// read back — whose keys are pairwise distinct, and then yields the
/// entries in document order.
pub fn parse_database(source: &str) -> (r: Result<TagMap, UnsError>)
    ensures
        (match r {
            Ok(m) => load_doc(source@) == Some(m@) && m.wf(),
            Err(e) => load_doc(source@) is None && e is Serialization,
        }),
{
    let s = chars_of(source);
    let i1 = match w_tok(&s, 0, '{') {
        Some(x) => x,
        None => {
            return Err(malformed());
        },
    };
    let mut found: Option<Vec<TagEntry>> = None;
    let mut j = i1;
    loop
        invariant
            0 < i1 <= s@.len(),
            i1 <= j <= s@.len(),
            s@ == source@,
            tok_at(s@, 0, '{') == Some(i1 as int),
            parse_doc_members(s@, i1 as int, Option::<Seq<EntryM>>::None) == parse_doc_members(
                s@,
                j as int,
                found_view(found),
            ),
        decreases s@.len() - j,
    {
        let ghost fv_before = found_view(found);
        let ghost jo = j as int;
        let (k, j1) = match w_string(&s, j) {
            Some(x) => x,
            None => {
                return Err(malformed());
            },
        };
        let j2 = match w_tok(&s, j1, ':') {
            Some(x) => x,
            None => {
                return Err(malformed());
            },
        };
        let j3: usize;
        if str_eq(k.as_str(), "tags") {
            if found.is_some() {
                return Err(malformed());
            }
            let j5 = match w_tok(&s, j2, '{') {
                Some(x) => x,
                None => {
                    return Err(malformed());
                },
            };
            let jj = w_skip(&s, j5);
            if jj < s.len() && s[jj] == '}' {
                found = Some(Vec::new());
                j3 = jj + 1;
                proof {
                    assert(entry_views(Seq::<TagEntry>::empty()) =~= Seq::<EntryM>::empty());
                    assert(parse_tags_object(s@, j2 as int) == Some(
                        (Seq::<EntryM>::empty(), j3 as int),
                    ));
                }
            } else {
                match w_entries(&s, j5) {
                    Some((v, x)) => {
                        found = Some(v);
                        j3 = x;
                    },
                    None => {
                        return Err(malformed());
                    },
                }
            }
        } else {
            j3 = match w_skip_value(&s, j2) {
                Some(x) => x,
                None => {
                    return Err(malformed());
                },
            };
        }
        let ghost fv_after = found_view(found);
        proof {
            assert(parse_doc_member_value(s@, j2 as int, fv_before, k@) == Some(
                (fv_after, j3 as int),
            ));
        }
        let j4 = w_skip(&s, j3);
        if j4 < s.len() && s[j4] == ',' {
            j = j4 + 1;
            proof {
                assert(parse_doc_members(s@, jo, fv_before) == parse_doc_members(
                    s@,
                    j as int,
                    fv_after,
                ));
            }
        } else if j4 < s.len() && s[j4] == '}' {
            let v = match found {
                Some(v) => v,
                None => {
                    return Err(malformed());
                },
            };
            proof {
                assert(parse_doc_members(s@, jo, fv_before) == Some(
                    (entry_views(v@), j4 + 1 as int),
                ));
            }
            let j6 = w_skip(&s, j4 + 1);
            if j6 != s.len() {
                return Err(malformed());
            }
            proof {
                assert(parse_doc(source@) == Some(entry_views(v@)));
            }
            return match TagMap::from_entries(v) {
                Some(m) => Ok(m),
                None => Err(malformed()),
            };
        } else {
            return Err(malformed());
        }
    }
}

// ------------------------------------------------------------------
// The executable serializer.
// ------------------------------------------------------------------
/// Appending one character to a string appends its escape to the escaped
/// body.
proof fn lemma_escape_push(a: Seq<char>, c: char)
    ensures
        json_escape(a.push(c)) == json_escape(a) + esc_char(c),
    decreases a.len(),
{
    if a.len() == 0 {
        assert(a.push(c).drop_first() =~= Seq::<char>::empty());
        assert(esc_char(c) + json_escape(Seq::<char>::empty()) =~= esc_char(c));
        assert(json_escape(a) + esc_char(c) =~= esc_char(c));
    } else {
        assert(a.push(c).drop_first() =~= a.drop_first().push(c));
        lemma_escape_push(a.drop_first(), c);
        assert(esc_char(a[0]) + (json_escape(a.drop_first()) + esc_char(c)) =~= (esc_char(a[0])
            + json_escape(a.drop_first())) + esc_char(c));
    }
}

fn hex_char(n: u32) -> (r: char)
    requires
        n < 16,
    ensures
        r == hex_char_of(n as int),
{
    if n == 0 {
        '0'
    } else if n == 1 {
        '1'
    } else if n == 2 {
        '2'
    } else if n == 3 {
        '3'
    } else if n == 4 {
        '4'
    } else if n == 5 {
        '5'
    } else if n == 6 {
        '6'
    } else if n == 7 {
        '7'
    } else if n == 8 {
        '8'
    } else if n == 9 {
        '9'
    } else if n == 10 {
        'a'
    } else if n == 11 {
        'b'
    } else if n == 12 {
        'c'
    } else if n == 13 {
        'd'
    } else if n == 14 {
        'e'
    } else {
        'f'
    }
}

/// Writes `s` as a JSON string, quotes and escapes included.
fn append_quoted(out: &mut String, s: &str)
    ensures
        final(out)@ == old(out)@ + json_quote(s@),
{
    push_char(out, '"');
    let n = s.unicode_len();
    let mut i: usize = 0;
    while i < n
        invariant
            n == s@.len(),
            i <= n,
            out@ == old(out)@ + seq!['"'] + json_escape(s@.take(i as int)),
        decreases n - i,
    {
        let c = s.get_char(i);
        let ghost prev_take = s@.take(i as int);
        if c == '"' || c == '\\' {
            push_char(out, '\\');
            push_char(out, c);
        } else if c == '\n' {
            push_char(out, '\\');
            push_char(out, 'n');
        } else if c == '\r' {
            push_char(out, '\\');
            push_char(out, 'r');
        } else if c == '\t' {
            push_char(out, '\\');
            push_char(out, 't');
        } else if c == '\u{8}' {
            push_char(out, '\\');
            push_char(out, 'b');
        } else if c == '\u{c}' {
            push_char(out, '\\');
            push_char(out, 'f');
        } else if (c as u32) < 32 {
            let u = c as u32;
            push_char(out, '\\');
            push_char(out, 'u');
            push_char(out, '0');
            push_char(out, '0');
            push_char(out, hex_char(u / 16));
            push_char(out, hex_char(u % 16));
        } else {
            push_char(out, c);
        }
        i = i + 1;
        proof {
            lemma_escape_push(prev_take, s@[i - 1]);
            assert(s@.take(i as int) =~= prev_take.push(s@[i - 1]));
            assert(out@ =~= old(out)@ + seq!['"'] + json_escape(s@.take(i as int)));
        }
    }
    push_char(out, '"');
    proof {
        assert(s@.take(n as int) =~= s@);
        assert(out@ =~= old(out)@ + json_quote(s@));
    }
}

/// Writes one `"name":"value"` member.
fn append_field(out: &mut String, name: &str, v: &str)
    ensures
        final(out)@ == old(out)@ + field_json(name@, v@),
{
    append_quoted(out, name);
    push_char(out, ':');
    append_quoted(out, v);
    proof {
        assert(out@ =~= old(out)@ + field_json(name@, v@));
    }
}

/// Serializes one tag as its JSON record.
pub fn tag_to_json(tag: &Tag) -> (r: String)
    ensures
        r@ == tag_json(tag@),
{
    let mut out = String::new();
    push_char(&mut out, '{');
    append_field(&mut out, "path", tag.path.as_str());
    push_char(&mut out, ',');
    append_field(&mut out, "name", tag.name.as_str());
    push_char(&mut out, ',');
    append_field(&mut out, "description", tag.description.as_str());
    push_char(&mut out, ',');
    append_field(&mut out, "value", tag.value.as_str());
    push_char(&mut out, '}');
    proof {
        assert(out@ =~= tag_json(tag@));
    }
    out
}

/// Appending an entry to a non-empty sequence appends a comma and the
/// entry's member; to an empty sequence, just the member.
proof fn lemma_entries_push(es: Seq<EntryM>, e: EntryM)
    ensures
        es.len() >= 1 ==> entries_json(es.push(e)) == entries_json(es) + seq![','] + entry_json(e),
        es.len() == 0 ==> entries_json(es.push(e)) == entry_json(e),
    decreases es.len(),
{
    if es.len() == 0 {
    } else if es.len() == 1 {
        assert(es.push(e).drop_first() =~= seq![e]);
        assert(entries_json(seq![e]) == entry_json(e));
    } else {
        assert(es.push(e).drop_first() =~= es.drop_first().push(e));
        lemma_entries_push(es.drop_first(), e);
        assert((entry_json(es[0]) + seq![',']) + ((entries_json(es.drop_first()) + seq![','])
            + entry_json(e)) =~= (((entry_json(es[0]) + seq![',']) + entries_json(
            es.drop_first(),
        )) + seq![',']) + entry_json(e));
    }
}

/// One serializer step: after writing the separator and the entry's member,
/// the output stands one entry further.
proof fn lemma_db_step(base: Seq<char>, done: Seq<EntryM>, e: EntryM, o: Seq<char>)
    requires
        done.len() == 0 ==> o == base + entries_json(done) + json_quote(e.key) + seq![':']
            + tag_json(e.tag),
        done.len() >= 1 ==> o == base + entries_json(done) + seq![','] + json_quote(e.key)
            + seq![':'] + tag_json(e.tag),
    ensures
        o == base + entries_json(done.push(e)),
{
    lemma_entries_push(done, e);
    if done.len() == 0 {
        assert(entries_json(done) == Seq::<char>::empty());
        assert(o =~= base + entries_json(done.push(e)));
    } else {
        assert(o =~= base + entries_json(done.push(e)));
    }
}

/// Serializes a whole tag set as a tag document.
pub fn database_to_json(m: &TagMap) -> (r: String)
    ensures
        r@ == db_json(m@),
{
    let mut out = String::new();
    push_char(&mut out, '{');
    append_quoted(&mut out, "tags");
    push_char(&mut out, ':');
    push_char(&mut out, '{');
    let ghost base = seq!['{'] + json_quote("tags"@) + seq![':'] + seq!['{'];
    proof {
        assert(out@ =~= base);
        assert(entries_json(m@.take(0)) == Seq::<char>::empty());
        assert(out@ =~= base + entries_json(m@.take(0)));
    }
    let mut i: usize = 0;
    while i < m.entries.len()
        invariant
            i <= m.entries@.len(),
            m@.len() == m.entries@.len(),
            base == seq!['{'] + json_quote("tags"@) + seq![':'] + seq!['{'],
            out@ == base + entries_json(m@.take(i as int)),
        decreases m.entries@.len() - i,
    {
        if i > 0 {
            push_char(&mut out, ',');
        }
        append_quoted(&mut out, m.entries[i].key.as_str());
        push_char(&mut out, ':');
        let tj = tag_to_json(&m.entries[i].tag);
        out.append(tj.as_str());
        i = i + 1;
        proof {
            assert(m@[i - 1] == m.entries@[i - 1]@);
            lemma_db_step(base, m@.take(i - 1), m@[i - 1], out@);
            assert(m@.take(i as int) =~= m@.take(i - 1).push(m@[i - 1]));
        }
    }
    push_char(&mut out, '}');
    push_char(&mut out, '}');
    proof {
        assert(m@.take(m@.len() as int) =~= m@);
    }
    out
}

} // verus!
