//! A tokenizer for the XML subset that WebDAV multistatus documents use.
//! It turns a document into a flat list of events: `Open` and `Close` for
//! element tags (a self-closing tag yields both at once) and `Text` for
//! character data. Namespace prefixes are stripped from tag names;
//! attributes are skipped, with `>` inside quoted attribute values not
//! ending the tag; comments run to `-->`, processing instructions to
//! `?>`, and CDATA sections yield their content verbatim as text. In
//! ordinary text the five named character entities and numeric character
//! references are expanded. The tokenizer fails exactly where `tok_from`
//! says it does: on markup or an entity reference that never closes, on
//! a tag with an empty name, and on an entity that names no character.
use crate::error::DecodeError;
use crate::strutil::{
    all_digits,
    char_from_u32,
    dec_val,
    digit_val,
    is_digit,
    is_valid_scalar,
    push_char,
    str_eq,
};
use vstd::prelude::*;

verus! {

/// One decoded markup event.
#[derive(Debug, Clone, PartialEq)]
pub enum XmlEvent {
    /// An opening tag, its name with any namespace prefix stripped.
    Open(String),
    /// A closing tag, its name with any namespace prefix stripped.
    Close(String),
    /// Character data between tags, entities expanded.
    Text(String),
}

/// The mathematical shape of one event.
#[verifier::ext_equal]
pub enum XmlEventModel {
    Open { name: Seq<char> },
    Close { name: Seq<char> },
    Text { text: Seq<char> },
}

impl View for XmlEvent {
    type V = XmlEventModel;

    open spec fn view(&self) -> XmlEventModel {
        match self {
            XmlEvent::Open(n) => XmlEventModel::Open { name: n@ },
            XmlEvent::Close(n) => XmlEventModel::Close { name: n@ },
            XmlEvent::Text(t) => XmlEventModel::Text { text: t@ },
        }
    }
}

/// The models of a list of events.
pub open spec fn evs_view(evs: Seq<XmlEvent>) -> Seq<XmlEventModel> {
    evs.map_values(|e: XmlEvent| e@)
}

// ---------------------------------------------------------------------
// Scans
// ---------------------------------------------------------------------
/// Position of the first `<` at or after `i`, or the end.
pub open spec fn text_end(s: Seq<char>, i: int) -> int
    decreases s.len() - i when 0 <= i <= s.len()
{
    if i >= s.len() {
        s.len() as int
    } else if s[i] == '<' {
        i
    } else {
        text_end(s, i + 1)
    }
}

pub proof fn lemma_text_end_bounds(s: Seq<char>, i: int)
    requires
        0 <= i <= s.len(),
    ensures
        i <= text_end(s, i) <= s.len(),
        text_end(s, i) < s.len() ==> s[text_end(s, i)] == '<',
        forall|k: int| i <= k < text_end(s, i) ==> s[k] != '<',
    decreases s.len() - i,
{
    if i < s.len() && s[i] != '<' {
        lemma_text_end_bounds(s, i + 1);
    }
}

/// Position of the `>` that ends a tag whose inside starts at `i`: the
/// first `>` outside quoted attribute values, or the end if there is
/// none. `q` holds the quote character currently open.
pub open spec fn tag_scan(s: Seq<char>, i: int, q: Option<char>) -> int
    decreases s.len() - i when 0 <= i <= s.len()
{
    if i >= s.len() {
        s.len() as int
    } else {
        match q {
            Some(qc) => if s[i] == qc {
                tag_scan(s, i + 1, None)
            } else {
                tag_scan(s, i + 1, q)
            },
            None => if s[i] == '>' {
                i
            } else if s[i] == '"' || s[i] == '\'' {
                tag_scan(s, i + 1, Some(s[i]))
            } else {
                tag_scan(s, i + 1, None)
            },
        }
    }
}

/// The quote-aware end of a tag whose inside starts at `i`.
pub open spec fn tag_end(s: Seq<char>, i: int) -> int {
    tag_scan(s, i, None)
}

pub proof fn lemma_tag_scan_bounds(s: Seq<char>, i: int, q: Option<char>)
    requires
        0 <= i <= s.len(),
    ensures
        i <= tag_scan(s, i, q) <= s.len(),
        tag_scan(s, i, q) < s.len() ==> s[tag_scan(s, i, q)] == '>',
    decreases s.len() - i,
{
    if i < s.len() {
        match q {
            Some(qc) => {
                if s[i] == qc {
                    lemma_tag_scan_bounds(s, i + 1, None);
                } else {
                    lemma_tag_scan_bounds(s, i + 1, q);
                }
            },
            None => {
                if s[i] != '>' {
                    if s[i] == '"' || s[i] == '\'' {
                        lemma_tag_scan_bounds(s, i + 1, Some(s[i]));
                    } else {
                        lemma_tag_scan_bounds(s, i + 1, None);
                    }
                }
            },
        }
    }
}

/// Position of the first occurrence of the two-character pattern `ab` at
/// or after `i`, or the end if there is none.
pub open spec fn pat2_pos(s: Seq<char>, i: int, a: char, b: char) -> int
    decreases s.len() - i when 0 <= i <= s.len()
{
    if i + 2 > s.len() {
        s.len() as int
    } else if s[i] == a && s[i + 1] == b {
        i
    } else {
        pat2_pos(s, i + 1, a, b)
    }
}

pub proof fn lemma_pat2_bounds(s: Seq<char>, i: int, a: char, b: char)
    requires
        0 <= i <= s.len(),
    ensures
        i <= pat2_pos(s, i, a, b) <= s.len(),
        pat2_pos(s, i, a, b) < s.len() ==> pat2_pos(s, i, a, b) + 2 <= s.len(),
    decreases s.len() - i,
{
    if i + 2 <= s.len() && !(s[i] == a && s[i + 1] == b) {
        lemma_pat2_bounds(s, i + 1, a, b);
    }
}

/// Position of the first occurrence of the three-character pattern `abc`
/// at or after `i`, or the end if there is none.
pub open spec fn pat3_pos(s: Seq<char>, i: int, a: char, b: char, c: char) -> int
    decreases s.len() - i when 0 <= i <= s.len()
{
    if i + 3 > s.len() {
        s.len() as int
    } else if s[i] == a && s[i + 1] == b && s[i + 2] == c {
        i
    } else {
        pat3_pos(s, i + 1, a, b, c)
    }
}

pub proof fn lemma_pat3_bounds(s: Seq<char>, i: int, a: char, b: char, c: char)
    requires
        0 <= i <= s.len(),
    ensures
        i <= pat3_pos(s, i, a, b, c) <= s.len(),
        pat3_pos(s, i, a, b, c) < s.len() ==> pat3_pos(s, i, a, b, c) + 3 <= s.len(),
    decreases s.len() - i,
{
    if i + 3 <= s.len() && !(s[i] == a && s[i + 1] == b && s[i + 2] == c) {
        lemma_pat3_bounds(s, i + 1, a, b, c);
    }
}

/// A character that ends a tag name.
pub open spec fn is_name_stop(c: char) -> bool {
    c == ' ' || c == '\t' || c == '\n' || c == '\r' || c == '/' || c == '>'
}

/// Position of the first name-stopping character at or after `i`, or the
/// end.
pub open spec fn name_stop(s: Seq<char>, i: int) -> int
    decreases s.len() - i when 0 <= i <= s.len()
{
    if i >= s.len() {
        s.len() as int
    } else if is_name_stop(s[i]) {
        i
    } else {
        name_stop(s, i + 1)
    }
}

pub proof fn lemma_name_stop_bounds(s: Seq<char>, i: int)
    requires
        0 <= i <= s.len(),
    ensures
        i <= name_stop(s, i) <= s.len(),
        name_stop(s, i) < s.len() ==> is_name_stop(s[name_stop(s, i)]),
        forall|k: int| i <= k < name_stop(s, i) ==> !is_name_stop(s[k]),
    decreases s.len() - i,
{
    if i < s.len() && !is_name_stop(s[i]) {
        lemma_name_stop_bounds(s, i + 1);
    }
}

/// Position of the first `:` in `n` at or after `i`, or the end.
pub open spec fn colon_pos(n: Seq<char>, i: int) -> int
    decreases n.len() - i when 0 <= i <= n.len()
{
    if i >= n.len() {
        n.len() as int
    } else if n[i] == ':' {
        i
    } else {
        colon_pos(n, i + 1)
    }
}

pub proof fn lemma_colon_pos_bounds(n: Seq<char>, i: int)
    requires
        0 <= i <= n.len(),
    ensures
        i <= colon_pos(n, i) <= n.len(),
        colon_pos(n, i) < n.len() ==> n[colon_pos(n, i)] == ':',
        forall|k: int| i <= k < colon_pos(n, i) ==> n[k] != ':',
    decreases n.len() - i,
{
    if i < n.len() && n[i] != ':' {
        lemma_colon_pos_bounds(n, i + 1);
    }
}

/// Position of the first `;` at or after `i`, or the end.
pub open spec fn semi_pos(s: Seq<char>, i: int) -> int
    decreases s.len() - i when 0 <= i <= s.len()
{
    if i >= s.len() {
        s.len() as int
    } else if s[i] == ';' {
        i
    } else {
        semi_pos(s, i + 1)
    }
}

pub proof fn lemma_semi_pos_bounds(s: Seq<char>, i: int)
    requires
        0 <= i <= s.len(),
    ensures
        i <= semi_pos(s, i) <= s.len(),
        semi_pos(s, i) < s.len() ==> s[semi_pos(s, i)] == ';',
    decreases s.len() - i,
{
    if i < s.len() && s[i] != ';' {
        lemma_semi_pos_bounds(s, i + 1);
    }
}

/// A tag name with its namespace prefix stripped: everything after the
/// first `:`, or the whole name if there is none.
pub open spec fn local_name(n: Seq<char>) -> Seq<char> {
    let c = colon_pos(n, 0);
    if c < n.len() {
        n.subrange(c + 1, n.len() as int)
    } else {
        n
    }
}

// ---------------------------------------------------------------------
// Character entities
// ---------------------------------------------------------------------
/// A hexadecimal digit.
pub open spec fn is_hex_digit(c: char) -> bool {
    is_digit(c) || (97 <= c as u32 <= 102) || (65 <= c as u32 <= 70)
}

/// The value of a hexadecimal digit.
pub open spec fn hex_digit_val(c: char) -> int {
    if is_digit(c) {
        digit_val(c)
    } else if 97 <= c as u32 <= 102 {
        c as u32 - 87
    } else {
        c as u32 - 55
    }
}

/// Every character is a hexadecimal digit.
pub open spec fn all_hex_digits(s: Seq<char>) -> bool {
    forall|k: int| 0 <= k < s.len() ==> is_hex_digit(#[trigger] s[k])
}

/// The number a hexadecimal digit string denotes.
pub open spec fn hex_val(s: Seq<char>) -> int
    decreases s.len(),
{
    if s.len() == 0 {
        0
    } else {
        hex_val(s.drop_last()) * 16 + hex_digit_val(s.last())
    }
}

/// The character one of the five named entities stands for.
pub open spec fn named_entity(ent: Seq<char>) -> Option<char> {
    if ent == "amp"@ {
        Some('&')
    } else if ent == "lt"@ {
        Some('<')
    } else if ent == "gt"@ {
        Some('>')
    } else if ent == "quot"@ {
        Some('"')
    } else if ent == "apos"@ {
        Some('\'')
    } else {
        None
    }
}

/// The character a numeric character reference stands for: `#` then
/// decimal digits, or `#x`/`#X` then hexadecimal digits, denoting a
/// valid Unicode scalar value.
pub open spec fn numeric_entity(ent: Seq<char>) -> Option<char> {
    if ent.len() >= 3 && ent[0] == '#' && (ent[1] == 'x' || ent[1] == 'X') {
        let ds = ent.skip(2);
        if all_hex_digits(ds) && is_valid_scalar(hex_val(ds)) {
            Some(((hex_val(ds)) as u32) as char)
        } else {
            None
        }
    } else if ent.len() >= 2 && ent[0] == '#' {
        let ds = ent.skip(1);
        if all_digits(ds) && is_valid_scalar(dec_val(ds)) {
            Some(((dec_val(ds)) as u32) as char)
        } else {
            None
        }
    } else {
        None
    }
}

/// The character an entity reference body stands for, if any.
pub open spec fn ent_char(ent: Seq<char>) -> Option<char> {
    if ent.len() >= 1 && ent[0] == '#' {
        numeric_entity(ent)
    } else {
        named_entity(ent)
    }
}

/// Text with its entity references expanded, from position `i` on, or
/// `None` on a reference that never closes with `;` or that names no
/// character.
pub open spec fn unesc_from(s: Seq<char>, i: int) -> Option<Seq<char>>
    decreases s.len() - i when 0 <= i <= s.len() via unesc_from_decreases
{
    if i >= s.len() {
        Some(Seq::empty())
    } else if s[i] != '&' {
        match unesc_from(s, i + 1) {
            None => None,
            Some(r) => Some(seq![s[i]] + r),
        }
    } else {
        let p = semi_pos(s, i + 1);
        if p >= s.len() {
            None
        } else {
            match ent_char(s.subrange(i + 1, p)) {
                None => None,
                Some(c) => match unesc_from(s, p + 1) {
                    None => None,
                    Some(r) => Some(seq![c] + r),
                },
            }
        }
    }
}

#[via_fn]
proof fn unesc_from_decreases(s: Seq<char>, i: int) {
    if 0 <= i <= s.len() && i < s.len() {
        lemma_semi_pos_bounds(s, i + 1);
    }
}

/// Text with its entity references expanded.
pub open spec fn unesc(s: Seq<char>) -> Option<Seq<char>> {
    unesc_from(s, 0)
}

// ---------------------------------------------------------------------
// The tokenizer
// ---------------------------------------------------------------------
/// Markup starting a comment: `<!--` at `i`.
pub open spec fn is_comment_start(s: Seq<char>, i: int) -> bool {
    i + 3 < s.len() && s[i + 1] == '!' && s[i + 2] == '-' && s[i + 3] == '-'
}

/// Markup starting a CDATA section: `<![CDATA[` at `i`.
pub open spec fn is_cdata_start(s: Seq<char>, i: int) -> bool {
    i + 8 < s.len() && s[i + 1] == '!' && s[i + 2] == '[' && s[i + 3] == 'C' && s[i + 4] == 'D'
        && s[i + 5] == 'A' && s[i + 6] == 'T' && s[i + 7] == 'A' && s[i + 8] == '['
}

/// The events of `s` from position `i` on, or `None` where the subset's
/// grammar is violated. Text runs to the next `<` and is
/// entity-expanded; `<!--` skips to `-->`, `<![CDATA[` yields verbatim
/// text up to `]]>`, `<?` skips to `?>`, any other `<!` markup is
/// skipped to its quote-aware `>`; `</name...>` closes; `<name.../>`
/// opens and closes at once; any other `<name...>` opens.
pub open spec fn tok_from(s: Seq<char>, i: int) -> Option<Seq<XmlEventModel>>
    decreases s.len() - i when 0 <= i <= s.len() via tok_from_decreases
{
    if i >= s.len() {
        Some(Seq::empty())
    } else if s[i] != '<' {
        let j = text_end(s, i);
        match unesc(s.subrange(i, j)) {
            None => None,
            Some(t) => match tok_from(s, j) {
                None => None,
                Some(rest) => Some(seq![XmlEventModel::Text { text: t }] + rest),
            },
        }
    } else if is_comment_start(s, i) {
        let p = pat3_pos(s, i + 4, '-', '-', '>');
        if p >= s.len() {
            None
        } else {
            tok_from(s, p + 3)
        }
    } else if is_cdata_start(s, i) {
        let p = pat3_pos(s, i + 9, ']', ']', '>');
        if p >= s.len() {
            None
        } else {
            match tok_from(s, p + 3) {
                None => None,
                Some(rest) => Some(
                    seq![XmlEventModel::Text { text: s.subrange(i + 9, p) }] + rest,
                ),
            }
        }
    } else if i + 1 < s.len() && s[i + 1] == '?' {
        let p = pat2_pos(s, i + 2, '?', '>');
        if p >= s.len() {
            None
        } else {
            tok_from(s, p + 2)
        }
    } else if i + 1 < s.len() && s[i + 1] == '!' {
        let g = tag_end(s, i + 2);
        if g >= s.len() {
            None
        } else {
            tok_from(s, g + 1)
        }
    } else {
        let g = tag_end(s, i + 1);
        if g >= s.len() {
            None
        } else if i + 1 < s.len() && s[i + 1] == '/' {
            let ne = name_stop(s, i + 2);
            let name = local_name(s.subrange(i + 2, ne));
            if name.len() == 0 {
                None
            } else {
                match tok_from(s, g + 1) {
                    None => None,
                    Some(rest) => Some(seq![XmlEventModel::Close { name }] + rest),
                }
            }
        } else {
            let ne = name_stop(s, i + 1);
            let name = local_name(s.subrange(i + 1, ne));
            if name.len() == 0 {
                None
            } else {
                match tok_from(s, g + 1) {
                    None => None,
                    Some(rest) => if s[g - 1] == '/' {
                        Some(
                            seq![
                                XmlEventModel::Open { name },
                                XmlEventModel::Close { name },
                            ] + rest,
                        )
                    } else {
                        Some(seq![XmlEventModel::Open { name }] + rest)
                    },
                }
            }
        }
    }
}

#[via_fn]
proof fn tok_from_decreases(s: Seq<char>, i: int) {
    if 0 <= i <= s.len() && i < s.len() {
        lemma_text_end_bounds(s, i);
        if s[i] != '<' {
            assert(text_end(s, i) == text_end(s, i + 1));
            lemma_text_end_bounds(s, i + 1);
        }
        if i + 4 <= s.len() {
            lemma_pat3_bounds(s, i + 4, '-', '-', '>');
        }
        if i + 9 <= s.len() {
            lemma_pat3_bounds(s, i + 9, ']', ']', '>');
        }
        if i + 2 <= s.len() {
            lemma_pat2_bounds(s, i + 2, '?', '>');
            lemma_tag_scan_bounds(s, i + 2, None);
            lemma_name_stop_bounds(s, i + 2);
        }
        if i + 1 <= s.len() {
            lemma_tag_scan_bounds(s, i + 1, None);
            lemma_name_stop_bounds(s, i + 1);
        }
    }
}

// ---------------------------------------------------------------------
// Executable scans
// ---------------------------------------------------------------------
/// Position of the first `<` at or after `i`, as `text_end` describes.
fn find_text_end(s: &str, i: usize) -> (j: usize)
    requires
        i <= s@.len(),
    ensures
        j == text_end(s@, i as int),
{
    let len = s.unicode_len();
    let mut k = i;
    while k < len
        invariant
            i <= k <= len,
            len == s@.len(),
            text_end(s@, i as int) == text_end(s@, k as int),
        decreases len - k,
    {
        if s.get_char(k) == '<' {
            return k;
        }
        k += 1;
    }
    k
}

/// The quote-aware end of a tag, as `tag_end` describes.
fn find_tag_end(s: &str, i: usize) -> (j: usize)
    requires
        i <= s@.len(),
    ensures
        j == tag_end(s@, i as int),
{
    let len = s.unicode_len();
    let mut k = i;
    let mut quote: Option<char> = None;
    while k < len
        invariant
            i <= k <= len,
            len == s@.len(),
            tag_scan(s@, i as int, None) == tag_scan(s@, k as int, quote),
        decreases len - k,
    {
        let c = s.get_char(k);
        match quote {
            Some(qc) => {
                if c == qc {
                    quote = None;
                }
            },
            None => {
                if c == '>' {
                    return k;
                } else if c == '"' || c == '\'' {
                    quote = Some(c);
                }
            },
        }
        k += 1;
    }
    k
}

/// The first occurrence of the pattern `ab`, as `pat2_pos` describes.
fn find_pat2(s: &str, i: usize, a: char, b: char) -> (j: usize)
    requires
        i <= s@.len(),
    ensures
        j == pat2_pos(s@, i as int, a, b),
{
    let len = s.unicode_len();
    let mut k = i;
    while len - k >= 2
        invariant
            i <= k <= len,
            len == s@.len(),
            pat2_pos(s@, i as int, a, b) == pat2_pos(s@, k as int, a, b),
        decreases len - k,
    {
        if s.get_char(k) == a && s.get_char(k + 1) == b {
            return k;
        }
        k += 1;
    }
    len
}

/// The first occurrence of the pattern `abc`, as `pat3_pos` describes.
fn find_pat3(s: &str, i: usize, a: char, b: char, c: char) -> (j: usize)
    requires
        i <= s@.len(),
    ensures
        j == pat3_pos(s@, i as int, a, b, c),
{
    let len = s.unicode_len();
    let mut k = i;
    while len - k >= 3
        invariant
            i <= k <= len,
            len == s@.len(),
            pat3_pos(s@, i as int, a, b, c) == pat3_pos(s@, k as int, a, b, c),
        decreases len - k,
    {
        if s.get_char(k) == a && s.get_char(k + 1) == b && s.get_char(k + 2) == c {
            return k;
        }
        k += 1;
    }
    len
}

/// Position of the first name-stopping character at or after `i`, as
/// `name_stop` describes.
fn find_name_stop(s: &str, i: usize) -> (j: usize)
    requires
        i <= s@.len(),
    ensures
        j == name_stop(s@, i as int),
{
    let len = s.unicode_len();
    let mut k = i;
    while k < len
        invariant
            i <= k <= len,
            len == s@.len(),
            name_stop(s@, i as int) == name_stop(s@, k as int),
        decreases len - k,
    {
        let c = s.get_char(k);
        if c == ' ' || c == '\t' || c == '\n' || c == '\r' || c == '/' || c == '>' {
            return k;
        }
        k += 1;
    }
    k
}

/// Position of the first `;` at or after `i`, as `semi_pos` describes.
fn find_semi(s: &str, i: usize) -> (j: usize)
    requires
        i <= s@.len(),
    ensures
        j == semi_pos(s@, i as int),
{
    let len = s.unicode_len();
    let mut k = i;
    while k < len
        invariant
            i <= k <= len,
            len == s@.len(),
            semi_pos(s@, i as int) == semi_pos(s@, k as int),
        decreases len - k,
    {
        if s.get_char(k) == ';' {
            return k;
        }
        k += 1;
    }
    k
}

/// Extracts the prefix-stripped name in `s[from..to]`, as `local_name`
/// describes.
fn extract_local_name(s: &str, from: usize, to: usize) -> (r: String)
    requires
        from <= to <= s@.len(),
    ensures
        r@ == local_name(s@.subrange(from as int, to as int)),
{
    let raw = s.substring_char(from, to);
    let ghost n = s@.subrange(from as int, to as int);
    let len = raw.unicode_len();
    let mut k: usize = 0;
    while k < len
        invariant
            k <= len,
            len == n.len(),
            from <= to <= s@.len(),
            n == s@.subrange(from as int, to as int),
            raw@ == n,
            colon_pos(n, 0) == colon_pos(n, k as int),
        decreases len - k,
    {
        if raw.get_char(k) == ':' {
            let out = raw.substring_char(k + 1, len).to_owned();
            proof {
                assert(n[k as int] == ':');
                assert(colon_pos(n, k as int) == k as int);
                assert(local_name(n) == n.subrange(k as int + 1, n.len() as int));
                assert(out@ =~= local_name(n));
            }
            return out;
        }
        k += 1;
    }
    let out = raw.to_owned();
    proof {
        assert(colon_pos(n, 0) == n.len());
        assert(out@ =~= local_name(n));
    }
    out
}

// ---------------------------------------------------------------------
// Executable entity expansion
// ---------------------------------------------------------------------
/// Reads a decimal character reference body: every character a decimal
/// digit, denoting a valid scalar value.
fn parse_dec_scalar(ds: &str) -> (r: Option<char>)
    ensures
        r == (if all_digits(ds@) && is_valid_scalar(dec_val(ds@)) {
            Some(((dec_val(ds@)) as u32) as char)
        } else {
            None
        }),
{
    let n = ds.unicode_len();
    let mut acc: u32 = 0;
    let mut big = false;
    let mut i: usize = 0;
    while i < n
        invariant
            i <= n,
            n == ds@.len(),
            all_digits(ds@.subrange(0, i as int)),
            !big ==> acc as int == dec_val(ds@.subrange(0, i as int)) && acc <= 0x10FFFF,
            big ==> dec_val(ds@.subrange(0, i as int)) > 0x10FFFF,
        decreases n - i,
    {
        let c = ds.get_char(i);
        let u = c as u32;
        if !(48 <= u && u <= 57) {
            proof {
                assert(!is_digit(ds@[i as int]));
                assert(!all_digits(ds@));
            }
            return None;
        }
        proof {
            let pre = ds@.subrange(0, i as int);
            let nxt = ds@.subrange(0, i as int + 1);
            assert(nxt.drop_last() =~= pre);
            assert(nxt.last() == ds@[i as int]);
            assert(all_digits(nxt)) by {
                assert(forall|k: int| 0 <= k < i + 1 ==> nxt[k] == ds@[k]);
            }
            assert(dec_val(nxt) == dec_val(pre) * 10 + digit_val(ds@[i as int]));
        }
        if big {
            proof {
                let pre = ds@.subrange(0, i as int);
                assert(dec_val(pre) * 10 >= dec_val(pre));
            }
        } else {
            let d = u - 48;
            acc = acc * 10 + d;
            if acc > 0x10FFFF {
                big = true;
            }
        }
        i += 1;
    }
    proof {
        assert(ds@.subrange(0, n as int) =~= ds@);
    }
    if big {
        return None;
    }
    proof {
        assert((dec_val(ds@) as u32) == acc);
    }
    char_from_u32(acc)
}

/// Reads a hexadecimal character reference body: every character a
/// hexadecimal digit, denoting a valid scalar value.
fn parse_hex_scalar(ds: &str) -> (r: Option<char>)
    ensures
        r == (if all_hex_digits(ds@) && is_valid_scalar(hex_val(ds@)) {
            Some(((hex_val(ds@)) as u32) as char)
        } else {
            None
        }),
{
    let n = ds.unicode_len();
    let mut acc: u32 = 0;
    let mut big = false;
    let mut i: usize = 0;
    while i < n
        invariant
            i <= n,
            n == ds@.len(),
            all_hex_digits(ds@.subrange(0, i as int)),
            !big ==> acc as int == hex_val(ds@.subrange(0, i as int)) && acc <= 0x10FFFF,
            big ==> hex_val(ds@.subrange(0, i as int)) > 0x10FFFF,
        decreases n - i,
    {
        let c = ds.get_char(i);
        let u = c as u32;
        let d: u32 = if 48 <= u && u <= 57 {
            u - 48
        } else if 97 <= u && u <= 102 {
            u - 87
        } else if 65 <= u && u <= 70 {
            u - 55
        } else {
            proof {
                assert(!is_hex_digit(ds@[i as int]));
                assert(!all_hex_digits(ds@));
            }
            return None;
        };
        proof {
            let pre = ds@.subrange(0, i as int);
            let nxt = ds@.subrange(0, i as int + 1);
            assert(nxt.drop_last() =~= pre);
            assert(nxt.last() == ds@[i as int]);
            assert(all_hex_digits(nxt)) by {
                assert(forall|k: int| 0 <= k < i + 1 ==> nxt[k] == ds@[k]);
            }
            assert(hex_val(nxt) == hex_val(pre) * 16 + hex_digit_val(ds@[i as int]));
        }
        if big {
            proof {
                let pre = ds@.subrange(0, i as int);
                assert(hex_val(pre) * 16 >= hex_val(pre));
            }
        } else {
            acc = acc * 16 + d;
            if acc > 0x10FFFF {
                big = true;
            }
        }
        i += 1;
    }
    proof {
        assert(ds@.subrange(0, n as int) =~= ds@);
    }
    if big {
        return None;
    }
    proof {
        assert((hex_val(ds@) as u32) == acc);
    }
    char_from_u32(acc)
}

/// The character an entity reference body stands for, as `ent_char`
/// describes.
fn entity_char(ent: &str) -> (r: Option<char>)
    ensures
        r == ent_char(ent@),
{
    let n = ent.unicode_len();
    if n >= 1 && ent.get_char(0) == '#' {
        if n >= 3 && (ent.get_char(1) == 'x' || ent.get_char(1) == 'X') {
            let ds = ent.substring_char(2, n);
            proof {
                assert(ds@ =~= ent@.skip(2));
            }
            parse_hex_scalar(ds)
        } else if n >= 2 {
            let ds = ent.substring_char(1, n);
            proof {
                assert(ds@ =~= ent@.skip(1));
            }
            match parse_dec_scalar(ds) {
                Some(c) => Some(c),
                None => None,
            }
        } else {
            None
        }
    } else if str_eq(ent, "amp") {
        Some('&')
    } else if str_eq(ent, "lt") {
        Some('<')
    } else if str_eq(ent, "gt") {
        Some('>')
    } else if str_eq(ent, "quot") {
        Some('"')
    } else if str_eq(ent, "apos") {
        Some('\'')
    } else {
        None
    }
}

/// Expands the entity references in a text run, exactly as `unesc`
/// describes.
fn unescape_text(s: &str) -> (r: Result<String, DecodeError>)
    ensures
        match unesc(s@) {
            Some(t) => r matches Ok(o) && o@ == t,
            None => r is Err,
        },
{
    let len = s.unicode_len();
    let mut out = String::new();
    let mut i: usize = 0;
    while i < len
        invariant
            i <= len,
            len == s@.len(),
            match unesc_from(s@, i as int) {
                Some(rest) => unesc(s@) matches Some(all) && all == out@ + rest,
                None => unesc(s@) is None,
            },
        decreases len - i,
    {
        let ghost pre = out@;
        let c = s.get_char(i);
        if c != '&' {
            push_char(&mut out, c);
            proof {
                let iv = i as int;
                if unesc_from(s@, iv + 1) is Some {
                    assert(pre.push(s@[iv]) + unesc_from(s@, iv + 1)->Some_0 =~= pre + (
                    seq![s@[iv]] + unesc_from(s@, iv + 1)->Some_0));
                }
            }
            i += 1;
        } else {
            let p = find_semi(s, i + 1);
            proof {
                lemma_semi_pos_bounds(s@, i as int + 1);
            }
            if p >= len {
                proof {
                    assert(unesc_from(s@, i as int) is None);
                }
                return Err(DecodeError);
            }
            let ent = s.substring_char(i + 1, p);
            match entity_char(ent) {
                Some(ec) => {
                    push_char(&mut out, ec);
                    proof {
                        let iv = i as int;
                        let pv = semi_pos(s@, iv + 1);
                        assert(ent@ == s@.subrange(iv + 1, pv));
                        if unesc_from(s@, pv + 1) is Some {
                            assert(pre.push(ec) + unesc_from(s@, pv + 1)->Some_0 =~= pre + (
                            seq![ec] + unesc_from(s@, pv + 1)->Some_0));
                        }
                    }
                    i = p + 1;
                },
                None => {
                    proof {
                        assert(unesc_from(s@, i as int) is None);
                    }
                    return Err(DecodeError);
                },
            }
        }
    }
    proof {
        assert(unesc_from(s@, len as int) == Some(Seq::<char>::empty()));
        assert(out@ + Seq::<char>::empty() =~= out@);
    }
    Ok(out)
}

// ---------------------------------------------------------------------
// The executable tokenizer
// ---------------------------------------------------------------------
/// Tokenizes a whole document, exactly as `tok_from` from position `0`
/// describes: the events on success, an error where the subset's grammar
/// is violated.
#[verifier::rlimit(100)]
pub fn tokenize(s: &str) -> (r: Result<Vec<XmlEvent>, DecodeError>)
    ensures
        match tok_from(s@, 0) {
            Some(evm) => r matches Ok(evs) && evs_view(evs@) == evm,
            None => r is Err,
        },
{
    let len = s.unicode_len();
    let mut out: Vec<XmlEvent> = Vec::new();
    let mut i: usize = 0;
    while i < len
        invariant
            i <= len,
            len == s@.len(),
            match tok_from(s@, i as int) {
                Some(rest) => tok_from(s@, 0) matches Some(all) && all == evs_view(out@) + rest,
                None => tok_from(s@, 0) is None,
            },
        decreases len - i,
    {
        let ghost pre = evs_view(out@);
        let c = s.get_char(i);
        if c != '<' {
            let j = find_text_end(s, i);
            proof {
                lemma_text_end_bounds(s@, i as int);
            }
            let raw = s.substring_char(i, j);
            let text = match unescape_text(raw) {
                Ok(t) => t,
                Err(e) => {
                    proof {
                        assert(tok_from(s@, i as int) is None);
                    }
                    return Err(e);
                },
            };
            out.push(XmlEvent::Text(text));
            proof {
                let iv = i as int;
                let jv = text_end(s@, iv);
                let tv = unesc(s@.subrange(iv, jv))->Some_0;
                assert(evs_view(out@) =~= pre.push(XmlEventModel::Text { text: tv }));
                if tok_from(s@, jv) is Some {
                    assert(pre.push(XmlEventModel::Text { text: tv }) + tok_from(s@, jv)->Some_0
                        =~= pre + (seq![XmlEventModel::Text { text: tv }] + tok_from(
                        s@,
                        jv,
                    )->Some_0));
                }
            }
            i = j;
        } else {
            let comment = len - i > 3 && s.get_char(i + 1) == '!' && s.get_char(i + 2) == '-'
                && s.get_char(i + 3) == '-';
            let cdata = !comment && len - i > 8 && s.get_char(i + 1) == '!' && s.get_char(i + 2)
                == '[' && s.get_char(i + 3) == 'C' && s.get_char(i + 4) == 'D' && s.get_char(i + 5)
                == 'A' && s.get_char(i + 6) == 'T' && s.get_char(i + 7) == 'A' && s.get_char(i + 8)
                == '[';
            if comment {
                let p = find_pat3(s, i + 4, '-', '-', '>');
                proof {
                    lemma_pat3_bounds(s@, i as int + 4, '-', '-', '>');
                }
                if p >= len {
                    proof {
                        assert(tok_from(s@, i as int) is None);
                    }
                    return Err(DecodeError);
                }
                i = p + 3;
            } else if cdata {
                let p = find_pat3(s, i + 9, ']', ']', '>');
                proof {
                    lemma_pat3_bounds(s@, i as int + 9, ']', ']', '>');
                }
                if p >= len {
                    proof {
                        assert(tok_from(s@, i as int) is None);
                    }
                    return Err(DecodeError);
                }
                let text = s.substring_char(i + 9, p).to_owned();
                out.push(XmlEvent::Text(text));
                proof {
                    let iv = i as int;
                    let pv = pat3_pos(s@, iv + 9, ']', ']', '>');
                    let tv = s@.subrange(iv + 9, pv);
                    assert(evs_view(out@) =~= pre.push(XmlEventModel::Text { text: tv }));
                    if tok_from(s@, pv + 3) is Some {
                        assert(pre.push(XmlEventModel::Text { text: tv }) + tok_from(
                            s@,
                            pv + 3,
                        )->Some_0 =~= pre + (seq![XmlEventModel::Text { text: tv }] + tok_from(
                            s@,
                            pv + 3,
                        )->Some_0));
                    }
                }
                i = p + 3;
            } else if i + 1 < len && s.get_char(i + 1) == '?' {
                let p = find_pat2(s, i + 2, '?', '>');
                proof {
                    lemma_pat2_bounds(s@, i as int + 2, '?', '>');
                }
                if p >= len {
                    proof {
                        assert(tok_from(s@, i as int) is None);
                    }
                    return Err(DecodeError);
                }
                i = p + 2;
            } else if i + 1 < len && s.get_char(i + 1) == '!' {
                let g = find_tag_end(s, i + 2);
                proof {
                    lemma_tag_scan_bounds(s@, i as int + 2, None);
                }
                if g >= len {
                    proof {
                        assert(tok_from(s@, i as int) is None);
                    }
                    return Err(DecodeError);
                }
                i = g + 1;
            } else if i + 1 < len && s.get_char(i + 1) == '/' {
                let g = find_tag_end(s, i + 1);
                proof {
                    lemma_tag_scan_bounds(s@, i as int + 1, None);
                }
                if g >= len {
                    proof {
                        assert(tok_from(s@, i as int) is None);
                    }
                    return Err(DecodeError);
                }
                let ne = find_name_stop(s, i + 2);
                proof {
                    lemma_name_stop_bounds(s@, i as int + 2);
                }
                let name = extract_local_name(s, i + 2, ne);
                if name.unicode_len() == 0 {
                    proof {
                        assert(tok_from(s@, i as int) is None);
                    }
                    return Err(DecodeError);
                }
                out.push(XmlEvent::Close(name));
                proof {
                    let iv = i as int;
                    let gv = tag_end(s@, iv + 1);
                    let nm = local_name(s@.subrange(iv + 2, name_stop(s@, iv + 2)));
                    assert(evs_view(out@) =~= pre.push(XmlEventModel::Close { name: nm }));
                    if tok_from(s@, gv + 1) is Some {
                        assert(pre.push(XmlEventModel::Close { name: nm }) + tok_from(
                            s@,
                            gv + 1,
                        )->Some_0 =~= pre + (seq![XmlEventModel::Close { name: nm }] + tok_from(
                            s@,
                            gv + 1,
                        )->Some_0));
                    }
                }
                i = g + 1;
            } else {
                let g = find_tag_end(s, i + 1);
                proof {
                    lemma_tag_scan_bounds(s@, i as int + 1, None);
                }
                if g >= len {
                    proof {
                        assert(tok_from(s@, i as int) is None);
                    }
                    return Err(DecodeError);
                }
                let ne = find_name_stop(s, i + 1);
                proof {
                    lemma_name_stop_bounds(s@, i as int + 1);
                }
                let name = extract_local_name(s, i + 1, ne);
                if name.unicode_len() == 0 {
                    proof {
                        assert(tok_from(s@, i as int) is None);
                    }
                    return Err(DecodeError);
                }
                let selfclosing = s.get_char(g - 1) == '/';
                if selfclosing {
                    out.push(XmlEvent::Open(name.clone()));
                    out.push(XmlEvent::Close(name));
                } else {
                    out.push(XmlEvent::Open(name));
                }
                proof {
                    let iv = i as int;
                    let gv = tag_end(s@, iv + 1);
                    let nm = local_name(s@.subrange(iv + 1, name_stop(s@, iv + 1)));
                    if s@[gv - 1] == '/' {
                        assert(evs_view(out@) =~= pre.push(XmlEventModel::Open { name: nm }).push(
                            XmlEventModel::Close { name: nm },
                        ));
                        if tok_from(s@, gv + 1) is Some {
                            assert(pre.push(XmlEventModel::Open { name: nm }).push(
                                XmlEventModel::Close { name: nm },
                            ) + tok_from(s@, gv + 1)->Some_0 =~= pre + (
                            seq![
                                XmlEventModel::Open { name: nm },
                                XmlEventModel::Close { name: nm },
                            ] + tok_from(s@, gv + 1)->Some_0));
                        }
                    } else {
                        assert(evs_view(out@) =~= pre.push(XmlEventModel::Open { name: nm }));
                        if tok_from(s@, gv + 1) is Some {
                            assert(pre.push(XmlEventModel::Open { name: nm }) + tok_from(
                                s@,
                                gv + 1,
                            )->Some_0 =~= pre + (seq![XmlEventModel::Open { name: nm }] + tok_from(
                                s@,
                                gv + 1,
                            )->Some_0));
                        }
                    }
                }
                i = g + 1;
            }
        }
    }
    proof {
        assert(tok_from(s@, len as int) == Some(Seq::<XmlEventModel>::empty()));
        assert(evs_view(out@) + Seq::<XmlEventModel>::empty() =~= evs_view(out@));
    }
    Ok(out)
}

} // verus!
