//! Input rules for slugs, weather names and search text.
use vstd::prelude::*;
use vstd::string::*;

use crate::text::{chars_of, push_char, str_eq, string_of};

verus! {

/// Slug characters: ASCII lower-case letters, digits and `-`.
pub open spec fn slug_char(c: char) -> bool {
    ('a' <= c && c <= 'z') || ('0' <= c && c <= '9') || c == '-'
}

/// A slug is made of slug characters only.
pub open spec fn valid_slug(s: Seq<char>) -> bool {
    forall|k: int| 0 <= k < s.len() ==> slug_char(#[trigger] s[k])
}

/// A slug is valid exactly when each of its characters is a lower-case
/// ASCII letter (code points 97 to 122), an ASCII digit (48 to 57) or a
/// hyphen (45).
pub proof fn lemma_valid_slug_chars(s: Seq<char>)
    ensures
        valid_slug(s) <==> forall|k: int|
            0 <= k < s.len() ==> {
                let u = #[trigger] s[k] as int;
                (97 <= u && u <= 122) || (48 <= u && u <= 57) || u == 45
            },
{
    assert forall|k: int| 0 <= k < s.len() implies (slug_char(#[trigger] s[k]) <==> {
        let u = s[k] as int;
        (97 <= u && u <= 122) || (48 <= u && u <= 57) || u == 45
    }) by {
        assert(('a' as int) == 97 && ('z' as int) == 122 && ('0' as int) == 48 && ('9' as int) == 57
            && ('-' as int) == 45);
    }
}

/// Check a slug; the error is the code `invalid_slug_format`.
pub fn validate_slug(slug: &str) -> (res: Result<(), &'static str>)
    ensures
        res is Ok <==> valid_slug(slug@),
        res matches Err(code) ==> code@ == "invalid_slug_format"@,
{
    let cs = chars_of(slug);
    let mut i: usize = 0;
    while i < cs.len()
        invariant
            cs@ == slug@,
            0 <= i <= cs@.len(),
            forall|k: int| 0 <= k < i ==> slug_char(#[trigger] cs@[k]),
        decreases cs@.len() - i,
    {
        let c = cs[i];
        if !(('a' <= c && c <= 'z') || ('0' <= c && c <= '9') || c == '-') {
            assert(!slug_char(slug@[i as int]));
            return Err("invalid_slug_format");
        }
        i = i + 1;
    }
    Ok(())
}

/// Weather is one of `clear`, `rain`, `thunder`.
pub open spec fn valid_weather(s: Seq<char>) -> bool {
    s == "clear"@ || s == "rain"@ || s == "thunder"@
}

/// Check a weather name; the error is the code `invalid_weather`.
pub fn validate_weather(value: &str) -> (res: Result<(), &'static str>)
    ensures
        res is Ok <==> valid_weather(value@),
        res matches Err(code) ==> code@ == "invalid_weather"@,
{
    if str_eq(value, "clear") || str_eq(value, "rain") || str_eq(value, "thunder") {
        Ok(())
    } else {
        Err("invalid_weather")
    }
}

/// `LIKE`-escaping of one character: `\`, `%` and `_` get a backslash before them.
pub open spec fn escape_char(c: char) -> Seq<char> {
    if c == '\\' || c == '%' || c == '_' {
        seq!['\\', c]
    } else {
        seq![c]
    }
}

/// `LIKE`-escaping of a text.
pub open spec fn like_escape(s: Seq<char>) -> Seq<char>
    decreases s.len(),
{
    if s.len() == 0 {
        Seq::empty()
    } else {
        like_escape(s.drop_last()) + escape_char(s.last())
    }
}

/// Case-insensitive substring pattern for a search text: `%` + escaped text
/// + `%`; no pattern for an empty text.
pub fn search_pattern(q: &str) -> (res: Option<String>)
    ensures
        q@.len() == 0 ==> res is None,
        q@.len() > 0 ==> (res matches Some(p) && p@ == seq!['%'] + like_escape(q@) + seq!['%']),
{
    let cs = chars_of(q);
    if cs.len() == 0 {
        return None;
    }
    let mut out: Vec<char> = Vec::new();
    out.push('%');
    let mut i: usize = 0;
    while i < cs.len()
        invariant
            cs@ == q@,
            0 <= i <= cs@.len(),
            out@ == seq!['%'] + like_escape(q@.take(i as int)),
        decreases cs@.len() - i,
    {
        let c = cs[i];
        assert(q@.take(i as int + 1).drop_last() =~= q@.take(i as int));
        if c == '\\' || c == '%' || c == '_' {
            out.push('\\');
        }
        out.push(c);
        assert(out@ =~= seq!['%'] + like_escape(q@.take(i as int + 1)));
        i = i + 1;
    }
    out.push('%');
    assert(q@.take(i as int) =~= q@);
    Some(string_of(&out))
}

} // verus!
