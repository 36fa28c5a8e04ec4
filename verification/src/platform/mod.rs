//! Shader hosting platforms (Modrinth and CurseForge): references parsed
//! from pasted URLs, response classification and platform-agnostic records.
use vstd::prelude::*;
use vstd::string::*;

use crate::text::{chars_of, str_eq, trim, trimmed};
pub use crate::text::{clone_opt, opt_text};

pub mod curseforge;
pub mod modrinth;

verus! {

/// Which platform a shader was sourced from.
#[derive(Debug, Clone, Copy, PartialEq, Eq, Structural)]
pub enum Platform {
    Modrinth,
    CurseForge,
}

pub open spec fn platform_text(p: Platform) -> Seq<char> {
    match p {
        Platform::Modrinth => "modrinth"@,
        Platform::CurseForge => "curseforge"@,
    }
}

impl Platform {
    /// Lower-case platform name.
    pub fn as_str(&self) -> (res: &'static str)
        ensures
            res@ == platform_text(*self),
    {
        match self {
            Platform::Modrinth => "modrinth",
            Platform::CurseForge => "curseforge",
        }
    }
}

/// A shader reference parsed from a pasted URL.
#[derive(Debug)]
pub enum PlatformRef {
    Modrinth { id_or_slug: String },
    CurseForge { slug: String },
}

/// The platform and identifier a reference names.
pub open spec fn ref_text(r: Option<PlatformRef>) -> Option<(Platform, Seq<char>)> {
    match r {
        Some(PlatformRef::Modrinth { id_or_slug }) => Some((Platform::Modrinth, id_or_slug@)),
        Some(PlatformRef::CurseForge { slug }) => Some((Platform::CurseForge, slug@)),
        None => None,
    }
}

/// The host and path segments of a URL as the `url` crate parses it:
/// `None` when the text is not an absolute URL; otherwise the host (if any)
/// and the `/`-separated path segments (if the URL can be a base).
pub uninterp spec fn url_parts(input: Seq<char>) -> Option<(Option<Seq<char>>, Option<Seq<Seq<char>>>)>;

/// The text of parsed URL parts.
pub open spec fn parts_text(p: Option<(Option<String>, Option<Vec<String>>)>) -> Option<
    (Option<Seq<char>>, Option<Seq<Seq<char>>>),
> {
    match p {
        None => None,
        Some((h, s)) => Some(
            (
                match h {
                    Some(h) => Some(h@),
                    None => None,
                },
                match s {
                    Some(v) => Some(v@.map_values(|x: String| x@)),
                    None => None,
                },
            ),
        ),
    }
}

/// `url::Url::parse`, then `host_str` and `path_segments` of the result.
#[verifier::external_body]
fn parse_url_parts(input: &str) -> (res: Option<(Option<String>, Option<Vec<String>>)>)
    ensures
        parts_text(res) == url_parts(input@),
{
    match url::Url::parse(input) {
        Ok(u) => Some(
            (
                u.host_str().map(|h| h.to_string()),
                u.path_segments().map(|s| s.map(|p| p.to_string()).collect()),
            ),
        ),
        Err(_) => None,
    }
}

/// The non-empty segments, in order.
pub open spec fn nonempty_segments(s: Seq<Seq<char>>) -> Seq<Seq<char>>
    decreases s.len(),
{
    if s.len() == 0 {
        Seq::empty()
    } else {
        let prev = nonempty_segments(s.drop_last());
        if s.last().len() > 0 {
            prev.push(s.last())
        } else {
            prev
        }
    }
}

/// The reference named by a URL's host and path segments:
/// `modrinth.com/shader/<slug>[/...]` and
/// `curseforge.com/minecraft/<category>/<slug>[/...]` (each also under
/// `www.`); empty segments are skipped.
pub open spec fn classify_url(host: Option<Seq<char>>, segments: Option<Seq<Seq<char>>>) -> Option<
    (Platform, Seq<char>),
> {
    match (host, segments) {
        (Some(h), Some(raw)) => {
            let segs = nonempty_segments(raw);
            if (h == "modrinth.com"@ || h == "www.modrinth.com"@) && segs.len() >= 2 && segs[0]
                == "shader"@ {
                Some((Platform::Modrinth, segs[1]))
            } else if (h == "curseforge.com"@ || h == "www.curseforge.com"@) && segs.len() >= 3
                && segs[0] == "minecraft"@ {
                Some((Platform::CurseForge, segs[2]))
            } else {
                None
            }
        },
        _ => None,
    }
}

/// The reference a pasted text names: the text is trimmed, parsed as a URL
/// and classified by [`classify_url`].
pub open spec fn spec_parse_platform_url(input: Seq<char>) -> Option<(Platform, Seq<char>)> {
    match url_parts(trimmed(input)) {
        Some((h, s)) => classify_url(h, s),
        None => None,
    }
}

fn nonempty_segment_list(raw: &Vec<String>) -> (res: Vec<String>)
    ensures
        res@.map_values(|x: String| x@) == nonempty_segments(raw@.map_values(|x: String| x@)),
{
    let ghost rv = raw@.map_values(|x: String| x@);
    let mut res: Vec<String> = Vec::new();
    let mut i: usize = 0;
    while i < raw.len()
        invariant
            rv == raw@.map_values(|x: String| x@),
            0 <= i <= raw@.len(),
            res@.map_values(|x: String| x@) == nonempty_segments(rv.take(i as int)),
        decreases raw@.len() - i,
    {
        assert(rv.take(i as int + 1).drop_last() =~= rv.take(i as int));
        assert(rv.take(i as int + 1).last() == raw@[i as int]@);
        let ghost before = res@.map_values(|x: String| x@);
        let cs = chars_of(raw[i].as_str());
        if cs.len() > 0 {
            res.push(raw[i].clone());
            assert(res@.map_values(|x: String| x@) =~= before.push(raw@[i as int]@));
        }
        i = i + 1;
    }
    assert(rv.take(i as int) =~= rv);
    res
}

/// Classify a parsed URL (host and raw path segments) as a platform reference.
pub fn classify_platform_url(host: Option<String>, segments: Option<Vec<String>>) -> (res: Option<
    PlatformRef,
>)
    ensures
        ref_text(res) == classify_url(
            match host {
                Some(h) => Some(h@),
                None => None,
            },
            match segments {
                Some(v) => Some(v@.map_values(|x: String| x@)),
                None => None,
            },
        ),
{
    let h = match host {
        Some(h) => h,
        None => return None,
    };
    let raw = match segments {
        Some(s) => s,
        None => return None,
    };
    let segs = nonempty_segment_list(&raw);
    let ghost sv = segs@.map_values(|x: String| x@);
    let modrinth_host = str_eq(h.as_str(), "modrinth.com") || str_eq(h.as_str(), "www.modrinth.com");
    if modrinth_host && segs.len() >= 2 {
        assert(sv[0] == segs@[0]@ && sv[1] == segs@[1]@);
        if str_eq(segs[0].as_str(), "shader") {
            return Some(PlatformRef::Modrinth { id_or_slug: segs[1].clone() });
        }
    }
    let curse_host = str_eq(h.as_str(), "curseforge.com") || str_eq(
        h.as_str(),
        "www.curseforge.com",
    );
    if curse_host && segs.len() >= 3 {
        assert(sv[0] == segs@[0]@ && sv[2] == segs@[2]@);
        if str_eq(segs[0].as_str(), "minecraft") {
            return Some(PlatformRef::CurseForge { slug: segs[2].clone() });
        }
    }
    None
}

/// Parse a pasted Modrinth or CurseForge URL into a reference.
pub fn parse_platform_url(input: &str) -> (res: Option<PlatformRef>)
    ensures
        ref_text(res) == spec_parse_platform_url(input@),
{
    let t = trim(input);
    match parse_url_parts(t.as_str()) {
        Some((host, segments)) => classify_platform_url(host, segments),
        None => None,
    }
}

// ---------------------------------------------------------------------------
// Response classification
// ---------------------------------------------------------------------------

/// Whether a character is an ASCII decimal digit.
pub open spec fn is_digit(c: char) -> bool {
    '0' <= c && c <= '9'
}

/// Value of a string of decimal digits.
pub open spec fn digits_value(s: Seq<char>) -> int
    decreases s.len(),
{
    if s.len() == 0 {
        0
    } else {
        digits_value(s.drop_last()) * 10 + (s.last() as int - '0' as int)
    }
}

pub open spec fn all_digits(s: Seq<char>) -> bool {
    forall|k: int| 0 <= k < s.len() ==> is_digit(#[trigger] s[k])
}

/// What `str::parse::<u64>` accepts: an optional `+` and at least one
/// decimal digit, with a value that fits.
pub open spec fn spec_parse_u64(s: Seq<char>) -> Option<u64> {
    let body = if s.len() > 0 && s[0] == '+' {
        s.drop_first()
    } else {
        s
    };
    if body.len() > 0 && all_digits(body) && digits_value(body) <= u64::MAX {
        Some(digits_value(body) as u64)
    } else {
        None
    }
}

proof fn lemma_digits_nonneg(s: Seq<char>)
    requires
        all_digits(s),
    ensures
        digits_value(s) >= 0,
    decreases s.len(),
{
    if s.len() > 0 {
        lemma_digits_nonneg(s.drop_last());
    }
}

/// A text of digits is worth at least any of its prefixes.
proof fn lemma_digits_prefix(s: Seq<char>, k: int)
    requires
        0 <= k <= s.len(),
        all_digits(s),
    ensures
        digits_value(s) >= digits_value(s.take(k)),
    decreases s.len(),
{
    if k < s.len() {
        lemma_digits_prefix(s.drop_last(), k);
        assert(s.drop_last().take(k) =~= s.take(k));
        lemma_digits_nonneg(s.drop_last());
    } else {
        assert(s.take(k) =~= s);
    }
}

/// The value of the characters `cs[start..]` read as decimal digits: `Some`
/// when they are all digits and the value fits in a `u64`.
pub(crate) fn digits_u64(cs: &Vec<char>, start: usize) -> (res: Option<u64>)
    requires
        start <= cs@.len(),
    ensures
        ({
            let body = cs@.subrange(start as int, cs@.len() as int);
            match res {
                Some(v) => all_digits(body) && v == digits_value(body),
                None => !all_digits(body) || digits_value(body) > u64::MAX,
            }
        }),
{
    let ghost body = cs@.subrange(start as int, cs@.len() as int);
    let mut acc: u64 = 0;
    let mut i: usize = start;
    while i < cs.len()
        invariant
            start <= i <= cs@.len(),
            body == cs@.subrange(start as int, cs@.len() as int),
            all_digits(cs@.subrange(start as int, i as int)),
            acc == digits_value(cs@.subrange(start as int, i as int)),
        decreases cs@.len() - i,
    {
        let c = cs[i];
        let ghost pre = cs@.subrange(start as int, i as int);
        let ghost next = cs@.subrange(start as int, i as int + 1);
        assert(next.drop_last() =~= pre);
        assert(next.last() == c);
        if c < '0' || c > '9' {
            assert(!is_digit(c));
            assert(body[i - start] == c);
            return None;
        }
        let d = (c as u32 - 48) as u64;
        assert(all_digits(next)) by {
            assert forall|k: int| 0 <= k < next.len() implies is_digit(#[trigger] next[k]) by {
                if k < pre.len() {
                    assert(next[k] == pre[k]);
                }
            }
        }
        assert(digits_value(next) == acc * 10 + d);
        match acc.checked_mul(10) {
            Some(m) => match m.checked_add(d) {
                Some(v) => {
                    acc = v;
                },
                None => {
                    proof {
                        if all_digits(body) {
                            lemma_digits_prefix(body, i + 1 - start);
                            assert(body.take(i + 1 - start) =~= next);
                        }
                    }
                    return None;
                },
            },
            None => {
                proof {
                    lemma_digits_nonneg(pre);
                    if all_digits(body) {
                        lemma_digits_prefix(body, i + 1 - start);
                        assert(body.take(i + 1 - start) =~= next);
                    }
                }
                return None;
            },
        }
        i = i + 1;
    }
    assert(cs@.subrange(start as int, i as int) =~= body);
    Some(acc)
}

/// `str::parse::<u64>`: decimal text with an optional leading `+`.
pub(crate) fn parse_u64(s: &str) -> (res: Option<u64>)
    ensures
        res == spec_parse_u64(s@),
{
    let cs = chars_of(s);
    let start: usize = if cs.len() > 0 && cs[0] == '+' {
        1
    } else {
        0
    };
    assert(cs@.subrange(start as int, cs@.len() as int) =~= if s@.len() > 0 && s@[0] == '+' {
        s@.drop_first()
    } else {
        s@
    });
    if start == cs.len() {
        return None;
    }
    digits_u64(&cs, start)
}

/// How a platform response status is handled.
#[derive(Debug, Clone, Copy, PartialEq, Eq, Structural)]
pub enum ResponseOutcome {
    /// 2xx: the body is read.
    Success,
    /// 429: retry after this many seconds.
    RateLimited { retry_after_secs: u64 },
    /// 404.
    NotFound,
    /// Any other status.
    BadStatus { status: u16 },
}

/// Seconds to wait from a rate-limit header (`x-ratelimit-reset`, else
/// `retry-after`): its value when it parses as a number, 60 otherwise.
pub open spec fn spec_retry_after(header: Option<Seq<char>>) -> u64 {
    match header {
        Some(h) => match spec_parse_u64(h) {
            Some(n) => n,
            None => 60,
        },
        None => 60,
    }
}

/// Classify a response status: 429 is rate limiting (with the wait read
/// from `retry_header`), 404 is not-found, other non-2xx statuses are errors.
pub fn classify_response(status: u16, retry_header: Option<&str>) -> (res: ResponseOutcome)
    ensures
        status == 429 ==> res == (ResponseOutcome::RateLimited {
            retry_after_secs: spec_retry_after(
                match retry_header {
                    Some(h) => Some(h@),
                    None => None,
                },
            ),
        }),
        status == 404 ==> res == ResponseOutcome::NotFound,
        status != 429 && status != 404 && 200 <= status <= 299 ==> res == ResponseOutcome::Success,
        status != 429 && status != 404 && !(200 <= status <= 299) ==> res == (
        ResponseOutcome::BadStatus { status }),
{
    if status == 429 {
        let secs = match retry_header {
            Some(h) => match parse_u64(h) {
                Some(n) => n,
                None => 60,
            },
            None => 60,
        };
        ResponseOutcome::RateLimited { retry_after_secs: secs }
    } else if status == 404 {
        ResponseOutcome::NotFound
    } else if 200 <= status && status <= 299 {
        ResponseOutcome::Success
    } else {
        ResponseOutcome::BadStatus { status }
    }
}

// ---------------------------------------------------------------------------
// Platform-agnostic records
// ---------------------------------------------------------------------------

/// Platform-agnostic shader metadata. `updated_at` is Unix seconds.
pub struct PlatformMetadata {
    pub platform_id: String,
    pub name: String,
    pub slug: String,
    pub description: Option<String>,
    pub icon_url: Option<String>,
    pub source_url: Option<String>,
    pub website_url: Option<String>,
    pub license_id: Option<String>,
    pub downloads: u64,
    pub updated_at: Option<i64>,
}

/// An author from a platform.
pub struct PlatformAuthor {
    pub name: String,
    pub url: Option<String>,
}

/// Shader project data: metadata and authors.
pub struct ProjectData {
    pub metadata: PlatformMetadata,
    pub authors: Vec<PlatformAuthor>,
}

/// A version/file from a platform in a common form. `published_at` is Unix seconds.
pub struct PlatformVersion {
    pub version_number: String,
    pub modrinth_version_id: Option<String>,
    pub curseforge_file_id: Option<i32>,
    pub download_url: Option<String>,
    pub file_hash: Option<String>,
    pub file_size: Option<i64>,
    pub game_versions: Option<Vec<String>>,
    pub release_channel: Option<String>,
    pub published_at: Option<i64>,
}


// ---------------------------------------------------------------------------
// Deduplicating versions
// ---------------------------------------------------------------------------

/// The version numbers of a list of versions.
pub open spec fn version_numbers(v: Seq<PlatformVersion>) -> Seq<Seq<char>> {
    v.map_values(|x: PlatformVersion| x.version_number@)
}

/// Whether `s[i]` repeats an earlier entry.
pub open spec fn seen_before(s: Seq<Seq<char>>, i: int) -> bool {
    exists|j: int| 0 <= j < i && #[trigger] s[j] == s[i]
}

/// Indices of the first `n` entries of `s` that do not repeat an earlier
/// one, in order: the first of each distinct value.
pub open spec fn first_of_each(s: Seq<Seq<char>>, n: int) -> Seq<usize>
    decreases n,
{
    if n <= 0 {
        Seq::empty()
    } else if seen_before(s, n - 1) {
        first_of_each(s, n - 1)
    } else {
        first_of_each(s, n - 1).push((n - 1) as usize)
    }
}

/// The versions stored for a platform listing: platforms can list one
/// version number several times (once per loader), and only the first of
/// each number is kept, in listing order. The result holds their indices.
pub fn unique_version_indices(versions: &Vec<PlatformVersion>) -> (res: Vec<usize>)
    ensures
        res@ == first_of_each(version_numbers(versions@), versions@.len() as int),
{
    let ghost s = version_numbers(versions@);
    let mut res: Vec<usize> = Vec::new();
    let mut i: usize = 0;
    while i < versions.len()
        invariant
            s == version_numbers(versions@),
            0 <= i <= versions@.len(),
            res@ == first_of_each(s, i as int),
        decreases versions@.len() - i,
    {
        let mut j: usize = 0;
        let mut dup = false;
        while j < i
            invariant
                s == version_numbers(versions@),
                0 <= j <= i < versions@.len(),
                dup == exists|k: int| 0 <= k < j && s[k] == s[i as int],
            decreases i - j,
        {
            if str_eq(versions[j].version_number.as_str(), versions[i].version_number.as_str()) {
                assert(s[j as int] == s[i as int]);
                dup = true;
            }
            j = j + 1;
        }
        if !dup {
            res.push(i);
        }
        i = i + 1;
    }
    res
}

/// Whether some kept index holds the value `v`.
pub open spec fn kept_has(s: Seq<Seq<char>>, kept: Seq<usize>, v: Seq<char>) -> bool {
    exists|k: int| 0 <= k < kept.len() && s[#[trigger] kept[k] as int] == v
}

/// Deduplication keeps exactly one version of each number: the kept
/// numbers are pairwise distinct, and every listed number is among them.
pub proof fn lemma_first_of_each(s: Seq<Seq<char>>, n: int)
    requires
        0 <= n <= s.len(),
        n <= usize::MAX,
    ensures
        forall|a: int, b: int|
            0 <= a < b < first_of_each(s, n).len() ==> s[#[trigger] first_of_each(s, n)[a] as int]
                != s[#[trigger] first_of_each(s, n)[b] as int],
        forall|i: int| 0 <= i < n ==> kept_has(s, first_of_each(s, n), #[trigger] s[i]),
        forall|k: int| 0 <= k < first_of_each(s, n).len() ==> #[trigger] first_of_each(s, n)[k] < n,
    decreases n,
{
    if n > 0 {
        lemma_first_of_each(s, n - 1);
        let prev = first_of_each(s, n - 1);
        let res = first_of_each(s, n);
        if seen_before(s, n - 1) {
            assert(res == prev);
            let j = choose|j: int| 0 <= j < n - 1 && #[trigger] s[j] == s[n - 1];
            assert(kept_has(s, prev, s[j]));
        } else {
            assert(res == prev.push((n - 1) as usize));
            assert forall|a: int, b: int| 0 <= a < b < res.len() implies s[#[trigger] res[a] as int]
                != s[#[trigger] res[b] as int] by {
                if b == res.len() - 1 {
                    assert(res[b] == n - 1);
                    assert(res[a] == prev[a]);
                    assert(prev[a] < n - 1);
                    if s[res[a] as int] == s[res[b] as int] {
                        assert(s[prev[a] as int] == s[n - 1]);
                        assert(seen_before(s, n - 1));
                    }
                } else {
                    assert(res[a] == prev[a] && res[b] == prev[b]);
                }
            }
            assert forall|i: int| 0 <= i < n implies kept_has(s, res, #[trigger] s[i]) by {
                if i == n - 1 {
                    assert(res[res.len() - 1] == n - 1);
                    assert(s[res[res.len() - 1] as int] == s[i]);
                } else {
                    assert(kept_has(s, prev, s[i]));
                    let k = choose|k: int| 0 <= k < prev.len() && s[#[trigger] prev[k] as int] == s[i];
                    assert(res[k] == prev[k]);
                }
            }
            assert forall|k: int| 0 <= k < res.len() implies #[trigger] res[k] < n by {
                if k < prev.len() {
                    assert(res[k] == prev[k]);
                }
            }
        }
    }
}

} // verus!
