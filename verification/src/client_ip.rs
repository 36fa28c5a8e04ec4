//! Client IP resolution behind trusted reverse proxies.
//!
//! When `trusted_proxy_hops > 0`, the client address is read from the
//! `X-Forwarded-For` header: each trusted proxy appends one entry, so the
//! client is the entry `hops` places before the last one (or the first entry
//! when the header is shorter). Otherwise, or when that entry is not an IP
//! address, the connection's peer address is used, and `"unknown"` when there
//! is none.
use vstd::prelude::*;
use vstd::string::*;

use crate::text::{chars_of, string_of, trim, trimmed};

verus! {

/// The pieces of `s` between commas (an empty string gives one empty piece).
pub open spec fn split_commas(s: Seq<char>) -> Seq<Seq<char>>
    decreases s.len(),
{
    if s.len() == 0 {
        seq![Seq::empty()]
    } else {
        let prev = split_commas(s.drop_last());
        if s.last() == ',' {
            prev.push(Seq::empty())
        } else {
            prev.update(prev.len() - 1, prev.last().push(s.last()))
        }
    }
}

pub proof fn lemma_split_commas_len(s: Seq<char>)
    ensures
        split_commas(s).len() >= 1,
        split_commas(s).len() <= s.len() + 1,
    decreases s.len(),
{
    if s.len() > 0 {
        lemma_split_commas_len(s.drop_last());
    }
}

/// Index of the client's entry among `n` forwarded entries with `hops` trusted proxies.
pub open spec fn client_entry_index(n: int, hops: int) -> int {
    if n > hops + 1 {
        n - (hops + 1)
    } else {
        0
    }
}

/// The forwarded entry that names the client, trimmed; `None` without trusted hops.
pub open spec fn forwarded_client(xff: Seq<char>, hops: u8) -> Option<Seq<char>> {
    if hops == 0 {
        None
    } else {
        let parts = split_commas(xff);
        Some(trimmed(parts[client_entry_index(parts.len() as int, hops as int)]))
    }
}

/// Which forwarded entry names the client: with `hops` trusted proxies
/// (each appending one entry), the trimmed entry that has exactly `hops`
/// entries after it, or the first entry when the header has no more than
/// `hops + 1` entries; with no trusted proxy, none.
pub proof fn lemma_forwarded_client_entry(xff: Seq<char>, hops: u8)
    ensures
        hops == 0 ==> forwarded_client(xff, hops) is None,
        hops > 0 && split_commas(xff).len() > hops + 1 ==> forwarded_client(xff, hops) == Some(
            trimmed(split_commas(xff)[split_commas(xff).len() - 1 - hops]),
        ),
        hops > 0 && split_commas(xff).len() <= hops + 1 ==> forwarded_client(xff, hops) == Some(
            trimmed(split_commas(xff)[0]),
        ),
{
    lemma_split_commas_len(xff);
}

/// The resolved client IP (as text).
#[derive(Debug, Clone)]
pub struct ClientIp(pub String);

fn split_on_commas(s: &str) -> (parts: Vec<Vec<char>>)
    ensures
        parts@.map_values(|p: Vec<char>| p@) == split_commas(s@),
{
    let cs = chars_of(s);
    let mut parts: Vec<Vec<char>> = Vec::new();
    parts.push(Vec::new());
    let mut i: usize = 0;
    assert(s@.take(0) =~= Seq::<char>::empty());
    assert(parts@.map_values(|p: Vec<char>| p@) =~= seq![Seq::<char>::empty()]);
    while i < cs.len()
        invariant
            cs@ == s@,
            0 <= i <= cs@.len(),
            parts@.map_values(|p: Vec<char>| p@) == split_commas(s@.take(i as int)),
            parts@.len() >= 1,
        decreases cs@.len() - i,
    {
        let ghost prev = parts@.map_values(|p: Vec<char>| p@);
        let c = cs[i];
        assert(s@.take(i as int + 1).drop_last() =~= s@.take(i as int));
        if c == ',' {
            parts.push(Vec::new());
            assert(parts@.map_values(|p: Vec<char>| p@) =~= prev.push(Seq::empty()));
        } else {
            let last = parts.len() - 1;
            let mut p = parts.remove(last);
            p.push(c);
            parts.push(p);
            assert(parts@.map_values(|p: Vec<char>| p@) =~= prev.update(
                prev.len() - 1,
                prev.last().push(c),
            ));
        }
        i = i + 1;
    }
    assert(s@.take(cs@.len() as int) =~= s@);
    parts
}

impl ClientIp {
    /// The trimmed `X-Forwarded-For` entry that names the client when
    /// `hops > 0`, or `None` when proxies are not trusted.
    pub fn forwarded_candidate(xff: &str, hops: u8) -> (res: Option<String>)
        ensures
            res matches Some(c) ==> forwarded_client(xff@, hops) == Some(c@),
            res is None ==> forwarded_client(xff@, hops) is None,
    {
        if hops == 0 {
            return None;
        }
        let parts = split_on_commas(xff);
        proof {
            lemma_split_commas_len(xff@);
        }
        let n = parts.len();
        let want: usize = hops as usize + 1;
        let idx: usize = if n > want {
            n - want
        } else {
            0
        };
        let ghost pv = parts@.map_values(|p: Vec<char>| p@);
        assert(pv[idx as int] == parts@[idx as int]@);
        let piece = string_of(&parts[idx]);
        Some(trim(piece.as_str()))
    }

    /// Choose the client IP: the forwarded entry when it was accepted as an
    /// IP address, else the connection's peer IP, else `"unknown"`.
    pub fn resolve(forwarded_ip: Option<String>, connect_ip: Option<String>) -> (res: ClientIp)
        ensures
            forwarded_ip matches Some(f) ==> res.0@ == f@,
            forwarded_ip is None ==> (connect_ip matches Some(c) ==> res.0@ == c@),
            forwarded_ip is None && connect_ip is None ==> res.0@ == "unknown"@,
    {
        match forwarded_ip {
            Some(f) => ClientIp(f),
            None => match connect_ip {
                Some(c) => ClientIp(c),
                None => ClientIp(String::from_str("unknown")),
            },
        }
    }
}

} // verus!
