//! Webhook destinations, parsed out of a single comma-separated
//! configuration value of `id:token` pairs. Malformed entries — no colon,
//! or an id that is not a number — are dropped, never fatal.

use crate::digits::parse_u64;
use crate::digits::spec_parse_u64;
use vstd::prelude::*;
use vstd::string::*;

verus! {

/// The position of the first occurrence of `sep` in `s`, or `s.len()` when
/// `sep` does not occur.
pub open spec fn idx_of(s: Seq<char>, sep: char) -> int
    decreases s.len(),
{
    if s.len() == 0 {
        0
    } else if s[0] == sep {
        0
    } else {
        1 + idx_of(s.drop_first(), sep)
    }
}

/// The pieces of `s` cut at every occurrence of `sep`, in order, as
/// `str::split` yields them: an input without `sep` is one piece, even
/// when empty.
pub open spec fn split_on(s: Seq<char>, sep: char) -> Seq<Seq<char>>
    decreases s.len(),
{
    let i = idx_of(s, sep);
    if 0 <= i < s.len() {
        seq![s.take(i)] + split_on(s.skip(i + 1), sep)
    } else {
        seq![s]
    }
}

/// What one configuration entry yields: the text before the first colon
/// must parse as a numeric id, and the token is the piece between the
/// first and the second colon (the rest when there is no second). An entry
/// without a colon, or with a non-numeric id, yields nothing.
pub open spec fn parse_entry(e: Seq<char>) -> Option<(u64, Seq<char>)> {
    let ps = split_on(e, ':');
    if ps.len() < 2 {
        None
    } else {
        match spec_parse_u64(ps[0]) {
            Some(id) => Some((id, ps[1])),
            None => None,
        }
    }
}

/// The destinations of a sequence of entries, in order, keeping only the
/// well-formed ones.
pub open spec fn filter_entries(es: Seq<Seq<char>>) -> Seq<(u64, Seq<char>)>
    decreases es.len(),
{
    if es.len() == 0 {
        Seq::empty()
    } else {
        let rest = filter_entries(es.drop_first());
        match parse_entry(es.first()) {
            Some(p) => seq![p] + rest,
            None => rest,
        }
    }
}

/// Every well-formed destination in the comma-separated configuration
/// value `s`, in order.
pub open spec fn spec_webhooks(s: Seq<char>) -> Seq<(u64, Seq<char>)> {
    filter_entries(split_on(s, ','))
}

/// The views of parsed destinations.
pub open spec fn dest_views(v: Seq<(u64, String)>) -> Seq<(u64, Seq<char>)> {
    v.map_values(|p: (u64, String)| (p.0, p.1@))
}

/// The view of one optional parsed destination.
pub open spec fn opt_dest_view(o: Option<(u64, String)>) -> Option<(u64, Seq<char>)> {
    match o {
        Some(p) => Some((p.0, p.1@)),
        None => None,
    }
}

/// `idx_of` is pinned down by what the characters show: no `sep` before
/// `i`, and `sep` at `i` unless `i` is the length.
proof fn lemma_idx_of_is(t: Seq<char>, sep: char, i: int)
    requires
        0 <= i <= t.len(),
        forall|j: int| 0 <= j < i ==> t[j] != sep,
        i < t.len() ==> t[i] == sep,
    ensures
        idx_of(t, sep) == i,
    decreases t.len(),
{
    if t.len() == 0 {
    } else if t[0] == sep {
    } else {
        assert(forall|j: int| 0 <= j < i - 1 ==> t.drop_first()[j] == t[j + 1]);
        lemma_idx_of_is(t.drop_first(), sep, i - 1);
    }
}

/// A split always yields at least one piece.
proof fn lemma_split_on_nonempty(s: Seq<char>, sep: char)
    ensures
        split_on(s, sep).len() >= 1,
{
}

/// The position of the first occurrence of `sep` in `s` at or after
/// `from`, or the length when there is none.
fn find_from(s: &str, from: usize, sep: char) -> (r: usize)
    requires
        from <= s@.len(),
    ensures
        from <= r <= s@.len(),
        forall|j: int| from <= j < r ==> s@[j] != sep,
        r < s@.len() ==> s@[r as int] == sep,
        idx_of(s@.skip(from as int), sep) == r - from,
{
    let n = s.unicode_len();
    let mut e: usize = from;
    while e < n && s.get_char(e) != sep
        invariant
            from <= e <= n,
            n == s@.len(),
            forall|j: int| from <= j < e ==> s@[j] != sep,
        decreases n - e,
    {
        e = e + 1;
    }
    proof {
        let t = s@.skip(from as int);
        assert(forall|j: int| 0 <= j < e - from ==> t[j] == s@[j + from]);
        lemma_idx_of_is(t, sep, e - from);
    }
    e
}

/// Parses one configuration entry, exactly as `parse_entry` describes.
fn parse_entry_exec(entry: &str) -> (r: Option<(u64, String)>)
    ensures
        opt_dest_view(r) == parse_entry(entry@),
{
    let m = entry.unicode_len();
    let c1 = find_from(entry, 0, ':');
    proof {
        assert(entry@.skip(0) =~= entry@);
    }
    if c1 == m {
        return None;
    }
    let c2 = find_from(entry, c1 + 1, ':');
    let id_part = entry.substring_char(0, c1);
    let token = entry.substring_char(c1 + 1, c2);
    let ghost ps = split_on(entry@, ':');
    proof {
        let rest = entry@.skip(c1 + 1);
        lemma_split_on_nonempty(rest, ':');
        assert(ps == seq![entry@.take(c1 as int)] + split_on(rest, ':'));
        assert(ps[0] == entry@.take(c1 as int));
        assert(id_part@ =~= entry@.take(c1 as int));
        assert(ps[1] == split_on(rest, ':')[0]);
        if c2 < m {
            assert(split_on(rest, ':')[0] == rest.take(c2 - c1 - 1));
            assert(token@ =~= rest.take(c2 - c1 - 1));
        } else {
            assert(split_on(rest, ':')[0] == rest);
            assert(token@ =~= rest);
        }
        assert(ps[1] == token@);
    }
    match parse_u64(id_part) {
        Some(id) => Some((id, token.to_owned())),
        None => None,
    }
}

/// Parses the comma-separated configuration value into the webhook
/// destinations, in order, dropping malformed entries.
pub fn parse_webhooks(s: &str) -> (r: Vec<(u64, String)>)
    requires
        s@.len() < usize::MAX,
    ensures
        dest_views(r@) == spec_webhooks(s@),
{
    let n = s.unicode_len();
    let mut out: Vec<(u64, String)> = Vec::new();
    let mut pos: usize = 0;
    proof {
        assert(s@.skip(0) =~= s@);
    }
    while pos <= n
        invariant
            pos <= n + 1,
            n < usize::MAX,
            n == s@.len(),
            pos <= n ==> spec_webhooks(s@) == dest_views(out@) + filter_entries(
                split_on(s@.skip(pos as int), ','),
            ),
            pos == n + 1 ==> spec_webhooks(s@) == dest_views(out@),
        decreases n + 1 - pos,
    {
        let e = find_from(s, pos, ',');
        let entry = s.substring_char(pos, e);
        let ghost t = s@.skip(pos as int);
        let ghost pieces = split_on(t, ',');
        proof {
            assert(entry@ =~= t.take(e - pos));
            if e < n {
                assert(pieces == seq![t.take(e - pos)] + split_on(t.skip(e - pos + 1), ','));
                assert(t.skip(e - pos + 1) =~= s@.skip(e + 1));
                assert(pieces.drop_first() =~= split_on(s@.skip(e + 1), ','));
                assert(pieces.first() == entry@);
            } else {
                assert(pieces == seq![t]);
                assert(pieces.first() == entry@);
                assert(pieces.drop_first() =~= Seq::<Seq<char>>::empty());
            }
            assert(filter_entries(pieces) == (match parse_entry(entry@) {
                Some(p) => seq![p] + filter_entries(pieces.drop_first()),
                None => filter_entries(pieces.drop_first()),
            }));
        }
        let ghost before = out@;
        match parse_entry_exec(entry) {
            Some(p) => {
                out.push(p);
                proof {
                    assert(dest_views(out@) =~= dest_views(before) + seq![
                        (p.0, p.1@),
                    ]);
                }
            },
            None => {},
        }
        pos = e + 1;
    }
    out
}

} // verus!
