//! The host of a URL, read from its bytes.

use vstd::prelude::*;
use vstd::slice::slice_subrange;
use crate::text::matches_at;

verus! {

/// `:`
pub const COLON: u8 = 58;

/// `/`
pub const SLASH: u8 = 47;

/// `?`
pub const QUESTION: u8 = 63;

/// `#`
pub const HASH: u8 = 35;

/// `@`
pub const AT: u8 = 64;

/// `.`
pub const DOT: u8 = 46;

/// The part of a URL that a scan runs through.
#[derive(Clone, Copy, Debug, PartialEq, Eq, Structural)]
pub enum Part {
    /// The scheme: it ends at the first `:`, `/`, `?` or `#`.
    Scheme,
    /// The authority: it ends at the first `/`, `?` or `#`.
    Authority,
    /// The host: it ends at the first `:`, where the port begins.
    Host,
}

/// The byte ends the part.
pub open spec fn ends(part: Part, byte: u8) -> bool {
    match part {
        Part::Scheme => byte == COLON || byte == SLASH || byte == QUESTION || byte == HASH,
        Part::Authority => byte == SLASH || byte == QUESTION || byte == HASH,
        Part::Host => byte == COLON,
    }
}

/// Where a part that begins at `from` ends: at the first byte that ends it,
/// at `until` where there is none before.
pub open spec fn end_of(bytes: Seq<u8>, from: int, until: int, part: Part) -> int
    decreases until - from,
{
    if from >= until {
        until
    } else if ends(part, bytes[from]) {
        from
    } else {
        end_of(bytes, from + 1, until, part)
    }
}

/// Where the host begins in an authority that runs from `from` to `until`:
/// behind the last `@`, which ends the user info; at `from` where there is none.
pub open spec fn after_user_info(bytes: Seq<u8>, from: int, until: int) -> int
    decreases until - from,
{
    if until <= from {
        from
    } else if bytes[until - 1] == AT {
        until
    } else {
        after_user_info(bytes, from, until - 1)
    }
}

/// Where the host of a URL stands in its bytes, from the first index up to
/// the second. A URL has a host where a scheme that is not empty is followed
/// by `://`; the host is what stands between that and the next `/`, `?` or
/// `#`, without user info and port.
pub open spec fn host_span(bytes: Seq<u8>) -> Option<(int, int)> {
    let colon = end_of(bytes, 0, bytes.len() as int, Part::Scheme);
    if 0 < colon && colon + 3 <= bytes.len() && bytes[colon] == COLON && bytes[colon + 1] == SLASH
        && bytes[colon + 2] == SLASH {
        let authority = colon + 3;
        let end = end_of(bytes, authority, bytes.len() as int, Part::Authority);
        let host = after_user_info(bytes, authority, end);
        Some((host, end_of(bytes, host, end, Part::Host)))
    } else {
        None
    }
}

/// The host of a URL.
pub open spec fn host_of(bytes: Seq<u8>) -> Option<Seq<u8>> {
    match host_span(bytes) {
        Some((from, until)) => Some(bytes.subrange(from, until)),
        None => None,
    }
}

/// `host` ends with `tail`.
pub open spec fn ends_with(host: Seq<u8>, tail: Seq<u8>) -> bool {
    tail.len() <= host.len() && host.subrange(host.len() - tail.len(), host.len() as int) == tail
}

/// `host` is `domain`, or a name under it: it ends with `.` and `domain`.
pub open spec fn is_or_under(host: Seq<u8>, domain: Seq<u8>) -> bool {
    host == domain || ends_with(host, seq![DOT] + domain)
}

/// Finds where a part that begins at `from` ends.
fn scan(bytes: &[u8], from: usize, until: usize, part: Part) -> (r: usize)
    requires
        from <= until <= bytes@.len(),
    ensures
        r == end_of(bytes@, from as int, until as int, part),
        from <= r <= until,
{
    let mut i: usize = from;
    while i < until
        invariant
            from <= i <= until <= bytes@.len(),
            end_of(bytes@, from as int, until as int, part) == end_of(
                bytes@,
                i as int,
                until as int,
                part,
            ),
        decreases until - i,
    {
        let byte = bytes[i];
        let stop = match part {
            Part::Scheme => byte == COLON || byte == SLASH || byte == QUESTION || byte == HASH,
            Part::Authority => byte == SLASH || byte == QUESTION || byte == HASH,
            Part::Host => byte == COLON,
        };
        if stop {
            return i;
        }
        i += 1;
    }
    i
}

/// Finds where the host begins in an authority.
fn skip_user_info(bytes: &[u8], from: usize, until: usize) -> (r: usize)
    requires
        from <= until <= bytes@.len(),
    ensures
        r == after_user_info(bytes@, from as int, until as int),
        from <= r <= until,
{
    let mut i: usize = until;
    while i > from
        invariant
            from <= i <= until <= bytes@.len(),
            after_user_info(bytes@, from as int, until as int) == after_user_info(
                bytes@,
                from as int,
                i as int,
            ),
        decreases i - from,
    {
        if bytes[i - 1] == AT {
            return i;
        }
        i -= 1;
    }
    i
}

/// Finds the host of a URL.
pub fn host_in<'a>(bytes: &'a [u8]) -> (r: Option<&'a [u8]>)
    ensures
        match r {
            Some(host) => host_of(bytes@) == Some(host@),
            None => host_of(bytes@) is None,
        },
{
    let n = bytes.len();
    let colon = scan(bytes, 0, n, Part::Scheme);
    if colon == 0 || n - colon < 3 {
        return None;
    }
    if bytes[colon] != COLON || bytes[colon + 1] != SLASH || bytes[colon + 2] != SLASH {
        return None;
    }
    let authority = colon + 3;
    let end = scan(bytes, authority, n, Part::Authority);
    let host = skip_user_info(bytes, authority, end);
    let until = scan(bytes, host, end, Part::Host);
    Some(slice_subrange(bytes, host, until))
}

/// Whether `host` is `domain`, or a name under it.
pub fn names_domain(host: &[u8], domain: &[u8]) -> (r: bool)
    ensures
        r == is_or_under(host@, domain@),
{
    let ghost tail = seq![DOT] + domain@;
    let n = host.len();
    let d = domain.len();
    if n == d {
        assert(host@.subrange(0, n as int) =~= host@);
        matches_at(host, domain, 0)
    } else if n > d {
        let r = host[n - d - 1] == DOT && matches_at(host, domain, n - d);
        proof {
            let cut = host@.subrange(n - d - 1, n as int);
            let name = host@.subrange(n - d, n as int);
            assert(cut.len() == tail.len());
            assert(cut[0] == host@[n - d - 1]);
            assert(tail[0] == DOT);
            if r {
                assert forall|k: int| 0 <= k < cut.len() implies cut[k] == tail[k] by {
                    if k > 0 {
                        assert(name[k - 1] == host@[n - d + k - 1]);
                        assert(tail[k] == domain@[k - 1]);
                    }
                }
                assert(cut =~= tail);
            }
            if cut == tail {
                assert forall|k: int| 0 <= k < d implies name[k] == domain@[k] by {
                    assert(cut[k + 1] == host@[n - d + k]);
                    assert(tail[k + 1] == domain@[k]);
                }
                assert(name =~= domain@);
            }
        }
        r
    } else {
        false
    }
}

} // verus!
