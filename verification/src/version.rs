//! Update checks: comparing "x.y.z" version strings, the update record
//! shown to the user, and download progress.

use vstd::prelude::*;
use crate::text::{chars_of, is_digit, parse_u32, parse_u32_chars};

verus! {

// ---------------------------------------------------------------------------
// Reading a version string
// ---------------------------------------------------------------------------

/// `s` without its leading `v` characters (`trim_start_matches('v')`).
pub open spec fn strip_v(s: Seq<char>) -> Seq<char>
    decreases s.len(),
{
    if s.len() > 0 && s[0] == 'v' {
        strip_v(s.drop_first())
    } else {
        s
    }
}

/// Index of the first `.` in `s`, or `s.len()` when there is none.
pub open spec fn first_dot(s: Seq<char>) -> nat
    decreases s.len(),
{
    if s.len() == 0 {
        0
    } else if s[0] == '.' {
        0
    } else {
        1 + first_dot(s.drop_first())
    }
}

pub proof fn lemma_first_dot_bound(s: Seq<char>)
    ensures
        first_dot(s) <= s.len(),
        first_dot(s) < s.len() ==> s[first_dot(s) as int] == '.',
        forall|j: int| 0 <= j < first_dot(s) ==> s[j] != '.',
    decreases s.len(),
{
    if s.len() > 0 && s[0] != '.' {
        lemma_first_dot_bound(s.drop_first());
        assert forall|j: int| 0 <= j < first_dot(s) implies s[j] != '.' by {
            if j > 0 {
                assert(s.drop_first()[j - 1] == s[j]);
            }
        }
    }
}

/// The pieces of `s` between dots (`split('.')`); there is always at least
/// one piece.
pub open spec fn split_dots(s: Seq<char>) -> Seq<Seq<char>>
    decreases s.len(),
{
    let k = first_dot(s);
    if k >= s.len() {
        seq![s]
    } else {
        proof {
            lemma_first_dot_bound(s);
        }
        seq![s.take(k as int)] + split_dots(s.skip((k + 1) as int))
    }
}

/// The leading ASCII digits of `p` (`take_while(is_ascii_digit)`).
pub open spec fn digit_prefix(p: Seq<char>) -> Seq<char>
    decreases p.len(),
{
    if p.len() > 0 && is_digit(p[0]) {
        seq![p[0]] + digit_prefix(p.drop_first())
    } else {
        Seq::empty()
    }
}

/// The number of one version piece: its leading digits parsed as a `u32`,
/// or 0 when there are none or they do not fit (`parse().unwrap_or(0)`).
pub open spec fn part_value(p: Seq<char>) -> u32 {
    match parse_u32(digit_prefix(p)) {
        Some(v) => v,
        None => 0,
    }
}

/// The numbers of the pieces of a piece list.
pub open spec fn part_values(parts: Seq<Seq<char>>) -> Seq<u32>
    decreases parts.len(),
{
    if parts.len() == 0 {
        Seq::empty()
    } else {
        seq![part_value(parts[0])] + part_values(parts.drop_first())
    }
}

/// The numbers of a version string such as `v1.2.10`.
pub open spec fn version_numbers(s: Seq<char>) -> Seq<u32> {
    part_values(split_dots(strip_v(s)))
}

/// The `i`-th number of a version, 0 past its end.
pub open spec fn number_at(v: Seq<u32>, i: int) -> u32 {
    if 0 <= i < v.len() {
        v[i]
    } else {
        0
    }
}

/// Whether `a` is greater than `b` when both are read from position `i`
/// on, missing numbers counting as 0.
pub open spec fn newer_from(a: Seq<u32>, b: Seq<u32>, i: int) -> bool
    decreases (if a.len() > b.len() { a.len() } else { b.len() }) - i,
{
    if i < 0 || (i >= a.len() && i >= b.len()) {
        false
    } else if number_at(a, i) != number_at(b, i) {
        number_at(a, i) > number_at(b, i)
    } else {
        newer_from(a, b, i + 1)
    }
}

/// Version `a` is strictly greater than version `b`.
pub open spec fn version_newer(a: Seq<char>, b: Seq<char>) -> bool {
    newer_from(version_numbers(a), version_numbers(b), 0)
}

// ---------------------------------------------------------------------------
// Executable reading
// ---------------------------------------------------------------------------

proof fn lemma_part_values_concat(a: Seq<Seq<char>>, b: Seq<Seq<char>>)
    ensures
        part_values(a + b) == part_values(a) + part_values(b),
    decreases a.len(),
{
    if a.len() == 0 {
        assert(a + b =~= b);
        assert(part_values(a) + part_values(b) =~= part_values(b));
    } else {
        assert((a + b).drop_first() =~= a.drop_first() + b);
        lemma_part_values_concat(a.drop_first(), b);
        assert(part_values(a + b) =~= seq![part_value(a[0])] + part_values(a.drop_first() + b));
        assert(part_values(a) + part_values(b) =~= seq![part_value(a[0])] + (part_values(a.drop_first()) + part_values(b)));
    }
}

proof fn lemma_part_values_single(p: Seq<char>)
    ensures
        part_values(seq![p]) == seq![part_value(p)],
{
    assert(seq![p].drop_first() =~= Seq::<Seq<char>>::empty());
    assert(part_values(seq![p]) =~= seq![part_value(p)] + part_values(Seq::<Seq<char>>::empty()));
    assert(seq![part_value(p)] + Seq::<u32>::empty() =~= seq![part_value(p)]);
}

proof fn lemma_first_dot_is(s: Seq<char>, k: int)
    requires
        0 <= k <= s.len(),
        forall|j: int| 0 <= j < k ==> s[j] != '.',
        k < s.len() ==> s[k] == '.',
    ensures
        first_dot(s) == k,
    decreases k,
{
    if k > 0 {
        assert forall|j: int| 0 <= j < k - 1 implies s.drop_first()[j] != '.' by {
            assert(s.drop_first()[j] == s[j + 1]);
        }
        lemma_first_dot_is(s.drop_first(), k - 1);
    }
}

proof fn lemma_digit_prefix_is(p: Seq<char>, m: int)
    requires
        0 <= m <= p.len(),
        forall|j: int| 0 <= j < m ==> is_digit(p[j]),
        m < p.len() ==> !is_digit(p[m]),
    ensures
        digit_prefix(p) == p.take(m),
    decreases m,
{
    if m > 0 {
        assert forall|j: int| 0 <= j < m - 1 implies is_digit(p.drop_first()[j]) by {
            assert(p.drop_first()[j] == p[j + 1]);
        }
        lemma_digit_prefix_is(p.drop_first(), m - 1);
        assert(p.take(m) =~= seq![p[0]] + p.drop_first().take(m - 1));
    } else {
        assert(p.take(0) =~= Seq::<char>::empty());
    }
}

/// The number of the piece `cs[start..end]`.
fn piece_value(cs: &Vec<char>, start: usize, end: usize) -> (v: u32)
    requires
        start <= end <= cs@.len(),
    ensures
        v == part_value(cs@.subrange(start as int, end as int)),
{
    let ghost p = cs@.subrange(start as int, end as int);
    let mut digits: Vec<char> = Vec::new();
    let mut j = start;
    while j < end && '0' <= cs[j] && cs[j] <= '9'
        invariant
            start <= j <= end,
            end <= cs@.len(),
            p == cs@.subrange(start as int, end as int),
            digits@ == p.take(j - start),
            forall|t: int| 0 <= t < j - start ==> is_digit(p[t]),
        decreases end - j,
    {
        digits.push(cs[j]);
        proof {
            assert(p.take(j + 1 - start) =~= p.take(j - start).push(p[j - start]));
        }
        j = j + 1;
    }
    proof {
        lemma_digit_prefix_is(p, j - start);
    }
    match parse_u32_chars(&digits) {
        Some(v) => v,
        None => 0,
    }
}

/// The numbers of the version string `s`.
pub fn version_numbers_of(s: &str) -> (v: Vec<u32>)
    ensures
        v@ == version_numbers(s@),
{
    let cs = chars_of(s);
    let n = cs.len();
    let mut start: usize = 0;
    proof {
        assert(cs@.skip(0) =~= cs@);
    }
    while start < n && cs[start] == 'v'
        invariant
            start <= n,
            n == cs@.len(),
            strip_v(cs@) == strip_v(cs@.skip(start as int)),
        decreases n - start,
    {
        proof {
            assert(cs@.skip(start as int).drop_first() =~= cs@.skip(start + 1));
        }
        start = start + 1;
    }
    proof {
        if start < n {
            assert(cs@.skip(start as int)[0] == cs@[start as int]);
        }
        assert(strip_v(cs@) == cs@.skip(start as int));
    }
    let ghost body = cs@.skip(start as int);
    let mut out: Vec<u32> = Vec::new();
    let mut pos: usize = start;
    loop
        invariant
            start <= pos <= n,
            n == cs@.len(),
            body == cs@.skip(start as int),
            version_numbers(s@) == part_values(split_dots(body)),
            part_values(split_dots(body)) == out@ + part_values(split_dots(cs@.skip(pos as int))),
        decreases n - pos,
    {
        let mut end = pos;
        while end < n && cs[end] != '.'
            invariant
                pos <= end <= n,
                n == cs@.len(),
                forall|t: int| pos <= t < end ==> cs@[t] != '.',
            decreases n - end,
        {
            end = end + 1;
        }
        let ghost rest = cs@.skip(pos as int);
        proof {
            assert forall|j: int| 0 <= j < end - pos implies rest[j] != '.' by {
                assert(rest[j] == cs@[pos + j]);
            }
            if end < n {
                assert(rest[end - pos] == cs@[end as int]);
            }
            lemma_first_dot_is(rest, end - pos);
            assert(rest.take(end - pos) =~= cs@.subrange(pos as int, end as int));
        }
        let value = piece_value(&cs, pos, end);
        let ghost before = out@;
        out.push(value);
        if end >= n {
            proof {
                assert(rest.take(end - pos) =~= rest);
                assert(split_dots(rest) == seq![rest]);
                lemma_part_values_single(rest);
                assert(part_values(split_dots(body)) =~= out@);
            }
            return out;
        }
        proof {
            assert(rest.skip(end - pos + 1) =~= cs@.skip(end + 1));
            assert(split_dots(rest) == seq![rest.take(end - pos)] + split_dots(cs@.skip(end + 1)));
            lemma_part_values_concat(seq![rest.take(end - pos)], split_dots(cs@.skip(end + 1)));
            lemma_part_values_single(rest.take(end - pos));
            assert(before + (seq![value] + part_values(split_dots(cs@.skip(end + 1)))) =~= out@ + part_values(split_dots(cs@.skip(end + 1))));
        }
        pos = end + 1;
    }
}

/// Compares two "x.y.z" version strings (an optional leading `v` is
/// ignored, missing numbers count as 0, a piece's number is its leading
/// digits): true exactly when `a` is greater than `b`.
pub fn is_newer(a: &str, b: &str) -> (r: bool)
    ensures
        r == version_newer(a@, b@),
{
    let va = version_numbers_of(a);
    let vb = version_numbers_of(b);
    let len = if va.len() > vb.len() { va.len() } else { vb.len() };
    let mut i: usize = 0;
    while i < len
        invariant
            i <= len,
            len == (if va@.len() > vb@.len() { va@.len() } else { vb@.len() }),
            newer_from(va@, vb@, 0) == newer_from(va@, vb@, i as int),
            va@ == version_numbers(a@),
            vb@ == version_numbers(b@),
        decreases len - i,
    {
        let x = if i < va.len() { va[i] } else { 0 };
        let y = if i < vb.len() { vb[i] } else { 0 };
        proof {
            assert(number_at(va@, i as int) == x && number_at(vb@, i as int) == y);
        }
        if x != y {
            return x > y;
        }
        i = i + 1;
    }
    false
}

// ---------------------------------------------------------------------------
// Laws of the version order
// ---------------------------------------------------------------------------

proof fn lemma_newer_irreflexive(a: Seq<u32>, i: int)
    ensures
        !newer_from(a, a, i),
    decreases a.len() - i,
{
    if i >= 0 && i < a.len() {
        lemma_newer_irreflexive(a, i + 1);
    }
}

proof fn lemma_newer_asymmetric(a: Seq<u32>, b: Seq<u32>, i: int)
    requires
        newer_from(a, b, i),
    ensures
        !newer_from(b, a, i),
    decreases (if a.len() > b.len() { a.len() } else { b.len() }) - i,
{
    if number_at(a, i) == number_at(b, i) {
        lemma_newer_asymmetric(a, b, i + 1);
    }
}

proof fn lemma_newer_transitive(a: Seq<u32>, b: Seq<u32>, c: Seq<u32>, i: int)
    requires
        newer_from(a, b, i),
        newer_from(b, c, i),
    ensures
        newer_from(a, c, i),
    decreases (if a.len() > b.len() { a.len() } else { b.len() }) - i,
{
    if number_at(a, i) == number_at(b, i) && number_at(b, i) == number_at(c, i) {
        lemma_newer_transitive(a, b, c, i + 1);
    }
}

/// No version is newer than itself, so a client already on the latest
/// version is never offered an update.
pub proof fn lemma_version_newer_irreflexive(a: Seq<char>)
    ensures
        !version_newer(a, a),
{
    lemma_newer_irreflexive(version_numbers(a), 0);
}

/// Of two versions at most one is newer than the other: when the client
/// is newer than the server (a development build) no update is offered.
pub proof fn lemma_version_newer_asymmetric(a: Seq<char>, b: Seq<char>)
    requires
        version_newer(a, b),
    ensures
        !version_newer(b, a),
{
    lemma_newer_asymmetric(version_numbers(a), version_numbers(b), 0);
}

/// "Newer than" is transitive.
pub proof fn lemma_version_newer_transitive(a: Seq<char>, b: Seq<char>, c: Seq<char>)
    requires
        version_newer(a, b),
        version_newer(b, c),
    ensures
        version_newer(a, c),
{
    lemma_newer_transitive(version_numbers(a), version_numbers(b), version_numbers(c), 0);
}

// ---------------------------------------------------------------------------
// Update records
// ---------------------------------------------------------------------------

/// What the server's `version.json` announces.
pub struct RemoteVersion {
    pub version: String,
    pub notes: String,
    pub installer: String,
}

/// The update state shown to the user.
pub struct UpdateInfo {
    pub available: bool,
    pub current: String,
    pub latest: String,
    pub notes: String,
    pub installer_url: String,
}

/// Builds the update record from the running version and what the server
/// announced (`None` when it could not be fetched or read): an update is
/// available exactly when the server's version is newer; without an answer
/// nothing is offered and the latest version is the current one.
pub fn update_info(current: String, remote: Option<RemoteVersion>) -> (info: UpdateInfo)
    ensures
        match remote {
            Some(r) => {
                &&& info.available == version_newer(r.version@, current@)
                &&& info.current@ == current@
                &&& info.latest@ == r.version@
                &&& info.notes@ == r.notes@
                &&& info.installer_url@ == r.installer@
            },
            None => {
                &&& !info.available
                &&& info.current@ == current@
                &&& info.latest@ == current@
                &&& info.notes@ == Seq::<char>::empty()
                &&& info.installer_url@ == Seq::<char>::empty()
            },
        },
{
    match remote {
        Some(r) => {
            let available = is_newer(r.version.as_str(), current.as_str());
            UpdateInfo {
                available,
                current,
                latest: r.version,
                notes: r.notes,
                installer_url: r.installer,
            }
        },
        None => {
            let latest = current.clone();
            UpdateInfo {
                available: false,
                current,
                latest,
                notes: String::new(),
                installer_url: String::new(),
            }
        },
    }
}

/// An update is only ever offered when the server's version is newer than
/// the running one, so it is never offered to a client that is already on
/// that version or ahead of it.
pub proof fn lemma_update_never_offered_to_newer_client(current: Seq<char>, server: Seq<char>)
    requires
        version_newer(current, server) || current == server,
    ensures
        !version_newer(server, current),
{
    if current == server {
        lemma_version_newer_irreflexive(current);
    } else {
        lemma_version_newer_asymmetric(current, server);
    }
}

/// Download progress in percent, reported only when the total size is
/// known (`downloaded * 100 / total`, truncated to `u32`).
pub fn download_percent(downloaded: u64, total: u64) -> (r: Option<u32>)
    requires
        downloaded * 100 <= u64::MAX,
    ensures
        total == 0 ==> r is None,
        total > 0 ==> r == Some(((downloaded * 100) / (total as int)) as u32),
{
    if total > 0 {
        Some((downloaded * 100 / total) as u32)
    } else {
        None
    }
}

} // verus!
