//! HTTP caching helpers: ETags, `Cache-Control`, `Last-Modified` and `If-None-Match`.

use vstd::prelude::*;

use crate::text::{decimal, hex_lower, push_decimal, push_hex, push_str, split_on, string_from_chars};

verus! {

/// FNV-1a 64-bit offset basis.
pub const FNV_OFFSET: u64 = 14_695_981_039_346_656_037;

/// FNV-1a 64-bit prime.
pub const FNV_PRIME: u64 = 1_099_511_628_211;

/// 64-bit FNV-1a digest of `s`: starting from the offset basis, each byte is
/// XOR-ed in and the state multiplied by the FNV prime, modulo 2^64.
pub open spec fn fnv1a(s: Seq<u8>) -> u64
    decreases s.len(),
{
    if s.len() == 0 {
        FNV_OFFSET
    } else {
        (((fnv1a(s.drop_last()) ^ (s.last() as u64)) as nat * FNV_PRIME as nat)
            % 0x1_0000_0000_0000_0000) as u64
    }
}

/// The quoted ETag of a body: its FNV-1a digest in lower-case hex, between double quotes.
pub open spec fn etag_text(body: Seq<u8>) -> Seq<char> {
    seq!['"'] + hex_lower(fnv1a(body) as nat) + seq!['"']
}

/// Compute a stable quoted ETag from response bytes using FNV-1a (64-bit).
///
/// `std::hash::DefaultHasher` is intentionally non-stable across Rust versions
/// and process restarts, which would cause ETags to change on every deploy even
/// when the response body is identical.  FNV-1a is a simple, well-known hash
/// with a fixed algorithm that produces the same digest in every build.
pub fn compute_etag(body: &[u8]) -> (r: String)
    ensures
        r@ == etag_text(body@),
{
    let mut hash: u64 = FNV_OFFSET;
    let n = body.len();
    let mut i: usize = 0;
    while i < n
        invariant
            n == body@.len(),
            0 <= i <= n,
            hash == fnv1a(body@.take(i as int)),
        decreases n - i,
    {
        proof {
            assert(body@.take(i + 1).drop_last() =~= body@.take(i as int));
        }
        hash = (hash ^ (body[i] as u64)).wrapping_mul(FNV_PRIME);
        i = i + 1;
    }
    proof {
        assert(body@.take(n as int) =~= body@);
    }
    let mut out: Vec<char> = Vec::new();
    out.push('"');
    push_hex(&mut out, hash);
    out.push('"');
    assert(out@ =~= etag_text(body@));
    string_from_chars(&out)
}

/// `Cache-Control` value: `max-age=<max_age>, stale-while-revalidate=<swr>`.
pub open spec fn cache_control_text(max_age: u32, swr: u32) -> Seq<char> {
    "max-age="@ + decimal(max_age as nat) + ", stale-while-revalidate="@ + decimal(swr as nat)
}

/// Build a Cache-Control value using max-age and stale-while-revalidate.
pub fn cache_control(max_age: u32, swr: u32) -> (r: String)
    ensures
        r@ == cache_control_text(max_age, swr),
{
    let mut out: Vec<char> = Vec::new();
    push_str(&mut out, "max-age=");
    push_decimal(&mut out, max_age as u64);
    push_str(&mut out, ", stale-while-revalidate=");
    push_decimal(&mut out, swr as u64);
    assert(out@ =~= cache_control_text(max_age, swr));
    string_from_chars(&out)
}

/// RFC 7231 HTTP-date (`%a, %d %b %Y %H:%M:%S GMT`) of the instant `ms` milliseconds after
/// the Unix epoch, when chrono can represent that instant.
pub uninterp spec fn http_date_text(ms: i64) -> Option<Seq<char>>;

/// chrono's `DateTime::<Utc>::from_timestamp_millis` followed by `format` with the
/// RFC 7231 pattern: the HTTP-date of the instant, or `None` when the instant is outside
/// chrono's range. The text itself is named, not stated.
#[verifier::external_body]
fn format_http_date(ms: i64) -> (r: Option<String>)
    ensures
        r matches Some(s) ==> http_date_text(ms) == Some(s@),
        r is None ==> http_date_text(ms) is None,
{
    chrono::DateTime::<chrono::Utc>::from_timestamp_millis(ms).map(
        |t| t.format("%a, %d %b %Y %H:%M:%S GMT").to_string(),
    )
}

/// Build an RFC 7231 HTTP-date for Last-Modified (`"0"` for an instant chrono cannot represent).
pub fn last_modified(timestamp_ms: i64) -> (r: String)
    ensures
        http_date_text(timestamp_ms) matches Some(t) ==> r@ == t,
        http_date_text(timestamp_ms) is None ==> r@ == seq!['0'],
{
    match format_http_date(timestamp_ms) {
        Some(s) => s,
        None => {
            let mut out: Vec<char> = Vec::new();
            out.push('0');
            string_from_chars(&out)
        },
    }
}

/// Whether `c` is whitespace in the sense of `char::is_whitespace`
/// (Unicode `White_Space`).
pub open spec fn is_whitespace(c: char) -> bool {
    let u = c as u32;
    ||| u == 0x20
    ||| 0x09 <= u <= 0x0d
    ||| u == 0x85
    ||| u == 0xa0
    ||| u == 0x1680
    ||| 0x2000 <= u <= 0x200a
    ||| u == 0x2028
    ||| u == 0x2029
    ||| u == 0x202f
    ||| u == 0x205f
    ||| u == 0x3000
}

/// `s` without its leading whitespace.
pub open spec fn trim_start(s: Seq<char>) -> Seq<char>
    decreases s.len(),
{
    if s.len() > 0 && is_whitespace(s[0]) {
        trim_start(s.drop_first())
    } else {
        s
    }
}

/// `s` without its trailing whitespace.
pub open spec fn trim_end(s: Seq<char>) -> Seq<char>
    decreases s.len(),
{
    if s.len() > 0 && is_whitespace(s.last()) {
        trim_end(s.drop_last())
    } else {
        s
    }
}

/// `str::trim`: leading and trailing whitespace removed.
pub open spec fn trim(s: Seq<char>) -> Seq<char> {
    trim_end(trim_start(s))
}

/// The pieces of `s` between commas, as `str::split(',')` yields them.
pub open spec fn split_commas(s: Seq<char>) -> Seq<Seq<char>> {
    split_on(s, ',')
}

/// An `If-None-Match` value matches when one of its comma-separated tags,
/// trimmed, is `*` or the current ETag.
pub open spec fn if_none_match_text_matches(raw: Seq<char>, etag: Seq<char>) -> bool {
    exists|i: int|
        0 <= i < split_commas(raw).len() && (trim(#[trigger] split_commas(raw)[i]) == seq!['*']
            || trim(split_commas(raw)[i]) == etag)
}

/// `char::is_whitespace`.
pub fn is_whitespace_char(c: char) -> (r: bool)
    ensures
        r == is_whitespace(c),
{
    let u = c as u32;
    u == 0x20 || (0x09 <= u && u <= 0x0d) || u == 0x85 || u == 0xa0 || u == 0x1680 || (0x2000
        <= u && u <= 0x200a) || u == 0x2028 || u == 0x2029 || u == 0x202f || u == 0x205f || u
        == 0x3000
}

fn trimmed_matches(tok: &Vec<char>, etag: &Vec<char>) -> (r: bool)
    ensures
        r == (trim(tok@) == seq!['*'] || trim(tok@) == etag@),
{
    let n = tok.len();
    let mut a: usize = 0;
    assert(tok@.subrange(0, n as int) =~= tok@);
    while a < n && is_whitespace_char(tok[a])
        invariant
            n == tok@.len(),
            0 <= a <= n,
            trim_start(tok@) == trim_start(tok@.subrange(a as int, n as int)),
        decreases n - a,
    {
        proof {
            assert(tok@.subrange(a as int, n as int).drop_first() =~= tok@.subrange(
                a + 1,
                n as int,
            ));
        }
        a = a + 1;
    }
    let ghost front = tok@.subrange(a as int, n as int);
    assert(trim_start(front) == front);
    let mut b: usize = n;
    while b > a && is_whitespace_char(tok[b - 1])
        invariant
            n == tok@.len(),
            0 <= a <= b <= n,
            front == tok@.subrange(a as int, n as int),
            trim_end(front) == trim_end(tok@.subrange(a as int, b as int)),
        decreases b - a,
    {
        proof {
            assert(tok@.subrange(a as int, b as int).drop_last() =~= tok@.subrange(
                a as int,
                b - 1,
            ));
        }
        b = b - 1;
    }
    let ghost core = tok@.subrange(a as int, b as int);
    assert(trim_end(core) == core);
    assert(trim(tok@) == core);
    let is_star = b - a == 1 && tok[a] == '*';
    assert(is_star == (core == seq!['*'])) by {
        if core.len() == 1 {
            assert(core[0] == tok@[a as int]);
        }
        if is_star {
            assert(core =~= seq!['*']);
        }
    }
    if is_star {
        return true;
    }
    if b - a != etag.len() {
        return false;
    }
    let mut i: usize = 0;
    while i < etag.len()
        invariant
            n == tok@.len(),
            0 <= a <= b <= n,
            core == tok@.subrange(a as int, b as int),
            trim(tok@) == core,
            core != seq!['*'],
            b - a == etag@.len(),
            0 <= i <= etag@.len(),
            forall|j: int| 0 <= j < i ==> core[j] == etag@[j],
        decreases etag@.len() - i,
    {
        assert(core[i as int] == tok@[a + i]);
        if tok[a + i] != etag[i] {
            return false;
        }
        i = i + 1;
    }
    assert(core =~= etag@);
    true
}

/// Whether the raw `If-None-Match` header value names `*` or the current ETag.
pub fn if_none_match_value_matches(raw: &str, current_etag: &str) -> (r: bool)
    ensures
        r == if_none_match_text_matches(raw@, current_etag@),
{
    let chars = crate::text::chars_of(raw);
    let etag = crate::text::chars_of(current_etag);
    let n = chars.len();
    let mut found = false;
    let mut cur: Vec<char> = Vec::new();
    let mut i: usize = 0;
    proof {
        assert(raw@.take(0) =~= Seq::<char>::empty());
    }
    while i < n
        invariant
            n == raw@.len(),
            chars@ == raw@,
            etag@ == current_etag@,
            0 <= i <= n,
            split_commas(raw@.take(i as int)).len() >= 1,
            cur@ == split_commas(raw@.take(i as int)).last(),
            found == exists|k: int|
                0 <= k < split_commas(raw@.take(i as int)).len() - 1 && (trim(
                    #[trigger] split_commas(raw@.take(i as int))[k],
                ) == seq!['*'] || trim(split_commas(raw@.take(i as int))[k]) == etag@),
        decreases n - i,
    {
        let ghost prev = split_commas(raw@.take(i as int));
        proof {
            assert(raw@.take(i + 1).drop_last() =~= raw@.take(i as int));
            assert(raw@.take(i + 1).last() == chars@[i as int]);
        }
        let c = chars[i];
        if c == ',' {
            let m = trimmed_matches(&cur, &etag);
            proof {
                let next = split_commas(raw@.take(i + 1));
                assert(next == prev.push(Seq::empty()));
                assert(next[prev.len() - 1] == cur@);
                if exists|k: int| 0 <= k < next.len() - 1 && (trim(#[trigger] next[k]) == seq!['*'] || trim(next[k]) == etag@) {
                    let k = choose|k: int| 0 <= k < next.len() - 1 && (trim(#[trigger] next[k]) == seq!['*'] || trim(next[k]) == etag@);
                    if k < prev.len() - 1 {
                        assert(next[k] == prev[k]);
                        assert(found);
                    } else {
                        assert(m);
                    }
                }
                if found {
                    let k = choose|k: int|
                        0 <= k < prev.len() - 1 && (trim(#[trigger] prev[k]) == seq!['*'] || trim(
                            prev[k],
                        ) == etag@);
                    assert(next[k] == prev[k]);
                }
            }
            found = found || m;
            cur = Vec::new();
            proof {
                let next = split_commas(raw@.take(i + 1));
                assert(cur@ =~= next.last());
            }
        } else {
            cur.push(c);
            proof {
                let next = split_commas(raw@.take(i + 1));
                assert(next == prev.update(prev.len() - 1, prev.last().push(c)));
                if exists|k: int| 0 <= k < next.len() - 1 && (trim(#[trigger] next[k]) == seq!['*'] || trim(next[k]) == etag@) {
                    let k = choose|k: int| 0 <= k < next.len() - 1 && (trim(#[trigger] next[k]) == seq!['*'] || trim(next[k]) == etag@);
                    assert(next[k] == prev[k]);
                }
                if found {
                    let k = choose|k: int|
                        0 <= k < prev.len() - 1 && (trim(#[trigger] prev[k]) == seq!['*'] || trim(
                            prev[k],
                        ) == etag@);
                    assert(next[k] == prev[k]);
                }
            }
        }
        i = i + 1;
    }
    proof {
        assert(raw@.take(n as int) =~= raw@);
    }
    let last = trimmed_matches(&cur, &etag);
    proof {
        let pieces = split_commas(raw@);
        if last {
            assert(trim(pieces[pieces.len() - 1]) == seq!['*'] || trim(pieces[pieces.len() - 1])
                == etag@);
        }
        if found {
            let k = choose|k: int|
                0 <= k < pieces.len() - 1 && (trim(#[trigger] pieces[k]) == seq!['*'] || trim(
                    pieces[k],
                ) == etag@);
            assert(trim(pieces[k]) == seq!['*'] || trim(pieces[k]) == etag@);
        }
    }
    found || last
}

} // verus!
