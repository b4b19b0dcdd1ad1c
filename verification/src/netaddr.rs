//! IPv4 and IPv6 address text, parsed as std's `Ipv4Addr::from_str` and `Ipv6Addr::from_str` accept it.

use vstd::prelude::*;

use crate::text::{split_chars, split_on};

verus! {

/// `0` to `9`.
pub open spec fn is_ascii_digit(c: char) -> bool {
    '0' <= c <= '9'
}

/// Value of a run of decimal digits.
pub open spec fn digits_value(p: Seq<char>) -> nat
    decreases p.len(),
{
    if p.len() == 0 {
        0
    } else {
        digits_value(p.drop_last()) * 10 + (p.last() as nat - 48) as nat
    }
}

/// One octet of a dotted quad: one to three decimal digits, no leading zero
/// unless the octet is `0` itself, and a value of at most 255.
pub open spec fn octet_text_ok(p: Seq<char>) -> bool {
    &&& 1 <= p.len() <= 3
    &&& forall|i: int| 0 <= i < p.len() ==> is_ascii_digit(#[trigger] p[i])
    &&& p.len() == 1 || p[0] != '0'
    &&& digits_value(p) <= 255
}

/// The four octets of a dotted-quad IPv4 address, or `None` when `s` is not one.
pub open spec fn ipv4_octets(s: Seq<char>) -> Option<Seq<u8>> {
    let parts = split_on(s, '.');
    if parts.len() == 4 && forall|i: int| 0 <= i < 4 ==> octet_text_ok(#[trigger] parts[i]) {
        Some(
            seq![
                digits_value(parts[0]) as u8,
                digits_value(parts[1]) as u8,
                digits_value(parts[2]) as u8,
                digits_value(parts[3]) as u8,
            ],
        )
    } else {
        None
    }
}

fn octet_value(p: &Vec<char>) -> (r: Option<u8>)
    ensures
        octet_text_ok(p@) ==> r == Some(digits_value(p@) as u8),
        !octet_text_ok(p@) ==> r is None,
{
    let n = p.len();
    if n < 1 || n > 3 {
        return None;
    }
    if n > 1 && p[0] == '0' {
        return None;
    }
    let mut value: u32 = 0;
    let mut i: usize = 0;
    while i < n
        invariant
            n == p@.len(),
            1 <= n <= 3,
            0 <= i <= n,
            forall|j: int| 0 <= j < i ==> is_ascii_digit(#[trigger] p@[j]),
            value == digits_value(p@.take(i as int)),
            value < 1000,
            i <= 1 ==> value < 10,
            i <= 2 ==> value < 100,
        decreases n - i,
    {
        let c = p[i];
        if !('0' <= c && c <= '9') {
            return None;
        }
        proof {
            assert(p@.take(i + 1).drop_last() =~= p@.take(i as int));
        }
        value = value * 10 + (c as u32 - 48);
        i = i + 1;
    }
    proof {
        assert(p@.take(n as int) =~= p@);
    }
    if value > 255 {
        return None;
    }
    Some(value as u8)
}

/// Parses a dotted-quad IPv4 address into its four octets.
pub fn parse_ipv4(s: &Vec<char>) -> (r: Option<[u8; 4]>)
    ensures
        ipv4_octets(s@) matches Some(o) ==> (r matches Some(a) && a@ == o),
        ipv4_octets(s@) is None ==> r is None,
{
    let parts = split_chars(s, '.');
    if parts.len() != 4 {
        return None;
    }
    let a = octet_value(&parts[0]);
    let b = octet_value(&parts[1]);
    let c = octet_value(&parts[2]);
    let d = octet_value(&parts[3]);
    match (a, b, c, d) {
        (Some(a), Some(b), Some(c), Some(d)) => {
            let r = [a, b, c, d];
            proof {
                let ps = split_on(s@, '.');
                assert forall|i: int| 0 <= i < 4 implies octet_text_ok(#[trigger] ps[i]) by {
                    assert(parts@[i]@ == ps[i]);
                }
                assert(r@ =~= ipv4_octets(s@)->0);
            }
            Some(r)
        },
        _ => {
            proof {
                let ps = split_on(s@, '.');
                assert(parts@[0]@ == ps[0]);
                assert(parts@[1]@ == ps[1]);
                assert(parts@[2]@ == ps[2]);
                assert(parts@[3]@ == ps[3]);
            }
            None
        },
    }
}

/// A hexadecimal digit, either case.
pub open spec fn is_hex_digit(c: char) -> bool {
    ('0' <= c <= '9') || ('a' <= c <= 'f') || ('A' <= c <= 'F')
}

/// Value of a hexadecimal digit.
pub open spec fn hex_digit_value(c: char) -> nat {
    if '0' <= c <= '9' {
        (c as nat - 48) as nat
    } else if 'a' <= c <= 'f' {
        (c as nat - 87) as nat
    } else {
        (c as nat - 55) as nat
    }
}

/// Value of a run of hexadecimal digits.
pub open spec fn hex_value(p: Seq<char>) -> nat
    decreases p.len(),
{
    if p.len() == 0 {
        0
    } else {
        hex_value(p.drop_last()) * 16 + hex_digit_value(p.last())
    }
}

/// One 16-bit group of an IPv6 address: one to four hexadecimal digits.
pub open spec fn hex_field_ok(p: Seq<char>) -> bool {
    &&& 1 <= p.len() <= 4
    &&& forall|i: int| 0 <= i < p.len() ==> is_hex_digit(#[trigger] p[i])
}

/// The groups that `:`-separated fields of hexadecimal digits stand for.
pub open spec fn hex_groups(fields: Seq<Seq<char>>) -> Option<Seq<nat>>
    decreases fields.len(),
{
    if fields.len() == 0 {
        Some(Seq::empty())
    } else {
        match hex_groups(fields.drop_last()) {
            Some(g) => if hex_field_ok(fields.last()) {
                Some(g.push(hex_value(fields.last())))
            } else {
                None
            },
            None => None,
        }
    }
}

/// The groups that `:`-separated fields stand for when the last one may also be a
/// dotted-quad IPv4 address (two groups).
pub open spec fn field_groups(fields: Seq<Seq<char>>) -> Option<Seq<nat>> {
    if fields.len() > 0 && ipv4_octets(fields.last()) is Some {
        let o = ipv4_octets(fields.last())->0;
        match hex_groups(fields.drop_last()) {
            Some(g) => Some(g + seq![(o[0] * 256 + o[1]) as nat, (o[2] * 256 + o[3]) as nat]),
            None => None,
        }
    } else {
        hex_groups(fields)
    }
}

/// `::` starts at position `i` of `s`, and at no earlier position.
pub open spec fn first_double_colon(s: Seq<char>, i: int) -> bool {
    &&& 0 <= i && i + 1 < s.len() && s[i] == ':' && s[i + 1] == ':'
    &&& forall|j: int| 0 <= j < i ==> !(#[trigger] s[j] == ':' && s[j + 1] == ':')
}

/// The eight 16-bit groups of an IPv6 address in the text forms `Ipv6Addr::from_str`
/// reads: eight groups, or groups around one `::` that stands for at least one zero group;
/// the last group pair may be written as a dotted-quad IPv4 address. `None` for any other text.
pub open spec fn ipv6_groups(s: Seq<char>) -> Option<Seq<nat>> {
    if exists|k: int| first_double_colon(s, k) {
        let k = choose|k: int| first_double_colon(s, k);
        let head = s.take(k);
        let tail = s.skip(k + 2);
        let hg = if head.len() == 0 { Some(Seq::<nat>::empty()) } else { hex_groups(split_on(head, ':')) };
        let tg = if tail.len() == 0 { Some(Seq::<nat>::empty()) } else { field_groups(split_on(tail, ':')) };
        match (hg, tg) {
            (Some(h), Some(t)) => if h.len() + t.len() <= 7 {
                Some(h + Seq::new((8 - h.len() - t.len()) as nat, |i: int| 0nat) + t)
            } else {
                None
            },
            _ => None,
        }
    } else {
        match field_groups(split_on(s, ':')) {
            Some(g) => if g.len() == 8 {
                Some(g)
            } else {
                None
            },
            None => None,
        }
    }
}

/// An IPv6 address that must not receive webhooks: loopback (`::1`), unspecified (`::`)
/// or multicast (`ff00::/8`).
pub open spec fn internal_ipv6(g: Seq<nat>) -> bool {
    ||| g == seq![0nat, 0, 0, 0, 0, 0, 0, 1]
    ||| (forall|i: int| 0 <= i < 8 ==> #[trigger] g[i] == 0)
    ||| g[0] >= 0xff00
}

fn hex_field_value(p: &Vec<char>) -> (r: Option<u32>)
    ensures
        hex_field_ok(p@) ==> r == Some(hex_value(p@) as u32) && hex_value(p@) < 0x10000,
        !hex_field_ok(p@) ==> r is None,
{
    let n = p.len();
    if n < 1 || n > 4 {
        return None;
    }
    let mut value: u32 = 0;
    let mut i: usize = 0;
    while i < n
        invariant
            n == p@.len(),
            1 <= n <= 4,
            0 <= i <= n,
            forall|j: int| 0 <= j < i ==> is_hex_digit(#[trigger] p@[j]),
            value == hex_value(p@.take(i as int)),
            i == 0 ==> value < 1,
            i == 1 ==> value < 0x10,
            i == 2 ==> value < 0x100,
            i == 3 ==> value < 0x1000,
            i == 4 ==> value < 0x10000,
        decreases n - i,
    {
        let c = p[i];
        let d: u32 = if '0' <= c && c <= '9' {
            c as u32 - 48
        } else if 'a' <= c && c <= 'f' {
            c as u32 - 87
        } else if 'A' <= c && c <= 'F' {
            c as u32 - 55
        } else {
            return None;
        };
        proof {
            assert(p@.take(i + 1).drop_last() =~= p@.take(i as int));
        }
        value = value * 16 + d;
        i = i + 1;
    }
    proof {
        assert(p@.take(n as int) =~= p@);
    }
    Some(value)
}

/// The groups as values.
pub open spec fn group_values(v: Seq<u32>) -> Seq<nat> {
    v.map_values(|x: u32| x as nat)
}

fn hex_groups_of(fields: &Vec<Vec<char>>, count: usize) -> (r: Option<Vec<u32>>)
    requires
        count <= fields@.len(),
    ensures
        ({
            let fs = fields@.take(count as int).map_values(|f: Vec<char>| f@);
            &&& hex_groups(fs) is None ==> r is None
            &&& hex_groups(fs) matches Some(g) ==> (r matches Some(v) && group_values(v@) == g && v@.len() == count)
        }),
{
    let ghost all = fields@.map_values(|f: Vec<char>| f@);
    let mut out: Vec<u32> = Vec::new();
    let mut i: usize = 0;
    while i < count
        invariant
            count <= fields@.len(),
            all == fields@.map_values(|f: Vec<char>| f@),
            0 <= i <= count,
            hex_groups(all.take(i as int)) == Some(group_values(out@)),
            out@.len() == i,
        decreases count - i,
    {
        proof {
            assert(all.take(i + 1).drop_last() =~= all.take(i as int));
            assert(all.take(i + 1).last() == fields@[i as int]@);
        }
        match hex_field_value(&fields[i]) {
            Some(v) => {
                out.push(v);
                proof {
                    assert(group_values(out@) =~= group_values(out@.drop_last()).push(v as nat));
                    assert(out@.drop_last() =~= out@.take(i as int));
                }
                assert(group_values(out@.take(i as int)) =~= group_values(out@).drop_last());
            },
            None => {
                proof {
                    assert(hex_groups(all.take(i + 1)) is None);
                    lemma_hex_groups_none_extends(all, i as int + 1, count as int);
                    assert(all.take(count as int) =~= fields@.take(count as int).map_values(|f: Vec<char>| f@));
                }
                return None;
            },
        }
        i = i + 1;
    }
    proof {
        assert(all.take(count as int) =~= fields@.take(count as int).map_values(|f: Vec<char>| f@));
    }
    Some(out)
}

proof fn lemma_hex_groups_none_extends(fs: Seq<Seq<char>>, a: int, b: int)
    requires
        0 <= a <= b <= fs.len(),
        hex_groups(fs.take(a)) is None,
    ensures
        hex_groups(fs.take(b)) is None,
    decreases b - a,
{
    if a < b {
        assert(fs.take(a + 1).drop_last() =~= fs.take(a));
        lemma_hex_groups_none_extends(fs, a + 1, b);
    }
}


fn field_groups_of(fields: &Vec<Vec<char>>) -> (r: Option<Vec<u32>>)
    ensures
        ({
            let fs = fields@.map_values(|f: Vec<char>| f@);
            &&& field_groups(fs) is None ==> r is None
            &&& field_groups(fs) matches Some(g) ==> (r matches Some(v) && group_values(v@) == g)
        }),
{
    let n = fields.len();
    let ghost fs = fields@.map_values(|f: Vec<char>| f@);
    if n > 0 {
        let last = parse_ipv4(&fields[n - 1]);
        proof {
            assert(fs.last() == fields@[n - 1]@);
        }
        match last {
            Some(o) => {
                proof {
                    assert(fields@.take(n - 1).map_values(|f: Vec<char>| f@) =~= fs.drop_last());
                }
                match hex_groups_of(fields, n - 1) {
                    Some(v) => {
                        let mut v = v;
                        let ghost before = v@;
                        let hi: u32 = o[0] as u32 * 256 + o[1] as u32;
                        let lo: u32 = o[2] as u32 * 256 + o[3] as u32;
                        v.push(hi);
                        v.push(lo);
                        proof {
                            let oc = ipv4_octets(fs.last())->0;
                            assert(oc == o@);
                            assert(group_values(v@) =~= group_values(before) + seq![(oc[0] * 256 + oc[1]) as nat, (oc[2] * 256 + oc[3]) as nat]);
                        }
                        return Some(v);
                    },
                    None => {
                        return None;
                    },
                }
            },
            None => {},
        }
    }
    proof {
        assert(fields@.take(n as int).map_values(|f: Vec<char>| f@) =~= fs);
    }
    hex_groups_of(fields, n)
}

pub(crate) fn copy_range(s: &Vec<char>, a: usize, b: usize) -> (r: Vec<char>)
    requires
        a <= b <= s@.len(),
    ensures
        r@ == s@.subrange(a as int, b as int),
{
    let mut out: Vec<char> = Vec::new();
    let mut i: usize = a;
    while i < b
        invariant
            a <= i <= b <= s@.len(),
            out@ == s@.subrange(a as int, i as int),
        decreases b - i,
    {
        proof {
            assert(s@.subrange(a as int, i + 1) =~= s@.subrange(a as int, i as int).push(s@[i as int]));
        }
        out.push(s[i]);
        i = i + 1;
    }
    out
}

fn split_fields(s: &Vec<char>) -> (r: Vec<Vec<char>>)
    ensures
        r@.map_values(|f: Vec<char>| f@) == split_on(s@, ':'),
{
    let r = split_chars(s, ':');
    assert(r@.map_values(|f: Vec<char>| f@) =~= split_on(s@, ':'));
    r
}

/// Parses the text of an IPv6 address (without brackets) into its eight 16-bit groups.
pub fn parse_ipv6(s: &Vec<char>) -> (r: Option<Vec<u32>>)
    ensures
        ipv6_groups(s@) matches Some(g) ==> (r matches Some(v) && group_values(v@) == g),
        ipv6_groups(s@) is None ==> r is None,
        r matches Some(v) ==> v@.len() == 8,
{
    let n = s.len();
    let mut k: usize = 0;
    while n > 0 && k < n - 1 && !(s[k] == ':' && s[k + 1] == ':')
        invariant
            n == s@.len(),
            k <= n,
            forall|j: int| 0 <= j < k ==> !(#[trigger] s@[j] == ':' && s@[j + 1] == ':'),
        decreases n - k,
    {
        k = k + 1;
    }
    if n > 0 && k < n - 1 {
        proof {
            assert(first_double_colon(s@, k as int));
            let kk = choose|kk: int| first_double_colon(s@, kk);
            if kk < k {
                assert(s@[kk] == ':' && s@[kk + 1] == ':');
            }
            if kk > k {
                assert(!(s@[k as int] == ':' && s@[k + 1] == ':'));
            }
            assert(kk == k);
        }
        let head = copy_range(s, 0, k);
        let tail = copy_range(s, k + 2, n);
        proof {
            assert(head@ =~= s@.take(k as int));
            assert(tail@ =~= s@.skip(k + 2));
        }
        let hg: Option<Vec<u32>> = if head.len() == 0 {
            Some(Vec::new())
        } else {
            let f = split_fields(&head);
            proof {
                assert(f@.take(f@.len() as int) =~= f@);
            }
            hex_groups_of(&f, f.len())
        };
        let tg: Option<Vec<u32>> = if tail.len() == 0 {
            Some(Vec::new())
        } else {
            let f = split_fields(&tail);
            field_groups_of(&f)
        };
        match (hg, tg) {
            (Some(h), Some(t)) => {
                if h.len() > 7 || t.len() > 7 - h.len() {
                    return None;
                }
                let zeros: usize = 8 - h.len() - t.len();
                let mut out = h;
                let ghost hv = out@;
                let mut i: usize = 0;
                while i < zeros
                    invariant
                        0 <= i <= zeros,
                        out@ == hv + Seq::new(i as nat, |j: int| 0u32),
                    decreases zeros - i,
                {
                    out.push(0);
                    proof {
                        assert(out@ =~= hv + Seq::new((i + 1) as nat, |j: int| 0u32));
                    }
                    i = i + 1;
                }
                let mut j: usize = 0;
                let ghost mid = out@;
                while j < t.len()
                    invariant
                        0 <= j <= t@.len(),
                        out@ == mid + t@.take(j as int),
                    decreases t@.len() - j,
                {
                    out.push(t[j]);
                    proof {
                        assert(out@ =~= mid + t@.take(j + 1));
                    }
                    j = j + 1;
                }
                proof {
                    assert(t@.take(t@.len() as int) =~= t@);
                    assert(group_values(out@) =~= group_values(hv) + Seq::new(zeros as nat, |i: int| 0nat) + group_values(t@));
                }
                Some(out)
            },
            _ => None,
        }
    } else {
        proof {
            assert forall|kk: int| !first_double_colon(s@, kk) by {
                if first_double_colon(s@, kk) {
                    assert(s@[kk] == ':' && s@[kk + 1] == ':');
                }
            }
        }
        let f = split_fields(s);
        match field_groups_of(&f) {
            Some(v) => {
                if v.len() == 8 {
                    Some(v)
                } else {
                    None
                }
            },
            None => None,
        }
    }
}

} // verus!
