//! IP addresses and endpoints: their text forms, and the classes of addresses that matter here.
use vstd::prelude::*;

use crate::number::{numeral, parse_unsigned, read_numeral, read_u16};
use crate::text::{
    chars_of, rsplit_once, split, split_first, split_last, split_on, split_once, string_of, Text,
};

verus! {

/// An IP address as the number that its bits write, most significant first.
#[derive(Clone, Copy, PartialEq, Eq, Structural, Debug)]
pub enum Ip {
    V4(u32),
    V6(u128),
}

// ---------- Dotted quads ----------

/// The value of one part of a dotted quad: up to three decimal digits without leading zeros.
pub open spec fn octet(t: Text) -> Option<nat> {
    if t.len() <= 3 && (t.len() > 1 ==> t[0] != '0') {
        numeral(t, 10, 255)
    } else {
        None
    }
}

/// The address with the given octets.
pub open spec fn quad(a: nat, b: nat, c: nat, d: nat) -> nat {
    ((a * 256 + b) * 256 + c) * 256 + d
}

/// The IPv4 address that `t` writes: four octets with dots between them.
pub open spec fn v4(t: Text) -> Option<nat> {
    let p = split(t, '.');
    if p.len() == 4 && octet(p[0]) is Some && octet(p[1]) is Some && octet(p[2]) is Some && octet(
        p[3],
    ) is Some {
        Some(quad(octet(p[0])->0, octet(p[1])->0, octet(p[2])->0, octet(p[3])->0))
    } else {
        None
    }
}

fn read_octet(s: &str) -> (r: Option<u64>)
    ensures
        (match r {
            Some(n) => Some(n as nat),
            None => None,
        }) == octet(s@),
        r matches Some(n) ==> n <= 255,
{
    let chars = chars_of(s);
    if chars.len() > 3 || (chars.len() > 1 && chars[0] == '0') {
        return None;
    }
    assert(s@.subrange(0, s@.len() as int) =~= s@);
    read_numeral(&chars, 0, chars.len(), 10, 255)
}

/// Reads an IPv4 address.
pub fn read_v4(s: &str) -> (r: Option<u32>)
    ensures
        (match r {
            Some(n) => Some(n as nat),
            None => None,
        }) == v4(s@),
{
    let p = split_on(s, '.');
    assert(p.deep_view().len() == p@.len());
    if p.len() != 4 {
        return None;
    }
    let ghost q = split(s@, '.');
    assert(q[0] == p@[0]@ && q[1] == p@[1]@ && q[2] == p@[2]@ && q[3] == p@[3]@);
    let a = read_octet(p[0].as_str());
    let b = read_octet(p[1].as_str());
    let c = read_octet(p[2].as_str());
    let d = read_octet(p[3].as_str());
    match (a, b, c, d) {
        (Some(a), Some(b), Some(c), Some(d)) => {
            Some((((a * 256 + b) * 256 + c) * 256 + d) as u32)
        },
        _ => None,
    }
}

// ---------- Groups ----------

/// The value of one group of an IPv6 address: up to four hexadecimal digits.
pub open spec fn group(t: Text) -> Option<nat> {
    if t.len() <= 4 {
        numeral(t, 16, 0xffff)
    } else {
        None
    }
}

/// The groups that the pieces write; where `quad_last` holds, the last piece may be a dotted quad,
/// which stands for two groups.
pub open spec fn groups(pieces: Seq<Text>, quad_last: bool) -> Option<Seq<nat>>
    decreases pieces.len(),
{
    if pieces.len() == 0 {
        Some(Seq::empty())
    } else {
        let front = groups(pieces.drop_last(), false);
        let last = pieces.last();
        if front is None {
            None
        } else if group(last) is Some {
            Some(front->0.push(group(last)->0))
        } else if quad_last && v4(last) is Some {
            Some(front->0 + seq![v4(last)->0 / 0x10000, v4(last)->0 % 0x10000])
        } else {
            None
        }
    }
}

/// The groups on one side of `::`, or of the whole address where there is none.
pub open spec fn side(t: Text, quad_last: bool) -> Option<Seq<nat>> {
    if t.len() == 0 {
        Some(Seq::empty())
    } else {
        groups(split(t, ':'), quad_last)
    }
}

/// Whether `::` stands in `t` at position `i`.
pub open spec fn colons_at(t: Text, i: int) -> bool {
    0 <= i && i + 1 < t.len() && t[i] == ':' && t[i + 1] == ':'
}

/// Where `::` first stands in `t`; `t.len()` if it does not.
pub open spec fn gap(t: Text) -> int
    decreases t.len(),
{
    if t.len() == 0 || colons_at(t, 0) {
        0
    } else {
        1 + gap(t.drop_first())
    }
}

/// The eight groups of the IPv6 address that `t` writes, `::` standing for one or more zero groups.
pub open spec fn v6_groups(t: Text) -> Option<Seq<nat>> {
    let n = gap(t);
    if n < t.len() {
        let head = side(t.take(n), false);
        let tail = side(t.skip(n + 2), true);
        if head is Some && tail is Some && head->0.len() + tail->0.len() <= 7 {
            let zeros = (8 - head->0.len() - tail->0.len()) as nat;
            Some(head->0 + Seq::new(zeros, |i: int| 0nat) + tail->0)
        } else {
            None
        }
    } else {
        let all = side(t, true);
        if all is Some && all->0.len() == 8 {
            all
        } else {
            None
        }
    }
}

/// The number whose digits in the given base are `digits`.
pub open spec fn places(digits: Seq<nat>, base: nat) -> nat
    decreases digits.len(),
{
    if digits.len() == 0 {
        0
    } else {
        places(digits.drop_last(), base) * base + digits.last()
    }
}

/// The last `len` digits of `n` in the given base.
pub open spec fn digits(n: nat, base: nat, len: nat) -> Seq<nat>
    decreases len,
{
    if len == 0 {
        Seq::empty()
    } else {
        digits(n / base, base, (len - 1) as nat).push(n % base)
    }
}

/// The IPv6 address that `t` writes.
pub open spec fn v6(t: Text) -> Option<nat> {
    match v6_groups(t) {
        Some(g) => Some(places(g, 0x10000)),
        None => None,
    }
}

/// The address that `t` writes.
pub open spec fn ip(t: Text) -> Option<Ip> {
    if v4(t) is Some {
        Some(Ip::V4(v4(t)->0 as u32))
    } else if v6(t) is Some {
        Some(Ip::V6(v6(t)->0 as u128))
    } else {
        None
    }
}

/// The groups as natural numbers.
pub open spec fn nats(g: Seq<u16>) -> Seq<nat> {
    g.map_values(|x: u16| x as nat)
}

fn read_groups(pieces: &Vec<String>, quad_last: bool) -> (r: Option<Vec<u16>>)
    requires
        pieces@.len() > 0,
    ensures
        (match r {
            Some(g) => Some(nats(g@)),
            None => None,
        }) == groups(pieces.deep_view(), quad_last),
{
    let mut out: Vec<u16> = Vec::new();
    let mut i: usize = 0;
    let ghost all = pieces.deep_view();
    assert(nats(out@) =~= Seq::<nat>::empty());
    let n: usize = pieces.len();
    while i < n
        invariant
            all == pieces.deep_view(),
            n == pieces@.len(),
            i <= n,
            groups(all.take(i as int), false) == Some(nats(out@)),
        decreases n - i,
    {
        let ghost now = all.take(i + 1);
        assert(now.drop_last() =~= all.take(i as int));
        assert(now.last() == pieces@[i as int]@);
        let ghost before = nats(out@);
        let chars = chars_of(pieces[i].as_str());
        let g = if chars.len() <= 4 {
            assert(now.last().subrange(0, now.last().len() as int) =~= now.last());
            read_numeral(&chars, 0, chars.len(), 16, 0xffff)
        } else {
            None
        };
        match g {
            Some(v) => {
                out.push(v as u16);
                assert(nats(out@) =~= before.push(v as nat));
                proof {
                    if i + 1 == n {
                        assert(now =~= all);
                    }
                }
            },
            None => {
                if quad_last && i + 1 == n {
                    assert(now =~= all);
                    match read_v4(pieces[i].as_str()) {
                        Some(a) => {
                            out.push((a / 0x10000) as u16);
                            out.push((a % 0x10000) as u16);
                            assert(nats(out@) =~= before + seq![
                                (a as nat) / 0x10000,
                                (a as nat) % 0x10000,
                            ]);
                            return Some(out);
                        },
                        None => {
                            return None;
                        },
                    }
                } else {
                    proof {
                        assert(groups(now, false) is None);
                        lemma_groups_none(all, i + 1, quad_last);
                    }
                    return None;
                }
            },
        }
        i += 1;
    }
    proof {
        assert(all.take(n as int) =~= all);
        let last = all.last();
        assert(groups(all, false) is Some);
        assert(group(last) is Some);
    }
    Some(out)
}

/// A bad piece before the last one spoils the whole.
proof fn lemma_groups_none(all: Seq<Text>, n: int, quad_last: bool)
    requires
        0 < n <= all.len(),
        groups(all.take(n), false) is None,
        n == all.len() ==> !quad_last,
    ensures
        groups(all, quad_last) is None,
    decreases all.len() - n,
{
    if n == all.len() {
        assert(all.take(n) =~= all);
    } else if n + 1 == all.len() {
        assert(all.drop_last() =~= all.take(n));
    } else {
        assert(all.take(n + 1).drop_last() =~= all.take(n));
        lemma_groups_none(all, n + 1, quad_last);
    }
}

fn read_side(chars: &Vec<char>, from: usize, to: usize, quad_last: bool) -> (r: Option<Vec<u16>>)
    requires
        from <= to <= chars@.len(),
    ensures
        (match r {
            Some(g) => Some(nats(g@)),
            None => None,
        }) == side(chars@.subrange(from as int, to as int), quad_last),
{
    if from == to {
        let r: Vec<u16> = Vec::new();
        assert(nats(r@) =~= Seq::<nat>::empty());
        return Some(r);
    }
    let s = string_of(chars, from, to);
    let pieces = split_on(s.as_str(), ':');
    assert(pieces@.len() == pieces.deep_view().len());
    read_groups(&pieces, quad_last)
}

proof fn lemma_gap(t: Text)
    ensures
        0 <= gap(t) <= t.len(),
        gap(t) < t.len() ==> colons_at(t, gap(t)),
        forall|i: int| 0 <= i < gap(t) ==> !#[trigger] colons_at(t, i),
    decreases t.len(),
{
    if !(t.len() == 0 || colons_at(t, 0)) {
        let u = t.drop_first();
        lemma_gap(u);
        assert(forall|i: int| 1 <= i ==> #[trigger] colons_at(t, i) == colons_at(u, i - 1));
    }
}

pub proof fn lemma_gap_is(t: Text, n: int)
    requires
        0 <= n <= t.len(),
        n < t.len() ==> colons_at(t, n),
        forall|i: int| 0 <= i < n ==> !#[trigger] colons_at(t, i),
    ensures
        gap(t) == n,
{
    lemma_gap(t);
}

fn gap_of(chars: &Vec<char>) -> (r: usize)
    ensures
        r == gap(chars@),
        r <= chars@.len(),
        r < chars@.len() ==> r + 2 <= chars@.len(),
{
    let mut i: usize = 0;
    let n: usize = chars.len();
    while i < n
        invariant
            n == chars@.len(),
            i <= n,
            forall|k: int| 0 <= k < i ==> !#[trigger] colons_at(chars@, k),
        decreases n - i,
    {
        if i + 1 < n && chars[i] == ':' && chars[i + 1] == ':' {
            proof {
                lemma_gap_is(chars@, i as int);
            }
            return i;
        }
        i += 1;
    }
    proof {
        lemma_gap_is(chars@, n as int);
    }
    n
}

proof fn lemma_places_bound(g: Seq<u16>)
    ensures
        places(nats(g), 0x10000) < vstd::arithmetic::power::pow(0x10000, g.len()),
    decreases g.len(),
{
    vstd::arithmetic::power::lemma_pow0(0x10000);
    if g.len() > 0 {
        lemma_places_bound(g.drop_last());
        assert(nats(g).drop_last() =~= nats(g.drop_last()));
        vstd::arithmetic::power::lemma_pow_adds(0x10000, (g.len() - 1) as nat, 1);
        vstd::arithmetic::power::lemma_pow1(0x10000);
        assert(nats(g).last() == g.last() as nat);
    }
}

pub proof fn lemma_pow_eight()
    ensures
        vstd::arithmetic::power::pow(0x10000, 8) == 0x1_0000_0000_0000_0000_0000_0000_0000_0000int,
{
    vstd::arithmetic::power::lemma_pow1(0x10000);
    vstd::arithmetic::power::lemma_pow_adds(0x10000, 1, 1);
    assert(vstd::arithmetic::power::pow(0x10000, 2) == 0x1_0000_0000int);
    vstd::arithmetic::power::lemma_pow_adds(0x10000, 2, 2);
    assert(vstd::arithmetic::power::pow(0x10000, 4) == 0x1_0000_0000_0000_0000int);
    vstd::arithmetic::power::lemma_pow_adds(0x10000, 4, 4);
}

fn places_of(g: &Vec<u16>) -> (r: u128)
    requires
        g@.len() == 8,
    ensures
        r == places(nats(g@), 0x10000),
{
    let mut r: u128 = 0;
    let mut i: usize = 0;
    proof {
        assert(nats(g@.take(0)) =~= Seq::<nat>::empty());
    }
    while i < 8
        invariant
            g@.len() == 8,
            i <= 8,
            r == places(nats(g@.take(i as int)), 0x10000),
        decreases 8 - i,
    {
        proof {
            let u = nats(g@.take(i + 1));
            assert(u.drop_last() =~= nats(g@.take(i as int)));
            assert(u.last() == g@[i as int] as nat);
            lemma_places_bound(g@.take(i + 1));
            lemma_pow_eight();
            vstd::arithmetic::power::lemma_pow_increases(0x10000, (i + 1) as nat, 8);
        }
        r = r * 0x10000 + g[i] as u128;
        i += 1;
    }
    assert(g@.take(8) =~= g@);
    r
}

/// Reads an IPv6 address.
pub fn read_v6(s: &str) -> (r: Option<u128>)
    ensures
        (match r {
            Some(n) => Some(n as nat),
            None => None,
        }) == v6(s@),
{
    let chars = chars_of(s);
    let n = gap_of(&chars);
    if n < chars.len() {
        proof {
            assert(s@.subrange(0, n as int) =~= s@.take(n as int));
            assert(s@.subrange(n + 2, s@.len() as int) =~= s@.skip(n + 2));
        }
        let head = read_side(&chars, 0, n, false);
        let tail = read_side(&chars, n + 2, chars.len(), true);
        match (head, tail) {
            (Some(a), Some(b)) => {
                assert(nats(a@).len() == a@.len() && nats(b@).len() == b@.len());
                if a.len() > 7 || b.len() > 7 || a.len() + b.len() > 7 {
                    return None;
                }
                let mut g: Vec<u16> = a;
                let zeros: usize = 8 - g.len() - b.len();
                let ghost front = a@;
                let mut i: usize = 0;
                assert(nats(g@) =~= nats(front) + Seq::new(0, |k: int| 0nat));
                while i < zeros
                    invariant
                        i <= zeros,
                        g@.len() == front.len() + i,
                        nats(g@) == nats(front) + Seq::new(i as nat, |k: int| 0nat),
                    decreases zeros - i,
                {
                    let ghost before = nats(g@);
                    g.push(0);
                    i += 1;
                    assert(nats(g@) =~= before.push(0nat));
                    assert(nats(g@) =~= nats(front) + Seq::new(i as nat, |k: int| 0nat));
                }
                let ghost middle = nats(g@);
                let mut j: usize = 0;
                assert(nats(g@) =~= middle + nats(b@.take(0)));
                while j < b.len()
                    invariant
                        j <= b@.len(),
                        g@.len() == middle.len() + j,
                        nats(g@) == middle + nats(b@.take(j as int)),
                    decreases b.len() - j,
                {
                    let ghost before = nats(g@);
                    g.push(b[j]);
                    assert(nats(g@) =~= before.push(b@[j as int] as nat));
                    assert(nats(b@.take(j + 1)) =~= nats(b@.take(j as int)).push(
                        b@[j as int] as nat,
                    ));
                    j += 1;
                    assert(nats(g@) =~= middle + nats(b@.take(j as int)));
                }
                assert(b@.take(b@.len() as int) =~= b@);
                Some(places_of(&g))
            },
            _ => None,
        }
    } else {
        assert(s@.subrange(0, s@.len() as int) =~= s@);
        match read_side(&chars, 0, chars.len(), true) {
            Some(g) => {
                assert(nats(g@).len() == g@.len());
                if g.len() == 8 {
                    Some(places_of(&g))
                } else {
                    None
                }
            },
            None => None,
        }
    }
}

/// Reads an address.
pub fn read_ip(s: &str) -> (r: Option<Ip>)
    ensures
        r == ip(s@),
{
    match read_v4(s) {
        Some(a) => Some(Ip::V4(a)),
        None => match read_v6(s) {
            Some(a) => Some(Ip::V6(a)),
            None => None,
        },
    }
}

// ---------- Endpoints ----------

/// A port number as it stands in a socket address: decimal digits.
pub open spec fn port(t: Text) -> Option<nat> {
    numeral(t, 10, 0xffff)
}

/// The address and port of `a.b.c.d:port`.
pub open spec fn socket_v4(t: Text) -> Option<(Ip, u16)> {
    match split_first(t, ':') {
        Some((a, p)) => if v4(a) is Some && port(p) is Some {
            Some((Ip::V4(v4(a)->0 as u32), port(p)->0 as u16))
        } else {
            None
        },
        None => None,
    }
}

/// The address inside the brackets of an IPv6 socket address: it may carry a scope identifier,
/// which is dropped.
pub open spec fn scoped_v6(t: Text) -> Option<nat> {
    match split_first(t, '%') {
        Some((a, scope)) => if numeral(scope, 10, 0xffff_ffff) is Some {
            v6(a)
        } else {
            None
        },
        None => v6(t),
    }
}

/// The address and port of `[address]:port`.
pub open spec fn socket_v6(t: Text) -> Option<(Ip, u16)> {
    if t.len() > 0 && t[0] == '[' {
        match split_first(t.skip(1), ']') {
            Some((a, rest)) => if rest.len() > 0 && rest[0] == ':' && scoped_v6(a) is Some && port(
                rest.skip(1),
            ) is Some {
                Some((Ip::V6(scoped_v6(a)->0 as u128), port(rest.skip(1))->0 as u16))
            } else {
                None
            },
            None => None,
        }
    } else {
        None
    }
}

/// The address and port of a socket address.
pub open spec fn socket(t: Text) -> Option<(Ip, u16)> {
    if socket_v4(t) is Some {
        socket_v4(t)
    } else {
        socket_v6(t)
    }
}

/// The address and port of an endpoint: a socket address, or an address and a port on the two
/// sides of the last colon.
pub open spec fn endpoint(t: Text) -> Option<(Ip, u16)> {
    if socket(t) is Some {
        socket(t)
    } else {
        match split_last(t, ':') {
            Some((a, p)) => if ip(a) is Some && parse_unsigned(p, 0xffff) is Some {
                Some((ip(a)->0, parse_unsigned(p, 0xffff)->0 as u16))
            } else {
                None
            },
            None => None,
        }
    }
}

fn read_port(s: &str) -> (r: Option<u16>)
    ensures
        (match r {
            Some(n) => Some(n as nat),
            None => None,
        }) == port(s@),
{
    let chars = chars_of(s);
    assert(s@.subrange(0, s@.len() as int) =~= s@);
    match read_numeral(&chars, 0, chars.len(), 10, 0xffff) {
        Some(n) => Some(n as u16),
        None => None,
    }
}

fn read_socket_v4(s: &str) -> (r: Option<(Ip, u16)>)
    ensures
        r == socket_v4(s@),
{
    match split_once(s, ':') {
        Some((a, p)) => match (read_v4(a.as_str()), read_port(p.as_str())) {
            (Some(a), Some(p)) => Some((Ip::V4(a), p)),
            _ => None,
        },
        None => None,
    }
}

fn read_scoped_v6(s: &str) -> (r: Option<u128>)
    ensures
        (match r {
            Some(n) => Some(n as nat),
            None => None,
        }) == scoped_v6(s@),
{
    match split_once(s, '%') {
        Some((a, scope)) => {
            let chars = chars_of(scope.as_str());
            assert(scope@.subrange(0, scope@.len() as int) =~= scope@);
            if read_numeral(&chars, 0, chars.len(), 10, 0xffff_ffff).is_some() {
                read_v6(a.as_str())
            } else {
                None
            }
        },
        None => read_v6(s),
    }
}

fn read_socket_v6(s: &str) -> (r: Option<(Ip, u16)>)
    ensures
        r == socket_v6(s@),
{
    let chars = chars_of(s);
    if chars.len() == 0 || chars[0] != '[' {
        return None;
    }
    let body = string_of(&chars, 1, chars.len());
    assert(body@ =~= s@.skip(1));
    match split_once(body.as_str(), ']') {
        Some((a, rest)) => {
            let tail = chars_of(rest.as_str());
            if tail.len() == 0 || tail[0] != ':' {
                return None;
            }
            let p = string_of(&tail, 1, tail.len());
            assert(p@ =~= rest@.skip(1));
            match (read_scoped_v6(a.as_str()), read_port(p.as_str())) {
                (Some(a), Some(p)) => Some((Ip::V6(a), p)),
                _ => None,
            }
        },
        None => None,
    }
}

/// Reads an endpoint: a socket address, or failing that an address and a port on the two sides of
/// the last colon.
pub fn parse_endpoint(ep: &str) -> (r: Option<(Ip, u16)>)
    ensures
        r == endpoint(ep@),
{
    match read_socket_v4(ep) {
        Some(e) => {
            return Some(e);
        },
        None => {},
    }
    match read_socket_v6(ep) {
        Some(e) => {
            return Some(e);
        },
        None => {},
    }
    match rsplit_once(ep, ':') {
        Some((a, p)) => match (read_ip(a.as_str()), read_u16(p.as_str())) {
            (Some(a), Some(p)) => Some((a, p)),
            _ => None,
        },
        None => None,
    }
}

// ---------- Classes of addresses ----------

/// The private IPv4 ranges: `10.0.0.0/8`, `172.16.0.0/12` and `192.168.0.0/16`.
pub open spec fn private_v4(a: u32) -> bool {
    ||| a / 0x100_0000 == 10
    ||| a / 0x10_0000 == 172 * 16 + 1
    ||| a / 0x1_0000 == 192 * 256 + 168
}

/// The first of the eight groups of an IPv6 address.
pub open spec fn first_group(a: u128) -> u128 {
    a / 0x1_0000_0000_0000_0000_0000_0000_0000
}

/// The unique local IPv6 range `fc00::/7`.
pub open spec fn unique_local_v6(a: u128) -> bool {
    0xfc00 <= first_group(a) <= 0xfdff
}

/// Whether an IPv4 address is private.
pub fn is_private_v4(a: u32) -> (r: bool)
    ensures
        r == private_v4(a),
{
    a / 0x100_0000 == 10 || a / 0x10_0000 == 172 * 16 + 1 || a / 0x1_0000 == 192 * 256 + 168
}

/// Whether an IPv6 address may be reported to other peers: those in the unique local range, and
/// neither multicast, loopback, unspecified nor link-local ones.
pub fn should_report_ipv6(a: u128) -> (r: bool)
    ensures
        r == unique_local_v6(a),
{
    let first: u128 = a / 0x1_0000_0000_0000_0000_0000_0000_0000;
    if first / 0x100 == 0xff || a == 1 || a == 0 || first / 0x40 == 0xfe80 / 0x40 {
        return false;
    }
    first / 0x200 == 0xfc00 / 0x200
}

} // verus!
