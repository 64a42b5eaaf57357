//! Addresses and endpoints written as text, and that reading gives back what was written.
use vstd::prelude::*;

use crate::ip::{
    colons_at, digits, endpoint, group, groups, ip, octet, places, port, quad, scoped_v6, side,
    socket_v4, socket_v6, v4, v6, v6_groups, lemma_gap_is, Ip,
};
use crate::number::{
    decimal, decimal_of, digit_char, digit_val, is_numeral, law_numeral_reads_back, numeral_text,
    parse_unsigned, push_numeral, value,
};
use crate::text::{
    find, join, join_texts, lemma_find, lemma_find_is, lemma_rfind_is, lemma_split_join,
    lemma_split_push, lemma_split_whole, split, Text,
};

verus! {

/// The dotted quad of an IPv4 address.
pub open spec fn dotted(a: nat) -> Text {
    join(
        seq![
            decimal(a / 0x100_0000),
            decimal(a / 0x1_0000 % 0x100),
            decimal(a / 0x100 % 0x100),
            decimal(a % 0x100),
        ],
        ".".view(),
    )
}

/// Groups in hexadecimal with colons between them.
pub open spec fn hex_groups(g: Seq<nat>) -> Text {
    join(g.map_values(|x: nat| numeral_text(x, 16)), ":".view())
}

/// How many groups from the `i`-th on are zero.
pub open spec fn zeros_from(g: Seq<nat>, i: int) -> int
    decreases g.len() - i,
{
    if 0 <= i < g.len() && g[i] == 0 {
        1 + zeros_from(g, i + 1)
    } else {
        0
    }
}

/// Where the longest stretch of zero groups among those that begin before the `n`-th group begins,
/// and its length; the first one where several are equally long.
pub open spec fn longest_zeros(g: Seq<nat>, n: int) -> (int, int)
    decreases n,
{
    if n <= 0 {
        (0, 0)
    } else {
        let before = longest_zeros(g, n - 1);
        let here = zeros_from(g, n - 1);
        if here > before.1 {
            (n - 1, here)
        } else {
            before
        }
    }
}

/// The text of an IPv6 address: an IPv4-mapped address ends in a dotted quad, and in any other `::`
/// stands for the longest stretch of two or more zero groups.
pub open spec fn v6_text(a: nat) -> Text {
    let g = digits(a, 0x10000, 8);
    let (start, len) = longest_zeros(g, 8);
    if a / 0x1_0000_0000 == 0xffff {
        "::ffff:".view() + dotted(a % 0x1_0000_0000)
    } else if len > 1 {
        hex_groups(g.take(start)) + "::".view() + hex_groups(g.skip(start + len))
    } else {
        hex_groups(g)
    }
}

/// The text of an address.
pub open spec fn ip_text(a: Ip) -> Text {
    match a {
        Ip::V4(a) => dotted(a as nat),
        Ip::V6(a) => v6_text(a as nat),
    }
}

fn dotted_of(a: u32) -> (r: String)
    ensures
        r@ == dotted(a as nat),
{
    let parts: Vec<String> = vec![
        decimal_of((a / 0x100_0000) as u64),
        decimal_of((a / 0x1_0000 % 0x100) as u64),
        decimal_of((a / 0x100 % 0x100) as u64),
        decimal_of((a % 0x100) as u64),
    ];
    assert(parts.deep_view() =~= seq![
        decimal(a as nat / 0x100_0000),
        decimal(a as nat / 0x1_0000 % 0x100),
        decimal(a as nat / 0x100 % 0x100),
        decimal(a as nat % 0x100),
    ]);
    join_texts(&parts, ".")
}

/// The numbers of a vector.
pub open spec fn as_nats(g: Seq<u64>) -> Seq<nat> {
    g.map_values(|x: u64| x as nat)
}

fn digits_of(n: u128, len: usize) -> (r: Vec<u64>)
    ensures
        as_nats(r@) == digits(n as nat, 0x10000, len as nat),
        r@.len() == len,
    decreases len,
{
    if len == 0 {
        let r: Vec<u64> = Vec::new();
        assert(as_nats(r@) =~= Seq::<nat>::empty());
        return r;
    }
    let mut r = digits_of(n / 0x10000, len - 1);
    let ghost before = as_nats(r@);
    r.push((n % 0x10000) as u64);
    assert(as_nats(r@) =~= before.push(n as nat % 0x10000));
    r
}

fn hex_groups_of(g: &Vec<u64>, from: usize, to: usize) -> (r: String)
    requires
        from <= to <= g@.len(),
    ensures
        r@ == hex_groups(as_nats(g@).subrange(from as int, to as int)),
{
    let mut parts: Vec<String> = Vec::new();
    let mut i: usize = from;
    let ghost want = as_nats(g@).subrange(from as int, to as int).map_values(
        |x: nat| numeral_text(x, 16),
    );
    while i < to
        invariant
            from <= i <= to <= g@.len(),
            want == as_nats(g@).subrange(from as int, to as int).map_values(
                |x: nat| numeral_text(x, 16),
            ),
            parts@.len() == i - from,
            forall|j: int| 0 <= j < parts@.len() ==> (#[trigger] parts@[j])@ == want[j],
        decreases to - i,
    {
        let mut s = String::new();
        push_numeral(&mut s, g[i], 16);
        assert(s@ =~= numeral_text(g@[i as int] as nat, 16));
        assert(want[i - from] == s@);
        parts.push(s);
        i += 1;
    }
    assert(parts.deep_view() =~= want);
    join_texts(&parts, ":")
}

proof fn lemma_zeros(g: Seq<nat>, i: int)
    requires
        0 <= i <= g.len(),
    ensures
        0 <= zeros_from(g, i) <= g.len() - i,
        forall|k: int| i <= k < i + zeros_from(g, i) ==> g[k] == 0,
    decreases g.len() - i,
{
    if i < g.len() && g[i] == 0 {
        lemma_zeros(g, i + 1);
    }
}

fn zeros_from_of(g: &Vec<u64>, i: usize) -> (r: usize)
    requires
        i <= g@.len(),
    ensures
        r == zeros_from(as_nats(g@), i as int),
        i + r <= g@.len(),
    decreases g@.len() - i,
{
    proof {
        lemma_zeros(as_nats(g@), i as int);
    }
    if i < g.len() && g[i] == 0 {
        1 + zeros_from_of(g, i + 1)
    } else {
        0
    }
}

proof fn lemma_longest(g: Seq<nat>, n: int)
    requires
        0 <= n <= g.len(),
    ensures
        ({
            let (s, l) = longest_zeros(g, n);
            &&& 0 <= s
            &&& 0 <= l
            &&& s + l <= g.len()
            &&& forall|k: int| s <= k < s + l ==> g[k] == 0
        }),
    decreases n,
{
    if n > 0 {
        lemma_longest(g, n - 1);
        lemma_zeros(g, n - 1);
    }
}

fn v6_text_of(a: u128) -> (r: String)
    ensures
        r@ == v6_text(a as nat),
{
    if a / 0x1_0000_0000 == 0xffff {
        let low = (a % 0x1_0000_0000) as u32;
        return "::ffff:".to_owned().concat(dotted_of(low).as_str());
    }
    let g = digits_of(a, 8);
    let mut start: usize = 0;
    let mut len: usize = 0;
    let mut i: usize = 0;
    while i < 8
        invariant
            g@.len() == 8,
            i <= 8,
            longest_zeros(as_nats(g@), i as int) == (start as int, len as int),
        decreases 8 - i,
    {
        let here = zeros_from_of(&g, i);
        if here > len {
            start = i;
            len = here;
        }
        i += 1;
    }
    proof {
        lemma_longest(as_nats(g@), 8);
    }
    if len > 1 {
        proof {
            assert(as_nats(g@).subrange(0, start as int) =~= as_nats(g@).take(start as int));
            assert(as_nats(g@).subrange(start + len, 8) =~= as_nats(g@).skip(start + len));
        }
        hex_groups_of(&g, 0, start).concat("::").concat(hex_groups_of(&g, start + len, 8).as_str())
    } else {
        assert(as_nats(g@).subrange(0, 8) =~= as_nats(g@));
        hex_groups_of(&g, 0, 8)
    }
}

/// Writes an address.
pub fn ip_to_text(a: Ip) -> (r: String)
    ensures
        r@ == ip_text(a),
{
    match a {
        Ip::V4(a) => dotted_of(a),
        Ip::V6(a) => v6_text_of(a),
    }
}

// ---------- Reading back ----------

/// The characters that addresses are written with.
spec fn address_char(c: char) -> bool {
    digit_val(c) < 16 || c == ':' || c == '.'
}

spec fn all_address_chars(t: Text) -> bool {
    forall|i: int| 0 <= i < t.len() ==> address_char(#[trigger] t[i])
}

proof fn lemma_numeral_lacks(t: Text, radix: nat, c: char)
    requires
        is_numeral(t, radix),
        digit_val(c) >= radix,
    ensures
        !t.contains(c),
{
}

proof fn lemma_join_address_chars(list: Seq<Text>, sep: Text)
    requires
        forall|i: int| 0 <= i < list.len() ==> all_address_chars(#[trigger] list[i]),
        all_address_chars(sep),
    ensures
        all_address_chars(join(list, sep)),
    decreases list.len(),
{
    if list.len() > 1 {
        let front = list.drop_last();
        assert forall|i: int| 0 <= i < front.len() implies all_address_chars(#[trigger] front[i]) by {
            assert(front[i] == list[i]);
        }
        lemma_join_address_chars(front, sep);
        assert(all_address_chars(list[list.len() - 1]));
    } else if list.len() == 1 {
        assert(all_address_chars(list[0]));
    }
}

proof fn lemma_octet_reads_back(o: nat)
    requires
        o < 256,
    ensures
        octet(decimal(o)) == Some(o),
{
    law_numeral_reads_back(o, 10);
    reveal_with_fuel(numeral_text, 4);
    assert(decimal(o).len() <= 3);
    if decimal(o).len() > 1 {
        assert(decimal(o)[0] != '0') by {
            if o < 100 {
                assert(decimal(o)[0] == digit_char(o / 10 % 10));
            } else {
                assert(decimal(o)[0] == digit_char(o / 10 / 10 % 10));
            }
        }
    }
}

proof fn lemma_dotted_reads_back(a: nat)
    requires
        a <= 0xffff_ffff,
    ensures
        v4(dotted(a)) == Some(a),
        all_address_chars(dotted(a)),
        !dotted(a).contains(':'),
        dotted(a).contains('.'),
{
    let p = seq![
        decimal(a / 0x100_0000),
        decimal(a / 0x1_0000 % 0x100),
        decimal(a / 0x100 % 0x100),
        decimal(a % 0x100),
    ];
    reveal_strlit(".");
    assert(".".view() =~= seq!['.']);
    lemma_octet_reads_back(a / 0x100_0000);
    lemma_octet_reads_back(a / 0x1_0000 % 0x100);
    lemma_octet_reads_back(a / 0x100 % 0x100);
    lemma_octet_reads_back(a % 0x100);
    assert forall|i: int| 0 <= i < p.len() implies !(#[trigger] p[i]).contains('.')
        && all_address_chars(p[i]) && !p[i].contains(':') by {
        lemma_numeral_lacks(p[i], 10, '.');
        lemma_numeral_lacks(p[i], 10, ':');
    }
    lemma_split_join(p, '.');
    assert(quad(a / 0x100_0000, a / 0x1_0000 % 0x100, a / 0x100 % 0x100, a % 0x100) == a);
    lemma_join_address_chars(p, ".".view());
    reveal_with_fuel(join, 5);
    assert(p.drop_last() =~= seq![p[0], p[1], p[2]]);
    assert(p.drop_last().drop_last() =~= seq![p[0], p[1]]);
    assert(p.drop_last().drop_last().drop_last() =~= seq![p[0]]);
    let d = dotted(a);
    assert(d =~= p[0] + seq!['.'] + p[1] + seq!['.'] + p[2] + seq!['.'] + p[3]);
    assert(d[p[0].len() as int] == '.');
    assert forall|i: int| 0 <= i < d.len() implies d[i] != ':' by {
        let n0 = p[0].len() as int;
        let n1 = n0 + 1 + p[1].len();
        let n2 = n1 + 1 + p[2].len();
        if i < n0 {
            assert(d[i] == p[0][i]);
        } else if i == n0 || i == n1 || i == n2 {
        } else if i < n1 {
            assert(d[i] == p[1][i - n0 - 1]);
        } else if i < n2 {
            assert(d[i] == p[2][i - n1 - 1]);
        } else {
            assert(d[i] == p[3][i - n2 - 1]);
        }
    }
}

proof fn lemma_group_reads_back(x: nat)
    requires
        x < 0x10000,
    ensures
        group(numeral_text(x, 16)) == Some(x),
        all_address_chars(numeral_text(x, 16)),
        !numeral_text(x, 16).contains(':'),
        !numeral_text(x, 16).contains('.'),
        numeral_text(x, 16).len() > 0,
{
    law_numeral_reads_back(x, 16);
    reveal_with_fuel(numeral_text, 5);
    assert(numeral_text(x, 16).len() <= 4);
    lemma_numeral_lacks(numeral_text(x, 16), 16, ':');
    lemma_numeral_lacks(numeral_text(x, 16), 16, '.');
}

spec fn small(g: Seq<nat>) -> bool {
    forall|i: int| 0 <= i < g.len() ==> #[trigger] g[i] < 0x10000
}

proof fn lemma_groups_read_back(g: Seq<nat>, quad_last: bool)
    requires
        small(g),
    ensures
        groups(g.map_values(|x: nat| numeral_text(x, 16)), quad_last) == Some(g),
    decreases g.len(),
{
    let p = g.map_values(|x: nat| numeral_text(x, 16));
    if g.len() > 0 {
        lemma_groups_read_back(g.drop_last(), false);
        assert(p.drop_last() =~= g.drop_last().map_values(|x: nat| numeral_text(x, 16)));
        lemma_group_reads_back(g.last());
        assert(g.drop_last().push(g.last()) =~= g);
    } else {
        assert(g =~= Seq::<nat>::empty());
    }
}

/// What joined groups look like: no two colons meet, and none stands at an end.
proof fn lemma_hex_groups(g: Seq<nat>)
    requires
        small(g),
    ensures
        ({
            let t = hex_groups(g);
            &&& g.len() > 0 ==> t.len() > 0 && t[0] != ':' && t.last() != ':'
            &&& g.len() == 0 ==> t.len() == 0
            &&& forall|i: int| !#[trigger] colons_at(t, i)
            &&& all_address_chars(t)
            &&& !t.contains('.')
        }),
    decreases g.len(),
{
    let t = hex_groups(g);
    let p = g.map_values(|x: nat| numeral_text(x, 16));
    reveal_strlit(":");
    assert(":".view() =~= seq![':']);
    if g.len() == 1 {
        lemma_group_reads_back(g[0]);
        assert(t == p[0]);
        assert(t.contains(t[0]) && t.contains(t.last()));
        assert forall|i: int| !#[trigger] colons_at(t, i) by {
            if 0 <= i < t.len() {
                assert(t.contains(t[i]));
            }
        }
    } else if g.len() > 1 {
        let front = g.drop_last();
        lemma_hex_groups(front);
        lemma_group_reads_back(g.last());
        assert(p.drop_last() =~= front.map_values(|x: nat| numeral_text(x, 16)));
        let a = hex_groups(front);
        let b = numeral_text(g.last(), 16);
        assert(t =~= a + seq![':'] + b);
        assert(b.contains(b[0]) && b.contains(b.last()));
        assert(t[0] == a[0]);
        assert(t.last() == b.last());
        assert forall|i: int| !#[trigger] colons_at(t, i) by {
            if 0 <= i && i + 1 < t.len() {
                if i + 1 < a.len() {
                    assert(!colons_at(a, i));
                } else if i + 1 == a.len() {
                    assert(t[i] == a.last());
                } else if i == a.len() {
                    assert(t[i + 1] == b[0]);
                } else {
                    assert(b.contains(b[i - a.len() - 1]));
                    assert(t[i] == b[i - a.len() - 1]);
                }
            }
        }
        assert forall|i: int| 0 <= i < t.len() implies address_char(#[trigger] t[i]) && t[i] != '.' by {
            if i < a.len() {
                assert(t[i] == a[i]);
                assert(a.contains(a[i]));
            } else if i > a.len() {
                assert(t[i] == b[i - a.len() - 1]);
                assert(b.contains(b[i - a.len() - 1]));
            }
        }
    }
}

proof fn lemma_side_reads_back(g: Seq<nat>, quad_last: bool)
    requires
        small(g),
    ensures
        side(hex_groups(g), quad_last) == Some(g),
{
    lemma_hex_groups(g);
    if g.len() == 0 {
        assert(g =~= Seq::<nat>::empty());
    } else {
        let p = g.map_values(|x: nat| numeral_text(x, 16));
        reveal_strlit(":");
        assert(":".view() =~= seq![':']);
        assert forall|i: int| 0 <= i < p.len() implies !(#[trigger] p[i]).contains(':') by {
            lemma_group_reads_back(g[i]);
        }
        lemma_split_join(p, ':');
        lemma_groups_read_back(g, quad_last);
    }
}

proof fn lemma_digits(n: nat, base: nat, len: nat)
    requires
        base >= 2,
        n < vstd::arithmetic::power::pow(base as int, len),
    ensures
        digits(n, base, len).len() == len,
        places(digits(n, base, len), base) == n,
        forall|i: int| 0 <= i < len ==> #[trigger] digits(n, base, len)[i] < base,
    decreases len,
{
    vstd::arithmetic::power::lemma_pow0(base as int);
    if len > 0 {
        let q = n / base;
        let b = base as int;
        let k = (len - 1) as nat;
        vstd::arithmetic::power::lemma_pow_adds(b, 1, k);
        vstd::arithmetic::power::lemma_pow1(b);
        let pk = vstd::arithmetic::power::pow(b, k);
        assert(vstd::arithmetic::power::pow(b, len) == b * pk);
        assert(q < pk) by (nonlinear_arith)
            requires
                n < base * pk,
                q == n / base,
                base >= 2,
                n >= 0,
        ;
        lemma_digits(q, base, k);
        let d = digits(n, base, len);
        assert(d.drop_last() =~= digits(q, base, k));
        assert(n == q * base + n % base) by (nonlinear_arith)
            requires
                q == n / base,
                base >= 2,
        ;
        assert(n % base < base) by (nonlinear_arith)
            requires
                base >= 2,
        ;
    }
}

/// No IPv4 address begins with anything but a decimal digit.
proof fn lemma_v4_first(t: Text)
    requires
        t.len() > 0 ==> digit_val(t[0]) >= 10,
    ensures
        v4(t) is None,
{
    let p = split(t, '.');
    lemma_find(t, '.');
    let n = find(t, '.');
    if t.len() > 0 && n < t.len() {
        assert(p[0] == t.take(n));
        if n > 0 {
            assert(t.take(n)[0] == t[0]);
            assert(!is_numeral(p[0], 10));
        } else {
            assert(p[0].len() == 0);
        }
        assert(octet(p[0]) is None);
    }
}

/// A text without dots is no IPv4 address.
proof fn lemma_v4_needs_dots(t: Text)
    requires
        !t.contains('.'),
    ensures
        v4(t) is None,
{
    lemma_split_whole(t, '.');
}

/// What the text of an IPv6 address has to show to be read back.
spec fn reads_back_as(t: Text, a: nat) -> bool {
    &&& v6(t) == Some(a)
    &&& all_address_chars(t)
    &&& t.len() > 0
    &&& t[0] == ':' || !t.contains('.')
}

proof fn lemma_mapped_places(low: nat)
    requires
        low < 0x1_0000_0000,
    ensures
        places(
            seq![0nat, 0nat, 0nat, 0nat, 0nat, 0xffffnat, low / 0x10000, low % 0x10000],
            0x10000,
        ) == 0xffff * 0x1_0000_0000 + low,
{
    let want = seq![0nat, 0nat, 0nat, 0nat, 0nat, 0xffffnat, low / 0x10000, low % 0x10000];
    reveal_with_fuel(places, 9);
    assert(want.drop_last() =~= seq![0nat, 0nat, 0nat, 0nat, 0nat, 0xffffnat, low / 0x10000]);
    assert(want.drop_last().drop_last() =~= seq![0nat, 0nat, 0nat, 0nat, 0nat, 0xffffnat]);
    let z = seq![0nat, 0nat, 0nat, 0nat, 0nat];
    assert(want.drop_last().drop_last().drop_last() =~= z);
    assert(z.drop_last() =~= seq![0nat, 0nat, 0nat, 0nat]);
    assert(z.drop_last().drop_last() =~= seq![0nat, 0nat, 0nat]);
    assert(z.drop_last().drop_last().drop_last() =~= seq![0nat, 0nat]);
    assert(z.drop_last().drop_last().drop_last().drop_last() =~= seq![0nat]);
    assert(z.drop_last().drop_last().drop_last().drop_last().drop_last() =~= Seq::<nat>::empty());
    assert(places(z, 0x10000) == 0);
}

proof fn lemma_ffff()
    ensures
        group(seq!['f', 'f', 'f', 'f']) == Some(0xffffnat),
{
    let f = seq!['f', 'f', 'f', 'f'];
    reveal_with_fuel(value, 5);
    assert(f.drop_last() =~= seq!['f', 'f', 'f']);
    assert(f.drop_last().drop_last() =~= seq!['f', 'f']);
    assert(f.drop_last().drop_last().drop_last() =~= seq!['f']);
    assert(f.drop_last().drop_last().drop_last().drop_last() =~= Seq::<char>::empty());
}

/// The groups after `::` in an IPv4-mapped address with the dotted quad `d`.
proof fn lemma_mapped_tail(d: Text, low: nat)
    requires
        v4(d) == Some(low),
        !d.contains(':'),
        d.contains('.'),
    ensures
        side(seq!['f', 'f', 'f', 'f'] + seq![':'] + d, true) == Some(
            seq![0xffffnat, low / 0x10000, low % 0x10000],
        ),
{
    let f = seq!['f', 'f', 'f', 'f'];
    lemma_split_push(f, d, ':');
    assert(!f.contains(':'));
    lemma_split_whole(f, ':');
    let p = split(f + seq![':'] + d, ':');
    assert(p =~= seq![f, d]);
    assert(p.drop_last() =~= seq![f]);
    assert(seq![f].drop_last() =~= Seq::<Text>::empty());
    lemma_ffff();
    let one = Seq::<nat>::empty().push(0xffffnat);
    assert(groups(Seq::<Text>::empty(), false) == Some(Seq::<nat>::empty()));
    assert(seq![f].last() == f);
    assert(groups(seq![f], false) == Some(one));
    assert(group(d) is None) by {
        let k = choose|k: int| 0 <= k < d.len() && d[k] == '.';
        assert(digit_val(d[k]) >= 16);
    }
    let tail = one + seq![low / 0x10000, low % 0x10000];
    assert(p.last() == d);
    assert(groups(p, true) == Some(tail));
    assert(tail =~= seq![0xffffnat, low / 0x10000, low % 0x10000]);
}

proof fn lemma_mapped_text(d: Text, low: nat)
    requires
        low < 0x1_0000_0000,
        v4(d) == Some(low),
        !d.contains(':'),
        d.contains('.'),
        all_address_chars(d),
    ensures
        reads_back_as("::ffff:".view() + d, 0xffff * 0x1_0000_0000 + low),
{
    let t = "::ffff:".view() + d;
    reveal_strlit("::ffff:");
    let f = seq!['f', 'f', 'f', 'f'];
    assert(t[0] == ':' && t[1] == ':');
    assert(colons_at(t, 0));
    lemma_gap_is(t, 0);
    assert(t.take(0) =~= Seq::<char>::empty());
    assert(t.skip(2) =~= f + seq![':'] + d);
    lemma_mapped_tail(d, low);
    let tail = seq![0xffffnat, low / 0x10000, low % 0x10000];
    let all = Seq::<nat>::empty() + Seq::new(5, |i: int| 0nat) + tail;
    assert(side(t.take(0), false) == Some(Seq::<nat>::empty()));
    assert(v6_groups(t) == Some(all));
    assert(all =~= seq![0nat, 0nat, 0nat, 0nat, 0nat, 0xffffnat, low / 0x10000, low % 0x10000]);
    lemma_mapped_places(low);
    assert forall|i: int| 0 <= i < t.len() implies address_char(#[trigger] t[i]) by {
        if i >= 7 {
            assert(t[i] == d[i - 7]);
        }
    }
}

proof fn lemma_mapped_reads_back(low: nat)
    requires
        low < 0x1_0000_0000,
    ensures
        reads_back_as("::ffff:".view() + dotted(low), 0xffff * 0x1_0000_0000 + low),
{
    lemma_dotted_reads_back(low);
    lemma_mapped_text(dotted(low), low);
}

proof fn lemma_gapped_reads_back(g: Seq<nat>, s: int, l: int)
    requires
        small(g),
        g.len() == 8,
        0 <= s,
        1 < l,
        s + l <= 8,
        forall|k: int| s <= k < s + l ==> g[k] == 0,
    ensures
        reads_back_as(
            hex_groups(g.take(s)) + "::".view() + hex_groups(g.skip(s + l)),
            places(g, 0x10000),
        ),
{
    let t = hex_groups(g.take(s)) + "::".view() + hex_groups(g.skip(s + l));
    reveal_strlit("::");
    assert("::".view() =~= seq![':', ':']);
    let x = g.take(s);
    let y = g.skip(s + l);
    assert(small(x));
    assert(small(y));
    lemma_hex_groups(x);
    lemma_hex_groups(y);
    let tx = hex_groups(x);
    let ty = hex_groups(y);
    assert(t =~= tx + seq![':', ':'] + ty);
    let n = tx.len() as int;
    assert(colons_at(t, n));
    assert forall|i: int| 0 <= i < n implies !#[trigger] colons_at(t, i) by {
        if i + 1 < n {
            assert(!colons_at(tx, i));
            assert(t[i] == tx[i] && t[i + 1] == tx[i + 1]);
        } else {
            assert(t[i] == tx.last());
        }
    }
    lemma_gap_is(t, n);
    assert(t.take(n) =~= tx);
    assert(t.skip(n + 2) =~= ty);
    lemma_side_reads_back(x, false);
    lemma_side_reads_back(y, true);
    assert(x + Seq::new(l as nat, |i: int| 0nat) + y =~= g);
    assert(v6_groups(t) == Some(g));
    assert forall|i: int| 0 <= i < t.len() implies address_char(#[trigger] t[i]) && t[i] != '.' by {
        if i < n {
            assert(t[i] == tx[i]);
            assert(tx.contains(tx[i]));
        } else if i >= n + 2 {
            assert(t[i] == ty[i - n - 2]);
            assert(ty.contains(ty[i - n - 2]));
        }
    }
}

proof fn lemma_v6_text_reads_back(a: nat)
    requires
        a <= u128::MAX,
    ensures
        reads_back_as(v6_text(a), a),
{
    let t = v6_text(a);
    let g = digits(a, 0x10000, 8);
    crate::ip::lemma_pow_eight();
    lemma_digits(a, 0x10000, 8);
    assert(small(g));
    lemma_longest(g, 8);
    let (s, l) = longest_zeros(g, 8);
    if a / 0x1_0000_0000 == 0xffff {
        lemma_mapped_reads_back(a % 0x1_0000_0000);
    } else if l > 1 {
        lemma_gapped_reads_back(g, s, l);
    } else {
        lemma_hex_groups(g);
        lemma_gap_is(t, t.len() as int);
        lemma_side_reads_back(g, true);
    }
}

/// Reading the text of an address gives the address.
pub proof fn law_ip_reads_back(a: Ip)
    ensures
        ip(ip_text(a)) == Some(a),
{
    match a {
        Ip::V4(n) => {
            lemma_dotted_reads_back(n as nat);
        },
        Ip::V6(n) => {
            lemma_v6_text_reads_back(n as nat);
            let t = v6_text(n as nat);
            if t[0] == ':' {
                lemma_v4_first(t);
            } else {
                lemma_v4_needs_dots(t);
            }
        },
    }
}

/// The text of an address holds neither a slash nor white space, and is not empty.
pub proof fn law_address_stands_alone(a: Ip)
    ensures
        ip_text(a).len() > 0,
        !ip_text(a).contains('/'),
        !ip_text(a).contains(' '),
        !ip_text(a).contains(','),
{
    let t = ip_text(a);
    match a {
        Ip::V4(n) => {
            lemma_dotted_reads_back(n as nat);
            if t.len() == 0 {
                lemma_v4_needs_dots(t);
            }
        },
        Ip::V6(n) => {
            lemma_v6_text_reads_back(n as nat);
        },
    }
    assert(all_address_chars(t));
    assert forall|i: int| 0 <= i < t.len() implies t[i] != '/' && t[i] != ' ' && t[i] != ',' by {
        assert(address_char(t[i]));
    }
}

// ---------- Endpoints ----------

/// The endpoint that a node reports of itself: an IPv6 address stands in brackets.
pub open spec fn local_endpoint(a: Ip, port: u16) -> Text {
    match a {
        Ip::V4(n) => dotted(n as nat) + ":".view() + decimal(port as nat),
        Ip::V6(n) => "[".view() + v6_text(n as nat) + "]:".view() + decimal(port as nat),
    }
}

/// The endpoint that a peer is switched to: the address, a colon and the port.
pub open spec fn plain_endpoint(a: Ip, port: u16) -> Text {
    ip_text(a) + ":".view() + decimal(port as nat)
}

/// Writes the endpoint that a node reports of itself.
pub fn local_endpoint_of(a: Ip, port: u16) -> (r: String)
    ensures
        r@ == local_endpoint(a, port),
{
    match a {
        Ip::V4(n) => dotted_of(n).concat(":").concat(decimal_of(port as u64).as_str()),
        Ip::V6(n) => "[".to_owned().concat(v6_text_of(n).as_str()).concat("]:").concat(
            decimal_of(port as u64).as_str(),
        ),
    }
}

proof fn lemma_port_reads_back(p: u16)
    ensures
        port(decimal(p as nat)) == Some(p as nat),
        parse_unsigned(decimal(p as nat), 0xffff) == Some(p as nat),
        !decimal(p as nat).contains(':'),
{
    law_numeral_reads_back(p as nat, 10);
    let t = decimal(p as nat);
    lemma_numeral_lacks(t, 10, ':');
    assert(digit_val(t[0]) < 10);
}

proof fn lemma_quad_endpoint(x: Text, n: u32, d: Text, p: u16)
    requires
        v4(x) == Some(n as nat),
        !x.contains(':'),
        port(d) == Some(p as nat),
    ensures
        endpoint(x + ":".view() + d) == Some((Ip::V4(n), p)),
{
    let t = x + ":".view() + d;
    reveal_strlit(":");
    assert(t =~= x + seq![':'] + d);
    assert forall|i: int| 0 <= i < x.len() implies t[i] != ':' by {
        assert(t[i] == x[i]);
        assert(x.contains(x[i]));
    }
    lemma_find_is(t, ':', x.len() as int);
    assert(t.take(x.len() as int) =~= x);
    assert(t.skip(x.len() as int + 1) =~= d);
    assert(socket_v4(t) == Some((Ip::V4(n), p)));
}

proof fn lemma_bracketed_endpoint(x: Text, n: u128, d: Text, p: u16)
    requires
        v6(x) == Some(n as nat),
        all_address_chars(x),
        port(d) == Some(p as nat),
    ensures
        endpoint("[".view() + x + "]:".view() + d) == Some((Ip::V6(n), p)),
{
    let t = "[".view() + x + "]:".view() + d;
    reveal_strlit("[");
    reveal_strlit("]:");
    assert(t =~= seq!['['] + x + seq![']', ':'] + d);
    assert(t[0] == '[');
    lemma_socket_v4_none(t);
    let body = t.skip(1);
    assert(body =~= x + seq![']', ':'] + d);
    assert forall|i: int| 0 <= i < x.len() implies body[i] != ']' by {
        assert(body[i] == x[i]);
        assert(address_char(x[i]));
    }
    lemma_find_is(body, ']', x.len() as int);
    assert(body.take(x.len() as int) =~= x);
    let rest = body.skip(x.len() as int + 1);
    assert(rest =~= seq![':'] + d);
    assert(rest.skip(1) =~= d);
    assert forall|i: int| 0 <= i < x.len() implies x[i] != '%' by {
        assert(address_char(x[i]));
    }
    lemma_find_is(x, '%', x.len() as int);
    assert(scoped_v6(x) == Some(n as nat));
    assert(socket_v6(t) == Some((Ip::V6(n), p)));
}

/// An endpoint in the form that nodes report is read as its address and port.
pub proof fn law_local_endpoint_reads_back(a: Ip, p: u16)
    ensures
        endpoint(local_endpoint(a, p)) == Some((a, p)),
{
    lemma_port_reads_back(p);
    match a {
        Ip::V4(n) => {
            lemma_dotted_reads_back(n as nat);
            lemma_quad_endpoint(dotted(n as nat), n, decimal(p as nat), p);
        },
        Ip::V6(n) => {
            lemma_v6_text_reads_back(n as nat);
            lemma_bracketed_endpoint(v6_text(n as nat), n, decimal(p as nat), p);
        },
    }
}

/// A scope after an IPv6 address in brackets changes nothing.
pub proof fn law_scope_is_passed_over(n: u128, scope: u32, p: u16)
    ensures
        endpoint(
            seq!['['] + v6_text(n as nat) + seq!['%'] + decimal(scope as nat) + seq![']', ':']
                + decimal(p as nat),
        ) == Some((Ip::V6(n), p)),
{
    let x = v6_text(n as nat);
    let s = decimal(scope as nat);
    let d = decimal(p as nat);
    let t = seq!['['] + x + seq!['%'] + s + seq![']', ':'] + d;
    lemma_v6_text_reads_back(n as nat);
    lemma_port_reads_back(p);
    law_numeral_reads_back(scope as nat, 10);
    lemma_numeral_lacks(s, 10, ']');
    assert(t[0] == '[');
    lemma_socket_v4_none(t);
    let inner = x + seq!['%'] + s;
    let body = t.skip(1);
    assert(body =~= inner + seq![']', ':'] + d);
    assert forall|i: int| 0 <= i < inner.len() implies body[i] != ']' by {
        assert(body[i] == inner[i]);
        if i < x.len() {
            assert(address_char(x[i]));
        } else if i > x.len() {
            assert(inner[i] == s[i - x.len() - 1]);
            assert(s.contains(s[i - x.len() - 1]));
        }
    }
    lemma_find_is(body, ']', inner.len() as int);
    assert(body.take(inner.len() as int) =~= inner);
    let rest = body.skip(inner.len() as int + 1);
    assert(rest =~= seq![':'] + d);
    assert(rest.skip(1) =~= d);
    assert forall|i: int| 0 <= i < x.len() implies inner[i] != '%' by {
        assert(inner[i] == x[i]);
        assert(address_char(x[i]));
    }
    assert(inner[x.len() as int] == '%');
    lemma_find_is(inner, '%', x.len() as int);
    assert(inner.take(x.len() as int) =~= x);
    assert(inner.skip(x.len() as int + 1) =~= s);
    assert(scoped_v6(inner) == Some(n as nat));
    assert(socket_v6(t) == Some((Ip::V6(n), p)));
}

/// A text that does not begin with a decimal digit is no IPv4 socket address.
proof fn lemma_socket_v4_none(t: Text)
    requires
        t.len() > 0,
        digit_val(t[0]) >= 10,
    ensures
        socket_v4(t) is None,
{
    lemma_find(t, ':');
    let n = find(t, ':');
    if n < t.len() {
        let x = t.take(n);
        if n > 0 {
            assert(x[0] == t[0]);
        }
        lemma_v4_first(x);
    }
}

/// The endpoint that a peer is switched to is read as its address and port.
pub proof fn law_plain_endpoint_reads_back(a: Ip, p: u16)
    ensures
        endpoint(plain_endpoint(a, p)) == Some((a, p)),
{
    match a {
        Ip::V4(n) => {
            law_local_endpoint_reads_back(a, p);
        },
        Ip::V6(n) => {
            let t = plain_endpoint(a, p);
            let x = v6_text(n as nat);
            let d = decimal(p as nat);
            reveal_strlit(":");
            assert(t =~= x + seq![':'] + d);
            lemma_v6_text_reads_back(n as nat);
            lemma_port_reads_back(p);
            assert(t[0] == x[0]);
            assert(address_char(x[0]));
            if x[0] == ':' {
                lemma_socket_v4_none(t);
            } else {
                lemma_find(t, ':');
                let k = find(t, ':');
                assert(k <= x.len()) by {
                    assert(t[x.len() as int] == ':');
                }
                let y = t.take(k);
                assert forall|i: int| 0 <= i < y.len() implies y[i] != '.' by {
                    assert(y[i] == x[i]);
                    assert(x.contains(x[i]));
                }
                lemma_v4_needs_dots(y);
                assert(socket_v4(t) is None);
            }
            assert(t[0] != '[');
            assert(socket_v6(t) is None);
            assert forall|i: int| x.len() < i < t.len() implies t[i] != ':' by {
                assert(t[i] == d[i - x.len() - 1]);
                assert(d.contains(d[i - x.len() - 1]));
            }
            lemma_rfind_is(t, ':', x.len() as int);
            assert(t.take(x.len() as int) =~= x);
            assert(t.skip(x.len() as int + 1) =~= d);
            law_ip_reads_back(a);
        },
    }
}

} // verus!
