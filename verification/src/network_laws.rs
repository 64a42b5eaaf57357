//! What holds of addresses and networks: how they are written and read, which are local, and how
//! peers are found in local networks.
use vstd::prelude::*;

use crate::ip::{
    colons_at, endpoint, group, groups, ip, lemma_gap_is, octet, places, private_v4, quad, side,
    unique_local_v6, v4, v6, Ip,
};
use crate::ip_text::{dotted, ip_text, law_address_stands_alone, law_ip_reads_back};
use crate::lan::{
    endpoint_in_nets, in_net, in_nets, lan_ask, lan_candidate, lan_from, lan_step, lan_wf, lans,
    reported_endpoints, same_lan, switch, switch_task, LanStage, LanView, Net, TaskView,
};
use crate::model::{Ask, Told};
use crate::number::{
    decimal, digit_char, digit_val, is_numeral, numeral_text, parse_unsigned, value,
};
use crate::output_laws::{law_number_is_read_in_full, lemma_join_without};
use crate::self_ips::{
    add_v4_address, add_v6_address, bare_address, delete_address, is_host_v4, is_host_v6, v4_of,
    v6_of,
};
use crate::text::{
    find, join, lemma_find, lemma_split_join, lemma_split_whole, lowercase, split, Text,
};
use crate::text_laws::law_split_in_two;
use vstd::arithmetic::power2::pow2;

verus! {

// ---------- Dotted quads ----------

proof fn lemma_digit_is_written_one_way(c: char)
    requires
        digit_val(c) < 10,
    ensures
        digit_char(digit_val(c)) == c,
        c != '0' ==> digit_val(c) >= 1,
{
    let d = digit_val(c);
    assert(48 <= c as nat <= 57);
    assert(d == c as nat - 48);
    assert((48 + d) as char == c);
}

/// A row of digits without a leading zero is how its number is written.
pub proof fn law_numeral_is_written_one_way(t: Text)
    requires
        is_numeral(t, 10),
        t.len() > 1 ==> t[0] != '0',
    ensures
        decimal(value(t, 10)) == t,
        t.len() > 1 ==> value(t, 10) >= 10,
        t[0] != '0' ==> value(t, 10) >= 1,
    decreases t.len(),
{
    let c = t.last();
    let front = t.drop_last();
    assert(digit_val(t[t.len() - 1]) < 10);
    lemma_digit_is_written_one_way(c);
    let n = value(t, 10);
    if t.len() == 1 {
        assert(front =~= Seq::<char>::empty());
        assert(value(front, 10) == 0);
        assert(n == digit_val(c));
        assert(seq![c] =~= t);
        if t[0] != '0' {
            assert(digit_val(c) >= 1);
        }
    } else {
        assert forall|i: int| 0 <= i < front.len() implies digit_val(#[trigger] front[i]) < 10 by {
            assert(digit_val(t[i]) < 10);
        }
        assert(front[0] == t[0]);
        law_numeral_is_written_one_way(front);
        let m = value(front, 10);
        assert(n == m * 10 + digit_val(c));
        assert(m >= 1);
        assert(n / 10 == m && n % 10 == digit_val(c));
        assert(numeral_text(n, 10) == numeral_text(n / 10, 10).push(digit_char(n % 10)));
        assert(front.push(c) =~= t);
    }
}

proof fn lemma_join_first(a: Text, b: Seq<Text>, sep: Text)
    requires
        b.len() > 0,
    ensures
        join(seq![a] + b, sep) == a + sep + join(b, sep),
    decreases b.len(),
{
    let all = seq![a] + b;
    if b.len() == 1 {
        assert(all.drop_last() =~= seq![a]);
        assert(join(seq![a], sep) == a);
        assert(join(all, sep) == join(all.drop_last(), sep) + sep + all.last());
    } else {
        let c = b.drop_last();
        lemma_join_first(a, c, sep);
        assert(all.drop_last() =~= seq![a] + c);
        assert(join(all, sep) == join(all.drop_last(), sep) + sep + all.last());
        assert(join(b, sep) == join(c, sep) + sep + b.last());
        assert(join(all, sep) =~= a + sep + join(b, sep));
    }
}

/// Joining undoes splitting.
pub proof fn law_joining_undoes_splitting(t: Text, c: char)
    ensures
        join(split(t, c), seq![c]) == t,
        split(t, c).len() > 0,
    decreases t.len(),
{
    let n = find(t, c);
    lemma_find(t, c);
    if n < t.len() {
        let rest = t.skip(n + 1);
        law_joining_undoes_splitting(rest, c);
        lemma_join_first(t.take(n), split(rest, c), seq![c]);
        assert(t.take(n) + seq![c] + rest =~= t);
    } else {
        assert(join(seq![t], seq![c]) == t);
    }
}

proof fn lemma_octet_is_written_one_way(t: Text)
    requires
        octet(t) is Some,
    ensures
        decimal(octet(t)->0) == t,
        octet(t)->0 <= 255,
{
    law_numeral_is_written_one_way(t);
}

proof fn lemma_quad_parts(a: nat, b: nat, c: nat, d: nat)
    requires
        a <= 255,
        b <= 255,
        c <= 255,
        d <= 255,
    ensures
        quad(a, b, c, d) / 0x100_0000 == a,
        quad(a, b, c, d) / 0x1_0000 % 0x100 == b,
        quad(a, b, c, d) / 0x100 % 0x100 == c,
        quad(a, b, c, d) % 0x100 == d,
        quad(a, b, c, d) <= 0xffff_ffff,
{
}

/// An IPv4 address is read from its dotted quad and from no other text.
pub proof fn law_only_dotted_quads_are_read(t: Text)
    requires
        v4(t) is Some,
    ensures
        v4(t)->0 <= 0xffff_ffff,
        t == dotted(v4(t)->0),
{
    let p = split(t, '.');
    let a = octet(p[0])->0;
    let b = octet(p[1])->0;
    let c = octet(p[2])->0;
    let d = octet(p[3])->0;
    lemma_octet_is_written_one_way(p[0]);
    lemma_octet_is_written_one_way(p[1]);
    lemma_octet_is_written_one_way(p[2]);
    lemma_octet_is_written_one_way(p[3]);
    lemma_quad_parts(a, b, c, d);
    law_joining_undoes_splitting(t, '.');
    reveal_strlit(".");
    assert(".".view() =~= seq!['.']);
    assert(p =~= seq![decimal(a), decimal(b), decimal(c), decimal(d)]);
}

/// The dotted quad of four octets is they with dots between them.
pub proof fn law_dotted_quad(a: u8, b: u8, c: u8, d: u8)
    ensures
        dotted(quad(a as nat, b as nat, c as nat, d as nat)) == decimal(a as nat) + "."@ + decimal(
            b as nat,
        ) + "."@ + decimal(c as nat) + "."@ + decimal(d as nat),
{
    lemma_quad_parts(a as nat, b as nat, c as nat, d as nat);
    let four = seq![decimal(a as nat), decimal(b as nat), decimal(c as nat), decimal(d as nat)];
    let three = four.drop_last();
    let two = three.drop_last();
    let one = two.drop_last();
    let sep = "."@;
    assert(one =~= seq![decimal(a as nat)]);
    assert(join(one, sep) == decimal(a as nat));
    assert(join(two, sep) == join(one, sep) + sep + decimal(b as nat));
    assert(join(three, sep) == join(two, sep) + sep + decimal(c as nat));
    assert(join(four, sep) == join(three, sep) + sep + decimal(d as nat));
}

// ---------- Groups ----------

/// Whether a text is one to four hexadecimal digits, in either case.
pub open spec fn is_hex_group(t: Text) -> bool {
    1 <= t.len() <= 4 && forall|i: int| 0 <= i < t.len() ==> is_hex_digit(#[trigger] t[i])
}

/// Whether a character is a hexadecimal digit, in either case.
pub open spec fn is_hex_digit(c: char) -> bool {
    '0' <= c <= '9' || 'a' <= c <= 'f' || 'A' <= c <= 'F'
}

/// Whether all the texts are groups.
pub open spec fn all_hex_groups(pieces: Seq<Text>) -> bool {
    forall|i: int| 0 <= i < pieces.len() ==> is_hex_group(#[trigger] pieces[i])
}

/// The values of groups.
pub open spec fn values(pieces: Seq<Text>) -> Seq<nat> {
    pieces.map_values(|t: Text| value(t, 16))
}

/// A group is read exactly if it is one to four hexadecimal digits, with leading zeros or without
/// and in either case, and then as their value.
pub proof fn law_groups_are_read(t: Text)
    ensures
        is_hex_group(t) <==> group(t) is Some,
        is_hex_group(t) ==> group(t) == Some(value(t, 16)) && value(t, 16) <= 0xffff,
{
    if is_hex_group(t) {
        assert forall|i: int| 0 <= i < t.len() implies digit_val(#[trigger] t[i]) < 16 by {
            assert(is_hex_digit(t[i]));
        }
        lemma_value_fits(t);
    }
    if group(t) is Some {
        assert forall|i: int| 0 <= i < t.len() implies is_hex_digit(#[trigger] t[i]) by {
            assert(digit_val(t[i]) < 16);
            lemma_hex_digit(t[i]);
        }
    }
}

proof fn lemma_hex_digit(c: char)
    requires
        digit_val(c) < 16,
    ensures
        is_hex_digit(c),
{
    let u = c as u32;
    assert('0' as u32 == 48 && '9' as u32 == 57);
    assert('a' as u32 == 97 && 'f' as u32 == 102);
    assert('A' as u32 == 65 && 'F' as u32 == 70);
    assert(48 <= u <= 57 || 97 <= u <= 102 || 65 <= u <= 70);
}

proof fn lemma_value_fits(t: Text)
    requires
        t.len() <= 4,
        forall|i: int| 0 <= i < t.len() ==> digit_val(#[trigger] t[i]) < 16,
    ensures
        t.len() == 0 ==> value(t, 16) == 0,
        t.len() <= 1 ==> value(t, 16) <= 0xf,
        t.len() <= 2 ==> value(t, 16) <= 0xff,
        t.len() <= 3 ==> value(t, 16) <= 0xfff,
        value(t, 16) <= 0xffff,
    decreases t.len(),
{
    if t.len() > 0 {
        let front = t.drop_last();
        assert forall|i: int| 0 <= i < front.len() implies digit_val(#[trigger] front[i]) < 16 by {
            assert(digit_val(t[i]) < 16);
        }
        lemma_value_fits(front);
        assert(digit_val(t[t.len() - 1]) < 16);
        assert(value(t, 16) == value(front, 16) * 16 + digit_val(t.last()));
    }
}

proof fn lemma_groups_of(pieces: Seq<Text>, quad_last: bool)
    requires
        all_hex_groups(pieces),
    ensures
        groups(pieces, quad_last) == Some(values(pieces)),
    decreases pieces.len(),
{
    if pieces.len() > 0 {
        let front = pieces.drop_last();
        assert forall|i: int| 0 <= i < front.len() implies is_hex_group(#[trigger] front[i]) by {
            assert(front[i] == pieces[i]);
        }
        lemma_groups_of(front, false);
        assert(is_hex_group(pieces[pieces.len() - 1]));
        law_groups_are_read(pieces.last());
        assert(values(front).push(value(pieces.last(), 16)) =~= values(pieces));
    } else {
        assert(values(pieces) =~= Seq::<nat>::empty());
    }
}

/// Whether a text is fit to stand between colons.
spec fn fit_piece(t: Text) -> bool {
    t.len() > 0 && !t.contains(':')
}

proof fn lemma_joined_pieces(pieces: Seq<Text>)
    requires
        pieces.len() > 0,
        forall|i: int| 0 <= i < pieces.len() ==> fit_piece(#[trigger] pieces[i]),
    ensures
        ({
            let t = join(pieces, seq![':']);
            &&& t.len() > 0
            &&& t[0] != ':'
            &&& t.last() != ':'
            &&& forall|i: int| !#[trigger] colons_at(t, i)
            &&& split(t, ':') == pieces
            &&& pieces.len() > 1 ==> t.contains(':')
        }),
    decreases pieces.len(),
{
    let t = join(pieces, seq![':']);
    let last = pieces.last();
    assert(fit_piece(pieces[pieces.len() - 1]));
    assert forall|i: int| 0 <= i < pieces.len() implies !(#[trigger] pieces[i]).contains(':') by {
        assert(fit_piece(pieces[i]));
    }
    lemma_split_join(pieces, ':');
    if pieces.len() == 1 {
        assert(t == pieces[0]);
        assert forall|i: int| 0 <= i < t.len() implies t[i] != ':' by {
            assert(t.contains(t[i]));
        }
    } else {
        let front = pieces.drop_last();
        assert forall|i: int| 0 <= i < front.len() implies fit_piece(#[trigger] front[i]) by {
            assert(front[i] == pieces[i]);
        }
        lemma_joined_pieces(front);
        let a = join(front, seq![':']);
        assert(t == a + seq![':'] + last);
        assert(t[a.len() as int] == ':');
        assert forall|i: int| 0 <= i < last.len() implies last[i] != ':' by {
            assert(last.contains(last[i]));
        }
        assert(t.last() == last.last());
        assert forall|i: int| !#[trigger] colons_at(t, i) by {
            if colons_at(t, i) {
                if i + 1 < a.len() {
                    assert(a[i] == t[i] && a[i + 1] == t[i + 1]);
                    assert(colons_at(a, i));
                } else if i + 1 == a.len() {
                    assert(t[i] == a.last());
                } else if i == a.len() {
                    assert(t[i + 1] == last[0]);
                } else {
                    assert(t[i] == last[i - a.len() - 1]);
                }
            }
        }
    }
}

proof fn lemma_hex_groups_fit(pieces: Seq<Text>)
    requires
        all_hex_groups(pieces),
    ensures
        forall|i: int| 0 <= i < pieces.len() ==> fit_piece(#[trigger] pieces[i]),
{
    assert forall|i: int| 0 <= i < pieces.len() implies fit_piece(#[trigger] pieces[i]) by {
        let t = pieces[i];
        assert(is_hex_group(t));
        if t.contains(':') {
            let k = choose|k: int| 0 <= k < t.len() && t[k] == ':';
            assert(is_hex_digit(t[k]));
        }
    }
}

proof fn lemma_no_quad_with_colon(t: Text)
    requires
        v4(t) is Some,
    ensures
        !t.contains(':'),
        t.len() > 0,
        group(t) is None,
{
    let p = split(t, '.');
    assert forall|i: int| 0 <= i < p.len() implies !(#[trigger] p[i]).contains(':') by {
        assert(octet(p[i]) is Some);
        let q = p[i];
        if q.contains(':') {
            let k = choose|k: int| 0 <= k < q.len() && q[k] == ':';
            assert(digit_val(q[k]) < 10);
        }
    }
    lemma_join_without(p, '.', ':');
    law_joining_undoes_splitting(t, '.');
    if t.len() == 0 || group(t) is Some {
        if t.contains('.') {
            let k = choose|k: int| 0 <= k < t.len() && t[k] == '.';
            assert(digit_val(t[k]) < 16);
        }
        lemma_split_whole(t, '.');
    }
}

/// Eight groups with colons between them are read as the address that they write, whatever leading
/// zeros and capitals they have.
pub proof fn law_eight_groups_are_an_address(pieces: Seq<Text>)
    requires
        pieces.len() == 8,
        all_hex_groups(pieces),
    ensures
        v6(join(pieces, seq![':'])) == Some(places(values(pieces), 0x10000)),
        ip(join(pieces, seq![':'])) == Some(Ip::V6(places(values(pieces), 0x10000) as u128)),
{
    let t = join(pieces, seq![':']);
    lemma_hex_groups_fit(pieces);
    lemma_joined_pieces(pieces);
    lemma_gap_is(t, t.len() as int);
    lemma_groups_of(pieces, true);
    if v4(t) is Some {
        lemma_no_quad_with_colon(t);
    }
}

/// Without two colons in a row, no other number of groups than eight is an address.
pub proof fn law_no_other_number_of_groups(pieces: Seq<Text>)
    requires
        0 < pieces.len(),
        pieces.len() != 8,
        all_hex_groups(pieces),
    ensures
        v6(join(pieces, seq![':'])) is None,
{
    let t = join(pieces, seq![':']);
    lemma_hex_groups_fit(pieces);
    lemma_joined_pieces(pieces);
    lemma_gap_is(t, t.len() as int);
    lemma_groups_of(pieces, true);
}

/// What stands between colons and is no group keeps a text from being an address, but for a dotted
/// quad at its end.
pub proof fn law_no_group_no_address(pieces: Seq<Text>, i: int)
    requires
        forall|k: int|
            0 <= k < pieces.len() ==> (#[trigger] pieces[k]).len() > 0 && !pieces[k].contains(':'),
        0 <= i < pieces.len(),
        !is_hex_group(pieces[i]),
        i == pieces.len() - 1 ==> v4(pieces[i]) is None,
    ensures
        v6(join(pieces, seq![':'])) is None,
{
    let t = join(pieces, seq![':']);
    assert forall|k: int| 0 <= k < pieces.len() implies fit_piece(#[trigger] pieces[k]) by {}
    lemma_joined_pieces(pieces);
    lemma_gap_is(t, t.len() as int);
    lemma_groups_with_none(pieces, true, i);
}

proof fn lemma_groups_with_none(pieces: Seq<Text>, quad_last: bool, i: int)
    requires
        0 <= i < pieces.len(),
        !is_hex_group(pieces[i]),
        i == pieces.len() - 1 && quad_last ==> v4(pieces[i]) is None,
    ensures
        groups(pieces, quad_last) is None,
    decreases pieces.len(),
{
    law_groups_are_read(pieces[i]);
    if i < pieces.len() - 1 {
        assert(pieces.drop_last()[i] == pieces[i]);
        lemma_groups_with_none(pieces.drop_last(), false, i);
    }
}

/// Two colons stand for as many zero groups as an address lacks, one at least; with eight groups
/// beside them there is no address.
pub proof fn law_two_colons_stand_for_zeros(head: Seq<Text>, tail: Seq<Text>)
    requires
        all_hex_groups(head),
        all_hex_groups(tail),
    ensures
        ({
            let t = join(head, seq![':']) + seq![':', ':'] + join(tail, seq![':']);
            let zeros = Seq::new((8 - head.len() - tail.len()) as nat, |i: int| 0nat);
            let all = values(head) + zeros + values(tail);
            &&& head.len() + tail.len() <= 7 ==> v6(t) == Some(places(all, 0x10000)) && ip(t)
                == Some(Ip::V6(places(all, 0x10000) as u128))
            &&& head.len() + tail.len() >= 8 ==> v6(t) is None && ip(t) is None
        }),
{
    let a = join(head, seq![':']);
    let b = join(tail, seq![':']);
    let t = a + seq![':', ':'] + b;
    let n = a.len() as int;
    lemma_hex_groups_fit(head);
    lemma_hex_groups_fit(tail);
    if head.len() > 0 {
        lemma_joined_pieces(head);
    }
    if tail.len() > 0 {
        lemma_joined_pieces(tail);
    }
    assert(t[n] == ':' && t[n + 1] == ':');
    assert(colons_at(t, n));
    assert forall|i: int| 0 <= i < n implies !#[trigger] colons_at(t, i) by {
        if colons_at(t, i) {
            if i + 1 < n {
                assert(a[i] == t[i] && a[i + 1] == t[i + 1]);
                assert(colons_at(a, i));
            } else {
                assert(t[i] == a.last());
            }
        }
    }
    lemma_gap_is(t, n);
    assert(t.take(n) =~= a);
    assert(t.skip(n + 2) =~= b);
    lemma_groups_of(head, false);
    lemma_groups_of(tail, true);
    if head.len() == 0 {
        assert(values(head) =~= Seq::<nat>::empty());
    }
    if tail.len() == 0 {
        assert(values(tail) =~= Seq::<nat>::empty());
    }
    assert(side(a, false) == Some(values(head)));
    assert(side(b, true) == Some(values(tail)));
    if v4(t) is Some {
        lemma_no_quad_with_colon(t);
        assert(t.contains(':'));
    }
}

/// A dotted quad may stand for the last two groups.
pub proof fn law_quad_stands_for_two_groups(front: Seq<Text>, q: Text)
    requires
        front.len() == 6,
        all_hex_groups(front),
        v4(q) is Some,
    ensures
        ({
            let n = v4(q)->0;
            v6(join(front.push(q), seq![':'])) == Some(
                places(values(front) + seq![n / 0x10000, n % 0x10000], 0x10000),
            )
        }),
{
    let pieces = front.push(q);
    let t = join(pieces, seq![':']);
    lemma_hex_groups_fit(front);
    lemma_no_quad_with_colon(q);
    assert forall|i: int| 0 <= i < pieces.len() implies fit_piece(#[trigger] pieces[i]) by {
        if i < 6 {
            assert(pieces[i] == front[i]);
        }
    }
    lemma_joined_pieces(pieces);
    lemma_gap_is(t, t.len() as int);
    lemma_groups_of(front, false);
    assert(pieces.drop_last() =~= front);
    assert((values(front) + seq![v4(q)->0 / 0x10000, v4(q)->0 % 0x10000]).len() == 8);
}

// ---------- Single addresses ----------

/// An address with a prefix is a single one exactly if the prefix is as long as the address; an IPv4
/// address may also stand alone.
pub proof fn law_single_addresses(a: Ip, prefix: u8)
    ensures
        ({
            let c = ip_text(a) + seq!['/'] + decimal(prefix as nat);
            &&& is_host_v4(c) <==> a is V4 && prefix == 32
            &&& is_host_v6(c) <==> a is V6 && prefix == 128
            &&& is_host_v4(ip_text(a)) <==> a is V4
            &&& !is_host_v6(ip_text(a))
            &&& bare_address(c) == ip_text(a)
            &&& bare_address(ip_text(a)) == ip_text(a)
        }),
{
    law_address_stands_alone(a);
    law_ip_reads_back(a);
    law_split_in_two(ip_text(a), '/', decimal(prefix as nat));
    law_number_is_read_in_full(prefix as nat, u8::MAX as nat);
}

/// An address with a prefix that is no number is no single address.
pub proof fn law_no_prefix_no_single_address(a: Ip, q: Text, n: nat)
    requires
        parse_unsigned(q, 255) is None,
        n > 255,
    ensures
        !is_host_v4(ip_text(a) + seq!['/'] + q) && !is_host_v6(ip_text(a) + seq!['/'] + q),
        !is_host_v4(ip_text(a) + seq!['/'] + decimal(n)) && !is_host_v6(
            ip_text(a) + seq!['/'] + decimal(n),
        ),
{
    law_address_stands_alone(a);
    law_split_in_two(ip_text(a), '/', q);
    law_split_in_two(ip_text(a), '/', decimal(n));
    law_number_is_read_in_full(n, 255);
}

/// What names no address is no single address, with whatever prefix.
pub proof fn law_no_address_no_single_address(t: Text, prefix: Text)
    requires
        !t.contains('/'),
        ip(t) is None,
    ensures
        !is_host_v4(t) && !is_host_v6(t),
        !is_host_v4(t + seq!['/'] + prefix) && !is_host_v6(t + seq!['/'] + prefix),
{
    law_split_in_two(t, '/', prefix);
}

/// The addresses of an interface are all those that the system lists under its name, in whatever
/// case, but for the IPv6 loopback address.
pub proof fn law_addresses_of_an_interface(
    list: Seq<(String, Ip)>,
    interface: Text,
    name: String,
    a: Ip,
)
    ensures
        ({
            let same = lowercase(name@) == lowercase(interface);
            let more = list.push((name, a));
            &&& v4_of(more, interface) == if same && a is V4 {
                v4_of(list, interface).push(ip_text(a))
            } else {
                v4_of(list, interface)
            }
            &&& v6_of(more, interface) == if same && a is V6 && a != Ip::V6(1) {
                v6_of(list, interface).push(ip_text(a))
            } else {
                v6_of(list, interface)
            }
        }),
        v4_of(Seq::empty(), interface) == Seq::<Text>::empty(),
        v6_of(Seq::empty(), interface) == Seq::<Text>::empty(),
{
    assert(list.push((name, a)).drop_last() =~= list);
}

/// The command lines that change the addresses of an interface.
pub proof fn law_address_calls(family: Text, interface: Text, address: Text)
    ensures
        delete_address(family, interface, address).program == "netsh"@,
        delete_address(family, interface, address).args == seq![
            "interface"@,
            family,
            "delete"@,
            "address"@,
            interface,
            address,
        ],
        add_v4_address(interface, address).program == "netsh"@,
        add_v4_address(interface, address).args == seq![
            "interface"@,
            "ip"@,
            "add"@,
            "address"@,
            interface,
            address,
            "255.255.255.255"@,
        ],
        add_v6_address(interface, address).program == "netsh"@,
        add_v6_address(interface, address).args == seq![
            "interface"@,
            "ipv6"@,
            "add"@,
            "address"@,
            interface,
            address,
        ],
{
}

// ---------- Local networks ----------

/// The private IPv4 addresses are those from 10.0.0.0 to 10.255.255.255, from 172.16.0.0 to
/// 172.31.255.255 and from 192.168.0.0 to 192.168.255.255; the unique local IPv6 addresses are those
/// that begin with the seven bits of `fc00`.
pub proof fn law_private_addresses(a: u32, b: u128)
    ensures
        private_v4(a) <==> 0x0a00_0000 <= a <= 0x0aff_ffff || 0xac10_0000 <= a <= 0xac1f_ffff
            || 0xc0a8_0000 <= a <= 0xc0a8_ffff,
        unique_local_v6(b) <==> 0xfc00_0000_0000_0000_0000_0000_0000_0000 <= b
            <= 0xfdff_ffff_ffff_ffff_ffff_ffff_ffff_ffff,
{
}

/// An address is in the 24-bit network of another one if their first three octets are the same, and
/// in the 64-bit network if the first halves are; an address is in its own network, and one of the
/// other family in none.
pub proof fn law_local_networks(n: u32, x: u32, m: u128, y: u128, p: u8)
    ensures
        in_net(Net { addr: Ip::V4(n), prefix: 24 }, Ip::V4(x)) <==> n / 0x100 == x / 0x100,
        in_net(Net { addr: Ip::V6(m), prefix: 64 }, Ip::V6(y)) <==> m / 0x1_0000_0000_0000_0000
            == y / 0x1_0000_0000_0000_0000,
        in_net(Net { addr: Ip::V4(n), prefix: 32 }, Ip::V4(x)) <==> n == x,
        in_net(Net { addr: Ip::V6(m), prefix: 128 }, Ip::V6(y)) <==> m == y,
        in_net(Net { addr: Ip::V4(n), prefix: p }, Ip::V4(n)),
        in_net(Net { addr: Ip::V6(m), prefix: p }, Ip::V6(m)),
        !in_net(Net { addr: Ip::V4(n), prefix: p }, Ip::V6(y)),
        !in_net(Net { addr: Ip::V6(m), prefix: p }, Ip::V4(x)),
{
    vstd::arithmetic::power2::lemma2_to64();
    assert(pow2(8) == 0x100);
    assert(pow2(64) == 0x1_0000_0000_0000_0000);
    assert(pow2(0) == 1);
    assert((32 - 32u8) as nat == 0 && (128 - 128u8) as nat == 0);
    assert(n as nat / 1 == n && x as nat / 1 == x && m as nat / 1 == m && y as nat / 1 == y);
}

/// An address is in one of several networks exactly if one of them has it, whichever; so is an
/// endpoint with such an address, and nothing that is no endpoint is.
pub proof fn law_one_of_several_networks(nets: Seq<Net>, a: Ip, i: int, ep: Text)
    ensures
        0 <= i < nets.len() && in_net(nets[i], a) ==> in_nets(nets, a),
        in_nets(nets, a) ==> exists|k: int| 0 <= k < nets.len() && in_net(#[trigger] nets[k], a),
        endpoint(ep) is Some ==> (endpoint_in_nets(ep, nets) <==> in_nets(nets, (endpoint(ep)->0).0)),
        endpoint(ep) is None ==> !endpoint_in_nets(ep, nets),
{
}

/// This node is in a local network for each address of the system that is private or unique local
/// and whose interface is not named like a tunnel, and in no other one.
pub proof fn law_networks_of_this_node(list: Seq<(String, Ip)>, name: String, a: Ip)
    ensures
        ({
            let tunnel = "wg"@.is_prefix_of(lowercase(name@));
            let more = list.push((name, a));
            match a {
                Ip::V4(n) => lans(more) == if !tunnel && private_v4(n) {
                    lans(list).push(Net { addr: a, prefix: 24 })
                } else {
                    lans(list)
                },
                Ip::V6(n) => lans(more) == if !tunnel && unique_local_v6(n) {
                    lans(list).push(Net { addr: a, prefix: 64 })
                } else {
                    lans(list)
                },
            }
        }),
        lans(Seq::empty()) == Seq::<Net>::empty(),
{
    assert(list.push((name, a)).drop_last() =~= list);
}

/// Each of the networks is reported as an endpoint: the address and the port, an IPv6 address in
/// brackets.
pub proof fn law_every_network_is_reported(nets: Seq<Net>, port: u16)
    ensures
        reported_endpoints(nets, port).len() == nets.len(),
        forall|i: int|
            0 <= i < nets.len() ==> #[trigger] reported_endpoints(nets, port)[i]
                == match nets[i].addr {
                Ip::V4(n) => ip_text(nets[i].addr) + ":"@ + decimal(port as nat),
                Ip::V6(n) => "["@ + ip_text(nets[i].addr) + "]:"@ + decimal(port as nat),
            },
{
}

/// Whether this is the first endpoint in one of the networks.
pub open spec fn first_nearby(endpoints: Seq<Text>, nets: Seq<Net>, i: int) -> bool {
    &&& 0 <= i < endpoints.len()
    &&& endpoint_in_nets(endpoints[i], nets)
    &&& forall|k: int| 0 <= k < i ==> !endpoint_in_nets(#[trigger] endpoints[k], nets)
}

/// The first endpoint in one of the networks is found, wherever it stands; none is found only where
/// none is in any.
pub proof fn law_nearby_endpoint_is_found(endpoints: Seq<Text>, nets: Seq<Net>, i: int)
    ensures
        first_nearby(endpoints, nets, i) ==> same_lan(endpoints, nets) == endpoint(endpoints[i]),
        same_lan(endpoints, nets) is None <==> forall|k: int|
            0 <= k < endpoints.len() ==> !endpoint_in_nets(#[trigger] endpoints[k], nets),
    decreases endpoints.len(),
{
    if endpoints.len() > 0 {
        let rest = endpoints.drop_first();
        law_nearby_endpoint_is_found(rest, nets, i - 1);
        let here = endpoint_in_nets(endpoints[0], nets);
        if first_nearby(endpoints, nets, i) && i > 0 {
            assert(rest[i - 1] == endpoints[i]);
            assert(!here);
            assert forall|k: int| 0 <= k < i - 1 implies !endpoint_in_nets(
                #[trigger] rest[k],
                nets,
            ) by {
                assert(rest[k] == endpoints[k + 1]);
            }
            assert(first_nearby(rest, nets, i - 1));
        }
        if forall|k: int|
            0 <= k < endpoints.len() ==> !endpoint_in_nets(#[trigger] endpoints[k], nets) {
            assert(!endpoint_in_nets(endpoints[0], nets));
            assert forall|k: int| 0 <= k < rest.len() implies !endpoint_in_nets(
                #[trigger] rest[k],
                nets,
            ) by {
                assert(rest[k] == endpoints[k + 1]);
            }
        }
        if same_lan(endpoints, nets) is None {
            assert forall|k: int| 0 <= k < endpoints.len() implies !endpoint_in_nets(
                #[trigger] endpoints[k],
                nets,
            ) by {
                if k > 0 {
                    assert(rest[k - 1] == endpoints[k]);
                }
            }
        }
    }
}

/// A peer that reported an endpoint in one of this node's networks is tried there, where this is
/// allowed and the peer was not tried within the last two minutes.
pub proof fn law_nearby_peer_is_tried(
    enabled: bool,
    attempts: Map<Text, u128>,
    nets: Seq<Net>,
    pubkey: Text,
    endpoints: Seq<Text>,
    now: u128,
    i: int,
)
    requires
        first_nearby(endpoints, nets, i),
    ensures
        ({
            let r = lan_candidate(enabled, attempts, nets, pubkey, endpoints, now);
            let waited = !attempts.contains_key(pubkey) || now >= attempts[pubkey]
                + 120_000_000_000;
            let (a, port) = endpoint(endpoints[i])->0;
            &&& enabled && waited ==> r == Some(ip_text(a) + ":"@ + decimal(port as nat))
            &&& !enabled || !waited ==> r is None
        }),
{
    law_nearby_endpoint_is_found(endpoints, nets, i);
}

/// A switch is on for `1` and for `true` in whatever case, and off for anything else.
pub proof fn law_switches(v: Text)
    ensures
        switch(Some(v)) <==> v == "1"@ || lowercase(v) == "true"@,
        !switch(None),
{
}

/// A peer that is switched is watched for fifteen seconds, with the endpoint that it had to go back
/// to.
pub proof fn law_switched_peer_is_watched(
    interface: Text,
    pubkey: Text,
    new_endpoint: Text,
    current: Option<Text>,
    now: u128,
)
    ensures
        switch_task(interface, pubkey, new_endpoint, current, now) == (TaskView {
            interface,
            pubkey,
            new_endpoint,
            fallback: current,
            start: now,
            timeout: 15_000_000_000,
        }),
{
}

/// A round asks each watched peer for its endpoint, in turn; one that is where it was switched to is
/// asked for a handshake within twenty seconds. One that is silent is watched on until its time is
/// up, and after that has no more time: it goes back if it can.
pub proof fn law_watched_peers_have_their_time(v: LanView, now: u128, told: Told)
    requires
        lan_wf(v),
        v.stage !is Over,
    ensures
        ({
            let task = v.todo[0];
            let rest = v.todo.skip(1);
            match v.stage {
                LanStage::Asking => {
                    &&& lan_ask(v) == Ask::Endpoint { pubkey: task.pubkey }
                    &&& told == Told::Text(Some(task.new_endpoint)) ==> lan_ask(
                        lan_step(v, told, now),
                    ) == Ask::Recent { pubkey: task.pubkey, max_age: 20 }
                },
                LanStage::Confirming => told != Told::Flag(true) ==> {
                    let up = now >= task.start + task.timeout;
                    &&& task.timeout > 0 && !up ==> lan_step(v, told, now) == lan_from(
                        rest,
                        v.kept.push(task),
                    )
                    &&& up && task.fallback is None ==> lan_step(v, told, now) == lan_from(
                        rest,
                        v.kept,
                    )
                    &&& up && task.fallback is Some ==> lan_ask(lan_step(v, told, now))
                        == Ask::SetEndpoint { pubkey: task.pubkey, endpoint: task.fallback->0 }
                },
                _ => lan_step(v, told, now) == lan_from(rest, v.kept),
            }
        }),
        lan_from(v.todo.skip(1), v.kept).stage is Over <==> v.todo.len() == 1,
{
}

} // verus!
