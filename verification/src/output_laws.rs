//! What holds of reading the output of the command line tool: what was written is read in full, and
//! nothing else is.
use vstd::prelude::*;

use crate::number::{decimal, digit_val, is_numeral, law_numeral_reads_back, parse_unsigned, value};
use crate::text::{
    distinct, has_part, is_ws, join, lemma_distinct, lemma_split_join, lemma_trim_plain, lines,
    nonempty, split, strict_utf8, trim, trims, words, Text,
};
use crate::text_laws::{is_word, law_trim, law_words};
use crate::wg::{
    allowed_ips_in, endpoint_in, first_with, handshake_in, handshake_keys, handshake_time,
    handshakes_in, keys_with_psk, listen_port, recent,
};
use crate::wg_state::{dump_port, peer_lines, peers_of};

verus! {

// ---------- Numbers ----------

/// A number that was written is read back if it is within the limit, and refused otherwise. A plus
/// sign before it changes nothing.
pub proof fn law_number_is_read_in_full(n: nat, max: nat)
    ensures
        n <= max ==> parse_unsigned(decimal(n), max) == Some(n),
        n > max ==> parse_unsigned(decimal(n), max) is None,
        parse_unsigned(seq!['+'] + decimal(n), max) == parse_unsigned(decimal(n), max),
{
    law_numeral_reads_back(n, 10);
    let t = decimal(n);
    assert(digit_val(t[0]) < 10);
    assert(digit_val('+') == 99);
    let u = seq!['+'] + t;
    assert(u[0] == '+');
    assert(u.skip(1) =~= t);
}

proof fn lemma_digit(c: char)
    requires
        digit_val(c) < 10,
    ensures
        '0' <= c <= '9',
{
    let u = c as nat;
    assert(48 <= u <= 57);
}

/// What is read as a number is a row of digits, after a plus sign or not, and within the limit.
pub proof fn law_only_digits_are_read(t: Text, max: nat)
    requires
        parse_unsigned(t, max) is Some,
    ensures
        t.len() > 0,
        t[0] == '+' || '0' <= t[0] <= '9',
        t[0] == '+' ==> t.len() > 1,
        forall|i: int| 1 <= i < t.len() ==> '0' <= #[trigger] t[i] <= '9',
        parse_unsigned(t, max)->0 <= max,
{
    let k: int = if t.len() > 0 && t[0] == '+' {
        1
    } else {
        0
    };
    let u = if k == 1 {
        t.skip(1)
    } else {
        t
    };
    assert(is_numeral(u, 10));
    if k == 0 {
        assert(digit_val(t[0]) < 10);
        lemma_digit(t[0]);
    }
    assert forall|i: int| 1 <= i < t.len() implies '0' <= #[trigger] t[i] <= '9' by {
        assert(t[i] == u[i - k]);
        assert(digit_val(u[i - k]) < 10);
        lemma_digit(t[i]);
    }
}

/// A digit more makes ten times the number and the digit.
pub proof fn law_digits_count_by_their_place(t: Text, c: char, max: nat)
    requires
        parse_unsigned(t, max) is Some,
        '0' <= c <= '9',
    ensures
        ({
            let n = parse_unsigned(t, max)->0 * 10 + (c as nat - '0' as nat);
            if n <= max {
                parse_unsigned(t.push(c), max) == Some(n as nat)
            } else {
                parse_unsigned(t.push(c), max) is None
            }
        }),
{
    let k: int = if t[0] == '+' {
        1
    } else {
        0
    };
    let u = t.skip(k);
    assert(t.skip(0) =~= t);
    assert(u.len() > 0);
    let w = t.push(c);
    assert(w.skip(k) =~= u.push(c));
    assert(w.skip(0) =~= w);
    assert(w[0] == t[0]);
    assert(u.push(c).drop_last() =~= u);
    assert(value(u.push(c), 10) == value(u, 10) * 10 + digit_val(c));
    assert(is_numeral(u, 10));
    assert forall|i: int| 0 <= i < u.push(c).len() implies digit_val(#[trigger] u.push(c)[i])
        < 10 by {
        if i < u.len() {
            assert(u.push(c)[i] == u[i]);
            assert(digit_val(u[i]) < 10);
        }
    }
}

// ---------- The dump ----------

/// The line that the dump of the interface has for a peer.
pub open spec fn dump_line(
    pubkey: Text,
    psk: Text,
    endpoint: Text,
    ips: Text,
    handshake: u64,
    rx: u64,
    tx: u64,
    keepalive: Text,
) -> Text {
    join(
        seq![
            pubkey,
            psk,
            endpoint,
            ips,
            decimal(handshake as nat),
            decimal(rx as nat),
            decimal(tx as nat),
            keepalive,
        ],
        seq!['\t'],
    )
}

/// A written number holds digits only.
proof fn lemma_decimal_has(n: nat, c: char)
    requires
        c == '\t' || c == '+' || c == ',' || c == ' ' || c == '.' || c == ':' || c == '\n',
    ensures
        !decimal(n).contains(c),
        decimal(n).len() > 0,
{
    law_numeral_reads_back(n, 10);
    let t = decimal(n);
    if t.contains(c) {
        let i = choose|i: int| 0 <= i < t.len() && t[i] == c;
        assert(digit_val(t[i]) < 10);
    }
}

/// Every field of the dump's line of a peer is read back, whatever the lines before it: the
/// endpoint, each of the addresses, the time of the handshake and the two counters in full.
pub proof fn law_dump_line_reads_back(
    before: Seq<Text>,
    pubkey: Text,
    psk: Text,
    endpoint: Text,
    ips: Seq<Text>,
    handshake: u64,
    rx: u64,
    tx: u64,
    keepalive: Text,
)
    requires
        !pubkey.contains('\t'),
        !psk.contains('\t'),
        !endpoint.contains('\t'),
        !keepalive.contains('\t'),
        endpoint.len() > 0,
        endpoint != "(none)"@,
        ips.len() > 0,
        forall|i: int|
            0 <= i < ips.len() ==> (#[trigger] ips[i]).len() > 0 && !ips[i].contains(',')
                && !ips[i].contains('\t'),
    ensures
        ({
            let line = dump_line(
                pubkey,
                psk,
                endpoint,
                join(ips, seq![',']),
                handshake,
                rx,
                tx,
                keepalive,
            );
            let m = peers_of(before.push(line));
            &&& m.contains_key(pubkey)
            &&& m[pubkey].endpoint == Some(endpoint)
            &&& m[pubkey].allowed_ips == ips
            &&& m[pubkey].latest_handshake == (if handshake == 0 {
                None::<u64>
            } else {
                Some(handshake)
            })
            &&& m[pubkey].transfer_rx == rx
            &&& m[pubkey].transfer_tx == tx
        }),
{
    let all = join(ips, seq![',']);
    lemma_join_without(ips, ',', '\t');
    lemma_decimal_has(handshake as nat, '\t');
    lemma_decimal_has(rx as nat, '\t');
    lemma_decimal_has(tx as nat, '\t');
    let fields = seq![
        pubkey,
        psk,
        endpoint,
        all,
        decimal(handshake as nat),
        decimal(rx as nat),
        decimal(tx as nat),
        keepalive,
    ];
    lemma_split_join(fields, '\t');
    lemma_split_join(ips, ',');
    lemma_nonempty_all(ips);
    law_number_is_read_in_full(rx as nat, u64::MAX as nat);
    law_number_is_read_in_full(tx as nat, u64::MAX as nat);
    law_handshake_time_reads_back(handshake);
    let line = dump_line(pubkey, psk, endpoint, all, handshake, rx, tx, keepalive);
    assert(before.push(line).drop_last() =~= before);
    assert(split(line, '\t') == fields);
}

/// The counters of a peer are read in full, from whatever line of eight fields or more: its sixth
/// field tells the bytes received, its seventh the bytes sent.
pub proof fn law_counters_are_read_in_full(before: Seq<Text>, line: Text, n: u64)
    requires
        split(line, '\t').len() >= 8,
    ensures
        peers_of(before.push(line)).contains_key(split(line, '\t')[0]),
        split(line, '\t')[5] == decimal(n as nat) ==> peers_of(before.push(line))[split(
            line,
            '\t',
        )[0]].transfer_rx == n,
        split(line, '\t')[6] == decimal(n as nat) ==> peers_of(before.push(line))[split(
            line,
            '\t',
        )[0]].transfer_tx == n,
{
    law_number_is_read_in_full(n as nat, u64::MAX as nat);
    assert(before.push(line).drop_last() =~= before);
}

/// The word `(none)` and nothing at all stand for no endpoint, and a field that holds no number
/// counts as zero.
pub proof fn law_dump_without_values(before: Seq<Text>, line: Text)
    requires
        split(line, '\t').len() >= 8,
    ensures
        ({
            let f = split(line, '\t');
            let p = peers_of(before.push(line))[f[0]];
            &&& p.endpoint is None <==> f[2] == "(none)"@ || f[2].len() == 0
            &&& p.endpoint is Some ==> p.endpoint == Some(f[2])
            &&& parse_unsigned(f[5], u64::MAX as nat) is None ==> p.transfer_rx == 0
            &&& parse_unsigned(f[6], u64::MAX as nat) is None ==> p.transfer_tx == 0
            &&& parse_unsigned(f[4], u64::MAX as nat) is None ==> p.latest_handshake is None
        }),
{
    assert(before.push(line).drop_last() =~= before);
}

/// Each peer is described by the last line of eight fields or more that begins with its key, and by
/// no other; a key without such a line is no peer.
pub proof fn law_last_dump_line_counts(list: Seq<Text>, pubkey: Text)
    ensures
        peers_of(list).contains_key(pubkey) <==> exists|i: int|
            0 <= i < list.len() && tells_peer(#[trigger] list[i], pubkey),
        forall|i: int|
            0 <= i < list.len() && tells_peer(#[trigger] list[i], pubkey) && (forall|j: int|
                i < j < list.len() ==> !tells_peer(#[trigger] list[j], pubkey))
                ==> peers_of(list)[pubkey] == peers_of(seq![list[i]])[pubkey],
    decreases list.len(),
{
    if list.len() > 0 {
        let front = list.drop_last();
        let line = list.last();
        law_last_dump_line_counts(front, pubkey);
        assert(seq![line].drop_last() =~= Seq::<Text>::empty());
        assert forall|i: int|
            0 <= i < list.len() && tells_peer(#[trigger] list[i], pubkey) && (forall|j: int|
                i < j < list.len() ==> !tells_peer(
                    #[trigger] list[j],
                    pubkey,
                )) implies peers_of(list)[pubkey] == peers_of(seq![list[i]])[pubkey] by {
            if i < front.len() {
                assert(front[i] == list[i]);
                assert(!tells_peer(list[list.len() - 1], pubkey));
                assert forall|j: int| i < j < front.len() implies !tells_peer(
                    #[trigger] front[j],
                    pubkey,
                ) by {
                    assert(front[j] == list[j]);
                }
            }
        }
        if peers_of(list).contains_key(pubkey) {
            if tells_peer(line, pubkey) {
                assert(tells_peer(list[list.len() - 1], pubkey));
            } else {
                let i = choose|i: int| 0 <= i < front.len() && tells_peer(#[trigger] front[i], pubkey);
                assert(tells_peer(list[i], pubkey));
            }
        }
        if exists|i: int| 0 <= i < list.len() && tells_peer(#[trigger] list[i], pubkey) {
            let i = choose|i: int| 0 <= i < list.len() && tells_peer(#[trigger] list[i], pubkey);
            if i < front.len() {
                assert(tells_peer(front[i], pubkey));
            }
        }
    }
}

/// Whether a line of the dump describes the peer.
pub open spec fn tells_peer(line: Text, pubkey: Text) -> bool {
    split(line, '\t').len() >= 8 && split(line, '\t')[0] == pubkey
}

/// The lines that describe peers are all those after the first that hold anything but white space.
pub proof fn law_every_dump_line_counts(list: Seq<Text>, i: int)
    requires
        1 <= i < list.len(),
        trim(list[i]).len() > 0,
    ensures
        peer_lines(list).contains(trim(list[i])),
{
    let rest = list.skip(1);
    assert(trims(rest)[i - 1] == trim(list[i]));
    law_nonempty_holds(trims(rest), trim(list[i]));
    assert(trims(rest).contains(trim(list[i])));
}

/// The listen port that the dump's first line tells in its third field is read, up to the greatest
/// port; what is no port there stands for the default, and where there is no such field, the port
/// is zero.
pub proof fn law_dump_port_reads_back(a: Text, b: Text, p: u16, rest: Seq<Text>, after: Seq<Text>)
    requires
        !a.contains('\t'),
        !b.contains('\t'),
        forall|i: int| 0 <= i < rest.len() ==> !(#[trigger] rest[i]).contains('\t'),
    ensures
        dump_port(seq![join(seq![a, b, decimal(p as nat)] + rest, seq!['\t'])] + after) == p,
        dump_port(seq![join(seq![a, b], seq!['\t'])] + after) == 0,
        dump_port(Seq::empty()) == 0,
{
    let fields = seq![a, b, decimal(p as nat)] + rest;
    lemma_decimal_has(p as nat, '\t');
    assert forall|i: int| 0 <= i < fields.len() implies !(#[trigger] fields[i]).contains('\t') by {
        if i >= 3 {
            assert(fields[i] == rest[i - 3]);
        }
    }
    lemma_split_join(fields, '\t');
    lemma_split_join(seq![a, b], '\t');
    law_number_is_read_in_full(p as nat, u16::MAX as nat);
    let l = seq![join(fields, seq!['\t'])] + after;
    assert(l[0] == join(fields, seq!['\t']));
    let k = seq![join(seq![a, b], seq!['\t'])] + after;
    assert(k[0] == join(seq![a, b], seq!['\t']));
}

/// The default port stands for what is no port in the dump's first line.
pub proof fn law_dump_port_default(list: Seq<Text>)
    requires
        list.len() > 0,
        split(list[0], '\t').len() >= 3,
        parse_unsigned(split(list[0], '\t')[2], u16::MAX as nat) is None,
    ensures
        dump_port(list) == 52822,
{
}

/// A joined text holds no character that is neither in the separator nor in a piece.
pub proof fn lemma_join_without(list: Seq<Text>, sep: char, c: char)
    requires
        sep != c,
        forall|i: int| 0 <= i < list.len() ==> !(#[trigger] list[i]).contains(c),
    ensures
        !join(list, seq![sep]).contains(c),
    decreases list.len(),
{
    if list.len() > 1 {
        let front = list.drop_last();
        assert forall|i: int| 0 <= i < front.len() implies !(#[trigger] front[i]).contains(c) by {
            assert(front[i] == list[i]);
        }
        lemma_join_without(front, sep, c);
        let t = join(list, seq![sep]);
        if t.contains(c) {
            let k = choose|k: int| 0 <= k < t.len() && t[k] == c;
            let a = join(front, seq![sep]);
            if k < a.len() {
                assert(a[k] == c);
            } else if k > a.len() {
                assert(list.last()[k - a.len() - 1] == c);
                assert(!list[list.len() - 1].contains(c));
            }
        }
    } else if list.len() == 1 {
        assert(!list[0].contains(c));
    }
}

proof fn lemma_nonempty_all(list: Seq<Text>)
    requires
        forall|i: int| 0 <= i < list.len() ==> (#[trigger] list[i]).len() > 0,
    ensures
        nonempty(list) == list,
    decreases list.len(),
{
    if list.len() > 0 {
        let front = list.drop_last();
        assert forall|i: int| 0 <= i < front.len() implies (#[trigger] front[i]).len() > 0 by {
            assert(front[i] == list[i]);
        }
        lemma_nonempty_all(front);
        assert(list[list.len() - 1].len() > 0);
        assert(front.push(list.last()) =~= list);
    }
}

/// Cleaning a list keeps just what holds anything.
pub proof fn law_nonempty_holds(list: Seq<Text>, x: Text)
    ensures
        nonempty(list).contains(x) <==> list.contains(x) && x.len() > 0,
    decreases list.len(),
{
    if list.len() > 0 {
        let front = list.drop_last();
        law_nonempty_holds(front, x);
        lemma_contains_last(list, x);
        let d = nonempty(list);
        if list.last().len() > 0 {
            assert(d.drop_last() =~= nonempty(front));
            lemma_contains_last(d, x);
        }
    }
}

/// What is in a list stands before its end or at it.
pub proof fn lemma_contains_last(list: Seq<Text>, x: Text)
    requires
        list.len() > 0,
    ensures
        list.contains(x) <==> list.drop_last().contains(x) || list.last() == x,
{
    if list.contains(x) {
        let i = choose|i: int| 0 <= i < list.len() && list[i] == x;
        if i < list.len() - 1 {
            assert(list.drop_last()[i] == x);
        }
    }
    if list.drop_last().contains(x) {
        let i = choose|i: int| 0 <= i < list.drop_last().len() && list.drop_last()[i] == x;
        assert(list[i] == x);
    }
    assert(list[list.len() - 1] == list.last());
}

// ---------- One peer ----------

/// Whether this is the first line that holds the text.
pub open spec fn first_line_with(list: Seq<Text>, i: int, part: Text) -> bool {
    &&& 0 <= i < list.len()
    &&& has_part(list[i], part)
    &&& forall|j: int| 0 <= j < i ==> !has_part(#[trigger] list[j], part)
}

proof fn lemma_first_with(list: Seq<Text>, i: int, part: Text)
    requires
        first_line_with(list, i, part),
    ensures
        first_with(list, part) == Some(list[i]),
    decreases i,
{
    if i > 0 {
        let rest = list.drop_first();
        assert(rest[i - 1] == list[i]);
        assert(!has_part(list[0], part));
        assert forall|j: int| 0 <= j < i - 1 implies !has_part(#[trigger] rest[j], part) by {
            assert(rest[j] == list[j + 1]);
        }
        lemma_first_with(rest, i - 1, part);
    }
}

proof fn lemma_none_with(list: Seq<Text>, part: Text)
    requires
        forall|j: int| 0 <= j < list.len() ==> !has_part(#[trigger] list[j], part),
    ensures
        first_with(list, part) is None,
    decreases list.len(),
{
    if list.len() > 0 {
        let rest = list.drop_first();
        assert(!has_part(list[0], part));
        assert forall|j: int| 0 <= j < rest.len() implies !has_part(#[trigger] rest[j], part) by {
            assert(rest[j] == list[j + 1]);
        }
        lemma_none_with(rest, part);
    }
}

proof fn lemma_endpoint_word()
    ensures
        is_word("endpoint:"@),
{
    reveal_strlit("endpoint:");
}

/// The endpoint that the first line with an endpoint tells is the one that is read, with whatever
/// white space before the two words.
pub proof fn law_endpoint_is_read(text: Text, i: int, blank: Text, endpoint: Text)
    requires
        first_line_with(lines(text), i, "endpoint:"@),
        forall|k: int| 0 <= k < blank.len() ==> is_ws(#[trigger] blank[k]),
        is_word(endpoint),
        lines(text)[i] == blank + "endpoint:"@ + seq![' '] + endpoint,
    ensures
        endpoint_in(text) == Some(endpoint),
{
    lemma_first_with(lines(text), i, "endpoint:"@);
    let w = "endpoint:"@;
    lemma_endpoint_word();
    assert(is_ws(' '));
    law_words(w, ' ', endpoint);
    law_words(endpoint, ' ', endpoint);
    lemma_words_after_blank(blank, w + seq![' '] + endpoint);
    assert(lines(text)[i] =~= blank + (w + seq![' '] + endpoint));
}

proof fn lemma_words_after_blank(blank: Text, t: Text)
    requires
        forall|k: int| 0 <= k < blank.len() ==> is_ws(#[trigger] blank[k]),
    ensures
        words(blank + t) == words(t),
    decreases blank.len(),
{
    if blank.len() > 0 {
        let rest = blank.drop_first();
        assert forall|k: int| 0 <= k < rest.len() implies is_ws(#[trigger] rest[k]) by {
            assert(rest[k] == blank[k + 1]);
        }
        lemma_words_after_blank(rest, t);
        assert(is_ws(blank[0]));
        assert((blank + t)[0] == blank[0]);
        assert((blank + t).drop_first() =~= rest + t);
    } else {
        assert(blank + t =~= t);
    }
}

/// No endpoint is read where no line tells one, and no addresses are.
pub proof fn law_nothing_told_nothing_read(text: Text)
    ensures
        (forall|j: int|
            0 <= j < lines(text).len() ==> !has_part(#[trigger] lines(text)[j], "endpoint:"@))
            ==> endpoint_in(text) is None,
        (forall|j: int|
            0 <= j < lines(text).len() ==> !has_part(#[trigger] lines(text)[j], "allowed ips:"@))
            ==> allowed_ips_in(text) == Seq::<Text>::empty(),
{
    if forall|j: int|
        0 <= j < lines(text).len() ==> !has_part(#[trigger] lines(text)[j], "endpoint:"@) {
        lemma_none_with(lines(text), "endpoint:"@);
    }
    if forall|j: int|
        0 <= j < lines(text).len() ==> !has_part(#[trigger] lines(text)[j], "allowed ips:"@) {
        lemma_none_with(lines(text), "allowed ips:"@);
    }
}

/// The IPv4 addresses that the first line with allowed addresses tells are read, all of them and in
/// their order.
pub proof fn law_allowed_ips_are_read(text: Text, i: int, blank: Text, ips: Seq<Text>)
    requires
        first_line_with(lines(text), i, "allowed ips:"@),
        !blank.contains(':'),
        ips.len() > 0,
        forall|k: int|
            0 <= k < ips.len() ==> is_word(#[trigger] ips[k]) && !ips[k].contains(',')
                && !ips[k].contains(':'),
        lines(text)[i] == blank + "allowed ips:"@ + seq![' '] + join(ips, ", "@),
    ensures
        allowed_ips_in(text) == ips,
{
    lemma_first_with(lines(text), i, "allowed ips:"@);
    reveal_strlit("allowed ips:");
    reveal_strlit(", ");
    let head = blank + "allowed ips:"@.drop_last();
    let body = seq![' '] + join(ips, ", "@);
    assert(!head.contains(':')) by {
        if head.contains(':') {
            let k = choose|k: int| 0 <= k < head.len() && head[k] == ':';
            if k < blank.len() {
                assert(blank[k] == ':');
            }
        }
    }
    let spaced = Seq::new(
        ips.len(),
        |k: int|
            if k == 0 {
                ips[k]
            } else {
                seq![' '] + ips[k]
            },
    );
    lemma_spaced(ips, spaced);
    assert forall|k: int| 0 <= k < spaced.len() implies !(#[trigger] spaced[k]).contains(':')
        && !spaced[k].contains(',') by {
        assert(is_word(ips[k]));
        lemma_space_before(ips[k], ':');
        lemma_space_before(ips[k], ',');
    }
    lemma_join_without(spaced, ',', ':');
    lemma_split_join(spaced, ',');
    let all = join(spaced, seq![',']);
    assert(all == join(ips, ", "@));
    lemma_space_before(all, ':');
    assert(lines(text)[i] =~= join(seq![head, body], seq![':'])) by {
        let two = seq![head, body];
        assert(two.drop_last() =~= seq![head]);
        assert(join(seq![head], seq![':']) == head);
        assert(join(two, seq![':']) == join(two.drop_last(), seq![':']) + seq![':'] + two.last());
        assert("allowed ips:"@ =~= "allowed ips:"@.drop_last() + seq![':']);
    }
    lemma_split_join(seq![head, body], ':');
    assert(is_word(ips[0]));
    assert(is_word(ips[ips.len() - 1]));
    lemma_join_ends(spaced, ips);
    law_trim(seq![' '], all, Seq::empty());
    assert(seq![' '] + all + Seq::<char>::empty() =~= body);
    assert forall|k: int| 0 <= k < ips.len() implies #[trigger] trim(spaced[k]) == ips[k] by {
        assert(is_word(ips[k]));
        law_trim(seq![' '], ips[k], Seq::empty());
        lemma_trim_plain(ips[k]);
        assert(seq![' '] + ips[k] + Seq::<char>::empty() =~= seq![' '] + ips[k]);
    }
    assert(trims(spaced) =~= ips);
    assert forall|k: int| 0 <= k < ips.len() implies (#[trigger] ips[k]).len() > 0 by {
        assert(is_word(ips[k]));
    }
    lemma_nonempty_all(ips);
}

/// Of the line with the allowed addresses, what follows the second colon does not matter.
pub proof fn law_addresses_end_at_the_second_colon(
    one: Text,
    other: Text,
    a: Text,
    b: Text,
    c: Text,
)
    requires
        !a.contains(':'),
        !b.contains(':'),
        first_line_with(lines(one), 0, "allowed ips:"@),
        first_line_with(lines(other), 0, "allowed ips:"@),
        lines(one)[0] == a + seq![':'] + b,
        lines(other)[0] == a + seq![':'] + b + seq![':'] + c,
    ensures
        allowed_ips_in(one) == allowed_ips_in(other),
{
    lemma_first_with(lines(one), 0, "allowed ips:"@);
    lemma_first_with(lines(other), 0, "allowed ips:"@);
    let x = a + seq![':'] + b;
    let y = x + seq![':'] + c;
    lemma_second_piece(a, b);
    lemma_second_piece(a, b + seq![':'] + c);
    assert(y =~= a + seq![':'] + (b + seq![':'] + c));
    lemma_first_piece(b, c);
    lemma_find_whole(b);
}

proof fn lemma_find_whole(t: Text)
    requires
        !t.contains(':'),
    ensures
        split(t, ':') == seq![t],
{
    crate::text::lemma_split_whole(t, ':');
}

proof fn lemma_first_piece(a: Text, rest: Text)
    requires
        !a.contains(':'),
    ensures
        split(a + seq![':'] + rest, ':') == seq![a] + split(rest, ':'),
        split(rest, ':').len() > 0,
{
    let t = a + seq![':'] + rest;
    let n = a.len() as int;
    assert forall|i: int| 0 <= i < n implies t[i] != ':' by {
        assert(t[i] == a[i]);
    }
    crate::text::lemma_find_is(t, ':', n);
    assert(t.take(n) =~= a);
    assert(t.skip(n + 1) =~= rest);
}

proof fn lemma_second_piece(a: Text, rest: Text)
    requires
        !a.contains(':'),
    ensures
        split(a + seq![':'] + rest, ':').len() >= 2,
        split(a + seq![':'] + rest, ':')[1] == split(rest, ':')[0],
{
    lemma_first_piece(a, rest);
}

proof fn lemma_space_before(t: Text, c: char)
    requires
        c != ' ',
        !t.contains(c),
    ensures
        !(seq![' '] + t).contains(c),
{
    let u = seq![' '] + t;
    if u.contains(c) {
        let k = choose|k: int| 0 <= k < u.len() && u[k] == c;
        if k > 0 {
            assert(t[k - 1] == c);
        }
    }
}

/// A list joined with commas and spaces is one joined with commas, with spaces before the texts.
proof fn lemma_spaced(ips: Seq<Text>, spaced: Seq<Text>)
    requires
        ips.len() > 0,
        spaced.len() == ips.len(),
        spaced[0] == ips[0],
        forall|k: int| 1 <= k < ips.len() ==> #[trigger] spaced[k] == seq![' '] + ips[k],
    ensures
        join(spaced, seq![',']) == join(ips, ", "@),
    decreases ips.len(),
{
    reveal_strlit(", ");
    if ips.len() > 1 {
        let a = ips.drop_last();
        let b = spaced.drop_last();
        assert forall|k: int| 1 <= k < a.len() implies #[trigger] b[k] == seq![' '] + a[k] by {
            assert(b[k] == spaced[k]);
        }
        lemma_spaced(a, b);
        assert(spaced[ips.len() - 1] == seq![' '] + ips[ips.len() - 1]);
        assert(join(spaced, seq![',']) =~= join(ips, ", "@));
    }
}

/// The first and the last character of a joined list are those of its first and last text.
proof fn lemma_join_ends(spaced: Seq<Text>, ips: Seq<Text>)
    requires
        ips.len() > 0,
        spaced.len() == ips.len(),
        spaced[0] == ips[0],
        forall|k: int| 1 <= k < ips.len() ==> #[trigger] spaced[k] == seq![' '] + ips[k],
        forall|k: int| 0 <= k < ips.len() ==> (#[trigger] ips[k]).len() > 0,
    ensures
        join(spaced, seq![',']).len() > 0,
        join(spaced, seq![','])[0] == ips[0][0],
        join(spaced, seq![',']).last() == ips.last().last(),
    decreases ips.len(),
{
    assert(ips[0].len() > 0);
    if ips.len() > 1 {
        let a = ips.drop_last();
        let b = spaced.drop_last();
        assert forall|k: int| 1 <= k < a.len() implies #[trigger] b[k] == seq![' '] + a[k] by {
            assert(b[k] == spaced[k]);
        }
        assert forall|k: int| 0 <= k < a.len() implies (#[trigger] a[k]).len() > 0 by {
            assert(a[k] == ips[k]);
        }
        lemma_join_ends(b, a);
        assert(spaced[ips.len() - 1] == seq![' '] + ips[ips.len() - 1]);
        assert(ips[ips.len() - 1].len() > 0);
        assert(join(spaced, seq![',']) == join(b, seq![',']) + seq![','] + spaced.last());
    }
}

// ---------- The listen port ----------

/// The port that is set by hand counts, else the one that the tool tells, each up to the greatest
/// port, else the default.
pub proof fn law_listen_port(env: Option<Text>, output: Option<Seq<u8>>, p: u16)
    ensures
        env == Some(decimal(p as nat)) ==> listen_port(env, output) == p,
        (env is None || parse_unsigned(env->0, 65535) is None) ==> {
            &&& output is Some && strict_utf8(output->0) is Some && trim(
                strict_utf8(output->0)->0,
            ) == decimal(p as nat) ==> listen_port(env, output) == p
            &&& (output is None || strict_utf8(output->0) is None || parse_unsigned(
                trim(strict_utf8(output->0)->0),
                65535,
            ) is None) ==> listen_port(env, output) == 52822
        },
{
    law_number_is_read_in_full(p as nat, u16::MAX as nat);
}

// ---------- Handshakes ----------

/// The time of a handshake is read in full; zero stands for none.
pub proof fn law_handshake_time_reads_back(secs: u64)
    ensures
        secs > 0 ==> handshake_time(decimal(secs as nat)) == Some(secs),
        handshake_time(decimal(0)) is None,
{
    law_number_is_read_in_full(secs as nat, u64::MAX as nat);
    reveal_strlit("0");
    assert(decimal(0) =~= "0"@);
    if secs > 0 {
        law_numeral_reads_back(secs as nat, 10);
        assert("0"@.drop_last() =~= Seq::<char>::empty());
        assert(value("0"@, 10) == value("0"@.drop_last(), 10) * 10 + digit_val('0'));
    }
}

/// The first line that begins with a peer's key and has a second word tells its handshake; the
/// lines before it and after it do not matter.
pub proof fn law_first_handshake_counts(list: Seq<Text>, pubkey: Text, i: int, secs: u64)
    requires
        0 <= i < list.len(),
        words(list[i]).len() >= 2,
        words(list[i])[0] == pubkey,
        words(list[i])[1] == decimal(secs as nat),
        forall|j: int|
            0 <= j < i ==> words(#[trigger] list[j]).len() < 2 || words(list[j])[0] != pubkey,
    ensures
        handshake_in(list, pubkey) == Some(secs as nat),
    decreases i,
{
    law_number_is_read_in_full(secs as nat, u64::MAX as nat);
    if i > 0 {
        let rest = list.drop_first();
        assert(rest[i - 1] == list[i]);
        assert forall|j: int| 0 <= j < i - 1 implies words(#[trigger] rest[j]).len() < 2 || words(
            rest[j],
        )[0] != pubkey by {
            assert(rest[j] == list[j + 1]);
        }
        law_first_handshake_counts(rest, pubkey, i - 1, secs);
        assert(words(list[0]).len() < 2 || words(list[0])[0] != pubkey);
    }
}

/// Nothing is known of the handshake of a peer that no line tells of.
pub proof fn law_no_line_no_handshake(list: Seq<Text>, pubkey: Text)
    requires
        forall|j: int|
            0 <= j < list.len() ==> words(#[trigger] list[j]).len() < 2 || words(list[j])[0]
                != pubkey,
    ensures
        handshake_in(list, pubkey) is None,
    decreases list.len(),
{
    if list.len() > 0 {
        let rest = list.drop_first();
        assert forall|j: int| 0 <= j < rest.len() implies words(#[trigger] rest[j]).len() < 2
            || words(rest[j])[0] != pubkey by {
            assert(rest[j] == list[j + 1]);
        }
        assert(words(list[0]).len() < 2 || words(list[0])[0] != pubkey);
        law_no_line_no_handshake(rest, pubkey);
    }
}

/// A handshake is recent until exactly so many seconds have passed, a later one for longer; no
/// handshake is never recent.
pub proof fn law_recent_handshakes(h: u64, now: u64, age: u64)
    ensures
        recent(Some(h as nat), now, age) <==> now <= h + age,
        !recent(None, now, age),
{
}

/// Every line of two words or more tells of a peer, the last one for a key counts, and all the keys
/// are listed, each once.
pub proof fn law_handshakes_of_all_peers(list: Seq<Text>, pubkey: Text)
    ensures
        handshakes_in(list).contains_key(pubkey) <==> exists|i: int|
            0 <= i < list.len() && tells_handshake(#[trigger] list[i], pubkey),
        distinct(handshake_keys(list)).contains(pubkey) <==> handshakes_in(list).contains_key(
            pubkey,
        ),
        distinct(handshake_keys(list)).no_duplicates(),
        forall|i: int|
            0 <= i < list.len() && tells_handshake(#[trigger] list[i], pubkey) && (forall|j: int|
                i < j < list.len() ==> !tells_handshake(#[trigger] list[j], pubkey))
                ==> handshakes_in(list)[pubkey] == handshake_time(words(list[i])[1]),
{
    lemma_handshakes(list, pubkey);
    lemma_distinct(handshake_keys(list));
}

/// Whether a line tells of the handshake of a peer.
pub open spec fn tells_handshake(line: Text, pubkey: Text) -> bool {
    words(line).len() >= 2 && words(line)[0] == pubkey
}

proof fn lemma_handshakes(list: Seq<Text>, pubkey: Text)
    ensures
        handshakes_in(list).contains_key(pubkey) <==> exists|i: int|
            0 <= i < list.len() && tells_handshake(#[trigger] list[i], pubkey),
        handshake_keys(list).contains(pubkey) <==> handshakes_in(list).contains_key(pubkey),
        forall|i: int|
            0 <= i < list.len() && tells_handshake(#[trigger] list[i], pubkey) && (forall|j: int|
                i < j < list.len() ==> !tells_handshake(#[trigger] list[j], pubkey))
                ==> handshakes_in(list)[pubkey] == handshake_time(words(list[i])[1]),
    decreases list.len(),
{
    if list.len() > 0 {
        let front = list.drop_last();
        let line = list.last();
        lemma_handshakes(front, pubkey);
        if words(line).len() >= 2 {
            let d = handshake_keys(list);
            assert(d.drop_last() =~= handshake_keys(front));
            lemma_contains_last(d, pubkey);
        }
        assert forall|i: int|
            0 <= i < list.len() && tells_handshake(#[trigger] list[i], pubkey) && (forall|j: int|
                i < j < list.len() ==> !tells_handshake(
                    #[trigger] list[j],
                    pubkey,
                )) implies handshakes_in(list)[pubkey] == handshake_time(words(list[i])[1]) by {
            if i < front.len() {
                assert(front[i] == list[i]);
                assert(!tells_handshake(list[list.len() - 1], pubkey));
                assert forall|j: int| i < j < front.len() implies !tells_handshake(
                    #[trigger] front[j],
                    pubkey,
                ) by {
                    assert(front[j] == list[j]);
                }
            }
        }
        if handshakes_in(list).contains_key(pubkey) {
            if tells_handshake(line, pubkey) {
                assert(tells_handshake(list[list.len() - 1], pubkey));
            } else {
                let i = choose|i: int|
                    0 <= i < front.len() && tells_handshake(#[trigger] front[i], pubkey);
                assert(tells_handshake(list[i], pubkey));
            }
        }
        if exists|i: int| 0 <= i < list.len() && tells_handshake(#[trigger] list[i], pubkey) {
            let i = choose|i: int|
                0 <= i < list.len() && tells_handshake(#[trigger] list[i], pubkey);
            if i < front.len() {
                assert(tells_handshake(front[i], pubkey));
            }
        }
    }
}

// ---------- Preshared keys ----------

/// A peer has a preshared key if a line begins with its key and does not say `(none)` after it.
pub proof fn law_peers_with_psk(list: Seq<Text>, pubkey: Text)
    ensures
        distinct(keys_with_psk(list)).contains(pubkey) <==> exists|i: int|
            0 <= i < list.len() && tells_psk(#[trigger] list[i], pubkey),
        distinct(keys_with_psk(list)).no_duplicates(),
{
    lemma_distinct(keys_with_psk(list));
    lemma_keys_with_psk(list, pubkey);
}

/// Whether a line tells that the peer has a preshared key.
pub open spec fn tells_psk(line: Text, pubkey: Text) -> bool {
    let w = words(line);
    w.len() > 0 && w[0] == pubkey && !(w.len() > 1 && w[1] == "(none)"@)
}

proof fn lemma_keys_with_psk(list: Seq<Text>, pubkey: Text)
    ensures
        keys_with_psk(list).contains(pubkey) <==> exists|i: int|
            0 <= i < list.len() && tells_psk(#[trigger] list[i], pubkey),
    decreases list.len(),
{
    if list.len() > 0 {
        let front = list.drop_last();
        let line = list.last();
        lemma_keys_with_psk(front, pubkey);
        let d = keys_with_psk(list);
        if d != keys_with_psk(front) {
            assert(d.drop_last() =~= keys_with_psk(front));
            lemma_contains_last(d, pubkey);
        }
        if d.contains(pubkey) {
            if tells_psk(line, pubkey) {
                assert(tells_psk(list[list.len() - 1], pubkey));
            } else {
                let i = choose|i: int| 0 <= i < front.len() && tells_psk(#[trigger] front[i], pubkey);
                assert(tells_psk(list[i], pubkey));
            }
        }
        if exists|i: int| 0 <= i < list.len() && tells_psk(#[trigger] list[i], pubkey) {
            let i = choose|i: int| 0 <= i < list.len() && tells_psk(#[trigger] list[i], pubkey);
            if i < front.len() {
                assert(tells_psk(front[i], pubkey));
            } else {
                assert(d.last() == pubkey);
                assert(d[d.len() - 1] == pubkey);
            }
        }
    }
}

} // verus!
