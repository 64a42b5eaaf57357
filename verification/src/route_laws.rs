//! What holds of routes: how tables and lists of interfaces are read, and that every difference
//! between the routes in force and those advertised is made up for.
use vstd::prelude::*;

use crate::commands::Call;
use crate::ip_text::dotted;
use crate::model::RoutesView;
use crate::number::{decimal, parse_unsigned};
use crate::output_laws::law_number_is_read_in_full;
use crate::route_sync::{
    add4_from, add6_from, delete4_from, delete6_from, prefix_of, sync_ask, sync_last, sync_next,
    sync_start, unmaskable, v4_additions, v6_additions, RouteAnswer, RouteAsk, RouteStage, SyncView,
};
use crate::routes::{
    cidr_valid, clean_lines, first_number, index_ask, index_in_list, index_on, index_step,
    index_told, netmask, number_after, v4_route_in, v4_route_to, v4_routes, v6_route_in, v6_routes,
    IndexAsk, IndexStage,
};
use crate::self_ips::bare_address;
use crate::text::{
    distinct, has_part, lemma_distinct, lines, lowercase, minus, nonempty, trims, utf8_lossy, words,
    Text,
};
use crate::text_laws::{law_difference, law_split_in_two};
use crate::wg::CommandOutput;
use vstd::arithmetic::power2::pow2;

verus! {

// ---------- Netmasks ----------

/// A prefix that is one longer has one more leading one in its netmask: nothing for an empty
/// prefix, every bit for a full one.
pub proof fn law_netmasks(p: nat)
    requires
        p < 32,
    ensures
        netmask(0) == 0,
        netmask(p + 1) == netmask(p) + pow2((31 - p) as nat),
        netmask(32) == 0xffff_ffff,
{
    vstd::arithmetic::power2::lemma2_to64();
    vstd::arithmetic::power2::lemma_pow2_unfold((32 - p) as nat);
    if p > 0 {
        vstd::arithmetic::power2::lemma_pow2_strictly_increases((32 - p) as nat, 32);
    }
    vstd::arithmetic::power2::lemma_pow2_strictly_increases((31 - p) as nat, 32);
    assert(pow2(32) == 0x1_0000_0000);
    assert(pow2(0) == 1);
    assert((32 - (p + 1)) as nat == (31 - p) as nat);
}

// ---------- Tables ----------

/// Of the IPv4 table, each line that begins with a digit and has four words or more tells a route:
/// its first word is the destination, the second the netmask and the fourth the interface.
pub proof fn law_v4_table(list: Seq<Text>, line: Text)
    requires
        line.len() > 0,
    ensures
        ({
            let w = words(line);
            v4_routes(list.push(line)) == if '0' <= line[0] && line[0] <= '9' && w.len() >= 4 {
                v4_routes(list).push((w[0], w[1], w[3]))
            } else {
                v4_routes(list)
            }
        }),
        v4_routes(Seq::empty()) == Seq::<(Text, Text, Text)>::empty(),
{
    assert(list.push(line).drop_last() =~= list);
}

/// Of the IPv6 table, each line of three words or more whose first one holds a colon tells a route:
/// the destination, the length of its prefix, which is zero where it is none, and the interface.
pub proof fn law_v6_table(list: Seq<Text>, line: Text, n: u8)
    ensures
        ({
            let w = words(line);
            let more = v6_routes(list.push(line));
            if w.len() >= 3 && w[0].contains(':') {
                &&& w[1] == decimal(n as nat) ==> more == v6_routes(list).push((w[0], n, w[2]))
                &&& parse_unsigned(w[1], 255) is None ==> more == v6_routes(list).push(
                    (w[0], 0, w[2]),
                )
            } else {
                more == v6_routes(list)
            }
        }),
        v6_routes(Seq::empty()) == Seq::<(Text, u8, Text)>::empty(),
{
    assert(list.push(line).drop_last() =~= list);
    law_number_is_read_in_full(n as nat, 255);
}

/// A route is found in the IPv4 table exactly if it has one to the network, and the first one
/// counts.
pub proof fn law_v4_route_is_found(
    routes: Seq<(Text, Text, Text)>,
    network: Text,
    mask: Text,
    i: int,
)
    ensures
        ({
            &&& 0 <= i < routes.len()
            &&& routes[i].0 == network
            &&& routes[i].1 == mask
            &&& forall|k: int|
                0 <= k < i ==> (#[trigger] routes[k]).0 != network || routes[k].1 != mask
        }) ==> v4_route_to(routes, network, mask) == Some(routes[i].2),
        (v4_route_to(routes, network, mask) is None) <==> (forall|k: int|
            0 <= k < routes.len() ==> (#[trigger] routes[k]).0 != network || routes[k].1 != mask),
    decreases routes.len(),
{
    if routes.len() > 0 {
        let rest = routes.drop_first();
        law_v4_route_is_found(rest, network, mask, i - 1);
        if 0 < i < routes.len() {
            assert(rest[i - 1] == routes[i]);
        }
        if forall|k: int|
            0 <= k < i ==> (#[trigger] routes[k]).0 != network || routes[k].1 != mask {
            assert forall|k: int| 0 <= k < i - 1 && k < rest.len() implies (
            #[trigger] rest[k]).0 != network || rest[k].1 != mask by {
                assert(rest[k] == routes[k + 1]);
            }
            if 0 < i {
                assert(routes[0].0 != network || routes[0].1 != mask);
            }
        }
        if forall|k: int|
            0 <= k < routes.len() ==> (#[trigger] routes[k]).0 != network || routes[k].1 != mask {
            assert(routes[0].0 != network || routes[0].1 != mask);
            assert forall|k: int| 0 <= k < rest.len() implies (#[trigger] rest[k]).0 != network
                || rest[k].1 != mask by {
                assert(rest[k] == routes[k + 1]);
            }
        }
        if v4_route_to(routes, network, mask) is None {
            assert forall|k: int| 0 <= k < routes.len() implies (#[trigger] routes[k]).0 != network
                || routes[k].1 != mask by {
                if k > 0 {
                    assert(rest[k - 1] == routes[k]);
                }
            }
        }
    }
}

/// The routes of the system are those of the table that the command wrote, its lines cleaned;
/// nothing is known of them where it was not run.
pub proof fn law_tables_are_what_was_written(o: CommandOutput, network: Text, mask: Text, p: u8)
    ensures
        v4_route_in(Some(o), network, mask) == v4_route_to(
            v4_routes(nonempty(trims(lines(utf8_lossy(o.stdout@))))),
            network,
            mask,
        ),
        v6_route_in(Some(o), network, p) <==> exists|i: int|
            0 <= i < v6_routes(nonempty(trims(lines(utf8_lossy(o.stdout@))))).len() && (
            #[trigger] v6_routes(nonempty(trims(lines(utf8_lossy(o.stdout@)))))[i]).0 == network
                && v6_routes(nonempty(trims(lines(utf8_lossy(o.stdout@)))))[i].1 == p,
        v4_route_in(None, network, mask) is None,
        !v6_route_in(None, network, p),
{
    assert(clean_lines(o.stdout@) == nonempty(trims(lines(utf8_lossy(o.stdout@)))));
}

// ---------- The interface's number ----------

/// The first word that is a number is the one that is found, up to the greatest one.
pub proof fn law_first_number(parts: Seq<Text>, i: int, n: u32)
    requires
        0 <= i < parts.len(),
        parts[i] == decimal(n as nat),
        forall|k: int| 0 <= k < i ==> parse_unsigned(#[trigger] parts[k], u32::MAX as nat) is None,
    ensures
        first_number(parts) == Some(n as nat),
    decreases i,
{
    law_number_is_read_in_full(n as nat, u32::MAX as nat);
    if i > 0 {
        let rest = parts.drop_first();
        assert(parse_unsigned(parts[0], u32::MAX as nat) is None);
        assert(rest[i - 1] == parts[i]);
        assert forall|k: int| 0 <= k < i - 1 implies parse_unsigned(
            #[trigger] rest[k],
            u32::MAX as nat,
        ) is None by {
            assert(rest[k] == parts[k + 1]);
        }
        law_first_number(rest, i - 1, n);
    }
}

/// No number is found where no word is one.
pub proof fn law_no_number(parts: Seq<Text>)
    requires
        forall|k: int|
            0 <= k < parts.len() ==> parse_unsigned(#[trigger] parts[k], u32::MAX as nat) is None,
    ensures
        first_number(parts) is None,
    decreases parts.len(),
{
    if parts.len() > 0 {
        let rest = parts.drop_first();
        assert(parse_unsigned(parts[0], u32::MAX as nat) is None);
        assert forall|k: int| 0 <= k < rest.len() implies parse_unsigned(
            #[trigger] rest[k],
            u32::MAX as nat,
        ) is None by {
            assert(rest[k] == parts[k + 1]);
        }
        law_no_number(rest);
    }
}

/// Whether a word is the name, in lower case, and a number follows it.
pub open spec fn named_number(parts: Seq<Text>, name: Text, i: int) -> bool {
    0 <= i && i + 1 < parts.len() && lowercase(parts[i]) == name && parse_unsigned(
        parts[i + 1],
        u32::MAX as nat,
    ) is Some
}

/// The first number that follows the name is the one that is found, and none is where none follows.
pub proof fn law_number_after_name(parts: Seq<Text>, name: Text, i: int, n: u32)
    ensures
        named_number(parts, name, i) && parts[i + 1] == decimal(n as nat) && (forall|k: int|
            0 <= k < i ==> !#[trigger] named_number(parts, name, k)) ==> number_after(parts, name)
            == Some(n as nat),
        (forall|k: int| !#[trigger] named_number(parts, name, k)) ==> number_after(parts, name)
            is None,
    decreases parts.len(),
{
    law_number_is_read_in_full(n as nat, u32::MAX as nat);
    if parts.len() >= 2 {
        let rest = parts.drop_first();
        law_number_after_name(rest, name, i - 1, n);
        assert forall|k: int| #[trigger] named_number(rest, name, k) implies named_number(
            parts,
            name,
            k + 1,
        ) by {
            assert(rest[k] == parts[k + 1] && rest[k + 1] == parts[k + 2]);
        }
        if named_number(parts, name, i) && i > 0 {
            assert(rest[i - 1] == parts[i] && rest[i] == parts[i + 1]);
            assert(named_number(rest, name, i - 1));
            if forall|k: int| 0 <= k < i ==> !#[trigger] named_number(parts, name, k) {
                assert(!named_number(parts, name, 0));
                assert forall|k: int| 0 <= k < i - 1 implies !#[trigger] named_number(
                    rest,
                    name,
                    k,
                ) by {
                    if named_number(rest, name, k) {
                        assert(named_number(parts, name, k + 1));
                    }
                }
            }
        }
        if forall|k: int| !#[trigger] named_number(parts, name, k) {
            assert(!named_number(parts, name, 0));
            assert forall|k: int| !#[trigger] named_number(rest, name, k) by {
                if named_number(rest, name, k) {
                    assert(named_number(parts, name, k + 1));
                }
            }
        }
    }
}

/// A line of the list of interfaces tells a number only if it holds the name, in whatever case: the
/// one that follows the name, else the first one.
pub proof fn law_number_on_a_line(line: Text, name: Text)
    ensures
        !has_part(lowercase(line), name) ==> index_on(line, name) is None,
        has_part(lowercase(line), name) && number_after(words(line), name) is Some ==> index_on(
            line,
            name,
        ) == number_after(words(line), name),
        has_part(lowercase(line), name) && number_after(words(line), name) is None ==> index_on(
            line,
            name,
        ) == first_number(words(line)),
{
}

/// The first line that tells a number counts.
pub proof fn law_first_line_tells(list: Seq<Text>, name: Text, i: int)
    ensures
        ({
            &&& 0 <= i < list.len()
            &&& index_on(list[i], name) is Some
            &&& forall|k: int| 0 <= k < i ==> index_on(#[trigger] list[k], name) is None
        }) ==> index_in_list(list, name) == index_on(list[i], name),
        (forall|k: int| 0 <= k < list.len() ==> index_on(#[trigger] list[k], name) is None)
            ==> index_in_list(list, name) is None,
    decreases list.len(),
{
    if list.len() > 0 {
        let rest = list.drop_first();
        law_first_line_tells(rest, name, i - 1);
        if 0 < i < list.len() {
            assert(rest[i - 1] == list[i]);
        }
        if forall|k: int| 0 <= k < i ==> index_on(#[trigger] list[k], name) is None {
            if 0 < i {
                assert(index_on(list[0], name) is None);
            }
            assert forall|k: int| 0 <= k < i - 1 && k < rest.len() implies index_on(
                #[trigger] rest[k],
                name,
            ) is None by {
                assert(rest[k] == list[k + 1]);
            }
        }
        if forall|k: int| 0 <= k < list.len() ==> index_on(#[trigger] list[k], name) is None {
            assert(index_on(list[0], name) is None);
            assert forall|k: int| 0 <= k < rest.len() implies index_on(#[trigger] rest[k], name)
                is None by {
                assert(rest[k] == list[k + 1]);
            }
        }
    }
}

/// A search asks for the list of interfaces, then the management tool, and if neither tells the
/// number, waits a second and asks again, three times in all.
pub proof fn law_index_search(
    name: Text,
    attempt: u32,
    output: Option<CommandOutput>,
)
    requires
        attempt < 3,
    ensures
        ({
            let list = IndexStage::Listing { attempt };
            let tool = IndexStage::Asking { attempt };
            let pause = IndexStage::Pausing { attempt };
            &&& index_ask(list, name) == IndexAsk::Run(
                Call {
                    program: "netsh"@,
                    args: seq!["interface"@, "ipv4"@, "show"@, "interfaces"@],
                },
            )
            &&& index_ask(tool, name) == IndexAsk::Run(
                Call {
                    program: "wmic"@,
                    args: seq![
                        "nic"@,
                        "where"@,
                        "NetConnectionID='"@ + name + "'"@,
                        "get"@,
                        "InterfaceIndex"@,
                    ],
                },
            )
            &&& index_ask(pause, name) == IndexAsk::Pause { secs: 1 }
            &&& index_step(pause, name, output) == list
            &&& index_told(output, name, false) is None ==> index_step(list, name, output) == tool
            &&& index_told(output, name, true) is None && attempt < 2 ==> index_step(
                tool,
                name,
                output,
            ) == (IndexStage::Pausing { attempt: (attempt + 1) as u32 })
            &&& index_told(output, name, true) is None && attempt == 2 ==> index_step(
                tool,
                name,
                output,
            ) is Missing
            &&& index_told(output, name, false) matches Some(n) ==> index_step(
                list,
                name,
                output,
            ) == (IndexStage::Found { index: n as u32 })
            &&& index_told(output, name, true) matches Some(n) ==> index_step(tool, name, output)
                == (IndexStage::Found { index: n as u32 })
        }),
        output is Some ==> index_told(output, name, true) == first_number(
            nonempty(trims(lines(utf8_lossy(output->0.stdout@)))),
        ),
        output is Some ==> index_told(output, name, false) == index_in_list(
            lines(utf8_lossy(output->0.stdout@)),
            lowercase(name),
        ),
        output is None ==> index_told(output, name, true) is None && index_told(
            output,
            name,
            false,
        ) is None,
{
}

// ---------- What has to change ----------

/// A network is taken apart at its first slash: the address before it, and the prefix after it, up
/// to 255; without a slash the prefix is the full one of its family.
pub proof fn law_networks_are_taken_apart(a: Text, p: u8, default: nat)
    requires
        !a.contains('/'),
    ensures
        bare_address(a + seq!['/'] + decimal(p as nat)) == a,
        prefix_of(a + seq!['/'] + decimal(p as nat), default) == p,
        bare_address(a) == a,
        prefix_of(a, default) == default,
{
    law_split_in_two(a, '/', decimal(p as nat));
    law_number_is_read_in_full(p as nat, u8::MAX as nat);
}

/// What follows the slash and is no number up to 255 counts as if it were not there.
pub proof fn law_no_prefix_no_matter(a: Text, q: Text, n: nat, default: nat)
    requires
        !a.contains('/'),
        parse_unsigned(q, 255) is None,
        n > 255,
    ensures
        prefix_of(a + seq!['/'] + q, default) == default,
        prefix_of(a + seq!['/'] + decimal(n), default) == default,
        bare_address(a + seq!['/'] + q) == a,
{
    law_split_in_two(a, '/', q);
    law_split_in_two(a, '/', decimal(n));
    law_number_is_read_in_full(n, 255);
}

/// Every network that is one is added, with its address, and its netmask or the length of its
/// prefix, in the order of the list; what names none is left out.
pub proof fn law_every_network_is_added(list: Seq<Text>, cidr: Text)
    ensures
        v4_additions(list.push(cidr)) == if cidr_valid(cidr) {
            v4_additions(list).push(
                (cidr, bare_address(cidr), dotted(netmask(prefix_of(cidr, 32)))),
            )
        } else {
            v4_additions(list)
        },
        v6_additions(list.push(cidr)) == if cidr_valid(cidr) {
            v6_additions(list).push((cidr, bare_address(cidr), prefix_of(cidr, 128) as u8))
        } else {
            v6_additions(list)
        },
        v4_additions(Seq::empty()) == Seq::<(Text, Text, Text)>::empty(),
        v6_additions(Seq::empty()) == Seq::<(Text, Text, u8)>::empty(),
        unmaskable(seq![cidr]) <==> cidr_valid(cidr) && prefix_of(cidr, 32) > 32,
{
    assert(list.push(cidr).drop_last() =~= list);
    if cidr_valid(cidr) && prefix_of(cidr, 32) > 32 {
        assert(cidr_valid(seq![cidr][0]));
    }
}

/// Whether a route is among those to be added.
pub open spec fn to_add4(v: SyncView, cidr: Text) -> bool {
    exists|i: int| 0 <= i < v.add4.len() && (#[trigger] v.add4[i]).0 == cidr
}

/// Whether a route is among those to be added.
pub open spec fn to_add6(v: SyncView, cidr: Text) -> bool {
    exists|i: int| 0 <= i < v.add6.len() && (#[trigger] v.add6[i]).0 == cidr
}

/// A change of routes deletes every route that was in force and is advertised no longer, and adds
/// every one that is advertised, is a network and was not in force; just those, and the ones in
/// force afterwards are those advertised, each once.
pub proof fn law_all_differences_are_made_up_for(routes: RoutesView, last: RoutesView, x: Text)
    ensures
        ({
            let v = sync_start(routes, last);
            &&& v.old4.contains(x) <==> last.ipv4.contains(x) && !routes.ipv4.contains(x)
            &&& v.old6.contains(x) <==> last.ipv6.contains(x) && !routes.ipv6.contains(x)
            &&& to_add4(v, x) <==> routes.ipv4.contains(x) && !last.ipv4.contains(x) && cidr_valid(
                x,
            )
            &&& to_add6(v, x) <==> routes.ipv6.contains(x) && !last.ipv6.contains(x) && cidr_valid(
                x,
            )
            &&& v.new4.contains(x) <==> routes.ipv4.contains(x)
            &&& v.new6.contains(x) <==> routes.ipv6.contains(x)
            &&& v.new4.no_duplicates() && v.new6.no_duplicates()
        }),
{
    let n4 = distinct(routes.ipv4);
    let n6 = distinct(routes.ipv6);
    lemma_distinct(routes.ipv4);
    lemma_distinct(routes.ipv6);
    assert(n4.contains(x) <==> routes.ipv4.contains(x));
    assert(n6.contains(x) <==> routes.ipv6.contains(x));
    law_difference(last.ipv4, n4, x);
    law_difference(last.ipv6, n6, x);
    law_difference(n4, last.ipv4, x);
    law_difference(n6, last.ipv6, x);
    lemma_added4(minus(n4, last.ipv4), x);
    lemma_added6(minus(n6, last.ipv6), x);
    let v = sync_start(routes, last);
    let a = v4_additions(minus(n4, last.ipv4));
    let b = v6_additions(minus(n6, last.ipv6));
    assert(v.add4 == a && v.add6 == b);
    if to_add4(v, x) {
        let i = choose|i: int| 0 <= i < v.add4.len() && (#[trigger] v.add4[i]).0 == x;
        assert(a[i].0 == x);
    }
    if exists|i: int| 0 <= i < a.len() && (#[trigger] a[i]).0 == x {
        let i = choose|i: int| 0 <= i < a.len() && (#[trigger] a[i]).0 == x;
        assert(v.add4[i].0 == x);
    }
    if to_add6(v, x) {
        let i = choose|i: int| 0 <= i < v.add6.len() && (#[trigger] v.add6[i]).0 == x;
        assert(b[i].0 == x);
    }
    if exists|i: int| 0 <= i < b.len() && (#[trigger] b[i]).0 == x {
        let i = choose|i: int| 0 <= i < b.len() && (#[trigger] b[i]).0 == x;
        assert(v.add6[i].0 == x);
    }
    assert(v.old4 == minus(last.ipv4, n4) && v.old6 == minus(last.ipv6, n6));
    assert(v.new4 == n4 && v.new6 == n6);
}

proof fn lemma_added4(list: Seq<Text>, x: Text)
    ensures
        (exists|i: int|
            0 <= i < v4_additions(list).len() && (#[trigger] v4_additions(list)[i]).0 == x)
            <==> list.contains(x) && cidr_valid(x),
    decreases list.len(),
{
    if list.len() > 0 {
        let front = list.drop_last();
        let a = v4_additions(front);
        let b = v4_additions(list);
        lemma_added4(front, x);
        crate::output_laws::lemma_contains_last(list, x);
        if exists|i: int| 0 <= i < b.len() && (#[trigger] b[i]).0 == x {
            let i = choose|i: int| 0 <= i < b.len() && (#[trigger] b[i]).0 == x;
            if i < a.len() {
                assert(a[i].0 == x);
            }
        }
        if list.contains(x) && cidr_valid(x) {
            if front.contains(x) {
                let i = choose|i: int| 0 <= i < a.len() && (#[trigger] a[i]).0 == x;
                assert(b[i].0 == x);
            } else {
                assert(b[b.len() - 1].0 == x);
            }
        }
    }
}

proof fn lemma_added6(list: Seq<Text>, x: Text)
    ensures
        (exists|i: int|
            0 <= i < v6_additions(list).len() && (#[trigger] v6_additions(list)[i]).0 == x)
            <==> list.contains(x) && cidr_valid(x),
    decreases list.len(),
{
    if list.len() > 0 {
        let front = list.drop_last();
        let a = v6_additions(front);
        let b = v6_additions(list);
        lemma_added6(front, x);
        crate::output_laws::lemma_contains_last(list, x);
        if exists|i: int| 0 <= i < b.len() && (#[trigger] b[i]).0 == x {
            let i = choose|i: int| 0 <= i < b.len() && (#[trigger] b[i]).0 == x;
            if i < a.len() {
                assert(a[i].0 == x);
            }
        }
        if list.contains(x) && cidr_valid(x) {
            if front.contains(x) {
                let i = choose|i: int| 0 <= i < a.len() && (#[trigger] a[i]).0 == x;
                assert(b[i].0 == x);
            } else {
                assert(b[b.len() - 1].0 == x);
            }
        }
    }
}

// ---------- The steps ----------

/// The same change at another stage.
pub open spec fn at_stage(v: SyncView, stage: RouteStage) -> SyncView {
    SyncView { stage, ..v }
}

/// Every route to be deleted is, one after the other, the IPv4 routes first; for an IPv6 route the
/// interface's number is asked for before, and only where it is not found is the route passed over.
pub proof fn law_every_old_route_is_deleted(v: SyncView, i: int, idx: u32, answer: RouteAnswer)
    requires
        0 <= i,
        v.old4.len() <= usize::MAX,
        v.old6.len() <= usize::MAX,
    ensures
        i < v.old4.len() ==> {
            let w = at_stage(v, delete4_from(v, i));
            &&& sync_ask(w) == RouteAsk::Run(
                Call { program: "cmd"@, args: seq!["/c"@, "route"@, "delete"@, v.old4[i]] },
            )
            &&& sync_next(w, answer) == delete4_from(v, i + 1)
        },
        i == v.old4.len() ==> delete4_from(v, i) == delete6_from(v, 0),
        i < v.old6.len() ==> {
            let w = at_stage(v, delete6_from(v, i));
            let x = at_stage(v, sync_next(w, RouteAnswer::Index(Some(idx))));
            &&& sync_ask(w) == RouteAsk::Index
            &&& sync_ask(x) == RouteAsk::Run(
                Call {
                    program: "route"@,
                    args: seq!["delete"@, v.old6[i], "::"@, "if"@, decimal(idx as nat)],
                },
            )
            &&& sync_next(x, answer) == delete6_from(v, i + 1)
            &&& sync_next(w, RouteAnswer::Index(None)) == delete6_from(v, i + 1)
        },
        i == v.old6.len() ==> sync_ask(at_stage(v, delete6_from(v, i))) == RouteAsk::Index
            && delete6_from(v, i) is Locating,
{
}

/// Before new routes are added the interface's number is asked for, and once more after a second
/// where it is not found; only where it is not found again does the change fail.
pub proof fn law_number_is_asked_for_twice(v: SyncView, idx: u32)
    requires
        v.stage is Locating,
    ensures
        ({
            let pause = at_stage(v, sync_next(v, RouteAnswer::Index(None)));
            let again = at_stage(v, sync_next(pause, RouteAnswer::Done));
            &&& sync_ask(v) == RouteAsk::Index
            &&& sync_ask(pause) == RouteAsk::Pause { secs: 1 }
            &&& sync_ask(again) == RouteAsk::Index
            &&& sync_next(v, RouteAnswer::Index(Some(idx))) == add4_from(v, 0, idx)
            &&& sync_next(again, RouteAnswer::Index(Some(idx))) == add4_from(v, 0, idx)
            &&& sync_next(again, RouteAnswer::Index(None)) is Failed
        }),
{
}

/// Every route to be added is, through the interface with the number, unless the table of the system
/// has one to the network already; the IPv4 routes come first, and after the last IPv6 route the
/// change is through.
pub proof fn law_every_new_route_is_added(
    v: SyncView,
    i: int,
    idx: u32,
    table: Option<CommandOutput>,
    answer: RouteAnswer,
)
    requires
        0 <= i,
        v.add4.len() <= usize::MAX,
        v.add6.len() <= usize::MAX,
    ensures
        i < v.add4.len() ==> {
            let w = at_stage(v, add4_from(v, i, idx));
            let next = sync_next(w, RouteAnswer::Table(table));
            let x = at_stage(v, next);
            let (cidr, network, mask) = v.add4[i];
            &&& sync_ask(w) == RouteAsk::Table(
                Call { program: "route"@, args: seq!["print"@, "-4"@] },
            )
            &&& v4_route_in(table, network, mask) is Some ==> next == add4_from(v, i + 1, idx)
            &&& v4_route_in(table, network, mask) is None ==> {
                &&& sync_ask(x) == RouteAsk::Run(
                    Call {
                        program: "cmd"@,
                        args: seq![
                            "/c"@,
                            "route"@,
                            "-p"@,
                            "add"@,
                            cidr,
                            "0.0.0.0"@,
                            "if"@,
                            decimal(idx as nat),
                        ],
                    },
                )
                &&& sync_next(x, answer) == add4_from(v, i + 1, idx)
            }
        },
        i == v.add4.len() ==> add4_from(v, i, idx) == add6_from(v, 0, idx),
        i < v.add6.len() ==> {
            let w = at_stage(v, add6_from(v, i, idx));
            let next = sync_next(w, RouteAnswer::Table(table));
            let x = at_stage(v, next);
            let (cidr, network, prefix) = v.add6[i];
            &&& sync_ask(w) == RouteAsk::Table(
                Call { program: "route"@, args: seq!["print"@, "-6"@] },
            )
            &&& v6_route_in(table, network, prefix) ==> next == add6_from(v, i + 1, idx)
            &&& !v6_route_in(table, network, prefix) ==> {
                &&& sync_ask(x) == RouteAsk::Run(
                    Call {
                        program: "route"@,
                        args: seq!["-p"@, "add"@, cidr, "::"@, "if"@, decimal(idx as nat)],
                    },
                )
                &&& sync_next(x, answer) == add6_from(v, i + 1, idx)
            }
        },
        i == v.add6.len() ==> add6_from(v, i, idx) is Applied,
{
}

/// A change starts with the first route to be deleted, and the routes in force are those advertised
/// exactly from the step on that ends it well.
pub proof fn law_change_starts_and_ends(
    routes: RoutesView,
    last: RoutesView,
    v: SyncView,
    answer: RouteAnswer,
)
    ensures
        sync_start(routes, last).stage == delete4_from(sync_start(routes, last), 0),
        v.stage !is Applied && sync_next(v, answer) is Applied ==> sync_last(v, last, answer) == (
        RoutesView { ipv4: v.new4, ipv6: v.new6 }),
        !(v.stage !is Applied && sync_next(v, answer) is Applied) ==> sync_last(v, last, answer)
            == last,
        sync_ask(at_stage(v, RouteStage::Applied)) == (RouteAsk::Over { applied: true }),
        sync_ask(at_stage(v, RouteStage::Failed)) == (RouteAsk::Over { applied: false }),
{
}

} // verus!
