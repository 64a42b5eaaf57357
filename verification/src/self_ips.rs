//! This node's own addresses: finding them in a snapshot and giving them to the interface.
use vstd::prelude::*;

use crate::commands::{Call, Invocation};
use crate::ip::{ip, read_ip, Ip};
use crate::ip_text::{ip_text, ip_to_text};
use crate::number::read_u8;
use crate::text::{
    contains_char, contains_string, is_blank, lowercase, lowercase_of, owned, split_first,
    split_once, text_eq, Text,
};
use crate::wg_state::number_or;

verus! {

// ---------- The addresses that a snapshot gives this node ----------

/// An address with the length of its prefix; an address that stands alone counts as one of 32.
pub open spec fn address_and_prefix(cidr: Text) -> (Option<Ip>, nat) {
    match split_first(cidr, '/') {
        Some((a, p)) => (ip(a), number_or(p, u8::MAX as nat, 0)),
        None => (ip(cidr), 32),
    }
}

/// Whether a text is a single IPv4 address.
pub open spec fn is_host_v4(cidr: Text) -> bool {
    let (a, prefix) = address_and_prefix(cidr);
    a is Some && a->0 is V4 && prefix == 32
}

/// Whether a text is a single IPv6 address.
pub open spec fn is_host_v6(cidr: Text) -> bool {
    let (a, prefix) = address_and_prefix(cidr);
    a is Some && a->0 is V6 && prefix == 128
}

/// The first single IPv4 and the first single IPv6 address, each empty where there is none.
pub open spec fn host_addresses(list: Seq<Text>) -> (Text, Text)
    decreases list.len(),
{
    if list.len() == 0 {
        (Seq::empty(), Seq::empty())
    } else {
        let (a, b) = host_addresses(list.drop_last());
        let c = list.last();
        if a.len() == 0 && is_host_v4(c) {
            (c, b)
        } else if b.len() == 0 && is_host_v6(c) {
            (a, c)
        } else {
            (a, b)
        }
    }
}

fn host_kind(cidr: &String) -> (r: (bool, bool))
    ensures
        r.0 == is_host_v4(cidr@),
        r.1 == is_host_v6(cidr@),
{
    let (address, prefix) = match split_once(cidr.as_str(), '/') {
        Some((a, p)) => {
            let n: u8 = match read_u8(p.as_str()) {
                Some(n) => n,
                None => 0,
            };
            (a, n)
        },
        None => (cidr.clone(), 32u8),
    };
    match read_ip(address.as_str()) {
        Some(Ip::V4(_)) => (prefix == 32, false),
        Some(Ip::V6(_)) => (false, prefix == 128),
        None => (false, false),
    }
}

/// Picks this node's single addresses out of those allowed for it.
pub fn extract_self_ips(allowed_ips: &Vec<String>) -> (r: (String, String))
    ensures
        (r.0@, r.1@) == host_addresses(allowed_ips.deep_view()),
{
    let ghost all = allowed_ips.deep_view();
    let mut ipv4 = String::new();
    let mut ipv6 = String::new();
    let mut i: usize = 0;
    assert(ipv4@ =~= Seq::<char>::empty() && ipv6@ =~= Seq::<char>::empty());
    assert(all.take(0) =~= Seq::<Text>::empty());
    while i < allowed_ips.len()
        invariant
            all == allowed_ips.deep_view(),
            i <= allowed_ips@.len(),
            (ipv4@, ipv6@) == host_addresses(all.take(i as int)),
        decreases allowed_ips.len() - i,
    {
        proof {
            assert(all.take(i + 1).drop_last() =~= all.take(i as int));
            assert(all[i as int] == allowed_ips@[i as int]@);
        }
        let (v4, v6) = host_kind(&allowed_ips[i]);
        if v4 && is_blank(ipv4.as_str()) {
            ipv4 = allowed_ips[i].clone();
        } else if v6 && is_blank(ipv6.as_str()) {
            ipv6 = allowed_ips[i].clone();
        }
        i += 1;
    }
    assert(all.take(allowed_ips@.len() as int) =~= all);
    (ipv4, ipv6)
}

/// The first address with a dot and the first other one with a colon, each empty where there is
/// none.
pub open spec fn tunnel_addresses(list: Seq<Text>) -> (Text, Text)
    decreases list.len(),
{
    if list.len() == 0 {
        (Seq::empty(), Seq::empty())
    } else {
        let (a, b) = tunnel_addresses(list.drop_last());
        let c = list.last();
        if a.len() == 0 && c.contains('.') {
            (c, b)
        } else if b.len() == 0 && c.contains(':') {
            (a, c)
        } else {
            (a, b)
        }
    }
}

/// Picks the addresses that the tunnel is installed with out of those allowed for this node.
pub fn pick_tunnel_addresses(allowed_ips: &Vec<String>) -> (r: (String, String))
    ensures
        (r.0@, r.1@) == tunnel_addresses(allowed_ips.deep_view()),
{
    let ghost all = allowed_ips.deep_view();
    let mut ipv4 = String::new();
    let mut ipv6 = String::new();
    let mut i: usize = 0;
    assert(ipv4@ =~= Seq::<char>::empty() && ipv6@ =~= Seq::<char>::empty());
    assert(all.take(0) =~= Seq::<Text>::empty());
    while i < allowed_ips.len()
        invariant
            all == allowed_ips.deep_view(),
            i <= allowed_ips@.len(),
            (ipv4@, ipv6@) == tunnel_addresses(all.take(i as int)),
        decreases allowed_ips.len() - i,
    {
        proof {
            assert(all.take(i + 1).drop_last() =~= all.take(i as int));
            assert(all[i as int] == allowed_ips@[i as int]@);
        }
        if is_blank(ipv4.as_str()) && contains_char(allowed_ips[i].as_str(), '.') {
            ipv4 = allowed_ips[i].clone();
        } else if is_blank(ipv6.as_str()) && contains_char(allowed_ips[i].as_str(), ':') {
            ipv6 = allowed_ips[i].clone();
        }
        i += 1;
    }
    assert(all.take(allowed_ips@.len() as int) =~= all);
    (ipv4, ipv6)
}

// ---------- The addresses that the interface has ----------

/// An address of the system: the name of its interface, and the address.
pub type SystemAddress = (String, Ip);

/// The IPv4 addresses of an interface, whose name is compared without regard to case.
pub open spec fn v4_of(list: Seq<(String, Ip)>, interface: Text) -> Seq<Text>
    decreases list.len(),
{
    if list.len() == 0 {
        Seq::empty()
    } else {
        let front = v4_of(list.drop_last(), interface);
        let (name, a) = list.last();
        if lowercase(name@) == lowercase(interface) && a is V4 {
            front.push(ip_text(a))
        } else {
            front
        }
    }
}

/// The IPv6 addresses of an interface other than the loopback address.
pub open spec fn v6_of(list: Seq<(String, Ip)>, interface: Text) -> Seq<Text>
    decreases list.len(),
{
    if list.len() == 0 {
        Seq::empty()
    } else {
        let front = v6_of(list.drop_last(), interface);
        let (name, a) = list.last();
        if lowercase(name@) == lowercase(interface) && a is V6 && a != Ip::V6(1) {
            front.push(ip_text(a))
        } else {
            front
        }
    }
}

/// The IPv4 and IPv6 addresses of an interface.
pub fn get_interface_addresses(list: &Vec<SystemAddress>, interface: &str) -> (r: (
    Vec<String>,
    Vec<String>,
))
    ensures
        r.0.deep_view() == v4_of(list@, interface@),
        r.1.deep_view() == v6_of(list@, interface@),
{
    let mut v4: Vec<String> = Vec::new();
    let mut v6: Vec<String> = Vec::new();
    let wanted = lowercase_of(interface);
    let mut i: usize = 0;
    assert(v4.deep_view() =~= v4_of(list@.take(0), interface@));
    assert(v6.deep_view() =~= v6_of(list@.take(0), interface@));
    while i < list.len()
        invariant
            wanted@ == lowercase(interface@),
            i <= list@.len(),
            v4.deep_view() == v4_of(list@.take(i as int), interface@),
            v6.deep_view() == v6_of(list@.take(i as int), interface@),
        decreases list.len() - i,
    {
        assert(list@.take(i + 1).drop_last() =~= list@.take(i as int));
        if text_eq(lowercase_of(list[i].0.as_str()).as_str(), wanted.as_str()) {
            let ghost a4 = v4.deep_view();
            let ghost a6 = v6.deep_view();
            match list[i].1 {
                Ip::V4(a) => {
                    v4.push(ip_to_text(Ip::V4(a)));
                    assert(v4.deep_view() =~= a4.push(ip_text(Ip::V4(a))));
                },
                Ip::V6(a) => {
                    if a != 1 {
                        v6.push(ip_to_text(Ip::V6(a)));
                        assert(v6.deep_view() =~= a6.push(ip_text(Ip::V6(a))));
                    }
                },
            }
        }
        i += 1;
    }
    assert(list@.take(list@.len() as int) =~= list@);
    (v4, v6)
}

// ---------- Giving the interface its addresses ----------

/// The call that takes an address from the interface.
pub open spec fn delete_address(family: Text, interface: Text, address: Text) -> Call {
    Call {
        program: "netsh"@,
        args: seq!["interface"@, family, "delete"@, "address"@, interface, address],
    }
}

/// The call that gives the interface an IPv4 address.
pub open spec fn add_v4_address(interface: Text, address: Text) -> Call {
    Call {
        program: "netsh"@,
        args: seq![
            "interface"@,
            "ip"@,
            "add"@,
            "address"@,
            interface,
            address,
            "255.255.255.255"@,
        ],
    }
}

/// The call that gives the interface an IPv6 address.
pub open spec fn add_v6_address(interface: Text, address: Text) -> Call {
    Call {
        program: "netsh"@,
        args: seq!["interface"@, "ipv6"@, "add"@, "address"@, interface, address],
    }
}

/// An address without what follows the first slash.
pub open spec fn bare_address(cidr: Text) -> Text {
    match split_first(cidr, '/') {
        Some((a, _)) => a,
        None => cidr,
    }
}

/// The calls that take all addresses but one, or all where none is kept, from the interface.
pub open spec fn deletions(
    family: Text,
    interface: Text,
    current: Seq<Text>,
    keep: Option<Text>,
) -> Seq<Call>
    decreases current.len(),
{
    if current.len() == 0 {
        Seq::empty()
    } else {
        let front = deletions(family, interface, current.drop_last(), keep);
        if keep == Some(current.last()) {
            front
        } else {
            front.push(delete_address(family, interface, current.last()))
        }
    }
}

/// The calls that leave the interface with the IPv4 address, or with none where it is empty.
pub open spec fn v4_plan(interface: Text, ipv4: Text, current: Seq<Text>) -> Seq<Call> {
    if ipv4.len() == 0 {
        deletions("ip"@, interface, current, None)
    } else {
        let target = bare_address(ipv4);
        let del = deletions("ip"@, interface, current, Some(target));
        if current.contains(target) {
            del
        } else {
            del.push(add_v4_address(interface, target))
        }
    }
}

/// The calls that leave the interface with the IPv6 address, or with none where it is empty.
pub open spec fn v6_plan(interface: Text, ipv6: Text, current: Seq<Text>) -> Seq<Call> {
    if ipv6.len() == 0 {
        deletions("ipv6"@, interface, current, None)
    } else {
        let target = bare_address(ipv6);
        let del = deletions("ipv6"@, interface, current, Some(target));
        if current.contains(target) {
            del
        } else {
            del.push(add_v6_address(interface, ipv6))
        }
    }
}

fn push_call(calls: &mut Vec<Invocation>, args: Vec<String>)
    ensures
        final(calls).deep_view() == old(calls).deep_view().push(
            Call { program: "netsh"@, args: args.deep_view() },
        ),
{
    let ghost before = calls.deep_view();
    let c = Invocation { program: owned("netsh"), args };
    let ghost v = c.deep_view();
    calls.push(c);
    assert(calls.deep_view() =~= before.push(v));
}

fn deletions_of(family: &str, interface: &str, current: &Vec<String>, keep: &Option<String>) -> (r:
    Vec<Invocation>)
    ensures
        r.deep_view() == deletions(family@, interface@, current.deep_view(), keep.deep_view()),
{
    let mut calls: Vec<Invocation> = Vec::new();
    let ghost all = current.deep_view();
    let mut i: usize = 0;
    assert(calls.deep_view() =~= deletions(family@, interface@, all.take(0), keep.deep_view()));
    while i < current.len()
        invariant
            all == current.deep_view(),
            i <= current@.len(),
            calls.deep_view() == deletions(
                family@,
                interface@,
                all.take(i as int),
                keep.deep_view(),
            ),
        decreases current.len() - i,
    {
        proof {
            assert(all.take(i + 1).drop_last() =~= all.take(i as int));
            assert(all[i as int] == current@[i as int]@);
        }
        let kept = match keep {
            Some(k) => text_eq(k.as_str(), current[i].as_str()),
            None => false,
        };
        if !kept {
            let args = vec![
                owned("interface"),
                owned(family),
                owned("delete"),
                owned("address"),
                owned(interface),
                current[i].clone(),
            ];
            assert(args.deep_view() =~= delete_address(
                family@,
                interface@,
                all[i as int],
            ).args);
            push_call(&mut calls, args);
        }
        i += 1;
    }
    assert(all.take(current@.len() as int) =~= all);
    calls
}

fn bare_address_of(cidr: &str) -> (r: String)
    ensures
        r@ == bare_address(cidr@),
{
    match split_once(cidr, '/') {
        Some((a, _)) => a,
        None => owned(cidr),
    }
}

fn v4_plan_of(interface: &str, ipv4: &str, current: &Vec<String>) -> (r: Vec<Invocation>)
    ensures
        r.deep_view() == v4_plan(interface@, ipv4@, current.deep_view()),
{
    if is_blank(ipv4) {
        return deletions_of("ip", interface, current, &None);
    }
    let target = bare_address_of(ipv4);
    let there = contains_string(current, target.as_str());
    let keep = Some(target.clone());
    let mut calls = deletions_of("ip", interface, current, &keep);
    if !there {
        let args = vec![
            owned("interface"),
            owned("ip"),
            owned("add"),
            owned("address"),
            owned(interface),
            target.clone(),
            owned("255.255.255.255"),
        ];
        assert(args.deep_view() =~= add_v4_address(interface@, target@).args);
        push_call(&mut calls, args);
    }
    calls
}

fn v6_plan_of(interface: &str, ipv6: &str, current: &Vec<String>) -> (r: Vec<Invocation>)
    ensures
        r.deep_view() == v6_plan(interface@, ipv6@, current.deep_view()),
{
    if is_blank(ipv6) {
        return deletions_of("ipv6", interface, current, &None);
    }
    let target = bare_address_of(ipv6);
    let there = contains_string(current, target.as_str());
    let keep = Some(target);
    let mut calls = deletions_of("ipv6", interface, current, &keep);
    if !there {
        let args = vec![
            owned("interface"),
            owned("ipv6"),
            owned("add"),
            owned("address"),
            owned(interface),
            owned(ipv6),
        ];
        assert(args.deep_view() =~= add_v6_address(interface@, ipv6@).args);
        push_call(&mut calls, args);
    }
    calls
}

/// Gives the interface its addresses: the calls to make, one after the other, whatever their
/// outcome. An empty address stands for none.
pub fn configure_self_ip(
    addresses: &Vec<SystemAddress>,
    interface: &str,
    ipv4: &str,
    ipv6: &str,
) -> (r: Vec<Invocation>)
    ensures
        r.deep_view() == v4_plan(interface@, ipv4@, v4_of(addresses@, interface@)) + v6_plan(
            interface@,
            ipv6@,
            v6_of(addresses@, interface@),
        ),
{
    let (current_v4, current_v6) = get_interface_addresses(addresses, interface);
    let mut calls = v4_plan_of(interface, ipv4, &current_v4);
    let mut more = v6_plan_of(interface, ipv6, &current_v6);
    let ghost a = calls.deep_view();
    let ghost b = more.deep_view();
    calls.append(&mut more);
    assert(calls.deep_view() =~= a + b);
    calls
}

/// Gives the interface back the addresses that were kept from the last time: the calls to make.
/// Where none were kept it is left alone.
pub fn restore_self_ip(
    addresses: &Vec<SystemAddress>,
    interface: &str,
    ipv4: &str,
    ipv6: &str,
) -> (r: Vec<Invocation>)
    ensures
        r.deep_view() == if ipv4@.len() == 0 && ipv6@.len() == 0 {
            Seq::empty()
        } else {
            v4_plan(interface@, ipv4@, v4_of(addresses@, interface@)) + v6_plan(
                interface@,
                ipv6@,
                v6_of(addresses@, interface@),
            )
        },
{
    if is_blank(ipv4) && is_blank(ipv6) {
        let none: Vec<Invocation> = Vec::new();
        assert(none.deep_view() =~= Seq::<Call>::empty());
        return none;
    }
    configure_self_ip(addresses, interface, ipv4, ipv6)
}

// ---------- Laws ----------

proof fn lemma_deletions(
    family: Text,
    interface: Text,
    current: Seq<Text>,
    keep: Option<Text>,
    x: Text,
)
    ensures
        deletions(family, interface, current, keep).contains(delete_address(family, interface, x))
            <==> current.contains(x) && keep != Some(x),
        forall|i: int|
            0 <= i < deletions(family, interface, current, keep).len() ==> (#[trigger] deletions(
                family,
                interface,
                current,
                keep,
            )[i]).args[2] == "delete"@,
    decreases current.len(),
{
    let all = deletions(family, interface, current, keep);
    let d = delete_address(family, interface, x);
    if current.len() > 0 {
        let front = current.drop_last();
        let some = deletions(family, interface, front, keep);
        lemma_deletions(family, interface, front, keep, x);
        let e = delete_address(family, interface, current.last());
        assert(e.args[5] == current.last() && d.args[5] == x);
        assert forall|i: int| 0 <= i < all.len() implies (#[trigger] all[i]).args[2] == "delete"@ by {
            if i < some.len() {
                assert(all[i] == some[i]);
            }
        }
        if all.contains(d) {
            let j = all.index_of(d);
            if j < some.len() {
                assert(some[j] == d);
                assert(some.contains(d));
                assert(current[front.index_of(x)] == x);
            } else {
                assert(current[current.len() - 1] == x);
            }
        }
        if current.contains(x) && keep != Some(x) {
            let k = current.index_of(x);
            if k < front.len() {
                assert(front[k] == x);
                assert(some.contains(d));
                let j = some.index_of(d);
                assert(all[j] == d);
            } else {
                assert(all[all.len() - 1] == d);
            }
        }
    }
}

/// Once its calls are made the interface has the IPv4 address it was given and no other: an address
/// is kept, or comes, exactly if it is that one.
pub proof fn law_v4_address_alone(interface: Text, ipv4: Text, current: Seq<Text>, x: Text)
    requires
        ipv4.len() > 0,
    ensures
        ({
            let plan = v4_plan(interface, ipv4, current);
            let kept = current.contains(x) && !plan.contains(
                delete_address("ip"@, interface, x),
            );
            kept || plan.contains(add_v4_address(interface, x)) <==> x == bare_address(ipv4)
        }),
{
    let target = bare_address(ipv4);
    let del = deletions("ip"@, interface, current, Some(target));
    let plan = v4_plan(interface, ipv4, current);
    let d = delete_address("ip"@, interface, x);
    let a = add_v4_address(interface, x);
    lemma_deletions("ip"@, interface, current, Some(target), x);
    lemma_delete_is_not_add();
    assert(a.args[2] == "add"@ && a.args[5] == x);
    assert(d.args[2] == "delete"@);
    if plan.contains(a) {
        let j = plan.index_of(a);
        if j < del.len() {
            assert(plan[j] == del[j]);
        } else {
            assert(plan[j] == add_v4_address(interface, target));
            assert(add_v4_address(interface, target).args[5] == target);
        }
    }
    if plan.contains(d) {
        let j = plan.index_of(d);
        if j < del.len() {
            assert(del[j] == d);
            assert(del.contains(d));
        } else {
            assert(add_v4_address(interface, target).args[2] == "add"@);
        }
    }
    if del.contains(d) {
        assert(plan[del.index_of(d)] == d);
    }
    if !current.contains(target) {
        assert(plan[plan.len() - 1] == add_v4_address(interface, target));
    }
}

/// The same of the IPv6 address, which is added with its prefix.
pub proof fn law_v6_address_alone(interface: Text, ipv6: Text, current: Seq<Text>, x: Text)
    requires
        ipv6.len() > 0,
    ensures
        ({
            let plan = v6_plan(interface, ipv6, current);
            let kept = current.contains(x) && !plan.contains(
                delete_address("ipv6"@, interface, x),
            );
            &&& kept ==> x == bare_address(ipv6)
            &&& current.contains(bare_address(ipv6)) ==> (kept <==> x == bare_address(ipv6))
            &&& plan.contains(add_v6_address(interface, x)) <==> x == ipv6 && !current.contains(
                bare_address(ipv6),
            )
        }),
{
    let target = bare_address(ipv6);
    let del = deletions("ipv6"@, interface, current, Some(target));
    let plan = v6_plan(interface, ipv6, current);
    let d = delete_address("ipv6"@, interface, x);
    let a = add_v6_address(interface, x);
    lemma_deletions("ipv6"@, interface, current, Some(target), x);
    lemma_delete_is_not_add();
    assert(a.args[2] == "add"@ && a.args[5] == x);
    assert(d.args[2] == "delete"@);
    if plan.contains(a) {
        let j = plan.index_of(a);
        if j < del.len() {
            assert(plan[j] == del[j]);
        } else {
            assert(plan[j] == add_v6_address(interface, ipv6));
            assert(add_v6_address(interface, ipv6).args[5] == ipv6);
        }
    }
    if plan.contains(d) {
        let j = plan.index_of(d);
        if j < del.len() {
            assert(del[j] == d);
            assert(del.contains(d));
        } else {
            assert(add_v6_address(interface, ipv6).args[2] == "add"@);
        }
    }
    if del.contains(d) {
        assert(plan[del.index_of(d)] == d);
    }
    if !current.contains(target) {
        assert(plan[plan.len() - 1] == add_v6_address(interface, ipv6));
    }
}

proof fn lemma_delete_is_not_add()
    ensures
        "delete"@ != "add"@,
{
    reveal_strlit("delete");
    reveal_strlit("add");
    assert("delete"@.len() == 6 && "add"@.len() == 3);
}

proof fn lemma_nothing_to_delete(
    family: Text,
    interface: Text,
    current: Seq<Text>,
    keep: Option<Text>,
)
    requires
        forall|i: int| 0 <= i < current.len() ==> keep == Some(#[trigger] current[i]),
    ensures
        deletions(family, interface, current, keep) == Seq::<Call>::empty(),
    decreases current.len(),
{
    if current.len() > 0 {
        assert(keep == Some(current[current.len() - 1]));
        assert forall|i: int| 0 <= i < current.drop_last().len() implies keep == Some(
            #[trigger] current.drop_last()[i],
        ) by {
            assert(current.drop_last()[i] == current[i]);
        }
        lemma_nothing_to_delete(family, interface, current.drop_last(), keep);
    }
}

/// Whether an interface has just the address that it is given, or none where it is given none.
pub open spec fn has_just(current: Seq<Text>, cidr: Text) -> bool {
    if cidr.len() == 0 {
        current.len() == 0
    } else {
        &&& current.contains(bare_address(cidr))
        &&& forall|i: int| 0 <= i < current.len() ==> #[trigger] current[i] == bare_address(cidr)
    }
}

/// An interface that has just its IPv4 address, or none where it has to have none, is left alone.
pub proof fn law_configured_v4_is_left_alone(interface: Text, ipv4: Text, current: Seq<Text>)
    requires
        has_just(current, ipv4),
    ensures
        v4_plan(interface, ipv4, current) == Seq::<Call>::empty(),
{
    if ipv4.len() > 0 {
        lemma_nothing_to_delete("ip"@, interface, current, Some(bare_address(ipv4)));
    } else {
        lemma_nothing_to_delete("ip"@, interface, current, None);
    }
}

/// The same of its IPv6 address.
pub proof fn law_configured_v6_is_left_alone(interface: Text, ipv6: Text, current: Seq<Text>)
    requires
        has_just(current, ipv6),
    ensures
        v6_plan(interface, ipv6, current) == Seq::<Call>::empty(),
{
    if ipv6.len() > 0 {
        lemma_nothing_to_delete("ipv6"@, interface, current, Some(bare_address(ipv6)));
    } else {
        lemma_nothing_to_delete("ipv6"@, interface, current, None);
    }
}

/// An interface that is given no address of a family loses all that it has of it.
pub proof fn law_no_address_is_left(interface: Text, current: Seq<Text>, x: Text)
    ensures
        v4_plan(interface, Seq::empty(), current).contains(delete_address("ip"@, interface, x))
            <==> current.contains(x),
        v6_plan(interface, Seq::empty(), current).contains(delete_address("ipv6"@, interface, x))
            <==> current.contains(x),
{
    lemma_deletions("ip"@, interface, current, None, x);
    lemma_deletions("ipv6"@, interface, current, None, x);
}

} // verus!
