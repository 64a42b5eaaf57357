//! What holds of the command lines and of the tunnel's configuration: everything that a change or a
//! snapshot gives stands in them, and nothing else does.
use vstd::prelude::*;

use crate::answers::{call_for, ips_call, listed_handshakes, told_by};
use crate::commands::{
    amnezia_args, endpoint_change, ips_change, law_added_ips, plain_switch, port_change, psk_to_set,
    removal, tool, update_calls, AmneziaConfig, Call,
};
use crate::install::{config_text, interface_section, peer_section, peer_sections};
use crate::lan::{endpoint_in_nets, Net};
use crate::model::{Ask, PeerView, PskView, Told, UpdateView};
use crate::number::decimal;
use crate::output_laws::law_nonempty_holds;
use crate::text::{
    distinct, join, lemma_split_join, lines, minus, nonempty, split, strict_utf8, trims, utf8_lossy,
    Text,
};
use crate::text_laws::law_difference;
use crate::wg::{
    allowed_ips_in, endpoint_in, handshake_keys, handshake_seconds, keys_with_psk, CommandOutput,
};

verus! {

// ---------- Command lines ----------

/// Whether a command line for a peer gives an option this value. The options stand in pairs after
/// the peer's key.
pub open spec fn gives(args: Seq<Text>, name: Text, value: Text) -> bool {
    exists|k: int| gives_at(args, name, value, k)
}

/// Whether the option stands at this place.
pub open spec fn gives_at(args: Seq<Text>, name: Text, value: Text, k: int) -> bool {
    4 <= k && k + 1 < args.len() && k % 2 == 0 && args[k] == name && args[k + 1] == value
}

/// Whether a command line for a peer gives an option no value.
pub open spec fn leaves(args: Seq<Text>, name: Text) -> bool {
    forall|k: int| 4 <= k < args.len() && k % 2 == 0 ==> #[trigger] args[k] != name
}

proof fn lemma_option_names()
    ensures
        "preshared-key"@ != "endpoint"@,
        "preshared-key"@ != "persistent-keepalive"@,
        "preshared-key"@ != "allowed-ips"@,
        "endpoint"@ != "persistent-keepalive"@,
        "endpoint"@ != "allowed-ips"@,
        "persistent-keepalive"@ != "allowed-ips"@,
{
    reveal_strlit("preshared-key");
    reveal_strlit("endpoint");
    reveal_strlit("persistent-keepalive");
    reveal_strlit("allowed-ips");
    assert("preshared-key"@.len() == 13);
    assert("endpoint"@.len() == 8);
    assert("persistent-keepalive"@.len() == 20);
    assert("allowed-ips"@.len() == 11);
}

/// An update gives the peer every field that it holds and leaves every other one alone. A key to be
/// set is taken from the file; an empty key has the peer removed before, and nothing else has.
pub proof fn law_update_gives_every_field(
    tool: Text,
    interface: Text,
    u: UpdateView,
    psk_path: Text,
)
    ensures
        ({
            let calls = update_calls(tool, interface, u, psk_path);
            let args = calls.last().args;
            &&& calls.last().program == tool
            &&& args.len() >= 4
            &&& args.len() % 2 == 0
            &&& args[0] == "set"@
            &&& args[1] == interface
            &&& args[2] == "peer"@
            &&& args[3] == u.pubkey
            &&& match u.endpoint {
                Some(ep) => gives(args, "endpoint"@, ep),
                None => leaves(args, "endpoint"@),
            }
            &&& match u.persistent_keepalive {
                Some(ka) => gives(args, "persistent-keepalive"@, decimal(ka as nat)),
                None => leaves(args, "persistent-keepalive"@),
            }
            &&& match u.allowed_ips {
                Some(ips) => if ips.len() > 0 {
                    gives(args, "allowed-ips"@, join(ips, ","@))
                } else {
                    leaves(args, "allowed-ips"@)
                },
                None => leaves(args, "allowed-ips"@),
            }
            &&& match u.preshared_key {
                Some(k) => if k.len() > 0 {
                    gives(args, "preshared-key"@, psk_path) && psk_to_set(u) == Some(k)
                } else {
                    leaves(args, "preshared-key"@) && psk_to_set(u) is None
                },
                None => leaves(args, "preshared-key"@) && psk_to_set(u) is None,
            }
            &&& if u.preshared_key == Some(Seq::<char>::empty()) {
                calls.len() == 2 && calls[0].program == tool && calls[0].args == seq![
                    "set"@,
                    interface,
                    "peer"@,
                    u.pubkey,
                    "remove"@,
                ]
            } else {
                calls.len() == 1
            }
        }),
{
    lemma_option_names();
    if u.preshared_key is Some && u.preshared_key->0.len() == 0 {
        assert(u.preshared_key->0 =~= Seq::<char>::empty());
    }
    let calls = update_calls(tool, interface, u, psk_path);
    let args = calls.last().args;
    let a: int = if psk_to_set(u) is Some {
        2
    } else {
        0
    };
    let b: int = if u.endpoint is Some {
        2
    } else {
        0
    };
    let c: int = if u.persistent_keepalive is Some {
        2
    } else {
        0
    };
    if psk_to_set(u) is Some {
        assert(gives_at(args, "preshared-key"@, psk_path, 4));
    }
    if u.endpoint is Some {
        assert(gives_at(args, "endpoint"@, u.endpoint->0, 4 + a));
    }
    if u.persistent_keepalive is Some {
        assert(gives_at(
            args,
            "persistent-keepalive"@,
            decimal(u.persistent_keepalive->0 as nat),
            4 + a + b,
        ));
    }
    if u.allowed_ips is Some && u.allowed_ips->0.len() > 0 {
        assert(gives_at(args, "allowed-ips"@, join(u.allowed_ips->0, ","@), 4 + a + b + c));
    }
    if u.preshared_key == Some(Seq::<char>::empty()) {
        assert(calls[0].args =~= seq!["set"@, interface, "peer"@, u.pubkey, "remove"@]);
    }
}

/// The addresses that a peer is given are told apart again at the commas, all of them.
pub proof fn law_given_addresses_read_back(
    tool: Text,
    interface: Text,
    pubkey: Text,
    ips: Seq<Text>,
)
    requires
        ips.len() > 0,
        forall|i: int| 0 <= i < ips.len() ==> !(#[trigger] ips[i]).contains(','),
    ensures
        ({
            let c = ips_change(tool, interface, pubkey, ips);
            &&& c.program == tool
            &&& c.args.len() == 6
            &&& c.args.take(4) == seq!["set"@, interface, "peer"@, pubkey]
            &&& c.args[4] == "allowed-ips"@
            &&& split(c.args[5], ',') == ips
        }),
{
    reveal_strlit(",");
    assert(","@ =~= seq![',']);
    lemma_split_join(ips, ',');
    assert(ips_change(tool, interface, pubkey, ips).args.take(4) =~= seq![
        "set"@,
        interface,
        "peer"@,
        pubkey,
    ]);
}

/// The command lines of the changes that concern one thing.
pub proof fn law_plain_changes(
    tool: Text,
    interface: Text,
    pubkey: Text,
    endpoint: Text,
    port: u16,
)
    ensures
        removal(tool, interface, pubkey) == (Call {
            program: tool,
            args: seq!["set"@, interface, "peer"@, pubkey, "remove"@],
        }),
        endpoint_change(tool, interface, pubkey, endpoint) == (Call {
            program: tool,
            args: seq!["set"@, interface, "peer"@, pubkey, "endpoint"@, endpoint],
        }),
        port_change(tool, interface, port) == (Call {
            program: tool,
            args: seq!["set"@, interface, "listen-port"@, decimal(port as nat)],
        }),
{
    assert(removal(tool, interface, pubkey).args =~= seq![
        "set"@,
        interface,
        "peer"@,
        pubkey,
        "remove"@,
    ]);
    assert(endpoint_change(tool, interface, pubkey, endpoint).args =~= seq![
        "set"@,
        interface,
        "peer"@,
        pubkey,
        "endpoint"@,
        endpoint,
    ]);
}

/// The tool with obfuscation is used exactly if the switch says `1` or `true`.
pub proof fn law_tool(use_awg: Option<Text>)
    ensures
        use_awg == Some("1"@) || use_awg == Some("true"@) ==> tool(use_awg) == "awg.exe"@,
        use_awg != Some("1"@) && use_awg != Some("true"@) ==> tool(use_awg) == "wg.exe"@,
        plain_switch(use_awg) <==> use_awg == Some("1"@) || use_awg == Some("true"@),
{
}

/// Whether a text is there and holds anything.
pub open spec fn is_there(t: Option<Text>) -> bool {
    t is Some && t->0.len() > 0
}

/// One for a condition that holds.
pub open spec fn one_if(b: bool) -> int {
    if b {
        1
    } else {
        0
    }
}

/// Every obfuscation setting is given under its name: the nine numbers in their order, and after
/// them each of the five texts that is there, in theirs.
pub proof fn law_every_setting_is_given(interface: Text, c: AmneziaConfig)
    ensures
        ({
            let args = amnezia_args(interface, c);
            let i1 = c.i1.deep_view();
            let i2 = c.i2.deep_view();
            let i3 = c.i3.deep_view();
            let i4 = c.i4.deep_view();
            let i5 = c.i5.deep_view();
            let n1 = 11 + one_if(is_there(i1));
            let n2 = n1 + one_if(is_there(i2));
            let n3 = n2 + one_if(is_there(i3));
            let n4 = n3 + one_if(is_there(i4));
            &&& args.len() == n4 + one_if(is_there(i5))
            &&& args[0] == "set"@
            &&& args[1] == interface
            &&& args[2] == "jc="@ + decimal(c.jc as nat)
            &&& args[3] == "jmin="@ + decimal(c.jmin as nat)
            &&& args[4] == "jmax="@ + decimal(c.jmax as nat)
            &&& args[5] == "s1="@ + decimal(c.s1 as nat)
            &&& args[6] == "s2="@ + decimal(c.s2 as nat)
            &&& args[7] == "h1="@ + decimal(c.h1 as nat)
            &&& args[8] == "h2="@ + decimal(c.h2 as nat)
            &&& args[9] == "h3="@ + decimal(c.h3 as nat)
            &&& args[10] == "h4="@ + decimal(c.h4 as nat)
            &&& is_there(i1) ==> args[11] == "i1="@ + i1->0
            &&& is_there(i2) ==> args[n1] == "i2="@ + i2->0
            &&& is_there(i3) ==> args[n2] == "i3="@ + i3->0
            &&& is_there(i4) ==> args[n3] == "i4="@ + i4->0
            &&& is_there(i5) ==> args[n4] == "i5="@ + i5->0
        }),
{
}

// ---------- Questions and answers ----------

/// Every question is put to the tool about the interface, and about the peer where it is about one;
/// what the tool cannot do in one call is not asked of it.
pub proof fn law_questions(tool: Text, interface: Text, ask: Ask)
    ensures
        ({
            let call = call_for(tool, interface, ask);
            match ask {
                Ask::Recent { .. } | Ask::LanActive { .. } | Ask::Handshakes => call == Some(
                    Call { program: tool, args: seq!["show"@, interface, "latest-handshakes"@] },
                ),
                Ask::Peers => call == Some(
                    Call { program: tool, args: seq!["show"@, interface, "peers"@] },
                ),
                Ask::PeersWithPsk => call == Some(
                    Call { program: tool, args: seq!["show"@, interface, "preshared-keys"@] },
                ),
                Ask::Endpoint { pubkey }
                | Ask::AllowedIps { pubkey }
                | Ask::AddIps { pubkey, .. }
                | Ask::RemoveIps { pubkey, .. } => call == Some(
                    Call { program: tool, args: seq!["show"@, interface, "peers"@, pubkey] },
                ),
                Ask::SetEndpoint { pubkey, endpoint } => call == Some(
                    Call {
                        program: tool,
                        args: seq!["set"@, interface, "peer"@, pubkey, "endpoint"@, endpoint],
                    },
                ),
                Ask::RemovePeer { pubkey } => call == Some(
                    Call {
                        program: tool,
                        args: seq!["set"@, interface, "peer"@, pubkey, "remove"@],
                    },
                ),
                Ask::SetListenPort { port } => call == Some(
                    Call {
                        program: tool,
                        args: seq!["set"@, interface, "listen-port"@, decimal(port as nat)],
                    },
                ),
                Ask::UpdatePeer(_)
                | Ask::SwitchToLan { .. }
                | Ask::ConfigureSelfIp { .. }
                | Ask::ApplyAmnezia
                | Ask::Install { .. }
                | Ask::ApplyRoutes
                | Ask::Done => call is None,
            }
        }),
{
    match ask {
        Ask::SetEndpoint { pubkey, endpoint } => {
            law_plain_changes(tool, interface, pubkey, endpoint, 0);
        },
        Ask::RemovePeer { pubkey } => {
            law_plain_changes(tool, interface, pubkey, Seq::empty(), 0);
        },
        Ask::SetListenPort { port } => {
            law_plain_changes(tool, interface, Seq::empty(), Seq::empty(), port);
        },
        _ => {},
    }
}

/// After addresses were added, the peer is given those that the tool told and those that were to be
/// added; after some were taken away, those that the tool told but them.
pub proof fn law_addresses_change_as_asked(
    tool: Text,
    interface: Text,
    pubkey: Text,
    ips: Seq<Text>,
    output: CommandOutput,
    x: Text,
) -> (lists: (Seq<Text>, Seq<Text>))
    ensures
        ({
            let current = allowed_ips_in(utf8_lossy(output.stdout@));
            &&& lists.0.contains(x) <==> current.contains(x) || ips.contains(x)
            &&& lists.0.no_duplicates()
            &&& lists.1.contains(x) <==> current.contains(x) && !ips.contains(x)
        }),
        ips_call(tool, interface, Ask::AddIps { pubkey, ips }, Some(output)) == Some(
            Call {
                program: tool,
                args: seq![
                    "set"@,
                    interface,
                    "peer"@,
                    pubkey,
                    "allowed-ips"@,
                    join(lists.0, ","@),
                ],
            },
        ),
        ips_call(tool, interface, Ask::RemoveIps { pubkey, ips }, Some(output)) == Some(
            Call {
                program: tool,
                args: seq![
                    "set"@,
                    interface,
                    "peer"@,
                    pubkey,
                    "allowed-ips"@,
                    join(lists.1, ","@),
                ],
            },
        ),
        ips_call(tool, interface, Ask::AddIps { pubkey, ips }, None) is None,
        ips_call(tool, interface, Ask::RemoveIps { pubkey, ips }, None) is None,
{
    let current = allowed_ips_in(utf8_lossy(output.stdout@));
    let more = distinct(current + ips);
    let less = minus(current, ips);
    law_added_ips(current, ips, x);
    law_difference(current, ips, x);
    assert(ips_change(tool, interface, pubkey, more).args =~= seq![
        "set"@,
        interface,
        "peer"@,
        pubkey,
        "allowed-ips"@,
        join(more, ","@),
    ]);
    assert(ips_change(tool, interface, pubkey, less).args =~= seq![
        "set"@,
        interface,
        "peer"@,
        pubkey,
        "allowed-ips"@,
        join(less, ","@),
    ]);
    (more, less)
}

/// A peer counts as recent just if the tool tells a handshake of it that is at most so old, and as
/// in use over the local network just if moreover the endpoint is there, local networks are used,
/// and the handshake is at most twenty seconds old.
pub proof fn law_recent_answers(
    output: Option<CommandOutput>,
    pubkey: Text,
    endpoint: Text,
    max_age: u64,
    now: u64,
    lan: bool,
    nets: Seq<Net>,
)
    ensures
        ({
            let h = handshake_seconds(output, pubkey);
            &&& told_by(Ask::Recent { pubkey, max_age }, output, now, lan, nets) == Told::Flag(
                h is Some && now <= h->0 + max_age,
            )
            &&& told_by(Ask::LanActive { pubkey, endpoint }, output, now, lan, nets) == Told::Flag(
                lan && endpoint_in_nets(endpoint, nets) && h is Some && now <= h->0 + 20,
            )
        }),
{
}

/// A change is reported as made just if its command was run and succeeded.
pub proof fn law_change_answers(
    ask: Ask,
    output: Option<CommandOutput>,
    now: u64,
    lan: bool,
    nets: Seq<Net>,
)
    requires
        ask is SetEndpoint || ask is AddIps || ask is RemoveIps || ask is RemovePeer
            || ask is UpdatePeer || ask is SetListenPort,
    ensures
        told_by(ask, output, now, lan, nets) == Told::Flag(output is Some && output->0.success),
{
}

/// The peers of the interface are the lines that hold anything, without the white space around
/// them; the other lists are what the output tells, and nothing where the command was not run.
pub proof fn law_listing_answers(
    o: CommandOutput,
    pubkey: Text,
    now: u64,
    lan: bool,
    nets: Seq<Net>,
    x: Text,
)
    ensures
        told_by(Ask::Peers, Some(o), now, lan, nets) matches Told::List(Some(l)) && (l.contains(x)
            <==> x.len() > 0 && trims(lines(utf8_lossy(o.stdout@))).contains(x)),
        told_by(Ask::PeersWithPsk, Some(o), now, lan, nets) == Told::List(
            Some(distinct(keys_with_psk(nonempty(trims(lines(utf8_lossy(o.stdout@))))))),
        ),
        told_by(Ask::AllowedIps { pubkey }, Some(o), now, lan, nets) == Told::List(
            Some(allowed_ips_in(utf8_lossy(o.stdout@))),
        ),
        o.success ==> told_by(Ask::Endpoint { pubkey }, Some(o), now, lan, nets) == Told::Text(
            endpoint_in(utf8_lossy(o.stdout@)),
        ),
        !o.success ==> told_by(Ask::Endpoint { pubkey }, Some(o), now, lan, nets) == Told::Text(
            None,
        ),
        o.success && strict_utf8(o.stdout@) is Some ==> listed_handshakes(Some(o)) == Some(
            distinct(handshake_keys(nonempty(trims(lines(strict_utf8(o.stdout@)->0))))),
        ),
        !o.success || strict_utf8(o.stdout@) is None ==> listed_handshakes(Some(o)) is None,
        told_by(Ask::Handshakes, Some(o), now, lan, nets) == Told::List(listed_handshakes(Some(o))),
        told_by(Ask::Handshakes, None, now, lan, nets) == Told::List(None),
        told_by(Ask::Peers, None, now, lan, nets) == Told::List(None),
        told_by(Ask::PeersWithPsk, None, now, lan, nets) == Told::List(None),
        told_by(Ask::AllowedIps { pubkey }, None, now, lan, nets) == Told::List(None),
        told_by(Ask::Endpoint { pubkey }, None, now, lan, nets) == Told::Text(None),
{
    law_nonempty_holds(trims(lines(utf8_lossy(o.stdout@))), x);
}

// ---------- The configuration ----------

/// Whether a line sets the name.
pub open spec fn sets(line: Text, name: Text) -> bool {
    name.is_prefix_of(line)
}

proof fn lemma_not_set(line: Text, name: Text, k: int)
    requires
        0 <= k < name.len(),
        k < line.len() ==> line[k] != name[k],
    ensures
        !sets(line, name),
{
    if name.is_prefix_of(line) {
        assert(line.take(name.len() as int)[k] == line[k]);
        assert(name == line.take(name.len() as int));
    }
}

/// The section of this node has a line for its addresses exactly if it has one, and that line holds
/// every address that is there: one alone, or the IPv4 address, a comma and a space, and the IPv6
/// address. The key and the port stand before it.
pub proof fn law_own_addresses_are_set(private_key: Text, port: u16, ipv4: Text, ipv6: Text)
    ensures
        ({
            let s = interface_section(private_key, port, ipv4, ipv6);
            let head = seq![
                "[Interface]"@,
                "PrivateKey = "@ + private_key,
                "ListenPort = "@ + decimal(port as nat),
            ];
            &&& (exists|i: int| 0 <= i < s.len() && sets(#[trigger] s[i], "Address = "@))
                <==> ipv4.len() > 0 || ipv6.len() > 0
            &&& ipv4.len() > 0 && ipv6.len() > 0 ==> s == head.push(
                "Address = "@ + ipv4 + ", "@ + ipv6,
            )
            &&& ipv4.len() > 0 && ipv6.len() == 0 ==> s == head.push("Address = "@ + ipv4)
            &&& ipv4.len() == 0 && ipv6.len() > 0 ==> s == head.push("Address = "@ + ipv6)
            &&& ipv4.len() == 0 && ipv6.len() == 0 ==> s == head
        }),
{
    reveal_strlit("[Interface]");
    reveal_strlit("PrivateKey = ");
    reveal_strlit("ListenPort = ");
    reveal_strlit("Address = ");
    let s = interface_section(private_key, port, ipv4, ipv6);
    let name = "Address = "@;
    lemma_not_set("[Interface]"@, name, 0);
    lemma_not_set("PrivateKey = "@ + private_key, name, 0);
    lemma_not_set("ListenPort = "@ + decimal(port as nat), name, 0);
    let two = seq![ipv4, ipv6];
    assert(two.drop_last() =~= seq![ipv4]);
    assert(join(seq![ipv4], ", "@) == ipv4);
    assert(join(seq![ipv6], ", "@) == ipv6);
    assert(join(two, ", "@) == join(two.drop_last(), ", "@) + ", "@ + ipv6);
    assert("Address = "@ + (ipv4 + ", "@ + ipv6) =~= "Address = "@ + ipv4 + ", "@ + ipv6);
    if ipv4.len() > 0 || ipv6.len() > 0 {
        assert(s[3].take(name.len() as int) =~= name);
        assert(sets(s[3], name));
    }
}

/// The configuration begins with the section of this node, its addresses included.
pub proof fn law_config_begins_with_this_node(
    private_key: Text,
    port: u16,
    ipv4: Text,
    ipv6: Text,
    keys: Seq<Text>,
    peers: Map<Text, PeerView>,
    assigned: Map<Text, Text>,
)
    ensures
        ({
            let t = config_text(private_key, port, ipv4, ipv6, keys, peers, assigned);
            let head = "[Interface]"@ + "\n"@ + ("PrivateKey = "@ + private_key) + "\n"@ + (
            "ListenPort = "@ + decimal(port as nat));
            &&& ipv4.len() > 0 && ipv6.len() > 0 ==> (head + "\n"@ + ("Address = "@ + ipv4 + ", "@
                + ipv6)).is_prefix_of(t)
            &&& ipv4.len() > 0 && ipv6.len() == 0 ==> (head + "\n"@ + (
            "Address = "@ + ipv4)).is_prefix_of(t)
            &&& ipv4.len() == 0 && ipv6.len() > 0 ==> (head + "\n"@ + (
            "Address = "@ + ipv6)).is_prefix_of(t)
            &&& head.is_prefix_of(t)
        }),
{
    law_own_addresses_are_set(private_key, port, ipv4, ipv6);
    let s = interface_section(private_key, port, ipv4, ipv6);
    let rest = peer_sections(keys, peers, assigned);
    let nl = "\n"@;
    lemma_join_prefix(s, rest, nl);
    let three = seq![
        "[Interface]"@,
        "PrivateKey = "@ + private_key,
        "ListenPort = "@ + decimal(port as nat),
    ];
    let two = three.drop_last();
    let one = two.drop_last();
    assert(one =~= seq!["[Interface]"@]);
    assert(join(one, nl) == "[Interface]"@);
    assert(join(two, nl) == join(one, nl) + nl + two.last());
    assert(join(three, nl) == join(two, nl) + nl + three.last());
    let t = config_text(private_key, port, ipv4, ipv6, keys, peers, assigned);
    if s.len() == 4 {
        assert(s.drop_last() =~= three);
        assert(join(s, nl) == join(three, nl) + nl + s.last());
        assert(join(s, nl).take(join(three, nl).len() as int) =~= join(three, nl));
        lemma_prefix_of_prefix(join(three, nl), join(s, nl), t);
    }
}

proof fn lemma_prefix_of_prefix(a: Text, b: Text, t: Text)
    requires
        b.is_prefix_of(t),
        a.len() <= b.len(),
        b.take(a.len() as int) == a,
    ensures
        a.is_prefix_of(t),
{
    assert(t.take(a.len() as int) =~= b.take(a.len() as int)) by {
        assert forall|i: int| 0 <= i < a.len() implies t[i] == b[i] by {
            assert(t.take(b.len() as int)[i] == t[i]);
        }
    }
}

proof fn lemma_join_prefix(a: Seq<Text>, b: Seq<Text>, sep: Text)
    requires
        a.len() > 0,
    ensures
        join(a, sep).is_prefix_of(join(a + b, sep)),
    decreases b.len(),
{
    if b.len() == 0 {
        assert(a + b =~= a);
        assert(join(a, sep).take(join(a, sep).len() as int) =~= join(a, sep));
    } else {
        let c = b.drop_last();
        lemma_join_prefix(a, c, sep);
        let all = a + b;
        assert(all.drop_last() =~= a + c);
        let front = join(a + c, sep);
        let whole = join(all, sep);
        assert(whole == front + sep + b.last());
        assert(whole.take(front.len() as int) =~= front);
        lemma_prefix_of_prefix(join(a, sep), front, whole);
    }
}

/// The section of a peer holds a line for every field that the snapshot gives the peer, with its
/// value, and for no other.
pub proof fn law_peer_section_holds_every_field(pubkey: Text, p: PeerView)
    ensures
        ({
            let s = peer_section(pubkey, p);
            &&& s.len() >= 3
            &&& s[0] == Seq::<char>::empty()
            &&& s[1] == "[Peer]"@
            &&& s[2] == "PublicKey = "@ + pubkey
            &&& match p.endpoint {
                Some(ep) => s.contains("Endpoint = "@ + ep),
                None => unset(s, "Endpoint = "@),
            }
            &&& match p.preshared_key {
                PskView::Key(k) => s.contains("PresharedKey = "@ + k),
                _ => unset(s, "PresharedKey = "@),
            }
            &&& match p.persistent_keepalive {
                Some(k) => s.contains("PersistentKeepalive = "@ + decimal(k as nat)),
                None => unset(s, "PersistentKeepalive = "@),
            }
            &&& match p.allowed_ips {
                Some(ips) => if ips.len() > 0 {
                    s.contains("AllowedIPs = "@ + join(ips, ", "@))
                } else {
                    unset(s, "AllowedIPs = "@)
                },
                None => unset(s, "AllowedIPs = "@),
            }
        }),
{
    let s = peer_section(pubkey, p);
    let a: int = one_if(p.endpoint is Some);
    let b: int = one_if(p.preshared_key is Key);
    let c: int = one_if(p.persistent_keepalive is Some);
    if p.endpoint is Some {
        assert(s[3] == "Endpoint = "@ + p.endpoint->0);
    }
    if p.preshared_key is Key {
        assert(s[3 + a] == "PresharedKey = "@ + p.preshared_key->Key_0);
    }
    if p.persistent_keepalive is Some {
        assert(s[3 + a + b] == "PersistentKeepalive = "@ + decimal(
            p.persistent_keepalive->0 as nat,
        ));
    }
    if p.allowed_ips is Some && p.allowed_ips->0.len() > 0 {
        assert(s[3 + a + b + c] == "AllowedIPs = "@ + join(p.allowed_ips->0, ", "@));
    }
    lemma_lines_told_apart(Seq::empty(), Seq::empty());
    assert forall|i: int| 0 <= i < s.len() && p.endpoint is None implies !sets(
        #[trigger] s[i],
        "Endpoint = "@,
    ) by {
        lemma_line_of(pubkey, p, i);
    }
    assert forall|i: int| 0 <= i < s.len() && p.preshared_key !is Key implies !sets(
        #[trigger] s[i],
        "PresharedKey = "@,
    ) by {
        lemma_line_of(pubkey, p, i);
    }
    assert forall|i: int| 0 <= i < s.len() && p.persistent_keepalive is None implies !sets(
        #[trigger] s[i],
        "PersistentKeepalive = "@,
    ) by {
        lemma_line_of(pubkey, p, i);
    }
    assert forall|i: int|
        0 <= i < s.len() && (p.allowed_ips is None || p.allowed_ips->0.len() == 0) implies !sets(
        #[trigger] s[i],
        "AllowedIPs = "@,
    ) by {
        lemma_line_of(pubkey, p, i);
    }
}

/// Whether no line sets the name.
pub open spec fn unset(s: Seq<Text>, name: Text) -> bool {
    forall|i: int| 0 <= i < s.len() ==> !sets(#[trigger] s[i], name)
}

/// A line of a peer's section is one of those that may stand there, and sets nothing else.
proof fn lemma_line_of(pubkey: Text, p: PeerView, i: int)
    requires
        0 <= i < peer_section(pubkey, p).len(),
    ensures
        ({
            let line = peer_section(pubkey, p)[i];
            &&& sets(line, "Endpoint = "@) ==> p.endpoint is Some
            &&& sets(line, "PresharedKey = "@) ==> p.preshared_key is Key
            &&& sets(line, "PersistentKeepalive = "@) ==> p.persistent_keepalive is Some
            &&& sets(line, "AllowedIPs = "@) ==> p.allowed_ips is Some && p.allowed_ips->0.len()
                > 0
        }),
{
    let line = peer_section(pubkey, p)[i];
    lemma_lines_told_apart(pubkey, Seq::empty());
    if p.endpoint is Some {
        lemma_lines_told_apart(pubkey, p.endpoint->0);
    }
    if p.preshared_key is Key {
        lemma_lines_told_apart(pubkey, p.preshared_key->Key_0);
    }
    if p.persistent_keepalive is Some {
        lemma_lines_told_apart(pubkey, decimal(p.persistent_keepalive->0 as nat));
    }
    if p.allowed_ips is Some && p.allowed_ips->0.len() > 0 {
        lemma_lines_told_apart(pubkey, join(p.allowed_ips->0, ", "@));
    }
    assert({
        ||| line == Seq::<char>::empty()
        ||| line == "[Peer]"@
        ||| line == "PublicKey = "@ + pubkey
        ||| p.endpoint is Some && line == "Endpoint = "@ + p.endpoint->0
        ||| p.preshared_key is Key && line == "PresharedKey = "@ + p.preshared_key->Key_0
        ||| p.persistent_keepalive is Some && line == "PersistentKeepalive = "@ + decimal(
            p.persistent_keepalive->0 as nat,
        )
        ||| p.allowed_ips is Some && p.allowed_ips->0.len() > 0 && line == "AllowedIPs = "@ + join(
            p.allowed_ips->0,
            ", "@,
        )
    });
}

proof fn lemma_lines_told_apart(pubkey: Text, v: Text)
    ensures
        ({
            let e = "Endpoint = "@;
            let k = "PresharedKey = "@;
            let a = "PersistentKeepalive = "@;
            let i = "AllowedIPs = "@;
            &&& !sets(Seq::empty(), e) && !sets(Seq::empty(), k) && !sets(Seq::empty(), a) && !sets(
                Seq::empty(),
                i,
            )
            &&& !sets("[Peer]"@, e) && !sets("[Peer]"@, k) && !sets("[Peer]"@, a) && !sets(
                "[Peer]"@,
                i,
            )
            &&& !sets("PublicKey = "@ + pubkey, e) && !sets("PublicKey = "@ + pubkey, k) && !sets(
                "PublicKey = "@ + pubkey,
                a,
            ) && !sets("PublicKey = "@ + pubkey, i)
            &&& !sets(e + v, k) && !sets(e + v, a) && !sets(e + v, i)
            &&& !sets(k + v, e) && !sets(k + v, a) && !sets(k + v, i)
            &&& !sets(a + v, e) && !sets(a + v, k) && !sets(a + v, i)
            &&& !sets(i + v, e) && !sets(i + v, k) && !sets(i + v, a)
        }),
{
    reveal_strlit("Endpoint = ");
    reveal_strlit("PresharedKey = ");
    reveal_strlit("PersistentKeepalive = ");
    reveal_strlit("AllowedIPs = ");
    reveal_strlit("PublicKey = ");
    reveal_strlit("[Peer]");
    let e = "Endpoint = "@;
    let k = "PresharedKey = "@;
    let a = "PersistentKeepalive = "@;
    let i = "AllowedIPs = "@;
    let p = "PublicKey = "@ + pubkey;
    let none = Seq::<char>::empty();
    lemma_not_set(none, e, 0);
    lemma_not_set(none, k, 0);
    lemma_not_set(none, a, 0);
    lemma_not_set(none, i, 0);
    lemma_not_set("[Peer]"@, e, 0);
    lemma_not_set("[Peer]"@, k, 0);
    lemma_not_set("[Peer]"@, a, 0);
    lemma_not_set("[Peer]"@, i, 0);
    lemma_not_set(p, e, 0);
    lemma_not_set(p, k, 1);
    lemma_not_set(p, a, 1);
    lemma_not_set(p, i, 0);
    lemma_not_set(e + v, k, 0);
    lemma_not_set(e + v, a, 0);
    lemma_not_set(e + v, i, 0);
    lemma_not_set(k + v, e, 0);
    lemma_not_set(k + v, a, 1);
    lemma_not_set(k + v, i, 0);
    lemma_not_set(a + v, e, 0);
    lemma_not_set(a + v, k, 1);
    lemma_not_set(a + v, i, 0);
    lemma_not_set(i + v, e, 0);
    lemma_not_set(i + v, k, 0);
    lemma_not_set(i + v, a, 0);
}

/// Every peer that stands behind no relay has its section in the configuration.
pub proof fn law_every_direct_peer_is_configured(
    keys: Seq<Text>,
    peers: Map<Text, PeerView>,
    assigned: Map<Text, Text>,
    i: int,
) -> (at: int)
    requires
        0 <= i < keys.len(),
        !assigned.contains_key(keys[i]),
    ensures
        ({
            let all = peer_sections(keys, peers, assigned);
            let s = peer_section(keys[i], peers[keys[i]]);
            0 <= at && at + s.len() <= all.len() && all.subrange(at, at + s.len()) == s
        }),
    decreases keys.len(),
{
    let front = keys.drop_last();
    let before = peer_sections(front, peers, assigned);
    let all = peer_sections(keys, peers, assigned);
    let s = peer_section(keys[i], peers[keys[i]]);
    if i == keys.len() - 1 {
        assert(all.subrange(before.len() as int, (before.len() + s.len()) as int) =~= s);
        before.len() as int
    } else {
        let at = law_every_direct_peer_is_configured(front, peers, assigned, i);
        assert(front[i] == keys[i]);
        assert(all.subrange(at, at + s.len()) =~= before.subrange(at, at + s.len()));
        at
    }
}

/// A peer that stands behind a relay adds nothing to the configuration.
pub proof fn law_relayed_peer_is_not_configured(
    keys: Seq<Text>,
    peers: Map<Text, PeerView>,
    assigned: Map<Text, Text>,
    pubkey: Text,
)
    ensures
        assigned.contains_key(pubkey) ==> peer_sections(keys.push(pubkey), peers, assigned)
            == peer_sections(keys, peers, assigned),
        peer_sections(Seq::empty(), peers, assigned) == Seq::<Text>::empty(),
{
    assert(keys.push(pubkey).drop_last() =~= keys);
}

} // verus!
