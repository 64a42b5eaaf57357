//! Answering the questions of a running procedure with the WireGuard command line tool.
use vstd::prelude::*;

use crate::commands::{
    add_ips_to_peer, endpoint_change, ips_change, port_change, removal, remove_ips_from_peer,
    remove_peer, set_listen_port, show, show_peer, update_wg_endpoint, with_ips, Call, Invocation,
};
use crate::lan::{endpoint_in_nets, is_lan_active, nets_wf, Net, HANDSHAKE_MAX_AGE_SECS};
use crate::model::{fits, Answer, Ask, Request, Told};
use crate::text::{distinct, lines, minus, nonempty, strict_utf8, trims, utf8_lossy, Text};
use crate::wg::{
    allowed_ips_in, endpoint_in, get_current_allowed_ips, get_current_endpoint, get_peers_with_psk,
    get_wg_latest_handshakes, handshake_keys, handshake_seconds, has_recent_handshake,
    keys_with_psk, peer_list, recent, CommandOutput,
};

verus! {

/// A call that asks for one thing about the whole interface.
pub open spec fn showing(tool: Text, interface: Text, what: Text) -> Call {
    Call { program: tool, args: seq!["show"@, interface, what] }
}

/// A call that asks for the description of a peer.
pub open spec fn showing_peer(tool: Text, interface: Text, pubkey: Text) -> Call {
    Call { program: tool, args: seq!["show"@, interface, "peers"@, pubkey] }
}

/// The call that a request is met with, where one call to the tool is enough. The addresses of a
/// peer are asked for before they are added to or taken from.
pub open spec fn call_for(tool: Text, interface: Text, ask: Ask) -> Option<Call> {
    match ask {
        Ask::Recent { .. } | Ask::Handshakes | Ask::LanActive { .. } => Some(
            showing(tool, interface, "latest-handshakes"@),
        ),
        Ask::Peers => Some(showing(tool, interface, "peers"@)),
        Ask::PeersWithPsk => Some(showing(tool, interface, "preshared-keys"@)),
        Ask::Endpoint { pubkey }
        | Ask::AllowedIps { pubkey }
        | Ask::AddIps { pubkey, .. }
        | Ask::RemoveIps { pubkey, .. } => Some(showing_peer(tool, interface, pubkey)),
        Ask::SetEndpoint { pubkey, endpoint } => Some(
            endpoint_change(tool, interface, pubkey, endpoint),
        ),
        Ask::RemovePeer { pubkey } => Some(removal(tool, interface, pubkey)),
        Ask::SetListenPort { port } => Some(port_change(tool, interface, port)),
        _ => None,
    }
}

/// The call that a request is met with, where one call to the tool is enough.
pub fn invocation_for(tool: &str, interface: &str, request: &Request) -> (r: Option<Invocation>)
    ensures
        match call_for(tool@, interface@, request.deep_view()) {
            Some(c) => r matches Some(i) && i.deep_view() == c,
            None => r is None,
        },
{
    match request {
        Request::Recent { .. } => Some(show(tool, interface, "latest-handshakes")),
        Request::Handshakes => Some(show(tool, interface, "latest-handshakes")),
        Request::LanActive { .. } => Some(show(tool, interface, "latest-handshakes")),
        Request::Peers => Some(show(tool, interface, "peers")),
        Request::PeersWithPsk => Some(show(tool, interface, "preshared-keys")),
        Request::Endpoint { pubkey } => Some(show_peer(tool, interface, pubkey.as_str())),
        Request::AllowedIps { pubkey } => Some(show_peer(tool, interface, pubkey.as_str())),
        Request::AddIps { pubkey, .. } => Some(show_peer(tool, interface, pubkey.as_str())),
        Request::RemoveIps { pubkey, .. } => Some(show_peer(tool, interface, pubkey.as_str())),
        Request::SetEndpoint { pubkey, endpoint } => Some(
            update_wg_endpoint(tool, interface, pubkey.as_str(), endpoint.as_str()),
        ),
        Request::RemovePeer { pubkey } => Some(remove_peer(tool, interface, pubkey.as_str())),
        Request::SetListenPort { port } => Some(set_listen_port(tool, interface, *port)),
        _ => None,
    }
}

/// The call that changes the addresses of a peer, of which the output tells the current ones.
pub open spec fn ips_call(
    tool: Text,
    interface: Text,
    ask: Ask,
    output: Option<CommandOutput>,
) -> Option<
    Call,
> {
    match output {
        Some(o) => {
            let current = allowed_ips_in(utf8_lossy(o.stdout@));
            match ask {
                Ask::AddIps { pubkey, ips } => Some(
                    ips_change(tool, interface, pubkey, with_ips(current, ips)),
                ),
                Ask::RemoveIps { pubkey, ips } => Some(
                    ips_change(tool, interface, pubkey, minus(current, ips)),
                ),
                _ => None,
            }
        },
        None => None,
    }
}

/// The call that changes the addresses of a peer, once the current ones were asked for.
pub fn ips_invocation_for(
    tool: &str,
    interface: &str,
    request: &Request,
    output: &Option<CommandOutput>,
) -> (r: Option<Invocation>)
    ensures
        match ips_call(tool@, interface@, request.deep_view(), *output) {
            Some(c) => r matches Some(i) && i.deep_view() == c,
            None => r is None,
        },
{
    match request {
        Request::AddIps { pubkey, ips } => add_ips_to_peer(
            tool,
            interface,
            pubkey.as_str(),
            output,
            ips,
        ),
        Request::RemoveIps { pubkey, ips } => remove_ips_from_peer(
            tool,
            interface,
            pubkey.as_str(),
            output,
            ips,
        ),
        _ => None,
    }
}

/// Whether a command was run and reported success.
pub open spec fn succeeded(output: Option<CommandOutput>) -> bool {
    output is Some && output->0.success
}

/// The keys that the handshakes are listed for, where the command could be used.
pub open spec fn listed_handshakes(output: Option<CommandOutput>) -> Option<Seq<Text>> {
    match output {
        Some(o) => if o.success {
            match strict_utf8(o.stdout@) {
                Some(t) => Some(distinct(handshake_keys(nonempty(trims(lines(t)))))),
                None => None,
            }
        } else {
            None
        },
        None => None,
    }
}

/// What the outcome of the call for a request tells. Changes are answered with whether they were
/// made.
pub open spec fn told_by(
    ask: Ask,
    output: Option<CommandOutput>,
    now_secs: u64,
    lan: bool,
    nets: Seq<Net>,
) -> Told {
    match ask {
        Ask::Recent { pubkey, max_age } => Told::Flag(
            recent(handshake_seconds(output, pubkey), now_secs, max_age),
        ),
        Ask::LanActive { pubkey, endpoint } => Told::Flag(
            lan && endpoint_in_nets(endpoint, nets) && recent(
                handshake_seconds(output, pubkey),
                now_secs,
                HANDSHAKE_MAX_AGE_SECS,
            ),
        ),
        Ask::Handshakes => Told::List(listed_handshakes(output)),
        Ask::Peers => Told::List(
            match output {
                Some(o) => Some(nonempty(trims(lines(utf8_lossy(o.stdout@))))),
                None => None,
            },
        ),
        Ask::PeersWithPsk => Told::List(
            match output {
                Some(o) => Some(
                    distinct(keys_with_psk(nonempty(trims(lines(utf8_lossy(o.stdout@)))))),
                ),
                None => None,
            },
        ),
        Ask::AllowedIps { .. } => Told::List(
            match output {
                Some(o) => Some(allowed_ips_in(utf8_lossy(o.stdout@))),
                None => None,
            },
        ),
        Ask::Endpoint { .. } => Told::Text(
            match output {
                Some(o) => if o.success {
                    endpoint_in(utf8_lossy(o.stdout@))
                } else {
                    None
                },
                None => None,
            },
        ),
        _ => Told::Flag(succeeded(output)),
    }
}

/// The answer that the outcome of the call for a request gives.
pub fn answer_from(
    request: &Request,
    output: &Option<CommandOutput>,
    now_secs: u64,
    lan: bool,
    my_nets: &Vec<Net>,
) -> (r: Answer)
    requires
        nets_wf(my_nets@),
    ensures
        r.deep_view() == told_by(request.deep_view(), *output, now_secs, lan, my_nets@),
        fits(request.deep_view(), r.deep_view()),
{
    match request {
        Request::Recent { pubkey, max_age } => Answer::Flag(
            has_recent_handshake(output, pubkey.as_str(), now_secs, *max_age),
        ),
        Request::LanActive { pubkey, endpoint } => Answer::Flag(
            is_lan_active(lan, my_nets, output, pubkey.as_str(), endpoint.as_str(), now_secs),
        ),
        Request::Handshakes => match get_wg_latest_handshakes(output) {
            Ok(m) => Answer::List(Some(m.key_list())),
            Err(_) => Answer::List(None),
        },
        Request::Peers => Answer::List(peer_list(output)),
        Request::PeersWithPsk => Answer::List(get_peers_with_psk(output)),
        Request::AllowedIps { .. } => Answer::List(get_current_allowed_ips(output)),
        Request::Endpoint { .. } => Answer::Text(get_current_endpoint(output)),
        _ => Answer::Flag(
            match output {
                Some(o) => o.success,
                None => false,
            },
        ),
    }
}

} // verus!
