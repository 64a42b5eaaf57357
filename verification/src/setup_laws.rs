//! What holds of setting the agent up: its keys and names, the installation of the tunnel, and the
//! settings that the environment gives. Where a law speaks of the outcome of a function, it holds of
//! whatever the function returns.
use vstd::prelude::*;

use crate::commands::{show, show_interface, show_peer, Call, Invocation};
use crate::config::{
    interface_name, mqtt_port, relay_cidr_v4, relay_cidr_v6, seconds_set, topic, MessageKind,
    Topics,
};
use crate::digest::{client_name, digest_text, hex_text, is_repeated, message_contents, news};
use crate::install::{
    install_ask, install_run, install_step, tunnel_port, InstallAsk, InstallStage, Installation,
};
use crate::keys::{base64_bytes, clamped, loaded, pair_with, public_key_of, KeyError, KeysView};
use crate::model::{NodeStatus, PeerMap};
use crate::number::{decimal, digit_char, digit_val, parse_unsigned, value};
use crate::output_laws::law_number_is_read_in_full;
use crate::port::{check_and_maybe_change_listen_port, try_change_port, PortChange};
use crate::register::{start_registration, RegisterRetry, RegisterStage};
use crate::relay::{check_and_apply_relay, RelayCheck, RelayTables};
use crate::retry::RetryTask;
use crate::schedule::{is_state_stale, network_checks, Features, Schedule};
use crate::self_ips::{
    configure_self_ip, restore_self_ip, v4_of, v4_plan, v6_of, v6_plan, SystemAddress,
};
use crate::strmap::without;
use crate::text::{trim, utf8_lossy, Text};
use crate::tls::{build_transport, TransportChoice, TransportView};
use crate::wg::{
    allowed_ips_in, endpoint_in, get_current_allowed_ips, get_current_endpoint,
    get_peer_handshake_seconds, handshake_in, has_recent_handshake, CommandOutput,
};

verus! {

// ---------- Keys ----------

/// Bytes made fit for a private key differ from those given only in the five bits that are fixed:
/// the first byte loses its remainder by eight, and the last one lies between 64 and 127 and keeps
/// its remainder by 64.
pub proof fn law_bytes_made_fit(bytes: Seq<u8>)
    requires
        bytes.len() == 32,
    ensures
        clamped(bytes).len() == 32,
        clamped(bytes)[0] == bytes[0] - bytes[0] % 8,
        64 <= clamped(bytes)[31] <= 127,
        clamped(bytes)[31] % 64 == bytes[31] % 64,
        forall|i: int| 1 <= i < 31 ==> #[trigger] clamped(bytes)[i] == bytes[i],
{
    let a: u8 = bytes[0];
    let b: u8 = bytes[31];
    assert(a & 248 == a - a % 8) by (bit_vector);
    assert(64 <= ((b & 127) | 64) && ((b & 127) | 64) <= 127) by (bit_vector);
    assert(((b & 127) | 64) % 64 == b % 64) by (bit_vector);
}

/// A private key gives its pair exactly if it stands for 32 bytes: it is kept as it is, and the
/// public key is the one that belongs to these bytes.
pub proof fn law_when_a_key_is_good(private_key: Text, bytes: Option<Seq<u8>>)
    ensures
        bytes is None ==> pair_with(private_key, bytes) == Err::<KeysView, KeyError>(
            KeyError::NotBase64,
        ),
        bytes is Some && bytes->0.len() != 32 ==> pair_with(private_key, bytes) == Err::<
            KeysView,
            KeyError,
        >(KeyError::WrongLength),
        bytes is Some && bytes->0.len() == 32 ==> (pair_with(private_key, bytes) matches Ok(k)
            && k.private_key == private_key && k.public_key == public_key_of(bytes->0)),
{
}

/// White space around what the key file holds does not matter. The pair that is read has the key of
/// the file, no new one is made, and it is not written; without a file a pair is made, and it is.
pub proof fn law_key_file(
    c: Text,
    d: Text,
    keys: Result<KeysView, KeyError>,
    write: bool,
)
    ensures
        trim(c) == trim(d) ==> (loaded(Some(c), keys, write) <==> loaded(Some(d), keys, write)),
        loaded(Some(c), keys, write) ==> {
            let bytes = base64_bytes(trim(c));
            &&& !write
            &&& keys is Ok <==> bytes is Some && bytes->0.len() == 32
            &&& keys is Ok ==> keys->Ok_0.private_key == trim(c) && keys->Ok_0.public_key
                == public_key_of(bytes->0)
            &&& keys == Err::<KeysView, KeyError>(KeyError::NotBase64) <==> bytes is None
        },
        loaded(None, keys, write) ==> write && keys is Ok,
{
}

// ---------- Names and messages ----------

/// Each byte is written as two hexadecimal digits that tell its value, one after the other.
pub proof fn law_bytes_in_hexadecimal(bytes: Seq<u8>, b: u8)
    ensures
        hex_text(bytes.push(b)) == hex_text(bytes) + hex_text(seq![b]),
        hex_text(seq![b]).len() == 2,
        value(hex_text(seq![b]), 16) == b,
        hex_text(Seq::empty()) == Seq::<char>::empty(),
{
    assert(bytes.push(b).drop_last() =~= bytes);
    assert(seq![b].drop_last() =~= Seq::<u8>::empty());
    let x = digit_char((b / 16) as nat);
    let y = digit_char((b % 16) as nat);
    let t = hex_text(seq![b]);
    assert(hex_text(Seq::<u8>::empty()) =~= Seq::<char>::empty());
    assert(t =~= seq![x, y]);
    assert(hex_text(bytes.push(b)) =~= hex_text(bytes) + t);
    lemma_hex_digit((b / 16) as nat);
    lemma_hex_digit((b % 16) as nat);
    assert(t.drop_last() =~= seq![x]);
    assert(seq![x].drop_last() =~= Seq::<char>::empty());
    assert(value(Seq::<char>::empty(), 16) == 0);
    assert(value(seq![x], 16) == value(seq![x].drop_last(), 16) * 16 + digit_val(x));
    assert(value(t, 16) == value(t.drop_last(), 16) * 16 + digit_val(y));
}

proof fn lemma_hex_digit(d: nat)
    requires
        d < 16,
    ensures
        digit_val(digit_char(d)) == d,
{
}

/// A node's name is `wg-` and the first twenty digits of the digest of its public key.
pub proof fn law_name_of_a_node(public_key: Text)
    requires
        digest_text(vstd::utf8::encode_utf8(public_key)).len() == 64,
    ensures
        client_name(public_key).len() == 23,
        client_name(public_key).take(3) == "wg-"@,
        client_name(public_key).skip(3).is_prefix_of(
            digest_text(vstd::utf8::encode_utf8(public_key)),
        ),
{
    reveal_strlit("wg-");
    let d = digest_text(vstd::utf8::encode_utf8(public_key));
    let n = client_name(public_key);
    assert(n.take(3) =~= "wg-"@);
    assert(n.skip(3) =~= d.take(20));
    assert(n.skip(3).len() == 20);
}

/// A message is read exactly if it is not the last one again; it is read decompressed, if it is
/// compressed, and else as it is.
pub proof fn law_when_a_message_is_read(last: Option<Text>, payload: Seq<u8>)
    ensures
        news(last, payload) is None <==> last == Some(digest_text(payload)),
        news(last, payload) is Some ==> news(last, payload)->0 == message_contents(payload),
        crate::digest::zstd_decoded(payload) is Some ==> message_contents(payload)
            == crate::digest::zstd_decoded(payload)->0,
        crate::digest::zstd_decoded(payload) is None ==> message_contents(payload) == payload,
{
}

/// A message counts as repeated exactly if its digest is the last one.
pub proof fn law_repeated_messages(last: Option<String>, digest: String, r: bool)
    requires
        call_ensures(is_repeated, (&last, &digest), r),
    ensures
        r <==> last.deep_view() == Some(digest@),
{
}

/// A walk without a key has all the other keys, in their order.
pub proof fn law_walk_without_a_key(keys: Seq<Text>, k: Text, x: Text)
    ensures
        without(keys.push(x), k) == (if x == k {
            without(keys, k)
        } else {
            without(keys, k).push(x)
        }),
        without(Seq::empty(), k) == Seq::<Text>::empty(),
{
    reveal(Seq::filter);
    assert(keys.push(x).drop_last() =~= keys);
}

// ---------- Installing ----------

/// What an installation asks for at each of its steps.
pub proof fn law_steps_of_an_installation(i: Installation)
    ensures
        match i.stage {
            InstallStage::Writing => install_ask(i) == (InstallAsk::WriteConfig {
                text: i.config@,
            }),
            InstallStage::Uninstalling => install_ask(i) == InstallAsk::Run(
                Call {
                    program: "wireguard"@,
                    args: seq!["/uninstalltunnelservice"@, i.interface@],
                },
            ),
            InstallStage::Stopping => install_ask(i) == InstallAsk::Run(
                Call { program: "sc"@, args: seq!["stop"@, "WireGuardTunnel$"@ + i.interface@] },
            ),
            InstallStage::Deleting => install_ask(i) == InstallAsk::Run(
                Call { program: "sc"@, args: seq!["delete"@, "WireGuardTunnel$"@ + i.interface@] },
            ),
            InstallStage::Settling => install_ask(i) == (InstallAsk::Pause { secs: 2 }),
            InstallStage::Installing => install_ask(i) == InstallAsk::Run(
                Call {
                    program: "wireguard"@,
                    args: seq!["/installtunnelservice"@, i.config_path@],
                },
            ),
            InstallStage::Saving => install_ask(i) == (InstallAsk::SaveSelfIps {
                ipv4: i.ipv4@,
                ipv6: i.ipv6@,
            }),
            InstallStage::Checking { .. } => install_ask(i) == InstallAsk::Run(
                Call { program: i.tool@, args: seq!["show"@, i.interface@] },
            ),
            InstallStage::Waiting { .. } => install_ask(i) == (InstallAsk::Pause { secs: 1 }),
            InstallStage::Ready => install_ask(i) == (InstallAsk::Over { ready: true }),
            InstallStage::Failed => install_ask(i) == (InstallAsk::Over { ready: false }),
        },
{
}

/// The outcomes of an installation in which the configuration is written, the service is installed,
/// and the interface answers the question after `n` unanswered ones. What comes of taking a former
/// service away, of the pause and of saving the addresses is told by `other`.
pub open spec fn good_outcomes(other: bool, n: nat) -> Seq<bool> {
    seq![true, other, other, other, other, true, other] + Seq::new(2 * n, |i: int| i % 2 == 1 && other)
}

proof fn lemma_unanswered(other: bool, n: nat)
    requires
        n < 30,
    ensures
        install_run(good_outcomes(other, n)) == (InstallStage::Checking { n: n as u32 }),
    decreases n,
{
    let all = good_outcomes(other, n);
    if n == 0 {
        let a7 = all;
        let a6 = a7.drop_last();
        let a5 = a6.drop_last();
        let a4 = a5.drop_last();
        let a3 = a4.drop_last();
        let a2 = a3.drop_last();
        let a1 = a2.drop_last();
        let a0 = a1.drop_last();
        assert(a0.len() == 0);
        assert(install_run(a0) is Writing);
        assert(a1.last());
        assert(install_run(a1) is Uninstalling);
        assert(install_run(a2) is Stopping);
        assert(install_run(a3) is Deleting);
        assert(install_run(a4) is Settling);
        assert(install_run(a5) is Installing);
        assert(a6.last());
        assert(install_run(a6) is Saving);
        assert(install_run(a7) == (InstallStage::Checking { n: 0 }));
    } else {
        let m = (n - 1) as nat;
        lemma_unanswered(other, m);
        let b = all.drop_last();
        let c = b.drop_last();
        assert(c =~= good_outcomes(other, m));
        assert(b.last() == false);
        assert(install_run(b) == (InstallStage::Waiting { n: m as u32 }));
        assert(install_run(all) == (InstallStage::Checking { n: n as u32 }));
    }
}

/// An installation whose configuration is written and whose service is installed is ready as soon as
/// the interface answers, at any of thirty questions; whether a former service could be taken away
/// does not matter.
pub proof fn law_good_installation_is_ready(other: bool, n: nat)
    requires
        n < 30,
    ensures
        install_run(good_outcomes(other, n).push(true)) is Ready,
{
    lemma_unanswered(other, n);
    assert(good_outcomes(other, n).push(true).drop_last() =~= good_outcomes(other, n));
}

/// An installation fails exactly where the configuration cannot be written, where the service cannot
/// be installed, or after the thirtieth unanswered question.
pub proof fn law_when_an_installation_fails(stage: InstallStage, ok: bool)
    requires
        stage !is Failed,
    ensures
        install_step(stage, ok) is Failed <==> ({
            ||| stage is Writing && !ok
            ||| stage is Installing && !ok
            ||| stage matches InstallStage::Waiting { n } && n >= 29
        }),
{
}

/// A new tunnel listens on the port that is set, else on 52822.
pub proof fn law_port_of_a_new_tunnel(env: Option<String>, p: u16, r: u16)
    requires
        call_ensures(tunnel_port, (&env,), r),
    ensures
        env.deep_view() == Some(decimal(p as nat)) ==> r == p,
        env is None ==> r == 52822,
        env is Some && parse_unsigned(env->0@, 65535) is None ==> r == 52822,
{
    law_number_is_read_in_full(p as nat, u16::MAX as nat);
}

// ---------- Questions ----------

/// The questions about the interface and about a peer.
pub proof fn law_plain_questions(
    tool: &str,
    interface: &str,
    what: &str,
    a: Invocation,
    b: Invocation,
    c: Invocation,
)
    requires
        call_ensures(show, (tool, interface, what), a),
        call_ensures(show_interface, (tool, interface), b),
        call_ensures(show_peer, (tool, interface, what), c),
    ensures
        a.deep_view() == (Call { program: tool@, args: seq!["show"@, interface@, what@] }),
        b.deep_view() == (Call { program: tool@, args: seq!["show"@, interface@] }),
        c.deep_view() == (Call { program: tool@, args: seq!["show"@, interface@, "peers"@, what@] }),
{
}

/// The endpoint and the handshake of a peer are known only where the command was run and succeeded,
/// its addresses wherever it was run; they are what the output tells.
pub proof fn law_what_is_known_of_a_peer(
    output: Option<CommandOutput>,
    pubkey: &str,
    ep: Option<String>,
    ips: Option<Vec<String>>,
    h: Option<u64>,
)
    requires
        call_ensures(get_current_endpoint, (&output,), ep),
        call_ensures(get_current_allowed_ips, (&output,), ips),
        call_ensures(get_peer_handshake_seconds, (&output, pubkey), h),
    ensures
        output is None ==> ep is None && ips is None && h is None,
        output is Some && !output->0.success ==> ep is None && h is None,
        output is Some ==> ips.deep_view() == Some(allowed_ips_in(utf8_lossy(output->0.stdout@))),
        output is Some && output->0.success ==> ep.deep_view() == endpoint_in(
            utf8_lossy(output->0.stdout@),
        ),
        output is Some && output->0.success ==> (h is Some <==> handshake_in(
            crate::text::lines(utf8_lossy(output->0.stdout@)),
            pubkey@,
        ) is Some),
        output is Some && output->0.success && h is Some ==> handshake_in(
            crate::text::lines(utf8_lossy(output->0.stdout@)),
            pubkey@,
        ) == Some(h->0 as nat),
{
}

/// A peer shook hands lately if its handshake is known and lies at most so many seconds back.
pub proof fn law_recent_peer(
    output: Option<CommandOutput>,
    pubkey: &str,
    now: u64,
    age: u64,
    h: Option<u64>,
    r: bool,
)
    requires
        call_ensures(get_peer_handshake_seconds, (&output, pubkey), h),
        call_ensures(has_recent_handshake, (&output, pubkey, now, age), r),
    ensures
        r <==> h is Some && now <= h->0 + age,
{
}

// ---------- The addresses of the interface ----------

/// The interface is given both addresses, the IPv4 address first; kept ones are given back in the
/// same way, and nothing is done where none were kept.
pub proof fn law_addresses_are_configured(
    addresses: Vec<SystemAddress>,
    interface: &str,
    ipv4: &str,
    ipv6: &str,
    a: Vec<Invocation>,
    b: Vec<Invocation>,
)
    requires
        call_ensures(configure_self_ip, (&addresses, interface, ipv4, ipv6), a),
        call_ensures(restore_self_ip, (&addresses, interface, ipv4, ipv6), b),
    ensures
        a.deep_view() == v4_plan(interface@, ipv4@, v4_of(addresses@, interface@)) + v6_plan(
            interface@,
            ipv6@,
            v6_of(addresses@, interface@),
        ),
        ipv4@.len() > 0 || ipv6@.len() > 0 ==> b.deep_view() == a.deep_view(),
        ipv4@.len() == 0 && ipv6@.len() == 0 ==> b.deep_view() == Seq::<Call>::empty(),
{
}

// ---------- Settings ----------

/// The settings with a default: the interface is `wg0`, the broker's port 1883, and relays are known
/// by two networks; what is set counts in their place.
pub proof fn law_defaults(
    env: Option<String>,
    p: u16,
    name: String,
    port: u16,
    four: String,
    six: String,
)
    requires
        call_ensures(interface_name, (&env,), name),
        call_ensures(mqtt_port, (&env,), port),
        call_ensures(relay_cidr_v4, (&env,), four),
        call_ensures(relay_cidr_v6, (&env,), six),
    ensures
        env is None ==> name@ == trim("wg0"@) && port == 1883 && four@ == "10.254.1.0/24"@ && six@
            == "fd00:1:1::/64"@,
        env is Some ==> name@ == trim(env->0@) && four@ == env->0@ && six@ == env->0@,
        env.deep_view() == Some(decimal(p as nat)) ==> port == p,
        env is Some && parse_unsigned(env->0@, 65535) is None ==> port == 1883,
{
    law_number_is_read_in_full(p as nat, u16::MAX as nat);
}

/// A number of seconds that is set counts, up to the greatest number.
pub proof fn law_seconds(env: Option<String>, default: u64, n: u64, r: u64)
    requires
        call_ensures(seconds_set, (&env, default), r),
    ensures
        env.deep_view() == Some(decimal(n as nat)) ==> r == n,
        env is None ==> r == default,
{
    law_number_is_read_in_full(n as nat, u64::MAX as nat);
}

/// The topics of a node: those of its interface, two of them for this node alone.
pub proof fn law_topics(interface: &str, id: &str, t: Topics, subscribed: Vec<String>, x: Text)
    requires
        call_ensures(Topics::new, (interface, id), t),
        call_ensures(Topics::subscriptions, (&t,), subscribed),
    ensures
        t.full@ == "wg/"@ + interface@ + "/full"@,
        t.delta@ == "wg/"@ + interface@ + "/delta"@,
        t.response@ == "wg/"@ + interface@ + "/full/response/"@ + id@,
        t.register@ == "wg/"@ + interface@ + "/register"@,
        t.request@ == "wg/"@ + interface@ + "/full/request/"@ + id@,
        t.config_update@ == "wg/"@ + interface@ + "/config/update"@,
        t.traffic@ == "wg/"@ + interface@ + "/traffic"@,
        subscribed.deep_view() == seq![t.full@, t.delta@, t.response@, t.config_update@],
        x != t.full@ && x != t.response@ && x != t.delta@ ==> t.kind(x) == MessageKind::Ignored,
{
    assert(topic(interface@, "/full"@) == "wg/"@ + interface@ + "/full"@);
}

/// The broker is reached over TLS exactly if the switch says `1` or `true`: trusting the file that is
/// named, or what the system trusts where none is.
pub proof fn law_transport(enable: Option<String>, ca: Option<String>, r: TransportChoice)
    requires
        call_ensures(build_transport, (&enable, &ca), r),
    ensures
        ({
            let on = enable.deep_view() == Some("1"@) || enable.deep_view() == Some("true"@);
            &&& !on ==> r.deep_view() == TransportView::Plain
            &&& on && ca is Some ==> r.deep_view() == TransportView::File(ca->0@)
            &&& on && ca is None ==> r.deep_view() == TransportView::System
        }),
{
}

// ---------- Beginnings ----------

/// How the longer procedures begin: a check of relays has all keys to look at, and is over at once
/// only without peers or without relays; a change of the port asks for the peers.
pub proof fn law_beginnings(
    t: RelayTables,
    peers: PeerMap,
    local: &str,
    c: RelayCheck,
    force: bool,
    p: PortChange,
    q: PortChange,
)
    requires
        call_ensures(check_and_apply_relay, (&t, &peers, local), c),
        call_ensures(try_change_port, (force,), p),
        call_ensures(check_and_maybe_change_listen_port, (), q),
    ensures
        c@.local == local@,
        peers.keys().len() > 0 && t@.pool.len() > 0 ==> c@.stage is Listing,
        peers.keys().len() == 0 || t@.pool.len() == 0 ==> c@.stage is Finished,
        p@.force == force && p@.stage is Listing,
        !q@.force && q@.stage is Listing,
{
}

/// A schedule counts from its start, a registration from its first attempt.
pub proof fn law_times_count_from_the_start(
    now: u128,
    secs: u64,
    s: Schedule,
    r: RegisterRetry,
    stage: RegisterStage,
)
    requires
        call_ensures(Schedule::new, (now,), s),
        call_ensures(RegisterRetry::new, (secs, now), r),
        call_ensures(start_registration, (), stage),
    ensures
        s.lan_round == now && s.retry_round == now && s.network_check == now && s.port_change == now
            && s.traffic_report == now,
        r.last_attempt == now && r.interval == secs * 1_000_000_000 && !r.force,
        stage == (RegisterStage::Publishing { attempt: 1 }),
{
}

/// A look at the network checks the relays of a node with a tunnel, and its port where this is
/// switched on; the state of the interface is read anew after five seconds.
pub proof fn law_looks_at_the_network(
    f: Features,
    status: NodeStatus,
    read_at: Option<u128>,
    now: u128,
    r: (bool, bool),
    stale: bool,
)
    requires
        call_ensures(network_checks, (&f, &status), r),
        call_ensures(is_state_stale, (read_at, now), stale),
    ensures
        r.0 <==> f.port_change && status.configured,
        r.1 <==> status.configured,
        read_at is None ==> stale,
        read_at is Some ==> (stale <==> now - read_at->0 >= 5_000_000_000),
{
}

/// A failed update is kept with all its fields, and counts no attempt yet.
pub proof fn law_update_to_try_again(
    pubkey: String,
    endpoint: Option<String>,
    allowed_ips: Option<Vec<String>>,
    persistent_keepalive: Option<u16>,
    preshared_key: Option<String>,
    now: u128,
    r: RetryTask,
)
    requires
        call_ensures(
            RetryTask::new,
            (pubkey, endpoint, allowed_ips, persistent_keepalive, preshared_key, now),
            r,
        ),
    ensures
        r.deep_view().pubkey == pubkey@,
        r.deep_view().endpoint == endpoint.deep_view(),
        r.deep_view().allowed_ips == allowed_ips.deep_view(),
        r.deep_view().persistent_keepalive == persistent_keepalive,
        r.deep_view().preshared_key == preshared_key.deep_view(),
        r.deep_view().retry_count == 0,
        r.deep_view().last_attempt == now,
{
}

} // verus!
