//! The command lines that change or question the WireGuard interface.
use vstd::prelude::*;

use crate::model::{PeerUpdate, UpdateView};
use crate::number::{decimal, decimal_of};
use crate::text::{
    copy_list, distinct, distinct_texts, is_blank, join, join_texts,
    lemma_distinct, lemma_list_len, minus, minus_texts, not_in, owned, text_eq, utf8_lossy, Text,
};
use crate::wg::{allowed_ips_in, get_current_allowed_ips, CommandOutput};

verus! {

/// A program and what it is started with.
pub struct Invocation {
    pub program: String,
    pub args: Vec<String>,
}

/// The contents of an [`Invocation`].
pub struct Call {
    pub program: Text,
    pub args: Seq<Text>,
}

impl DeepView for Invocation {
    type V = Call;

    open spec fn deep_view(&self) -> Call {
        Call { program: self.program@, args: self.args.deep_view() }
    }
}

/// Whether a switch of the environment is set to `1` or to exactly `true`.
pub open spec fn plain_switch(value: Option<Text>) -> bool {
    value == Some("1"@) || value == Some("true"@)
}

/// Whether a switch of the environment is set to `1` or to exactly `true`.
pub fn is_plain_switch_on(value: &Option<String>) -> (r: bool)
    ensures
        r == plain_switch(value.deep_view()),
{
    match value {
        Some(v) => text_eq(v.as_str(), "1") || text_eq(v.as_str(), "true"),
        None => false,
    }
}

/// The command line tool that the switch `WG_USE_AWG` selects.
pub open spec fn tool(use_awg: Option<Text>) -> Text {
    if plain_switch(use_awg) {
        "awg.exe"@
    } else {
        "wg.exe"@
    }
}

/// The command line tool that the switch `WG_USE_AWG` selects.
pub fn wg_cmd(use_awg: &Option<String>) -> (r: &'static str)
    ensures
        r@ == tool(use_awg.deep_view()),
{
    if is_plain_switch_on(use_awg) {
        "awg.exe"
    } else {
        "wg.exe"
    }
}

// ---------- Questions ----------

/// Asks for one thing about the whole interface.
pub fn show(tool: &str, interface: &str, what: &str) -> (r: Invocation)
    ensures
        r.deep_view() == (Call { program: tool@, args: seq!["show"@, interface@, what@] }),
{
    let args = vec![owned("show"), owned(interface), owned(what)];
    assert(args.deep_view() =~= seq!["show"@, interface@, what@]);
    Invocation { program: owned(tool), args }
}

/// Asks for everything about the interface.
pub fn show_interface(tool: &str, interface: &str) -> (r: Invocation)
    ensures
        r.deep_view() == (Call { program: tool@, args: seq!["show"@, interface@] }),
{
    let args = vec![owned("show"), owned(interface)];
    assert(args.deep_view() =~= seq!["show"@, interface@]);
    Invocation { program: owned(tool), args }
}

/// Asks for the description of one peer.
pub fn show_peer(tool: &str, interface: &str, pubkey: &str) -> (r: Invocation)
    ensures
        r.deep_view() == (Call {
            program: tool@,
            args: seq!["show"@, interface@, "peers"@, pubkey@],
        }),
{
    let args = vec![owned("show"), owned(interface), owned("peers"), owned(pubkey)];
    assert(args.deep_view() =~= seq!["show"@, interface@, "peers"@, pubkey@]);
    Invocation { program: owned(tool), args }
}

// ---------- Changes ----------

/// The start of a command line that changes a peer.
pub open spec fn set_peer(interface: Text, pubkey: Text) -> Seq<Text> {
    seq!["set"@, interface, "peer"@, pubkey]
}

fn set_peer_args(interface: &str, pubkey: &str) -> (r: Vec<String>)
    ensures
        r.deep_view() == set_peer(interface@, pubkey@),
{
    let args = vec![owned("set"), owned(interface), owned("peer"), owned(pubkey)];
    assert(args.deep_view() =~= set_peer(interface@, pubkey@));
    args
}

fn push_text(args: &mut Vec<String>, s: String)
    ensures
        final(args).deep_view() == old(args).deep_view().push(s@),
{
    let ghost before = args.deep_view();
    args.push(s);
    assert(args.deep_view() =~= before.push(s@));
}

/// The call that removes a peer.
pub open spec fn removal(tool: Text, interface: Text, pubkey: Text) -> Call {
    Call { program: tool, args: set_peer(interface, pubkey).push("remove"@) }
}

/// Removes a peer from the interface.
pub fn remove_peer(tool: &str, interface: &str, pubkey: &str) -> (r: Invocation)
    ensures
        r.deep_view() == removal(tool@, interface@, pubkey@),
{
    let mut args = set_peer_args(interface, pubkey);
    push_text(&mut args, owned("remove"));
    Invocation { program: owned(tool), args }
}

/// The call that gives a peer another endpoint.
pub open spec fn endpoint_change(
    tool: Text,
    interface: Text,
    pubkey: Text,
    endpoint: Text,
) -> Call {
    Call { program: tool, args: set_peer(interface, pubkey).push("endpoint"@).push(endpoint) }
}

/// Gives a peer another endpoint.
pub fn update_wg_endpoint(tool: &str, interface: &str, pubkey: &str, new_endpoint: &str) -> (r:
    Invocation)
    ensures
        r.deep_view() == endpoint_change(tool@, interface@, pubkey@, new_endpoint@),
{
    let mut args = set_peer_args(interface, pubkey);
    push_text(&mut args, owned("endpoint"));
    push_text(&mut args, owned(new_endpoint));
    Invocation { program: owned(tool), args }
}

/// Gives a peer another endpoint that is reached over the wide area network. There is no way back:
/// the former endpoint plays no part.
pub fn update_endpoint_with_fallback(
    tool: &str,
    interface: &str,
    pubkey: &str,
    new_endpoint: &str,
    _fallback: &Option<String>,
) -> (r: Invocation)
    ensures
        r.deep_view() == endpoint_change(tool@, interface@, pubkey@, new_endpoint@),
{
    update_wg_endpoint(tool, interface, pubkey, new_endpoint)
}

/// The call that gives a peer its allowed addresses.
pub open spec fn ips_change(tool: Text, interface: Text, pubkey: Text, ips: Seq<Text>) -> Call {
    Call {
        program: tool,
        args: set_peer(interface, pubkey).push("allowed-ips"@).push(join(ips, ","@)),
    }
}

/// Gives a peer its allowed addresses.
pub fn set_allowed_ips(tool: &str, interface: &str, pubkey: &str, ips: &Vec<String>) -> (r:
    Invocation)
    ensures
        r.deep_view() == ips_change(tool@, interface@, pubkey@, ips.deep_view()),
{
    let mut args = set_peer_args(interface, pubkey);
    push_text(&mut args, owned("allowed-ips"));
    push_text(&mut args, join_texts(ips, ","));
    Invocation { program: owned(tool), args }
}

/// The addresses with more added to them, none twice.
pub open spec fn with_ips(current: Seq<Text>, ips: Seq<Text>) -> Seq<Text> {
    distinct(current + ips)
}

/// Adds to the allowed addresses of a peer, of which the output tells the current ones. `None`
/// where these are not known.
pub fn add_ips_to_peer(
    tool: &str,
    interface: &str,
    pubkey: &str,
    output: &Option<CommandOutput>,
    ips_to_add: &Vec<String>,
) -> (r: Option<Invocation>)
    ensures
        match *output {
            Some(o) => r matches Some(c) && c.deep_view() == ips_change(
                tool@,
                interface@,
                pubkey@,
                with_ips(allowed_ips_in(utf8_lossy(o.stdout@)), ips_to_add.deep_view()),
            ),
            None => r is None,
        },
{
    match get_current_allowed_ips(output) {
        Some(current) => {
            let mut all = current;
            let mut more = copy_list(ips_to_add);
            let ghost a = all.deep_view();
            let ghost b = more.deep_view();
            all.append(&mut more);
            assert(all.deep_view() =~= a + b);
            Some(set_allowed_ips(tool, interface, pubkey, &distinct_texts(&all)))
        },
        None => None,
    }
}

/// Takes addresses away from those allowed for a peer, of which the output tells the current ones.
/// `None` where these are not known.
pub fn remove_ips_from_peer(
    tool: &str,
    interface: &str,
    pubkey: &str,
    output: &Option<CommandOutput>,
    ips_to_remove: &Vec<String>,
) -> (r: Option<Invocation>)
    ensures
        match *output {
            Some(o) => r matches Some(c) && c.deep_view() == ips_change(
                tool@,
                interface@,
                pubkey@,
                minus(allowed_ips_in(utf8_lossy(o.stdout@)), ips_to_remove.deep_view()),
            ),
            None => r is None,
        },
{
    match get_current_allowed_ips(output) {
        Some(current) => {
            let left = minus_texts(&current, ips_to_remove);
            Some(set_allowed_ips(tool, interface, pubkey, &left))
        },
        None => None,
    }
}

/// The call that gives the interface another listen port.
pub open spec fn port_change(tool: Text, interface: Text, port: u16) -> Call {
    Call { program: tool, args: seq!["set"@, interface, "listen-port"@, decimal(port as nat)] }
}

/// Gives the interface another listen port.
pub fn set_listen_port(tool: &str, interface: &str, port: u16) -> (r: Invocation)
    ensures
        r.deep_view() == port_change(tool@, interface@, port),
{
    let args = vec![owned("set"), owned(interface), owned("listen-port"), decimal_of(port as u64)];
    assert(args.deep_view() =~= seq![
        "set"@,
        interface@,
        "listen-port"@,
        decimal(port as nat),
    ]);
    Invocation { program: owned(tool), args }
}

// ---------- Changing a whole peer ----------

/// The preshared key that has to be put in a file for an update, if it sets one.
pub open spec fn psk_to_set(u: UpdateView) -> Option<Text> {
    if u.preshared_key is Some && u.preshared_key->0.len() > 0 {
        u.preshared_key
    } else {
        None
    }
}

/// The preshared key that has to be put in a file for an update, if it sets one.
pub fn preshared_key_to_set(u: &PeerUpdate) -> (r: Option<String>)
    ensures
        r.deep_view() == psk_to_set(u.deep_view()),
{
    match &u.preshared_key {
        Some(k) => if is_blank(k.as_str()) {
            None
        } else {
            Some(k.clone())
        },
        None => None,
    }
}

/// The command line of an update, with the preshared key in the file at `psk_path`.
pub open spec fn update_args(interface: Text, u: UpdateView, psk_path: Text) -> Seq<Text> {
    let a = set_peer(interface, u.pubkey);
    let b = if psk_to_set(u) is Some {
        a.push("preshared-key"@).push(psk_path)
    } else {
        a
    };
    let c = match u.endpoint {
        Some(ep) => b.push("endpoint"@).push(ep),
        None => b,
    };
    let d = match u.persistent_keepalive {
        Some(ka) => c.push("persistent-keepalive"@).push(decimal(ka as nat)),
        None => c,
    };
    match u.allowed_ips {
        Some(ips) => if ips.len() > 0 {
            d.push("allowed-ips"@).push(join(ips, ","@))
        } else {
            d
        },
        None => d,
    }
}

/// The calls of an update: a preshared key is cleared by removing the peer first.
pub open spec fn update_calls(tool: Text, interface: Text, u: UpdateView, psk_path: Text) -> Seq<
    Call,
> {
    let set = Call { program: tool, args: update_args(interface, u, psk_path) };
    if u.preshared_key is Some && u.preshared_key->0.len() == 0 {
        seq![removal(tool, interface, u.pubkey), set]
    } else {
        seq![set]
    }
}

/// Adds or changes a peer: the calls to make, each only if those before it succeeded. The preshared
/// key to set, if there is one, is expected in the file at `psk_path`.
pub fn update_peer(tool: &str, interface: &str, u: &PeerUpdate, psk_path: &str) -> (r: Vec<
    Invocation,
>)
    ensures
        r.deep_view() == update_calls(tool@, interface@, u.deep_view(), psk_path@),
{
    let mut args = set_peer_args(interface, u.pubkey.as_str());
    let mut clear = false;
    if let Some(k) = &u.preshared_key {
        if is_blank(k.as_str()) {
            clear = true;
        } else {
            push_text(&mut args, owned("preshared-key"));
            push_text(&mut args, owned(psk_path));
        }
    }
    if let Some(ep) = &u.endpoint {
        push_text(&mut args, owned("endpoint"));
        push_text(&mut args, ep.clone());
    }
    if let Some(ka) = u.persistent_keepalive {
        push_text(&mut args, owned("persistent-keepalive"));
        push_text(&mut args, decimal_of(ka));
    }
    if let Some(ips) = &u.allowed_ips {
        proof {
            lemma_list_len(ips);
        }
        if ips.len() > 0 {
            push_text(&mut args, owned("allowed-ips"));
            push_text(&mut args, join_texts(ips, ","));
        }
    }
    let set = Invocation { program: owned(tool), args };
    let ghost target = update_calls(tool@, interface@, u.deep_view(), psk_path@);
    if clear {
        let calls = vec![remove_peer(tool, interface, u.pubkey.as_str()), set];
        assert(calls.deep_view() =~= target);
        calls
    } else {
        let calls = vec![set];
        assert(calls.deep_view() =~= target);
        calls
    }
}

// ---------- Obfuscation ----------

/// The obfuscation settings of a snapshot.
pub struct AmneziaConfig {
    pub jc: u32,
    pub jmin: u32,
    pub jmax: u32,
    pub s1: u32,
    pub s2: u32,
    pub h1: u32,
    pub h2: u32,
    pub h3: u32,
    pub h4: u32,
    pub i1: Option<String>,
    pub i2: Option<String>,
    pub i3: Option<String>,
    pub i4: Option<String>,
    pub i5: Option<String>,
}

/// A setting with a number.
pub open spec fn number_setting(name: Text, n: u32) -> Text {
    name + decimal(n as nat)
}

/// The command line with a setting that is a text added to it, if that is there and not empty.
pub open spec fn with_setting(args: Seq<Text>, name: Text, v: Option<Text>) -> Seq<Text> {
    match v {
        Some(v) => if v.len() > 0 {
            args.push(name + v)
        } else {
            args
        },
        None => args,
    }
}

/// The command line that applies obfuscation settings.
pub open spec fn amnezia_args(interface: Text, c: AmneziaConfig) -> Seq<Text> {
    let a = seq![
        "set"@,
        interface,
        number_setting("jc="@, c.jc),
        number_setting("jmin="@, c.jmin),
        number_setting("jmax="@, c.jmax),
        number_setting("s1="@, c.s1),
        number_setting("s2="@, c.s2),
        number_setting("h1="@, c.h1),
        number_setting("h2="@, c.h2),
        number_setting("h3="@, c.h3),
        number_setting("h4="@, c.h4),
    ];
    let a1 = with_setting(a, "i1="@, c.i1.deep_view());
    let a2 = with_setting(a1, "i2="@, c.i2.deep_view());
    let a3 = with_setting(a2, "i3="@, c.i3.deep_view());
    let a4 = with_setting(a3, "i4="@, c.i4.deep_view());
    with_setting(a4, "i5="@, c.i5.deep_view())
}

fn number_setting_of(name: &str, n: u32) -> (r: String)
    ensures
        r@ == number_setting(name@, n),
{
    owned(name).concat(decimal_of(n as u64).as_str())
}

fn push_setting(args: &mut Vec<String>, name: &str, v: &Option<String>)
    ensures
        final(args).deep_view() == with_setting(old(args).deep_view(), name@, v.deep_view()),
{
    if let Some(text) = v {
        if !is_blank(text.as_str()) {
            push_text(args, owned(name).concat(text.as_str()));
        }
    }
}

/// Applies the obfuscation settings of a snapshot.
pub fn apply_amnezia_config(tool: &str, interface: &str, config: &AmneziaConfig) -> (r: Invocation)
    ensures
        r.deep_view() == (Call { program: tool@, args: amnezia_args(interface@, *config) }),
{
    let mut args = vec![
        owned("set"),
        owned(interface),
        number_setting_of("jc=", config.jc),
        number_setting_of("jmin=", config.jmin),
        number_setting_of("jmax=", config.jmax),
        number_setting_of("s1=", config.s1),
        number_setting_of("s2=", config.s2),
        number_setting_of("h1=", config.h1),
        number_setting_of("h2=", config.h2),
        number_setting_of("h3=", config.h3),
        number_setting_of("h4=", config.h4),
    ];
    assert(args.deep_view() =~= seq![
        "set"@,
        interface@,
        number_setting("jc="@, config.jc),
        number_setting("jmin="@, config.jmin),
        number_setting("jmax="@, config.jmax),
        number_setting("s1="@, config.s1),
        number_setting("s2="@, config.s2),
        number_setting("h1="@, config.h1),
        number_setting("h2="@, config.h2),
        number_setting("h3="@, config.h3),
        number_setting("h4="@, config.h4),
    ]);
    push_setting(&mut args, "i1=", &config.i1);
    push_setting(&mut args, "i2=", &config.i2);
    push_setting(&mut args, "i3=", &config.i3);
    push_setting(&mut args, "i4=", &config.i4);
    push_setting(&mut args, "i5=", &config.i5);
    Invocation { program: owned(tool), args }
}

// ---------- Laws ----------

proof fn lemma_distinct_extends(current: Seq<Text>, ips: Seq<Text>) -> (extra: Seq<Text>)
    requires
        current.no_duplicates(),
    ensures
        with_ips(current, ips) == current + extra,
        forall|i: int| 0 <= i < extra.len() ==> ips.contains(#[trigger] extra[i]),
    decreases ips.len(),
{
    if ips.len() == 0 {
        assert(current + ips =~= current);
        lemma_distinct_same(current);
        assert(current + Seq::<Text>::empty() =~= current);
        Seq::empty()
    } else {
        let front = ips.drop_last();
        let x = lemma_distinct_extends(current, front);
        assert((current + ips).drop_last() =~= current + front);
        assert forall|i: int| 0 <= i < x.len() implies ips.contains(#[trigger] x[i]) by {
            let j = front.index_of(x[i]);
            assert(ips[j] == x[i]);
        }
        if with_ips(current, front).contains(ips.last()) {
            x
        } else {
            assert((current + x).push(ips.last()) =~= current + x.push(ips.last()));
            assert(ips.contains(ips.last()));
            x.push(ips.last())
        }
    }
}

proof fn lemma_distinct_same(s: Seq<Text>)
    requires
        s.no_duplicates(),
    ensures
        distinct(s) == s,
    decreases s.len(),
{
    if s.len() > 0 {
        let front = s.drop_last();
        lemma_distinct_same(front);
        assert(!front.contains(s.last()));
        assert(front.push(s.last()) =~= s);
    }
}

proof fn lemma_filter_all(s: Seq<Text>, f: spec_fn(Text) -> bool)
    requires
        forall|i: int| 0 <= i < s.len() ==> f(#[trigger] s[i]),
    ensures
        s.filter(f) == s,
    decreases s.len(),
{
    reveal(Seq::filter);
    if s.len() > 0 {
        lemma_filter_all(s.drop_last(), f);
        assert(s.drop_last().push(s.last()) =~= s);
    }
}

proof fn lemma_filter_none(s: Seq<Text>, f: spec_fn(Text) -> bool)
    requires
        forall|i: int| 0 <= i < s.len() ==> !f(#[trigger] s[i]),
    ensures
        s.filter(f) == Seq::<Text>::empty(),
    decreases s.len(),
{
    reveal(Seq::filter);
    if s.len() > 0 {
        lemma_filter_none(s.drop_last(), f);
    }
}

/// Taking away addresses that were just added leaves what was there before, provided none of them
/// was there already.
pub proof fn law_removing_undoes_adding(current: Seq<Text>, ips: Seq<Text>)
    requires
        current.no_duplicates(),
        forall|x: Text| #[trigger] ips.contains(x) ==> !current.contains(x),
    ensures
        minus(with_ips(current, ips), ips) == current,
{
    let extra = lemma_distinct_extends(current, ips);
    let f = not_in(ips);
    Seq::filter_distributes_over_add(current, extra, f);
    assert forall|i: int| 0 <= i < current.len() implies f(#[trigger] current[i]) by {
        assert(current.contains(current[i]));
    }
    lemma_filter_all(current, f);
    lemma_filter_none(extra, f);
    assert(current + Seq::<Text>::empty() =~= current);
}

/// The addresses after an addition are those that were there and those that were added, each once.
pub proof fn law_added_ips(current: Seq<Text>, ips: Seq<Text>, x: Text)
    ensures
        with_ips(current, ips).no_duplicates(),
        with_ips(current, ips).contains(x) <==> current.contains(x) || ips.contains(x),
{
    lemma_distinct(current + ips);
    let all = current + ips;
    if current.contains(x) {
        assert(all[current.index_of(x)] == x);
    }
    if ips.contains(x) {
        assert(all[current.len() + ips.index_of(x)] == x);
    }
    if all.contains(x) {
        let j = all.index_of(x);
        if j < current.len() {
            assert(current[j] == x);
        } else {
            assert(ips[j - current.len()] == x);
        }
    }
    assert(distinct(all).contains(x) <==> all.contains(x));
}

/// A preshared key that an update leaves alone is neither set nor cleared: no file is read for it
/// and the peer is not removed.
pub proof fn law_absent_psk_is_kept(tool: Text, interface: Text, u: UpdateView, psk_path: Text)
    requires
        u.preshared_key is None,
    ensures
        psk_to_set(u) is None,
        update_calls(tool, interface, u, psk_path) == seq![
            Call { program: tool, args: update_args(interface, u, psk_path) },
        ],
{
}

} // verus!
