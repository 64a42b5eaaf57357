//! The routing table of the system: reading it, and finding the interface in it.
use vstd::prelude::*;

use crate::commands::{Call, Invocation};
use crate::ip::Ip;
use crate::ip_text::{dotted, ip_to_text};
use crate::number::{parse_unsigned, read_u32, read_u8};
use crate::text::{
    chars_of, contains_char, contains_text, has_part, lemma_list_len, lines, lines_of, lossy_text,
    lowercase, lowercase_of, nonempty, nonempty_texts, owned, text_eq, trimmed_texts, trims,
    utf8_lossy, words, words_of, Text,
};
use crate::wg::CommandOutput;
use crate::wg_state::number_or;
use vstd::arithmetic::power2::pow2;

verus! {

// ---------- Networks ----------

/// The netmask of a network: as many leading ones as the prefix is long.
pub open spec fn netmask(prefix: nat) -> nat {
    (pow2(32) - pow2((32 - prefix) as nat)) as nat
}

/// The netmask of an IPv4 network in dotted form.
pub fn prefix_to_v4_netmask(prefix: u8) -> (r: String)
    requires
        prefix <= 32,
    ensures
        r@ == dotted(netmask(prefix as nat)),
{
    proof {
        vstd::arithmetic::power2::lemma2_to64();
    }
    if prefix == 0 {
        return ip_to_text(Ip::V4(0));
    }
    let k: u32 = (32 - prefix) as u32;
    let mask: u32 = u32::MAX << k;
    proof {
        let w: u64 = k as u64;
        let m: u64 = mask as u64;
        assert(((u32::MAX << k) as u64) + (1u64 << (k as u64)) == 0x1_0000_0000u64) by (bit_vector)
            requires
                k < 32,
        ;
        vstd::arithmetic::power2::lemma_pow2_strictly_increases(k as nat, 32);
        vstd::bits::lemma_u64_shl_is_mul(1, w);
        assert(mask == netmask(prefix as nat));
    }
    ip_to_text(Ip::V4(mask))
}

/// What parsing a text as an `ipnet::IpNet` gives: whether it names a network.
pub uninterp spec fn cidr_valid(t: Seq<char>) -> bool;

/// `str::parse::<ipnet::IpNet>` of the `ipnet` crate, which reads an IPv4 or IPv6 address, a slash
/// and the length of the prefix. Whether it succeeds is named, not described: the grammar is left
/// unsaid.
#[verifier::external_body]
fn ipnet_parses(s: &str) -> (r: bool)
    ensures
        r == cidr_valid(s@),
{
    s.parse::<ipnet::IpNet>().is_ok()
}

/// Whether a text names a network.
pub fn is_valid_cidr(s: &str) -> (r: bool)
    ensures
        r == cidr_valid(s@),
{
    ipnet_parses(s)
}

// ---------- The routing tables ----------

/// A route to an IPv4 network: the destination, its netmask and the address of the interface.
pub open spec fn v4_route_on(line: Text) -> Option<(Text, Text, Text)> {
    let parts = words(line);
    if '0' <= line[0] <= '9' && parts.len() >= 4 {
        Some((parts[0], parts[1], parts[3]))
    } else {
        None
    }
}

/// The routes that the lines of the IPv4 table tell: those that start with a digit and hold four
/// words or more.
pub open spec fn v4_routes(list: Seq<Text>) -> Seq<(Text, Text, Text)>
    decreases list.len(),
{
    if list.len() == 0 {
        Seq::empty()
    } else {
        let front = v4_routes(list.drop_last());
        match v4_route_on(list.last()) {
            Some(r) => front.push(r),
            None => front,
        }
    }
}

/// A route to an IPv6 network: the destination, the length of its prefix and the interface.
pub open spec fn v6_route_on(line: Text) -> Option<(Text, u8, Text)> {
    let parts = words(line);
    if parts.len() >= 3 && parts[0].contains(':') {
        Some((parts[0], number_or(parts[1], u8::MAX as nat, 0) as u8, parts[2]))
    } else {
        None
    }
}

/// The routes that the lines of the IPv6 table tell: those of three words or more whose first one
/// holds a colon.
pub open spec fn v6_routes(list: Seq<Text>) -> Seq<(Text, u8, Text)>
    decreases list.len(),
{
    if list.len() == 0 {
        Seq::empty()
    } else {
        let front = v6_routes(list.drop_last());
        match v6_route_on(list.last()) {
            Some(r) => front.push(r),
            None => front,
        }
    }
}

/// The lines of what a command wrote that hold anything, without the white space around them.
pub open spec fn clean_lines(bytes: Seq<u8>) -> Seq<Text> {
    nonempty(trims(lines(utf8_lossy(bytes))))
}

fn clean_lines_of(bytes: &Vec<u8>) -> (r: Vec<String>)
    ensures
        r.deep_view() == clean_lines(bytes@),
{
    let text = lossy_text(bytes);
    nonempty_texts(&trimmed_texts(&lines_of(text.as_str())))
}

/// No line of a cleaned list is empty.
proof fn lemma_nonempty(list: Seq<Text>)
    ensures
        forall|i: int| 0 <= i < nonempty(list).len() ==> (#[trigger] nonempty(list)[i]).len() > 0,
    decreases list.len(),
{
    if list.len() > 0 {
        let front = nonempty(list.drop_last());
        lemma_nonempty(list.drop_last());
        assert forall|i: int| 0 <= i < nonempty(list).len() implies (#[trigger] nonempty(
            list,
        )[i]).len() > 0 by {
            if i < front.len() {
                assert(nonempty(list)[i] == front[i]);
            }
        }
    }
}

/// Reads the IPv4 routing table; `None` where the command was not run.
pub fn get_ipv4_routes(output: &Option<CommandOutput>) -> (r: Option<
    Vec<(String, String, String)>,
>)
    ensures
        r.deep_view() == match *output {
            Some(o) => Some(v4_routes(clean_lines(o.stdout@))),
            None => None,
        },
{
    let o = match output {
        Some(o) => o,
        None => return None,
    };
    let list = clean_lines_of(&o.stdout);
    let ghost all = list.deep_view();
    let mut out: Vec<(String, String, String)> = Vec::new();
    let mut i: usize = 0;
    proof {
        lemma_nonempty(trims(lines(utf8_lossy(o.stdout@))));
        assert(out.deep_view() =~= v4_routes(all.take(0)));
    }
    while i < list.len()
        invariant
            all == list.deep_view(),
            forall|k: int| 0 <= k < all.len() ==> (#[trigger] all[k]).len() > 0,
            i <= list@.len(),
            out.deep_view() == v4_routes(all.take(i as int)),
        decreases list.len() - i,
    {
        assert(all.take(i + 1).drop_last() =~= all.take(i as int));
        assert(all[i as int] == list@[i as int]@);
        let chars = chars_of(list[i].as_str());
        let parts = words_of(list[i].as_str());
        proof {
            lemma_list_len(&parts);
        }
        if '0' <= chars[0] && chars[0] <= '9' && parts.len() >= 4 {
            let ghost before = out.deep_view();
            out.push((parts[0].clone(), parts[1].clone(), parts[3].clone()));
            assert(out.deep_view() =~= before.push(v4_route_on(all[i as int])->0));
        }
        i += 1;
    }
    assert(all.take(list@.len() as int) =~= all);
    Some(out)
}

/// Reads the IPv6 routing table; `None` where the command was not run.
pub fn get_ipv6_routes(output: &Option<CommandOutput>) -> (r: Option<Vec<(String, u8, String)>>)
    ensures
        r.deep_view() == match *output {
            Some(o) => Some(v6_routes(clean_lines(o.stdout@))),
            None => None,
        },
{
    let o = match output {
        Some(o) => o,
        None => return None,
    };
    let list = clean_lines_of(&o.stdout);
    let ghost all = list.deep_view();
    let mut out: Vec<(String, u8, String)> = Vec::new();
    let mut i: usize = 0;
    assert(out.deep_view() =~= v6_routes(all.take(0)));
    while i < list.len()
        invariant
            all == list.deep_view(),
            i <= list@.len(),
            out.deep_view() == v6_routes(all.take(i as int)),
        decreases list.len() - i,
    {
        assert(all.take(i + 1).drop_last() =~= all.take(i as int));
        let parts = words_of(list[i].as_str());
        proof {
            lemma_list_len(&parts);
        }
        if parts.len() >= 3 && contains_char(parts[0].as_str(), ':') {
            let prefix: u8 = match read_u8(parts[1].as_str()) {
                Some(n) => n,
                None => 0,
            };
            let ghost before = out.deep_view();
            out.push((parts[0].clone(), prefix, parts[2].clone()));
            assert(out.deep_view() =~= before.push(v6_route_on(all[i as int])->0));
        }
        i += 1;
    }
    assert(all.take(list@.len() as int) =~= all);
    Some(out)
}

/// The interface of the first route to the network.
pub open spec fn v4_route_to(
    routes: Seq<(Text, Text, Text)>,
    network: Text,
    netmask: Text,
) -> Option<Text>
    decreases routes.len(),
{
    if routes.len() == 0 {
        None
    } else if routes[0].0 == network && routes[0].1 == netmask {
        Some(routes[0].2)
    } else {
        v4_route_to(routes.drop_first(), network, netmask)
    }
}

/// The interface of the route to a network that the table holds.
pub open spec fn v4_route_in(output: Option<CommandOutput>, network: Text, netmask: Text) -> Option<
    Text,
> {
    match output {
        Some(o) => v4_route_to(v4_routes(clean_lines(o.stdout@)), network, netmask),
        None => None,
    }
}

/// The interface that the system's route to an IPv4 network goes through, if there is such a route.
pub fn find_route_v4(output: &Option<CommandOutput>, network: &str, netmask: &str) -> (r: Option<
    String,
>)
    ensures
        r.deep_view() == v4_route_in(*output, network@, netmask@),
{
    let routes = match get_ipv4_routes(output) {
        Some(routes) => routes,
        None => return None,
    };
    let ghost all = routes.deep_view();
    let mut i: usize = 0;
    assert(all.skip(0) =~= all);
    while i < routes.len()
        invariant
            all == routes.deep_view(),
            i <= routes@.len(),
            output is Some,
            all == v4_routes(clean_lines(output->0.stdout@)),
            v4_route_to(all, network@, netmask@) == v4_route_to(
                all.skip(i as int),
                network@,
                netmask@,
            ),
        decreases routes.len() - i,
    {
        proof {
            assert(all.skip(i as int)[0] == routes@[i as int].deep_view());
            assert(all.skip(i as int).drop_first() =~= all.skip(i + 1));
        }
        if text_eq(routes[i].0.as_str(), network) && text_eq(routes[i].1.as_str(), netmask) {
            return Some(routes[i].2.clone());
        }
        i += 1;
    }
    None
}

/// Whether a table holds a route to the network.
pub open spec fn v6_route_to(routes: Seq<(Text, u8, Text)>, network: Text, prefix: u8) -> bool {
    exists|i: int|
        0 <= i < routes.len() && (#[trigger] routes[i]).0 == network && routes[i].1 == prefix
}

/// Whether the table that a command wrote holds a route to the network.
pub open spec fn v6_route_in(output: Option<CommandOutput>, network: Text, prefix: u8) -> bool {
    match output {
        Some(o) => v6_route_to(v6_routes(clean_lines(o.stdout@)), network, prefix),
        None => false,
    }
}

/// Whether the system has a route to an IPv6 network.
pub fn route_v6_exists(output: &Option<CommandOutput>, network: &str, prefix: u8) -> (r: bool)
    ensures
        r == v6_route_in(*output, network@, prefix),
{
    let routes = match get_ipv6_routes(output) {
        Some(routes) => routes,
        None => return false,
    };
    let ghost all = routes.deep_view();
    let mut i: usize = 0;
    while i < routes.len()
        invariant
            all == routes.deep_view(),
            i <= routes@.len(),
            output is Some,
            all == v6_routes(clean_lines(output->0.stdout@)),
            forall|k: int| 0 <= k < i ==> !((#[trigger] all[k]).0 == network@ && all[k].1 == prefix),
        decreases routes.len() - i,
    {
        assert(all[i as int] == routes@[i as int].deep_view());
        if routes[i].1 == prefix && text_eq(routes[i].0.as_str(), network) {
            return true;
        }
        i += 1;
    }
    assert(all.len() == routes@.len());
    false
}

// ---------- The interface's number ----------

/// The first word that is a number.
pub open spec fn first_number(parts: Seq<Text>) -> Option<nat>
    decreases parts.len(),
{
    if parts.len() == 0 {
        None
    } else {
        match parse_unsigned(parts[0], u32::MAX as nat) {
            Some(n) => Some(n),
            None => first_number(parts.drop_first()),
        }
    }
}

/// The first number that stands right after a word that is `name` in lower case.
pub open spec fn number_after(parts: Seq<Text>, name: Text) -> Option<nat>
    decreases parts.len(),
{
    if parts.len() < 2 {
        None
    } else if parse_unsigned(parts[1], u32::MAX as nat) is Some && lowercase(parts[0]) == name {
        parse_unsigned(parts[1], u32::MAX as nat)
    } else {
        number_after(parts.drop_first(), name)
    }
}

/// The number of the interface on a line of the list of interfaces: the one right after its name,
/// else the first on the line.
pub open spec fn index_on(line: Text, name: Text) -> Option<nat> {
    if has_part(lowercase(line), name) {
        match number_after(words(line), name) {
            Some(n) => Some(n),
            None => first_number(words(line)),
        }
    } else {
        None
    }
}

/// The number of the interface in the list of interfaces: that of the first line that tells it.
pub open spec fn index_in_list(list: Seq<Text>, name: Text) -> Option<nat>
    decreases list.len(),
{
    if list.len() == 0 {
        None
    } else {
        match index_on(list[0], name) {
            Some(n) => Some(n),
            None => index_in_list(list.drop_first(), name),
        }
    }
}

fn first_number_of(parts: &Vec<String>) -> (r: Option<u32>)
    ensures
        (match r {
            Some(n) => Some(n as nat),
            None => None,
        }) == first_number(parts.deep_view()),
{
    let ghost all = parts.deep_view();
    let mut i: usize = 0;
    assert(all.skip(0) =~= all);
    while i < parts.len()
        invariant
            all == parts.deep_view(),
            i <= parts@.len(),
            first_number(all) == first_number(all.skip(i as int)),
        decreases parts.len() - i,
    {
        proof {
            assert(all.skip(i as int)[0] == parts@[i as int]@);
            assert(all.skip(i as int).drop_first() =~= all.skip(i + 1));
        }
        if let Some(n) = read_u32(parts[i].as_str()) {
            return Some(n);
        }
        i += 1;
    }
    None
}

fn number_after_of(parts: &Vec<String>, name: &str) -> (r: Option<u32>)
    ensures
        (match r {
            Some(n) => Some(n as nat),
            None => None,
        }) == number_after(parts.deep_view(), name@),
{
    let ghost all = parts.deep_view();
    let mut i: usize = 0;
    assert(all.skip(0) =~= all);
    while i < parts.len()
        invariant
            all == parts.deep_view(),
            i <= parts@.len(),
            number_after(all, name@) == number_after(all.skip(i as int), name@),
        decreases parts.len() - i,
    {
        if i + 1 == parts.len() {
            return None;
        }
        proof {
            assert(all.skip(i as int)[0] == parts@[i as int]@);
            assert(all.skip(i as int)[1] == parts@[i + 1]@);
            assert(all.skip(i as int).drop_first() =~= all.skip(i + 1));
        }
        if let Some(n) = read_u32(parts[i + 1].as_str()) {
            if text_eq(lowercase_of(parts[i].as_str()).as_str(), name) {
                return Some(n);
            }
        }
        i += 1;
    }
    None
}

fn index_in_list_of(list: &Vec<String>, name: &str) -> (r: Option<u32>)
    ensures
        (match r {
            Some(n) => Some(n as nat),
            None => None,
        }) == index_in_list(list.deep_view(), name@),
{
    let ghost all = list.deep_view();
    let mut i: usize = 0;
    assert(all.skip(0) =~= all);
    while i < list.len()
        invariant
            all == list.deep_view(),
            i <= list@.len(),
            index_in_list(all, name@) == index_in_list(all.skip(i as int), name@),
        decreases list.len() - i,
    {
        proof {
            assert(all.skip(i as int)[0] == list@[i as int]@);
            assert(all.skip(i as int).drop_first() =~= all.skip(i + 1));
        }
        if contains_text(lowercase_of(list[i].as_str()).as_str(), name) {
            let parts = words_of(list[i].as_str());
            if let Some(n) = number_after_of(&parts, name) {
                return Some(n);
            }
            if let Some(n) = first_number_of(&parts) {
                return Some(n);
            }
        }
        i += 1;
    }
    None
}

/// How often the number of the interface is looked for before it is given up.
pub const INDEX_ATTEMPTS: u32 = 3;

/// Where a search for the interface's number stands.
#[derive(Clone, Copy)]
pub enum IndexStage {
    /// Waiting before another attempt.
    Pausing { attempt: u32 },
    /// Waiting for the list of interfaces.
    Listing { attempt: u32 },
    /// Waiting for the answer of the management tool.
    Asking { attempt: u32 },
    /// The number is known.
    Found { index: u32 },
    /// The number could not be found.
    Missing,
}

/// What a search for the interface's number needs done next.
pub enum IndexRequest {
    /// Wait for so many seconds.
    Pause { secs: u64 },
    /// Run a command and tell what it wrote.
    Run(Invocation),
    /// Nothing: the search is over.
    Over { index: Option<u32> },
}

/// The contents of an [`IndexRequest`].
pub enum IndexAsk {
    Pause { secs: u64 },
    Run(Call),
    Over { index: Option<u32> },
}

impl DeepView for IndexRequest {
    type V = IndexAsk;

    open spec fn deep_view(&self) -> IndexAsk {
        match *self {
            IndexRequest::Pause { secs } => IndexAsk::Pause { secs },
            IndexRequest::Run(c) => IndexAsk::Run(c.deep_view()),
            IndexRequest::Over { index } => IndexAsk::Over { index },
        }
    }
}

/// What a search for the interface's number needs done next.
pub open spec fn index_ask(stage: IndexStage, name: Text) -> IndexAsk {
    match stage {
        IndexStage::Pausing { .. } => IndexAsk::Pause { secs: 1 },
        IndexStage::Listing { .. } => IndexAsk::Run(
            Call {
                program: "netsh"@,
                args: seq!["interface"@, "ipv4"@, "show"@, "interfaces"@],
            },
        ),
        IndexStage::Asking { .. } => IndexAsk::Run(
            Call {
                program: "wmic"@,
                args: seq![
                    "nic"@,
                    "where"@,
                    "NetConnectionID='"@ + name + "'"@,
                    "get"@,
                    "InterfaceIndex"@,
                ],
            },
        ),
        IndexStage::Found { index } => IndexAsk::Over { index: Some(index) },
        IndexStage::Missing => IndexAsk::Over { index: None },
    }
}

/// The number that what a command wrote tells, `asked` telling whether it was the management tool.
pub open spec fn index_told(output: Option<CommandOutput>, name: Text, asked: bool) -> Option<nat> {
    match output {
        Some(o) => if asked {
            first_number(clean_lines(o.stdout@))
        } else {
            index_in_list(lines(utf8_lossy(o.stdout@)), lowercase(name))
        },
        None => None,
    }
}

/// Where an answer takes a search.
pub open spec fn index_step(
    stage: IndexStage,
    name: Text,
    output: Option<CommandOutput>,
) -> IndexStage {
    match stage {
        IndexStage::Pausing { attempt } => IndexStage::Listing { attempt },
        IndexStage::Listing { attempt } => match index_told(output, name, false) {
            Some(n) => IndexStage::Found { index: n as u32 },
            None => IndexStage::Asking { attempt },
        },
        IndexStage::Asking { attempt } => match index_told(output, name, true) {
            Some(n) => IndexStage::Found { index: n as u32 },
            None => if attempt + 1 < INDEX_ATTEMPTS {
                IndexStage::Pausing { attempt: (attempt + 1) as u32 }
            } else {
                IndexStage::Missing
            },
        },
        IndexStage::Found { index } => IndexStage::Found { index },
        IndexStage::Missing => IndexStage::Missing,
    }
}

/// A search for the number of an interface.
pub struct IndexSearch {
    pub interface: String,
    pub stage: IndexStage,
}

/// Starts looking for the number of an interface.
pub fn get_interface_index(if_name: &str) -> (r: IndexSearch)
    ensures
        r.interface@ == if_name@,
        r.stage == (IndexStage::Listing { attempt: 0 }),
{
    IndexSearch { interface: owned(if_name), stage: IndexStage::Listing { attempt: 0 } }
}

impl IndexSearch {
    /// What the search needs done next.
    pub fn request(&self) -> (r: IndexRequest)
        ensures
            r.deep_view() == index_ask(self.stage, self.interface@),
    {
        match self.stage {
            IndexStage::Pausing { .. } => IndexRequest::Pause { secs: 1 },
            IndexStage::Listing { .. } => {
                let args = vec![
                    owned("interface"),
                    owned("ipv4"),
                    owned("show"),
                    owned("interfaces"),
                ];
                assert(args.deep_view() =~= seq!["interface"@, "ipv4"@, "show"@, "interfaces"@]);
                IndexRequest::Run(Invocation { program: owned("netsh"), args })
            },
            IndexStage::Asking { .. } => {
                let args = vec![
                    owned("nic"),
                    owned("where"),
                    owned("NetConnectionID='").concat(self.interface.as_str()).concat("'"),
                    owned("get"),
                    owned("InterfaceIndex"),
                ];
                assert(args.deep_view() =~= seq![
                    "nic"@,
                    "where"@,
                    "NetConnectionID='"@ + self.interface@ + "'"@,
                    "get"@,
                    "InterfaceIndex"@,
                ]);
                IndexRequest::Run(Invocation { program: owned("wmic"), args })
            },
            IndexStage::Found { index } => IndexRequest::Over { index: Some(index) },
            IndexStage::Missing => IndexRequest::Over { index: None },
        }
    }

    fn told(&self, output: &Option<CommandOutput>, asked: bool) -> (r: Option<u32>)
        ensures
            (match r {
                Some(n) => Some(n as nat),
                None => None,
            }) == index_told(*output, self.interface@, asked),
    {
        match output {
            Some(o) => if asked {
                first_number_of(&clean_lines_of(&o.stdout))
            } else {
                let text = lossy_text(&o.stdout);
                index_in_list_of(
                    &lines_of(text.as_str()),
                    lowercase_of(self.interface.as_str()).as_str(),
                )
            },
            None => None,
        }
    }

    /// Takes what the last command wrote, `None` where it was not run or there was none, and says
    /// what is needed next.
    pub fn step(&mut self, output: &Option<CommandOutput>) -> (r: IndexRequest)
        ensures
            final(self).interface == old(self).interface,
            final(self).stage == index_step(old(self).stage, old(self).interface@, *output),
            r.deep_view() == index_ask(final(self).stage, final(self).interface@),
    {
        self.stage = match self.stage {
            IndexStage::Pausing { attempt } => IndexStage::Listing { attempt },
            IndexStage::Listing { attempt } => match self.told(output, false) {
                Some(index) => IndexStage::Found { index },
                None => IndexStage::Asking { attempt },
            },
            IndexStage::Asking { attempt } => match self.told(output, true) {
                Some(index) => IndexStage::Found { index },
                None => if attempt < INDEX_ATTEMPTS - 1 {
                    IndexStage::Pausing { attempt: attempt + 1 }
                } else {
                    IndexStage::Missing
                },
            },
            IndexStage::Found { index } => IndexStage::Found { index },
            IndexStage::Missing => IndexStage::Missing,
        };
        self.request()
    }
}

// ---------- Laws ----------

/// How many steps a search for the interface's number has left at most.
pub open spec fn index_left(stage: IndexStage) -> int {
    match stage {
        IndexStage::Pausing { attempt } => 3 * (INDEX_ATTEMPTS - attempt),
        IndexStage::Listing { attempt } => 3 * (INDEX_ATTEMPTS - attempt) - 1,
        IndexStage::Asking { attempt } => 3 * (INDEX_ATTEMPTS - attempt) - 2,
        IndexStage::Found { .. } | IndexStage::Missing => 0,
    }
}

/// Every answer brings a search for the interface's number nearer to its end, and what it finds is
/// what the answer told.
pub proof fn law_index_search_ends(stage: IndexStage, name: Text, output: Option<CommandOutput>)
    requires
        stage !is Found && stage !is Missing,
        index_left(stage) > 0,
    ensures
        0 <= index_left(index_step(stage, name, output)) < index_left(stage),
        index_step(stage, name, output) matches IndexStage::Found { index } ==> {
            let told = index_told(output, name, stage is Asking);
            told is Some && index == told->0 as u32
        },
{
}

} // verus!
