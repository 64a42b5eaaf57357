//! The state of the whole interface, as the dump of the command line tool tells it.
use vstd::prelude::*;

use crate::number::{parse_unsigned, read_u16, read_u64};
use crate::strmap::StrMap;
use crate::text::{
    is_blank, lemma_list_len, lines, lines_of, nonempty, nonempty_texts, split, split_on,
    strict_text, strict_utf8, text_eq, trimmed_texts, trims, Text,
};
use crate::wg::{handshake_time, handshake_time_of, CommandOutput, WgError, DEFAULT_LISTEN_PORT};

verus! {

/// What the interface knows of a peer.
pub struct PeerState {
    pub endpoint: Option<String>,
    pub allowed_ips: Vec<String>,
    /// In seconds since 1970.
    pub latest_handshake: Option<u64>,
    /// Bytes received from the peer.
    pub transfer_rx: u64,
    /// Bytes sent to the peer.
    pub transfer_tx: u64,
}

/// The contents of a [`PeerState`].
pub struct PeerStateView {
    pub endpoint: Option<Text>,
    pub allowed_ips: Seq<Text>,
    pub latest_handshake: Option<u64>,
    pub transfer_rx: u64,
    pub transfer_tx: u64,
}

impl DeepView for PeerState {
    type V = PeerStateView;

    open spec fn deep_view(&self) -> PeerStateView {
        PeerStateView {
            endpoint: self.endpoint.deep_view(),
            allowed_ips: self.allowed_ips.deep_view(),
            latest_handshake: self.latest_handshake,
            transfer_rx: self.transfer_rx,
            transfer_tx: self.transfer_tx,
        }
    }
}

/// The state of the interface.
pub struct WgState {
    pub listen_port: u16,
    pub peers: StrMap<PeerState>,
}

/// The number that a field holds, or `default` where it holds none of at most `max`.
pub open spec fn number_or(field: Text, max: nat, default: nat) -> nat {
    match parse_unsigned(field, max) {
        Some(n) => n,
        None => default,
    }
}

/// The listen port in the first line of the dump, its third field; zero where there is no such
/// field, the default port where it holds no port.
pub open spec fn dump_port(list: Seq<Text>) -> nat {
    if list.len() > 0 && split(list[0], '\t').len() >= 3 {
        number_or(split(list[0], '\t')[2], u16::MAX as nat, DEFAULT_LISTEN_PORT as nat)
    } else {
        0
    }
}

/// The peer that the fields of a line describe.
pub open spec fn peer_of(fields: Seq<Text>) -> PeerStateView {
    PeerStateView {
        endpoint: if fields[2] == "(none)"@ || fields[2].len() == 0 {
            None
        } else {
            Some(fields[2])
        },
        allowed_ips: nonempty(split(fields[3], ',')),
        latest_handshake: handshake_time(fields[4]),
        transfer_rx: number_or(fields[5], u64::MAX as nat, 0) as u64,
        transfer_tx: number_or(fields[6], u64::MAX as nat, 0) as u64,
    }
}

/// The peers by public key, from lines of at least eight fields; a later line for a key replaces an
/// earlier one.
pub open spec fn peers_of(list: Seq<Text>) -> Map<Text, PeerStateView>
    decreases list.len(),
{
    if list.len() == 0 {
        Map::empty()
    } else {
        let front = peers_of(list.drop_last());
        let fields = split(list.last(), '\t');
        if fields.len() >= 8 {
            front.insert(fields[0], peer_of(fields))
        } else {
            front
        }
    }
}

/// The lines of the dump after the first, cleaned.
pub open spec fn peer_lines(list: Seq<Text>) -> Seq<Text> {
    if list.len() > 0 {
        nonempty(trims(list.skip(1)))
    } else {
        Seq::empty()
    }
}

fn read_peer(fields: &Vec<String>) -> (r: PeerState)
    requires
        fields@.len() >= 8,
    ensures
        r.deep_view() == peer_of(fields.deep_view()),
{
    let endpoint = if text_eq(fields[2].as_str(), "(none)") || is_blank(fields[2].as_str()) {
        None
    } else {
        Some(fields[2].clone())
    };
    let transfer_rx = match read_u64(fields[5].as_str()) {
        Some(n) => n,
        None => 0,
    };
    let transfer_tx = match read_u64(fields[6].as_str()) {
        Some(n) => n,
        None => 0,
    };
    PeerState {
        endpoint,
        allowed_ips: nonempty_texts(&split_on(fields[3].as_str(), ',')),
        latest_handshake: handshake_time_of(fields[4].as_str()),
        transfer_rx,
        transfer_tx,
    }
}

/// Reads the dump of the interface.
pub fn get_wg_state(output: &Option<CommandOutput>) -> (r: Result<WgState, WgError>)
    ensures
        match *output {
            None => r == Err::<WgState, WgError>(WgError::NotRun),
            Some(o) => if !o.success {
                r == Err::<WgState, WgError>(WgError::Failed)
            } else {
                match strict_utf8(o.stdout@) {
                    None => r == Err::<WgState, WgError>(WgError::NotText),
                    Some(t) => {
                        &&& r matches Ok(s)
                        &&& s.peers.wf()
                        &&& s.listen_port == dump_port(lines(t))
                        &&& s.peers@ == peers_of(peer_lines(lines(t)))
                    },
                }
            },
        },
{
    let o = match output {
        Some(o) => o,
        None => return Err(WgError::NotRun),
    };
    if !o.success {
        return Err(WgError::Failed);
    }
    let text = match strict_text(&o.stdout) {
        Some(t) => t,
        None => return Err(WgError::NotText),
    };
    let mut all = lines_of(text.as_str());
    let mut state = WgState { listen_port: 0, peers: StrMap::new() };
    proof {
        lemma_list_len(&all);
    }
    if all.len() == 0 {
        return Ok(state);
    }
    let ghost whole = all.deep_view();
    let first = all.remove(0);
    assert(all.deep_view() =~= whole.skip(1));
    let head = split_on(first.as_str(), '\t');
    proof {
        lemma_list_len(&head);
    }
    if head.len() >= 3 {
        state.listen_port = match read_u16(head[2].as_str()) {
            Some(p) => p,
            None => DEFAULT_LISTEN_PORT,
        };
    }
    let list = nonempty_texts(&trimmed_texts(&all));
    let ghost clean = list.deep_view();
    let mut i: usize = 0;
    assert(clean.take(0) =~= Seq::<Text>::empty());
    while i < list.len()
        invariant
            clean == list.deep_view(),
            i <= list@.len(),
            state.listen_port == dump_port(whole),
            state.peers.wf(),
            state.peers@ == peers_of(clean.take(i as int)),
        decreases list.len() - i,
    {
        assert(clean.take(i + 1).drop_last() =~= clean.take(i as int));
        let fields = split_on(list[i].as_str(), '\t');
        proof {
            lemma_list_len(&fields);
        }
        if fields.len() >= 8 {
            let peer = read_peer(&fields);
            state.peers.insert(fields[0].clone(), peer);
        }
        i += 1;
    }
    assert(clean.take(list@.len() as int) =~= clean);
    Ok(state)
}

} // verus!
