//! What the WireGuard command line tool prints, read back.
use vstd::prelude::*;

use crate::number::{parse_unsigned, read_u16, read_u64};
use crate::strmap::StrMap;
use crate::text::{
    contains_text, distinct, distinct_texts, has_part, lemma_list_len, lines, lines_of, lossy_text,
    nonempty, nonempty_texts, split, split_on, strict_text, strict_utf8, text_eq, trim, trimmed,
    trimmed_texts, trims, utf8_lossy, words, words_of, Text,
};

verus! {

/// The listen port where none is set.
pub const DEFAULT_LISTEN_PORT: u16 = 52822;

/// What a command that was run left behind.
pub struct CommandOutput {
    /// Whether it reported success.
    pub success: bool,
    /// What it wrote to its standard output.
    pub stdout: Vec<u8>,
}

/// Why the output of a command could not be used.
#[derive(Debug, Clone, Copy, PartialEq, Eq, Structural)]
pub enum WgError {
    /// The command could not be run.
    NotRun,
    /// The command reported a failure.
    Failed,
    /// What the command wrote is not text.
    NotText,
}

// ---------- One peer ----------

/// The first line that contains the text.
pub open spec fn first_with(list: Seq<Text>, part: Text) -> Option<Text>
    decreases list.len(),
{
    if list.len() == 0 {
        None
    } else if has_part(list[0], part) {
        Some(list[0])
    } else {
        first_with(list.drop_first(), part)
    }
}

fn find_with(list: &Vec<String>, part: &str) -> (r: Option<String>)
    ensures
        r.deep_view() == first_with(list.deep_view(), part@),
{
    let ghost all = list.deep_view();
    proof {
        assert(all.skip(0) =~= all);
    }
    let mut i: usize = 0;
    while i < list.len()
        invariant
            all == list.deep_view(),
            i <= list@.len(),
            first_with(all, part@) == first_with(all.skip(i as int), part@),
        decreases list.len() - i,
    {
        assert(all.skip(i as int)[0] == list@[i as int]@);
        if contains_text(list[i].as_str(), part) {
            return Some(list[i].clone());
        }
        assert(all.skip(i as int).drop_first() =~= all.skip(i + 1));
        i += 1;
    }
    None
}

/// The endpoint in the description of a peer: the second word of the first line that tells it.
pub open spec fn endpoint_in(text: Text) -> Option<Text> {
    match first_with(lines(text), "endpoint:"@) {
        Some(line) => if words(line).len() >= 2 {
            Some(words(line)[1])
        } else {
            None
        },
        None => None,
    }
}

/// The current endpoint of the peer that the output describes. Nothing is known of it where the
/// command was not run or failed.
pub fn get_current_endpoint(output: &Option<CommandOutput>) -> (r: Option<String>)
    ensures
        r.deep_view() == match *output {
            Some(o) => if o.success {
                endpoint_in(utf8_lossy(o.stdout@))
            } else {
                None
            },
            None => None,
        },
{
    match output {
        Some(o) => {
            if !o.success {
                return None;
            }
            let text = lossy_text(&o.stdout);
            match find_with(&lines_of(text.as_str()), "endpoint:") {
                Some(line) => {
                    let parts = words_of(line.as_str());
                    proof {
                        lemma_list_len(&parts);
                    }
                    if parts.len() >= 2 {
                        Some(parts[1].clone())
                    } else {
                        None
                    }
                },
                None => None,
            }
        },
        None => None,
    }
}

/// The addresses in the description of a peer: what follows the first colon, up to the next one, on
/// the first line that tells them, split at commas.
pub open spec fn allowed_ips_in(text: Text) -> Seq<Text> {
    match first_with(lines(text), "allowed ips:"@) {
        Some(line) => nonempty(trims(split(trim(second(split(line, ':'))), ','))),
        None => Seq::empty(),
    }
}

/// The second piece of a list, the empty text where there is none.
pub open spec fn second(pieces: Seq<Text>) -> Text {
    if pieces.len() >= 2 {
        pieces[1]
    } else {
        Seq::empty()
    }
}

/// The allowed addresses of the peer that the output describes; `None` where the command was not
/// run.
pub fn get_current_allowed_ips(output: &Option<CommandOutput>) -> (r: Option<Vec<String>>)
    ensures
        r.deep_view() == match *output {
            Some(o) => Some(allowed_ips_in(utf8_lossy(o.stdout@))),
            None => None,
        },
{
    match output {
        Some(o) => {
            let text = lossy_text(&o.stdout);
            let none: Vec<String> = Vec::new();
            assert(none.deep_view() =~= Seq::<Text>::empty());
            match find_with(&lines_of(text.as_str()), "allowed ips:") {
                Some(line) => {
                    let pieces = split_on(line.as_str(), ':');
                    proof {
                        lemma_list_len(&pieces);
                    }
                    let piece = if pieces.len() >= 2 {
                        pieces[1].clone()
                    } else {
                        String::new()
                    };
                    assert(piece@ =~= second(split(line@, ':')));
                    let list = split_on(trimmed(piece.as_str()).as_str(), ',');
                    Some(nonempty_texts(&trimmed_texts(&list)))
                },
                None => Some(none),
            }
        },
        None => None,
    }
}

// ---------- Handshakes ----------

/// The time of the last handshake with a peer, from lines of public keys and times; the first line
/// that tells of the peer counts.
pub open spec fn handshake_in(list: Seq<Text>, pubkey: Text) -> Option<nat>
    decreases list.len(),
{
    if list.len() == 0 {
        None
    } else {
        let parts = words(list[0]);
        if parts.len() >= 2 && parts[0] == pubkey {
            parse_unsigned(parts[1], u64::MAX as nat)
        } else {
            handshake_in(list.drop_first(), pubkey)
        }
    }
}

/// The time of a peer's last handshake as the command tells it.
pub open spec fn handshake_seconds(output: Option<CommandOutput>, pubkey: Text) -> Option<nat> {
    match output {
        Some(o) => if o.success {
            handshake_in(lines(utf8_lossy(o.stdout@)), pubkey)
        } else {
            None
        },
        None => None,
    }
}

/// The time of a peer's last handshake, in seconds since 1970. Nothing is known of it where the
/// command was not run or failed.
pub fn get_peer_handshake_seconds(output: &Option<CommandOutput>, pubkey: &str) -> (r: Option<u64>)
    ensures
        (match r {
            Some(n) => Some(n as nat),
            None => None,
        }) == handshake_seconds(*output, pubkey@),
{
    match output {
        Some(o) => {
            if !o.success {
                return None;
            }
            let text = lossy_text(&o.stdout);
            let list = lines_of(text.as_str());
            let ghost all = list.deep_view();
            proof {
                assert(all.skip(0) =~= all);
            }
            let mut i: usize = 0;
            while i < list.len()
                invariant
                    output is Some,
                    output->0.success,
                    all == list.deep_view(),
                    all == lines(utf8_lossy(output->0.stdout@)),
                    i <= list@.len(),
                    handshake_in(all, pubkey@) == handshake_in(all.skip(i as int), pubkey@),
                decreases list.len() - i,
            {
                assert(all.skip(i as int)[0] == list@[i as int]@);
                let parts = words_of(list[i].as_str());
                proof {
                    lemma_list_len(&parts);
                }
                if parts.len() >= 2 && text_eq(parts[0].as_str(), pubkey) {
                    return read_u64(parts[1].as_str());
                }
                assert(all.skip(i as int).drop_first() =~= all.skip(i + 1));
                i += 1;
            }
            None
        },
        None => None,
    }
}

/// Whether a handshake at that time is recent enough; a time in the future is.
pub open spec fn recent(handshake: Option<nat>, now_secs: u64, max_age_secs: u64) -> bool {
    match handshake {
        Some(h) => now_secs - h <= max_age_secs,
        None => false,
    }
}

/// Whether the peer shook hands within so many seconds before now.
pub fn has_recent_handshake(
    output: &Option<CommandOutput>,
    pubkey: &str,
    now_secs: u64,
    max_age_secs: u64,
) -> (r: bool)
    ensures
        r == recent(handshake_seconds(*output, pubkey@), now_secs, max_age_secs),
{
    match get_peer_handshake_seconds(output, pubkey) {
        Some(h) => now_secs < h || now_secs - h <= max_age_secs,
        None => false,
    }
}

/// A time of zero, or what is no number, stands for no handshake.
pub open spec fn handshake_time(word: Text) -> Option<u64> {
    if word == "0"@ {
        None
    } else {
        match parse_unsigned(word, u64::MAX as nat) {
            Some(n) => Some(n as u64),
            None => None,
        }
    }
}

/// The time of a handshake that a word tells.
pub fn handshake_time_of(word: &str) -> (r: Option<u64>)
    ensures
        r == handshake_time(word@),
{
    if text_eq(word, "0") {
        None
    } else {
        read_u64(word)
    }
}

/// The last handshakes by public key; a later line for a key replaces an earlier one.
pub open spec fn handshakes_in(list: Seq<Text>) -> Map<Text, Option<u64>>
    decreases list.len(),
{
    if list.len() == 0 {
        Map::empty()
    } else {
        let front = handshakes_in(list.drop_last());
        let parts = words(list.last());
        if parts.len() >= 2 {
            front.insert(parts[0], handshake_time(parts[1]))
        } else {
            front
        }
    }
}

/// The public keys of the lines that tell a handshake, in their order.
pub open spec fn handshake_keys(list: Seq<Text>) -> Seq<Text>
    decreases list.len(),
{
    if list.len() == 0 {
        list
    } else {
        let front = handshake_keys(list.drop_last());
        let parts = words(list.last());
        if parts.len() >= 2 {
            front.push(parts[0])
        } else {
            front
        }
    }
}

/// The last handshakes of all peers; they are walked in the order of the lines.
pub fn get_wg_latest_handshakes(output: &Option<CommandOutput>) -> (r: Result<
    StrMap<Option<u64>>,
    WgError,
>)
    ensures
        match *output {
            None => r == Err::<StrMap<Option<u64>>, WgError>(WgError::NotRun),
            Some(o) => if !o.success {
                r == Err::<StrMap<Option<u64>>, WgError>(WgError::Failed)
            } else {
                match strict_utf8(o.stdout@) {
                    None => r == Err::<StrMap<Option<u64>>, WgError>(WgError::NotText),
                    Some(t) => {
                        &&& r matches Ok(m)
                        &&& m.wf()
                        &&& m@ == handshakes_in(nonempty(trims(lines(t))))
                        &&& m.keys() == distinct(handshake_keys(nonempty(trims(lines(t)))))
                    },
                }
            },
        },
{
    let o = match output {
        Some(o) => o,
        None => return Err(WgError::NotRun),
    };
    if !o.success {
        return Err(WgError::Failed);
    }
    let text = match strict_text(&o.stdout) {
        Some(t) => t,
        None => return Err(WgError::NotText),
    };
    let list = nonempty_texts(&trimmed_texts(&lines_of(text.as_str())));
    let ghost all = list.deep_view();
    let mut out: StrMap<Option<u64>> = StrMap::new();
    let mut i: usize = 0;
    assert(all.take(0) =~= Seq::<Text>::empty());
    while i < list.len()
        invariant
            all == list.deep_view(),
            i <= list@.len(),
            out.wf(),
            out@ == handshakes_in(all.take(i as int)),
            out.keys() == distinct(handshake_keys(all.take(i as int))),
        decreases list.len() - i,
    {
        assert(all.take(i + 1).drop_last() =~= all.take(i as int));
        let parts = words_of(list[i].as_str());
        proof {
            lemma_list_len(&parts);
        }
        if parts.len() >= 2 {
            let time = handshake_time_of(parts[1].as_str());
            proof {
                let front = handshake_keys(all.take(i as int));
                assert(front.push(parts@[0]@).drop_last() =~= front);
                out.lemma_keys();
            }
            out.insert(parts[0].clone(), time);
        }
        i += 1;
    }
    assert(all.take(list@.len() as int) =~= all);
    Ok(out)
}

// ---------- Lists of peers ----------

/// The public keys that the interface lists; `None` where the command was not run.
pub fn peer_list(output: &Option<CommandOutput>) -> (r: Option<Vec<String>>)
    ensures
        r.deep_view() == match *output {
            Some(o) => Some(nonempty(trims(lines(utf8_lossy(o.stdout@))))),
            None => None,
        },
{
    match output {
        Some(o) => {
            let text = lossy_text(&o.stdout);
            Some(nonempty_texts(&trimmed_texts(&lines_of(text.as_str()))))
        },
        None => None,
    }
}

/// The public keys on lines that do not say `(none)` after them.
pub open spec fn keys_with_psk(list: Seq<Text>) -> Seq<Text>
    decreases list.len(),
{
    if list.len() == 0 {
        list
    } else {
        let front = keys_with_psk(list.drop_last());
        let parts = words(list.last());
        if parts.len() == 0 || (parts.len() >= 2 && parts[1] == "(none)"@) {
            front
        } else {
            front.push(parts[0])
        }
    }
}

/// The peers that have a preshared key, each once; `None` where the command was not run.
pub fn get_peers_with_psk(output: &Option<CommandOutput>) -> (r: Option<Vec<String>>)
    ensures
        r.deep_view() == match *output {
            Some(o) => Some(
                distinct(keys_with_psk(nonempty(trims(lines(utf8_lossy(o.stdout@)))))),
            ),
            None => None,
        },
{
    let list = match peer_list(output) {
        Some(l) => l,
        None => return None,
    };
    let ghost all = list.deep_view();
    let mut out: Vec<String> = Vec::new();
    let mut i: usize = 0;
    assert(out.deep_view() =~= keys_with_psk(all.take(0)));
    while i < list.len()
        invariant
            all == list.deep_view(),
            i <= list@.len(),
            out.deep_view() == keys_with_psk(all.take(i as int)),
        decreases list.len() - i,
    {
        assert(all.take(i + 1).drop_last() =~= all.take(i as int));
        let parts = words_of(list[i].as_str());
        proof {
            lemma_list_len(&parts);
        }
        if parts.len() > 0 && !(parts.len() >= 2 && text_eq(parts[1].as_str(), "(none)")) {
            let ghost before = out.deep_view();
            out.push(parts[0].clone());
            assert(out.deep_view() =~= before.push(words(all[i as int])[0]));
        }
        i += 1;
    }
    assert(all.take(list@.len() as int) =~= all);
    Some(distinct_texts(&out))
}

// ---------- The listen port ----------

/// A port written as a decimal number, if there is one.
pub open spec fn port_number(t: Option<Text>) -> Option<nat> {
    match t {
        Some(t) => parse_unsigned(t, u16::MAX as nat),
        None => None,
    }
}

/// The port that the interface listens on: the one that is set by hand, else the one that the
/// command tells, else the default.
pub open spec fn listen_port(env: Option<Text>, output: Option<Seq<u8>>) -> nat {
    match port_number(env) {
        Some(p) => p,
        None => match output {
            Some(bytes) => match strict_utf8(bytes) {
                Some(t) => match parse_unsigned(trim(t), u16::MAX as nat) {
                    Some(p) => p,
                    None => DEFAULT_LISTEN_PORT as nat,
                },
                None => DEFAULT_LISTEN_PORT as nat,
            },
            None => DEFAULT_LISTEN_PORT as nat,
        },
    }
}

/// The port that the interface listens on.
pub fn get_wg_listen_port(env: &Option<String>, output: &Option<CommandOutput>) -> (r: u16)
    ensures
        r == listen_port(
            env.deep_view(),
            match *output {
                Some(o) => Some(o.stdout@),
                None => None,
            },
        ),
{
    if let Some(text) = env {
        if let Some(p) = read_u16(text.as_str()) {
            return p;
        }
    }
    if let Some(o) = output {
        if let Some(text) = strict_text(&o.stdout) {
            if let Some(p) = read_u16(trimmed(text.as_str()).as_str()) {
                return p;
            }
        }
    }
    DEFAULT_LISTEN_PORT
}

} // verus!
