//! The key pair of this node.
use vstd::prelude::*;

use crate::text::{is_ws, lemma_trim_plain, owned, trim, trimmed, Text};

verus! {

/// What the standard alphabet of Base64, with padding, makes of bytes.
pub uninterp spec fn base64_text(bytes: Seq<u8>) -> Seq<char>;

/// What a text in the standard alphabet of Base64, with padding, stands for, if it is one.
pub uninterp spec fn base64_bytes(text: Seq<char>) -> Option<Seq<u8>>;

/// A character of the standard alphabet of Base64, or the one it is padded with.
pub open spec fn base64_char(c: char) -> bool {
    'A' <= c <= 'Z' || 'a' <= c <= 'z' || '0' <= c <= '9' || c == '+' || c == '/' || c == '='
}

/// `Engine::encode` of the `base64` crate with its `STANDARD` engine, on the bytes of a key. The
/// text is named, not described; it holds only characters of the alphabet and the padding, and
/// decoding it with the same engine gives the bytes back.
#[verifier::external_body]
fn base64_encode(bytes: &[u8; 32]) -> (r: String)
    ensures
        r@ == base64_text(bytes@),
        base64_bytes(r@) == Some(bytes@),
        forall|i: int| 0 <= i < r@.len() ==> base64_char(#[trigger] r@[i]),
{
    base64::Engine::encode(&base64::engine::general_purpose::STANDARD, bytes)
}

/// `Engine::decode` of the `base64` crate with its `STANDARD` engine. What a text stands for, and
/// whether it stands for anything, is named, not described.
#[verifier::external_body]
fn base64_decode(text: &str) -> (r: Option<Vec<u8>>)
    ensures
        r.deep_view() == base64_bytes(text@),
{
    base64::Engine::decode(&base64::engine::general_purpose::STANDARD, text).ok()
}

/// What `x25519_dalek` gives as the public key that belongs to a secret key.
pub uninterp spec fn x25519_public(secret: Seq<u8>) -> Seq<u8>;

/// `PublicKey::from` of the `x25519-dalek` crate on a `StaticSecret`. The public key is named, not
/// described.
#[verifier::external_body]
fn dalek_public_key(secret: &[u8; 32]) -> (r: [u8; 32])
    ensures
        r@ == x25519_public(secret@),
{
    x25519_dalek::PublicKey::from(&x25519_dalek::StaticSecret::from(*secret)).to_bytes()
}

/// `Rng::fill` of the `rand` crate on 32 bytes. Which bytes these are is left to chance.
#[verifier::external_body]
fn rand_bytes() -> (r: [u8; 32]) {
    let mut bytes = [0u8; 32];
    rand::Rng::fill(&mut rand::thread_rng(), &mut bytes);
    bytes
}

/// A key pair, each key in Base64.
pub struct WireGuardKeys {
    pub private_key: String,
    pub public_key: String,
}

/// The contents of [`WireGuardKeys`].
pub struct KeysView {
    pub private_key: Text,
    pub public_key: Text,
}

impl DeepView for WireGuardKeys {
    type V = KeysView;

    open spec fn deep_view(&self) -> KeysView {
        KeysView { private_key: self.private_key@, public_key: self.public_key@ }
    }
}

/// Why a private key could not be read.
#[derive(Debug, Clone, Copy, PartialEq, Eq, Structural)]
pub enum KeyError {
    /// It is not Base64.
    NotBase64,
    /// It does not stand for 32 bytes.
    WrongLength,
}

/// The public key that belongs to the bytes of a private key.
pub open spec fn public_key_of(secret: Seq<u8>) -> Text {
    base64_text(x25519_public(secret))
}

/// The key pair of a private key, `bytes` being what it stands for.
pub open spec fn pair_with(private_key: Text, bytes: Option<Seq<u8>>) -> Result<
    KeysView,
    KeyError,
> {
    match bytes {
        None => Err(KeyError::NotBase64),
        Some(b) => if b.len() != 32 {
            Err(KeyError::WrongLength)
        } else {
            Ok(KeysView { private_key, public_key: public_key_of(b) })
        },
    }
}

/// The key pair of a private key.
pub open spec fn pair_of(private_key: Text) -> Result<KeysView, KeyError> {
    pair_with(private_key, base64_bytes(private_key))
}

/// The contents of the outcome of reading a key.
pub open spec fn outcome(r: Result<WireGuardKeys, KeyError>) -> Result<KeysView, KeyError> {
    match r {
        Ok(k) => Ok(k.deep_view()),
        Err(e) => Err(e),
    }
}

/// Bytes made fit for a private key: the three lowest bits and the highest bit are cleared, and the
/// second highest is set.
pub open spec fn clamped(bytes: Seq<u8>) -> Seq<u8> {
    bytes.update(0, bytes[0] & 248).update(31, (bytes[31] & 127) | 64)
}

impl WireGuardKeys {
    /// A new key pair, made at random. Its private key gives the same pair when it is read again.
    pub fn generate() -> (r: Self)
        ensures
            exists|bytes: Seq<u8>|
                bytes.len() == 32 && r.private_key@ == base64_text(#[trigger] clamped(bytes))
                    && r.public_key@ == public_key_of(clamped(bytes)),
            pair_of(r.private_key@) == Ok::<KeysView, KeyError>(r.deep_view()),
            pair_of(trim(r.private_key@)) == Ok::<KeysView, KeyError>(r.deep_view()),
    {
        Self::from_random_bytes(rand_bytes())
    }

    /// The key pair that random bytes make. Its private key gives the same pair when it is read
    /// again.
    pub fn from_random_bytes(random: [u8; 32]) -> (r: Self)
        ensures
            r.private_key@ == base64_text(clamped(random@)),
            r.public_key@ == public_key_of(clamped(random@)),
            pair_of(r.private_key@) == Ok::<KeysView, KeyError>(r.deep_view()),
            pair_of(trim(r.private_key@)) == Ok::<KeysView, KeyError>(r.deep_view()),
    {
        let mut bytes = random;
        bytes[0] = bytes[0] & 248;
        bytes[31] = bytes[31] & 127;
        bytes[31] = bytes[31] | 64;
        assert(bytes@ =~= clamped(random@));
        let private_key = base64_encode(&bytes);
        proof {
            assert forall|i: int| 0 <= i < private_key@.len() implies !is_ws(
                #[trigger] private_key@[i],
            ) by {
                assert(base64_char(private_key@[i]));
            }
            lemma_trim_plain(private_key@);
        }
        let public_key = Self::derive_public(&bytes);
        WireGuardKeys { private_key, public_key }
    }

    /// The public key that belongs to the bytes of a private key.
    pub fn derive_public(private_bytes: &[u8; 32]) -> (r: String)
        ensures
            r@ == public_key_of(private_bytes@),
    {
        base64_encode(&dalek_public_key(private_bytes))
    }

    /// The key pair of a private key, `decoded` being what it stands for.
    pub fn from_decoded_key(private_key: &str, decoded: Option<Vec<u8>>) -> (r: Result<
        Self,
        KeyError,
    >)
        ensures
            outcome(r) == pair_with(private_key@, decoded.deep_view()),
    {
        let private_bytes = match decoded {
            Some(b) => b,
            None => return Err(KeyError::NotBase64),
        };
        assert(private_bytes.deep_view() =~= private_bytes@);
        if private_bytes.len() != 32 {
            return Err(KeyError::WrongLength);
        }
        let mut bytes = [0u8; 32];
        let mut i: usize = 0;
        while i < 32
            invariant
                private_bytes@.len() == 32,
                i <= 32,
                forall|j: int| 0 <= j < i ==> bytes@[j] == private_bytes@[j],
            decreases 32 - i,
        {
            bytes[i] = private_bytes[i];
            i += 1;
        }
        assert(bytes@ =~= private_bytes@);
        let public_key = Self::derive_public(&bytes);
        Ok(WireGuardKeys { private_key: owned(private_key), public_key })
    }

    /// The key pair of a private key in Base64.
    pub fn from_private_key(private_key: &str) -> (r: Result<Self, KeyError>)
        ensures
            outcome(r) == pair_of(private_key@),
    {
        Self::from_decoded_key(private_key, base64_decode(private_key))
    }

    /// The key pair whose private key a key file holds; white space around it does not matter.
    pub fn from_key_file(content: &str) -> (r: Result<Self, KeyError>)
        ensures
            outcome(r) == pair_of(trim(content@)),
    {
        Self::from_private_key(trimmed(content).as_str())
    }
}

// ---------- The key file ----------

/// What comes of looking for the key pair, `content` being what the key file holds, if there is
/// one: the pair that it gives, or a new pair, which has to be written to it.
pub open spec fn loaded(
    content: Option<Text>,
    keys: Result<KeysView, KeyError>,
    write: bool,
) -> bool {
    match content {
        Some(c) => !write && keys == pair_of(trim(c)),
        None => {
            &&& write
            &&& keys is Ok
            &&& pair_of(trim(keys->Ok_0.private_key)) == keys
            &&& exists|bytes: Seq<u8>|
                bytes.len() == 32 && keys->Ok_0.private_key == base64_text(
                    #[trigger] clamped(bytes),
                )
        },
    }
}

/// The key pair of this node, and whether its private key has to be written to the key file:
/// what the file holds counts, and a new pair is made where there is no file.
pub fn load_or_generate_keys(content: &Option<String>) -> (r: (
    Result<WireGuardKeys, KeyError>,
    bool,
))
    ensures
        loaded(content.deep_view(), outcome(r.0), r.1),
{
    match content {
        Some(c) => (WireGuardKeys::from_key_file(c.as_str()), false),
        None => (Ok(WireGuardKeys::generate()), true),
    }
}

/// The key file gives back the pair that was made: once the private key of a new pair is written,
/// the same pair is read, and nothing is written again.
pub proof fn law_key_file_gives_pair_back(
    made: KeysView,
    write: bool,
    read: Result<KeysView, KeyError>,
    again: bool,
)
    requires
        loaded(None, Ok(made), write),
        loaded(Some(made.private_key), read, again),
    ensures
        write,
        read == Ok::<KeysView, KeyError>(made),
        !again,
{
}

} // verus!
