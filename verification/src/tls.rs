//! How the broker is reached: in the clear, or over TLS with some authorities.
use vstd::prelude::*;

use crate::commands::{is_plain_switch_on, plain_switch};
use crate::text::Text;

verus! {

/// How the broker is reached.
pub enum TransportChoice {
    /// In the clear.
    Plain,
    /// Over TLS, trusting the certificates in a file.
    File(String),
    /// Over TLS, trusting what the system trusts.
    System,
}

/// The contents of a [`TransportChoice`].
pub enum TransportView {
    Plain,
    File(Text),
    System,
}

impl DeepView for TransportChoice {
    type V = TransportView;

    open spec fn deep_view(&self) -> TransportView {
        match *self {
            TransportChoice::Plain => TransportView::Plain,
            TransportChoice::File(path) => TransportView::File(path@),
            TransportChoice::System => TransportView::System,
        }
    }
}

/// How the broker is reached, as set by `MQTT_TLS_ENABLE` and `MQTT_TLS_CA_CERT`.
pub fn build_transport(
    tls_enable: &Option<String>,
    ca_cert: &Option<String>,
) -> (r: TransportChoice)
    ensures
        r.deep_view() == if !plain_switch(tls_enable.deep_view()) {
            TransportView::Plain
        } else {
            match ca_cert.deep_view() {
                Some(path) => TransportView::File(path),
                None => TransportView::System,
            }
        },
{
    if !is_plain_switch_on(tls_enable) {
        return TransportChoice::Plain;
    }
    match ca_cert {
        Some(path) => TransportChoice::File(path.clone()),
        None => TransportChoice::System,
    }
}

/// The certificates that `rustls_pemfile` finds in a text, `None` where it cannot be read.
pub uninterp spec fn pem_certificates(pem: Seq<char>) -> Option<Seq<Seq<u8>>>;

/// `certs` of the `rustls-pemfile` crate on the bytes of a text: the contents of the certificates
/// in it, one after the other. What they are is named, not described: the PEM format is left
/// unsaid.
#[verifier::external_body]
fn pemfile_certs(pem: &str) -> (r: Option<Vec<Vec<u8>>>)
    ensures
        r.deep_view() == pem_certificates(pem@),
{
    rustls_pemfile::certs(&mut pem.as_bytes()).ok()
}

/// The certificates in a file of authorities; `None` where it cannot be read.
pub fn ca_certificates(pem: &str) -> (r: Option<Vec<Vec<u8>>>)
    ensures
        r.deep_view() == pem_certificates(pem@),
{
    pemfile_certs(pem)
}

} // verus!
