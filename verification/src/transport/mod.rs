//! How nodes talk to each other, and how they know that they may.
use crate::config::{text_view, Config, ConfigView};
use crate::digest::{
    hex_bytes, hex_decode, hex_encode, hex_fault, hex_text, hmac_sha256, hmac_sha256_code, hmac_sha256_matches,
    law_hex_round_trip,
};
use crate::error::Error;
use crate::ids::{hyphenated, uuid_text, Uuid};
use crate::protocol::{Authenticated, Authentication};
use crate::text::{join, same_text};
use crate::transport::udp::secret_view;
use vstd::prelude::*;
use vstd::utf8::encode_utf8;

pub mod reader;
pub mod sender;
pub mod transmission;
pub mod udp;
pub mod udp_io;

verus! {

/// The code of a message under the cluster's secret, in hexadecimal; none
/// where the cluster has no secret.
pub open spec fn code_of(secret: Option<Seq<char>>, message: Seq<u8>) -> Option<Seq<char>> {
    match secret {
        Some(s) => Some(hex_text(hmac_sha256_code(encode_utf8(s), message))),
        None => None,
    }
}

/// Whether a code lets a message through: the right one under the secret, or
/// none where there is no secret.
pub open spec fn code_check(secret: Option<Seq<char>>, message: Seq<u8>, supplied: Option<Seq<char>>) -> Option<
    Seq<char>,
> {
    match (secret, supplied) {
        (None, None) => None,
        (Some(s), Some(code)) => match hex_bytes(code) {
            Some(bytes) => if bytes == hmac_sha256_code(encode_utf8(s), message) {
                None
            } else {
                Some(Error::AuthFailed.text())
            },
            None => Some(hex_fault(code)),
        },
        _ => Some(Error::SecretMismatch.text()),
    }
}

/// The code of a message under the cluster's secret.
pub fn signature(secret: Option<&str>, bytes: &[u8]) -> (r: Option<String>)
    ensures
        text_view(r) == code_of(secret_view(secret), bytes@),
{
    match secret {
        Some(s) => {
            let code: [u8; 32] = hmac_sha256(s.as_bytes(), bytes);
            Some(hex_encode(&code))
        },
        None => None,
    }
}

/// Lets a message through whose code is right.
pub fn verify(secret: Option<&str>, bytes: &[u8], supplied: Option<&str>) -> (r: Result<(), Error>)
    ensures
        match r {
            Ok(_) => code_check(secret_view(secret), bytes@, secret_view(supplied)) is None,
            Err(e) => code_check(secret_view(secret), bytes@, secret_view(supplied)) == Some(e.text()),
        },
{
    match (secret, supplied) {
        (None, None) => Ok(()),
        (Some(key), Some(code)) => match hex_decode(code) {
            Ok(raw) => if hmac_sha256_matches(key.as_bytes(), bytes, raw.as_slice()) {
                Ok(())
            } else {
                Err(Error::AuthFailed)
            },
            Err(text) => Err(Error::Told { text }),
        },
        _ => Err(Error::SecretMismatch),
    }
}

/// What both ends sign: the role, both nonces and the cluster's name.
pub open spec fn script(role: Seq<char>, server: Uuid, client: Uuid, cluster: Seq<char>) -> Seq<char> {
    role + "|"@ + hyphenated(server) + "|"@ + hyphenated(client) + "|"@ + cluster
}

/// What both ends sign.
pub fn transcript(role: &str, server: Uuid, client: Uuid, cluster: &str) -> (r: String)
    ensures
        r@ == script(role@, server, client, cluster@),
{
    let a: String = join(role, "|");
    let b: String = join(a.as_str(), uuid_text(server).as_str());
    let c: String = join(b.as_str(), "|");
    let d: String = join(c.as_str(), uuid_text(client).as_str());
    let e: String = join(d.as_str(), "|");
    join(e.as_str(), cluster)
}

fn borrowed(s: &Option<String>) -> (r: Option<&str>)
    ensures
        secret_view(r) == text_view(*s),
{
    match s {
        Some(t) => Some(t.as_str()),
        None => None,
    }
}

/// What a client of a cluster answers to a challenge.
pub open spec fn client_code(config: ConfigView, server: Uuid, client: Uuid) -> Option<Seq<char>> {
    code_of(config.cluster_secret, encode_utf8(script("client"@, server, client, config.cluster_name)))
}

/// What a server of a cluster lets a client in with.
pub open spec fn server_code(config: ConfigView, server: Uuid, client: Uuid) -> Option<Seq<char>> {
    code_of(config.cluster_secret, encode_utf8(script("server"@, server, client, config.cluster_name)))
}

/// Why a server turns a client away.
pub open spec fn client_refusal(config: ConfigView, server: Uuid, name: Seq<char>, client: Uuid, mac: Option<Seq<char>>) -> Option<
    Seq<char>,
> {
    if name != config.cluster_name {
        Some(Error::ClusterMismatch.text())
    } else {
        code_check(config.cluster_secret, encode_utf8(script("client"@, server, client, config.cluster_name)), mac)
    }
}

/// Why a client turns a server away.
pub open spec fn server_refusal(config: ConfigView, server: Uuid, client: Uuid, mac: Option<Seq<char>>) -> Option<
    Seq<char>,
> {
    code_check(config.cluster_secret, encode_utf8(script("server"@, server, client, config.cluster_name)), mac)
}

/// A client's answer to the nonce of a server.
pub fn client_answer(config: &Config, server: Uuid, client: Uuid) -> (r: Authentication)
    ensures
        r.cluster_name@ == config@.cluster_name,
        r.nonce == client,
        text_view(r.mac) == client_code(config@, server, client),
{
    let signed: String = transcript("client", server, client, config.cluster_name.as_str());
    Authentication {
        cluster_name: config.cluster_name.clone(),
        nonce: client,
        mac: signature(borrowed(&config.cluster_secret), signed.as_str().as_bytes()),
    }
}

/// What a server does with a client's answer to its nonce: lets it in, and
/// proves that it is of the cluster too, or turns it away.
pub fn server_auth(config: &Config, server: Uuid, auth: &Authentication) -> (r: Result<Authenticated, Error>)
    ensures
        match r {
            Ok(a) => {
                &&& client_refusal(config@, server, auth.cluster_name@, auth.nonce, text_view(auth.mac)) is None
                &&& text_view(a.mac) == server_code(config@, server, auth.nonce)
            },
            Err(e) => client_refusal(config@, server, auth.cluster_name@, auth.nonce, text_view(auth.mac)) == Some(
                e.text(),
            ),
        },
{
    if !same_text(auth.cluster_name.as_str(), config.cluster_name.as_str()) {
        return Err(Error::ClusterMismatch);
    }
    let asked: String = transcript("client", server, auth.nonce, config.cluster_name.as_str());
    verify(borrowed(&config.cluster_secret), asked.as_str().as_bytes(), borrowed(&auth.mac))?;
    let signed: String = transcript("server", server, auth.nonce, config.cluster_name.as_str());
    Ok(Authenticated { mac: signature(borrowed(&config.cluster_secret), signed.as_str().as_bytes()) })
}

/// What a client does with a server's proof.
pub fn client_check(config: &Config, server: Uuid, client: Uuid, accepted: &Authenticated) -> (r: Result<(), Error>)
    ensures
        match r {
            Ok(_) => server_refusal(config@, server, client, text_view(accepted.mac)) is None,
            Err(e) => server_refusal(config@, server, client, text_view(accepted.mac)) == Some(e.text()),
        },
{
    let signed: String = transcript("server", server, client, config.cluster_name.as_str());
    verify(borrowed(&config.cluster_secret), signed.as_str().as_bytes(), borrowed(&accepted.mac))
}

/// A message with the code that its sender signed it with is let through, under
/// the same secret or under none.
pub proof fn law_signature_verifies(secret: Option<Seq<char>>, message: Seq<u8>)
    ensures
        code_check(secret, message, code_of(secret, message)) is None,
{
    if secret is Some {
        law_hex_round_trip(hmac_sha256_code(encode_utf8(secret->0), message));
    }
}

/// Only the code itself lets a message through: another code does not, nor
/// none at all, nor one where there is no secret.
pub proof fn law_forgery_is_refused(secret: Option<Seq<char>>, message: Seq<u8>, supplied: Option<Seq<char>>)
    requires
        code_check(secret, message, supplied) is None,
    ensures
        secret is None <==> supplied is None,
        secret is Some ==> hex_bytes(supplied->0) == Some(hmac_sha256_code(encode_utf8(secret->0), message)),
{
}

/// Two nodes of one cluster with one secret let each other in.
pub proof fn law_handshake(server: ConfigView, client: ConfigView, a: Uuid, b: Uuid)
    requires
        server.cluster_name == client.cluster_name,
        server.cluster_secret == client.cluster_secret,
    ensures
        client_refusal(server, a, client.cluster_name, b, client_code(client, a, b)) is None,
        server_refusal(client, a, b, server_code(server, a, b)) is None,
{
    law_signature_verifies(
        server.cluster_secret,
        encode_utf8(script("client"@, a, b, server.cluster_name)),
    );
    law_signature_verifies(
        server.cluster_secret,
        encode_utf8(script("server"@, a, b, server.cluster_name)),
    );
}

} // verus!
