//! Wire encoding of onion layers, onion requests and invitations, made by
//! bincode on the fields of each value. The layout is bincode's default one:
//! fixed arrays byte by byte, a byte vector as its little-endian `u64` length
//! followed by its bytes, a tuple as its members in order. Decoding ignores
//! bytes after the value.
use crate::bytes::{le_value, lemma_le_bytes_len, lemma_le_roundtrip, pow256, u64_le};
use crate::onion::{OnionLayer, OnionRequest};
use crate::types::{Invitation, PublicKey};
use vstd::prelude::*;

verus! {

/// The encoding of a layer with ephemeral key `eph` and ciphertext `ct`.
pub open spec fn layer_bytes(eph: Seq<u8>, ct: Seq<u8>) -> Seq<u8> {
    eph + u64_le(ct.len() as u64) + ct
}

/// The layer (ephemeral key, ciphertext) that `d` starts with, if any.
pub open spec fn decoded_layer(d: Seq<u8>) -> Option<(Seq<u8>, Seq<u8>)> {
    if d.len() < 40 {
        None
    } else {
        let n = le_value(d.subrange(32, 40));
        if n > d.len() - 40 {
            None
        } else {
            Some((d.take(32), d.subrange(40, 40 + n as int)))
        }
    }
}

/// The encoding of a sequence of layers, one after another.
pub open spec fn layers_bytes(layers: Seq<(Seq<u8>, Seq<u8>)>) -> Seq<u8>
    decreases layers.len(),
{
    if layers.len() == 0 {
        Seq::empty()
    } else {
        layers_bytes(layers.drop_last()) + layer_bytes(layers.last().0, layers.last().1)
    }
}

/// The encoding of an onion request: the number of layers, then the layers.
pub open spec fn request_bytes(layers: Seq<(Seq<u8>, Seq<u8>)>) -> Seq<u8> {
    u64_le(layers.len() as u64) + layers_bytes(layers)
}

/// The encoding of an invitation: sender key, nonce, MAC.
pub open spec fn invitation_bytes(sender: Seq<u8>, nonce: Seq<u8>, mac: Seq<u8>) -> Seq<u8> {
    sender + nonce + mac
}

/// The invitation (sender key, nonce, MAC) that `d` starts with, if any.
pub open spec fn decoded_invitation(d: Seq<u8>) -> Option<(Seq<u8>, Seq<u8>, Seq<u8>)> {
    if d.len() < 80 {
        None
    } else {
        Some((d.take(32), d.subrange(32, 48), d.subrange(48, 80)))
    }
}

impl View for OnionLayer {
    type V = (Seq<u8>, Seq<u8>);

    open spec fn view(&self) -> (Seq<u8>, Seq<u8>) {
        (self.ephemeral_pub@, self.ciphertext@)
    }
}

impl View for OnionRequest {
    type V = Seq<(Seq<u8>, Seq<u8>)>;

    open spec fn view(&self) -> Seq<(Seq<u8>, Seq<u8>)> {
        self.layers@.map_values(|l: OnionLayer| l@)
    }
}

/// `bincode::serialize` on a layer's fields, the key and the ciphertext.
/// Claimed: it succeeds (a byte array and a byte vector have known lengths,
/// there is no size limit, and writing to a vector cannot fail), giving the
/// key's bytes, the ciphertext's length as a little-endian `u64`, then the
/// ciphertext.
#[verifier::external_body]
fn bincode_layer_bytes(eph: &[u8; 32], ct: &Vec<u8>) -> (r: Option<Vec<u8>>)
    ensures
        r is Some,
        r matches Some(v) ==> v@ == layer_bytes(eph@, ct@),
{
    bincode::serialize(&(eph, ct)).ok()
}

/// `bincode::deserialize` of a key and a ciphertext from the start of `data`.
/// Claimed: it succeeds exactly when `data` holds 32 bytes, a little-endian
/// `u64` length and at least that many more bytes, and then gives the first
/// 32 bytes and the bytes that the length counts; later bytes are ignored.
#[verifier::external_body]
fn bincode_layer_from(data: &[u8]) -> (r: Option<([u8; 32], Vec<u8>)>)
    ensures
        match r {
            Some(v) => decoded_layer(data@) == Some((v.0@, v.1@)),
            None => decoded_layer(data@) is None,
        },
{
    bincode::deserialize::<([u8; 32], Vec<u8>)>(data).ok()
}

/// `bincode::serialize` on a request's layers, each as its key and its
/// ciphertext. Claimed: it succeeds (known lengths, no size limit, a vector
/// as the writer), giving the number of layers as a little-endian `u64`,
/// then each layer as `bincode_layer_bytes` gives it.
#[verifier::external_body]
fn bincode_request_bytes(layers: &[OnionLayer]) -> (r: Option<Vec<u8>>)
    ensures
        r is Some,
        r matches Some(v) ==> v@ == request_bytes(layers@.map_values(|l: OnionLayer| l@)),
{
    let fields: Vec<(&[u8; 32], &Vec<u8>)> = layers.iter().map(|l| (&l.ephemeral_pub.0, &l.ciphertext)).collect();
    bincode::serialize(&fields).ok()
}

/// `bincode::serialize` on an invitation's fields. Claimed: it succeeds
/// (fixed arrays only, no size limit, a vector as the writer), giving the
/// sender key, the nonce and the MAC, byte by byte.
#[verifier::external_body]
fn bincode_invitation_bytes(sender: &[u8; 32], nonce: &[u8; 16], mac: &[u8; 32]) -> (r: Option<Vec<u8>>)
    ensures
        r is Some,
        r matches Some(v) ==> v@ == invitation_bytes(sender@, nonce@, mac@),
{
    bincode::serialize(&(sender, nonce, mac)).ok()
}

/// `bincode::deserialize` of a sender key, a nonce and a MAC from the start
/// of `data`. Claimed: it succeeds exactly when `data` holds at least 80
/// bytes, and then gives bytes 0..32, 32..48 and 48..80; later bytes are
/// ignored.
#[verifier::external_body]
fn bincode_invitation_from(data: &[u8]) -> (r: Option<([u8; 32], [u8; 16], [u8; 32])>)
    ensures
        match r {
            Some(v) => decoded_invitation(data@) == Some((v.0@, v.1@, v.2@)),
            None => decoded_invitation(data@) is None,
        },
{
    bincode::deserialize::<([u8; 32], [u8; 16], [u8; 32])>(data).ok()
}

/// Encode an onion layer.
pub fn encode_layer(layer: &OnionLayer) -> (r: Vec<u8>)
    ensures
        r@ == layer_bytes(layer.ephemeral_pub@, layer.ciphertext@),
{
    match bincode_layer_bytes(&layer.ephemeral_pub.0, &layer.ciphertext) {
        Some(v) => v,
        None => Vec::new(),
    }
}

/// Decode the onion layer that `data` starts with.
pub fn decode_layer(data: &[u8]) -> (r: Option<OnionLayer>)
    ensures
        match r {
            Some(l) => decoded_layer(data@) == Some(l@),
            None => decoded_layer(data@) is None,
        },
{
    match bincode_layer_from(data) {
        Some((eph, ciphertext)) => Some(OnionLayer { ephemeral_pub: PublicKey(eph), ciphertext }),
        None => None,
    }
}

/// Encode an onion request.
pub fn encode_request(request: &OnionRequest) -> (r: Vec<u8>)
    ensures
        r@ == request_bytes(request@),
{
    match bincode_request_bytes(request.layers.as_slice()) {
        Some(v) => v,
        None => Vec::new(),
    }
}

/// Encode an invitation.
pub fn encode_invitation(inv: &Invitation) -> (r: Vec<u8>)
    ensures
        r@ == invitation_bytes(inv.sender_pub@, inv.nonce@, inv.mac@),
        r@.len() == 80,
{
    match bincode_invitation_bytes(&inv.sender_pub.0, &inv.nonce, &inv.mac) {
        Some(v) => v,
        None => Vec::new(),
    }
}

/// Decode the invitation that `data` starts with.
pub fn decode_invitation(data: &[u8]) -> (r: Option<Invitation>)
    ensures
        match r {
            Some(inv) => decoded_invitation(data@) == Some((inv.sender_pub@, inv.nonce@, inv.mac@)),
            None => decoded_invitation(data@) is None,
        },
{
    match bincode_invitation_from(data) {
        Some((sender, nonce, mac)) => Some(Invitation { sender_pub: PublicKey(sender), nonce, mac }),
        None => None,
    }
}

/// Decoding an encoded layer, with anything after it, gives the layer back.
pub proof fn lemma_layer_roundtrip(eph: Seq<u8>, ct: Seq<u8>, rest: Seq<u8>)
    requires
        eph.len() == 32,
        ct.len() <= u64::MAX,
    ensures
        decoded_layer(layer_bytes(eph, ct) + rest) == Some((eph, ct)),
{
    let d = layer_bytes(eph, ct) + rest;
    lemma_le_bytes_len(ct.len(), 8);
    assert(pow256(8) == 18446744073709551616nat) by {
        reveal_with_fuel(pow256, 9);
    }
    lemma_le_roundtrip(ct.len(), 8);
    assert(d.subrange(32, 40) =~= u64_le(ct.len() as u64));
    assert(d.take(32) =~= eph);
    assert(d.subrange(40, 40 + ct.len() as int) =~= ct);
}

/// Decoding an encoded invitation, with anything after it, gives it back.
pub proof fn lemma_invitation_roundtrip(sender: Seq<u8>, nonce: Seq<u8>, mac: Seq<u8>, rest: Seq<u8>)
    requires
        sender.len() == 32,
        nonce.len() == 16,
        mac.len() == 32,
    ensures
        decoded_invitation(invitation_bytes(sender, nonce, mac) + rest) == Some((sender, nonce, mac)),
{
    let d = invitation_bytes(sender, nonce, mac) + rest;
    assert(d.take(32) =~= sender);
    assert(d.subrange(32, 48) =~= nonce);
    assert(d.subrange(48, 80) =~= mac);
}

} // verus!
