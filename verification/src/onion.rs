//! Onion encryption: a request is wrapped in one layer per server, and each
//! server in the chain peels one layer with a key derived from its own public
//! key and the layer's ephemeral public key.
use crate::bytes::{append_bytes, array12_from, bytes_le};
use crate::codec::{encode_layer, layer_bytes};
pub use crate::primitives::generate_server_keypair;
use crate::primitives::{
    DrawFailure, aes_256_gcm_open, aes_256_gcm_opened, aes_256_gcm_seal, aes_256_gcm_sealed, sha256,
    sha256_digest, SEAL_LIMIT, TAG_LEN,
};
use crate::types::{EncryptedMessage, PublicKey};
use crate::x25519::ordered_keys;
use vstd::prelude::*;

verus! {

/// Errors from onion operations.
#[derive(Clone, Copy, Debug, PartialEq, Eq)]
pub enum OnionError {
    EncryptionFailed,
    DecryptionFailed,
    InvalidLayer,
    /// The random source failed while an ephemeral key was generated.
    RandomSourceFailed(DrawFailure),
}

impl OnionError {
    /// The error's message.
    pub fn message(&self) -> (r: String)
        ensures
            r@ == onion_error_text(*self),
    {
        match self {
            OnionError::EncryptionFailed => "encryption failed".to_string(),
            OnionError::DecryptionFailed => "decryption failed".to_string(),
            OnionError::InvalidLayer => "invalid onion layer".to_string(),
            OnionError::RandomSourceFailed(_) => "random source failed".to_string(),
        }
    }
}

/// The message text of each onion error.
pub open spec fn onion_error_text(e: OnionError) -> Seq<char> {
    match e {
        OnionError::EncryptionFailed => "encryption failed"@,
        OnionError::DecryptionFailed => "decryption failed"@,
        OnionError::InvalidLayer => "invalid onion layer"@,
        OnionError::RandomSourceFailed(_) => "random source failed"@,
    }
}

/// A single layer of onion encryption.
#[derive(Clone, Debug)]
pub struct OnionLayer {
    pub ephemeral_pub: PublicKey,
    pub ciphertext: Vec<u8>,
}

/// An onion-encrypted request, wrapped in multiple layers.
#[derive(Clone, Debug)]
pub struct OnionRequest {
    pub layers: Vec<OnionLayer>,
}

/// The ASCII bytes of `onion_shared`.
pub open spec fn onion_shared_label() -> Seq<u8> {
    seq![111u8, 110u8, 105u8, 111u8, 110u8, 95u8, 115u8, 104u8, 97u8, 114u8, 101u8, 100u8]
}

/// The ASCII bytes of `onion_key`.
pub open spec fn onion_key_label() -> Seq<u8> {
    seq![111u8, 110u8, 105u8, 111u8, 110u8, 95u8, 107u8, 101u8, 121u8]
}

/// The secret shared by the holders of two public keys in the mixnet.
pub open spec fn shared_from_pks(pk1: Seq<u8>, pk2: Seq<u8>) -> Seq<u8> {
    sha256_digest(ordered_keys(pk1, pk2) + onion_shared_label())
}

/// The AES key of the layer with ephemeral key `eph` for the server `server`.
pub open spec fn layer_key(eph: Seq<u8>, server: Seq<u8>) -> Seq<u8> {
    sha256_digest(shared_from_pks(eph, server) + onion_key_label())
}

/// The ciphertext of a layer with ephemeral key `eph`, for `server`, around `inner`.
pub open spec fn layer_sealing(eph: Seq<u8>, server: Seq<u8>, inner: Seq<u8>) -> Seq<u8> {
    aes_256_gcm_sealed(layer_key(eph, server), eph.take(12), inner)
}

/// What `peel_layer` gives for a layer (ephemeral key, ciphertext) at `server`.
pub open spec fn peeled(layer: (Seq<u8>, Seq<u8>), server: Seq<u8>) -> Result<Seq<u8>, OnionError> {
    if layer.1.len() < TAG_LEN {
        Err(OnionError::InvalidLayer)
    } else {
        match aes_256_gcm_opened(layer_key(layer.0, server), layer.0.take(12), layer.1) {
            Some(p) => Ok(p),
            None => Err(OnionError::DecryptionFailed),
        }
    }
}

/// What layer `i` of `layers` wraps: the encoding of the next layer, or, in the
/// innermost layer, the dead drop ID followed by the payload.
pub open spec fn layer_inner(
    layers: Seq<(Seq<u8>, Seq<u8>)>,
    i: int,
    dead_drop_id: Seq<u8>,
    payload: Seq<u8>,
) -> Seq<u8> {
    if i + 1 == layers.len() {
        dead_drop_id + payload
    } else {
        layer_bytes(layers[i + 1].0, layers[i + 1].1)
    }
}

/// `layers` is an onion for the servers `pks` (in chain order) that delivers
/// `payload` to the dead drop `dead_drop_id`: layer `i` is sealed for server `i`
/// around what layer `i` wraps.
pub open spec fn wraps(
    layers: Seq<(Seq<u8>, Seq<u8>)>,
    dead_drop_id: Seq<u8>,
    payload: Seq<u8>,
    pks: Seq<Seq<u8>>,
) -> bool {
    &&& layers.len() == pks.len()
    &&& forall|i: int|
        0 <= i < layers.len() ==> {
            &&& (#[trigger] layers[i]).0.len() == 32
            &&& layers[i].1 == layer_sealing(layers[i].0, pks[i], layer_inner(layers, i, dead_drop_id, payload))
            &&& layers[i].1.len() == layer_inner(layers, i, dead_drop_id, payload).len() + TAG_LEN
            &&& layer_inner(layers, i, dead_drop_id, payload).len() <= SEAL_LIMIT
        }
}

/// The public keys' bytes.
pub open spec fn keys_view(pks: Seq<PublicKey>) -> Seq<Seq<u8>> {
    pks.map_values(|pk: PublicKey| pk@)
}

fn onion_shared_label_bytes() -> (r: Vec<u8>)
    ensures
        r@ == onion_shared_label(),
{
    let r: Vec<u8> = vec![111u8, 110u8, 105u8, 111u8, 110u8, 95u8, 115u8, 104u8, 97u8, 114u8, 101u8, 100u8];
    assert(r@ =~= onion_shared_label());
    r
}

fn onion_key_label_bytes() -> (r: Vec<u8>)
    ensures
        r@ == onion_key_label(),
{
    let r: Vec<u8> = vec![111u8, 110u8, 105u8, 111u8, 110u8, 95u8, 107u8, 101u8, 121u8];
    assert(r@ =~= onion_key_label());
    r
}

/// Wrap a request in N layers of onion encryption, each layer under a freshly
/// generated ephemeral key. `server_pks` are the public keys of the servers in
/// the chain, in order. With no server there is no onion (`InvalidLayer`);
/// otherwise wrapping fails where an ephemeral key cannot be generated
/// (`RandomSourceFailed`, carrying the random source's failure) or where a
/// layer would be too long to seal (`EncryptionFailed`).
pub fn wrap_onion(dead_drop_id: [u8; 16], payload: &EncryptedMessage, server_pks: &[PublicKey]) -> (r: Result<
    OnionRequest,
    OnionError,
>)
    ensures
        server_pks@.len() == 0 <==> r == Err::<OnionRequest, OnionError>(OnionError::InvalidLayer),
        r matches Ok(req) ==> wraps(req@, dead_drop_id@, payload@, keys_view(server_pks@)),
        r matches Err(e) ==> server_pks@.len() == 0 || e is RandomSourceFailed || (e
            == OnionError::EncryptionFailed && 16 + payload@.len() + 56 * server_pks@.len() > SEAL_LIMIT),
{
    if server_pks.len() == 0 {
        return Err(OnionError::InvalidLayer);
    }
    let mut ephemeral_pks: Vec<PublicKey> = Vec::new();
    let mut i: usize = 0;
    while i < server_pks.len()
        invariant
            i <= server_pks@.len(),
            ephemeral_pks@.len() == i,
        decreases server_pks@.len() - i,
    {
        match generate_server_keypair() {
            Ok(pk) => ephemeral_pks.push(pk),
            Err(failure) => {
                return Err(OnionError::RandomSourceFailed(failure));
            },
        }
        i = i + 1;
    }
    wrap_onion_with_keys(dead_drop_id, payload, server_pks, ephemeral_pks.as_slice())
}

/// Wrap a request in N layers of onion encryption, layer `i` (for server
/// `i`) under the ephemeral key `ephemeral_pks[i]`. `server_pks` are the public
/// keys of the servers in the chain, in order. With no server there is no
/// onion (`InvalidLayer`); otherwise wrapping fails only where a layer would
/// be too long to seal.
pub fn wrap_onion_with_keys(
    dead_drop_id: [u8; 16],
    payload: &EncryptedMessage,
    server_pks: &[PublicKey],
    ephemeral_pks: &[PublicKey],
) -> (r: Result<OnionRequest, OnionError>)
    requires
        ephemeral_pks@.len() == server_pks@.len(),
    ensures
        server_pks@.len() == 0 <==> r == Err::<OnionRequest, OnionError>(OnionError::InvalidLayer),
        r matches Ok(req) ==> wraps(req@, dead_drop_id@, payload@, keys_view(server_pks@)) && keys_view(
            ephemeral_pks@,
        ) == req@.map_values(|l: (Seq<u8>, Seq<u8>)| l.0),
        r matches Err(e) ==> server_pks@.len() == 0 || (e == OnionError::EncryptionFailed && 16
            + payload@.len() + 56 * server_pks@.len() > SEAL_LIMIT),
{
    if server_pks.len() == 0 {
        return Err(OnionError::InvalidLayer);
    }
    let n = server_pks.len();
    let ghost pks = keys_view(server_pks@);
    let ghost innermost = dead_drop_id@ + payload@;
    // Start with the innermost payload
    let mut inner: Vec<u8> = Vec::new();
    append_bytes(&mut inner, &dead_drop_id);
    append_bytes(&mut inner, payload.data.as_slice());
    // Wrap layers from innermost to outermost
    let mut rev: Vec<OnionLayer> = Vec::new();
    let ghost mut built: Seq<(Seq<u8>, Seq<u8>)> = Seq::empty();
    let mut i: usize = n;
    while i > 0
        invariant
            n == server_pks@.len(),
            n > 0,
            pks == keys_view(server_pks@),
            innermost == dead_drop_id@ + payload@,
            i <= n,
            rev@.len() == n - i,
            built.len() == rev@.len(),
            forall|j: int| 0 <= j < built.len() ==> built[j] == (#[trigger] rev@[j])@,
            forall|j: int| 0 <= j < built.len() ==> (#[trigger] built[j]).0 == ephemeral_pks@[n - 1 - j]@,
            ephemeral_pks@.len() == n,
            inner@.len() == 16 + payload@.len() + 56 * (n - i),
            inner@ == step_inner(built, built.len() as int, innermost),
            steps_ok(built, pks, innermost),
        decreases i,
    {
        let layer = wrap_layer(inner.as_slice(), &server_pks[i - 1], &ephemeral_pks[i - 1]);
        let layer = match layer {
            Ok(l) => l,
            Err(e) => {
                return Err(e);
            },
        };
        proof {
            lemma_steps_push(built, pks, innermost, layer@);
            built = built.push(layer@);
            crate::bytes::lemma_le_bytes_len((layer.ciphertext@.len() as u64) as nat, 8);
        }
        inner = encode_layer(&layer);
        rev.push(layer);
        i = i - 1;
    }
    let mut layers: Vec<OnionLayer> = Vec::new();
    let ghost full = rev@;
    while rev.len() > 0
        invariant
            full.len() == n,
            rev@ == full.take(rev@.len() as int),
            layers@.len() + rev@.len() == n,
            forall|k: int| 0 <= k < layers@.len() ==> #[trigger] layers@[k] == full[n - 1 - k],
        decreases rev@.len(),
    {
        let l = rev.pop().unwrap();
        proof {
            assert(rev@ =~= full.take(rev@.len() as int));
        }
        layers.push(l);
    }
    let r = OnionRequest { layers };
    proof {
        lemma_steps_reversed(built, r@, pks, dead_drop_id@, payload@);
        assert(keys_view(ephemeral_pks@) =~= r@.map_values(|l: (Seq<u8>, Seq<u8>)| l.0)) by {
            assert forall|k: int| 0 <= k < n implies #[trigger] r@[k].0 == ephemeral_pks@[k]@ by {
                assert(r@[k] == layers@[k]@);
                assert(layers@[k] == full[n - 1 - k]);
                assert(built[n - 1 - k] == full[n - 1 - k]@);
            }
        }
    }
    Ok(r)
}

/// What the `j`-th layer built (innermost first) wraps.
spec fn step_inner(built: Seq<(Seq<u8>, Seq<u8>)>, j: int, innermost: Seq<u8>) -> Seq<u8> {
    if j == 0 {
        innermost
    } else {
        layer_bytes(built[j - 1].0, built[j - 1].1)
    }
}

/// The `j`-th layer built (innermost first) is sealed for `pk` around what it wraps.
spec fn step_ok(built: Seq<(Seq<u8>, Seq<u8>)>, j: int, pk: Seq<u8>, innermost: Seq<u8>) -> bool {
    &&& built[j].0.len() == 32
    &&& built[j].1 == layer_sealing(built[j].0, pk, step_inner(built, j, innermost))
    &&& built[j].1.len() == step_inner(built, j, innermost).len() + TAG_LEN
    &&& step_inner(built, j, innermost).len() <= SEAL_LIMIT
}

/// Every layer built so far (innermost first, so for the servers from the
/// last one backwards) is sealed as it should be.
spec fn steps_ok(built: Seq<(Seq<u8>, Seq<u8>)>, pks: Seq<Seq<u8>>, innermost: Seq<u8>) -> bool {
    forall|j: int|
        0 <= j < built.len() ==> #[trigger] step_ok(built, j, pks[pks.len() - 1 - j], innermost)
}

proof fn lemma_steps_push(
    built: Seq<(Seq<u8>, Seq<u8>)>,
    pks: Seq<Seq<u8>>,
    innermost: Seq<u8>,
    layer: (Seq<u8>, Seq<u8>),
)
    requires
        steps_ok(built, pks, innermost),
        layer.0.len() == 32,
        layer.1 == layer_sealing(layer.0, pks[pks.len() - 1 - built.len()], step_inner(built, built.len() as int, innermost)),
        layer.1.len() == step_inner(built, built.len() as int, innermost).len() + TAG_LEN,
        step_inner(built, built.len() as int, innermost).len() <= SEAL_LIMIT,
    ensures
        steps_ok(built.push(layer), pks, innermost),
{
    let nb = built.push(layer);
    assert forall|j: int| 0 <= j < nb.len() implies #[trigger] step_ok(nb, j, pks[pks.len() - 1 - j], innermost) by {
        if j < built.len() {
            assert(step_ok(built, j, pks[pks.len() - 1 - j], innermost));
            assert(nb[j] == built[j]);
            if j > 0 {
                assert(nb[j - 1] == built[j - 1]);
            }
        } else {
            if j > 0 {
                assert(nb[j - 1] == built[j - 1]);
            }
        }
    }
}

proof fn lemma_steps_reversed(
    built: Seq<(Seq<u8>, Seq<u8>)>,
    layers: Seq<(Seq<u8>, Seq<u8>)>,
    pks: Seq<Seq<u8>>,
    dead_drop_id: Seq<u8>,
    payload: Seq<u8>,
)
    requires
        built.len() == pks.len(),
        layers.len() == pks.len(),
        steps_ok(built, pks, dead_drop_id + payload),
        forall|k: int| 0 <= k < layers.len() ==> #[trigger] layers[k] == built[pks.len() - 1 - k],
    ensures
        wraps(layers, dead_drop_id, payload, pks),
{
    let n = pks.len() as int;
    assert forall|k: int| 0 <= k < layers.len() implies {
        &&& (#[trigger] layers[k]).0.len() == 32
        &&& layers[k].1 == layer_sealing(layers[k].0, pks[k], layer_inner(layers, k, dead_drop_id, payload))
        &&& layers[k].1.len() == layer_inner(layers, k, dead_drop_id, payload).len() + TAG_LEN
        &&& layer_inner(layers, k, dead_drop_id, payload).len() <= SEAL_LIMIT
    } by {
        let j = n - 1 - k;
        assert(step_ok(built, j, pks[n - 1 - j], dead_drop_id + payload));
        if k + 1 < n {
            assert(layers[k + 1] == built[j - 1]);
        }
    }
}

/// Wrap a single layer using the ephemeral key `ephemeral_pub` + AES-GCM.
/// The shared secret is derived from both public keys so the server can
/// reconstruct it from the ephemeral public key in the layer.
fn wrap_layer(inner: &[u8], server_pk: &PublicKey, ephemeral_pub: &PublicKey) -> (r: Result<OnionLayer, OnionError>)
    ensures
        match r {
            Ok(l) => l.ephemeral_pub == *ephemeral_pub && l.ciphertext@ == layer_sealing(
                l.ephemeral_pub@,
                server_pk@,
                inner@,
            ) && l.ciphertext@.len() == inner@.len() + TAG_LEN && inner@.len() <= SEAL_LIMIT,
            Err(e) => e == OnionError::EncryptionFailed && inner@.len() > SEAL_LIMIT,
        },
{
    // Derive shared secret from both public keys (so server can reconstruct)
    let shared = derive_shared_from_pks(&ephemeral_pub.0, server_pk.as_bytes());
    let key = shared_secret_to_key(&shared);
    let ciphertext = aes_gcm_encrypt(&key, &ephemeral_pub.0, inner)?;
    Ok(OnionLayer { ephemeral_pub: *ephemeral_pub, ciphertext })
}

/// Derive a shared secret from two public keys.
/// Both parties (client with ephemeral key, server with static key) can
/// compute the same secret since it only depends on public keys.
fn derive_shared_from_pks(pk1: &[u8; 32], pk2: &[u8; 32]) -> (r: [u8; 32])
    ensures
        r@ == shared_from_pks(pk1@, pk2@),
{
    let mut input: Vec<u8> = Vec::new();
    // Sort for consistency
    if bytes_le(pk1, pk2) {
        append_bytes(&mut input, pk1);
        append_bytes(&mut input, pk2);
    } else {
        append_bytes(&mut input, pk2);
        append_bytes(&mut input, pk1);
    }
    let label = onion_shared_label_bytes();
    append_bytes(&mut input, label.as_slice());
    sha256(input.as_slice())
}

/// Peel one layer at the server with public key `server_pk`.
/// The server derives the same shared secret from the ephemeral public key
/// (in the layer) and its own public key, and opens the layer with it.
pub fn peel_layer(layer: &OnionLayer, server_pk: &PublicKey) -> (r: Result<Vec<u8>, OnionError>)
    ensures
        match r {
            Ok(p) => peeled(layer@, server_pk@) == Ok::<Seq<u8>, OnionError>(p@),
            Err(e) => peeled(layer@, server_pk@) == Err::<Seq<u8>, OnionError>(e),
        },
        forall|p: Seq<u8>|
            p.len() <= SEAL_LIMIT && layer.ciphertext@ == #[trigger] layer_sealing(layer.ephemeral_pub@, server_pk@, p)
                && layer.ciphertext@.len() >= TAG_LEN ==> (r matches Ok(q) && q@ == p),
{
    let shared = derive_shared_from_pks(&layer.ephemeral_pub.0, server_pk.as_bytes());
    let key = shared_secret_to_key(&shared);
    aes_gcm_decrypt(&key, &layer.ephemeral_pub.0, layer.ciphertext.as_slice())
}

fn shared_secret_to_key(shared: &[u8; 32]) -> (r: [u8; 32])
    ensures
        r@ == sha256_digest(shared@ + onion_key_label()),
{
    let mut input: Vec<u8> = Vec::new();
    append_bytes(&mut input, shared);
    let label = onion_key_label_bytes();
    append_bytes(&mut input, label.as_slice());
    sha256(input.as_slice())
}

fn aes_gcm_encrypt(key: &[u8; 32], nonce_seed: &[u8; 32], plaintext: &[u8]) -> (r: Result<
    Vec<u8>,
    OnionError,
>)
    ensures
        match r {
            Ok(c) => c@ == aes_256_gcm_sealed(key@, nonce_seed@.take(12), plaintext@) && c@.len()
                == plaintext@.len() + TAG_LEN && plaintext@.len() <= SEAL_LIMIT,
            Err(e) => e == OnionError::EncryptionFailed && plaintext@.len() > SEAL_LIMIT,
        },
{
    let nonce = array12_from(nonce_seed, 0);
    assert(nonce@ =~= nonce_seed@.take(12));
    match aes_256_gcm_seal(key, &nonce, plaintext) {
        Ok(c) => Ok(c),
        Err(_) => Err(OnionError::EncryptionFailed),
    }
}

fn aes_gcm_decrypt(key: &[u8; 32], nonce_seed: &[u8; 32], ciphertext: &[u8]) -> (r: Result<
    Vec<u8>,
    OnionError,
>)
    ensures
        ciphertext@.len() < TAG_LEN ==> r == Err::<Vec<u8>, OnionError>(OnionError::InvalidLayer),
        ciphertext@.len() >= TAG_LEN ==> match r {
            Ok(p) => aes_256_gcm_opened(key@, nonce_seed@.take(12), ciphertext@) == Some(p@),
            Err(e) => e == OnionError::DecryptionFailed && aes_256_gcm_opened(
                key@,
                nonce_seed@.take(12),
                ciphertext@,
            ) is None,
        },
        forall|p: Seq<u8>|
            p.len() <= SEAL_LIMIT && ciphertext@ == #[trigger] aes_256_gcm_sealed(key@, nonce_seed@.take(12), p)
                && ciphertext@.len() >= TAG_LEN ==> (r matches Ok(q) && q@ == p),
{
    if ciphertext.len() < TAG_LEN {
        return Err(OnionError::InvalidLayer);
    }
    let nonce = array12_from(nonce_seed, 0);
    assert(nonce@ =~= nonce_seed@.take(12));
    match aes_256_gcm_open(key, &nonce, ciphertext) {
        Ok(p) => Ok(p),
        Err(_) => Err(OnionError::DecryptionFailed),
    }
}

} // verus!
