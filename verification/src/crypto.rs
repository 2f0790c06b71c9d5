use vstd::prelude::*;
use chacha20poly1305::aead::{Aead, KeyInit};
use chacha20poly1305::{ChaCha20Poly1305, Key, Nonce};
use rand::rngs::OsRng;
use x25519_dalek::{PublicKey, StaticSecret};

verus! {

/// What `x25519_dalek::PublicKey::from(&StaticSecret::from(secret))` gives,
/// as bytes.
pub uninterp spec fn x25519_public(secret: Seq<u8>) -> Seq<u8>;

/// What `StaticSecret::from(secret).diffie_hellman(&PublicKey::from(public))`
/// (x25519-dalek) gives, as bytes.
pub uninterp spec fn x25519_shared(secret: Seq<u8>, public: Seq<u8>) -> Seq<u8>;

/// What ChaCha20-Poly1305 `encrypt` gives for a key, a nonce and a
/// plaintext: ciphertext followed by the tag.
pub uninterp spec fn chacha20poly1305_seal(key: Seq<u8>, nonce: Seq<u8>, plaintext: Seq<u8>) -> Seq<u8>;

/// What ChaCha20-Poly1305 `decrypt` gives for a key, a nonce and a
/// ciphertext: the plaintext, or `None` when authentication fails.
pub uninterp spec fn chacha20poly1305_open(key: Seq<u8>, nonce: Seq<u8>, ciphertext: Seq<u8>) -> Option<Seq<u8>>;

/// Calls `StaticSecret::random_from_rng(OsRng)` (x25519-dalek) and returns
/// the secret's bytes. The value is random: nothing is stated of it.
#[verifier::external_body]
pub(crate) fn random_secret() -> (secret: [u8; 32]) {
    StaticSecret::random_from_rng(OsRng).to_bytes()
}

/// Calls `PublicKey::from(&StaticSecret::from(secret))` (x25519-dalek).
/// States that the result is the named public key of `secret`, and the
/// Diffie-Hellman agreement that x25519 is for: any other secret combined
/// with this public key gives what `secret` gives with the other's public
/// key.
#[verifier::external_body]
fn public_key_of(secret: &[u8; 32]) -> (public: [u8; 32])
    ensures
        public@ == x25519_public(secret@),
        forall|other: Seq<u8>|
            other.len() == 32 ==> #[trigger] x25519_shared(other, public@) == x25519_shared(
                secret@,
                x25519_public(other),
            ),
{
    PublicKey::from(&StaticSecret::from(*secret)).to_bytes()
}

/// Calls `StaticSecret::diffie_hellman` (x25519-dalek) on `secret` and the
/// public key whose 32 bytes are `public`; states that the result is the
/// named shared secret.
#[verifier::external_body]
fn diffie_hellman(secret: &[u8; 32], public: &[u8]) -> (shared: [u8; 32])
    requires
        public@.len() == 32,
    ensures
        shared@ == x25519_shared(secret@, public@),
{
    let public: [u8; 32] = public.try_into().unwrap();
    StaticSecret::from(*secret).diffie_hellman(&PublicKey::from(public)).to_bytes()
}

/// Calls ChaCha20-Poly1305 `encrypt` (chacha20poly1305) with `key`, `nonce`
/// and no associated data. States, as its source shows, that it fails
/// exactly when the plaintext has `u32::MAX` or more 64-byte blocks; that
/// the ciphertext is the named one, 16 bytes longer than the plaintext; and
/// that `decrypt` with the same key and nonce gives the plaintext back. The
/// error text is the library error's debug form; nothing is stated of it.
#[verifier::external_body]
fn seal(key: &[u8; 32], nonce: &[u8; 12], plaintext: &[u8]) -> (r: Result<Vec<u8>, String>)
    requires
        plaintext@.len() + 16 <= isize::MAX,
    ensures
        r is Ok <==> plaintext@.len() / 64 < u32::MAX,
        r matches Ok(c) ==> c@ == chacha20poly1305_seal(key@, nonce@, plaintext@) && c@.len()
            == plaintext@.len() + 16 && chacha20poly1305_open(key@, nonce@, c@) == Some(plaintext@),
{
    ChaCha20Poly1305::new(Key::from_slice(key)).encrypt(Nonce::from_slice(nonce), plaintext).map_err(
        |e| format!("{:?}", e),
    )
}

/// Calls ChaCha20-Poly1305 `decrypt` (chacha20poly1305) with `key`, `nonce`
/// and no associated data; states that the result is the named one and, as
/// the source shows (the 16-byte tag is split off the end first), that a
/// ciphertext shorter than the tag is refused and that a plaintext is 16
/// bytes shorter than its ciphertext.
#[verifier::external_body]
fn open(key: &[u8; 32], nonce: &[u8; 12], ciphertext: &[u8]) -> (r: Option<Vec<u8>>)
    ensures
        ciphertext@.len() < 16 ==> r is None,
        r matches Some(p) ==> p@.len() + 16 == ciphertext@.len(),
        match r {
            Some(p) => chacha20poly1305_open(key@, nonce@, ciphertext@) == Some(p@),
            None => chacha20poly1305_open(key@, nonce@, ciphertext@) is None,
        },
{
    ChaCha20Poly1305::new(Key::from_slice(key)).decrypt(Nonce::from_slice(nonce), ciphertext).ok()
}

/// The nonce of every sealed message: twelve zero bytes. The one-time
/// ephemeral key makes each key/nonce pair unique.
pub open spec fn spec_zero_nonce() -> Seq<u8> {
    Seq::new(12, |i: int| 0u8)
}

/// A message sealed for the holder of `recipient` with the one-time secret
/// `ephemeral`: the ephemeral public key (32 bytes), then the ChaCha20-Poly1305
/// ciphertext under the shared secret.
pub open spec fn spec_sealed_message(ephemeral: Seq<u8>, recipient: Seq<u8>, data: Seq<u8>) -> Seq<
    u8,
> {
    x25519_public(ephemeral) + chacha20poly1305_seal(
        x25519_shared(ephemeral, recipient),
        spec_zero_nonce(),
        data,
    )
}

/// What the holder of `secret` reads from `message`: nothing when it is
/// shorter than a public key, else the ChaCha20-Poly1305 plaintext under
/// the secret shared with the sender's ephemeral key.
pub open spec fn spec_opened_message(secret: Seq<u8>, message: Seq<u8>) -> Option<Seq<u8>> {
    if message.len() < 32 {
        None
    } else {
        chacha20poly1305_open(
            x25519_shared(secret, message.take(32)),
            spec_zero_nonce(),
            message.skip(32),
        )
    }
}

/// Text of the error for a message too short to hold a public key.
pub open spec fn spec_too_short_error() -> Seq<char> {
    "Слишком короткое сообщение (нет публичного ключа)"@
}

/// Text of the error for a message that does not authenticate.
pub open spec fn spec_decrypt_error() -> Seq<char> {
    "Ошибка расшифровки (неверный ключ или поврежденные данные)"@
}

/// Beginning of the error text when sealing fails.
pub open spec fn spec_encrypt_error_prefix() -> Seq<char> {
    "Ошибка шифрования: "@
}

/// Seals `data` for the holder of `recipient_pub` with the given one-time
/// secret: ECIES over x25519 and ChaCha20-Poly1305.
pub fn encrypt_with_ephemeral(ephemeral: &[u8; 32], recipient_pub: &[u8; 32], data: &[u8]) -> (r:
    Result<Vec<u8>, String>)
    requires
        data@.len() + 16 <= isize::MAX,
    ensures
        r is Ok <==> data@.len() / 64 < u32::MAX,
        r matches Ok(c) ==> c@ == spec_sealed_message(ephemeral@, recipient_pub@, data@),
        r matches Ok(c) ==> c@.len() == 32 + data@.len() + 16,
        r matches Ok(c) ==> forall|secret: Seq<u8>|
            secret.len() == 32 && #[trigger] x25519_public(secret) == recipient_pub@
                ==> spec_opened_message(secret, c@) == Some(data@),
        r matches Err(msg) ==> msg@.take(spec_encrypt_error_prefix().len() as int)
            == spec_encrypt_error_prefix(),
{
    let ephemeral_pub = public_key_of(ephemeral);
    let shared_secret = diffie_hellman(ephemeral, recipient_pub.as_slice());
    let nonce = [0u8; 12];
    assert(nonce@ =~= spec_zero_nonce());
    match seal(&shared_secret, &nonce, data) {
        Ok(ciphertext) => {
            let mut result = vstd::slice::slice_to_vec(ephemeral_pub.as_slice());
            let mut ct = ciphertext;
            let ghost ct_view = ct@;
            result.append(&mut ct);
            proof {
                assert(result@ =~= ephemeral_pub@ + ct_view);
                assert(result@.take(32) =~= ephemeral_pub@);
                assert(result@.skip(32) =~= ct_view);
                assert forall|secret: Seq<u8>|
                    secret.len() == 32 && #[trigger] x25519_public(secret) == recipient_pub@
                        implies spec_opened_message(secret, result@) == Some(data@) by {
                    assert(x25519_shared(secret, ephemeral_pub@) == x25519_shared(
                        ephemeral@,
                        x25519_public(secret),
                    ));
                }
            }
            Ok(result)
        },
        Err(e) => {
            let mut msg = "Ошибка шифрования: ".to_string();
            let ghost prefix = msg@;
            msg.append(e.as_str());
            proof {
                assert(msg@.take(prefix.len() as int) =~= prefix);
            }
            Err(msg)
        },
    }
}

/// Key material of a node: a static x25519 secret and its public key, used
/// for ECIES-style sealing of onion layers.
pub struct CryptoModule {
    secret: [u8; 32],
    pub public_key: [u8; 32],
}

impl CryptoModule {
    /// The bytes of the node's secret key.
    pub closed spec fn secret_key(&self) -> Seq<u8> {
        self.secret@
    }

    /// The bytes of the node's public key.
    pub closed spec fn spec_public_key(&self) -> Seq<u8> {
        self.public_key@
    }

    /// The public key belongs to the secret key.
    pub open spec fn wf(&self) -> bool {
        &&& self.secret_key().len() == 32
        &&& self.spec_public_key() == x25519_public(self.secret_key())
    }

    /// The node's public key.
    pub fn public_key_bytes(&self) -> (r: [u8; 32])
        ensures
            r@ == self.spec_public_key(),
    {
        self.public_key
    }

    /// The keys of the given secret: the secret and its public key.
    pub fn from_secret(secret: [u8; 32]) -> (m: Self)
        ensures
            m.secret_key() == secret@,
            m.wf(),
    {
        let public_key = public_key_of(&secret);
        CryptoModule { secret, public_key }
    }

    /// Replaces the keys by those of the given secret and returns the new
    /// public key.
    pub fn set_secret(&mut self, secret: [u8; 32]) -> (public: [u8; 32])
        ensures
            final(self).secret_key() == secret@,
            final(self).wf(),
            public@ == final(self).spec_public_key(),
    {
        self.public_key = public_key_of(&secret);
        self.secret = secret;
        self.public_key
    }

    /// Fresh random keys.
    pub fn new() -> (m: Self)
        ensures
            m.wf(),
    {
        Self::from_secret(random_secret())
    }

    /// Replaces the keys by fresh random ones and returns the new public key.
    pub fn rotate_keys(&mut self) -> (public: [u8; 32])
        ensures
            final(self).wf(),
            public@ == final(self).spec_public_key(),
    {
        self.set_secret(random_secret())
    }

    /// Seals `data` for the holder of `recipient_pub` with a fresh one-time
    /// key; the result starts with the one-time public key.
    pub fn encrypt(&self, recipient_pub: &[u8; 32], data: &[u8]) -> (r: Result<Vec<u8>, String>)
        requires
            data@.len() + 16 <= isize::MAX,
        ensures
            r is Ok <==> data@.len() / 64 < u32::MAX,
            r matches Ok(c) ==> exists|ephemeral: Seq<u8>|
                ephemeral.len() == 32 && c@ == #[trigger] spec_sealed_message(
                    ephemeral,
                    recipient_pub@,
                    data@,
                ),
            r matches Ok(c) ==> c@.len() == 32 + data@.len() + 16,
            r matches Ok(c) ==> forall|secret: Seq<u8>|
                secret.len() == 32 && #[trigger] x25519_public(secret) == recipient_pub@
                    ==> spec_opened_message(secret, c@) == Some(data@),
            r matches Err(msg) ==> msg@.take(spec_encrypt_error_prefix().len() as int)
                == spec_encrypt_error_prefix(),
    {
        let ephemeral = random_secret();
        encrypt_with_ephemeral(&ephemeral, recipient_pub, data)
    }

    /// Opens a message sealed for this node.
    pub fn decrypt(&self, data: &[u8]) -> (r: Result<Vec<u8>, String>)
        ensures
            data@.len() < 32 ==> (r matches Err(msg) && msg@ == spec_too_short_error()),
            32 <= data@.len() < 48 ==> (r matches Err(msg) && msg@ == spec_decrypt_error()),
            r matches Ok(p) ==> p@.len() + 48 == data@.len(),
            data@.len() >= 32 ==> match spec_opened_message(self.secret_key(), data@) {
                Some(p) => (r matches Ok(v) && v@ == p),
                None => (r matches Err(msg) && msg@ == spec_decrypt_error()),
            },
    {
        if data.len() < 32 {
            return Err("Слишком короткое сообщение (нет публичного ключа)".to_string());
        }
        let shared_secret = diffie_hellman(&self.secret, &data[0..32]);
        let nonce = [0u8; 12];
        assert(nonce@ =~= spec_zero_nonce());
        assert(data@.subrange(0, 32) =~= data@.take(32));
        assert(data@.subrange(32, data@.len() as int) =~= data@.skip(32));
        match open(&shared_secret, &nonce, &data[32..data.len()]) {
            Some(plaintext) => Ok(plaintext),
            None => Err("Ошибка расшифровки (неверный ключ или поврежденные данные)".to_string()),
        }
    }
}

impl Default for CryptoModule {
    fn default() -> (m: Self)
        ensures
            m.wf(),
    {
        Self::new()
    }
}

} // verus!
