//! The encrypted session of the Whatsminer API: token derivation from a
//! salted MD5 crypt, local expiry, and the NUL-padded AES-256-ECB envelope.
use vstd::prelude::*;
use vstd::string::StringSliceAdditionalSpecFns;
use vstd::string::StrSliceExecFns;
use vstd::string::StringExecFns;
use sha2::Digest;
use crate::crypt::{do_md5_crypt, hash64_valid, md5_crypt_text};
use vstd::utf8::encode_utf8;
use crate::error::Error;
use crate::status::StatusCode;

verus! {

/// How long a session token is trusted after it was made, in seconds.
pub const TOKEN_LIFETIME_SECS: i64 = 1800;

/// The AES block size in bytes.
pub const BLOCK: usize = 16;

/// The longest payload handed to OpenSSL: one block less than the largest
/// C `int`, which bounds its lengths.
pub const MAX_CIPHER_BYTES: usize = 0x7fff_ffef;

/// The challenge of a `get_token` answer.
#[derive(Debug, Clone, PartialEq, Eq)]
pub struct TokenData {
    pub salt: String,
    pub time: String,
    pub newsalt: String,
}

/// A `get_token` answer.
#[derive(Debug, Clone, PartialEq, Eq)]
pub struct TokenResponse {
    pub status: StatusCode,
    pub when: usize,
    pub code: usize,
    pub msg: Option<TokenData>,
    pub description: String,
}

/// A session: the token sent with each request, the AES key, and the Unix
/// second after which the session is no longer trusted.
#[derive(Debug, Clone, PartialEq, Eq)]
pub struct WhatsminerToken {
    pub token: String,
    pub expires: i64,
    pub cipher: Vec<u8>,
}

/// The SHA-256 digest of a byte string.
pub uninterp spec fn sha256_of(data: Seq<u8>) -> Seq<u8>;

/// Relies on sha2::Sha256 through `Digest::digest`: the SHA-256 digest of
/// the bytes, 32 bytes long.
#[verifier::external_body]
fn sha256_digest(data: &[u8]) -> (r: Vec<u8>)
    ensures
        r@ == sha256_of(data@),
        r@.len() == 32,
{
    sha2::Sha256::digest(data).to_vec()
}

/// AES-256 in ECB mode, without padding, as a function of key and data.
pub uninterp spec fn aes256_ecb_encrypt_of(key: Seq<u8>, data: Seq<u8>) -> Seq<u8>;

/// The inverse direction of the same cipher.
pub uninterp spec fn aes256_ecb_decrypt_of(key: Seq<u8>, data: Seq<u8>) -> Seq<u8>;

/// Relies on openssl's `Crypter` with `Cipher::aes_256_ecb()` and padding
/// switched off: the ciphertext of the data, as long as the data. `new`
/// takes a 32-byte key for this cipher, which needs no IV, and without
/// padding `update` and `finalize` succeed on whole 16-byte blocks. AES is
/// a block cipher: decrypting a block under the same key gives it back.
/// The output buffer is one block longer than the data, as `update` asks.
/// Key and data lengths are passed to OpenSSL as a C `int`, whose
/// conversion panics beyond `i32::MAX`; the bounds keep both within it.
#[verifier::external_body]
fn aes_encrypt(key: &[u8], data: &[u8]) -> (r: Option<Vec<u8>>)
    requires
        data@.len() + 16 <= i32::MAX,
        key@.len() <= i32::MAX,
    ensures
        r matches Some(v) ==> v@ == aes256_ecb_encrypt_of(key@, data@) && v@.len() == data@.len()
            && aes256_ecb_decrypt_of(key@, v@) == data@,
        key@.len() == 32 && data@.len() % 16 == 0 ==> r is Some,
{
    let aes = openssl::symm::Cipher::aes_256_ecb();
    let mut c = openssl::symm::Crypter::new(aes, openssl::symm::Mode::Encrypt, key, None).ok()?;
    c.pad(false);
    let mut out = vec![0; data.len() + aes.block_size()];
    let count = c.update(data, &mut out).ok()?;
    let rest = c.finalize(&mut out[count..]).ok()?;
    out.truncate(count + rest);
    Some(out)
}

/// Relies on openssl's `Crypter` with `Cipher::aes_256_ecb()` and padding
/// switched off: the plaintext of the data, as long as the data; it
/// succeeds for a 32-byte key on whole 16-byte blocks, as encryption does.
/// The bounds keep the lengths within the C `int` that OpenSSL takes.
#[verifier::external_body]
fn aes_decrypt(key: &[u8], data: &[u8]) -> (r: Option<Vec<u8>>)
    requires
        data@.len() + 16 <= i32::MAX,
        key@.len() <= i32::MAX,
    ensures
        r matches Some(v) ==> v@ == aes256_ecb_decrypt_of(key@, data@) && v@.len() == data@.len(),
        key@.len() == 32 && data@.len() % 16 == 0 ==> r is Some,
{
    let aes = openssl::symm::Cipher::aes_256_ecb();
    let mut c = openssl::symm::Crypter::new(aes, openssl::symm::Mode::Decrypt, key, None).ok()?;
    c.pad(false);
    let mut out = vec![0; data.len() + aes.block_size()];
    let count = c.update(data, &mut out).ok()?;
    let rest = c.finalize(&mut out[count..]).ok()?;
    out.truncate(count + rest);
    Some(out)
}

/// Standard base64 text of a byte string.
pub uninterp spec fn base64_of(data: Seq<u8>) -> Seq<char>;

/// What `base64::decode` gives for a text: the bytes it stands for, or
/// `None` where it is not standard base64.
pub uninterp spec fn base64_decoded_of(text: Seq<u8>) -> Option<Seq<u8>>;

/// Relies on base64::encode: the standard, padded base64 text of the bytes,
/// which is ASCII and which `base64::decode` turns back into the bytes.
#[verifier::external_body]
fn base64_encode(data: &[u8]) -> (r: String)
    ensures
        r@ == base64_of(data@),
        base64_decoded_of(encode_utf8(r@)) == Some(data@),
{
    base64::encode(data)
}

/// Relies on base64::decode: the bytes of a standard base64 text, or `None`
/// where the text is not base64.
#[verifier::external_body]
fn base64_decode(text: &[u8]) -> (r: Option<Vec<u8>>)
    ensures
        r matches Some(v) ==> base64_decoded_of(text@) == Some(v@),
        r is None ==> base64_decoded_of(text@) is None,
{
    base64::decode(text).ok()
}

/// The `n`-th field (from zero) of `s` split at `$`, if there are that many.
pub open spec fn dollar_field(s: Seq<char>, n: nat) -> Option<Seq<char>>
    decreases n,
{
    let k = first_dollar(s, 0);
    if n == 0 {
        Some(s.subrange(0, k))
    } else if k >= s.len() {
        None
    } else {
        dollar_field(s.subrange(k + 1, s.len() as int), (n - 1) as nat)
    }
}

/// Index of the first `$` of `s` at or after `i`, or its length.
pub open spec fn first_dollar(s: Seq<char>, i: int) -> int
    decreases s.len() - i,
{
    if i < 0 || i >= s.len() {
        s.len() as int
    } else if s[i] == '$' {
        i
    } else {
        first_dollar(s, i + 1)
    }
}

/// The `n`-th `$`-separated field of a text.
fn nth_dollar_field(s: &str, n: usize) -> (r: Option<String>)
    ensures
        r matches Some(t) ==> dollar_field(s@, n as nat) == Some(t@),
        r is None ==> dollar_field(s@, n as nat) is None,
    decreases n,
{
    let len = s.unicode_len();
    let mut k: usize = 0;
    while k < len && s.get_char(k) != '$'
        invariant
            k <= len,
            len == s@.len(),
            first_dollar(s@, 0) == first_dollar(s@, k as int),
        decreases len - k,
    {
        k = k + 1;
    }
    if n == 0 {
        return Some(String::from_str(s.substring_char(0, k)));
    }
    if k >= len {
        return None;
    }
    nth_dollar_field(s.substring_char(k + 1, len), n - 1)
}

/// The session made from a challenge and a password, if it can be made:
/// the key material (the hash field of the password's MD5 crypt with the
/// first salt), the AES key (its SHA-256 digest), and the token (the hash
/// field of the MD5 crypt of the key material and the server time with the
/// second salt).
pub open spec fn token_of(password: Seq<char>, data: TokenData) -> Option<(Seq<char>, Seq<u8>, Seq<char>)> {
    if !hash64_valid(encode_utf8(data.salt@), 6) {
        None
    } else {
        match dollar_field(md5_crypt_text(encode_utf8(password), data.salt@), 3) {
            None => None,
            Some(key) => if !hash64_valid(encode_utf8(data.newsalt@), 6) {
                None
            } else {
                match dollar_field(md5_crypt_text(encode_utf8(key + data.time@), data.newsalt@), 3) {
                    None => None,
                    Some(tok) => Some((key, sha256_of(encode_utf8(key)), tok)),
                }
            },
        }
    }
}

/// The expiry of a session made at `now`.
pub open spec fn expiry_after(now: i64) -> i64 {
    if now > i64::MAX - TOKEN_LIFETIME_SECS { i64::MAX } else { (now + TOKEN_LIFETIME_SECS) as i64 }
}

/// Whether `t` is the session that `token_of` describes.
pub open spec fn is_made_token(password: Seq<char>, data: TokenData, t: WhatsminerToken) -> bool {
    token_of(password, data) matches Some(x) && t.cipher@ == x.1 && t.token@ == x.2
}

impl TokenResponse {
    /// Makes the session for this challenge and password, trusted until
    /// 30 minutes after `now` (Unix seconds).
    pub fn make_token(self, password: &str, now: i64) -> (r: Result<WhatsminerToken, Error>)
        ensures
            self.msg is None ==> (r matches Err(Error::ApiCallFailed(m)) && m@ == "Failed to get token"@),
            self.msg matches Some(d) ==> (r is Ok <==> token_of(password@, d) is Some),
            self.msg is Some && r is Err ==> r == Err::<WhatsminerToken, Error>(Error::EncodingError),
            self.msg matches Some(d) ==> (r matches Ok(t) ==> is_made_token(password@, d, t) && t.expires
                == expiry_after(now)),
    {
        let d = match self.msg {
            None => {
                proof {
                    reveal_strlit("Failed to get token");
                }
                return Err(Error::ApiCallFailed(String::from_str("Failed to get token")));
            },
            Some(d) => d,
        };
        let hashkey = do_md5_crypt(password.as_bytes(), d.salt.as_str())?;
        let key = match nth_dollar_field(hashkey.as_str(), 3) {
            None => {
                return Err(Error::EncodingError);
            },
            Some(k) => k,
        };
        let aeskey = sha256_digest(key.as_str().as_bytes());
        let mut material = String::from_str(key.as_str());
        material.append(d.time.as_str());
        let hashkey2 = do_md5_crypt(material.as_str().as_bytes(), d.newsalt.as_str())?;
        let token = match nth_dollar_field(hashkey2.as_str(), 3) {
            None => {
                return Err(Error::EncodingError);
            },
            Some(t) => t,
        };
        let expires = if now > i64::MAX - TOKEN_LIFETIME_SECS {
            i64::MAX
        } else {
            now + TOKEN_LIFETIME_SECS
        };
        Ok(WhatsminerToken { token, expires, cipher: aeskey })
    }
}

/// `x` followed by NUL bytes up to the next multiple of 16 (a whole block
/// of them where `x` already ends on one).
pub open spec fn nul_padded(x: Seq<u8>) -> Seq<u8> {
    x + Seq::new((16 - x.len() % 16) as nat, |i: int| 0u8)
}

/// `x` without its trailing NUL bytes.
pub open spec fn strip_nuls(x: Seq<u8>) -> Seq<u8>
    decreases x.len(),
{
    if x.len() > 0 && x.last() == 0u8 {
        strip_nuls(x.drop_last())
    } else {
        x
    }
}

/// Pads a payload with NUL bytes to a whole number of AES blocks.
pub fn pad_nul(data: &[u8]) -> (r: Vec<u8>)
    ensures
        r@ == nul_padded(data@),
{
    let mut out: Vec<u8> = Vec::new();
    let mut k: usize = 0;
    while k < data.len()
        invariant
            k <= data@.len(),
            out@ == data@.subrange(0, k as int),
        decreases data@.len() - k,
    {
        out.push(data[k]);
        k = k + 1;
    }
    let padding = BLOCK - data.len() % BLOCK;
    let mut p: usize = 0;
    while p < padding
        invariant
            p <= padding,
            padding == 16 - data@.len() % 16,
            out@ =~= data@ + Seq::new(p as nat, |i: int| 0u8),
        decreases padding - p,
    {
        out.push(0u8);
        p = p + 1;
    }
    out
}

/// Drops the trailing NUL bytes of a decrypted payload.
pub fn trim_nul(data: Vec<u8>) -> (r: Vec<u8>)
    ensures
        r@ == strip_nuls(data@),
{
    let mut out = data;
    while out.len() > 0 && out[out.len() - 1] == 0u8
        invariant
            strip_nuls(out@) == strip_nuls(data@),
        decreases out@.len(),
    {
        out.pop();
    }
    out
}

/// Dropping the padding gives back every payload that does not itself end
/// in a NUL byte, whatever its length modulo the block size.
pub proof fn lemma_unpad_pad(x: Seq<u8>)
    requires
        x.len() == 0 || x.last() != 0u8,
    ensures
        strip_nuls(nul_padded(x)) == x,
        nul_padded(x).len() % 16 == 0,
        nul_padded(x).len() > x.len(),
{
    lemma_strip_zeros(x, (16 - x.len() % 16) as nat);
}

proof fn lemma_strip_zeros(x: Seq<u8>, k: nat)
    requires
        x.len() == 0 || x.last() != 0u8,
    ensures
        strip_nuls(x + Seq::new(k, |i: int| 0u8)) == x,
    decreases k,
{
    if k == 0 {
        assert(x + Seq::new(0, |i: int| 0u8) =~= x);
    } else {
        assert((x + Seq::new(k, |i: int| 0u8)).drop_last() =~= x + Seq::new((k - 1) as nat, |i: int| 0u8));
        lemma_strip_zeros(x, (k - 1) as nat);
    }
}

/// The plaintext of an encrypted answer whose `data` text has the bytes
/// `text`: the base64 decoded, AES-256-ECB decrypted under `key`, NUL
/// padding dropped; `None` where the text is not base64 of whole blocks
/// (fewer than `i32::MAX - 16` bytes) or the key is not 32 bytes.
pub open spec fn envelope_plaintext(key: Seq<u8>, text: Seq<u8>) -> Option<Seq<u8>> {
    match base64_decoded_of(text) {
        Some(raw) => if key.len() == 32 && raw.len() % 16 == 0 && raw.len() + 16 <= i32::MAX {
            Some(strip_nuls(aes256_ecb_decrypt_of(key, raw)))
        } else {
            None
        },
        None => None,
    }
}

impl WhatsminerToken {
    /// Whether the session is past its expiry at `now` (Unix seconds).
    pub fn is_expired(&self, now: i64) -> (r: bool)
        ensures
            r == (self.expires < now),
    {
        self.expires < now
    }

    pub fn get_token(&self) -> (r: &str)
        ensures
            r@ == self.token@,
    {
        self.token.as_str()
    }

    /// Encrypts a serialized request at `now`: NUL padding to whole blocks,
    /// AES-256-ECB with the session key, base64. A session past its expiry
    /// refuses; one with a 32-byte key succeeds on a request shorter than
    /// `i32::MAX` bytes with its padding. Decrypting the result gives
    /// the request back, whatever its length, unless it ends in NUL bytes.
    pub fn encrypt(&self, plaintext: &[u8], now: i64) -> (r: Result<String, Error>)
        ensures
            self.expires < now ==> r == Err::<String, Error>(Error::TokenExpired),
            self.expires >= now ==> (r matches Ok(t) ==> t@ == base64_of(
                aes256_ecb_encrypt_of(self.cipher@, nul_padded(plaintext@)),
            )),
            self.expires >= now && r is Err ==> r == Err::<String, Error>(Error::EncodingError),
            self.expires >= now && self.cipher@.len() == 32 && nul_padded(plaintext@).len() + 16 <= i32::MAX ==> r
                is Ok,
            r matches Ok(t) ==> (self.cipher@.len() == 32 && (plaintext@.len() == 0 || plaintext@.last() != 0u8)
                ==> envelope_plaintext(self.cipher@, encode_utf8(t@)) == Some(plaintext@)),
    {
        if self.is_expired(now) {
            return Err(Error::TokenExpired);
        }
        if self.cipher.len() != 32 {
            return Err(Error::EncodingError);
        }
        let padded = pad_nul(plaintext);
        if padded.len() > MAX_CIPHER_BYTES {
            return Err(Error::EncodingError);
        }
        proof {
            if plaintext@.len() == 0 || plaintext@.last() != 0u8 {
                lemma_unpad_pad(plaintext@);
            }
            assert(nul_padded(plaintext@).len() % 16 == 0) by {
                assert(nul_padded(plaintext@).len() == plaintext@.len() + (16 - plaintext@.len() % 16));
            }
        }
        match aes_encrypt(self.cipher.as_slice(), padded.as_slice()) {
            Some(c) => Ok(base64_encode(c.as_slice())),
            None => Err(Error::EncodingError),
        }
    }

    /// Decrypts the base64 payload of an encrypted answer and drops its NUL
    /// padding. It succeeds on base64 text of whole blocks (fewer than
    /// `i32::MAX - 16` bytes) under a 32-byte key.
    pub fn decrypt(&self, data: &str) -> (r: Result<Vec<u8>, Error>)
        ensures
            envelope_plaintext(self.cipher@, data.spec_bytes()) matches Some(p) ==> r matches Ok(v) && v@ == p,
            r matches Ok(v) ==> base64_decoded_of(data.spec_bytes()) matches Some(raw) && v@ == strip_nuls(
                aes256_ecb_decrypt_of(self.cipher@, raw),
            ),
            r is Err ==> r == Err::<Vec<u8>, Error>(Error::EncodingError),
    {
        let raw = match base64_decode(data.as_bytes()) {
            Some(b) => b,
            None => {
                return Err(Error::EncodingError);
            },
        };
        if self.cipher.len() != 32 || raw.len() > MAX_CIPHER_BYTES {
            return Err(Error::EncodingError);
        }
        match aes_decrypt(self.cipher.as_slice(), raw.as_slice()) {
            Some(p) => Ok(trim_nul(p)),
            None => Err(Error::EncodingError),
        }
    }
}

/// What the client does next with an encrypted request.
#[derive(Debug, Clone, PartialEq, Eq)]
pub enum SessionStep {
    /// Log in again to get a fresh session.
    Refresh,
    /// Encrypt and send the request with the current session.
    Send,
    /// Give up with this error.
    Fail(Error),
}

/// The step for a request, given whether the session was already refreshed
/// for it, whether there is a session and whether it is past its expiry.
pub open spec fn session_step(refreshed: bool, has_token: bool, expired: bool) -> SessionStep {
    if !has_token {
        SessionStep::Fail(Error::Unauthorized)
    } else if !expired {
        SessionStep::Send
    } else if refreshed {
        SessionStep::Fail(Error::TokenExpired)
    } else {
        SessionStep::Refresh
    }
}

/// Decides the next step of an encrypted request at `now`.
pub fn next_session_step(refreshed: bool, token: &Option<WhatsminerToken>, now: i64) -> (r: SessionStep)
    ensures
        r == session_step(refreshed, token is Some, token matches Some(t) && t.expires < now),
{
    match token {
        None => SessionStep::Fail(Error::Unauthorized),
        Some(t) => {
            if !t.is_expired(now) {
                SessionStep::Send
            } else if refreshed {
                SessionStep::Fail(Error::TokenExpired)
            } else {
                SessionStep::Refresh
            }
        },
    }
}

/// A session found expired is refreshed once, and never a second time for
/// the same request: after the refresh the request is sent or fails.
pub proof fn lemma_single_refresh(has_token: bool, expired: bool)
    ensures
        session_step(false, true, true) == SessionStep::Refresh,
        session_step(true, has_token, expired) != SessionStep::Refresh,
{
}

} // verus!
