//! The salted MD5 crypt (`$1$salt$hash`) and the hash64 encodings it uses.
use vstd::prelude::*;
use vstd::string::StringSliceAdditionalSpecFns;
use vstd::string::StringExecFns;
use vstd::utf8::encode_utf8;
use md5::Digest;
use crate::error::Error;

verus! {

/// The crypt alphabet `./0-9A-Za-z`: the character for a 6-bit value.
pub open spec fn crypt_char(v: int) -> u8 {
    if v == 0 {
        46u8
    } else if v == 1 {
        47u8
    } else if v < 12 {
        (48 + v - 2) as u8
    } else if v < 38 {
        (65 + v - 12) as u8
    } else {
        (97 + v - 38) as u8
    }
}

/// The bcrypt alphabet `./A-Za-z0-9`: the 6-bit value of a character.
pub open spec fn bcrypt_value(c: u8) -> Option<int> {
    if c == 46u8 {
        Some(0)
    } else if c == 47u8 {
        Some(1)
    } else if 65 <= c <= 90 {
        Some(c - 65 + 2)
    } else if 97 <= c <= 122 {
        Some(c - 97 + 28)
    } else if 48 <= c <= 57 {
        Some(c - 48 + 54)
    } else {
        None
    }
}

/// Byte `j` of `b`, or zero past its end.
pub open spec fn byte_or_zero(b: Seq<u8>, j: int) -> int {
    if 0 <= j < b.len() { b[j] as int } else { 0 }
}

/// Group `g` of three bytes as a little-endian 24-bit word.
pub open spec fn group_word(b: Seq<u8>, g: int) -> int {
    byte_or_zero(b, 3 * g) + 256 * byte_or_zero(b, 3 * g + 1) + 65536 * byte_or_zero(b, 3 * g + 2)
}

/// Bits `6j .. 6j+6` of a 24-bit word.
pub open spec fn sextet(w: int, j: int) -> int {
    if j == 0 {
        w % 64
    } else if j == 1 {
        (w / 64) % 64
    } else if j == 2 {
        (w / 4096) % 64
    } else {
        (w / 262144) % 64
    }
}

/// Length of the hash64 text of `n` bytes: four characters per three bytes,
/// the last group cut to what it holds.
pub open spec fn hash64_len(n: int) -> int {
    (4 * n + 2) / 3
}

/// The hash64 text of `b`: each group of three bytes, least significant six
/// bits first, in the crypt alphabet.
pub open spec fn hash64(b: Seq<u8>) -> Seq<u8> {
    Seq::new(hash64_len(b.len() as int) as nat, |i: int| crypt_char(sextet(group_word(b, i / 4), i % 4)))
}

/// The characters of an ASCII byte string.
pub open spec fn ascii_text(b: Seq<u8>) -> Seq<char> {
    b.map_values(|x: u8| x as char)
}

pub open spec fn is_ascii_bytes(b: Seq<u8>) -> bool {
    forall|i: int| 0 <= i < b.len() ==> b[i] < 128
}

/// Relies on String::from_utf8: ASCII bytes are valid UTF-8, one character
/// for each byte, so the call succeeds.
#[verifier::external_body]
fn ascii_string(b: Vec<u8>) -> (r: String)
    requires
        is_ascii_bytes(b@),
    ensures
        r@ == ascii_text(b@),
{
    String::from_utf8(b).unwrap()
}

/// The crypt character for a 6-bit value.
fn crypt_char_of(v: u32) -> (r: u8)
    requires
        v < 64,
    ensures
        r == crypt_char(v as int),
        r < 128,
{
    if v == 0 {
        46u8
    } else if v == 1 {
        47u8
    } else if v < 12 {
        (48 + v - 2) as u8
    } else if v < 38 {
        (65 + v - 12) as u8
    } else {
        (97 + v - 38) as u8
    }
}

/// Encodes bytes as hash64 text, as MD5 and SHA-2 crypt write digests. The
/// bound on the input holds of every slice, which spans at most
/// `isize::MAX` bytes.
pub fn md5_sha2_hash64_encode(bs: &[u8]) -> (r: String)
    requires
        bs@.len() <= usize::MAX / 2,
    ensures
        r@ == ascii_text(hash64(bs@)),
{
    let n = bs.len();
    let ngroups = (n + 2) / 3;
    let mut out: Vec<u8> = Vec::new();
    let mut g: usize = 0;
    while g < ngroups
        invariant
            n == bs@.len(),
            n <= usize::MAX / 2,
            ngroups == (n + 2) / 3,
            g <= ngroups,
            out@.len() == 4 * g,
            forall|i: int|
                0 <= i < out@.len() ==> #[trigger] out@[i] == crypt_char(sextet(group_word(bs@, i / 4), i % 4)),
            forall|i: int| 0 <= i < out@.len() ==> #[trigger] out@[i] < 128,
        decreases ngroups - g,
    {
        let b0: u32 = if 3 * g < n { bs[3 * g] as u32 } else { 0 };
        let b1: u32 = if 3 * g + 1 < n { bs[3 * g + 1] as u32 } else { 0 };
        let b2: u32 = if 3 * g + 2 < n { bs[3 * g + 2] as u32 } else { 0 };
        let w: u32 = b0 + 256 * b1 + 65536 * b2;
        assert(w == group_word(bs@, g as int));
        let ghost before = out@;
        out.push(crypt_char_of(w % 64));
        out.push(crypt_char_of((w / 64) % 64));
        out.push(crypt_char_of((w / 4096) % 64));
        out.push(crypt_char_of((w / 262144) % 64));
        assert forall|i: int| 0 <= i < out@.len() implies #[trigger] out@[i] == crypt_char(
            sextet(group_word(bs@, i / 4), i % 4),
        ) by {
            if i >= 4 * g {
                assert(i / 4 == g);
            }
        }
        g = g + 1;
    }
    let total = n + (n + 2) / 3;
    assert(total == (4 * n + 2) / 3);
    while out.len() > total
        invariant
            total <= out@.len() <= 4 * ngroups,
            forall|i: int|
                0 <= i < out@.len() ==> #[trigger] out@[i] == crypt_char(sextet(group_word(bs@, i / 4), i % 4)),
            forall|i: int| 0 <= i < out@.len() ==> #[trigger] out@[i] < 128,
        decreases out@.len(),
    {
        out.pop();
    }
    assert(out@ =~= hash64(bs@));
    ascii_string(out)
}


/// One decoded byte from the 6-bit values `p` and `q` of two neighbouring
/// characters, `r` being the byte's place in its group of three.
pub open spec fn pair_byte(p: int, q: int, r: int) -> int {
    if r == 0 {
        p * 4 + q / 16
    } else if r == 1 {
        (p % 16) * 16 + q / 4
    } else {
        (p % 4) * 64 + q
    }
}

/// Index of the character that completes decoded byte `k`.
pub open spec fn completing_char(k: int) -> int {
    4 * (k / 3) + k % 3 + 1
}

/// Decoded byte `k` of a bcrypt hash64 text.
pub open spec fn decoded_byte(enc: Seq<u8>, k: int) -> int {
    let c = completing_char(k);
    pair_byte(bcrypt_value(enc[c - 1])->0, bcrypt_value(enc[c])->0, k % 3)
}

/// How many bytes the first `n` characters decode to.
pub open spec fn produced(n: int) -> int {
    3 * (n / 4) + if n % 4 == 0 { 0 } else { n % 4 - 1 }
}

/// How many characters are read to fill `l` bytes (no more are looked at).
pub open spec fn chars_for(l: int) -> int {
    completing_char(l - 1) + 1
}

/// The characters that decoding into a buffer of `l` bytes reads.
pub open spec fn examined(enc: Seq<u8>, l: int) -> int {
    if enc.len() < chars_for(l) { enc.len() as int } else { chars_for(l) }
}

/// Whether every character that decoding reads is in the bcrypt alphabet.
pub open spec fn hash64_valid(enc: Seq<u8>, l: int) -> bool {
    forall|i: int| 0 <= i < examined(enc, l) ==> (#[trigger] bcrypt_value(enc[i])) is Some
}

proof fn lemma_produced_step(i: int)
    requires
        0 <= i,
    ensures
        i % 4 == 0 ==> produced(i + 1) == produced(i),
        i % 4 != 0 ==> produced(i + 1) == produced(i) + 1,
        i % 4 != 0 ==> completing_char(produced(i)) == i && produced(i) % 3 == i % 4 - 1,
        0 <= produced(i),
{
    let q = i / 4;
    let r = i % 4;
    assert(i == 4 * q + r);
    if r == 3 {
        assert((i + 1) / 4 == q + 1);
        assert((i + 1) % 4 == 0);
    } else {
        assert((i + 1) / 4 == q);
        assert((i + 1) % 4 == r + 1);
    }
    if r != 0 {
        let k = 3 * q + r - 1;
        assert(k / 3 == q);
        assert(k % 3 == r - 1);
    }
}

proof fn lemma_chars_for(i: int, l: int)
    requires
        0 <= i,
        1 <= l,
    ensures
        produced(i) < l <==> i < chars_for(l),
{
    let q = i / 4;
    let r = i % 4;
    let a = (l - 1) / 3;
    let b = (l - 1) % 3;
    assert(i == 4 * q + r);
    assert(l - 1 == 3 * a + b);
    assert(chars_for(l) == 4 * a + b + 2);
    if q < a {
        assert(produced(i) <= 3 * q + 2);
    } else if q > a {
        assert(produced(i) >= 3 * q);
    }
}

/// The 6-bit value of a bcrypt alphabet character.
fn bcrypt_value_of(c: u8) -> (r: Option<u8>)
    ensures
        r matches Some(v) ==> bcrypt_value(c) == Some(v as int) && v < 64,
        r is None ==> bcrypt_value(c) is None,
{
    if c == 46u8 {
        Some(0)
    } else if c == 47u8 {
        Some(1)
    } else if 65 <= c && c <= 90 {
        Some(c - 65 + 2)
    } else if 97 <= c && c <= 122 {
        Some(c - 97 + 28)
    } else if 48 <= c && c <= 57 {
        Some(c - 48 + 54)
    } else {
        None
    }
}

/// Decodes bcrypt hash64 text into `decbuf`, stopping once it is full. Fails
/// on a character outside the alphabet among those it reads.
pub fn bcrypt_hash64_decode(enc: &str, decbuf: &mut [u8]) -> (r: Result<(), Error>)
    requires
        old(decbuf)@.len() > 0,
    ensures
        final(decbuf)@.len() == old(decbuf)@.len(),
        r is Ok <==> hash64_valid(enc.spec_bytes(), old(decbuf)@.len() as int),
        r is Err ==> r == Err::<(), Error>(Error::EncodingError),
        r is Ok ==> forall|k: int|
            0 <= k < final(decbuf)@.len() ==> #[trigger] final(decbuf)@[k] == if k < produced(
                examined(enc.spec_bytes(), old(decbuf)@.len() as int),
            ) {
                decoded_byte(enc.spec_bytes(), k) as u8
            } else {
                old(decbuf)@[k]
            },
{
    let bytes = enc.as_bytes();
    let ghost e = enc.spec_bytes();
    let ghost l = decbuf@.len() as int;
    let mut i: usize = 0;
    let mut prev: u8 = 0;
    let mut dec_idx: usize = 0;
    while i < bytes.len()
        invariant
            bytes@ == e,
            e == enc.spec_bytes(),
            decbuf@.len() == l,
            l == old(decbuf)@.len(),
            l > 0,
            i <= e.len(),
            dec_idx == produced(i as int),
            dec_idx < l,
            i < chars_for(l),
            forall|j: int| 0 <= j < i ==> (#[trigger] bcrypt_value(e[j])) is Some,
            i > 0 ==> bcrypt_value(e[i - 1]) == Some(prev as int),
            prev < 64,
            forall|k: int|
                0 <= k < l ==> #[trigger] decbuf@[k] == if k < dec_idx {
                    decoded_byte(e, k) as u8
                } else {
                    old(decbuf)@[k]
                },
        decreases e.len() - i,
    {
        proof {
            lemma_produced_step(i as int);
        }
        let v = match bcrypt_value_of(bytes[i]) {
            Some(v) => v,
            None => {
                assert(i < examined(e, l));
                assert(bcrypt_value(e[i as int]) is None);
                return Err(Error::EncodingError);
            },
        };
        let r = i % 4;
        if r != 0 {
            let byte: u8 = if r == 1 {
                prev * 4 + v / 16
            } else if r == 2 {
                (prev % 16) * 16 + v / 4
            } else {
                (prev % 4) * 64 + v
            };
            assert(byte as int == decoded_byte(e, dec_idx as int));
            decbuf[dec_idx] = byte;
            dec_idx = dec_idx + 1;
            if dec_idx == decbuf.len() {
                proof {
                    lemma_chars_for(i as int + 1, l);
                    lemma_chars_for(i as int, l);
                }
                assert(examined(e, l) == i + 1);
                assert forall|j: int| 0 <= j < examined(e, l) implies (#[trigger] bcrypt_value(e[j])) is Some by {
                    if j == i {
                        assert(bcrypt_value(e[j]) == Some(v as int));
                    }
                }
                return Ok(());
            }
        }
        prev = v;
        i = i + 1;
        proof {
            lemma_chars_for(i as int, l);
        }
    }
    Ok(())
}


/// The MD5 digest of a byte string.
pub uninterp spec fn md5_of(data: Seq<u8>) -> Seq<u8>;

/// Relies on md5::Md5 (the md-5 crate) through `Digest::digest`: the MD5
/// digest of the bytes, 16 bytes long.
#[verifier::external_body]
fn md5_digest(data: &Vec<u8>) -> (r: Vec<u8>)
    ensures
        r@ == md5_of(data@),
        r@.len() == 16,
{
    md5::Md5::digest(data.as_slice()).to_vec()
}

/// `$1$`, which opens an MD5 crypt text.
pub open spec fn md5_magic() -> Seq<u8> {
    seq![36u8, 49u8, 36u8]
}

/// The digest `h` repeated for every 16 bytes of an `n`-byte password, then
/// cut to the rest.
pub open spec fn digest_chunks(h: Seq<u8>, n: int) -> Seq<u8>
    decreases n,
{
    if n <= 0 {
        seq![]
    } else if n < 16 {
        h.subrange(0, n)
    } else {
        h + digest_chunks(h, n - 16)
    }
}

/// One byte for each bit of `n`, lowest first: the password's first byte
/// for a clear bit, zero for a set one.
pub open spec fn length_bits(p: Seq<u8>, n: int) -> Seq<u8>
    decreases n,
{
    if n <= 0 {
        seq![]
    } else {
        seq![if n % 2 == 0 { p[0] } else { 0u8 }] + length_bits(p, n / 2)
    }
}

/// What round `r` of the stretching hashes.
pub open spec fn round_input(r: int, h: Seq<u8>, p: Seq<u8>, salt: Seq<u8>) -> Seq<u8> {
    (if r % 2 == 1 { p } else { h }) + (if r % 3 > 0 { salt } else { seq![] }) + (if r % 7 > 0 {
        p
    } else {
        seq![]
    }) + (if r % 2 == 0 { p } else { h })
}

/// The digest after rounds `r` up to 1000 of the stretching.
pub open spec fn stretch(h: Seq<u8>, r: int, p: Seq<u8>, salt: Seq<u8>) -> Seq<u8>
    decreases 1000 - r,
{
    if r >= 1000 {
        h
    } else {
        stretch(md5_of(round_input(r, h, p, salt)), r + 1, p, salt)
    }
}

/// The final MD5 crypt digest of a password and salt.
pub open spec fn crypt_digest(p: Seq<u8>, salt: Seq<u8>) -> Seq<u8> {
    let hb = md5_of(p + salt + p);
    let a0 = md5_of(p + md5_magic() + salt + digest_chunks(hb, p.len() as int) + length_bits(p, p.len() as int));
    stretch(a0, 0, p, salt)
}

/// The byte order in which MD5 crypt writes its digest.
pub open spec fn transposed(h: Seq<u8>) -> Seq<u8> {
    seq![h[12], h[6], h[0], h[13], h[7], h[1], h[14], h[8], h[2], h[15], h[9], h[3], h[5], h[10], h[4], h[11]]
}

/// The MD5 crypt text `$1$<salt>$<hash>` of a password and salt.
pub open spec fn md5_crypt_text(p: Seq<u8>, salt: Seq<char>) -> Seq<char> {
    seq!['$', '1', '$'] + salt + seq!['$'] + ascii_text(hash64(transposed(crypt_digest(p, encode_utf8(salt)))))
}

/// Appends `src` to `out`.
fn append_bytes(out: &mut Vec<u8>, src: &[u8])
    ensures
        final(out)@ == old(out)@ + src@,
{
    let mut k: usize = 0;
    while k < src.len()
        invariant
            k <= src@.len(),
            out@ == old(out)@ + src@.subrange(0, k as int),
        decreases src@.len() - k,
    {
        out.push(src[k]);
        k = k + 1;
        assert(out@ =~= old(out)@ + src@.subrange(0, k as int));
    }
    assert(src@.subrange(0, k as int) =~= src@);
}

/// The input of round `r` of the stretching.
fn build_round_input(r: u32, h: &Vec<u8>, p: &[u8], salt: &[u8]) -> (out: Vec<u8>)
    ensures
        out@ == round_input(r as int, h@, p@, salt@),
{
    let mut out: Vec<u8> = Vec::new();
    if r % 2 == 1 {
        append_bytes(&mut out, p);
    } else {
        append_bytes(&mut out, h.as_slice());
    }
    if r % 3 > 0 {
        append_bytes(&mut out, salt);
    }
    if r % 7 > 0 {
        append_bytes(&mut out, p);
    }
    if r % 2 == 0 {
        append_bytes(&mut out, p);
    } else {
        append_bytes(&mut out, h.as_slice());
    }
    assert(out@ =~= round_input(r as int, h@, p@, salt@));
    out
}

/// MD5 crypt of a password with a salt, as `$1$<salt>$<hash>`. Fails where
/// the salt's first eight characters are not bcrypt hash64 text.
pub fn do_md5_crypt(pass: &[u8], salt: &str) -> (r: Result<String, Error>)
    ensures
        r is Ok <==> hash64_valid(salt.spec_bytes(), 6),
        r is Err ==> r == Err::<String, Error>(Error::EncodingError),
        r matches Ok(t) ==> t@ == md5_crypt_text(pass@, salt@),
{
    let mut dummy_buf = [0u8; 6];
    bcrypt_hash64_decode(salt, &mut dummy_buf)?;
    let salt_bytes = salt.as_bytes();
    let ghost p = pass@;
    let ghost sb = salt_bytes@;

    let mut input_b: Vec<u8> = Vec::new();
    append_bytes(&mut input_b, pass);
    append_bytes(&mut input_b, salt_bytes);
    append_bytes(&mut input_b, pass);
    let hash_b = md5_digest(&input_b);

    let mut input_a: Vec<u8> = Vec::new();
    append_bytes(&mut input_a, pass);
    let magic: [u8; 3] = [36u8, 49u8, 36u8];
    append_bytes(&mut input_a, &magic);
    assert(magic@ =~= md5_magic());
    append_bytes(&mut input_a, salt_bytes);
    let ghost base = input_a@;
    assert(base == p + md5_magic() + sb);

    let mut plen = pass.len();
    while plen > 0
        invariant_except_break
            input_a@ + digest_chunks(hash_b@, plen as int) == base + digest_chunks(hash_b@, p.len() as int),
        invariant
            hash_b@.len() == 16,
        ensures
            input_a@ == base + digest_chunks(hash_b@, p.len() as int),
        decreases plen,
    {
        if plen < 16 {
            let mut k: usize = 0;
            let ghost before = input_a@;
            while k < plen
                invariant
                    k <= plen < 16,
                    hash_b@.len() == 16,
                    input_a@ == before + hash_b@.subrange(0, k as int),
                decreases plen - k,
            {
                input_a.push(hash_b[k]);
                k = k + 1;
                assert(input_a@ =~= before + hash_b@.subrange(0, k as int));
            }
            assert(before + digest_chunks(hash_b@, plen as int) == base + digest_chunks(hash_b@, p.len() as int));
            break;
        }
        let ghost before = input_a@;
        append_bytes(&mut input_a, hash_b.as_slice());
        assert(input_a@ + digest_chunks(hash_b@, plen as int - 16) =~= before + digest_chunks(hash_b@, plen as int));
        plen = plen - 16;
    }
    assert(input_a@ + digest_chunks(hash_b@, 0) =~= input_a@);

    let ghost base2 = input_a@;
    plen = pass.len();
    while plen > 0
        invariant
            p == pass@,
            plen <= p.len(),
            input_a@ + length_bits(p, plen as int) == base2 + length_bits(p, p.len() as int),
        decreases plen,
    {
        let ghost before = input_a@;
        if plen % 2 == 0 {
            input_a.push(pass[0]);
        } else {
            input_a.push(0u8);
        }
        assert(input_a@ + length_bits(p, plen as int / 2) =~= before + length_bits(p, plen as int));
        plen = plen / 2;
    }
    assert(input_a@ + length_bits(p, 0) =~= input_a@);
    let mut hash_a = md5_digest(&input_a);
    assert(input_a@ == p + md5_magic() + sb + digest_chunks(hash_b@, p.len() as int) + length_bits(
        p,
        p.len() as int,
    ));

    let mut r: u32 = 0;
    while r < 1000
        invariant
            r <= 1000,
            p == pass@,
            sb == salt_bytes@,
            hash_a@.len() == 16,
            stretch(hash_a@, r as int, p, sb) == crypt_digest(p, sb),
        decreases 1000 - r,
    {
        let input = build_round_input(r, &hash_a, pass, salt_bytes);
        hash_a = md5_digest(&input);
        r = r + 1;
    }

    let mut out: Vec<u8> = Vec::new();
    out.push(hash_a[12]);
    out.push(hash_a[6]);
    out.push(hash_a[0]);
    out.push(hash_a[13]);
    out.push(hash_a[7]);
    out.push(hash_a[1]);
    out.push(hash_a[14]);
    out.push(hash_a[8]);
    out.push(hash_a[2]);
    out.push(hash_a[15]);
    out.push(hash_a[9]);
    out.push(hash_a[3]);
    out.push(hash_a[5]);
    out.push(hash_a[10]);
    out.push(hash_a[4]);
    out.push(hash_a[11]);
    assert(out@ =~= transposed(hash_a@));
    let encoded = md5_sha2_hash64_encode(out.as_slice());

    let mut text = String::from_str("$1$");
    text.append(salt);
    text.append("$");
    text.append(encoded.as_str());
    proof {
        reveal_strlit("$1$");
        reveal_strlit("$");
    }
    assert(text@ =~= md5_crypt_text(pass@, salt@));
    Ok(text)
}

} // verus!
