use libminer::crypt::{bcrypt_hash64_decode, do_md5_crypt, md5_sha2_hash64_encode};
use libminer::error::Error;

#[test]
fn md5_crypt_matches_openssl_passwd() {
    assert_eq!(do_md5_crypt(b"password", "xxxxxxxx").unwrap(), "$1$xxxxxxxx$UYCIxa628.9qXjpQCjM4a.");
}

#[test]
fn md5_crypt_matches_glibc_vector() {
    assert_eq!(do_md5_crypt(b"Hello world!", "saltstri").unwrap(), "$1$saltstri$YMyguxXMBpd2TEZ.vS/3q1");
}

#[test]
fn md5_crypt_refuses_a_salt_outside_the_alphabet() {
    assert_eq!(do_md5_crypt(b"password", "ab$cdefg"), Err(Error::EncodingError));
    assert_eq!(do_md5_crypt(b"password", "abc-"), Err(Error::EncodingError));
}

#[test]
fn md5_crypt_reads_only_the_first_eight_salt_characters() {
    let r = do_md5_crypt(b"pw", "abcdefgh-").unwrap();
    assert!(r.starts_with("$1$abcdefgh-$"));
    assert_eq!(r.len(), 3 + 9 + 1 + 22);
}

#[test]
fn hash64_encode_orders_low_bits_first() {
    assert_eq!(md5_sha2_hash64_encode(&[]), "");
    assert_eq!(md5_sha2_hash64_encode(&[0, 0, 0]), "....");
    assert_eq!(md5_sha2_hash64_encode(&[0xff, 0xff, 0xff]), "zzzz");
    assert_eq!(md5_sha2_hash64_encode(&[1]), "/.");
    assert_eq!(md5_sha2_hash64_encode(&[1, 0]), "/..");
    assert_eq!(md5_sha2_hash64_encode(&[0x3f, 0, 0, 2]), "z...0.");
}

#[test]
fn bcrypt_decode_fills_the_buffer() {
    let mut buf = [0u8; 3];
    assert_eq!(bcrypt_hash64_decode("AAAA", &mut buf), Ok(()));
    assert_eq!(buf, [8, 32, 130]);
    let mut buf = [7u8; 4];
    assert_eq!(bcrypt_hash64_decode("..", &mut buf), Ok(()));
    assert_eq!(buf, [0, 7, 7, 7]);
}

#[test]
fn bcrypt_decode_stops_once_full() {
    let mut buf = [0u8; 1];
    assert_eq!(bcrypt_hash64_decode("99$$", &mut buf), Ok(()));
    assert_eq!(buf, [0xff]);
    let mut buf = [0u8; 2];
    assert_eq!(bcrypt_hash64_decode("99$$", &mut buf), Err(Error::EncodingError));
}
