use reposync::digest::{digest_hex, Algorithm};
use reposync::error::SyncError;
use reposync::package::Checksum;

const ABC: &[u8] = b"abc";

#[test]
fn digest_vectors_of_abc() {
    let cases = [
        ("md5", "900150983cd24fb0d6963f7d28e17f72"),
        ("sha1", "a9993e364706816aba3e25717850c26c9cd0d89d"),
        ("sha224", "23097d223405d8228642a477bda255b32aadbce4bda0b3f7e36c9da7"),
        ("sha256", "ba7816bf8f01cfea414140de5dae2223b00361a396177a9cb410ff61f20015ad"),
        (
            "sha384",
            "cb00753f45a35e8bb5a03d699ac65007272c32ab0eded1631a8b605a43ff5bed8086072ba1e7cc2358baeca134c825a7",
        ),
        (
            "sha512",
            "ddaf35a193617abacc417349ae20413112e6fa4e89a97ea20a9eeee64b55d39a2192992a274fc1a836ba3c23a3feebbd454d4423643ce80e2a9ac94fa54ca49f",
        ),
        ("ripemd160", "8eb208f7e05d987a9b044a8e98c6b087f15a0bfc"),
    ];
    for (alg, expected) in cases.iter() {
        assert_eq!(digest_hex(alg, ABC), Ok(expected.to_string()), "{}", alg);
    }
}

#[test]
fn digest_of_empty_input() {
    assert_eq!(
        digest_hex("sha256", b""),
        Ok("e3b0c44298fc1c149afbf4c8996fb92427ae41e4649b934ca495991b7852b855".to_string())
    );
    assert_eq!(digest_hex("md5", b""), Ok("d41d8cd98f00b204e9800998ecf8427e".to_string()));
}

#[test]
fn unknown_algorithm_is_refused() {
    assert_eq!(digest_hex("crc32", ABC), Err(SyncError::UnknownAlgorithm("crc32".to_string())));
    assert_eq!(digest_hex("SHA256", ABC), Err(SyncError::UnknownAlgorithm("SHA256".to_string())));
    assert_eq!(Algorithm::from_name("sha384"), Ok(Algorithm::Sha384));
    assert_eq!(Algorithm::from_name("sha"), Err(SyncError::UnknownAlgorithm("sha".to_string())));
    assert_eq!(Algorithm::Ripemd160.name(), "ripemd160");
}

#[test]
fn checksum_check_compares_hex() {
    let good = Checksum {
        algorithm: "sha1".to_string(),
        sum: "a9993e364706816aba3e25717850c26c9cd0d89d".to_string(),
    };
    let bad = Checksum { algorithm: "sha1".to_string(), sum: "00".to_string() };
    let upper = Checksum {
        algorithm: "sha1".to_string(),
        sum: "A9993E364706816ABA3E25717850C26C9CD0D89D".to_string(),
    };
    assert_eq!(good.check(ABC), Ok(true));
    assert_eq!(bad.check(ABC), Ok(false));
    assert_eq!(upper.check(ABC), Ok(false));
    let odd = Checksum { algorithm: "whirlpool".to_string(), sum: "00".to_string() };
    assert_eq!(odd.check(ABC), Err(SyncError::UnknownAlgorithm("whirlpool".to_string())));
}

#[test]
fn known_algorithms_are_never_reported_unknown() {
    for alg in ["md5", "sha1", "sha224", "sha256", "sha384", "sha512", "ripemd160"].iter() {
        let c = Checksum { algorithm: alg.to_string(), sum: String::new() };
        assert!(!matches!(c.check(b"x"), Err(SyncError::UnknownAlgorithm(_))), "{}", alg);
    }
}

#[test]
fn digest_bytes_match_declared_hex() {
    let c = Checksum { algorithm: "md5".to_string(), sum: "00ff10ab".to_string() };
    assert!(c.matches_digest(&[0x00, 0xff, 0x10, 0xab]));
    assert!(!c.matches_digest(&[0x00, 0xff, 0x10]));
}
