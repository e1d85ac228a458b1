use photo_works::database::common::{sha256_digest, to_hex_upper, DigestStream, CHUNK_SIZE};
use sha2::{Digest, Sha256};

fn patterned(len: usize) -> Vec<u8> {
    (0..len).map(|i| (i * 31 % 251) as u8).collect()
}

#[test]
fn digest_of_nothing_is_the_known_one() {
    assert_eq!(
        "E3B0C44298FC1C149AFBF4C8996FB92427AE41E4649B934CA495991B7852B855",
        sha256_digest(&[])
    );
}

#[test]
fn digest_of_abc_is_the_known_one() {
    assert_eq!(
        "BA7816BF8F01CFEA414140DE5DAE2223B00361A396177A9CB410FF61F20015AD",
        sha256_digest(b"abc")
    );
}

#[test]
fn digest_of_hello_world_is_the_known_one() {
    assert_eq!(
        "B94D27B9934D3E08A52E52D7DA7DABFAC484EFE37A5380EE9088F7ACE2EFCDE9",
        sha256_digest(b"hello world")
    );
}

#[test]
fn digest_is_upper_case_hexadecimal_of_fixed_width() {
    for len in [0, 1, 63, 64, 65, 1000] {
        let digest = sha256_digest(&patterned(len));
        assert_eq!(64, digest.len());
        assert!(digest.chars().all(|c| c.is_ascii_digit() || ('A'..='F').contains(&c)));
    }
}

#[test]
fn digest_is_what_the_hash_gives_for_the_whole_input() {
    for len in [0, 1, CHUNK_SIZE - 1, CHUNK_SIZE, CHUNK_SIZE + 1, 3 * CHUNK_SIZE, 5000] {
        let data = patterned(len);
        assert_eq!(format!("{:X}", Sha256::digest(&data)), sha256_digest(&data));
    }
}

#[test]
fn identical_bytes_have_identical_digests() {
    let first = patterned(4321);
    let second = first.clone();
    assert_eq!(sha256_digest(&first), sha256_digest(&second));
}

#[test]
fn differing_bytes_have_differing_digests() {
    let first = patterned(4321);
    let mut second = first.clone();
    second[4000] ^= 1;
    assert_ne!(sha256_digest(&first), sha256_digest(&second));
    assert_ne!(sha256_digest(b"a"), sha256_digest(b"a\0"));
}

#[test]
fn digest_does_not_depend_on_how_the_bytes_are_cut() {
    let data = patterned(3000);
    for size in [1, 7, 64, 1024, 2999, 3000, 4096] {
        let mut stream = DigestStream::new();
        for chunk in data.chunks(size) {
            stream.update(chunk);
        }
        assert_eq!(sha256_digest(&data), stream.finish());
    }
}

#[test]
fn stream_takes_empty_pieces_in_its_stride() {
    let mut stream = DigestStream::new();
    stream.update(b"");
    stream.update(b"ab");
    stream.update(b"");
    stream.update(b"c");
    assert_eq!(sha256_digest(b"abc"), stream.finish());
    assert_eq!(sha256_digest(b""), DigestStream::new().finish());
}

#[test]
fn hex_writes_two_upper_case_digits_for_each_byte() {
    assert_eq!("", to_hex_upper(&[]));
    assert_eq!("00", to_hex_upper(&[0]));
    assert_eq!("0F", to_hex_upper(&[15]));
    assert_eq!("F0", to_hex_upper(&[240]));
    assert_eq!("09A0FF", to_hex_upper(&[9, 160, 255]));
    assert_eq!("0123456789ABCDEF", to_hex_upper(&[0x01, 0x23, 0x45, 0x67, 0x89, 0xAB, 0xCD, 0xEF]));
}
