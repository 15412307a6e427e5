use nixcp::compress::{compress, compress_then_decompress, decompress};
use nixcp::encoding::{base64_encode, decimal_u64, nixbase32_encode};
use nixcp::hashing::{sha256_digest, HashState};
use nixcp::make_nar::MakeNar;
use nixcp::narinfo::{nar_url, NarInfo};
use nixcp::path_info::PathInfo;
use nixcp::sign::NamedKey;
use nixcp::store_path::StorePath;
use nixcp::uploader::Uploader;

use data_encoding::BASE64;
use ed25519_dalek::{Signature, Signer, Verifier, VerifyingKey};
use sha2::{Digest, Sha256};

fn digest32(c: char) -> String {
    std::iter::repeat(c).take(32).collect()
}

/// A fixed pseudo-random payload, reproducible across runs.
fn payload(len: usize) -> Vec<u8> {
    let mut state: u64 = 0x243F6A8885A308D3;
    let mut out = Vec::with_capacity(len);
    for _ in 0..len {
        state = state.wrapping_mul(6364136223846793005).wrapping_add(1442695040888963407);
        out.push((state >> 33) as u8);
    }
    out
}

#[test]
fn decimal_renders_exactly() {
    assert_eq!(decimal_u64(0), b"0".to_vec());
    assert_eq!(decimal_u64(7), b"7".to_vec());
    assert_eq!(decimal_u64(1234567890), b"1234567890".to_vec());
    assert_eq!(decimal_u64(u64::MAX), b"18446744073709551615".to_vec());
}

#[test]
fn nixbase32_known_vectors() {
    assert_eq!(nixbase32_encode(&[]), b"".to_vec());
    assert_eq!(nixbase32_encode(&[0x1f]), b"0z".to_vec());
    assert_eq!(nixbase32_encode(&[0x00]), b"00".to_vec());
    // 32 zero bytes encode to 52 zeros
    assert_eq!(nixbase32_encode(&[0u8; 32]), vec![b'0'; 52]);
    let out = nixbase32_encode(&payload(32));
    assert_eq!(out.len(), 52);
    for b in out {
        assert!(b"0123456789abcdfghijklmnpqrsvwxyz".contains(&b));
    }
}

#[test]
fn base64_known_vectors() {
    for (input, expected) in [
        (&b""[..], &b""[..]),
        (b"f", b"Zg=="),
        (b"fo", b"Zm8="),
        (b"foo", b"Zm9v"),
        (b"foob", b"Zm9vYg=="),
        (b"fooba", b"Zm9vYmE="),
        (b"foobar", b"Zm9vYmFy"),
    ] {
        assert_eq!(base64_encode(input), expected.to_vec());
    }
    // cross-check a longer payload against an independent encoder
    let data = payload(100);
    assert_eq!(base64_encode(&data), BASE64.encode(&data).into_bytes());
}

#[test]
fn streaming_hash_equals_buffer_hash() {
    let data = payload(100_000);
    let mut h = HashState::new();
    for chunk in data.chunks(333) {
        h.update(chunk);
    }
    let streamed = h.finalize();
    let whole = sha256_digest(&data);
    assert_eq!(streamed, whole);
    let expected: Vec<u8> = Sha256::digest(&data).to_vec();
    assert_eq!(streamed, expected);
}

#[test]
fn compression_round_trip() {
    for len in [0usize, 1, 13, 5 * 1024 * 1024 + 17] {
        let data = payload(len);
        let back = compress_then_decompress(&data).unwrap();
        assert_eq!(back, data);
        let packed = compress(&data).unwrap();
        assert_eq!(decompress(&packed).unwrap(), data);
    }
}

#[test]
fn archive_stream_hashes_and_sizes_are_exact() {
    let data = payload(3 * 1024 * 1024);
    let mut nar = MakeNar::new().unwrap();
    let mut emitted: Vec<u8> = Vec::new();
    for chunk in data.chunks(64 * 1024) {
        emitted.extend_from_slice(&nar.compress_and_hash(chunk).unwrap());
    }
    assert_eq!(nar.nar_size, data.len() as u64);
    let fin = nar.finish().unwrap();
    emitted.extend_from_slice(&fin.tail);
    // the archive hash is the hash of the uncompressed stream
    assert_eq!(fin.nar_hash, Sha256::digest(&data).to_vec());
    assert_eq!(fin.nar_size, data.len() as u64);
    // the file hash and size describe exactly the compressed bytes sent
    assert_eq!(fin.file_hash, Sha256::digest(&emitted).to_vec());
    assert_eq!(fin.file_size, emitted.len() as u64);
    // and the compressed stream reproduces the original
    assert_eq!(decompress(&emitted).unwrap(), data);
}

#[test]
fn empty_archive_stream() {
    let nar = MakeNar::new().unwrap();
    let fin = nar.finish().unwrap();
    assert_eq!(fin.nar_size, 0);
    assert_eq!(fin.nar_hash, Sha256::digest([]).to_vec());
    assert_eq!(decompress(&fin.tail).unwrap(), Vec::<u8>::new());
}

#[test]
fn nar_url_is_content_addressed() {
    let url = nar_url(&[0u8; 32]);
    let mut expected = b"nar/".to_vec();
    expected.extend_from_slice(&[b'0'; 52]);
    expected.extend_from_slice(b".nar.zst");
    assert_eq!(url, expected);
}

fn sample_info() -> NarInfo {
    NarInfo {
        store_path: StorePath { digest: digest32('a'), name: "hello-2.12.1".to_string() },
        nar_hash: vec![0u8; 32],
        nar_size: 1234,
        file_hash: vec![0u8; 32],
        file_size: 567,
        references: vec![
            StorePath { digest: digest32('b'), name: "glibc-2.39".to_string() },
            StorePath { digest: digest32('c'), name: "libgcc-13".to_string() },
        ],
        signatures: vec!["me:c2lnbmF0dXJl".to_string()],
        url: nar_url(&[0u8; 32]),
    }
}

#[test]
fn narinfo_text_is_deterministic_key_value_lines() {
    let info = sample_info();
    let zeros = "0".repeat(52);
    let expected = format!(
        "StorePath: /nix/store/{a}-hello-2.12.1\n\
         URL: nar/{z}.nar.zst\n\
         Compression: zstd\n\
         FileHash: sha256:{z}\n\
         FileSize: 567\n\
         NarHash: sha256:{z}\n\
         NarSize: 1234\n\
         References: {b}-glibc-2.39 {c}-libgcc-13\n\
         Sig: me:c2lnbmF0dXJl\n",
        a = digest32('a'),
        b = digest32('b'),
        c = digest32('c'),
        z = zeros,
    );
    assert_eq!(String::from_utf8(info.to_text()).unwrap(), expected);
}

#[test]
fn fingerprint_is_the_signed_payload() {
    let info = sample_info();
    let zeros = "0".repeat(52);
    let expected = format!(
        "1;/nix/store/{a}-hello-2.12.1;sha256:{z};1234;/nix/store/{b}-glibc-2.39,/nix/store/{c}-libgcc-13",
        a = digest32('a'),
        b = digest32('b'),
        c = digest32('c'),
        z = zeros,
    );
    assert_eq!(String::from_utf8(info.fingerprint()).unwrap(), expected);
}

#[test]
fn signature_verifies_against_the_fingerprint() {
    // RFC 8032 test secret
    let secret: Vec<u8> = (0u8..32).collect();
    let key = NamedKey::new("test.example.org-1".to_string(), &secret).unwrap();
    let mut info = sample_info();
    info.signatures.clear();
    info.add_signature(&key);
    assert_eq!(info.signatures.len(), 1);
    let sig_text = &info.signatures[0];
    let (name, b64) = sig_text.split_once(':').unwrap();
    assert_eq!(name, "test.example.org-1");
    let raw = BASE64.decode(b64.as_bytes()).unwrap();
    assert_eq!(raw.len(), 64);
    // the signature must verify under the matching public key
    let mut buf = [0u8; 32];
    buf.copy_from_slice(&secret);
    let signing = ed25519_dalek::SigningKey::from_bytes(&buf);
    let verifying: VerifyingKey = signing.verifying_key();
    let mut sig_bytes = [0u8; 64];
    sig_bytes.copy_from_slice(&raw);
    let sig = Signature::from_bytes(&sig_bytes);
    verifying.verify(&info.fingerprint(), &sig).expect("signature must verify");
}

#[test]
fn signature_is_exactly_the_signature_of_the_fingerprint() {
    // the attached signature must be, byte for byte, the deterministic
    // signature of this record's fingerprint under the given key
    let secret: Vec<u8> = (7u8..39).collect();
    let key = NamedKey::new("signer".to_string(), &secret).unwrap();
    let mut info = sample_info();
    info.signatures.clear();
    info.add_signature(&key);
    let mut buf = [0u8; 32];
    buf.copy_from_slice(&secret);
    let signing = ed25519_dalek::SigningKey::from_bytes(&buf);
    let expected_raw = signing.sign(&info.fingerprint()).to_bytes();
    let expected = format!("signer:{}", BASE64.encode(&expected_raw));
    assert_eq!(info.signatures, vec![expected]);
}

#[test]
fn key_of_wrong_size_is_rejected() {
    assert!(NamedKey::new("x".to_string(), &vec![0u8; 31]).is_none());
    assert!(NamedKey::new("x".to_string(), &vec![0u8; 33]).is_none());
    assert!(NamedKey::new("x".to_string(), &vec![0u8; 32]).is_some());
}

#[test]
fn metadata_comes_after_hashing_and_carries_one_signature() {
    let secret: Vec<u8> = (0u8..32).collect();
    let key = NamedKey::new("signer".to_string(), &secret).unwrap();
    let path = PathInfo {
        path: StorePath { digest: digest32('a'), name: "pkg".to_string() },
        signatures: Vec::new(),
        references: Vec::new(),
        nar_size: 11,
    };
    let data = payload(10_000);
    let mut nar = MakeNar::new().unwrap();
    let mut emitted = nar.compress_and_hash(&data).unwrap();
    let fin = nar.finish().unwrap();
    emitted.extend_from_slice(&fin.tail);
    let uploader = Uploader::new(&key, path);
    let (info, text) = uploader.make_metadata(&fin);
    assert_eq!(info.signatures.len(), 1);
    assert_eq!(info.nar_hash, Sha256::digest(&data).to_vec());
    assert_eq!(info.file_hash, Sha256::digest(&emitted).to_vec());
    assert_eq!(info.file_size as usize, emitted.len());
    let text_s = String::from_utf8(text).unwrap();
    assert!(text_s.starts_with(&format!("StorePath: /nix/store/{}-pkg\n", digest32('a'))));
    assert!(text_s.ends_with(&format!("Sig: {}\n", info.signatures[0])));
    // the artifact key is named by the compressed digest
    assert_eq!(info.url, nar_url(&info.file_hash));
}
