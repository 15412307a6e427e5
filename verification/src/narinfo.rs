use vstd::prelude::*;

use crate::encoding::{
    ascii_to_string, base64_encode, base64_of, decimal_u64, lemma_base64_is_ascii, nixbase32_encode,
    nixbase32_of, spec_decimal,
};
use crate::path_info::PathInfo;
use crate::sign::{ed25519_sign_of, sign_detached, signature_text, NamedKey};
use crate::store_path::{store_dir_chars, StorePath};
use vstd::string::is_ascii_spec_bytes;

verus! {

broadcast use vstd::string::is_ascii_spec_bytes;

/// The bytes of an ASCII character sequence, one per character.
pub open spec fn ascii_bytes(s: Seq<char>) -> Seq<u8> {
    s.map_values(|c: char| c as u8)
}

/// Append the bytes of an ASCII string.
pub fn push_str_ascii(out: &mut Vec<u8>, s: &str)
    requires
        vstd::string::is_ascii(s),
    ensures
        final(out)@ == old(out)@ + ascii_bytes(s@),
{
    proof {
        is_ascii_spec_bytes(s);
    }
    let b = s.as_bytes();
    out.extend_from_slice(b);
    proof {
        assert(out@ =~= old(out)@ + ascii_bytes(s@));
    }
}

/// Append a decimal rendering.
pub fn push_decimal(out: &mut Vec<u8>, n: u64)
    ensures
        final(out)@ == old(out)@ + spec_decimal(n as nat),
{
    let d = decimal_u64(n);
    out.extend_from_slice(d.as_slice());
    proof {
        assert(out@ =~= old(out)@ + spec_decimal(n as nat));
    }
}

/// The absolute reference paths, joined with commas — the exact shape
/// the signed payload carries them in.
pub open spec fn joined_abs_refs(refs: Seq<StorePath>) -> Seq<u8>
    decreases refs.len(),
{
    if refs.len() == 0 {
        Seq::empty()
    } else if refs.len() == 1 {
        ascii_bytes(refs[0].spec_absolute_path())
    } else {
        ascii_bytes(refs[0].spec_absolute_path()) + seq![44u8] + joined_abs_refs(refs.skip(1))
    }
}

/// The reference base names, joined with spaces — the shape the metadata
/// text carries them in.
pub open spec fn joined_base_refs(refs: Seq<StorePath>) -> Seq<u8>
    decreases refs.len(),
{
    if refs.len() == 0 {
        Seq::empty()
    } else if refs.len() == 1 {
        ascii_bytes(refs[0].spec_base_name())
    } else {
        ascii_bytes(refs[0].spec_base_name()) + seq![32u8] + joined_base_refs(refs.skip(1))
    }
}

/// A well-formed store path is ASCII, both as a base name and as an
/// absolute path.
pub proof fn lemma_store_path_ascii(p: StorePath)
    requires
        p.wf(),
    ensures
        vstd::utf8::is_ascii_chars(p.spec_base_name()),
        vstd::utf8::is_ascii_chars(p.spec_absolute_path()),
{
    reveal_strlit("/nix/store/");
    assert forall|i: int|
        0 <= i < p.spec_absolute_path().len() implies '\0' <= #[trigger] p.spec_absolute_path()[i]
        <= '\u{7f}' by {
        let s = p.spec_absolute_path();
        if i < 11 {
            assert(s[i] == store_dir_chars()[i]);
        } else if i < 43 {
            assert(s[i] == p.digest@[i - 11]);
        } else if i == 43 {
            assert(s[i] == '-');
        } else {
            assert(s[i] == p.name@[i - 44]);
        }
    }
    assert forall|i: int|
        0 <= i < p.spec_base_name().len() implies '\0' <= #[trigger] p.spec_base_name()[i]
        <= '\u{7f}' by {
        let s = p.spec_base_name();
        if i < 32 {
            assert(s[i] == p.digest@[i]);
        } else if i == 32 {
            assert(s[i] == '-');
        } else {
            assert(s[i] == p.name@[i - 33]);
        }
    }
}

/// Append the absolute path of a well-formed store path.
fn push_abs_path(out: &mut Vec<u8>, p: &StorePath)
    requires
        p.wf(),
    ensures
        final(out)@ == old(out)@ + ascii_bytes(p.spec_absolute_path()),
{
    let abs = p.to_absolute_path();
    let abs_s = abs.as_str();
    let b = abs_s.as_bytes();
    proof {
        lemma_store_path_ascii(*p);
        assert(vstd::string::is_ascii(abs_s));
        is_ascii_spec_bytes(abs_s);
    }
    out.extend_from_slice(b);
    proof {
        assert(out@ =~= old(out)@ + ascii_bytes(p.spec_absolute_path()));
    }
}

/// Append the base name of a well-formed store path.
fn push_base_name(out: &mut Vec<u8>, p: &StorePath)
    requires
        p.wf(),
    ensures
        final(out)@ == old(out)@ + ascii_bytes(p.spec_base_name()),
{
    let base = p.base_name();
    let base_s = base.as_str();
    let b = base_s.as_bytes();
    proof {
        lemma_store_path_ascii(*p);
        assert(vstd::string::is_ascii(base_s));
        is_ascii_spec_bytes(base_s);
    }
    out.extend_from_slice(b);
    proof {
        assert(out@ =~= old(out)@ + ascii_bytes(p.spec_base_name()));
    }
}

/// The canonical byte encoding that is signed: the version tag, the
/// absolute store path, the archive hash and size, and the ordered
/// references — bit for bit what verifiers rebuild.
pub open spec fn fingerprint_spec(
    path: StorePath,
    nar_hash: Seq<u8>,
    nar_size: u64,
    refs: Seq<StorePath>,
) -> Seq<u8> {
    ascii_bytes("1;"@) + ascii_bytes(path.spec_absolute_path()) + ascii_bytes(";sha256:"@)
        + nixbase32_of(nar_hash) + ascii_bytes(";"@) + spec_decimal(nar_size as nat) + ascii_bytes(
        ";"@,
    ) + joined_abs_refs(refs)
}

/// The object key a compressed archive lives under: its own digest names
/// it, so identical compressed content always lands at the same key.
pub open spec fn nar_url_spec(file_hash: Seq<u8>) -> Seq<u8> {
    ascii_bytes("nar/"@) + nixbase32_of(file_hash) + ascii_bytes(".nar.zst"@)
}

/// Compute the object key where a compressed archive with this digest
/// is stored.
pub fn nar_url(file_hash: &[u8]) -> (r: Vec<u8>)
    requires
        file_hash@.len() == 32,
    ensures
        r@ == nar_url_spec(file_hash@),
{
    let mut out: Vec<u8> = Vec::new();
    proof {
        reveal_strlit("nar/");
        reveal_strlit(".nar.zst");
    }
    push_str_ascii(&mut out, "nar/");
    let h = nixbase32_encode(file_hash);
    out.extend_from_slice(h.as_slice());
    push_str_ascii(&mut out, ".nar.zst");
    proof {
        assert(out@ =~= nar_url_spec(file_hash@));
    }
    out
}

/// The key is printable ASCII.
pub proof fn lemma_nar_url_ascii(file_hash: Seq<u8>)
    ensures
        forall|i: int| 0 <= i < nar_url_spec(file_hash).len() ==> #[trigger] nar_url_spec(
            file_hash,
        )[i] < 128,
{
    reveal_strlit("nar/");
    reveal_strlit(".nar.zst");
    crate::encoding::lemma_nixbase32_is_ascii(file_hash);
    assert forall|i: int| 0 <= i < nar_url_spec(file_hash).len() implies #[trigger] nar_url_spec(
        file_hash,
    )[i] < 128 by {
        let s = nar_url_spec(file_hash);
        let b32 = nixbase32_of(file_hash);
        if i < 4 {
            assert(s[i] == ascii_bytes("nar/"@)[i]);
        } else if i < 4 + b32.len() {
            assert(s[i] == b32[i - 4]);
        } else {
            assert(s[i] == ascii_bytes(".nar.zst"@)[i - 4 - b32.len()]);
        }
    }
}

/// Copy a byte vector.
pub fn copy_bytes(v: &Vec<u8>) -> (r: Vec<u8>)
    ensures
        r@ == v@,
{
    let mut r: Vec<u8> = Vec::new();
    r.extend_from_slice(v.as_slice());
    proof {
        assert(r@ =~= v@);
    }
    r
}

/// The signature lines terminating the metadata text, one per signature.
pub open spec fn sig_lines(sigs: Seq<String>) -> Seq<u8>
    decreases sigs.len(),
{
    if sigs.len() == 0 {
        Seq::empty()
    } else {
        ascii_bytes("Sig: "@) + vstd::utf8::encode_utf8(sigs[0]@) + seq![10u8] + sig_lines(
            sigs.skip(1),
        )
    }
}

/// The deterministic newline-delimited key:value text of a metadata
/// record, terminated by its signature lines.
pub open spec fn narinfo_text_spec(n: NarInfo) -> Seq<u8> {
    ascii_bytes("StorePath: "@) + ascii_bytes(n.store_path.spec_absolute_path()) + seq![10u8]
        + ascii_bytes("URL: "@) + n.url@ + seq![10u8] + ascii_bytes("Compression: zstd"@)
        + seq![10u8] + ascii_bytes("FileHash: sha256:"@) + nixbase32_of(n.file_hash@) + seq![10u8]
        + ascii_bytes("FileSize: "@) + spec_decimal(n.file_size as nat) + seq![10u8] + ascii_bytes(
        "NarHash: sha256:"@,
    ) + nixbase32_of(n.nar_hash@) + seq![10u8] + ascii_bytes("NarSize: "@) + spec_decimal(
        n.nar_size as nat,
    ) + seq![10u8] + ascii_bytes("References: "@) + joined_base_refs(n.references@) + seq![10u8]
        + sig_lines(n.signatures@)
}

/// The metadata record of one artifact: path, hashes, sizes, references,
/// signatures, and the object key its compressed archive lives under.
/// Built unsigned once hashing completes, signed once, then serialized.
pub struct NarInfo {
    pub store_path: StorePath,
    pub nar_hash: Vec<u8>,
    pub nar_size: u64,
    pub file_hash: Vec<u8>,
    pub file_size: u64,
    pub references: Vec<StorePath>,
    pub signatures: Vec<String>,
    /// Object key of the compressed archive, "nar/<digest>.nar.zst".
    pub url: Vec<u8>,
}

impl NarInfo {
    pub open spec fn wf(self) -> bool {
        &&& self.store_path.wf()
        &&& forall|i: int| 0 <= i < self.references@.len() ==> (#[trigger] self.references@[i]).wf()
        &&& self.nar_hash@.len() == 32
        &&& self.file_hash@.len() == 32
    }

    /// The signed payload of this record.
    pub open spec fn spec_fingerprint(self) -> Seq<u8> {
        fingerprint_spec(self.store_path, self.nar_hash@, self.nar_size, self.references@)
    }

    /// Compute the signed payload.
    pub fn fingerprint(&self) -> (r: Vec<u8>)
        requires
            self.wf(),
        ensures
            r@ == self.spec_fingerprint(),
    {
        let mut out: Vec<u8> = Vec::new();
        proof {
            reveal_strlit("1;");
            reveal_strlit(";sha256:");
            reveal_strlit(";");
        }
        push_str_ascii(&mut out, "1;");
        push_abs_path(&mut out, &self.store_path);
        push_str_ascii(&mut out, ";sha256:");
        let h = nixbase32_encode(self.nar_hash.as_slice());
        out.extend_from_slice(h.as_slice());
        push_str_ascii(&mut out, ";");
        push_decimal(&mut out, self.nar_size);
        push_str_ascii(&mut out, ";");
        let mut i: usize = 0;
        let ghost prefix = out@;
        proof {
            assert(self.references@.skip(0) =~= self.references@);
            assert(prefix + joined_abs_refs(self.references@) =~= out@ + joined_abs_refs(
                self.references@.skip(0),
            ));
        }
        while i < self.references.len()
            invariant
                i <= self.references@.len(),
                forall|j: int|
                    0 <= j < self.references@.len() ==> (#[trigger] self.references@[j]).wf(),
                prefix + joined_abs_refs(self.references@) == out@ + joined_abs_refs(
                    self.references@.skip(i as int),
                ),
            decreases self.references@.len() - i,
        {
            let ghost pre = out@;
            push_abs_path(&mut out, &self.references[i]);
            if i + 1 < self.references.len() {
                proof {
                    reveal_strlit(",");
                }
                push_str_ascii(&mut out, ",");
                proof {
                    assert(ascii_bytes(","@) =~= seq![44u8]);
                }
            }
            proof {
                let rest = self.references@.skip(i as int);
                assert(rest[0] == self.references@[i as int]);
                assert(rest.skip(1) =~= self.references@.skip(i + 1));
                if rest.len() == 1 {
                    assert(self.references@.skip(i + 1).len() == 0);
                }
                assert(prefix + joined_abs_refs(self.references@) =~= out@ + joined_abs_refs(
                    self.references@.skip(i + 1),
                ));
            }
            i = i + 1;
        }
        proof {
            assert(joined_abs_refs(self.references@.skip(self.references@.len() as int)).len()
                == 0);
            assert(out@ =~= prefix + joined_abs_refs(self.references@));
            assert(out@ =~= self.spec_fingerprint());
        }
        out
    }

    /// Assemble the unsigned record of one finished archive stream: the
    /// fields are exactly the descriptor's path and references and the
    /// stream's hashes and sizes, no signature yet, and the object key
    /// derived from the compressed digest.
    pub fn build(source: &PathInfo, fin: &crate::make_nar::FinishedNar) -> (r: NarInfo)
        requires
            source.wf(),
            fin.nar_hash@.len() == 32,
            fin.file_hash@.len() == 32,
        ensures
            r.wf(),
            r.store_path == source.path,
            r.nar_hash@ == fin.nar_hash@,
            r.nar_size == fin.nar_size,
            r.file_hash@ == fin.file_hash@,
            r.file_size == fin.file_size,
            r.references@ == source.references@,
            r.signatures@.len() == 0,
            r.url@ == nar_url_spec(fin.file_hash@),
    {
        let mut references: Vec<StorePath> = Vec::new();
        let mut i: usize = 0;
        while i < source.references.len()
            invariant
                i <= source.references@.len(),
                references@ =~= source.references@.take(i as int),
            decreases source.references@.len() - i,
        {
            references.push(source.references[i].clone());
            i = i + 1;
        }
        proof {
            assert(references@ =~= source.references@);
        }
        NarInfo {
            store_path: source.path.clone(),
            nar_hash: copy_bytes(&fin.nar_hash),
            nar_size: fin.nar_size,
            file_hash: copy_bytes(&fin.file_hash),
            file_size: fin.file_size,
            references,
            signatures: Vec::new(),
            url: nar_url(fin.file_hash.as_slice()),
        }
    }

    /// The object key of the compressed archive, as text.
    pub fn url_string(&self) -> (r: String)
        requires
            self.url@ == nar_url_spec(self.file_hash@),
        ensures
            r@ == self.url@.map_values(|b: u8| b as char),
    {
        proof {
            lemma_nar_url_ascii(self.file_hash@);
        }
        ascii_to_string(copy_bytes(&self.url))
    }

    /// Serialize the record to its metadata text.
    #[verifier::rlimit(30)]
    pub fn to_text(&self) -> (r: Vec<u8>)
        requires
            self.wf(),
        ensures
            r@ == narinfo_text_spec(*self),
    {
        let mut out: Vec<u8> = Vec::new();
        proof {
            reveal_strlit("StorePath: ");
            reveal_strlit("URL: ");
            reveal_strlit("Compression: zstd");
            reveal_strlit("FileHash: sha256:");
            reveal_strlit("FileSize: ");
            reveal_strlit("NarHash: sha256:");
            reveal_strlit("NarSize: ");
            reveal_strlit("References: ");
        }
        push_str_ascii(&mut out, "StorePath: ");
        push_abs_path(&mut out, &self.store_path);
        out.push(10);
        push_str_ascii(&mut out, "URL: ");
        out.extend_from_slice(self.url.as_slice());
        out.push(10);
        push_str_ascii(&mut out, "Compression: zstd");
        out.push(10);
        push_str_ascii(&mut out, "FileHash: sha256:");
        let fh = nixbase32_encode(self.file_hash.as_slice());
        out.extend_from_slice(fh.as_slice());
        out.push(10);
        push_str_ascii(&mut out, "FileSize: ");
        push_decimal(&mut out, self.file_size);
        out.push(10);
        push_str_ascii(&mut out, "NarHash: sha256:");
        let nh = nixbase32_encode(self.nar_hash.as_slice());
        out.extend_from_slice(nh.as_slice());
        out.push(10);
        push_str_ascii(&mut out, "NarSize: ");
        push_decimal(&mut out, self.nar_size);
        out.push(10);
        push_str_ascii(&mut out, "References: ");
        let ghost prefix = out@;
        let mut i: usize = 0;
        proof {
            assert(self.references@.skip(0) =~= self.references@);
            assert(prefix + joined_base_refs(self.references@) =~= out@ + joined_base_refs(
                self.references@.skip(0),
            ));
        }
        while i < self.references.len()
            invariant
                i <= self.references@.len(),
                forall|j: int|
                    0 <= j < self.references@.len() ==> (#[trigger] self.references@[j]).wf(),
                prefix + joined_base_refs(self.references@) == out@ + joined_base_refs(
                    self.references@.skip(i as int),
                ),
            decreases self.references@.len() - i,
        {
            push_base_name(&mut out, &self.references[i]);
            if i + 1 < self.references.len() {
                proof {
                    reveal_strlit(" ");
                }
                push_str_ascii(&mut out, " ");
                proof {
                    assert(ascii_bytes(" "@) =~= seq![32u8]);
                }
            }
            proof {
                let rest = self.references@.skip(i as int);
                assert(rest[0] == self.references@[i as int]);
                assert(rest.skip(1) =~= self.references@.skip(i + 1));
                if rest.len() == 1 {
                    assert(self.references@.skip(i + 1).len() == 0);
                }
                assert(prefix + joined_base_refs(self.references@) =~= out@ + joined_base_refs(
                    self.references@.skip(i + 1),
                ));
            }
            i = i + 1;
        }
        out.push(10);
        let ghost prefix2 = out@;
        let mut i: usize = 0;
        proof {
            assert(self.signatures@.skip(0) =~= self.signatures@);
            assert(prefix2 + sig_lines(self.signatures@) =~= out@ + sig_lines(
                self.signatures@.skip(0),
            ));
        }
        while i < self.signatures.len()
            invariant
                i <= self.signatures@.len(),
                prefix2 + sig_lines(self.signatures@) == out@ + sig_lines(
                    self.signatures@.skip(i as int),
                ),
            decreases self.signatures@.len() - i,
        {
            proof {
                reveal_strlit("Sig: ");
            }
            push_str_ascii(&mut out, "Sig: ");
            let sig_s = self.signatures[i].as_str();
            let b = sig_s.as_bytes();
            out.extend_from_slice(b);
            out.push(10);
            proof {
                let rest = self.signatures@.skip(i as int);
                assert(rest[0] == self.signatures@[i as int]);
                assert(rest.skip(1) =~= self.signatures@.skip(i + 1));
                assert(prefix2 + sig_lines(self.signatures@) =~= out@ + sig_lines(
                    self.signatures@.skip(i + 1),
                ));
            }
            i = i + 1;
        }
        proof {
            assert(sig_lines(self.signatures@.skip(self.signatures@.len() as int)).len() == 0);
            assert(out@ =~= narinfo_text_spec(*self));
        }
        out
    }

    /// Attach exactly one signature: the signer name, a colon, and the
    /// base64 rendering of the 64-byte signature computed with `key` over
    /// exactly this record's fingerprint. Nothing else changes.
    pub fn add_signature(&mut self, key: &NamedKey)
        requires
            old(self).wf(),
        ensures
            final(self).wf(),
            final(self).store_path == old(self).store_path,
            final(self).nar_hash == old(self).nar_hash,
            final(self).nar_size == old(self).nar_size,
            final(self).file_hash == old(self).file_hash,
            final(self).file_size == old(self).file_size,
            final(self).references == old(self).references,
            final(self).url == old(self).url,
            final(self).signatures@.len() == old(self).signatures@.len() + 1,
            forall|i: int|
                0 <= i < old(self).signatures@.len() ==> final(self).signatures@[i] == old(
                    self,
                ).signatures@[i],
            (final(self).signatures@.last())@ == signature_text(
                *key,
                old(self).spec_fingerprint(),
            ),
    {
        let fp = self.fingerprint();
        let raw = sign_detached(key, fp.as_slice());
        let b64 = base64_encode(raw.as_slice());
        proof {
            lemma_base64_is_ascii(raw@);
            assert(raw@ == ed25519_sign_of(key.secret@, self.spec_fingerprint()));
        }
        let b64s = ascii_to_string(b64);
        let mut sig = key.name.clone();
        sig.append(":");
        sig.append(b64s.as_str());
        proof {
            assert(sig@ =~= signature_text(*key, self.spec_fingerprint()));
        }
        self.signatures.push(sig);
    }
}

} // verus!
