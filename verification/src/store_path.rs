use vstd::prelude::*;

verus! {

/// Character set of the digest part of a store path: a base32-like
/// alphabet of the ten digits and the lower-case letters except
/// e, o, t and u.
pub open spec fn is_digest_char(c: char) -> bool {
    ('0' <= c && c <= '9') || ('a' <= c && c <= 'z' && c != 'e' && c != 'o' && c != 't' && c != 'u')
}

/// Characters allowed in the name part of a store path.
pub open spec fn is_name_char(c: char) -> bool {
    ('0' <= c && c <= '9') || ('a' <= c && c <= 'z') || ('A' <= c && c <= 'Z') || c == '+'
        || c == '-' || c == '.' || c == '_' || c == '?' || c == '='
}

/// The directory every store path lives under.
pub open spec fn store_dir_chars() -> Seq<char> {
    "/nix/store/"@
}

/// A base name is "<32-character digest>-<name>", with a non-empty name.
pub open spec fn is_valid_base_name(s: Seq<char>) -> bool {
    &&& s.len() >= 34
    &&& forall|i: int| 0 <= i < 32 ==> is_digest_char(#[trigger] s[i])
    &&& s[32] == '-'
    &&& forall|i: int| 33 <= i < s.len() ==> is_name_char(#[trigger] s[i])
}

/// An absolute store path is the store directory followed by a base name.
pub open spec fn is_valid_absolute_path(s: Seq<char>) -> bool {
    s.len() >= 11 && s.take(11) == store_dir_chars() && is_valid_base_name(s.skip(11))
}

#[derive(Debug)]
pub enum StorePathError {
    Invalid,
}

/// One store path, split into the digest that identifies its content
/// and the human-readable name.
pub struct StorePath {
    pub digest: String,
    pub name: String,
}

impl StorePath {
    /// Well-formedness: digest of exactly 32 characters of the digest
    /// alphabet, and a non-empty name of name characters.
    pub open spec fn wf(self) -> bool {
        &&& self.digest@.len() == 32
        &&& forall|i: int| 0 <= i < 32 ==> is_digest_char(#[trigger] self.digest@[i])
        &&& self.name@.len() >= 1
        &&& forall|i: int| 0 <= i < self.name@.len() ==> is_name_char(#[trigger] self.name@[i])
    }

    /// "<digest>-<name>"
    pub open spec fn spec_base_name(self) -> Seq<char> {
        self.digest@ + seq!['-'] + self.name@
    }

    /// "/nix/store/<digest>-<name>"
    pub open spec fn spec_absolute_path(self) -> Seq<char> {
        store_dir_chars() + self.spec_base_name()
    }

    pub fn clone(&self) -> (r: Self)
        ensures
            r == *self,
    {
        StorePath { digest: self.digest.clone(), name: self.name.clone() }
    }

    pub fn base_name(&self) -> (r: String)
        ensures
            r@ == self.spec_base_name(),
    {
        let mut r = self.digest.clone();
        r.append("-");
        r.append(self.name.as_str());
        proof {
            reveal_strlit("-");
            assert(r@ =~= self.spec_base_name());
        }
        r
    }

    pub fn to_absolute_path(&self) -> (r: String)
        ensures
            r@ == self.spec_absolute_path(),
    {
        let mut r = String::new();
        r.append("/nix/store/");
        r.append(self.digest.as_str());
        r.append("-");
        r.append(self.name.as_str());
        proof {
            reveal_strlit("/nix/store/");
            reveal_strlit("-");
            assert(r@ =~= self.spec_absolute_path());
        }
        r
    }

    /// Parse "<digest>-<name>". Returns the parsed path exactly when the
    /// text is a well-formed base name.
    pub fn parse_base_name(s: &str) -> (r: Result<StorePath, StorePathError>)
        ensures
            r is Ok <==> is_valid_base_name(s@),
            r matches Ok(sp) ==> sp.wf() && sp.spec_base_name() == s@,
    {
        let n = s.unicode_len();
        if n < 34 {
            return Err(StorePathError::Invalid);
        }
        let mut i: usize = 0;
        while i < 32
            invariant
                i <= 32,
                n == s@.len(),
                n >= 34,
                forall|j: int| 0 <= j < i ==> is_digest_char(#[trigger] s@[j]),
            decreases 32 - i,
        {
            if !is_digest_char_exec(s.get_char(i)) {
                return Err(StorePathError::Invalid);
            }
            i = i + 1;
        }
        if s.get_char(32) != '-' {
            return Err(StorePathError::Invalid);
        }
        let mut i: usize = 33;
        while i < n
            invariant
                33 <= i <= n,
                n == s@.len(),
                forall|j: int| 33 <= j < i ==> is_name_char(#[trigger] s@[j]),
            decreases n - i,
        {
            if !is_name_char_exec(s.get_char(i)) {
                return Err(StorePathError::Invalid);
            }
            i = i + 1;
        }
        let digest = s.substring_char(0, 32).to_owned();
        let name = s.substring_char(33, n).to_owned();
        let sp = StorePath { digest, name };
        proof {
            assert(sp.spec_base_name() =~= s@);
        }
        Ok(sp)
    }

    /// Parse "/nix/store/<digest>-<name>". Returns the parsed path exactly
    /// when the text is a well-formed absolute store path.
    pub fn from_absolute_path(s: &str) -> (r: Result<StorePath, StorePathError>)
        ensures
            r is Ok <==> is_valid_absolute_path(s@),
            r matches Ok(sp) ==> sp.wf() && sp.spec_absolute_path() == s@,
    {
        let n = s.unicode_len();
        let prefix = "/nix/store/";
        proof {
            reveal_strlit("/nix/store/");
        }
        if n < 11 {
            return Err(StorePathError::Invalid);
        }
        let mut i: usize = 0;
        while i < 11
            invariant
                i <= 11,
                n == s@.len(),
                n >= 11,
                prefix@ == store_dir_chars(),
                prefix@.len() == 11,
                forall|j: int| 0 <= j < i ==> s@[j] == #[trigger] prefix@[j],
            decreases 11 - i,
        {
            if s.get_char(i) != prefix.get_char(i) {
                proof {
                    assert(s@[i as int] != store_dir_chars()[i as int]);
                    assert(!is_valid_absolute_path(s@)) by {
                        if is_valid_absolute_path(s@) {
                            assert(s@.take(11)[i as int] == s@[i as int]);
                        }
                    }
                }
                return Err(StorePathError::Invalid);
            }
            i = i + 1;
        }
        let rest = s.substring_char(11, n);
        proof {
            assert(s@.take(11) =~= store_dir_chars());
            assert(rest@ == s@.skip(11));
        }
        let r = Self::parse_base_name(rest);
        proof {
            if r is Ok {
                assert(r->Ok_0.spec_absolute_path() =~= s@);
            }
        }
        r
    }
}

pub fn is_digest_char_exec(c: char) -> (r: bool)
    ensures
        r == is_digest_char(c),
{
    ('0' <= c && c <= '9') || ('a' <= c && c <= 'z' && c != 'e' && c != 'o' && c != 't' && c != 'u')
}

pub fn is_name_char_exec(c: char) -> (r: bool)
    ensures
        r == is_name_char(c),
{
    ('0' <= c && c <= '9') || ('a' <= c && c <= 'z') || ('A' <= c && c <= 'Z') || c == '+'
        || c == '-' || c == '.' || c == '_' || c == '?' || c == '='
}

} // verus!
