use vstd::prelude::*;

use crate::store_path::StorePath;

verus! {

pub open spec fn is_ascii_digit(c: char) -> bool {
    '0' <= c && c <= '9'
}

/// Number of digits at the end of `s`.
pub open spec fn trailing_digits(s: Seq<char>) -> nat
    decreases s.len(),
{
    if s.len() == 0 {
        0
    } else if !is_ascii_digit(s.last()) {
        0
    } else {
        1 + trailing_digits(s.drop_last())
    }
}

/// Whether `s` ends in "-<digits>" with at least one digit.
pub open spec fn has_version_suffix(s: Seq<char>) -> bool {
    &&& trailing_digits(s) >= 1
    &&& trailing_digits(s) + 1 <= s.len()
    &&& s[s.len() - trailing_digits(s) - 1] == '-'
}

/// Normalization of a signer name: caches commonly version their signer
/// name with a "-<digits>" suffix; stripping removes exactly that suffix
/// and nothing else.
pub open spec fn strip_version_suffix_spec(s: Seq<char>) -> Seq<char> {
    if has_version_suffix(s) {
        s.take(s.len() - trailing_digits(s) - 1)
    } else {
        s
    }
}

/// The `k` digits at the end of `s`, bounded on the left by a non-digit
/// or the start of the string, are exactly what `trailing_digits` counts.
proof fn lemma_trailing_digits(s: Seq<char>, k: nat)
    requires
        k <= s.len(),
        forall|j: int| s.len() - k <= j < s.len() ==> is_ascii_digit(#[trigger] s[j]),
        k < s.len() ==> !is_ascii_digit(s[s.len() - k - 1]),
    ensures
        trailing_digits(s) == k,
    decreases k,
{
    if k == 0 {
    } else {
        assert(is_ascii_digit(s.last()));
        lemma_trailing_digits(s.drop_last(), (k - 1) as nat);
    }
}

/// A name without a version suffix is left unchanged, and a name with one
/// loses exactly its trailing "-<digits>": the input is the stripped name,
/// a dash, and a non-empty run of digits.
pub proof fn lemma_strip_removes_only_version_suffix(s: Seq<char>)
    ensures
        !has_version_suffix(s) ==> strip_version_suffix_spec(s) == s,
        has_version_suffix(s) ==> {
            let t = strip_version_suffix_spec(s);
            let k = trailing_digits(s);
            &&& s =~= t + seq!['-'] + s.skip(s.len() - k)
            &&& k >= 1
            &&& forall|j: int| s.len() - k <= j < s.len() ==> is_ascii_digit(#[trigger] s[j])
        },
{
    lemma_trailing_digits_are_digits(s);
}

/// Every position counted by `trailing_digits` holds a digit.
proof fn lemma_trailing_digits_are_digits(s: Seq<char>)
    ensures
        trailing_digits(s) <= s.len(),
        forall|j: int| s.len() - trailing_digits(s) <= j < s.len() ==> is_ascii_digit(#[trigger] s[j]),
    decreases s.len(),
{
    if s.len() == 0 || !is_ascii_digit(s.last()) {
    } else {
        lemma_trailing_digits_are_digits(s.drop_last());
        assert(forall|j: int|
            0 <= j < s.len() - 1 ==> #[trigger] s[j] == s.drop_last()[j]);
    }
}

/// Normalization is idempotent on every name whose stripped form does not
/// itself end in another version suffix.
pub proof fn lemma_strip_idempotent(s: Seq<char>)
    requires
        !has_version_suffix(strip_version_suffix_spec(s)),
    ensures
        strip_version_suffix_spec(strip_version_suffix_spec(s)) == strip_version_suffix_spec(s),
{
}

pub fn is_ascii_digit_exec(c: char) -> (r: bool)
    ensures
        r == is_ascii_digit(c),
{
    '0' <= c && c <= '9'
}

/// Strip a trailing "-<digits>" suffix from a signer name, if present.
pub fn strip_version_suffix(s: &str) -> (r: String)
    ensures
        r@ == strip_version_suffix_spec(s@),
{
    let n = s.unicode_len();
    let mut k: usize = 0;
    while k < n && is_ascii_digit_exec(s.get_char(n - 1 - k))
        invariant
            k <= n,
            n == s@.len(),
            forall|j: int| n - k <= j < n ==> is_ascii_digit(#[trigger] s@[j]),
        decreases n - k,
    {
        k = k + 1;
    }
    proof {
        lemma_trailing_digits(s@, k as nat);
    }
    if 1 <= k && k < n && s.get_char(n - k - 1) == '-' {
        let r = s.substring_char(0, n - k - 1).to_owned();
        r
    } else {
        s.to_owned()
    }
}

/// `i` is the position of the first colon in `s`.
pub open spec fn colon_at(s: Seq<char>, i: int) -> bool {
    &&& 0 <= i < s.len()
    &&& s[i] == ':'
    &&& forall|j: int| 0 <= j < i ==> s[j] != ':'
}

proof fn lemma_colon_at_unique(s: Seq<char>, i: int, j: int)
    requires
        colon_at(s, i),
        colon_at(s, j),
    ensures
        i == j,
{
    if i < j {
        assert(s[i] != ':');
    } else if j < i {
        assert(s[j] != ':');
    }
}

/// The signer name of a signature string "name:payload": the part before
/// the first colon, or nothing when there is no colon.
pub open spec fn signer_of(s: Seq<char>) -> Option<Seq<char>> {
    if exists|i: int| colon_at(s, i) {
        Some(s.take(choose|i: int| colon_at(s, i)))
    } else {
        None
    }
}

/// Whether the list `hosts` holds the name `h`.
pub open spec fn host_list_contains(hosts: Seq<String>, h: Seq<char>) -> bool {
    exists|k: int| 0 <= k < hosts.len() && #[trigger] hosts[k]@ == h
}

/// Whether one signature's normalized signer name is a trusted host.
pub open spec fn signature_matches(sig: Seq<char>, hosts: Seq<String>) -> bool {
    match signer_of(sig) {
        Some(name) => host_list_contains(hosts, strip_version_suffix_spec(name)),
        None => false,
    }
}

/// The signer name of one signature: the text before the first colon.
pub fn signer_name(sig: &str) -> (r: Option<String>)
    ensures
        r is Some <==> signer_of(sig@) is Some,
        r matches Some(name) ==> signer_of(sig@) == Some(name@),
{
    let n = sig.unicode_len();
    let mut i: usize = 0;
    while i < n
        invariant
            i <= n,
            n == sig@.len(),
            forall|j: int| 0 <= j < i ==> sig@[j] != ':',
        decreases n - i,
    {
        if sig.get_char(i) == ':' {
            let name = sig.substring_char(0, i).to_owned();
            proof {
                assert(colon_at(sig@, i as int));
                let w = choose|k: int| colon_at(sig@, k);
                lemma_colon_at_unique(sig@, i as int, w);
            }
            return Some(name);
        }
        i = i + 1;
    }
    proof {
        assert(forall|k: int| !colon_at(sig@, k));
    }
    None
}

/// One artifact: its store path, the signatures it already carries, the
/// store paths it references, and its uncompressed archive size.
pub struct PathInfo {
    pub path: StorePath,
    pub signatures: Vec<String>,
    pub references: Vec<StorePath>,
    pub nar_size: u64,
}

impl PathInfo {
    pub open spec fn wf(self) -> bool {
        &&& self.path.wf()
        &&& forall|i: int| 0 <= i < self.references@.len() ==> (#[trigger] self.references@[i]).wf()
    }

    pub fn clone(&self) -> (r: Self)
        ensures
            r.path == self.path,
            r.signatures@ == self.signatures@,
            r.references@ == self.references@,
            r.nar_size == self.nar_size,
    {
        let mut references: Vec<StorePath> = Vec::new();
        let mut i: usize = 0;
        while i < self.references.len()
            invariant
                i <= self.references@.len(),
                references@ =~= self.references@.take(i as int),
            decreases self.references@.len() - i,
        {
            references.push(self.references[i].clone());
            i = i + 1;
        }
        proof {
            assert(references@ =~= self.references@);
        }
        let mut signatures: Vec<String> = Vec::new();
        let mut i: usize = 0;
        while i < self.signatures.len()
            invariant
                i <= self.signatures@.len(),
                signatures@ =~= self.signatures@.take(i as int),
            decreases self.signatures@.len() - i,
        {
            signatures.push(self.signatures[i].clone());
            i = i + 1;
        }
        proof {
            assert(signatures@ =~= self.signatures@);
        }
        PathInfo { path: self.path.clone(), signatures, references, nar_size: self.nar_size }
    }

    /// The absolute filesystem location of this path.
    pub fn absolute_path(&self) -> (r: String)
        ensures
            r@ == self.path.spec_absolute_path(),
    {
        self.path.to_absolute_path()
    }

    /// The object-store key of this path's metadata record:
    /// "<digest>.narinfo".
    pub fn narinfo_path(&self) -> (r: String)
        ensures
            r@ == self.path.digest@ + ".narinfo"@,
    {
        let mut r = self.path.digest.clone();
        r.append(".narinfo");
        r
    }

    /// Whether any of this path's signatures was made by a trusted
    /// upstream: the signer name, normalized by stripping a version
    /// suffix, equals one of the upstream host names. A hit lets the
    /// push skip the path without any network probe.
    pub fn check_upstream_signature(&self, upstream_hosts: &Vec<String>) -> (r: bool)
        ensures
            r == exists|i: int|
                0 <= i < self.signatures@.len() && signature_matches(
                    (#[trigger] self.signatures@[i])@,
                    upstream_hosts@,
                ),
    {
        let mut i: usize = 0;
        while i < self.signatures.len()
            invariant
                i <= self.signatures@.len(),
                forall|j: int|
                    0 <= j < i ==> !signature_matches(
                        (#[trigger] self.signatures@[j])@,
                        upstream_hosts@,
                    ),
            decreases self.signatures@.len() - i,
        {
            if let Some(name) = signer_name(self.signatures[i].as_str()) {
                let stripped = strip_version_suffix(name.as_str());
                let mut k: usize = 0;
                let ghost sig_view = self.signatures@[i as int]@;
                while k < upstream_hosts.len()
                    invariant
                        k <= upstream_hosts@.len(),
                        0 <= i < self.signatures@.len(),
                        sig_view == (self.signatures@[i as int])@,
                        signer_of(sig_view) == Some(name@),
                        stripped@ == strip_version_suffix_spec(name@),
                        forall|m: int| 0 <= m < k ==> (#[trigger] upstream_hosts@[m])@ != stripped@,
                    decreases upstream_hosts@.len() - k,
                {
                    if upstream_hosts[k].eq(&stripped) {
                        proof {
                            assert(host_list_contains(upstream_hosts@, stripped@));
                            assert(0 <= i < self.signatures@.len() && signature_matches(
                                (self.signatures@[i as int])@,
                                upstream_hosts@,
                            ));
                        }
                        return true;
                    }
                    k = k + 1;
                }
                proof {
                    assert(!host_list_contains(upstream_hosts@, stripped@));
                }
            }
            i = i + 1;
        }
        false
    }
}

} // verus!
