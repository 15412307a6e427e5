use vstd::prelude::*;

use crate::narinfo::ascii_bytes;
use vstd::arithmetic::power2::{lemma2_to64, pow2};

verus! {

broadcast use vstd::string::is_ascii_spec_bytes;

/// One node of a filesystem subtree, as the canonical archive sees it:
/// a regular file with its executable bit, a symbolic link, or a
/// directory of named children.
pub enum Node {
    File { executable: bool, contents: Vec<u8> },
    Symlink { target: Vec<u8> },
    Directory { entries: Vec<DirEntry> },
}

pub struct DirEntry {
    pub name: Vec<u8>,
    pub node: Node,
}

/// `a` comes strictly before `b` in byte order.
pub open spec fn name_lt(a: Seq<u8>, b: Seq<u8>) -> bool
    decreases a.len(),
{
    if b.len() == 0 {
        false
    } else if a.len() == 0 {
        true
    } else if a[0] != b[0] {
        a[0] < b[0]
    } else {
        name_lt(a.skip(1), b.skip(1))
    }
}

impl Node {
    /// Canonical trees list directory entries in strictly increasing
    /// name order, so one subtree has exactly one archive.
    pub open spec fn canonical(self) -> bool
        decreases self,
    {
        match self {
            Node::File { .. } => true,
            Node::Symlink { .. } => true,
            Node::Directory { entries } => {
                &&& forall|i: int, j: int|
                    0 <= i < j < entries@.len() ==> name_lt(
                        (#[trigger] entries@[i]).name@,
                        (#[trigger] entries@[j]).name@,
                    )
                &&& forall|i: int|
                    0 <= i < entries@.len() ==> (#[trigger] entries@[i]).node.canonical()
            },
        }
    }
}

/// The length of a field padded to the next multiple of eight.
pub open spec fn pad_len(n: nat) -> nat {
    ((n + 7) / 8) * 8
}

/// A 64-bit little-endian length.
pub open spec fn le64(n: u64) -> Seq<u8> {
    Seq::new(8, |i: int| ((n as nat / pow2((8 * i) as nat)) % 256) as u8)
}

/// A length-prefixed field, zero-padded to a multiple of eight bytes.
pub open spec fn nar_str(s: Seq<u8>) -> Seq<u8> {
    le64(s.len() as u64) + s + Seq::new((pad_len(s.len()) - s.len()) as nat, |i: int| 0u8)
}

/// A keyword field.
pub open spec fn tok(s: Seq<char>) -> Seq<u8> {
    nar_str(ascii_bytes(s))
}

/// The canonical serialization of one node: a parenthesized field list
/// giving its type, then its contents, target, or entries — each entry
/// a parenthesized name and node.
pub open spec fn nar_node(n: Node) -> Seq<u8>
    decreases n,
{
    match n {
        Node::File { executable, contents } => tok("("@) + tok("type"@) + tok("regular"@) + (
        if executable {
            tok("executable"@) + tok(""@)
        } else {
            Seq::<u8>::empty()
        }) + tok("contents"@) + nar_str(contents@) + tok(")"@),
        Node::Symlink { target } => tok("("@) + tok("type"@) + tok("symlink"@) + tok("target"@)
            + nar_str(target@) + tok(")"@),
        Node::Directory { entries } => tok("("@) + tok("type"@) + tok("directory"@) + nar_entries(
            entries@,
        ) + tok(")"@),
    }
}

/// The serialization of a run of directory entries, in order.
pub open spec fn nar_entries(es: Seq<DirEntry>) -> Seq<u8>
    decreases es,
{
    if es.len() == 0 {
        Seq::empty()
    } else {
        tok("entry"@) + tok("("@) + tok("name"@) + nar_str(es[0].name@) + tok("node"@) + nar_node(
            es[0].node,
        ) + tok(")"@) + nar_entries(es.skip(1))
    }
}

/// The canonical archive of a whole subtree: the format tag, then the
/// root node.
pub open spec fn nar_spec(root: Node) -> Seq<u8> {
    tok("nix-archive-1"@) + nar_node(root)
}

/// Append the eight little-endian bytes of `n`.
fn push_le64(out: &mut Vec<u8>, n: u64)
    ensures
        final(out)@ == old(out)@ + le64(n),
{
    proof {
        lemma2_to64();
        vstd::arithmetic::power2::lemma2_to64_rest();
    }
    out.push((n % 256) as u8);
    out.push(((n / 256) % 256) as u8);
    out.push(((n / 65536) % 256) as u8);
    out.push(((n / 16777216) % 256) as u8);
    out.push(((n / 4294967296) % 256) as u8);
    out.push(((n / 1099511627776) % 256) as u8);
    out.push(((n / 281474976710656) % 256) as u8);
    out.push(((n / 72057594037927936) % 256) as u8);
    proof {
        assert(le64(n).len() == 8);
        assert(le64(n)[0] == ((n as nat / pow2(0)) % 256) as u8);
        assert(pow2(0) == 1 && pow2(8) == 256 && pow2(16) == 65536 && pow2(24) == 16777216);
        assert(pow2(32) == 4294967296 && pow2(40) == 1099511627776);
        assert(pow2(48) == 281474976710656 && pow2(56) == 72057594037927936);
        assert(out@ =~= old(out)@ + le64(n));
    }
}

/// Append one length-prefixed, padded field.
fn push_nar_str(out: &mut Vec<u8>, s: &[u8])
    ensures
        final(out)@ == old(out)@ + nar_str(s@),
{
    push_le64(out, s.len() as u64);
    out.extend_from_slice(s);
    let pad = (8 - (s.len() % 8)) % 8;
    let mut i: usize = 0;
    let ghost base = out@;
    while i < pad
        invariant
            i <= pad,
            out@ =~= base + Seq::new(i as nat, |k: int| 0u8),
        decreases pad - i,
    {
        out.push(0);
        proof {
            assert(out@ =~= base + Seq::new((i + 1) as nat, |k: int| 0u8));
        }
        i = i + 1;
    }
    proof {
        assert(pad == pad_len(s@.len()) - s@.len());
        assert(out@ =~= old(out)@ + nar_str(s@));
    }
}

/// Append one keyword field.
fn push_tok(out: &mut Vec<u8>, s: &str)
    requires
        vstd::string::is_ascii(s),
    ensures
        final(out)@ == old(out)@ + tok(s@),
{
    let b = s.as_bytes();
    proof {
        assert(b@ =~= ascii_bytes(s@));
    }
    push_nar_str(out, b);
}

/// Append the canonical serialization of one node.
pub fn serialize_node(out: &mut Vec<u8>, n: &Node)
    requires
        n.canonical(),
    ensures
        final(out)@ == old(out)@ + nar_node(*n),
    decreases *n,
{
    proof {
        reveal_strlit("(");
        reveal_strlit(")");
        reveal_strlit("type");
        reveal_strlit("regular");
        reveal_strlit("executable");
        reveal_strlit("");
        reveal_strlit("contents");
        reveal_strlit("symlink");
        reveal_strlit("target");
        reveal_strlit("directory");
    }
    push_tok(out, "(");
    push_tok(out, "type");
    match n {
        Node::File { executable, contents } => {
            push_tok(out, "regular");
            if *executable {
                push_tok(out, "executable");
                push_tok(out, "");
            }
            push_tok(out, "contents");
            push_nar_str(out, contents.as_slice());
        },
        Node::Symlink { target } => {
            push_tok(out, "symlink");
            push_tok(out, "target");
            push_nar_str(out, target.as_slice());
        },
        Node::Directory { entries } => {
            push_tok(out, "directory");
            proof {
                assert(entries@.skip(0) =~= entries@);
            }
            serialize_entries(out, entries, 0);
        },
    }
    push_tok(out, ")");
    proof {
        assert(out@ =~= old(out)@ + nar_node(*n));
    }
}

/// Append the serialization of the directory entries from `from` on.
fn serialize_entries(out: &mut Vec<u8>, entries: &Vec<DirEntry>, from: usize)
    requires
        from <= entries@.len(),
        forall|i: int| 0 <= i < entries@.len() ==> (#[trigger] entries@[i]).node.canonical(),
    ensures
        final(out)@ == old(out)@ + nar_entries(entries@.skip(from as int)),
    decreases entries@.skip(from as int),
{
    let ghost rest = entries@.skip(from as int);
    if from < entries.len() {
        proof {
            reveal_strlit("entry");
            reveal_strlit("(");
            reveal_strlit(")");
            reveal_strlit("name");
            reveal_strlit("node");
            assert(rest[0] == entries@[from as int]);
        }
        push_tok(out, "entry");
        push_tok(out, "(");
        push_tok(out, "name");
        push_nar_str(out, entries[from].name.as_slice());
        push_tok(out, "node");
        serialize_node(out, &entries[from].node);
        push_tok(out, ")");
        proof {
            assert(rest.skip(1) =~= entries@.skip(from + 1));
        }
        serialize_entries(out, entries, from + 1);
        proof {
            assert(out@ =~= old(out)@ + nar_entries(rest));
        }
    } else {
        proof {
            assert(rest.len() == 0);
            assert(out@ =~= old(out)@ + nar_entries(rest));
        }
    }
}

/// Serialize a whole subtree into its canonical archive.
pub fn pack(root: &Node) -> (r: Vec<u8>)
    requires
        root.canonical(),
    ensures
        r@ == nar_spec(*root),
{
    let mut out: Vec<u8> = Vec::new();
    proof {
        reveal_strlit("nix-archive-1");
    }
    push_tok(&mut out, "nix-archive-1");
    serialize_node(&mut out, root);
    proof {
        assert(out@ =~= nar_spec(*root));
    }
    out
}

} // verus!
