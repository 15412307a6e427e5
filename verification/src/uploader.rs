use vstd::prelude::*;

use crate::make_nar::FinishedNar;
use crate::narinfo::{narinfo_text_spec, NarInfo};
use crate::path_info::PathInfo;
use crate::sign::NamedKey;

verus! {

/// Fixed size of one multipart chunk.
pub const CHUNK_SIZE: usize = 5 * 1024 * 1024;

/// Artifacts at or above this size go up in parts; smaller ones in one
/// atomic put.
pub const MULTIPART_THRESHOLD: u64 = 5 * 1024 * 1024;

/// How one artifact reaches the object store.
#[derive(PartialEq, Eq, Structural, Clone, Copy, Debug)]
pub enum UploadPlan {
    /// One atomic put.
    SinglePut,
    /// A multipart session of this many fixed-size parts.
    Multipart { parts: u64 },
}

/// Number of chunks a payload of `len` bytes splits into: one for each
/// started run of `CHUNK_SIZE` bytes.
pub open spec fn chunk_count(len: nat) -> nat {
    (len + 5242879) / 5242880
}

pub open spec fn plan_spec(size: u64) -> UploadPlan {
    if size < MULTIPART_THRESHOLD {
        UploadPlan::SinglePut
    } else {
        UploadPlan::Multipart { parts: chunk_count(size as nat) as u64 }
    }
}

/// Choose the upload shape for an artifact of the given size.
pub fn plan_upload(size: u64) -> (r: UploadPlan)
    ensures
        r == plan_spec(size),
{
    if size < MULTIPART_THRESHOLD {
        UploadPlan::SinglePut
    } else {
        let parts = (size - 1) / 5242880u64 + 1;
        UploadPlan::Multipart { parts }
    }
}

/// The size threshold law: an artifact below the threshold goes up in
/// one put; one at or above it goes up in parts, and one even a single
/// byte over the part size already needs at least two parts.
pub proof fn lemma_plan_threshold()
    ensures
        plan_spec((MULTIPART_THRESHOLD - 1) as u64) == UploadPlan::SinglePut,
        plan_spec(MULTIPART_THRESHOLD) == (UploadPlan::Multipart { parts: 1 }),
        plan_spec((MULTIPART_THRESHOLD + 1) as u64) == (UploadPlan::Multipart { parts: 2 }),
        forall|size: u64|
            size > CHUNK_SIZE ==> #[trigger] plan_spec(size) == (UploadPlan::Multipart {
                parts: chunk_count(size as nat) as u64,
            }) && chunk_count(size as nat) >= 2,
{
    assert(chunk_count(MULTIPART_THRESHOLD as nat) == 1);
    assert(chunk_count((MULTIPART_THRESHOLD + 1) as nat) == 2);
    assert forall|size: u64| size > CHUNK_SIZE implies #[trigger] plan_spec(size)
        == (UploadPlan::Multipart { parts: chunk_count(size as nat) as u64 }) && chunk_count(
        size as nat,
    ) >= 2 by {
        assert(chunk_count(size as nat) >= 2);
        assert(chunk_count(size as nat) <= u64::MAX);
    }
}

/// Whether one artifact takes a large-upload permit: a directory tree
/// above the part size may open many files at once, so such uploads run
/// under a separate, smaller concurrency bound.
pub open spec fn large_artifact_spec(is_dir: bool, nar_size: u64) -> bool {
    is_dir && nar_size > MULTIPART_THRESHOLD
}

/// Classify one artifact for the upload permit it needs.
pub fn large_artifact(is_dir: bool, nar_size: u64) -> (r: bool)
    ensures
        r == large_artifact_spec(is_dir, nar_size),
{
    is_dir && nar_size > MULTIPART_THRESHOLD
}

/// The upper end of chunk `i` of a payload of `len` bytes.
pub open spec fn chunk_end(i: int, len: int) -> int {
    if (i + 1) * 5242880 < len {
        (i + 1) * 5242880
    } else {
        len
    }
}

/// Split a payload into fixed-size chunks: each chunk `i` is exactly the
/// bytes from `i * CHUNK_SIZE` to `chunk_end`, so every chunk but the
/// last is full and the last is never empty.
pub fn split_chunks(data: &Vec<u8>) -> (r: Vec<Vec<u8>>)
    ensures
        r@.len() == chunk_count(data@.len()),
        forall|i: int|
            0 <= i < r@.len() ==> (#[trigger] r@[i])@ == data@.subrange(
                i * 5242880,
                chunk_end(i, data@.len() as int),
            ),
{
    let n = data.len();
    let mut parts: Vec<Vec<u8>> = Vec::new();
    let mut pos: usize = 0;
    while pos < n
        invariant
            pos <= n,
            n == data@.len(),
            pos == if parts@.len() * 5242880 <= n {
                (parts@.len() * 5242880) as int
            } else {
                n as int
            },
            parts@.len() >= 1 ==> n > (parts@.len() - 1) * 5242880,
            forall|i: int|
                0 <= i < parts@.len() ==> (#[trigger] parts@[i])@ == data@.subrange(
                    i * 5242880,
                    chunk_end(i, n as int),
                ),
        decreases n - pos,
    {
        proof {
            assert(pos == parts@.len() * 5242880);
        }
        let end = if n - pos < CHUNK_SIZE {
            n
        } else {
            pos + CHUNK_SIZE
        };
        let mut chunk: Vec<u8> = Vec::new();
        let mut j = pos;
        while j < end
            invariant
                pos <= j <= end <= n,
                n == data@.len(),
                chunk@ =~= data@.subrange(pos as int, j as int),
            decreases end - j,
        {
            chunk.push(data[j]);
            proof {
                assert(chunk@ =~= data@.subrange(pos as int, j + 1));
            }
            j = j + 1;
        }
        let ghost k = parts@.len() as int;
        parts.push(chunk);
        proof {
            assert((k + 1) * 5242880 == k * 5242880 + 5242880);
            assert(end as int == chunk_end(k, n as int));
            assert(parts@[k]@ == data@.subrange(k * 5242880, chunk_end(k, n as int)));
        }
        pos = end;
    }
    proof {
        assert(pos == n);
        let c = parts@.len() as int;
        if c * 5242880 <= n {
            assert(n == c * 5242880);
            assert(c == chunk_count(n as nat)) by (nonlinear_arith)
                requires
                    n == c * 5242880,
                    c >= 0,
            ;
        } else {
            assert(c >= 1);
            assert(c == chunk_count(n as nat)) by (nonlinear_arith)
                requires
                    n < c * 5242880,
                    c >= 1,
                    n > (c - 1) * 5242880,
            ;
        }
    }
    parts
}

/// The completion token of one uploaded part: its one-based part number,
/// the integrity token the store returned, and — for the proof — the
/// bytes the part carried.
pub struct PartToken {
    pub number: u64,
    pub etag: String,
    pub bytes: Ghost<Seq<u8>>,
}

/// Make the completion token for one uploaded chunk.
pub fn part_token(number: u64, etag: String, chunk: &Vec<u8>) -> (r: PartToken)
    ensures
        r.number == number,
        r.etag == etag,
        r.bytes@ == chunk@,
{
    PartToken { number, etag, bytes: Ghost(chunk@) }
}

/// The bytes of a token list, concatenated in list order.
pub open spec fn concat_token_bytes(v: Seq<PartToken>) -> Seq<u8>
    decreases v.len(),
{
    if v.len() == 0 {
        Seq::empty()
    } else {
        v[0].bytes@ + concat_token_bytes(v.skip(1))
    }
}

/// Whether `tokens` holds exactly the part numbers 1 to `n`, each once.
pub open spec fn tokens_complete(tokens: Seq<PartToken>, n: nat) -> bool {
    &&& tokens.len() == n
    &&& forall|i: int| 0 <= i < tokens.len() ==> 1 <= (#[trigger] tokens[i]).number <= n
    &&& forall|i: int, j: int|
        0 <= i < j < tokens.len() ==> (#[trigger] tokens[i]).number != (
        #[trigger] tokens[j]).number
}

#[derive(Debug)]
pub enum MultipartError {
    /// A part is missing, repeated, or numbered outside the session.
    IncompleteParts,
}

/// Number of filled slots.
spec fn count_filled(slots: Seq<Option<PartToken>>) -> nat
    decreases slots.len(),
{
    if slots.len() == 0 {
        0
    } else {
        count_filled(slots.drop_last()) + if slots.last() is Some {
            1nat
        } else {
            0nat
        }
    }
}

proof fn lemma_count_filled_le(slots: Seq<Option<PartToken>>)
    ensures
        count_filled(slots) <= slots.len(),
    decreases slots.len(),
{
    if slots.len() > 0 {
        lemma_count_filled_le(slots.drop_last());
    }
}

/// Filling one empty slot raises the count by one.
proof fn lemma_count_filled_update(slots: Seq<Option<PartToken>>, i: int, t: PartToken)
    requires
        0 <= i < slots.len(),
        slots[i] is None,
    ensures
        count_filled(slots.update(i, Some(t))) == count_filled(slots) + 1,
    decreases slots.len(),
{
    let upd = slots.update(i, Some(t));
    if i == slots.len() - 1 {
        assert(upd.drop_last() =~= slots.drop_last());
    } else {
        assert(upd.drop_last() =~= slots.drop_last().update(i, Some(t)));
        assert(upd.last() == slots.last());
        lemma_count_filled_update(slots.drop_last(), i, t);
    }
}

/// Order the completion tokens of a multipart session by part number,
/// whatever order the parts finished in. Succeeds exactly when the
/// tokens carry each part number of the session once; a missing,
/// repeated or out-of-range part aborts the whole session instead of
/// leaving a hole.
pub fn order_tokens(tokens: &Vec<PartToken>, n: u64) -> (r: Result<
    Vec<PartToken>,
    MultipartError,
>)
    requires
        n <= usize::MAX,
    ensures
        r is Ok <==> tokens_complete(tokens@, n as nat),
        r matches Ok(v) ==> {
            &&& v@.len() == n
            &&& forall|i: int| 0 <= i < v@.len() ==> (#[trigger] v@[i]).number == i + 1
            &&& forall|i: int|
                0 <= i < v@.len() ==> exists|j: int|
                    0 <= j < tokens@.len() && #[trigger] v@[i] == tokens@[j]
        },
{
    let n_us = n as usize;
    let mut slots: Vec<Option<PartToken>> = Vec::new();
    let mut i: usize = 0;
    while i < n_us
        invariant
            i <= n_us,
            slots@.len() == i,
            forall|k: int| 0 <= k < i ==> (#[trigger] slots@[k]) is None,
        decreases n_us - i,
    {
        slots.push(None);
        i = i + 1;
    }
    let mut processed: usize = 0;
    while processed < tokens.len()
        invariant
            n_us == n,
            slots@.len() == n,
            0 <= processed <= tokens@.len(),
            // every filled slot holds a processed token with that number
            forall|k: int|
                0 <= k < slots@.len() && (#[trigger] slots@[k]) is Some ==> {
                    &&& slots@[k]->0.number == k + 1
                    &&& exists|j: int| 0 <= j < processed && slots@[k]->0 == tokens@[j]
                },
            // every processed token sits in its own slot
            forall|j: int|
                0 <= j < processed ==> 1 <= (#[trigger] tokens@[j]).number <= n
                    && slots@[tokens@[j].number - 1] == Some(tokens@[j]),
            // processed part numbers are pairwise distinct
            forall|a: int, b: int|
                0 <= a < b < processed ==> (#[trigger] tokens@[a]).number != (
                #[trigger] tokens@[b]).number,
        decreases tokens@.len() - processed,
    {
        let t = &tokens[processed];
        if t.number < 1 || t.number > n {
            proof {
                assert(!(1 <= tokens@[processed as int].number <= n as nat));
                assert(!tokens_complete(tokens@, n as nat));
            }
            return Err(MultipartError::IncompleteParts);
        }
        let idx = (t.number - 1) as usize;
        let occupied = slots[idx].is_some();
        if occupied {
            proof {
                let other = choose|j: int|
                    0 <= j < processed && slots@[idx as int]->0 == tokens@[j];
                assert(tokens@[other].number == tokens@[processed as int].number);
                assert(!tokens_complete(tokens@, n as nat));
            }
            return Err(MultipartError::IncompleteParts);
        }
        let ghost pre_slots = slots@;
        slots.set(idx, Some(dup_token(t)));
        proof {
            assert forall|j: int|
                0 <= j < processed + 1 implies 1 <= (#[trigger] tokens@[j]).number <= n
                && slots@[tokens@[j].number - 1] == Some(tokens@[j]) by {
                if j < processed {
                    assert(pre_slots[tokens@[j].number - 1] == Some(tokens@[j]));
                    assert(tokens@[j].number - 1 != idx);
                }
            }
            assert forall|a: int, b: int|
                0 <= a < b < processed + 1 implies (#[trigger] tokens@[a]).number != (
            #[trigger] tokens@[b]).number by {
                if b == processed && tokens@[a].number == tokens@[b].number {
                    assert(pre_slots[tokens@[a].number - 1] == Some(tokens@[a]));
                }
            }
        }
        processed = processed + 1;
    }
    let mut out: Vec<PartToken> = Vec::new();
    let mut k: usize = 0;
    while k < n_us
        invariant
            k <= n_us,
            n_us == n,
            slots@.len() == n,
            out@.len() == k,
            forall|m: int| 0 <= m < k ==> (#[trigger] slots@[m]) is Some,
            forall|m: int|
                0 <= m < slots@.len() && (#[trigger] slots@[m]) is Some ==> {
                    &&& slots@[m]->0.number == m + 1
                    &&& exists|j: int| 0 <= j < tokens@.len() && slots@[m]->0 == tokens@[j]
                },
            forall|j: int|
                0 <= j < tokens@.len() ==> 1 <= (#[trigger] tokens@[j]).number <= n
                    && slots@[tokens@[j].number - 1] == Some(tokens@[j]),
            forall|a: int, b: int|
                0 <= a < b < tokens@.len() ==> (#[trigger] tokens@[a]).number != (
                #[trigger] tokens@[b]).number,
            forall|m: int| 0 <= m < k ==> (#[trigger] out@[m]).number == m + 1,
            forall|m: int|
                0 <= m < k ==> exists|j: int|
                    0 <= j < tokens@.len() && #[trigger] out@[m] == tokens@[j],
        decreases n_us - k,
    {
        let is_missing = slots[k].is_none();
        if is_missing {
            proof {
                lemma_missing_slot_incomplete(tokens@, n as nat, k as int, slots@);
            }
            return Err(MultipartError::IncompleteParts);
        }
        match &slots[k] {
            Some(t) => {
                out.push(dup_token(t));
            },
            None => {
                proof {
                    assert(false);
                }
            },
        }
        k = k + 1;
    }
    proof {
        lemma_count_all_some(slots@);
        lemma_injective_count(tokens@, slots@);
        lemma_distinct_slots(tokens@, slots@);
        assert(tokens@.len() == n);
        assert(tokens_complete(tokens@, n as nat));
    }
    Ok(out)
}

/// Tokens with distinct numbers in their own slots, every filled slot
/// held by some token: the tokens are at least as many as the filled
/// slots.
proof fn lemma_distinct_slots(toks: Seq<PartToken>, slots: Seq<Option<PartToken>>)
    requires
        forall|m: int|
            0 <= m < slots.len() && (#[trigger] slots[m]) is Some ==> exists|j: int|
                0 <= j < toks.len() && slots[m]->0 == toks[j],
        forall|j: int|
            0 <= j < toks.len() ==> 1 <= (#[trigger] toks[j]).number <= slots.len()
                && slots[toks[j].number - 1] == Some(toks[j]),
        forall|m: int|
            0 <= m < slots.len() && (#[trigger] slots[m]) is Some ==> slots[m]->0.number == m + 1,
        forall|a: int, b: int|
            0 <= a < b < toks.len() ==> (#[trigger] toks[a]).number != (#[trigger] toks[b]).number,
    ensures
        count_filled(slots) <= toks.len(),
    decreases slots.len(),
{
    if slots.len() > 0 {
        let m = slots.len() - 1;
        if slots[m] is Some {
            let j0 = choose|j: int| 0 <= j < toks.len() && slots[m]->0 == toks[j];
            assert(toks[j0].number == m + 1);
            let shorter = toks.remove(j0);
            assert forall|j: int|
                0 <= j < shorter.len() implies 1 <= (#[trigger] shorter[j]).number
                <= slots.drop_last().len() && slots.drop_last()[shorter[j].number - 1] == Some(
                shorter[j],
            ) by {
                let orig: int = if j < j0 {
                    j
                } else {
                    j + 1
                };
                assert(shorter[j] == toks[orig]);
                assert(slots[toks[orig].number - 1] == Some(toks[orig]));
                if toks[orig].number - 1 == m {
                    assert(toks[orig].number == toks[j0].number);
                    assert(false);
                }
                assert(slots.drop_last()[toks[orig].number - 1] == slots[toks[orig].number - 1]);
            }
            assert forall|mm: int|
                0 <= mm < slots.drop_last().len() && (#[trigger] slots.drop_last()[mm]) is
                Some implies exists|j: int|
                0 <= j < shorter.len() && slots.drop_last()[mm]->0 == shorter[j] by {
                assert(slots[mm] is Some);
                let j = choose|j: int| 0 <= j < toks.len() && slots[mm]->0 == toks[j];
                assert(toks[j].number == mm + 1);
                if j == j0 {
                    assert(false);
                }
                let jj: int = if j < j0 {
                    j
                } else {
                    j - 1
                };
                assert(shorter[jj] == toks[j]);
            }
            assert forall|mm: int|
                0 <= mm < slots.drop_last().len() && (#[trigger] slots.drop_last()[mm]) is
                Some implies slots.drop_last()[mm]->0.number == mm + 1 by {
                assert(slots[mm] is Some);
            }
            assert forall|a: int, b: int|
                0 <= a < b < shorter.len() implies (#[trigger] shorter[a]).number != (
            #[trigger] shorter[b]).number by {
                let oa: int = if a < j0 {
                    a
                } else {
                    a + 1
                };
                let ob: int = if b < j0 {
                    b
                } else {
                    b + 1
                };
                assert(shorter[a] == toks[oa] && shorter[b] == toks[ob]);
            }
            lemma_distinct_slots(shorter, slots.drop_last());
        } else {
            assert forall|j: int|
                0 <= j < toks.len() implies 1 <= (#[trigger] toks[j]).number
                <= slots.drop_last().len() && slots.drop_last()[toks[j].number - 1] == Some(
                toks[j],
            ) by {
                assert(slots[toks[j].number - 1] == Some(toks[j]));
                if toks[j].number - 1 == m {
                    assert(false);
                }
            }
            assert forall|mm: int|
                0 <= mm < slots.drop_last().len() && (#[trigger] slots.drop_last()[mm]) is
                Some implies (exists|j: int|
                0 <= j < toks.len() && slots.drop_last()[mm]->0 == toks[j]) && slots.drop_last()[mm]->0.number
                == mm + 1 by {
                assert(slots[mm] is Some);
            }
            lemma_distinct_slots(toks, slots.drop_last());
        }
    }
}

/// Copy one token.
fn dup_token(t: &PartToken) -> (r: PartToken)
    ensures
        r == *t,
{
    PartToken { number: t.number, etag: t.etag.clone(), bytes: Ghost(t.bytes@) }
}

/// A slot list that is all filled counts its whole length.
proof fn lemma_count_all_some(slots: Seq<Option<PartToken>>)
    requires
        forall|m: int| 0 <= m < slots.len() ==> (#[trigger] slots[m]) is Some,
    ensures
        count_filled(slots) == slots.len(),
    decreases slots.len(),
{
    if slots.len() > 0 {
        lemma_count_all_some(slots.drop_last());
    }
}

/// Distinct-numbered tokens each slotted under their own number give at
/// least that many filled slots.
proof fn lemma_injective_count(toks: Seq<PartToken>, slots: Seq<Option<PartToken>>)
    requires
        forall|j: int|
            0 <= j < toks.len() ==> 1 <= (#[trigger] toks[j]).number <= slots.len()
                && slots[toks[j].number - 1] == Some(toks[j]),
        forall|a: int, b: int|
            0 <= a < b < toks.len() ==> (#[trigger] toks[a]).number != (#[trigger] toks[b]).number,
    ensures
        toks.len() <= count_filled(slots),
    decreases toks.len(),
{
    if toks.len() > 0 {
        let last = toks.last();
        let k = last.number - 1;
        let smaller = slots.update(k, None);
        lemma_count_filled_update(smaller, k, last);
        assert(smaller.update(k, Some(last)) =~= slots);
        assert forall|j: int|
            0 <= j < toks.drop_last().len() implies 1 <= (#[trigger] toks.drop_last()[j]).number
            <= smaller.len() && smaller[toks.drop_last()[j].number - 1] == Some(
            toks.drop_last()[j],
        ) by {
            assert(toks.drop_last()[j] == toks[j]);
            assert(toks[j].number != last.number);
            assert(slots[toks[j].number - 1] == Some(toks[j]));
        }
        lemma_injective_count(toks.drop_last(), smaller);
    }
}

/// An empty slot under every token slotted by number means some part
/// number is missing: the tokens cannot be complete.
proof fn lemma_missing_slot_incomplete(
    toks: Seq<PartToken>,
    n: nat,
    k: int,
    slots: Seq<Option<PartToken>>,
)
    requires
        slots.len() == n,
        0 <= k < n,
        slots[k] is None,
        forall|j: int|
            0 <= j < toks.len() ==> 1 <= (#[trigger] toks[j]).number <= n && slots[toks[j].number
                - 1] == Some(toks[j]),
        forall|a: int, b: int|
            0 <= a < b < toks.len() ==> (#[trigger] toks[a]).number != (#[trigger] toks[b]).number,
    ensures
        !tokens_complete(toks, n),
{
    if tokens_complete(toks, n) {
        lemma_injective_count(toks, slots);
        lemma_count_missing(slots, k);
    }
}

/// The multipart reassembly law: when the completion tokens stand in
/// part-number order and part `i` carried exactly chunk `i` of the
/// payload, the parts concatenated in that order are byte for byte the
/// payload — whatever order the uploads finished in, since `order_tokens`
/// produces this ordering from any arrival order.
pub proof fn lemma_multipart_reassembly(data: Seq<u8>, v: Seq<PartToken>)
    requires
        v.len() == chunk_count(data.len()),
        forall|i: int|
            0 <= i < v.len() ==> (#[trigger] v[i]).bytes@ == data.subrange(
                i * 5242880,
                chunk_end(i, data.len() as int),
            ),
    ensures
        concat_token_bytes(v) == data,
    decreases v.len(),
{
    if v.len() == 0 {
        assert(data.len() == 0);
        assert(concat_token_bytes(v) =~= data);
    } else if v.len() == 1 {
        assert(data.len() >= 1 && data.len() <= 5242880);
        assert(v[0].bytes@ == data.subrange(0, chunk_end(0, data.len() as int)));
        assert(chunk_end(0, data.len() as int) == data.len());
        assert(v[0].bytes@ =~= data);
        assert(v.skip(1).len() == 0);
        assert(concat_token_bytes(v.skip(1)) == Seq::<u8>::empty());
        assert(concat_token_bytes(v) == v[0].bytes@ + concat_token_bytes(v.skip(1)));
        assert(v[0].bytes@ + Seq::<u8>::empty() =~= data);
    } else {
        assert(data.len() > 5242880);
        let rest_data = data.skip(5242880);
        assert(v.skip(1).len() == chunk_count(rest_data.len()));
        assert forall|i: int|
            0 <= i < v.skip(1).len() implies (#[trigger] v.skip(1)[i]).bytes@
            == rest_data.subrange(i * 5242880, chunk_end(i, rest_data.len() as int)) by {
            assert(v.skip(1)[i] == v[i + 1]);
            assert(v[i + 1].bytes@ == data.subrange(
                (i + 1) * 5242880,
                chunk_end(i + 1, data.len() as int),
            ));
            assert((i + 1) * 5242880 == i * 5242880 + 5242880);
            assert((i + 2) * 5242880 == (i + 1) * 5242880 + 5242880);
            assert(rest_data.subrange(i * 5242880, chunk_end(i, rest_data.len() as int))
                =~= data.subrange((i + 1) * 5242880, chunk_end(i + 1, data.len() as int)));
        }
        lemma_multipart_reassembly(rest_data, v.skip(1));
        assert(chunk_end(0, data.len() as int) == 5242880);
        assert(v[0].bytes@ == data.subrange(0int, chunk_end(0, data.len() as int)));
        assert(v[0].bytes@ == data.subrange(0int, 5242880int));
        assert(concat_token_bytes(v) == v[0].bytes@ + concat_token_bytes(v.skip(1)));
        assert(concat_token_bytes(v.skip(1)) == rest_data);
        assert(data.subrange(0int, 5242880int) + rest_data =~= data);
    }
}

/// Relies on ulid::Ulid::from_datetime and its canonical text: a fresh
/// staging key of 26 characters. The artifact's final key is only known
/// once its compressed digest is, so the stream is staged here first and
/// renamed after.
#[verifier::external_body]
pub fn temp_upload_key() -> (r: String)
    ensures
        r@.len() == 26,
{
    ulid::Ulid::from_datetime(std::time::SystemTime::now()).to_string()
}

/// The per-path upload sequence: package, hash, sign, then metadata —
/// the artifact's bytes and final hashes come first, and only then is
/// the signed metadata record assembled and serialized.
pub struct Uploader<'a> {
    pub signing_key: &'a NamedKey,
    pub path: PathInfo,
}

impl<'a> Uploader<'a> {
    pub fn new(signing_key: &'a NamedKey, path: PathInfo) -> (r: Self)
        ensures
            r.signing_key == signing_key,
            r.path == path,
    {
        Uploader { signing_key, path }
    }

    /// Assemble and sign the metadata record of a drained archive
    /// stream, and serialize it: the record carries exactly this path's
    /// identity and references, the stream's hashes and sizes, the
    /// object key derived from the compressed digest, and one signature.
    /// It exists only after the artifact's hashes are final, so metadata
    /// upload is strictly sequenced after the artifact's bytes.
    pub fn make_metadata(&self, fin: &FinishedNar) -> (r: (NarInfo, Vec<u8>))
        requires
            self.path.wf(),
            fin.nar_hash@.len() == 32,
            fin.file_hash@.len() == 32,
        ensures
            r.0.wf(),
            r.0.store_path == self.path.path,
            r.0.nar_hash@ == fin.nar_hash@,
            r.0.nar_size == fin.nar_size,
            r.0.file_hash@ == fin.file_hash@,
            r.0.file_size == fin.file_size,
            r.0.references@ == self.path.references@,
            r.0.signatures@.len() == 1,
            (r.0.signatures@[0])@ == crate::sign::signature_text(
                *self.signing_key,
                r.0.spec_fingerprint(),
            ),
            r.0.url@ == crate::narinfo::nar_url_spec(fin.file_hash@),
            r.1@ == narinfo_text_spec(r.0),
    {
        let mut info = NarInfo::build(&self.path, fin);
        info.add_signature(self.signing_key);
        let text = info.to_text();
        (info, text)
    }
}

/// A slot list with an empty slot counts below its length.
proof fn lemma_count_missing(slots: Seq<Option<PartToken>>, k: int)
    requires
        0 <= k < slots.len(),
        slots[k] is None,
    ensures
        count_filled(slots) < slots.len(),
    decreases slots.len(),
{
    lemma_count_filled_le(slots.drop_last());
    if k == slots.len() - 1 {
    } else {
        lemma_count_missing(slots.drop_last(), k);
    }
}

} // verus!
