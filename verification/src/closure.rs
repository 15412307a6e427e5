use vstd::prelude::*;

use crate::path_info::PathInfo;
use crate::store_path::StorePath;

verus! {

/// Whether the list of names `v` holds the name `n`.
pub open spec fn name_list_contains(v: Seq<String>, n: Seq<char>) -> bool {
    exists|i: int| 0 <= i < v.len() && (#[trigger] v[i])@ == n
}

/// Whether some queued path has base name `n`.
pub open spec fn queued_has(v: Seq<StorePath>, n: Seq<char>) -> bool {
    exists|i: int| 0 <= i < v.len() && (#[trigger] v[i]).spec_base_name() == n
}

/// Whether some resolved member has base name `n`.
pub open spec fn member_has(v: Seq<PathInfo>, n: Seq<char>) -> bool {
    exists|i: int| 0 <= i < v.len() && (#[trigger] v[i]).path.spec_base_name() == n
}

/// Builds the dependency closure of a set of root paths by driving store
/// queries one at a time: the caller repeatedly takes a queued path,
/// resolves it against the local store, and hands the descriptor back.
/// Each path is queried exactly once, however many roots or members
/// reference it; if any single query fails the caller abandons the
/// builder, so a closure is produced whole or not at all.
pub struct ClosureBuilder {
    /// Descriptors resolved so far.
    pub members: Vec<PathInfo>,
    /// Paths recorded but not yet resolved; the next query takes the last.
    pub pending: Vec<StorePath>,
    /// Base names of every path ever recorded, for deduplication.
    pub seen: Vec<String>,
    /// The base names of the requested roots.
    pub roots: Ghost<Seq<Seq<char>>>,
}

impl ClosureBuilder {
    /// Every member, queued path and member reference is recorded.
    pub open spec fn records_parts(self) -> bool {
        &&& forall|i: int|
            0 <= i < self.members@.len() ==> name_list_contains(
                self.seen@,
                (#[trigger] self.members@[i]).path.spec_base_name(),
            )
        &&& forall|i: int|
            0 <= i < self.pending@.len() ==> name_list_contains(
                self.seen@,
                (#[trigger] self.pending@[i]).spec_base_name(),
            )
        &&& forall|i: int, j: int|
            0 <= i < self.members@.len() && 0 <= j < self.members@[i].references@.len()
                ==> name_list_contains(
                self.seen@,
                (#[trigger] self.members@[i].references@[j]).spec_base_name(),
            )
    }

    /// No name is resolved twice, queued twice, or both queued and
    /// resolved.
    pub open spec fn no_duplicates(self) -> bool {
        &&& forall|i: int, j: int|
            0 <= i < j < self.members@.len() ==> (#[trigger] self.members@[i]).path.spec_base_name()
                != (#[trigger] self.members@[j]).path.spec_base_name()
        &&& forall|i: int, j: int|
            0 <= i < j < self.pending@.len() ==> (#[trigger] self.pending@[i]).spec_base_name() != (
            #[trigger] self.pending@[j]).spec_base_name()
        &&& forall|i: int, j: int|
            0 <= i < self.pending@.len() && 0 <= j < self.members@.len() ==> (
            #[trigger] self.pending@[i]).spec_base_name() != (
            #[trigger] self.members@[j]).path.spec_base_name()
    }

    /// Every recorded name except `n` is resolved or queued.
    pub open spec fn recorded_placed_except(self, n: Seq<char>) -> bool {
        forall|k: int|
            0 <= k < self.seen@.len() ==> (#[trigger] self.seen@[k])@ == n || member_has(
                self.members@,
                self.seen@[k]@,
            ) || queued_has(self.pending@, self.seen@[k]@)
    }

    /// Every recorded name is resolved or queued.
    pub open spec fn recorded_placed(self) -> bool {
        forall|k: int|
            0 <= k < self.seen@.len() ==> member_has(self.members@, (#[trigger] self.seen@[k])@)
                || queued_has(self.pending@, self.seen@[k]@)
    }

    /// Every root is recorded.
    pub open spec fn roots_recorded(self) -> bool {
        forall|n: Seq<char>| self.roots@.contains(n) ==> name_list_contains(self.seen@, n)
    }

    /// Every resolved member and every queued path is a well-formed
    /// store path.
    pub open spec fn paths_wf(self) -> bool {
        &&& forall|i: int| 0 <= i < self.members@.len() ==> (#[trigger] self.members@[i]).wf()
        &&& forall|i: int| 0 <= i < self.pending@.len() ==> (#[trigger] self.pending@[i]).wf()
    }

    /// The bookkeeping invariant of the builder.
    pub open spec fn wf(self) -> bool {
        &&& self.records_parts()
        &&& self.no_duplicates()
        &&& self.recorded_placed()
        &&& self.roots_recorded()
        &&& self.paths_wf()
    }

    /// All queries answered: nothing is left to resolve.
    pub open spec fn done_spec(self) -> bool {
        self.pending@.len() == 0
    }

    /// Start a closure over the given roots; duplicates among the roots
    /// are recorded once.
    pub fn new(root_paths: &Vec<StorePath>) -> (r: ClosureBuilder)
        requires
            forall|i: int| 0 <= i < root_paths@.len() ==> (#[trigger] root_paths@[i]).wf(),
        ensures
            r.wf(),
            r.members@.len() == 0,
            r.roots@ == root_paths@.map_values(|p: StorePath| p.spec_base_name()),
    {
        let ghost root_names = root_paths@.map_values(|p: StorePath| p.spec_base_name());
        let mut b = ClosureBuilder {
            members: Vec::new(),
            pending: Vec::new(),
            seen: Vec::new(),
            roots: Ghost(root_names),
        };
        let mut i: usize = 0;
        while i < root_paths.len()
            invariant
                i <= root_paths@.len(),
                b.roots@ == root_names,
                root_names == root_paths@.map_values(|p: StorePath| p.spec_base_name()),
                b.members@.len() == 0,
                b.records_parts(),
                b.no_duplicates(),
                b.recorded_placed(),
                b.paths_wf(),
                forall|j: int| 0 <= j < root_paths@.len() ==> (#[trigger] root_paths@[j]).wf(),
                forall|j: int|
                    0 <= j < i ==> name_list_contains(
                        b.seen@,
                        (#[trigger] root_paths@[j]).spec_base_name(),
                    ),
            decreases root_paths@.len() - i,
        {
            let name = root_paths[i].base_name();
            if !contains_name(&b.seen, &name) {
                let ghost pre = b;
                b.seen.push(name);
                b.pending.push(root_paths[i].clone());
                proof {
                    let n = root_paths@[i as int].spec_base_name();
                    assert((b.seen@[b.seen@.len() - 1])@ == n);
                    assert((b.pending@[b.pending@.len() - 1]).spec_base_name() == n);
                    assert(queued_has(b.pending@, n));
                    assert forall|t: int| 0 <= t < b.pending@.len() implies name_list_contains(
                        b.seen@,
                        (#[trigger] b.pending@[t]).spec_base_name(),
                    ) by {
                        if t < pre.pending@.len() {
                            lemma_contains_extend(
                                pre.seen@,
                                b.seen@,
                                pre.pending@[t].spec_base_name(),
                            );
                        }
                    }
                    assert forall|x: int, y: int| 0 <= x < y < b.pending@.len() implies (
                    #[trigger] b.pending@[x]).spec_base_name() != (
                    #[trigger] b.pending@[y]).spec_base_name() by {
                        if y == b.pending@.len() - 1 {
                            assert(name_list_contains(
                                pre.seen@,
                                pre.pending@[x].spec_base_name(),
                            ));
                        }
                    }
                    assert forall|k: int| 0 <= k < b.seen@.len() implies member_has(
                        b.members@,
                        (#[trigger] b.seen@[k])@,
                    ) || queued_has(b.pending@, b.seen@[k]@) by {
                        if k < pre.seen@.len() {
                            assert(member_has(pre.members@, pre.seen@[k]@) || queued_has(
                                pre.pending@,
                                pre.seen@[k]@,
                            ));
                            if queued_has(pre.pending@, pre.seen@[k]@) {
                                let q = choose|q: int|
                                    0 <= q < pre.pending@.len() && (pre.pending@[q]).spec_base_name()
                                        == pre.seen@[k]@;
                                assert((b.pending@[q]).spec_base_name() == b.seen@[k]@);
                            }
                        }
                    }
                    assert forall|j: int| 0 <= j <= i implies name_list_contains(
                        b.seen@,
                        (#[trigger] root_paths@[j]).spec_base_name(),
                    ) by {
                        if j < i {
                            lemma_contains_extend(
                                pre.seen@,
                                b.seen@,
                                root_paths@[j].spec_base_name(),
                            );
                        }
                    }
                }
            } else {
                proof {
                    assert(name_list_contains(b.seen@, root_paths@[i as int].spec_base_name()));
                }
            }
            i = i + 1;
        }
        proof {
            assert forall|n: Seq<char>| root_names.contains(n) implies name_list_contains(
                b.seen@,
                n,
            ) by {
                let j = choose|j: int| 0 <= j < root_names.len() && root_names[j] == n;
                assert(name_list_contains(b.seen@, root_paths@[j].spec_base_name()));
            }
        }
        b
    }

    /// Whether every recorded path has been resolved.
    pub fn done(&self) -> (r: bool)
        ensures
            r == self.done_spec(),
    {
        self.pending.len() == 0
    }

    /// The path the caller should resolve next, if any is left.
    pub fn next_query(&self) -> (r: Option<StorePath>)
        ensures
            self.done_spec() ==> r is None,
            !self.done_spec() ==> r == Some(self.pending@.last()),
    {
        if self.pending.len() == 0 {
            None
        } else {
            Some(self.pending[self.pending.len() - 1].clone())
        }
    }

    /// Hand back the descriptor of the path last handed out: the path
    /// leaves the queue, the descriptor joins the members, and each of
    /// its references not recorded before is recorded and queued.
    pub fn resolved(&mut self, desc: PathInfo)
        requires
            old(self).wf(),
            !old(self).done_spec(),
            desc.wf(),
            desc.path.spec_base_name() == old(self).pending@.last().spec_base_name(),
        ensures
            final(self).wf(),
            final(self).members@ == old(self).members@.push(desc),
            final(self).roots == old(self).roots,
    {
        let ghost n0 = desc.path.spec_base_name();
        let ghost pre = *self;
        self.pending.pop();
        proof {
            assert(self.pending@ == pre.pending@.drop_last());
            assert forall|k: int| 0 <= k < self.seen@.len() implies (#[trigger] self.seen@[k])@
                == n0 || member_has(self.members@, self.seen@[k]@) || queued_has(
                self.pending@,
                self.seen@[k]@,
            ) by {
                if self.seen@[k]@ != n0 {
                    assert(member_has(pre.members@, pre.seen@[k]@) || queued_has(
                        pre.pending@,
                        pre.seen@[k]@,
                    ));
                    if queued_has(pre.pending@, pre.seen@[k]@) {
                        let q = choose|q: int|
                            0 <= q < pre.pending@.len() && (pre.pending@[q]).spec_base_name()
                                == pre.seen@[k]@;
                        assert(q < pre.pending@.len() - 1);
                        assert((self.pending@[q]).spec_base_name() == self.seen@[k]@);
                    }
                }
            }
        }
        let mut k: usize = 0;
        while k < desc.references.len()
            invariant
                k <= desc.references@.len(),
                self.members@ == pre.members@,
                self.seen@.len() >= 1,
                self.roots == pre.roots,
                n0 == desc.path.spec_base_name(),
                self.records_parts(),
                self.no_duplicates(),
                self.recorded_placed_except(n0),
                self.roots_recorded(),
                self.paths_wf(),
                desc.wf(),
                name_list_contains(self.seen@, n0),
                !member_has(self.members@, n0),
                !queued_has(self.pending@, n0),
                forall|j: int|
                    0 <= j < k ==> name_list_contains(
                        self.seen@,
                        (#[trigger] desc.references@[j]).spec_base_name(),
                    ),
            decreases desc.references@.len() - k,
        {
            let name = desc.references[k].base_name();
            if !contains_name(&self.seen, &name) {
                let ghost mid = *self;
                self.seen.push(name);
                self.pending.push(desc.references[k].clone());
                proof {
                    let n = desc.references@[k as int].spec_base_name();
                    assert((self.seen@[self.seen@.len() - 1])@ == n);
                    assert((self.pending@[self.pending@.len() - 1]).spec_base_name() == n);
                    assert(queued_has(self.pending@, n));
                    assert forall|t: int| 0 <= t < self.members@.len() implies name_list_contains(
                        self.seen@,
                        (#[trigger] self.members@[t]).path.spec_base_name(),
                    ) by {
                        lemma_contains_extend(
                            mid.seen@,
                            self.seen@,
                            mid.members@[t].path.spec_base_name(),
                        );
                    }
                    assert forall|t: int| 0 <= t < self.pending@.len() implies name_list_contains(
                        self.seen@,
                        (#[trigger] self.pending@[t]).spec_base_name(),
                    ) by {
                        if t < mid.pending@.len() {
                            lemma_contains_extend(
                                mid.seen@,
                                self.seen@,
                                mid.pending@[t].spec_base_name(),
                            );
                        }
                    }
                    assert forall|x: int, y: int|
                        0 <= x < self.members@.len() && 0 <= y
                            < self.members@[x].references@.len() implies name_list_contains(
                        self.seen@,
                        (#[trigger] self.members@[x].references@[y]).spec_base_name(),
                    ) by {
                        lemma_contains_extend(
                            mid.seen@,
                            self.seen@,
                            mid.members@[x].references@[y].spec_base_name(),
                        );
                    }
                    assert forall|x: int, y: int| 0 <= x < y < self.pending@.len() implies (
                    #[trigger] self.pending@[x]).spec_base_name() != (
                    #[trigger] self.pending@[y]).spec_base_name() by {
                        if y == self.pending@.len() - 1 {
                            assert(name_list_contains(
                                mid.seen@,
                                mid.pending@[x].spec_base_name(),
                            ));
                        }
                    }
                    assert forall|x: int, y: int|
                        0 <= x < self.pending@.len() && 0 <= y
                            < self.members@.len() implies (
                    #[trigger] self.pending@[x]).spec_base_name() != (
                    #[trigger] self.members@[y]).path.spec_base_name() by {
                        if x == self.pending@.len() - 1 {
                            assert(name_list_contains(
                                mid.seen@,
                                mid.members@[y].path.spec_base_name(),
                            ));
                        }
                    }
                    assert forall|t: int| 0 <= t < self.seen@.len() implies (
                    #[trigger] self.seen@[t])@ == n0 || member_has(
                        self.members@,
                        self.seen@[t]@,
                    ) || queued_has(self.pending@, self.seen@[t]@) by {
                        if t < mid.seen@.len() {
                            if mid.seen@[t]@ != n0 {
                                assert(member_has(mid.members@, mid.seen@[t]@) || queued_has(
                                    mid.pending@,
                                    mid.seen@[t]@,
                                ));
                                if queued_has(mid.pending@, mid.seen@[t]@) {
                                    let q = choose|q: int|
                                        0 <= q < mid.pending@.len() && (
                                        mid.pending@[q]).spec_base_name() == mid.seen@[t]@;
                                    assert((self.pending@[q]).spec_base_name() == self.seen@[t]@);
                                }
                            }
                        }
                    }
                    assert forall|m: Seq<char>|
                        self.roots@.contains(m) implies name_list_contains(self.seen@, m) by {
                        lemma_contains_extend(mid.seen@, self.seen@, m);
                    }
                    assert forall|j: int| 0 <= j <= k implies name_list_contains(
                        self.seen@,
                        (#[trigger] desc.references@[j]).spec_base_name(),
                    ) by {
                        if j < k {
                            lemma_contains_extend(
                                mid.seen@,
                                self.seen@,
                                desc.references@[j].spec_base_name(),
                            );
                        }
                    }
                    assert(!queued_has(self.pending@, n0)) by {
                        if queued_has(self.pending@, n0) {
                            let q = choose|q: int|
                                0 <= q < self.pending@.len() && (
                                self.pending@[q]).spec_base_name() == n0;
                            if q < mid.pending@.len() {
                                assert(queued_has(mid.pending@, n0));
                            } else {
                                assert(n == n0);
                                assert(name_list_contains(mid.seen@, n0));
                            }
                        }
                    }
                    lemma_contains_extend(mid.seen@, self.seen@, n0);
                }
            }
            k = k + 1;
        }
        let ghost fin = *self;
        self.members.push(desc);
        proof {
            assert(member_has(self.members@, n0)) by {
                assert(self.members@[self.members@.len() - 1].path.spec_base_name() == n0);
            }
            assert forall|t: int| 0 <= t < self.seen@.len() implies member_has(
                self.members@,
                (#[trigger] self.seen@[t])@,
            ) || queued_has(self.pending@, self.seen@[t]@) by {
                if self.seen@[t]@ == n0 {
                } else {
                    assert(fin.seen@[t]@ == n0 || member_has(fin.members@, fin.seen@[t]@)
                        || queued_has(fin.pending@, fin.seen@[t]@));
                    if member_has(fin.members@, fin.seen@[t]@) {
                        let m = choose|m: int|
                            0 <= m < fin.members@.len() && (fin.members@[m]).path.spec_base_name()
                                == fin.seen@[t]@;
                        assert((self.members@[m]).path.spec_base_name() == self.seen@[t]@);
                    }
                }
            }
            assert forall|i: int|
                0 <= i < self.members@.len() implies name_list_contains(
                self.seen@,
                (#[trigger] self.members@[i]).path.spec_base_name(),
            ) by {
                if i < fin.members@.len() {
                    assert(name_list_contains(fin.seen@, fin.members@[i].path.spec_base_name()));
                }
            }
        }
    }
}

/// A name found in a list of names is still found after the list grows
/// at the end.
proof fn lemma_contains_extend(v: Seq<String>, w: Seq<String>, n: Seq<char>)
    requires
        v.len() <= w.len(),
        forall|i: int| 0 <= i < v.len() ==> #[trigger] w[i] == v[i],
        name_list_contains(v, n),
    ensures
        name_list_contains(w, n),
{
    let i = choose|i: int| 0 <= i < v.len() && (#[trigger] v[i])@ == n;
    assert((w[i])@ == n);
}

/// Whether `seen` holds `name`, by character content.
pub fn contains_name(seen: &Vec<String>, name: &String) -> (r: bool)
    ensures
        r == name_list_contains(seen@, name@),
{
    let mut i: usize = 0;
    while i < seen.len()
        invariant
            i <= seen@.len(),
            forall|j: int| 0 <= j < i ==> (#[trigger] seen@[j])@ != name@,
        decreases seen@.len() - i,
    {
        if seen[i].eq(name) {
            return true;
        }
        i = i + 1;
    }
    false
}

/// The closure law: once every query is answered, the members contain
/// every root, are transitively closed — every reference of every member
/// is itself a member, by path identity — and hold each path exactly
/// once.
pub proof fn lemma_closure_complete(b: ClosureBuilder)
    requires
        b.wf(),
        b.done_spec(),
    ensures
        forall|n: Seq<char>| b.roots@.contains(n) ==> member_has(b.members@, n),
        forall|i: int, j: int|
            0 <= i < b.members@.len() && 0 <= j < b.members@[i].references@.len() ==> member_has(
                b.members@,
                (#[trigger] b.members@[i].references@[j]).spec_base_name(),
            ),
        forall|i: int, j: int|
            0 <= i < j < b.members@.len() ==> (#[trigger] b.members@[i]).path.spec_base_name() != (
            #[trigger] b.members@[j]).path.spec_base_name(),
        forall|i: int| 0 <= i < b.members@.len() ==> (#[trigger] b.members@[i]).wf(),
{
    assert forall|n: Seq<char>| b.roots@.contains(n) implies member_has(b.members@, n) by {
        assert(name_list_contains(b.seen@, n));
        let k = choose|k: int| 0 <= k < b.seen@.len() && (b.seen@[k])@ == n;
        assert(member_has(b.members@, (b.seen@[k])@) || queued_has(b.pending@, (b.seen@[k])@));
    }
    assert forall|i: int, j: int|
        0 <= i < b.members@.len() && 0 <= j < b.members@[i].references@.len() implies member_has(
        b.members@,
        (#[trigger] b.members@[i].references@[j]).spec_base_name(),
    ) by {
        let n = b.members@[i].references@[j].spec_base_name();
        assert(name_list_contains(b.seen@, n));
        let k = choose|k: int| 0 <= k < b.seen@.len() && (b.seen@[k])@ == n;
        assert(member_has(b.members@, (b.seen@[k])@) || queued_has(b.pending@, (b.seen@[k])@));
    }
}

} // verus!
