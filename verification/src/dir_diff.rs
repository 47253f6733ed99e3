//! Hierarchical comparison of two directory snapshots.
//!
//! Comparing two snapshots ("base" and "target") classifies every entry name
//! into one of four categories — `missing` (only in base), `new` (only in
//! target), `changed` (in both, contents differ) and `same` (in both,
//! contents identical) — and recurses into subdirectories present on both
//! sides. Two files count as identical when their SHA-256 digests are equal.

use crate::dir_tree::{
    distinct_keys, distinct_names, key_index, key_set, lemma_distinct_push,
    lemma_key_set_take_step, lemma_lookup_at, lemma_name_set_empty, lemma_name_set_push,
    lemma_name_set_take_step, lookup, map_get, name_set, names_contain, DirTree, File,
};
use sha2::Digest;
use vstd::prelude::*;

verus! {

/// A four-way classification of the union of two name sets.
///
/// The categories are pairwise disjoint and together cover every name that
/// occurs on either side.
#[derive(Debug)]
pub struct Comparison<T> {
    /// Items that contain differences.
    pub changed: Vec<T>,

    /// Items that are missing from the target.
    pub missing: Vec<T>,

    /// Items that are new in the target.
    pub new: Vec<T>,

    /// Items that are identical between base and target.
    pub same: Vec<T>,
}

impl<T> Comparison<T> {
    /// No item differs between the two sides: `changed`, `new` and `missing`
    /// are all empty (`same` may hold any number of items).
    pub open spec fn spec_unchanged(self) -> bool {
        &&& self.changed@.len() == 0
        &&& self.new@.len() == 0
        &&& self.missing@.len() == 0
    }

    /// Reports whether the classification found no difference.
    pub fn unchanged(&self) -> (r: bool)
        ensures
            r == self.spec_unchanged(),
    {
        self.changed.is_empty() && self.new.is_empty() && self.missing.is_empty()
    }
}

/// The result of comparing two snapshots at one tree level.
#[derive(Debug)]
pub struct DirComparison {
    /// Result of comparing files in the directory.
    pub file_comparison: Comparison<String>,

    /// Result of comparing direct subdirectories.
    pub subdir_comparison: Comparison<String>,

    /// Recursive comparisons of the changed subdirectories, keyed by name.
    pub changed_subdirs: Vec<(String, DirComparison)>,
}

impl DirComparison {
    /// The diff is trivial: both partitions report no difference and no
    /// subdirectory needed a recursive diff.
    pub open spec fn spec_unchanged(self) -> bool {
        &&& self.file_comparison.spec_unchanged()
        &&& self.subdir_comparison.spec_unchanged()
        &&& self.changed_subdirs@.len() == 0
    }

    /// Reports whether the two compared snapshots were identical.
    pub fn unchanged(&self) -> (r: bool)
        ensures
            r == self.spec_unchanged(),
    {
        self.file_comparison.unchanged() && self.subdir_comparison.unchanged()
            && self.changed_subdirs.is_empty()
    }
}

/// The SHA-256 digest of a byte sequence, as the sha2 crate computes it.
pub uninterp spec fn sha256_of(data: Seq<u8>) -> Seq<u8>;

/// Relies on sha2::Sha256 (via the sha2 crate's `Digest` trait): the digest
/// is a function of the input bytes alone and is 32 bytes long.
#[verifier::external_body]
fn hash_file(file: &File) -> (r: Vec<u8>)
    ensures
        r@ == sha256_of(file.content@),
        r@.len() == 32,
{
    let mut hasher = sha2::Sha256::new();
    hasher.update(&file.content);
    hasher.finalize().to_vec()
}

/// Byte-exact equality of two byte strings.
pub fn bytes_equal(a: &Vec<u8>, b: &Vec<u8>) -> (r: bool)
    ensures
        r == (a@ == b@),
{
    if a.len() != b.len() {
        return false;
    }
    let mut i: usize = 0;
    while i < a.len()
        invariant
            a@.len() == b@.len(),
            i <= a@.len(),
            forall|k: int| 0 <= k < i ==> a@[k] == b@[k],
        decreases a@.len() - i,
    {
        if a[i] != b[i] {
            return false;
        }
        i = i + 1;
    }
    proof {
        assert(a@ =~= b@);
    }
    true
}

/// Two files count as having the same content when their SHA-256 digests are
/// equal (this is how the comparison decides, byte-for-byte on the digests).
pub open spec fn same_content(a: File, b: File) -> bool {
    sha256_of(a.content@) == sha256_of(b.content@)
}

/// Two snapshots are equal: same file names with digest-equal contents, same
/// subdirectory names, and all shared subdirectories recursively equal.
pub open spec fn dirs_equal(b: DirTree, t: DirTree) -> bool
    decreases b,
{
    &&& key_set(b.files@) == key_set(t.files@)
    &&& (forall|n: Seq<char>|
        #[trigger] key_set(b.files@).contains(n) && key_set(t.files@).contains(n)
            ==> same_content(lookup(b.files@, n), lookup(t.files@, n)))
    &&& key_set(b.subdirs@) == key_set(t.subdirs@)
    &&& (forall|n: Seq<char>|
        #[trigger] key_set(b.subdirs@).contains(n) && key_set(t.subdirs@).contains(n)
            ==> dirs_equal(lookup(b.subdirs@, n), lookup(t.subdirs@, n)))
}

/// A correct four-way partition of the names `bnames` (base side) and
/// `tnames` (target side), where `differs` decides, for a name present on
/// both sides, whether the two entries differ.
pub open spec fn partition_ok(
    bnames: Set<Seq<char>>,
    tnames: Set<Seq<char>>,
    differs: spec_fn(Seq<char>) -> bool,
    c: Comparison<String>,
) -> bool {
    &&& distinct_names(c.changed@)
    &&& distinct_names(c.missing@)
    &&& distinct_names(c.new@)
    &&& distinct_names(c.same@)
    &&& name_set(c.missing@) == bnames.difference(tnames)
    &&& name_set(c.new@) == tnames.difference(bnames)
    &&& name_set(c.changed@) == Set::new(
        |n: Seq<char>| bnames.contains(n) && tnames.contains(n) && differs(n),
    )
    &&& name_set(c.same@) == Set::new(
        |n: Seq<char>| bnames.contains(n) && tnames.contains(n) && !differs(n),
    )
}

/// The difference criterion for a file name present on both sides: the two
/// contents hash differently.
pub open spec fn file_differs(b: DirTree, t: DirTree) -> spec_fn(Seq<char>) -> bool {
    |n: Seq<char>| !same_content(lookup(b.files@, n), lookup(t.files@, n))
}

/// The difference criterion for a subdirectory name present on both sides:
/// the two child snapshots are not recursively equal.
pub open spec fn subdir_differs(b: DirTree, t: DirTree) -> spec_fn(Seq<char>) -> bool {
    |n: Seq<char>| !dirs_equal(lookup(b.subdirs@, n), lookup(t.subdirs@, n))
}

/// `d` is a correct diff of base `b` against target `t`: both partitions are
/// correct, and `changed_subdirs` holds a correct recursive diff for exactly
/// the changed subdirectory names.
pub open spec fn diff_ok(b: DirTree, t: DirTree, d: DirComparison) -> bool
    decreases d,
{
    &&& partition_ok(
        key_set(b.files@),
        key_set(t.files@),
        file_differs(b, t),
        d.file_comparison,
    )
    &&& partition_ok(
        key_set(b.subdirs@),
        key_set(t.subdirs@),
        subdir_differs(b, t),
        d.subdir_comparison,
    )
    &&& distinct_keys(d.changed_subdirs@)
    &&& key_set(d.changed_subdirs@) == name_set(d.subdir_comparison.changed@)
    &&& (forall|i: int|
        0 <= i < d.changed_subdirs@.len() ==> {
            let n = (#[trigger] d.changed_subdirs@[i]).0@;
            &&& key_set(b.subdirs@).contains(n)
            &&& key_set(t.subdirs@).contains(n)
            &&& diff_ok(lookup(b.subdirs@, n), lookup(t.subdirs@, n), d.changed_subdirs@[i].1)
        })
}

/// Partitions two name lists by membership alone: `missing` holds the names
/// only in `base`, `new` the names only in `target`, `same` the names present
/// in both. `changed` starts out empty; content checks carve it out of `same`
/// afterwards.
pub fn simple_comparison(base: &Vec<String>, target: &Vec<String>) -> (c: Comparison<String>)
    requires
        distinct_names(base@),
        distinct_names(target@),
    ensures
        c.changed@.len() == 0,
        distinct_names(c.missing@),
        distinct_names(c.new@),
        distinct_names(c.same@),
        name_set(c.missing@) == name_set(base@).difference(name_set(target@)),
        name_set(c.new@) == name_set(target@).difference(name_set(base@)),
        name_set(c.same@) == name_set(base@).intersect(name_set(target@)),
{
    let ghost bn = name_set(base@);
    let ghost tn = name_set(target@);
    let mut missing: Vec<String> = Vec::new();
    let mut same: Vec<String> = Vec::new();
    let mut newv: Vec<String> = Vec::new();
    proof {
        assert(name_set(missing@) =~= name_set(base@.take(0)).difference(tn));
        assert(name_set(same@) =~= name_set(base@.take(0)).intersect(tn));
    }
    let mut i: usize = 0;
    while i < base.len()
        invariant
            i <= base@.len(),
            distinct_names(base@),
            distinct_names(missing@),
            distinct_names(same@),
            tn == name_set(target@),
            name_set(missing@) == name_set(base@.take(i as int)).difference(tn),
            name_set(same@) == name_set(base@.take(i as int)).intersect(tn),
        decreases base@.len() - i,
    {
        let ghost pre = name_set(base@.take(i as int));
        let ghost n0 = base@[i as int]@;
        proof {
            lemma_name_set_take_step(base@, i as int);
            if pre.contains(n0) {
                let k = choose|k: int|
                    0 <= k < base@.take(i as int).len() && #[trigger] base@.take(i as int)[k]@
                        == n0;
                assert(base@[k]@ == base@[i as int]@);
                assert(false);
            }
        }
        if names_contain(target, &base[i]) {
            proof {
                assert(!name_set(same@).contains(n0));
                lemma_name_set_push(same@, base@[i as int]);
                lemma_distinct_push(same@, base@[i as int]);
                assert(name_set(same@).insert(n0) =~= pre.insert(n0).intersect(tn));
                assert(name_set(missing@) =~= pre.insert(n0).difference(tn));
            }
            same.push(base[i].clone());
        } else {
            proof {
                assert(!name_set(missing@).contains(n0));
                lemma_name_set_push(missing@, base@[i as int]);
                lemma_distinct_push(missing@, base@[i as int]);
                assert(name_set(missing@).insert(n0) =~= pre.insert(n0).difference(tn));
                assert(name_set(same@) =~= pre.insert(n0).intersect(tn));
            }
            missing.push(base[i].clone());
        }
        i = i + 1;
    }
    proof {
        assert(base@.take(base@.len() as int) =~= base@);
        assert(name_set(newv@) =~= name_set(target@.take(0)).difference(bn));
    }
    let mut j: usize = 0;
    while j < target.len()
        invariant
            j <= target@.len(),
            distinct_names(target@),
            distinct_names(newv@),
            bn == name_set(base@),
            name_set(newv@) == name_set(target@.take(j as int)).difference(bn),
        decreases target@.len() - j,
    {
        let ghost pre = name_set(target@.take(j as int));
        let ghost n0 = target@[j as int]@;
        proof {
            lemma_name_set_take_step(target@, j as int);
            if pre.contains(n0) {
                let k = choose|k: int|
                    0 <= k < target@.take(j as int).len() && #[trigger] target@.take(
                        j as int,
                    )[k]@ == n0;
                assert(target@[k]@ == target@[j as int]@);
                assert(false);
            }
        }
        if names_contain(base, &target[j]) {
            proof {
                assert(name_set(newv@) =~= pre.insert(n0).difference(bn));
            }
        } else {
            proof {
                assert(!name_set(newv@).contains(n0));
                lemma_name_set_push(newv@, target@[j as int]);
                lemma_distinct_push(newv@, target@[j as int]);
                assert(name_set(newv@).insert(n0) =~= pre.insert(n0).difference(bn));
            }
            newv.push(target[j].clone());
        }
        j = j + 1;
    }
    proof {
        assert(target@.take(target@.len() as int) =~= target@);
    }
    Comparison { changed: Vec::new(), missing, new: newv, same }
}

/// Compares two snapshots of the same logical directory.
///
/// Every file and subdirectory name of either side lands in exactly one
/// category of the respective partition: `missing` and `new` by membership,
/// `changed` or `same` for shared files by SHA-256 digest of their contents,
/// and for shared subdirectories by a recursive comparison, whose diff is
/// recorded under `changed_subdirs` exactly when it is non-trivial.
pub fn compare_dirs(base_dir: &DirTree, target_dir: &DirTree) -> (d: DirComparison)
    requires
        base_dir.wf(),
        target_dir.wf(),
    ensures
        diff_ok(*base_dir, *target_dir, d),
    decreases *base_dir,
{
    // Partition the file names, carving `changed` out of the shared names by
    // digest comparison.
    let mut fmissing: Vec<String> = Vec::new();
    let mut fchanged: Vec<String> = Vec::new();
    let mut fsame: Vec<String> = Vec::new();
    let mut fnew: Vec<String> = Vec::new();
    proof {
        assert(name_set(fmissing@) =~= key_set(base_dir.files@.take(0)).difference(
            key_set(target_dir.files@),
        ));
        assert(name_set(fchanged@) =~= Set::new(
            |n: Seq<char>|
                key_set(base_dir.files@.take(0)).contains(n) && key_set(
                    target_dir.files@,
                ).contains(n) && !same_content(
                    lookup(base_dir.files@, n),
                    lookup(target_dir.files@, n),
                ),
        ));
        assert(name_set(fsame@) =~= Set::new(
            |n: Seq<char>|
                key_set(base_dir.files@.take(0)).contains(n) && key_set(
                    target_dir.files@,
                ).contains(n) && same_content(
                    lookup(base_dir.files@, n),
                    lookup(target_dir.files@, n),
                ),
        ));
    }
    let mut i: usize = 0;
    while i < base_dir.files.len()
        invariant
            i <= base_dir.files@.len(),
            base_dir.wf(),
            target_dir.wf(),
            distinct_names(fmissing@),
            distinct_names(fchanged@),
            distinct_names(fsame@),
            name_set(fmissing@) == key_set(base_dir.files@.take(i as int)).difference(
                key_set(target_dir.files@),
            ),
            name_set(fchanged@) == Set::new(
                |n: Seq<char>|
                    key_set(base_dir.files@.take(i as int)).contains(n) && key_set(
                        target_dir.files@,
                    ).contains(n) && !same_content(
                        lookup(base_dir.files@, n),
                        lookup(target_dir.files@, n),
                    ),
            ),
            name_set(fsame@) == Set::new(
                |n: Seq<char>|
                    key_set(base_dir.files@.take(i as int)).contains(n) && key_set(
                        target_dir.files@,
                    ).contains(n) && same_content(
                        lookup(base_dir.files@, n),
                        lookup(target_dir.files@, n),
                    ),
            ),
        decreases base_dir.files@.len() - i,
    {
        let ghost pre = key_set(base_dir.files@.take(i as int));
        let ghost n0 = base_dir.files@[i as int].0@;
        proof {
            lemma_key_set_take_step(base_dir.files@, i as int);
            if pre.contains(n0) {
                let k = choose|k: int|
                    0 <= k < base_dir.files@.take(i as int).len() && #[trigger] base_dir.files@.take(
                        i as int,
                    )[k].0@ == n0;
                assert(base_dir.files@[k].0@ == base_dir.files@[i as int].0@);
                assert(false);
            }
            lemma_lookup_at(base_dir.files@, i as int);
        }
        let name = &base_dir.files[i].0;
        match map_get(&target_dir.files, name) {
            Some(target_file) => {
                let base_hash = hash_file(&base_dir.files[i].1);
                let target_hash = hash_file(target_file);
                let ghost bentry = lookup(base_dir.files@, n0);
                let ghost tentry = lookup(target_dir.files@, n0);
                if bytes_equal(&base_hash, &target_hash) {
                    proof {
                        assert(same_content(bentry, tentry));
                        assert(!name_set(fsame@).contains(n0));
                        lemma_name_set_push(fsame@, base_dir.files@[i as int].0);
                        lemma_distinct_push(fsame@, base_dir.files@[i as int].0);
                        assert(name_set(fsame@).insert(n0) =~= Set::new(
                            |n: Seq<char>|
                                key_set(base_dir.files@.take(i as int + 1)).contains(n) && key_set(
                                    target_dir.files@,
                                ).contains(n) && same_content(
                                    lookup(base_dir.files@, n),
                                    lookup(target_dir.files@, n),
                                ),
                        ));
                        assert(name_set(fchanged@) =~= Set::new(
                            |n: Seq<char>|
                                key_set(base_dir.files@.take(i as int + 1)).contains(n) && key_set(
                                    target_dir.files@,
                                ).contains(n) && !same_content(
                                    lookup(base_dir.files@, n),
                                    lookup(target_dir.files@, n),
                                ),
                        ));
                        assert(name_set(fmissing@) =~= key_set(
                            base_dir.files@.take(i as int + 1),
                        ).difference(key_set(target_dir.files@)));
                    }
                    fsame.push(name.clone());
                } else {
                    proof {
                        assert(!same_content(bentry, tentry));
                        assert(!name_set(fchanged@).contains(n0));
                        lemma_name_set_push(fchanged@, base_dir.files@[i as int].0);
                        lemma_distinct_push(fchanged@, base_dir.files@[i as int].0);
                        assert(name_set(fchanged@).insert(n0) =~= Set::new(
                            |n: Seq<char>|
                                key_set(base_dir.files@.take(i as int + 1)).contains(n) && key_set(
                                    target_dir.files@,
                                ).contains(n) && !same_content(
                                    lookup(base_dir.files@, n),
                                    lookup(target_dir.files@, n),
                                ),
                        ));
                        assert(name_set(fsame@) =~= Set::new(
                            |n: Seq<char>|
                                key_set(base_dir.files@.take(i as int + 1)).contains(n) && key_set(
                                    target_dir.files@,
                                ).contains(n) && same_content(
                                    lookup(base_dir.files@, n),
                                    lookup(target_dir.files@, n),
                                ),
                        ));
                        assert(name_set(fmissing@) =~= key_set(
                            base_dir.files@.take(i as int + 1),
                        ).difference(key_set(target_dir.files@)));
                    }
                    fchanged.push(name.clone());
                }
            },
            None => {
                proof {
                    assert(!name_set(fmissing@).contains(n0));
                    lemma_name_set_push(fmissing@, base_dir.files@[i as int].0);
                    lemma_distinct_push(fmissing@, base_dir.files@[i as int].0);
                    assert(name_set(fmissing@).insert(n0) =~= key_set(
                        base_dir.files@.take(i as int + 1),
                    ).difference(key_set(target_dir.files@)));
                    assert(name_set(fchanged@) =~= Set::new(
                        |n: Seq<char>|
                            key_set(base_dir.files@.take(i as int + 1)).contains(n) && key_set(
                                target_dir.files@,
                            ).contains(n) && !same_content(
                                lookup(base_dir.files@, n),
                                lookup(target_dir.files@, n),
                            ),
                    ));
                    assert(name_set(fsame@) =~= Set::new(
                        |n: Seq<char>|
                            key_set(base_dir.files@.take(i as int + 1)).contains(n) && key_set(
                                target_dir.files@,
                            ).contains(n) && same_content(
                                lookup(base_dir.files@, n),
                                lookup(target_dir.files@, n),
                            ),
                    ));
                }
                fmissing.push(name.clone());
            },
        }
        i = i + 1;
    }
    proof {
        assert(base_dir.files@.take(base_dir.files@.len() as int) =~= base_dir.files@);
        assert(name_set(fnew@) =~= key_set(target_dir.files@.take(0)).difference(
            key_set(base_dir.files@),
        ));
    }
    // Names present only in the target are new.
    let mut j: usize = 0;
    while j < target_dir.files.len()
        invariant
            j <= target_dir.files@.len(),
            base_dir.wf(),
            target_dir.wf(),
            distinct_names(fnew@),
            name_set(fnew@) == key_set(target_dir.files@.take(j as int)).difference(
                key_set(base_dir.files@),
            ),
        decreases target_dir.files@.len() - j,
    {
        let ghost pre = key_set(target_dir.files@.take(j as int));
        let ghost n0 = target_dir.files@[j as int].0@;
        proof {
            lemma_key_set_take_step(target_dir.files@, j as int);
            if pre.contains(n0) {
                let k = choose|k: int|
                    0 <= k < target_dir.files@.take(j as int).len()
                        && #[trigger] target_dir.files@.take(j as int)[k].0@ == n0;
                assert(target_dir.files@[k].0@ == target_dir.files@[j as int].0@);
                assert(false);
            }
        }
        match map_get(&base_dir.files, &target_dir.files[j].0) {
            Some(_) => {
                proof {
                    assert(name_set(fnew@) =~= pre.insert(n0).difference(
                        key_set(base_dir.files@),
                    ));
                }
            },
            None => {
                proof {
                    assert(!name_set(fnew@).contains(n0));
                    lemma_name_set_push(fnew@, target_dir.files@[j as int].0);
                    lemma_distinct_push(fnew@, target_dir.files@[j as int].0);
                    assert(name_set(fnew@).insert(n0) =~= pre.insert(n0).difference(
                        key_set(base_dir.files@),
                    ));
                }
                fnew.push(target_dir.files[j].0.clone());
            },
        }
        j = j + 1;
    }
    proof {
        assert(target_dir.files@.take(target_dir.files@.len() as int) =~= target_dir.files@);
    }
    // Partition the subdirectory names, comparing shared subdirectories
    // recursively and recording each non-trivial nested diff.
    let mut smissing: Vec<String> = Vec::new();
    let mut schanged: Vec<String> = Vec::new();
    let mut ssame: Vec<String> = Vec::new();
    let mut snew: Vec<String> = Vec::new();
    let mut changed_subdirs: Vec<(String, DirComparison)> = Vec::new();
    proof {
        assert(name_set(smissing@) =~= key_set(base_dir.subdirs@.take(0)).difference(
            key_set(target_dir.subdirs@),
        ));
        assert(name_set(schanged@) =~= Set::new(
            |n: Seq<char>|
                key_set(base_dir.subdirs@.take(0)).contains(n) && key_set(
                    target_dir.subdirs@,
                ).contains(n) && !dirs_equal(
                    lookup(base_dir.subdirs@, n),
                    lookup(target_dir.subdirs@, n),
                ),
        ));
        assert(name_set(ssame@) =~= Set::new(
            |n: Seq<char>|
                key_set(base_dir.subdirs@.take(0)).contains(n) && key_set(
                    target_dir.subdirs@,
                ).contains(n) && dirs_equal(
                    lookup(base_dir.subdirs@, n),
                    lookup(target_dir.subdirs@, n),
                ),
        ));
    }
    let mut k: usize = 0;
    while k < base_dir.subdirs.len()
        invariant
            k <= base_dir.subdirs@.len(),
            base_dir.wf(),
            target_dir.wf(),
            distinct_names(smissing@),
            distinct_names(schanged@),
            distinct_names(ssame@),
            name_set(smissing@) == key_set(base_dir.subdirs@.take(k as int)).difference(
                key_set(target_dir.subdirs@),
            ),
            name_set(schanged@) == Set::new(
                |n: Seq<char>|
                    key_set(base_dir.subdirs@.take(k as int)).contains(n) && key_set(
                        target_dir.subdirs@,
                    ).contains(n) && !dirs_equal(
                        lookup(base_dir.subdirs@, n),
                        lookup(target_dir.subdirs@, n),
                    ),
            ),
            name_set(ssame@) == Set::new(
                |n: Seq<char>|
                    key_set(base_dir.subdirs@.take(k as int)).contains(n) && key_set(
                        target_dir.subdirs@,
                    ).contains(n) && dirs_equal(
                        lookup(base_dir.subdirs@, n),
                        lookup(target_dir.subdirs@, n),
                    ),
            ),
            changed_subdirs@.len() == schanged@.len(),
            forall|q: int|
                0 <= q < changed_subdirs@.len() ==> (#[trigger] changed_subdirs@[q]).0@
                    == schanged@[q]@,
            forall|q: int|
                0 <= q < changed_subdirs@.len() ==> {
                    let n = (#[trigger] changed_subdirs@[q]).0@;
                    &&& key_set(base_dir.subdirs@).contains(n)
                    &&& key_set(target_dir.subdirs@).contains(n)
                    &&& diff_ok(
                        lookup(base_dir.subdirs@, n),
                        lookup(target_dir.subdirs@, n),
                        changed_subdirs@[q].1,
                    )
                },
        decreases base_dir.subdirs@.len() - k,
    {
        let ghost pre = key_set(base_dir.subdirs@.take(k as int));
        let ghost n0 = base_dir.subdirs@[k as int].0@;
        proof {
            lemma_key_set_take_step(base_dir.subdirs@, k as int);
            if pre.contains(n0) {
                let q = choose|q: int|
                    0 <= q < base_dir.subdirs@.take(k as int).len()
                        && #[trigger] base_dir.subdirs@.take(k as int)[q].0@ == n0;
                assert(base_dir.subdirs@[q].0@ == base_dir.subdirs@[k as int].0@);
                assert(false);
            }
            lemma_lookup_at(base_dir.subdirs@, k as int);
            assert(base_dir.subdirs@[k as int].1.wf());
        }
        let name = &base_dir.subdirs[k].0;
        match map_get(&target_dir.subdirs, name) {
            Some(target_sub) => {
                proof {
                    let ki = key_index(target_dir.subdirs@, n0);
                    assert(0 <= ki < target_dir.subdirs@.len() && target_dir.subdirs@[ki].0@
                        == n0);
                    assert(target_dir.subdirs@[ki].1.wf());
                }
                let dd = compare_dirs(&base_dir.subdirs[k].1, target_sub);
                proof {
                    lemma_trivial_iff_equal(base_dir.subdirs@[k as int].1, *target_sub, dd);
                }
                if dd.unchanged() {
                    proof {
                        assert(dirs_equal(
                            lookup(base_dir.subdirs@, n0),
                            lookup(target_dir.subdirs@, n0),
                        ));
                        assert(!name_set(ssame@).contains(n0));
                        lemma_name_set_push(ssame@, base_dir.subdirs@[k as int].0);
                        lemma_distinct_push(ssame@, base_dir.subdirs@[k as int].0);
                        assert(name_set(ssame@).insert(n0) =~= Set::new(
                            |n: Seq<char>|
                                key_set(base_dir.subdirs@.take(k as int + 1)).contains(n)
                                    && key_set(target_dir.subdirs@).contains(n) && dirs_equal(
                                    lookup(base_dir.subdirs@, n),
                                    lookup(target_dir.subdirs@, n),
                                ),
                        ));
                        assert(name_set(schanged@) =~= Set::new(
                            |n: Seq<char>|
                                key_set(base_dir.subdirs@.take(k as int + 1)).contains(n)
                                    && key_set(target_dir.subdirs@).contains(n) && !dirs_equal(
                                    lookup(base_dir.subdirs@, n),
                                    lookup(target_dir.subdirs@, n),
                                ),
                        ));
                        assert(name_set(smissing@) =~= key_set(
                            base_dir.subdirs@.take(k as int + 1),
                        ).difference(key_set(target_dir.subdirs@)));
                    }
                    ssame.push(name.clone());
                } else {
                    proof {
                        assert(!dirs_equal(
                            lookup(base_dir.subdirs@, n0),
                            lookup(target_dir.subdirs@, n0),
                        ));
                        assert(!name_set(schanged@).contains(n0));
                        lemma_name_set_push(schanged@, base_dir.subdirs@[k as int].0);
                        lemma_distinct_push(schanged@, base_dir.subdirs@[k as int].0);
                        assert(name_set(schanged@).insert(n0) =~= Set::new(
                            |n: Seq<char>|
                                key_set(base_dir.subdirs@.take(k as int + 1)).contains(n)
                                    && key_set(target_dir.subdirs@).contains(n) && !dirs_equal(
                                    lookup(base_dir.subdirs@, n),
                                    lookup(target_dir.subdirs@, n),
                                ),
                        ));
                        assert(name_set(ssame@) =~= Set::new(
                            |n: Seq<char>|
                                key_set(base_dir.subdirs@.take(k as int + 1)).contains(n)
                                    && key_set(target_dir.subdirs@).contains(n) && dirs_equal(
                                    lookup(base_dir.subdirs@, n),
                                    lookup(target_dir.subdirs@, n),
                                ),
                        ));
                        assert(name_set(smissing@) =~= key_set(
                            base_dir.subdirs@.take(k as int + 1),
                        ).difference(key_set(target_dir.subdirs@)));
                    }
                    schanged.push(name.clone());
                    changed_subdirs.push((name.clone(), dd));
                }
            },
            None => {
                proof {
                    assert(!name_set(smissing@).contains(n0));
                    lemma_name_set_push(smissing@, base_dir.subdirs@[k as int].0);
                    lemma_distinct_push(smissing@, base_dir.subdirs@[k as int].0);
                    assert(name_set(smissing@).insert(n0) =~= key_set(
                        base_dir.subdirs@.take(k as int + 1),
                    ).difference(key_set(target_dir.subdirs@)));
                    assert(name_set(schanged@) =~= Set::new(
                        |n: Seq<char>|
                            key_set(base_dir.subdirs@.take(k as int + 1)).contains(n) && key_set(
                                target_dir.subdirs@,
                            ).contains(n) && !dirs_equal(
                                lookup(base_dir.subdirs@, n),
                                lookup(target_dir.subdirs@, n),
                            ),
                    ));
                    assert(name_set(ssame@) =~= Set::new(
                        |n: Seq<char>|
                            key_set(base_dir.subdirs@.take(k as int + 1)).contains(n) && key_set(
                                target_dir.subdirs@,
                            ).contains(n) && dirs_equal(
                                lookup(base_dir.subdirs@, n),
                                lookup(target_dir.subdirs@, n),
                            ),
                    ));
                }
                smissing.push(name.clone());
            },
        }
        k = k + 1;
    }
    proof {
        assert(base_dir.subdirs@.take(base_dir.subdirs@.len() as int) =~= base_dir.subdirs@);
        assert(name_set(snew@) =~= key_set(target_dir.subdirs@.take(0)).difference(
            key_set(base_dir.subdirs@),
        ));
    }
    let mut m: usize = 0;
    while m < target_dir.subdirs.len()
        invariant
            m <= target_dir.subdirs@.len(),
            base_dir.wf(),
            target_dir.wf(),
            distinct_names(snew@),
            name_set(snew@) == key_set(target_dir.subdirs@.take(m as int)).difference(
                key_set(base_dir.subdirs@),
            ),
        decreases target_dir.subdirs@.len() - m,
    {
        let ghost pre = key_set(target_dir.subdirs@.take(m as int));
        let ghost n0 = target_dir.subdirs@[m as int].0@;
        proof {
            lemma_key_set_take_step(target_dir.subdirs@, m as int);
            if pre.contains(n0) {
                let q = choose|q: int|
                    0 <= q < target_dir.subdirs@.take(m as int).len()
                        && #[trigger] target_dir.subdirs@.take(m as int)[q].0@ == n0;
                assert(target_dir.subdirs@[q].0@ == target_dir.subdirs@[m as int].0@);
                assert(false);
            }
        }
        match map_get(&base_dir.subdirs, &target_dir.subdirs[m].0) {
            Some(_) => {
                proof {
                    assert(name_set(snew@) =~= pre.insert(n0).difference(
                        key_set(base_dir.subdirs@),
                    ));
                }
            },
            None => {
                proof {
                    assert(!name_set(snew@).contains(n0));
                    lemma_name_set_push(snew@, target_dir.subdirs@[m as int].0);
                    lemma_distinct_push(snew@, target_dir.subdirs@[m as int].0);
                    assert(name_set(snew@).insert(n0) =~= pre.insert(n0).difference(
                        key_set(base_dir.subdirs@),
                    ));
                }
                snew.push(target_dir.subdirs[m].0.clone());
            },
        }
        m = m + 1;
    }
    proof {
        assert(target_dir.subdirs@.take(target_dir.subdirs@.len() as int)
            =~= target_dir.subdirs@);
    }
    let d = DirComparison {
        file_comparison: Comparison {
            changed: fchanged,
            missing: fmissing,
            new: fnew,
            same: fsame,
        },
        subdir_comparison: Comparison {
            changed: schanged,
            missing: smissing,
            new: snew,
            same: ssame,
        },
        changed_subdirs,
    };
    proof {
        assert(name_set(d.file_comparison.changed@) =~= Set::new(
            |n: Seq<char>|
                key_set(base_dir.files@).contains(n) && key_set(target_dir.files@).contains(n)
                    && (file_differs(*base_dir, *target_dir))(n),
        ));
        assert(name_set(d.file_comparison.same@) =~= Set::new(
            |n: Seq<char>|
                key_set(base_dir.files@).contains(n) && key_set(target_dir.files@).contains(n)
                    && !(file_differs(*base_dir, *target_dir))(n),
        ));
        assert(name_set(d.subdir_comparison.changed@) =~= Set::new(
            |n: Seq<char>|
                key_set(base_dir.subdirs@).contains(n) && key_set(target_dir.subdirs@).contains(
                    n,
                ) && (subdir_differs(*base_dir, *target_dir))(n),
        ));
        assert(name_set(d.subdir_comparison.same@) =~= Set::new(
            |n: Seq<char>|
                key_set(base_dir.subdirs@).contains(n) && key_set(target_dir.subdirs@).contains(
                    n,
                ) && !(subdir_differs(*base_dir, *target_dir))(n),
        ));
        assert forall|n: Seq<char>| key_set(d.changed_subdirs@).contains(n) implies name_set(
            d.subdir_comparison.changed@,
        ).contains(n) by {
            let q = choose|q: int|
                0 <= q < d.changed_subdirs@.len() && #[trigger] d.changed_subdirs@[q].0@ == n;
            assert(d.subdir_comparison.changed@[q]@ == n);
        }
        assert forall|n: Seq<char>| name_set(d.subdir_comparison.changed@).contains(
            n,
        ) implies key_set(d.changed_subdirs@).contains(n) by {
            let q = choose|q: int|
                0 <= q < d.subdir_comparison.changed@.len()
                    && #[trigger] d.subdir_comparison.changed@[q]@ == n;
            assert(d.changed_subdirs@[q].0@ == n);
        }
        assert(key_set(d.changed_subdirs@) =~= name_set(d.subdir_comparison.changed@));
        assert(distinct_keys(d.changed_subdirs@));
    }
    d
}

/// A correct diff is trivial exactly when the two snapshots are equal.
pub proof fn lemma_trivial_iff_equal(b: DirTree, t: DirTree, d: DirComparison)
    requires
        diff_ok(b, t, d),
    ensures
        d.spec_unchanged() <==> dirs_equal(b, t),
{
    let bf = key_set(b.files@);
    let tf = key_set(t.files@);
    let bs = key_set(b.subdirs@);
    let ts = key_set(t.subdirs@);
    if dirs_equal(b, t) {
        assert(name_set(d.file_comparison.missing@) =~= Set::<Seq<char>>::empty());
        assert(name_set(d.file_comparison.new@) =~= Set::<Seq<char>>::empty());
        assert(name_set(d.file_comparison.changed@) =~= Set::<Seq<char>>::empty());
        assert(name_set(d.subdir_comparison.missing@) =~= Set::<Seq<char>>::empty());
        assert(name_set(d.subdir_comparison.new@) =~= Set::<Seq<char>>::empty());
        assert(name_set(d.subdir_comparison.changed@) =~= Set::<Seq<char>>::empty());
        lemma_name_set_empty(d.file_comparison.missing@);
        lemma_name_set_empty(d.file_comparison.new@);
        lemma_name_set_empty(d.file_comparison.changed@);
        lemma_name_set_empty(d.subdir_comparison.missing@);
        lemma_name_set_empty(d.subdir_comparison.new@);
        lemma_name_set_empty(d.subdir_comparison.changed@);
        if d.changed_subdirs@.len() > 0 {
            assert(key_set(d.changed_subdirs@).contains(d.changed_subdirs@[0].0@));
        }
    } else {
        if d.spec_unchanged() {
            lemma_name_set_empty(d.file_comparison.missing@);
            lemma_name_set_empty(d.file_comparison.new@);
            lemma_name_set_empty(d.file_comparison.changed@);
            lemma_name_set_empty(d.subdir_comparison.missing@);
            lemma_name_set_empty(d.subdir_comparison.new@);
            lemma_name_set_empty(d.subdir_comparison.changed@);
            assert(bf =~= tf) by {
                assert forall|n: Seq<char>| bf.contains(n) implies tf.contains(n) by {
                    assert(!bf.difference(tf).contains(n));
                }
                assert forall|n: Seq<char>| tf.contains(n) implies bf.contains(n) by {
                    assert(!tf.difference(bf).contains(n));
                }
            }
            assert(bs =~= ts) by {
                assert forall|n: Seq<char>| bs.contains(n) implies ts.contains(n) by {
                    assert(!bs.difference(ts).contains(n));
                }
                assert forall|n: Seq<char>| ts.contains(n) implies bs.contains(n) by {
                    assert(!ts.difference(bs).contains(n));
                }
            }
            assert forall|n: Seq<char>|
                #[trigger] bf.contains(n) && tf.contains(n) implies same_content(
                lookup(b.files@, n),
                lookup(t.files@, n),
            ) by {
                assert(!name_set(d.file_comparison.changed@).contains(n));
            }
            assert forall|n: Seq<char>|
                #[trigger] bs.contains(n) && ts.contains(n) implies dirs_equal(
                lookup(b.subdirs@, n),
                lookup(t.subdirs@, n),
            ) by {
                assert(!name_set(d.subdir_comparison.changed@).contains(n));
            }
            assert(dirs_equal(b, t));
        }
    }
}

/// Snapshot equality at the byte level: same file names with byte-identical
/// contents, same subdirectory names, and all shared subdirectories
/// recursively identical.
pub open spec fn contents_identical(b: DirTree, t: DirTree) -> bool
    decreases b,
{
    &&& key_set(b.files@) == key_set(t.files@)
    &&& (forall|n: Seq<char>|
        #[trigger] key_set(b.files@).contains(n) && key_set(t.files@).contains(n) ==> lookup(
            b.files@,
            n,
        ).content@ == lookup(t.files@, n).content@)
    &&& key_set(b.subdirs@) == key_set(t.subdirs@)
    &&& (forall|n: Seq<char>|
        #[trigger] key_set(b.subdirs@).contains(n) && key_set(t.subdirs@).contains(n)
            ==> contents_identical(lookup(b.subdirs@, n), lookup(t.subdirs@, n)))
}

/// Byte-identical snapshots are digest-equal snapshots.
pub proof fn lemma_identical_implies_equal(b: DirTree, t: DirTree)
    requires
        contents_identical(b, t),
    ensures
        dirs_equal(b, t),
    decreases b,
{
    assert forall|n: Seq<char>|
        #[trigger] key_set(b.subdirs@).contains(n) && key_set(t.subdirs@).contains(
            n,
        ) implies dirs_equal(lookup(b.subdirs@, n), lookup(t.subdirs@, n)) by {
        lemma_identical_implies_equal(lookup(b.subdirs@, n), lookup(t.subdirs@, n));
    }
}

/// Two snapshots with identical file sets and identical file contents
/// compare as a trivial diff.
pub proof fn lemma_identical_snapshots_compare_unchanged(
    b: DirTree,
    t: DirTree,
    d: DirComparison,
)
    requires
        diff_ok(b, t, d),
        contents_identical(b, t),
    ensures
        d.spec_unchanged(),
{
    lemma_identical_implies_equal(b, t);
    lemma_trivial_iff_equal(b, t, d);
}

/// The four categories of a partition are pairwise disjoint, and their union
/// is the union of the base-side and target-side name sets.
pub proof fn lemma_partition_disjoint_complete(
    bnames: Set<Seq<char>>,
    tnames: Set<Seq<char>>,
    differs: spec_fn(Seq<char>) -> bool,
    c: Comparison<String>,
)
    requires
        partition_ok(bnames, tnames, differs, c),
    ensures
        name_set(c.missing@).intersect(name_set(c.new@)) == Set::<Seq<char>>::empty(),
        name_set(c.missing@).intersect(name_set(c.changed@)) == Set::<Seq<char>>::empty(),
        name_set(c.missing@).intersect(name_set(c.same@)) == Set::<Seq<char>>::empty(),
        name_set(c.new@).intersect(name_set(c.changed@)) == Set::<Seq<char>>::empty(),
        name_set(c.new@).intersect(name_set(c.same@)) == Set::<Seq<char>>::empty(),
        name_set(c.changed@).intersect(name_set(c.same@)) == Set::<Seq<char>>::empty(),
        name_set(c.missing@).union(name_set(c.new@)).union(name_set(c.changed@)).union(
            name_set(c.same@),
        ) == bnames.union(tnames),
{
    assert(name_set(c.missing@).intersect(name_set(c.new@)) =~= Set::<Seq<char>>::empty());
    assert(name_set(c.missing@).intersect(name_set(c.changed@)) =~= Set::<Seq<char>>::empty());
    assert(name_set(c.missing@).intersect(name_set(c.same@)) =~= Set::<Seq<char>>::empty());
    assert(name_set(c.new@).intersect(name_set(c.changed@)) =~= Set::<Seq<char>>::empty());
    assert(name_set(c.new@).intersect(name_set(c.same@)) =~= Set::<Seq<char>>::empty());
    assert(name_set(c.changed@).intersect(name_set(c.same@)) =~= Set::<Seq<char>>::empty());
    assert(name_set(c.missing@).union(name_set(c.new@)).union(name_set(c.changed@)).union(
        name_set(c.same@),
    ) =~= bnames.union(tnames));
}

/// Classification of one file name: present only in base it is `missing`;
/// present only in target, `new`; present in both, `same` or `changed` by
/// digest equality of the two contents — and in no other category.
pub proof fn lemma_file_classification(b: DirTree, t: DirTree, d: DirComparison, n: Seq<char>)
    requires
        diff_ok(b, t, d),
    ensures
        name_set(d.file_comparison.missing@).contains(n) <==> (key_set(b.files@).contains(n)
            && !key_set(t.files@).contains(n)),
        name_set(d.file_comparison.new@).contains(n) <==> (!key_set(b.files@).contains(n)
            && key_set(t.files@).contains(n)),
        name_set(d.file_comparison.changed@).contains(n) <==> (key_set(b.files@).contains(n)
            && key_set(t.files@).contains(n) && !same_content(
            lookup(b.files@, n),
            lookup(t.files@, n),
        )),
        name_set(d.file_comparison.same@).contains(n) <==> (key_set(b.files@).contains(n)
            && key_set(t.files@).contains(n) && same_content(
            lookup(b.files@, n),
            lookup(t.files@, n),
        )),
{
}

/// A shared subdirectory whose snapshots differ is classified `changed`, its
/// own diff is recorded in the nested-diff map, that nested diff is itself
/// non-trivial, and the whole diff is non-trivial.
pub proof fn lemma_changed_subdir_recorded(b: DirTree, t: DirTree, d: DirComparison, n: Seq<char>)
    requires
        diff_ok(b, t, d),
        key_set(b.subdirs@).contains(n),
        key_set(t.subdirs@).contains(n),
        !dirs_equal(lookup(b.subdirs@, n), lookup(t.subdirs@, n)),
    ensures
        name_set(d.subdir_comparison.changed@).contains(n),
        key_set(d.changed_subdirs@).contains(n),
        diff_ok(lookup(b.subdirs@, n), lookup(t.subdirs@, n), lookup(d.changed_subdirs@, n)),
        !lookup(d.changed_subdirs@, n).spec_unchanged(),
        !d.spec_unchanged(),
{
    assert(name_set(d.subdir_comparison.changed@).contains(n));
    assert(key_set(d.changed_subdirs@).contains(n));
    let q = key_index(d.changed_subdirs@, n);
    assert(0 <= q < d.changed_subdirs@.len() && d.changed_subdirs@[q].0@ == n);
    lemma_lookup_at(d.changed_subdirs@, q);
    assert(diff_ok(lookup(b.subdirs@, n), lookup(t.subdirs@, n), d.changed_subdirs@[q].1));
    lemma_trivial_iff_equal(
        lookup(b.subdirs@, n),
        lookup(t.subdirs@, n),
        lookup(d.changed_subdirs@, n),
    );
    if d.subdir_comparison.changed@.len() == 0 {
        lemma_name_set_empty(d.subdir_comparison.changed@);
        assert(false);
    }
}

/// A difference inside a shared subdirectory makes the parent snapshots
/// differ as well; so a deeply nested difference surfaces as a non-trivial
/// diff at every ancestor level up to the root.
pub proof fn lemma_nested_difference_propagates(b: DirTree, t: DirTree, n: Seq<char>)
    requires
        key_set(b.subdirs@).contains(n),
        key_set(t.subdirs@).contains(n),
        !dirs_equal(lookup(b.subdirs@, n), lookup(t.subdirs@, n)),
    ensures
        !dirs_equal(b, t),
{
}

} // verus!
