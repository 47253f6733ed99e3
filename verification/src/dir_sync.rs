//! Planning the synchronization of a target directory with a base directory.
//!
//! A plan is an ordered list of operations that would transform the target
//! into the base: `missing` and `changed` items are copied from the base,
//! `same` items are kept, and `new` items are removed under the `Full`
//! strategy but kept under the `Patch` strategy. Changed subdirectories are
//! planned recursively with the joined paths as new roots.

use crate::dir_diff::{
    contents_identical, diff_ok, dirs_equal, lemma_identical_implies_equal,
    lemma_trivial_iff_equal, same_content, DirComparison,
};
use crate::dir_tree::{key_index, key_set, lemma_lookup_at, lookup, name_set, DirTree};
use vstd::prelude::*;
use vstd::string::StringExecFns;

verus! {

/// One planned filesystem operation, over absolute paths.
#[derive(Debug, Clone, PartialEq, Eq)]
pub enum SyncOp {
    /// Copy a file or directory from a source location to a destination.
    Copy {
        /// Thing to copy.
        src: String,
        /// Destination to copy to.
        dest: String,
    },
    /// Remove a file or directory.
    Remove {
        /// Path of the file or directory to remove.
        path: String,
    },
    /// Keep the existing file or directory (recorded so that a dry run can
    /// report every decision, including "no action needed").
    Keep {
        /// Path of the file or directory to keep.
        path: String,
    },
}

/// The mathematical value of a [`SyncOp`]: the same operation with each path
/// as a character sequence.
pub enum OpModel {
    /// Copy from a source path to a destination path.
    Copy { src: Seq<char>, dest: Seq<char> },
    /// Remove the item at a path.
    Remove { path: Seq<char> },
    /// Keep the item at a path.
    Keep { path: Seq<char> },
}

impl View for SyncOp {
    type V = OpModel;

    open spec fn view(&self) -> OpModel {
        match self {
            SyncOp::Copy { src, dest } => OpModel::Copy { src: src@, dest: dest@ },
            SyncOp::Remove { path } => OpModel::Remove { path: path@ },
            SyncOp::Keep { path } => OpModel::Keep { path: path@ },
        }
    }
}

/// The policy for items present only in the target.
#[derive(Debug)]
pub enum SyncStrategy {
    /// Remove new items and add missing items (destructive mirror).
    Full,
    /// Patch up any missing items but do not delete new items.
    Patch,
}

/// A directory path joined with an entry name by the path separator.
pub open spec fn joined(dir: Seq<char>, name: Seq<char>) -> Seq<char> {
    dir + seq!['/'] + name
}

/// The values of a list of operations.
pub open spec fn ops_view(s: Seq<SyncOp>) -> Seq<OpModel> {
    s.map_values(|op: SyncOp| op@)
}

/// The copy operation planned for one entry name.
pub open spec fn copy_op(base: Seq<char>, target: Seq<char>, name: Seq<char>) -> OpModel {
    OpModel::Copy { src: joined(base, name), dest: joined(target, name) }
}

/// Copy operations for a list of names, in order.
pub open spec fn copy_ops(base: Seq<char>, target: Seq<char>, names: Seq<String>) -> Seq<
    OpModel,
> {
    names.map_values(|s: String| copy_op(base, target, s@))
}

/// Remove operations for a list of names, in order.
pub open spec fn remove_ops(target: Seq<char>, names: Seq<String>) -> Seq<OpModel> {
    names.map_values(|s: String| OpModel::Remove { path: joined(target, s@) })
}

/// Keep operations for a list of names, in order.
pub open spec fn keep_ops(target: Seq<char>, names: Seq<String>) -> Seq<OpModel> {
    names.map_values(|s: String| OpModel::Keep { path: joined(target, s@) })
}

/// The operations planned for the `new` names: removed under `Full`, kept
/// under `Patch`. This is the only decision the strategy governs.
pub open spec fn new_ops(strategy: SyncStrategy, target: Seq<char>, names: Seq<String>) -> Seq<
    OpModel,
> {
    match strategy {
        SyncStrategy::Full => remove_ops(target, names),
        SyncStrategy::Patch => keep_ops(target, names),
    }
}

/// The operations planned for one directory level, in order: file copies for
/// `missing` and `changed`, the strategy's choice for `new`, keeps for
/// `same`; then the same for subdirectories (whole-subtree copies for
/// `missing`, no copy list for `changed` — those are planned recursively).
pub open spec fn level_ops(
    d: DirComparison,
    strategy: SyncStrategy,
    base: Seq<char>,
    target: Seq<char>,
) -> Seq<OpModel> {
    copy_ops(base, target, d.file_comparison.missing@) + copy_ops(
        base,
        target,
        d.file_comparison.changed@,
    ) + new_ops(strategy, target, d.file_comparison.new@) + keep_ops(
        target,
        d.file_comparison.same@,
    ) + copy_ops(base, target, d.subdir_comparison.missing@) + new_ops(
        strategy,
        target,
        d.subdir_comparison.new@,
    ) + keep_ops(target, d.subdir_comparison.same@)
}

/// The whole plan for a diff: this level's operations, then the plans of the
/// changed subdirectories, in order, each rooted at the joined paths.
pub open spec fn plan_ops(
    d: DirComparison,
    strategy: SyncStrategy,
    base: Seq<char>,
    target: Seq<char>,
) -> Seq<OpModel>
    decreases d, d.changed_subdirs@.len() + 1,
{
    level_ops(d, strategy, base, target) + subdir_plan_prefix(
        d,
        strategy,
        base,
        target,
        d.changed_subdirs@.len() as int,
    )
}

/// The concatenated plans of the first `i` changed subdirectories of `d`.
pub open spec fn subdir_plan_prefix(
    d: DirComparison,
    strategy: SyncStrategy,
    base: Seq<char>,
    target: Seq<char>,
    i: int,
) -> Seq<OpModel>
    decreases d, i,
{
    if i <= 0 || i > d.changed_subdirs@.len() {
        Seq::empty()
    } else {
        let name = d.changed_subdirs@[i - 1].0@;
        subdir_plan_prefix(d, strategy, base, target, i - 1) + plan_ops(
            d.changed_subdirs@[i - 1].1,
            strategy,
            joined(base, name),
            joined(target, name),
        )
    }
}

/// Joins a directory path and an entry name with the path separator.
fn join_path(dir: &String, name: &String) -> (r: String)
    ensures
        r@ == joined(dir@, name@),
{
    let mut r = dir.clone();
    r.append("/");
    r.append(name.as_str());
    proof {
        reveal_strlit("/");
        assert("/"@ =~= seq!['/']);
        assert(r@ =~= joined(dir@, name@));
    }
    r
}

/// Appends one copy operation per name to the plan being built.
fn push_copy_ops(
    ops: &mut Vec<SyncOp>,
    names: &Vec<String>,
    base_dir: &String,
    target_dir: &String,
)
    ensures
        ops_view(final(ops)@) == ops_view(old(ops)@) + copy_ops(base_dir@, target_dir@, names@),
{
    proof {
        assert(ops_view(ops@) =~= ops_view(ops@) + copy_ops(
            base_dir@,
            target_dir@,
            names@.take(0),
        ));
    }
    let mut i: usize = 0;
    while i < names.len()
        invariant
            i <= names@.len(),
            ops_view(ops@) == ops_view(old(ops)@) + copy_ops(
                base_dir@,
                target_dir@,
                names@.take(i as int),
            ),
        decreases names@.len() - i,
    {
        let op = SyncOp::Copy {
            src: join_path(base_dir, &names[i]),
            dest: join_path(target_dir, &names[i]),
        };
        let ghost before = ops@;
        ops.push(op);
        proof {
            assert(ops_view(ops@) =~= ops_view(before).push(op@));
            assert(ops_view(ops@) =~= ops_view(old(ops)@) + copy_ops(
                base_dir@,
                target_dir@,
                names@.take(i as int + 1),
            ));
        }
        i = i + 1;
    }
    proof {
        assert(names@.take(names@.len() as int) =~= names@);
    }
}

/// Appends one remove operation per name to the plan being built.
fn push_remove_ops(ops: &mut Vec<SyncOp>, names: &Vec<String>, target_dir: &String)
    ensures
        ops_view(final(ops)@) == ops_view(old(ops)@) + remove_ops(target_dir@, names@),
{
    proof {
        assert(ops_view(ops@) =~= ops_view(ops@) + remove_ops(target_dir@, names@.take(0)));
    }
    let mut i: usize = 0;
    while i < names.len()
        invariant
            i <= names@.len(),
            ops_view(ops@) == ops_view(old(ops)@) + remove_ops(
                target_dir@,
                names@.take(i as int),
            ),
        decreases names@.len() - i,
    {
        let op = SyncOp::Remove { path: join_path(target_dir, &names[i]) };
        let ghost before = ops@;
        ops.push(op);
        proof {
            assert(ops_view(ops@) =~= ops_view(before).push(op@));
            assert(ops_view(ops@) =~= ops_view(old(ops)@) + remove_ops(
                target_dir@,
                names@.take(i as int + 1),
            ));
        }
        i = i + 1;
    }
    proof {
        assert(names@.take(names@.len() as int) =~= names@);
    }
}

/// Appends one keep operation per name to the plan being built.
fn push_keep_ops(ops: &mut Vec<SyncOp>, names: &Vec<String>, target_dir: &String)
    ensures
        ops_view(final(ops)@) == ops_view(old(ops)@) + keep_ops(target_dir@, names@),
{
    proof {
        assert(ops_view(ops@) =~= ops_view(ops@) + keep_ops(target_dir@, names@.take(0)));
    }
    let mut i: usize = 0;
    while i < names.len()
        invariant
            i <= names@.len(),
            ops_view(ops@) == ops_view(old(ops)@) + keep_ops(target_dir@, names@.take(i as int)),
        decreases names@.len() - i,
    {
        let op = SyncOp::Keep { path: join_path(target_dir, &names[i]) };
        let ghost before = ops@;
        ops.push(op);
        proof {
            assert(ops_view(ops@) =~= ops_view(before).push(op@));
            assert(ops_view(ops@) =~= ops_view(old(ops)@) + keep_ops(
                target_dir@,
                names@.take(i as int + 1),
            ));
        }
        i = i + 1;
    }
    proof {
        assert(names@.take(names@.len() as int) =~= names@);
    }
}

/// Turns a diff into the ordered plan of operations that would transform the
/// target directory into the base directory under the chosen strategy.
pub fn generate_sync_operations(
    comparison: &DirComparison,
    strategy: &SyncStrategy,
    base_dir: &String,
    target_dir: &String,
) -> (ops: Vec<SyncOp>)
    ensures
        ops_view(ops@) == plan_ops(*comparison, *strategy, base_dir@, target_dir@),
    decreases *comparison,
{
    let mut ops: Vec<SyncOp> = Vec::new();
    push_copy_ops(&mut ops, &comparison.file_comparison.missing, base_dir, target_dir);
    push_copy_ops(&mut ops, &comparison.file_comparison.changed, base_dir, target_dir);
    match strategy {
        SyncStrategy::Full => push_remove_ops(&mut ops, &comparison.file_comparison.new, target_dir),
        SyncStrategy::Patch => push_keep_ops(&mut ops, &comparison.file_comparison.new, target_dir),
    }
    push_keep_ops(&mut ops, &comparison.file_comparison.same, target_dir);
    push_copy_ops(&mut ops, &comparison.subdir_comparison.missing, base_dir, target_dir);
    match strategy {
        SyncStrategy::Full => push_remove_ops(
            &mut ops,
            &comparison.subdir_comparison.new,
            target_dir,
        ),
        SyncStrategy::Patch => push_keep_ops(&mut ops, &comparison.subdir_comparison.new, target_dir),
    }
    push_keep_ops(&mut ops, &comparison.subdir_comparison.same, target_dir);
    proof {
        assert(ops_view(ops@) =~= level_ops(*comparison, *strategy, base_dir@, target_dir@));
        assert(ops_view(ops@) =~= level_ops(*comparison, *strategy, base_dir@, target_dir@)
            + subdir_plan_prefix(*comparison, *strategy, base_dir@, target_dir@, 0));
    }
    let mut q: usize = 0;
    while q < comparison.changed_subdirs.len()
        invariant
            q <= comparison.changed_subdirs@.len(),
            ops_view(ops@) == level_ops(*comparison, *strategy, base_dir@, target_dir@)
                + subdir_plan_prefix(*comparison, *strategy, base_dir@, target_dir@, q as int),
        decreases comparison.changed_subdirs@.len() - q,
    {
        let sub_base = join_path(base_dir, &comparison.changed_subdirs[q].0);
        let sub_target = join_path(target_dir, &comparison.changed_subdirs[q].0);
        let mut sub_ops = generate_sync_operations(
            &comparison.changed_subdirs[q].1,
            strategy,
            &sub_base,
            &sub_target,
        );
        let ghost before = ops@;
        let ghost sub_view = ops_view(sub_ops@);
        ops.append(&mut sub_ops);
        proof {
            assert(ops_view(ops@) =~= ops_view(before) + sub_view);
            assert(ops_view(ops@) =~= level_ops(*comparison, *strategy, base_dir@, target_dir@)
                + subdir_plan_prefix(
                *comparison,
                *strategy,
                base_dir@,
                target_dir@,
                q as int + 1,
            ));
        }
        q = q + 1;
    }
    ops
}

/// The Full-strategy plan `f` and the Patch-strategy plan `p` line up: they
/// have the same length, and at every position they either hold the same
/// operation or `f` removes exactly the path that `p` keeps.
pub open spec fn plans_aligned(f: Seq<OpModel>, p: Seq<OpModel>) -> bool {
    &&& f.len() == p.len()
    &&& forall|i: int|
        0 <= i < f.len() ==> (f[i] == p[i] || (exists|path: Seq<char>|
            f[i] == (OpModel::Remove { path }) && p[i] == (OpModel::Keep { path })))
}

/// Alignment is preserved by concatenation.
proof fn lemma_aligned_concat(f1: Seq<OpModel>, p1: Seq<OpModel>, f2: Seq<OpModel>, p2: Seq<OpModel>)
    requires
        plans_aligned(f1, p1),
        plans_aligned(f2, p2),
    ensures
        plans_aligned(f1 + f2, p1 + p2),
{
    assert forall|i: int|
        0 <= i < (f1 + f2).len() implies ((f1 + f2)[i] == (p1 + p2)[i] || (exists|path: Seq<char>|
        (f1 + f2)[i] == (OpModel::Remove { path }) && (p1 + p2)[i] == (OpModel::Keep {
            path,
        }))) by {
        if i < f1.len() {
            assert((f1 + f2)[i] == f1[i]);
            assert((p1 + p2)[i] == p1[i]);
        } else {
            assert((f1 + f2)[i] == f2[i - f1.len()]);
            assert((p1 + p2)[i] == p2[i - f1.len()]);
        }
    }
}

/// The remove operations of one name list line up with its keep operations:
/// position by position, the same path is removed on one side and kept on
/// the other.
proof fn lemma_new_ops_aligned(target: Seq<char>, names: Seq<String>)
    ensures
        plans_aligned(remove_ops(target, names), keep_ops(target, names)),
{
    let f = remove_ops(target, names);
    let p = keep_ops(target, names);
    assert forall|i: int|
        0 <= i < f.len() implies (f[i] == p[i] || (exists|path: Seq<char>|
        f[i] == (OpModel::Remove { path }) && p[i] == (OpModel::Keep { path }))) by {
        let path = joined(target, names[i]@);
        assert(f[i] == (OpModel::Remove { path }));
        assert(p[i] == (OpModel::Keep { path }));
    }
}

/// Equal plans line up.
proof fn lemma_aligned_refl(f: Seq<OpModel>)
    ensures
        plans_aligned(f, f),
{
}

/// The two strategies' plans for one diff and one pair of roots line up:
/// same length, and the only positions where they differ hold a `Remove`
/// under `Full` and a `Keep` of the same path under `Patch` (these are the
/// plan entries for the target-only names). No other operation differs.
pub proof fn lemma_strategy_difference(d: DirComparison, base: Seq<char>, target: Seq<char>)
    ensures
        plans_aligned(
            plan_ops(d, SyncStrategy::Full, base, target),
            plan_ops(d, SyncStrategy::Patch, base, target),
        ),
    decreases d, d.changed_subdirs@.len() + 1,
{
    let fm = copy_ops(base, target, d.file_comparison.missing@);
    let fc = copy_ops(base, target, d.file_comparison.changed@);
    let fnf = new_ops(SyncStrategy::Full, target, d.file_comparison.new@);
    let fnp = new_ops(SyncStrategy::Patch, target, d.file_comparison.new@);
    let fk = keep_ops(target, d.file_comparison.same@);
    let sm = copy_ops(base, target, d.subdir_comparison.missing@);
    let snf = new_ops(SyncStrategy::Full, target, d.subdir_comparison.new@);
    let snp = new_ops(SyncStrategy::Patch, target, d.subdir_comparison.new@);
    let sk = keep_ops(target, d.subdir_comparison.same@);
    lemma_aligned_refl(fm);
    lemma_aligned_refl(fc);
    lemma_new_ops_aligned(target, d.file_comparison.new@);
    lemma_aligned_refl(fk);
    lemma_aligned_refl(sm);
    lemma_new_ops_aligned(target, d.subdir_comparison.new@);
    lemma_aligned_refl(sk);
    lemma_aligned_concat(fm, fm, fc, fc);
    lemma_aligned_concat(fm + fc, fm + fc, fnf, fnp);
    lemma_aligned_concat(fm + fc + fnf, fm + fc + fnp, fk, fk);
    lemma_aligned_concat(fm + fc + fnf + fk, fm + fc + fnp + fk, sm, sm);
    lemma_aligned_concat(fm + fc + fnf + fk + sm, fm + fc + fnp + fk + sm, snf, snp);
    lemma_aligned_concat(
        fm + fc + fnf + fk + sm + snf,
        fm + fc + fnp + fk + sm + snp,
        sk,
        sk,
    );
    assert(plans_aligned(
        level_ops(d, SyncStrategy::Full, base, target),
        level_ops(d, SyncStrategy::Patch, base, target),
    ));
    lemma_prefix_aligned(d, base, target, d.changed_subdirs@.len() as int);
    lemma_aligned_concat(
        level_ops(d, SyncStrategy::Full, base, target),
        level_ops(d, SyncStrategy::Patch, base, target),
        subdir_plan_prefix(d, SyncStrategy::Full, base, target, d.changed_subdirs@.len() as int),
        subdir_plan_prefix(d, SyncStrategy::Patch, base, target, d.changed_subdirs@.len() as int),
    );
}

/// The target tree `t2` is what executing a Full-strategy plan for the diff
/// `d` of base `b` against target `t` leaves behind, operation by operation:
/// `missing` and `changed` files were byte-copied from the base, `new` files
/// were removed, `same` files were left alone; `missing` subdirectories were
/// copied as whole subtrees, `new` ones removed, `same` ones left alone, and
/// `changed` ones transformed recursively by their own nested plans.
pub open spec fn full_sync_applied(b: DirTree, t: DirTree, d: DirComparison, t2: DirTree) -> bool
    decreases d,
{
    &&& key_set(t2.files@) == key_set(b.files@)
    &&& (forall|n: Seq<char>|
        #[trigger] key_set(b.files@).contains(n) ==> {
            if key_set(t.files@).contains(n) && same_content(
                lookup(b.files@, n),
                lookup(t.files@, n),
            ) {
                lookup(t2.files@, n) == lookup(t.files@, n)
            } else {
                lookup(t2.files@, n).content@ == lookup(b.files@, n).content@
            }
        })
    &&& key_set(t2.subdirs@) == key_set(b.subdirs@)
    &&& (forall|n: Seq<char>|
        #[trigger] key_set(b.subdirs@).contains(n) ==> {
            if key_set(t.subdirs@).contains(n) {
                if dirs_equal(lookup(b.subdirs@, n), lookup(t.subdirs@, n)) {
                    lookup(t2.subdirs@, n) == lookup(t.subdirs@, n)
                } else {
                    key_set(d.changed_subdirs@).contains(n) && full_sync_applied(
                        lookup(b.subdirs@, n),
                        lookup(t.subdirs@, n),
                        lookup(d.changed_subdirs@, n),
                        lookup(t2.subdirs@, n),
                    )
                }
            } else {
                contents_identical(lookup(b.subdirs@, n), lookup(t2.subdirs@, n))
            }
        })
}

/// Executing a Full-strategy plan leaves the target digest-equal to the
/// base; by `lemma_trivial_iff_equal`, recomputing the diff afterwards
/// yields a trivial diff.
pub proof fn lemma_full_sync_idempotent(b: DirTree, t: DirTree, d: DirComparison, t2: DirTree)
    requires
        diff_ok(b, t, d),
        full_sync_applied(b, t, d, t2),
    ensures
        dirs_equal(b, t2),
    decreases d,
{
    assert forall|n: Seq<char>|
        #[trigger] key_set(b.files@).contains(n) && key_set(t2.files@).contains(
            n,
        ) implies same_content(lookup(b.files@, n), lookup(t2.files@, n)) by {}
    assert forall|n: Seq<char>|
        #[trigger] key_set(b.subdirs@).contains(n) && key_set(t2.subdirs@).contains(
            n,
        ) implies dirs_equal(lookup(b.subdirs@, n), lookup(t2.subdirs@, n)) by {
        if key_set(t.subdirs@).contains(n) {
            if dirs_equal(lookup(b.subdirs@, n), lookup(t.subdirs@, n)) {
            } else {
                assert(name_set(d.subdir_comparison.changed@).contains(n));
                assert(key_set(d.changed_subdirs@).contains(n));
                let q = key_index(d.changed_subdirs@, n);
                assert(0 <= q < d.changed_subdirs@.len() && d.changed_subdirs@[q].0@ == n);
                lemma_lookup_at(d.changed_subdirs@, q);
                assert(diff_ok(
                    lookup(b.subdirs@, n),
                    lookup(t.subdirs@, n),
                    lookup(d.changed_subdirs@, n),
                ));
                lemma_full_sync_idempotent(
                    lookup(b.subdirs@, n),
                    lookup(t.subdirs@, n),
                    lookup(d.changed_subdirs@, n),
                    lookup(t2.subdirs@, n),
                );
            }
        } else {
            lemma_identical_implies_equal(lookup(b.subdirs@, n), lookup(t2.subdirs@, n));
        }
    }
}

/// After a Full-strategy sync, any correct rediff of base against the
/// modified target is trivial.
pub proof fn lemma_full_sync_rediff_trivial(
    b: DirTree,
    t: DirTree,
    d: DirComparison,
    t2: DirTree,
    d2: DirComparison,
)
    requires
        diff_ok(b, t, d),
        full_sync_applied(b, t, d, t2),
        diff_ok(b, t2, d2),
    ensures
        d2.spec_unchanged(),
{
    lemma_full_sync_idempotent(b, t, d, t2);
    lemma_trivial_iff_equal(b, t2, d2);
}

/// The target tree `t2` is what executing a Patch-strategy plan for the diff
/// `d` of base `b` against target `t` leaves behind: as under Full, except
/// that `new` files and subdirectories are kept untouched instead of removed.
pub open spec fn patch_sync_applied(b: DirTree, t: DirTree, d: DirComparison, t2: DirTree) -> bool
    decreases d,
{
    &&& key_set(t2.files@) == key_set(b.files@).union(key_set(t.files@))
    &&& (forall|n: Seq<char>|
        #[trigger] key_set(b.files@).contains(n) ==> {
            if key_set(t.files@).contains(n) && same_content(
                lookup(b.files@, n),
                lookup(t.files@, n),
            ) {
                lookup(t2.files@, n) == lookup(t.files@, n)
            } else {
                lookup(t2.files@, n).content@ == lookup(b.files@, n).content@
            }
        })
    &&& (forall|n: Seq<char>|
        #[trigger] key_set(t.files@).contains(n) && !key_set(b.files@).contains(n) ==> lookup(
            t2.files@,
            n,
        ) == lookup(t.files@, n))
    &&& key_set(t2.subdirs@) == key_set(b.subdirs@).union(key_set(t.subdirs@))
    &&& (forall|n: Seq<char>|
        #[trigger] key_set(b.subdirs@).contains(n) ==> {
            if key_set(t.subdirs@).contains(n) {
                if dirs_equal(lookup(b.subdirs@, n), lookup(t.subdirs@, n)) {
                    lookup(t2.subdirs@, n) == lookup(t.subdirs@, n)
                } else {
                    key_set(d.changed_subdirs@).contains(n) && patch_sync_applied(
                        lookup(b.subdirs@, n),
                        lookup(t.subdirs@, n),
                        lookup(d.changed_subdirs@, n),
                        lookup(t2.subdirs@, n),
                    )
                }
            } else {
                contents_identical(lookup(b.subdirs@, n), lookup(t2.subdirs@, n))
            }
        })
    &&& (forall|n: Seq<char>|
        #[trigger] key_set(t.subdirs@).contains(n) && !key_set(b.subdirs@).contains(n) ==> lookup(
            t2.subdirs@,
            n,
        ) == lookup(t.subdirs@, n))
}

/// After a Patch-strategy sync, a rediff of base against the modified target
/// reports nothing missing and nothing changed among the files; its only
/// non-empty file category is `new`, holding exactly the target-only files
/// the patch kept — and likewise for the subdirectory names. A subdirectory
/// the rediff still classifies as changed is one the patch itself recursed
/// into, so the same holds inside it, at every level.
pub proof fn lemma_patch_sync_rediff_only_new(
    b: DirTree,
    t: DirTree,
    d: DirComparison,
    t2: DirTree,
    d2: DirComparison,
)
    requires
        diff_ok(b, t, d),
        patch_sync_applied(b, t, d, t2),
        diff_ok(b, t2, d2),
    ensures
        name_set(d2.file_comparison.missing@) == Set::<Seq<char>>::empty(),
        name_set(d2.file_comparison.changed@) == Set::<Seq<char>>::empty(),
        name_set(d2.file_comparison.new@) == key_set(t.files@).difference(key_set(b.files@)),
        name_set(d2.subdir_comparison.missing@) == Set::<Seq<char>>::empty(),
        name_set(d2.subdir_comparison.new@) == key_set(t.subdirs@).difference(
            key_set(b.subdirs@),
        ),
        forall|n: Seq<char>|
            #[trigger] name_set(d2.subdir_comparison.changed@).contains(n) ==> {
                &&& key_set(b.subdirs@).contains(n)
                &&& key_set(t.subdirs@).contains(n)
                &&& key_set(d.changed_subdirs@).contains(n)
                &&& patch_sync_applied(
                    lookup(b.subdirs@, n),
                    lookup(t.subdirs@, n),
                    lookup(d.changed_subdirs@, n),
                    lookup(t2.subdirs@, n),
                )
            },
{
    assert(name_set(d2.file_comparison.missing@) =~= Set::<Seq<char>>::empty());
    assert forall|n: Seq<char>|
        #[trigger] key_set(b.files@).contains(n) && key_set(t2.files@).contains(
            n,
        ) implies same_content(lookup(b.files@, n), lookup(t2.files@, n)) by {}
    assert(name_set(d2.file_comparison.changed@) =~= Set::<Seq<char>>::empty());
    assert(name_set(d2.file_comparison.new@) =~= key_set(t.files@).difference(
        key_set(b.files@),
    ));
    assert(name_set(d2.subdir_comparison.missing@) =~= Set::<Seq<char>>::empty());
    assert(name_set(d2.subdir_comparison.new@) =~= key_set(t.subdirs@).difference(
        key_set(b.subdirs@),
    ));
    assert forall|n: Seq<char>|
        #[trigger] name_set(d2.subdir_comparison.changed@).contains(n) implies {
        &&& key_set(b.subdirs@).contains(n)
        &&& key_set(t.subdirs@).contains(n)
        &&& key_set(d.changed_subdirs@).contains(n)
        &&& patch_sync_applied(
            lookup(b.subdirs@, n),
            lookup(t.subdirs@, n),
            lookup(d.changed_subdirs@, n),
            lookup(t2.subdirs@, n),
        )
    } by {
        assert(key_set(b.subdirs@).contains(n));
        assert(key_set(t2.subdirs@).contains(n));
        assert(!dirs_equal(lookup(b.subdirs@, n), lookup(t2.subdirs@, n)));
        if !key_set(t.subdirs@).contains(n) {
            lemma_identical_implies_equal(lookup(b.subdirs@, n), lookup(t2.subdirs@, n));
            assert(false);
        }
        if dirs_equal(lookup(b.subdirs@, n), lookup(t.subdirs@, n)) {
            assert(false);
        }
    }
}

/// The two strategies' plans for the first `i` changed subdirectories line
/// up.
proof fn lemma_prefix_aligned(d: DirComparison, base: Seq<char>, target: Seq<char>, i: int)
    ensures
        plans_aligned(
            subdir_plan_prefix(d, SyncStrategy::Full, base, target, i),
            subdir_plan_prefix(d, SyncStrategy::Patch, base, target, i),
        ),
    decreases d, i,
{
    if i <= 0 || i > d.changed_subdirs@.len() {
    } else {
        let name = d.changed_subdirs@[i - 1].0@;
        lemma_prefix_aligned(d, base, target, i - 1);
        lemma_strategy_difference(
            d.changed_subdirs@[i - 1].1,
            joined(base, name),
            joined(target, name),
        );
        lemma_aligned_concat(
            subdir_plan_prefix(d, SyncStrategy::Full, base, target, i - 1),
            subdir_plan_prefix(d, SyncStrategy::Patch, base, target, i - 1),
            plan_ops(d.changed_subdirs@[i - 1].1, SyncStrategy::Full, joined(base, name), joined(target, name)),
            plan_ops(d.changed_subdirs@[i - 1].1, SyncStrategy::Patch, joined(base, name), joined(target, name)),
        );
    }
}

} // verus!
