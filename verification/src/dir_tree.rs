//! In-memory snapshots of a directory tree.
//!
//! A snapshot is an immutable record of one directory: its regular files
//! (with their byte content, so that later comparison is a pure function of
//! the two snapshots) and its subdirectories, each a snapshot of its own.
//! Entry names are unique within one directory; no order is guaranteed.
//!
//! The snapshots are built by an unverified caller that walks the real
//! filesystem; everything in this crate consumes them as plain values.

use vstd::prelude::*;

verus! {

/// One regular file: its absolute path and its byte content.
#[derive(Debug)]
pub struct File {
    /// Full path of the file.
    pub path: String,

    /// The file's bytes at the time the snapshot was taken.
    pub content: Vec<u8>,
}

/// A snapshot of one directory at a point in time.
#[derive(Debug)]
pub struct DirTree {
    /// Full path of the directory.
    pub path: String,

    /// Files in the directory, keyed by entry name (names unique).
    pub files: Vec<(String, File)>,

    /// Subdirectories in the directory, keyed by entry name (names unique).
    pub subdirs: Vec<(String, DirTree)>,
}

/// The set of (views of) the names in a name list.
pub open spec fn name_set(s: Seq<String>) -> Set<Seq<char>> {
    Set::new(|n: Seq<char>| exists|i: int| 0 <= i < s.len() && s[i]@ == n)
}

/// All names in the list are pairwise distinct.
pub open spec fn distinct_names(s: Seq<String>) -> bool {
    forall|i: int, j: int| 0 <= i < j < s.len() ==> s[i]@ != s[j]@
}

/// The set of (views of) the keys of a name-keyed entry list.
pub open spec fn key_set<V>(s: Seq<(String, V)>) -> Set<Seq<char>> {
    Set::new(|n: Seq<char>| exists|i: int| 0 <= i < s.len() && s[i].0@ == n)
}

/// All keys of the entry list are pairwise distinct.
pub open spec fn distinct_keys<V>(s: Seq<(String, V)>) -> bool {
    forall|i: int, j: int| 0 <= i < j < s.len() ==> s[i].0@ != s[j].0@
}

/// An index at which the key `n` occurs in `s` (meaningful when it occurs).
pub open spec fn key_index<V>(s: Seq<(String, V)>, n: Seq<char>) -> int {
    choose|i: int| 0 <= i < s.len() && s[i].0@ == n
}

/// The value stored under key `n` (meaningful when `n` occurs and keys are
/// distinct).
pub open spec fn lookup<V>(s: Seq<(String, V)>, n: Seq<char>) -> V {
    s[key_index(s, n)].1
}

impl DirTree {
    /// Well-formedness of a snapshot: within every directory of the tree,
    /// file names are unique and subdirectory names are unique.
    pub open spec fn wf(self) -> bool
        decreases self,
    {
        &&& distinct_keys(self.files@)
        &&& distinct_keys(self.subdirs@)
        &&& forall|i: int|
            0 <= i < self.subdirs@.len() ==> (#[trigger] self.subdirs@[i].1).wf()
    }
}

/// The value stored at index `i` is the value `lookup` finds under that
/// entry's key, and the key is in the key set.
pub proof fn lemma_lookup_at<V>(s: Seq<(String, V)>, i: int)
    requires
        distinct_keys(s),
        0 <= i < s.len(),
    ensures
        key_set(s).contains(s[i].0@),
        lookup(s, s[i].0@) == s[i].1,
{
    let n = s[i].0@;
    assert(key_set(s).contains(n));
    let j = key_index(s, n);
    assert(0 <= j < s.len() && s[j].0@ == n);
    if i < j {
        assert(s[i].0@ != s[j].0@);
    } else if j < i {
        assert(s[j].0@ != s[i].0@);
    }
}

/// Extending a prefix of an entry list by one entry adds that entry's key to
/// the prefix's key set.
pub proof fn lemma_key_set_take_step<V>(s: Seq<(String, V)>, i: int)
    requires
        0 <= i < s.len(),
    ensures
        key_set(s.take(i + 1)) == key_set(s.take(i)).insert(s[i].0@),
{
    let lhs = key_set(s.take(i + 1));
    let rhs = key_set(s.take(i)).insert(s[i].0@);
    assert forall|n: Seq<char>| lhs.contains(n) implies rhs.contains(n) by {
        let k = choose|k: int| 0 <= k < s.take(i + 1).len() && #[trigger] s.take(i + 1)[k].0@ == n;
        if k < i {
            assert(s.take(i)[k].0@ == n);
        }
    }
    assert forall|n: Seq<char>| rhs.contains(n) implies lhs.contains(n) by {
        if n == s[i].0@ {
            assert(s.take(i + 1)[i].0@ == n);
        } else {
            let k = choose|k: int| 0 <= k < s.take(i).len() && #[trigger] s.take(i)[k].0@ == n;
            assert(s.take(i + 1)[k].0@ == n);
        }
    }
    assert(lhs =~= rhs);
}

/// Extending a prefix of a name list by one name adds that name to the
/// prefix's name set.
pub proof fn lemma_name_set_take_step(s: Seq<String>, i: int)
    requires
        0 <= i < s.len(),
    ensures
        name_set(s.take(i + 1)) == name_set(s.take(i)).insert(s[i]@),
{
    let lhs = name_set(s.take(i + 1));
    let rhs = name_set(s.take(i)).insert(s[i]@);
    assert forall|n: Seq<char>| lhs.contains(n) implies rhs.contains(n) by {
        let k = choose|k: int| 0 <= k < s.take(i + 1).len() && #[trigger] s.take(i + 1)[k]@ == n;
        if k < i {
            assert(s.take(i)[k]@ == n);
        }
    }
    assert forall|n: Seq<char>| rhs.contains(n) implies lhs.contains(n) by {
        if n == s[i]@ {
            assert(s.take(i + 1)[i]@ == n);
        } else {
            let k = choose|k: int| 0 <= k < s.take(i).len() && #[trigger] s.take(i)[k]@ == n;
            assert(s.take(i + 1)[k]@ == n);
        }
    }
    assert(lhs =~= rhs);
}

/// Pushing a name onto a name list adds it to the name set.
pub proof fn lemma_name_set_push(s: Seq<String>, x: String)
    ensures
        name_set(s.push(x)) == name_set(s).insert(x@),
{
    let lhs = name_set(s.push(x));
    let rhs = name_set(s).insert(x@);
    assert forall|n: Seq<char>| lhs.contains(n) implies rhs.contains(n) by {
        let k = choose|k: int| 0 <= k < s.push(x).len() && #[trigger] s.push(x)[k]@ == n;
        if k < s.len() {
            assert(s[k]@ == n);
        }
    }
    assert forall|n: Seq<char>| rhs.contains(n) implies lhs.contains(n) by {
        if n == x@ {
            assert(s.push(x)[s.len() as int]@ == n);
        } else {
            let k = choose|k: int| 0 <= k < s.len() && s[k]@ == n;
            assert(s.push(x)[k]@ == n);
        }
    }
    assert(lhs =~= rhs);
}

/// A nonempty name list has a nonempty name set; an empty one has the empty
/// name set.
pub proof fn lemma_name_set_empty(s: Seq<String>)
    ensures
        (name_set(s) =~= Set::<Seq<char>>::empty()) <==> s.len() == 0,
{
    if s.len() > 0 {
        assert(name_set(s).contains(s[0]@));
    }
}

/// Pushing a name that is not yet in the list keeps the names distinct.
pub proof fn lemma_distinct_push(s: Seq<String>, x: String)
    requires
        distinct_names(s),
        !name_set(s).contains(x@),
    ensures
        distinct_names(s.push(x)),
{
    assert forall|i: int, j: int| 0 <= i < j < s.push(x).len() implies s.push(x)[i]@ != s.push(
        x,
    )[j]@ by {
        if j == s.len() {
            assert(name_set(s).contains(s[i]@));
        }
    }
}

/// Looks a name up in a name-keyed entry list.
///
/// Returns a reference to the value stored under `n`, or `None` when no
/// entry carries that name.
pub fn map_get<'a, V>(m: &'a Vec<(String, V)>, n: &String) -> (r: Option<&'a V>)
    requires
        distinct_keys(m@),
    ensures
        match r {
            Some(v) => key_set(m@).contains(n@) && *v == lookup(m@, n@),
            None => !key_set(m@).contains(n@),
        },
{
    let mut i: usize = 0;
    while i < m.len()
        invariant
            i <= m@.len(),
            distinct_keys(m@),
            forall|k: int| 0 <= k < i ==> m@[k].0@ != n@,
        decreases m@.len() - i,
    {
        if m[i].0.eq(n) {
            proof {
                lemma_lookup_at(m@, i as int);
            }
            return Some(&m[i].1);
        }
        i = i + 1;
    }
    proof {
        if key_set(m@).contains(n@) {
            let k = choose|k: int| 0 <= k < m@.len() && m@[k].0@ == n@;
            assert(m@[k].0@ != n@);
        }
    }
    None
}

/// Tests whether a name list contains a name.
pub fn names_contain(v: &Vec<String>, n: &String) -> (b: bool)
    ensures
        b == name_set(v@).contains(n@),
{
    let mut i: usize = 0;
    while i < v.len()
        invariant
            i <= v@.len(),
            forall|k: int| 0 <= k < i ==> v@[k]@ != n@,
        decreases v@.len() - i,
    {
        if v[i].eq(n) {
            assert(name_set(v@).contains(n@));
            return true;
        }
        i = i + 1;
    }
    proof {
        if name_set(v@).contains(n@) {
            let k = choose|k: int| 0 <= k < v@.len() && v@[k]@ == n@;
            assert(v@[k]@ != n@);
        }
    }
    false
}

} // verus!
