//! Directory entry lists: an ordered name-to-inode mapping, kept as a
//! vector of entries strictly sorted by name in byte-wise lexicographic
//! order. Sortedness makes names unique within a directory and fixes the
//! iteration order that readdir reports.

use vstd::prelude::*;

verus! {

/// One directory entry: a name (a byte string) and the child it names.
pub struct DirEntry {
    pub name: Vec<u8>,
    pub ino: u64,
}

/// Byte-wise lexicographic order on byte strings: a proper prefix comes
/// first, otherwise the first differing byte decides.
pub open spec fn lex_lt(a: Seq<u8>, b: Seq<u8>) -> bool
    decreases a.len(),
{
    if b.len() == 0 {
        false
    } else if a.len() == 0 {
        true
    } else if a[0] != b[0] {
        a[0] < b[0]
    } else {
        lex_lt(a.skip(1), b.skip(1))
    }
}

/// The order is total: distinct byte strings compare one way or the other.
pub proof fn lemma_lex_connected(a: Seq<u8>, b: Seq<u8>)
    requires
        a != b,
    ensures
        lex_lt(a, b) || lex_lt(b, a),
    decreases a.len(),
{
    if b.len() == 0 {
        if a.len() == 0 {
            assert(a =~= b);
        }
    } else if a.len() == 0 {
    } else if a[0] != b[0] {
    } else {
        if a.skip(1) == b.skip(1) {
            assert(a.len() == a.skip(1).len() + 1);
            assert(b.len() == b.skip(1).len() + 1);
            assert forall|i: int| 0 <= i < a.len() implies a[i] == b[i] by {
                if i > 0 {
                    assert(a[i] == a.skip(1)[i - 1]);
                    assert(b[i] == b.skip(1)[i - 1]);
                }
            }
            assert(a =~= b);
        }
        lemma_lex_connected(a.skip(1), b.skip(1));
    }
}

/// The order is transitive.
pub proof fn lemma_lex_trans(a: Seq<u8>, b: Seq<u8>, c: Seq<u8>)
    requires
        lex_lt(a, b),
        lex_lt(b, c),
    ensures
        lex_lt(a, c),
    decreases a.len(),
{
    if a.len() == 0 {
    } else if a[0] == b[0] && b[0] == c[0] {
        lemma_lex_trans(a.skip(1), b.skip(1), c.skip(1));
    }
}

/// The inode an entry list maps a name to: the first entry whose name
/// matches, if any.
pub open spec fn dir_lookup(entries: Seq<DirEntry>, name: Seq<u8>) -> Option<u64>
    decreases entries.len(),
{
    if entries.len() == 0 {
        None
    } else if entries[0].name@ == name {
        Some(entries[0].ino)
    } else {
        dir_lookup(entries.skip(1), name)
    }
}

/// Whether an entry list carries the given name.
pub open spec fn dir_contains(entries: Seq<DirEntry>, name: Seq<u8>) -> bool {
    dir_lookup(entries, name) is Some
}

/// An entry list strictly sorted by name.
pub open spec fn entries_sorted(entries: Seq<DirEntry>) -> bool {
    forall|j: int, k: int|
        0 <= j < k < entries.len() ==> lex_lt(
            #[trigger] entries[j].name@,
            #[trigger] entries[k].name@,
        )
}

/// A name the lookup misses is carried by no entry.
pub proof fn lemma_dir_lookup_none(entries: Seq<DirEntry>, name: Seq<u8>)
    requires
        dir_lookup(entries, name) is None,
    ensures
        forall|j: int| 0 <= j < entries.len() ==> (#[trigger] entries[j].name@) != name,
    decreases entries.len(),
{
    if entries.len() > 0 {
        lemma_dir_lookup_none(entries.skip(1), name);
        assert forall|j: int| 0 <= j < entries.len() implies (#[trigger] entries[j].name@)
            != name by {
            if j > 0 {
                assert(entries[j] == entries.skip(1)[j - 1]);
            }
        }
    }
}

/// Inserting an entry under a fresh name updates the mapping at that name
/// and leaves it unchanged at every other.
pub proof fn lemma_dir_lookup_insert(entries: Seq<DirEntry>, idx: int, e: DirEntry, n: Seq<u8>)
    requires
        0 <= idx <= entries.len(),
        forall|j: int| 0 <= j < entries.len() ==> (#[trigger] entries[j].name@) != e.name@,
    ensures
        dir_lookup(entries.insert(idx, e), n) == if n == e.name@ {
            Some(e.ino)
        } else {
            dir_lookup(entries, n)
        },
    decreases idx,
{
    let with = entries.insert(idx, e);
    if idx == 0 {
        assert(with[0] == e);
        if n == e.name@ {
        } else {
            assert(with.skip(1) =~= entries);
        }
    } else {
        assert(with[0] == entries[0]);
        assert(with.skip(1) =~= entries.skip(1).insert(idx - 1, e));
        assert forall|j: int| 0 <= j < entries.skip(1).len() implies (#[trigger] entries.skip(
            1,
        )[j].name@) != e.name@ by {
            assert(entries.skip(1)[j] == entries[j + 1]);
        }
        lemma_dir_lookup_insert(entries.skip(1), idx - 1, e, n);
        if n == entries[0].name@ {
        }
    }
}

/// Find the entry carrying `name`, if any; the returned index witnesses
/// what the mapping says at that name.
pub fn find_name(entries: &Vec<DirEntry>, name: &[u8]) -> (r: Option<usize>)
    ensures
        (match r {
            Some(idx) => idx < entries@.len() && entries@[idx as int].name@ == name@ && dir_lookup(
                entries@,
                name@,
            ) == Some(entries@[idx as int].ino),
            None => dir_lookup(entries@, name@) is None,
        }),
{
    let ghost all = entries@;
    proof {
        assert(all.skip(0) =~= all);
    }
    let mut i: usize = 0;
    while i < entries.len()
        invariant
            i <= all.len(),
            entries@ == all,
            dir_lookup(all, name@) == dir_lookup(all.skip(i as int), name@),
        decreases all.len() - i,
    {
        let hit = name_eq(entries[i].name.as_slice(), name);
        proof {
            assert(all.skip(i as int)[0] == all[i as int]);
        }
        if hit {
            return Some(i);
        }
        proof {
            assert(all.skip(i as int).skip(1) =~= all.skip(i as int + 1));
        }
        i = i + 1;
    }
    proof {
        assert(all.skip(all.len() as int).len() == 0);
    }
    None
}

/// Whether two byte strings are equal.
pub fn name_eq(a: &[u8], b: &[u8]) -> (r: bool)
    ensures
        r == (a@ == b@),
{
    if a.len() != b.len() {
        return false;
    }
    let mut i: usize = 0;
    while i < a.len()
        invariant
            a@.len() == b@.len(),
            i <= a@.len(),
            forall|j: int| 0 <= j < i ==> a@[j] == b@[j],
        decreases a@.len() - i,
    {
        if a[i] != b[i] {
            return false;
        }
        i = i + 1;
    }
    proof {
        assert(a@ =~= b@);
    }
    true
}

/// Whether `a` comes strictly before `b` in byte-wise lexicographic order.
pub fn name_lt(a: &[u8], b: &[u8]) -> (r: bool)
    ensures
        r == lex_lt(a@, b@),
    decreases a@.len(),
{
    if b.len() == 0 {
        false
    } else if a.len() == 0 {
        true
    } else if a[0] != b[0] {
        a[0] < b[0]
    } else {
        let ta = vstd::slice::slice_subrange(a, 1, a.len());
        let tb = vstd::slice::slice_subrange(b, 1, b.len());
        proof {
            assert(ta@ =~= a@.skip(1));
            assert(tb@ =~= b@.skip(1));
        }
        name_lt(ta, tb)
    }
}

/// The position at which a fresh name belongs in a sorted entry list:
/// everything before it is smaller, everything from it on is larger.
pub fn insert_pos(entries: &Vec<DirEntry>, name: &[u8]) -> (idx: usize)
    requires
        entries_sorted(entries@),
        forall|j: int| 0 <= j < entries@.len() ==> (#[trigger] entries@[j].name@) != name@,
    ensures
        idx <= entries@.len(),
        forall|j: int| 0 <= j < idx ==> lex_lt(#[trigger] entries@[j].name@, name@),
        forall|j: int| idx <= j < entries@.len() ==> lex_lt(name@, #[trigger] entries@[j].name@),
{
    let mut i: usize = 0;
    while i < entries.len()
        invariant
            i <= entries@.len(),
            entries_sorted(entries@),
            forall|j: int| 0 <= j < entries@.len() ==> (#[trigger] entries@[j].name@) != name@,
            forall|j: int| 0 <= j < i ==> lex_lt(#[trigger] entries@[j].name@, name@),
        decreases entries@.len() - i,
    {
        let smaller = name_lt(entries[i].name.as_slice(), name);
        if !smaller {
            proof {
                lemma_lex_connected(entries@[i as int].name@, name@);
                assert forall|j: int| i <= j < entries@.len() implies lex_lt(
                    name@,
                    #[trigger] entries@[j].name@,
                ) by {
                    if j > i {
                        lemma_lex_trans(name@, entries@[i as int].name@, entries@[j].name@);
                    }
                }
            }
            return i;
        }
        i = i + 1;
    }
    i
}

} // verus!
