//! The laws of the store, stated once and proved from the handler
//! contracts and the structural invariant: the shape of the tree, the
//! injectivity of inode numbers, the size bookkeeping, and the round
//! trips of the write/read path.

use vstd::prelude::*;

use crate::cryption::frame_plain_of;
use crate::cryption::stored_plain;
use crate::cryption::FRAME_OVERHEAD;
use crate::attrs::ReadDirRow;
use crate::hexview::hex_of;
use crate::kriptofs::splice_plain;
use crate::kriptofs::KriptoFs;

verus! {

/// Every inode but the root hangs off an allocated directory whose entry
/// list names it exactly once.
pub proof fn lemma_parent_links(fs: KriptoFs, ino: u64)
    requires
        fs.wf(),
        fs.has_ino(ino),
        ino != 1,
    ensures
        fs.is_dir(fs.parent_of(ino)),
        exists|j: int|
            0 <= j < fs.entries_of(fs.parent_of(ino)).len() && (#[trigger] fs.entries_of(
                fs.parent_of(ino),
            )[j].ino) == ino,
        forall|j: int, k: int|
            (0 <= j < fs.entries_of(fs.parent_of(ino)).len() && 0 <= k < fs.entries_of(
                fs.parent_of(ino),
            ).len() && (#[trigger] fs.entries_of(fs.parent_of(ino))[j].ino) == ino && (
            #[trigger] fs.entries_of(fs.parent_of(ino))[k].ino) == ino) ==> j == k,
{
    let i = ino - 1;
    assert(fs.wf_node(i));
    assert(fs.wf_linked(i));
    let p = fs.parent_of(ino);
    assert(fs.wf_dir(p - 1));
    let es = fs.entries_of(p);
    assert forall|j: int, k: int|
        (0 <= j < es.len() && 0 <= k < es.len() && (#[trigger] es[j].ino) == ino && (
        #[trigger] es[k].ino) == ino) implies j == k by {
        if j < k {
            assert(es[j].ino != es[k].ino);
        } else if k < j {
            assert(es[k].ino != es[j].ino);
        }
    }
}

/// Every value a directory's entry list maps a name to is an allocated
/// inode.
pub proof fn lemma_tree_closed(fs: KriptoFs, d: u64, j: int)
    requires
        fs.wf(),
        fs.is_dir(d),
        0 <= j < fs.entries_of(d).len(),
    ensures
        fs.has_ino(fs.entries_of(d)[j].ino),
        fs.entries_of(d)[j].ino != 1,
{
    assert(fs.wf_dir(d - 1));
    assert(2 <= fs.entries_of(d)[j].ino <= fs.count());
}

/// No two distinct inodes share a recorded inode number.
pub proof fn lemma_inode_numbers_injective(fs: KriptoFs, a: u64, b: u64)
    requires
        fs.wf(),
        fs.has_ino(a),
        fs.has_ino(b),
        a != b,
    ensures
        fs.attr_of(a).ino != fs.attr_of(b).ino,
        fs.attr_of(a).ino == a,
{
    assert(fs.wf_node(a - 1));
    assert(fs.wf_node(b - 1));
}

/// Under the crypto invariant, every regular file's blob is either empty
/// or a whole frame that opens under the process key.
pub proof fn lemma_blob_decrypts(fs: KriptoFs, f: u64)
    requires
        fs.wf(),
        fs.crypto_ok(),
        fs.is_file(f),
    ensures
        fs.data_of(f).len() == 0 || (fs.data_of(f).len() >= FRAME_OVERHEAD && frame_plain_of(
            fs.key@,
            fs.data_of(f),
        ) is Some),
{
    assert(fs.file_ok(f - 1));
}

/// A regular file's recorded size is the length of its stored blob.
pub proof fn lemma_size_matches_blob(fs: KriptoFs, f: u64)
    requires
        fs.wf(),
        fs.is_file(f),
    ensures
        fs.attr_of(f).size == fs.data_of(f).len(),
{
    assert(fs.wf_node(f - 1));
}

/// Writing `p` at offset 0 into an empty file stores a blob that the
/// owner's read at offset 0 gives back as exactly `p`: the blob is
/// non-empty, and its whole frame opens to `p` under the process key,
/// which is what the read contract hands the owner.
pub proof fn lemma_write_read_round_trip(
    pre: KriptoFs,
    mid: KriptoFs,
    ino: u64,
    p: Seq<u8>,
)
    requires
        pre.is_file(ino),
        pre.data_of(ino).len() == 0,
        KriptoFs::write_ok(pre, mid, ino, 0, p),
    ensures
        mid.is_file(ino),
        mid.data_of(ino).len() == p.len() + FRAME_OVERHEAD,
        frame_plain_of(mid.key@, mid.data_of(ino).skip(0)) == Some(p),
{
    assert(stored_plain(pre.key@, pre.data_of(ino)) == Some(Seq::<u8>::empty()));
    assert(splice_plain(Seq::<u8>::empty(), 0, p) =~= p);
    assert(mid.data_of(ino).skip(0) =~= mid.data_of(ino));
}

/// Writing `p` at 0 and then `q` at `k` into a file that started empty
/// stores a blob whose plaintext `b` has length `max(|p|, k + |q|)`,
/// carries `p` below `k` (zero-padded where `p` falls short), `q` on
/// `[k, k + |q|)`, and the tail of `p` above that where it exists.
pub proof fn lemma_overwrite_layout(
    pre: KriptoFs,
    s1: KriptoFs,
    s2: KriptoFs,
    ino: u64,
    p: Seq<u8>,
    k: int,
    q: Seq<u8>,
)
    requires
        pre.is_file(ino),
        pre.data_of(ino).len() == 0,
        KriptoFs::write_ok(pre, s1, ino, 0, p),
        KriptoFs::write_ok(s1, s2, ino, k, q),
        k >= 0,
    ensures
        stored_plain(s2.key@, s2.data_of(ino)) is Some,
        ({
            let b = stored_plain(s2.key@, s2.data_of(ino))->0;
            &&& b.len() == (if p.len() >= k + q.len() {
                p.len() as int
            } else {
                k + q.len()
            })
            &&& forall|i: int| 0 <= i < k && i < p.len() && i < b.len() ==> b[i] == p[i]
            &&& forall|i: int| 0 <= i < k && p.len() <= i < b.len() ==> b[i] == 0u8
            &&& forall|i: int| k <= i < k + q.len() ==> b[i] == q[i - k]
            &&& forall|i: int| k + q.len() <= i < p.len() ==> b[i] == p[i]
        }),
{
    assert(stored_plain(pre.key@, pre.data_of(ino)) == Some(Seq::<u8>::empty()));
    assert(splice_plain(Seq::<u8>::empty(), 0, p) =~= p);
    assert(stored_plain(s1.key@, s1.data_of(ino)) == Some(splice_plain(Seq::<u8>::empty(), 0, p)));
}

/// What a reader other than the owner is shown at offset 0 is exactly
/// twice as long as the stored blob, and renders it in uppercase
/// hexadecimal, two digits per byte.
pub proof fn lemma_hex_read_shape(fs: KriptoFs, f: u64)
    requires
        fs.wf(),
        fs.is_file(f),
    ensures
        hex_of(fs.data_of(f).skip(0)).len() == 2 * fs.data_of(f).len(),
        forall|i: int|
            0 <= i < hex_of(fs.data_of(f)).len() ==> (48 <= #[trigger] hex_of(fs.data_of(f))[i]
                <= 57 || 65 <= hex_of(fs.data_of(f))[i] <= 70),
{
    assert(fs.data_of(f).skip(0) =~= fs.data_of(f));
}

/// A listing taken from the start is `.`, `..`, then the children in
/// entry-list order with cookies 1, 2, 3, and so on; and a listing taken
/// again from the last row's cookie is empty.
pub proof fn lemma_readdir_resume(
    fs: KriptoFs,
    ino: u64,
    rows: Seq<ReadDirRow>,
    again: Seq<ReadDirRow>,
)
    requires
        fs.wf(),
        fs.is_dir(ino),
        fs.readdir_ok(ino, 0, rows),
        fs.readdir_ok(ino, rows[rows.len() - 1].cookie, again),
    ensures
        rows.len() == 2 + fs.entries_of(ino).len(),
        rows[0].ino == ino && rows[0].name@ == seq![46u8],
        rows[1].ino == fs.parent_of(ino) && rows[1].name@ == seq![46u8, 46u8],
        forall|j: int|
            2 <= j < rows.len() ==> (#[trigger] rows[j]).ino == fs.entries_of(ino)[j - 2].ino
                && rows[j].name@ == fs.entries_of(ino)[j - 2].name@,
        again.len() == 0,
{
    assert(rows.len() == fs.readdir_len(ino));
    assert(rows[rows.len() - 1].cookie == rows.len());
}

/// The usage the report stands for: as long as the store is not over
/// capacity, the blocks reported in use (total minus free) are the
/// stored blob bytes summed, divided by the 512-byte block size and
/// rounded up.
pub proof fn lemma_statfs_used_blocks(fs: KriptoFs)
    requires
        fs.wf(),
        fs.total_data_len(fs.count()) <= 4194304 * 512 - 511,
    ensures
        fs.statfs_spec().blocks - fs.statfs_spec().bfree == (fs.total_data_len(fs.count()) + 511)
            / 512,
        fs.statfs_spec().blocks == 4194304,
{
    lemma_total_data_len_nonneg(fs, fs.count());
}

/// The summed blob length of any prefix of the store is not negative.
pub proof fn lemma_total_data_len_nonneg(fs: KriptoFs, upto: int)
    ensures
        fs.total_data_len(upto) >= 0,
    decreases upto,
{
    if upto > 0 {
        lemma_total_data_len_nonneg(fs, upto - 1);
    }
}

} // verus!
