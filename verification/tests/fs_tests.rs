use kriptofs::attrs::FileKind;
use kriptofs::attrs::FsError;
use kriptofs::cryption::decrypt_message;
use kriptofs::cryption::hash_key_generator;
use kriptofs::kriptofs::KriptoFs;

fn fresh_fs() -> KriptoFs {
    KriptoFs::new(hash_key_generator(b"test secret"))
}

fn hex_decode(h: &[u8]) -> Vec<u8> {
    fn nibble(d: u8) -> u8 {
        if d.is_ascii_digit() {
            d - b'0'
        } else {
            assert!((b'A'..=b'F').contains(&d));
            d - b'A' + 10
        }
    }
    assert!(h.len() % 2 == 0);
    h.chunks(2).map(|p| nibble(p[0]) * 16 + nibble(p[1])).collect()
}

#[test]
fn mkdir_then_readdir_root() {
    let mut fs = fresh_fs();
    let attr = fs.mkdir(1, b"d", 0, 0, 7).unwrap();
    assert_eq!(attr.kind, FileKind::Directory);
    assert_eq!(attr.perm, 0o755);
    assert_eq!(attr.ino, 2);
    assert_eq!(attr.uid, 501);
    assert_eq!(attr.gid, 20);
    assert_eq!(attr.nlink, 2);
    assert_eq!(attr.atime, 7);

    let rows = fs.readdir(1, 0).unwrap();
    let names: Vec<Vec<u8>> = rows.iter().map(|r| r.name.clone()).collect();
    assert_eq!(names, vec![b".".to_vec(), b"..".to_vec(), b"d".to_vec()]);
    assert_eq!(rows[0].ino, 1);
    assert_eq!(rows[1].ino, 1);
    assert_eq!(rows[2].ino, 2);
    assert_eq!(rows[0].cookie, 1);
    assert_eq!(rows[1].cookie, 2);
    assert_eq!(rows[2].cookie, 3);
}

#[test]
fn readdir_resumes_after_last_cookie() {
    let mut fs = fresh_fs();
    fs.mkdir(1, b"d", 0, 0, 0).unwrap();
    let rows = fs.readdir(1, 0).unwrap();
    let last_cookie = rows.last().unwrap().cookie;
    assert_eq!(last_cookie, 3);
    let resumed = fs.readdir(1, last_cookie).unwrap();
    assert!(resumed.is_empty());
    let tail = fs.readdir(1, 1).unwrap();
    assert_eq!(tail.len(), 2);
    assert_eq!(tail[0].name, b"..".to_vec());
    assert_eq!(tail[1].name, b"d".to_vec());
}

#[test]
fn readdir_children_in_name_order() {
    let mut fs = fresh_fs();
    fs.mkdir(1, b"bb", 0, 0, 0).unwrap();
    fs.mkdir(1, b"aa", 0, 0, 0).unwrap();
    fs.create(1000, 1000, 1, b"cc", 0, 0, 0, 0).unwrap();
    let rows = fs.readdir(1, 0).unwrap();
    let names: Vec<Vec<u8>> = rows.iter().map(|r| r.name.clone()).collect();
    assert_eq!(
        names,
        vec![b".".to_vec(), b"..".to_vec(), b"aa".to_vec(), b"bb".to_vec(), b"cc".to_vec()]
    );
    assert_eq!(rows[4].kind, FileKind::RegularFile);
    assert_eq!(rows[2].kind, FileKind::Directory);
}

#[test]
fn readdir_on_file_is_not_a_directory() {
    let mut fs = fresh_fs();
    let attr = fs.create(1000, 1000, 1, b"f", 0, 0, 0, 0).unwrap();
    assert_eq!(fs.readdir(attr.ino, 0).unwrap_err(), FsError::NotDirectory);
    assert_eq!(fs.readdir(99, 0).unwrap_err(), FsError::NotFound);
}

#[test]
fn mkdir_existing_name_is_refused_and_state_kept() {
    let mut fs = fresh_fs();
    fs.mkdir(1, b"d", 0, 0, 0).unwrap();
    let before = fs.readdir(1, 0).unwrap().len();
    let before_count = fs.node_count();
    assert_eq!(fs.mkdir(1, b"d", 0, 0, 9).unwrap_err(), FsError::AlreadyExists);
    assert_eq!(fs.create(1000, 1000, 1, b"d", 0, 0, 0, 9).unwrap_err(), FsError::AlreadyExists);
    assert_eq!(fs.readdir(1, 0).unwrap().len(), before);
    assert_eq!(fs.node_count(), before_count);
}

#[test]
fn create_write_read_round_trip() {
    let mut fs = fresh_fs();
    let attr = fs.create(1000, 1000, 1, b"f", 0, 0, 0, 3).unwrap();
    assert_eq!(attr.kind, FileKind::RegularFile);
    assert_eq!(attr.perm, 0o644);
    assert_eq!(attr.uid, 1000);
    assert_eq!(attr.gid, 1000);
    assert_eq!(attr.nlink, 1);
    let ino = attr.ino;

    let written = fs.write(ino, 0, b"hello").unwrap();
    assert_eq!(written, 5);
    let out = fs.read(1000, ino, 0, 4096).unwrap();
    assert_eq!(out, b"hello".to_vec());
    let size = fs.getattr(ino).unwrap().size;
    assert_eq!(size, 12 + 5 + 16);
}

#[test]
fn overwrite_at_offset_layers_the_plaintext() {
    let mut fs = fresh_fs();
    let ino = fs.create(1000, 1000, 1, b"f", 0, 0, 0, 0).unwrap().ino;
    fs.write(ino, 0, b"aaaaaaaa").unwrap();
    fs.write(ino, 3, b"ZZ").unwrap();
    let out = fs.read(1000, ino, 0, 4096).unwrap();
    assert_eq!(out, b"aaaZZaaa".to_vec());

    // writing past the end zero-extends
    fs.write(ino, 10, b"q").unwrap();
    let out = fs.read(1000, ino, 0, 4096).unwrap();
    assert_eq!(out, b"aaaZZaaa\x00\x00q".to_vec());
}

#[test]
fn non_owner_read_sees_uppercase_hex_of_blob() {
    let mut fs = fresh_fs();
    let ino = fs.create(1000, 1000, 1, b"f", 0, 0, 0, 0).unwrap().ino;
    fs.write(ino, 0, b"hello").unwrap();
    let hex = fs.read(1001, ino, 0, 4096).unwrap();
    assert_eq!(hex.len(), 2 * 33);
    assert!(hex.iter().all(|b| b.is_ascii_digit() || (b'A'..=b'F').contains(b)));
    // the rendering matches the stored blob: decode it and decrypt
    let blob = hex_decode(&hex);
    let key = hash_key_generator(b"test secret");
    assert_eq!(decrypt_message(&key, &blob).unwrap(), b"hello".to_vec());
}

#[test]
fn setattr_by_non_owner_is_refused() {
    let mut fs = fresh_fs();
    let ino = fs.create(1000, 1000, 1, b"f", 0, 0, 0, 0).unwrap().ino;
    fs.write(ino, 0, b"hello").unwrap();
    assert_eq!(
        fs.setattr(1001, ino, None, None, None, Some(0)).unwrap_err(),
        FsError::PermissionDenied
    );
    // untouched
    assert_eq!(fs.getattr(ino).unwrap().size, 33);
}

#[test]
fn setattr_size_resizes_the_raw_blob() {
    let mut fs = fresh_fs();
    let ino = fs.create(1000, 1000, 1, b"f", 0, 0, 0, 0).unwrap().ino;
    fs.write(ino, 0, b"hello").unwrap();
    let attr = fs.setattr(1000, ino, None, None, None, Some(0)).unwrap();
    assert_eq!(attr.size, 0);
    assert_eq!(fs.getattr(ino).unwrap().size, 0);
    // the file is now empty: reading at 0 is past the end
    assert_eq!(fs.read(1000, ino, 0, 4096).unwrap(), Vec::<u8>::new());

    // a non-trivial size zero-pads the raw blob, which no longer decrypts
    fs.write(ino, 0, b"hello").unwrap();
    let attr = fs.setattr(1000, ino, None, None, None, Some(5)).unwrap();
    assert_eq!(attr.size, 5);
    assert_eq!(fs.read(1000, ino, 0, 4096).unwrap_err(), FsError::IoError);
    // a non-owner still sees the hex of what is stored: 5 bytes, 10 digits
    assert_eq!(fs.read(1001, ino, 0, 4096).unwrap().len(), 10);
}

#[test]
fn setattr_without_size_changes_nothing() {
    let mut fs = fresh_fs();
    let ino = fs.create(1000, 1000, 1, b"f", 0, 0, 0, 0).unwrap().ino;
    fs.write(ino, 0, b"hello").unwrap();
    let attr = fs.setattr(1000, ino, Some(0o600), Some(7), Some(7), None).unwrap();
    assert_eq!(attr.size, 33);
    assert_eq!(attr.perm, 0o644);
    assert_eq!(attr.uid, 1000);
}

#[test]
fn lookup_hits_and_misses() {
    let mut fs = fresh_fs();
    let made = fs.mkdir(1, b"d", 0, 0, 0).unwrap();
    let found = fs.lookup(1, b"d").unwrap();
    assert_eq!(found.ino, made.ino);
    assert_eq!(found.kind, FileKind::Directory);
    assert_eq!(fs.lookup(1, b"nope").unwrap_err(), FsError::NotFound);
    assert_eq!(fs.lookup(77, b"d").unwrap_err(), FsError::NotFound);
    // a file is no directory to look into
    let f = fs.create(1000, 1000, 1, b"f", 0, 0, 0, 0).unwrap();
    assert_eq!(fs.lookup(f.ino, b"d").unwrap_err(), FsError::NotFound);
}

#[test]
fn getattr_unknown_inode_is_not_found() {
    let fs = fresh_fs();
    assert_eq!(fs.getattr(2).unwrap_err(), FsError::NotFound);
    assert_eq!(fs.getattr(0).unwrap_err(), FsError::NotFound);
    let root = fs.getattr(1).unwrap();
    assert_eq!(root.kind, FileKind::Directory);
    assert_eq!(root.perm, 0o755);
}

#[test]
fn write_and_read_need_a_regular_file() {
    let mut fs = fresh_fs();
    let d = fs.mkdir(1, b"d", 0, 0, 0).unwrap().ino;
    assert_eq!(fs.write(d, 0, b"x").unwrap_err(), FsError::NotFound);
    assert_eq!(fs.read(1000, d, 0, 16).unwrap_err(), FsError::NotFound);
    assert_eq!(fs.write(99, 0, b"x").unwrap_err(), FsError::NotFound);
    assert_eq!(fs.read(1000, 99, 0, 16).unwrap_err(), FsError::NotFound);
}

#[test]
fn read_past_end_is_empty() {
    let mut fs = fresh_fs();
    let ino = fs.create(1000, 1000, 1, b"f", 0, 0, 0, 0).unwrap().ino;
    // an empty file reads empty at offset 0
    assert_eq!(fs.read(1000, ino, 0, 16).unwrap(), Vec::<u8>::new());
    fs.write(ino, 0, b"hello").unwrap();
    assert_eq!(fs.read(1000, ino, 33, 16).unwrap(), Vec::<u8>::new());
    assert_eq!(fs.read(1000, ino, 100, 16).unwrap(), Vec::<u8>::new());
}

#[test]
fn two_writes_of_same_plaintext_store_different_blobs() {
    let mut fs = fresh_fs();
    let ino = fs.create(1000, 1000, 1, b"f", 0, 0, 0, 0).unwrap().ino;
    fs.write(ino, 0, b"hello").unwrap();
    let first = hex_decode(&fs.read(1001, ino, 0, 4096).unwrap());
    fs.write(ino, 0, b"hello").unwrap();
    let second = hex_decode(&fs.read(1001, ino, 0, 4096).unwrap());
    assert_eq!(first.len(), second.len());
    assert_ne!(first, second);
}

#[test]
fn statfs_accounts_used_blocks_and_inodes() {
    let mut fs = fresh_fs();
    let empty = fs.statfs();
    assert_eq!(empty.blocks, 4194304);
    assert_eq!(empty.bfree, 4194304);
    assert_eq!(empty.bavail, 4194304);
    assert_eq!(empty.files, 1000000);
    assert_eq!(empty.ffree, 999999);
    assert_eq!(empty.bsize, 512);
    assert_eq!(empty.namelen, 255);
    assert_eq!(empty.frsize, 512);

    let ino = fs.create(1000, 1000, 1, b"f", 0, 0, 0, 0).unwrap().ino;
    fs.write(ino, 0, b"hello").unwrap();  // 33 stored bytes: one block in use
    let one = fs.statfs();
    assert_eq!(one.bfree, 4194303);
    assert_eq!(one.ffree, 999998);

    let big = vec![7u8; 1000];
    fs.write(ino, 0, &big).unwrap();  // 1028 stored bytes: three blocks
    let three = fs.statfs();
    assert_eq!(three.bfree, 4194304 - 3);
}

#[test]
fn sizes_track_the_ciphertext_not_the_plaintext() {
    let mut fs = fresh_fs();
    let ino = fs.create(1000, 1000, 1, b"f", 0, 0, 0, 0).unwrap().ino;
    assert_eq!(fs.getattr(ino).unwrap().size, 0);
    fs.write(ino, 0, b"a").unwrap();
    assert_eq!(fs.getattr(ino).unwrap().size, 1 + 28);
    fs.write(ino, 0, b"abc").unwrap();
    assert_eq!(fs.getattr(ino).unwrap().size, 3 + 28);
}
