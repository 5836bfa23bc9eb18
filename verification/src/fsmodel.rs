//! A model of the entry directory under crashes, and the proofs that the
//! durable backend's protocols are safe.
//!
//! The model keeps three things: `files`, the directory as a reader sees
//! it now; `synced`, the names whose current content has been forced to
//! stable storage and not touched since; and `crash_dirs`, the set of
//! directories a crash at this moment could leave behind.  The
//! transitions encode what a journalling file system guarantees, and no
//! more: a plain write may land in part, in full, or not at all; forcing
//! a file makes its full content stable, though the file's directory
//! entry may still be lost; a rename is atomic for readers and reaches
//! the disk either wholly or not at all, in the order the metadata was
//! changed; forcing the directory makes the name structure stable, and
//! pins the content of exactly the files that were forced.
//!
//! On this model the write protocol of `add` and `modify` — write the
//! record to a temporary name, force the file, rename it over the entry
//! name, force the directory — is proved to commit atomically and
//! durably, and the delete protocol — unlink, force the directory — to
//! remove durably.
use vstd::prelude::*;

use crate::codec::{decode_spec, encode_spec, lemma_encode_decode, pow10};
use crate::disk::{hash_name_of, tmp_name_of};

verus! {

/// The directory holding the entry files, with what is known about its
/// stability.
pub struct FsDir {
    /// What a reader of the directory sees now: file name to content.
    pub files: Map<Seq<char>, Seq<char>>,
    /// The names whose content, as in `files`, is wholly on stable
    /// storage.
    pub synced: Set<Seq<char>>,
    /// Every directory a crash right now could leave.
    pub crash_dirs: Set<Map<Seq<char>, Seq<char>>>,
}

/// Create or truncate `name` and write `data` to it.  Readers see the new
/// content at once; nothing is promised to a crash: the write may land in
/// part (any `junk`), in full, or not at all, and the name itself may or
/// may not survive.
pub open spec fn fs_write(fs: FsDir, name: Seq<char>, data: Seq<char>) -> FsDir {
    FsDir {
        files: fs.files.insert(name, data),
        synced: fs.synced.remove(name),
        crash_dirs: Set::new(
            |d: Map<Seq<char>, Seq<char>>|
                exists|d0: Map<Seq<char>, Seq<char>>|
                    #[trigger] fs.crash_dirs.contains(d0) && (d == d0 || d == d0.remove(name)
                        || exists|junk: Seq<char>| d == d0.insert(name, junk)),
        ),
    }
}

/// Force the file `name` to stable storage.  Afterwards a crash sees its
/// full current content — or, if the name's directory entry was never
/// made stable, no file; never a part of the content.
pub open spec fn fs_sync_file(fs: FsDir, name: Seq<char>) -> FsDir {
    FsDir {
        files: fs.files,
        synced: fs.synced.insert(name),
        crash_dirs: Set::new(
            |d: Map<Seq<char>, Seq<char>>|
                exists|d0: Map<Seq<char>, Seq<char>>|
                    #[trigger] fs.crash_dirs.contains(d0) && (d == d0.insert(name, fs.files[name])
                        || d == d0.remove(name)),
        ),
    }
}

/// `apply_rename` is the rename as it lands on a directory: if `from` is
/// there, its content moves to `to`, replacing whatever was there.
pub open spec fn apply_rename(
    d: Map<Seq<char>, Seq<char>>,
    from: Seq<char>,
    to: Seq<char>,
) -> Map<Seq<char>, Seq<char>> {
    if d.dom().contains(from) {
        d.remove(from).insert(to, d[from])
    } else {
        d
    }
}

/// Atomically rename `from` onto `to`.  A reader sees either the old
/// state or the new one, never a mixture.  A crash sees the rename
/// applied or not applied.
pub open spec fn fs_rename(fs: FsDir, from: Seq<char>, to: Seq<char>) -> FsDir {
    FsDir {
        files: fs.files.remove(from).insert(to, fs.files[from]),
        synced: if fs.synced.contains(from) {
            fs.synced.remove(from).insert(to)
        } else {
            fs.synced.remove(from).remove(to)
        },
        crash_dirs: Set::new(
            |d: Map<Seq<char>, Seq<char>>|
                exists|d0: Map<Seq<char>, Seq<char>>|
                    #[trigger] fs.crash_dirs.contains(d0) && (d == d0 || d == apply_rename(
                        d0,
                        from,
                        to,
                    )),
        ),
    }
}

/// Unlink `name`.  Readers no longer see it; a crash sees the removal or
/// not.
pub open spec fn fs_remove(fs: FsDir, name: Seq<char>) -> FsDir {
    FsDir {
        files: fs.files.remove(name),
        synced: fs.synced.remove(name),
        crash_dirs: Set::new(
            |d: Map<Seq<char>, Seq<char>>|
                exists|d0: Map<Seq<char>, Seq<char>>|
                    #[trigger] fs.crash_dirs.contains(d0) && (d == d0 || d == d0.remove(name)),
        ),
    }
}

/// Force the directory to stable storage.  Afterwards a crash sees
/// exactly the names a reader sees, with the content pinned for every
/// file that was forced; a file never forced may hold anything.
pub open spec fn fs_sync_dir(fs: FsDir) -> FsDir {
    FsDir {
        files: fs.files,
        synced: fs.synced,
        crash_dirs: Set::new(
            |d: Map<Seq<char>, Seq<char>>|
                d.dom() == fs.files.dom() && forall|n: Seq<char>|
                    fs.synced.contains(n) && fs.files.dom().contains(n)
                        ==> d[n] == fs.files[n],
        ),
    }
}

/// The write protocol of `add` and `modify`, on the model: write the
/// record to the temporary name, force the file, rename it over the
/// entry name, force the directory.
pub open spec fn add_steps(fs: FsDir, key: Seq<char>, value: Seq<char>) -> FsDir {
    fs_sync_dir(
        fs_rename(
            fs_sync_file(
                fs_write(fs, tmp_name_of(key), encode_spec(key, value)),
                tmp_name_of(key),
            ),
            tmp_name_of(key),
            hash_name_of(key),
        ),
    )
}

/// The delete protocol, on the model: unlink the entry file, force the
/// directory.
pub open spec fn delete_steps(fs: FsDir, key: Seq<char>) -> FsDir {
    fs_sync_dir(fs_remove(fs, hash_name_of(key)))
}

/// What `get(key)` reads out of a directory: open the file named by the
/// key's digest, parse the record, and take its value — provided the
/// record's own key field is the key asked for.
pub open spec fn dir_get(d: Map<Seq<char>, Seq<char>>, key: Seq<char>) -> Option<Seq<char>> {
    if d.dom().contains(hash_name_of(key)) {
        match decode_spec(d[hash_name_of(key)]) {
            Some(kv) => if kv.0 == key {
                Some(kv.1)
            } else {
                None
            },
            None => None,
        }
    } else {
        None
    }
}

/// Whether `list` on the directory yields the pair `(key, value)`: some
/// file of the entry-name length parses to exactly that pair.
pub open spec fn dir_lists_pair(
    d: Map<Seq<char>, Seq<char>>,
    key: Seq<char>,
    value: Seq<char>,
) -> bool {
    exists|name: Seq<char>|
        #[trigger] d.dom().contains(name) && name.len() == crate::ENTRY_NAME_LEN
            && decode_spec(d[name]) == Some((key, value))
}

/// The files a reader takes for entries: those whose name has the
/// entry-name length.
pub open spec fn entry_files(d: Map<Seq<char>, Seq<char>>) -> Map<Seq<char>, Seq<char>> {
    Map::new(
        |n: Seq<char>| d.dom().contains(n) && n.len() == crate::ENTRY_NAME_LEN,
        |n: Seq<char>| d[n],
    )
}

/// The committed write survives any crash: after the write protocol for
/// `(key, value)` has completed, every directory a crash can leave holds
/// the full record under the entry's name, and reading the key from any
/// of them yields the value just written — never a partial file.
pub proof fn lemma_add_crash_safe(fs: FsDir, key: Seq<char>, value: Seq<char>)
    requires
        key.len() < pow10(20),
    ensures
        forall|d: Map<Seq<char>, Seq<char>>|
            #[trigger] add_steps(fs, key, value).crash_dirs.contains(d) ==> dir_get(d, key)
                == Some(value),
        hash_name_of(key).len() == crate::ENTRY_NAME_LEN ==> forall|d: Map<Seq<char>, Seq<char>>|
            #[trigger] add_steps(fs, key, value).crash_dirs.contains(d) ==> dir_lists_pair(
                d,
                key,
                value,
            ),
{
    let name = hash_name_of(key);
    let tmp = tmp_name_of(key);
    let enc = encode_spec(key, value);
    assert(tmp.len() == name.len() + 4);
    assert(tmp != name);
    let fs1 = fs_write(fs, tmp, enc);
    let fs2 = fs_sync_file(fs1, tmp);
    let fs3 = fs_rename(fs2, tmp, name);
    let fs4 = fs_sync_dir(fs3);
    assert(fs2.files[tmp] == enc);
    assert(fs3.files[name] == enc);
    assert(fs3.files.dom().contains(name));
    assert(fs3.synced.contains(name));
    lemma_encode_decode(key, value);
    assert forall|d: Map<Seq<char>, Seq<char>>| #[trigger]
        fs4.crash_dirs.contains(d) implies dir_get(d, key) == Some(value) by {
        assert(d.dom() == fs3.files.dom());
        assert(d[name] == enc);
    }
    if name.len() == crate::ENTRY_NAME_LEN {
        assert forall|d: Map<Seq<char>, Seq<char>>| #[trigger]
            fs4.crash_dirs.contains(d) implies dir_lists_pair(d, key, value) by {
            assert(d.dom() == fs3.files.dom());
            assert(d.dom().contains(name) && name.len() == crate::ENTRY_NAME_LEN && decode_spec(
                d[name],
            ) == Some((key, value)));
        }
    }
}

/// Readers never see a partial or mixed state: before the rename, the
/// entry files a reader sees are exactly the old ones; from the rename
/// on, exactly the old ones with the new record under the entry's name.
/// The antecedent is the entry names' fixed length, which the digest
/// function guarantees.
pub proof fn lemma_add_atomic(fs: FsDir, key: Seq<char>, value: Seq<char>)
    ensures
        hash_name_of(key).len() == crate::ENTRY_NAME_LEN ==> entry_files(
            fs_write(fs, tmp_name_of(key), encode_spec(key, value)).files,
        ) == entry_files(fs.files),
        hash_name_of(key).len() == crate::ENTRY_NAME_LEN ==> entry_files(
            fs_sync_file(fs_write(fs, tmp_name_of(key), encode_spec(key, value)), tmp_name_of(key)).files,
        ) == entry_files(fs.files),
        hash_name_of(key).len() == crate::ENTRY_NAME_LEN ==> entry_files(add_steps(fs, key, value).files)
            == entry_files(fs.files).insert(hash_name_of(key), encode_spec(key, value)),
{
    if hash_name_of(key).len() == crate::ENTRY_NAME_LEN {
        let name = hash_name_of(key);
        let tmp = tmp_name_of(key);
        let enc = encode_spec(key, value);
        assert(tmp.len() == 68);
        let fs1 = fs_write(fs, tmp, enc);
        assert(entry_files(fs1.files) =~= entry_files(fs.files));
        let fs2 = fs_sync_file(fs1, tmp);
        assert(entry_files(fs2.files) =~= entry_files(fs.files));
        let fs3 = fs_rename(fs2, tmp, name);
        assert(entry_files(fs3.files) =~= entry_files(fs.files).insert(name, enc));
        let fs4 = fs_sync_dir(fs3);
        assert(entry_files(fs4.files) == entry_files(fs3.files));
    }
}

/// After the write protocol, a reader of the directory — the same
/// instance, or a fresh one opened on it — gets the value back under the
/// key, and `list` yields the pair.
pub proof fn lemma_add_read_back(fs: FsDir, key: Seq<char>, value: Seq<char>)
    requires
        key.len() < pow10(20),
    ensures
        dir_get(add_steps(fs, key, value).files, key) == Some(value),
        hash_name_of(key).len() == crate::ENTRY_NAME_LEN ==> dir_lists_pair(add_steps(fs, key, value).files, key, value),
{
    let name = hash_name_of(key);
    let fs4 = add_steps(fs, key, value);
    assert(fs4.files[name] == encode_spec(key, value));
    lemma_encode_decode(key, value);
    if name.len() == crate::ENTRY_NAME_LEN {
        assert(fs4.files.dom().contains(name) && name.len() == crate::ENTRY_NAME_LEN && decode_spec(fs4.files[name])
            == Some((key, value)));
    }
}

/// Operations on one key leave every other key's entry alone — for the
/// reader's view of the directory — as long as the keys' names differ.
/// Distinct digests for distinct keys is what the digest function's
/// collision resistance is for: a colliding pair would silently merge
/// two entries into one file.
pub proof fn lemma_independent_keys(fs: FsDir, key: Seq<char>, value: Seq<char>, other: Seq<char>)
    ensures
        hash_name_of(other) != hash_name_of(key) && hash_name_of(other) != tmp_name_of(key)
            ==> dir_get(add_steps(fs, key, value).files, other) == dir_get(fs.files, other),
        hash_name_of(other) != hash_name_of(key) ==> dir_get(delete_steps(fs, key).files, other)
            == dir_get(fs.files, other),
{
}

/// The committed delete survives any crash: after the delete protocol,
/// no directory a crash can leave still holds the entry, and reading the
/// key yields absence.
pub proof fn lemma_delete_crash_safe(fs: FsDir, key: Seq<char>)
    ensures
        forall|d: Map<Seq<char>, Seq<char>>|
            #[trigger] delete_steps(fs, key).crash_dirs.contains(d) ==> dir_get(d, key) is None,
        dir_get(delete_steps(fs, key).files, key) is None,
{
    let name = hash_name_of(key);
    let fs1 = fs_remove(fs, name);
    let fs2 = fs_sync_dir(fs1);
    assert(!fs1.files.dom().contains(name));
    assert forall|d: Map<Seq<char>, Seq<char>>| #[trigger]
        fs2.crash_dirs.contains(d) implies dir_get(d, key) is None by {
        assert(d.dom() == fs1.files.dom());
    }
}

} // verus!
