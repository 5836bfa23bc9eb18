//! The durable backend's computing half.
//!
//! One file per entry lives in a configured directory, named by the
//! hexadecimal digest of the key, holding the record of `codec`.  This
//! module decides everything about an operation except the file system
//! calls themselves: the file's name and path, the temporary path and the
//! exact bytes of the write protocol, which directory entries `list`
//! accepts, and how the files read back become entries.  The caller
//! performs the planned steps in order: write the record to the temporary
//! path, force it to stable storage, rename it over the final path, then
//! force the directory; `fsmodel` proves that this order is what makes a
//! committed write survive a crash.
use vstd::prelude::*;

use crate::codec::{decode_entry, decode_spec, encode_entry, encode_spec};
use crate::ENTRY_NAME_LEN;

verus! {

/// The file name the durable backend gives the entry for `key`: the
/// digest of the key, printed in hexadecimal.
pub uninterp spec fn hash_name_of(key: Seq<char>) -> Seq<char>;

/// Relies on `blake3::hash` and `blake3::Hash::to_hex`: the digest of the
/// key's bytes printed as 64 lowercase hexadecimal characters, a function
/// of the key alone.
#[verifier::external_body]
fn blake3_hex(key: &str) -> (r: String)
    ensures
        r@ == hash_name_of(key@),
        r@.len() == 64,
{
    blake3::hash(key.as_bytes()).to_hex().as_str().to_string()
}

/// The path of the file `name` inside the directory `dir`.
pub open spec fn path_in(dir: Seq<char>, name: Seq<char>) -> Seq<char> {
    dir + seq!['/'] + name
}

/// The suffix that turns an entry's path into its temporary path.  It
/// makes the temporary name longer than any entry name, so no temporary
/// file is ever taken for an entry.
pub open spec fn tmp_suffix() -> Seq<char> {
    seq!['.', 'n', 'e', 'w']
}

/// The temporary name the write protocol uses for `key`'s entry.
pub open spec fn tmp_name_of(key: Seq<char>) -> Seq<char> {
    hash_name_of(key) + tmp_suffix()
}

/// Everything the write protocol of `add` and `modify` needs: the record
/// to write, the temporary path to write and sync it at, and the final
/// path the temporary file is renamed to.
pub struct WritePlan {
    pub tmp_path: String,
    pub final_path: String,
    pub contents: String,
}

/// The durable backend: it holds only the directory all entry files live
/// in.  The directory itself is the state.
pub struct DiskCache {
    cache_dir: String,
}

impl DiskCache {
    pub closed spec fn dir(&self) -> Seq<char> {
        self.cache_dir@
    }

    pub fn new(cache_dir: String) -> (r: DiskCache)
        ensures
            r.dir() == cache_dir@,
    {
        DiskCache { cache_dir }
    }

    /// The name of the entry file for `key`: a fixed-length,
    /// filesystem-safe digest, so arbitrary key text never reaches path
    /// syntax.
    pub fn key_to_filename(key: &String) -> (r: String)
        ensures
            r@ == hash_name_of(key@),
            r@.len() == ENTRY_NAME_LEN,
    {
        blake3_hex(key.as_str())
    }

    /// The full path of the entry file for `key`.
    pub fn key_to_path(&self, key: &String) -> (r: String)
        ensures
            r@ == path_in(self.dir(), hash_name_of(key@)),
            hash_name_of(key@).len() == ENTRY_NAME_LEN,
    {
        let name = Self::key_to_filename(key);
        let mut p = self.cache_dir.clone();
        p.append("/");
        p.append(name.as_str());
        proof {
            reveal_strlit("/");
            assert(p@ =~= path_in(self.dir(), hash_name_of(key@)));
        }
        p
    }

    /// The write protocol's data for storing `value` under `key`: the
    /// record, the temporary path, and the final path.  The temporary
    /// path is the final one with the suffix appended, so it can never
    /// collide with an entry file's name.
    pub fn plan_write(&self, key: &String, value: &String) -> (r: WritePlan)
        ensures
            r.contents@ == encode_spec(key@, value@),
            r.final_path@ == path_in(self.dir(), hash_name_of(key@)),
            r.tmp_path@ == r.final_path@ + tmp_suffix(),
            r.tmp_path@ == path_in(self.dir(), tmp_name_of(key@)),
            hash_name_of(key@).len() == ENTRY_NAME_LEN,
    {
        let final_path = self.key_to_path(key);
        let mut tmp_path = final_path.clone();
        tmp_path.append(".new");
        let contents = encode_entry(key.as_str(), value.as_str());
        proof {
            reveal_strlit(".new");
            assert(tmp_path@ =~= final_path@ + tmp_suffix());
            assert(tmp_path@ =~= path_in(self.dir(), tmp_name_of(key@)));
        }
        WritePlan { tmp_path, final_path, contents }
    }

    /// The decision of `modify`: it replaces only an existing entry and
    /// never creates one, so the caller first asks the file system
    /// whether the entry's file exists and hands the answer in.  Absent
    /// means no write at all and a report of `false`; present means
    /// exactly the write protocol of `add`.  The existence check and the
    /// write are not one atomic step: a delete slipping in between can
    /// re-create the entry.  That race is accepted — the contract leaves
    /// same-key interleavings to the caller's lock — and it never
    /// corrupts data.
    pub fn plan_modify(&self, entry_exists: bool, key: &String, value: &String) -> (r: Option<
        WritePlan,
    >)
        ensures
            r is Some <==> entry_exists,
            r matches Some(p) ==> p.contents@ == encode_spec(key@, value@) && p.final_path@
                == path_in(self.dir(), hash_name_of(key@)) && p.tmp_path@ == p.final_path@
                + tmp_suffix(),
    {
        if entry_exists {
            Some(self.plan_write(key, value))
        } else {
            None
        }
    }

    /// Whether a directory entry of this name is an entry file.  Only the
    /// fixed digest length decides: temporary files and foreign files
    /// have other lengths and are ignored.
    pub fn is_entry_name(name: &String) -> (r: bool)
        ensures
            r == (name@.len() == ENTRY_NAME_LEN),
    {
        name.as_str().unicode_len() == ENTRY_NAME_LEN
    }

    /// Turn the contents of every entry file into its key/value pair, for
    /// `list`.  A file that does not parse as a record means the storage
    /// layer malfunctioned; that is reported as absence of a result, not
    /// glossed over.
    pub fn entries_from_files(files: &Vec<String>) -> (r: Option<Vec<(String, String)>>)
        ensures
            match r {
                Some(es) => es@.len() == files@.len() && forall|i: int|
                    0 <= i < es@.len() ==> #[trigger] decode_spec(files@[i]@) == Some(
                        (es@[i].0@, es@[i].1@),
                    ),
                None => exists|i: int|
                    0 <= i < files@.len() && #[trigger] decode_spec(files@[i]@) is None,
            },
    {
        let mut es: Vec<(String, String)> = Vec::new();
        let mut i: usize = 0;
        while i < files.len()
            invariant
                0 <= i <= files@.len(),
                es@.len() == i,
                forall|j: int|
                    0 <= j < i ==> #[trigger] decode_spec(files@[j]@) == Some(
                        (es@[j].0@, es@[j].1@),
                    ),
            decreases files@.len() - i,
        {
            match decode_entry(files[i].as_str()) {
                Some(p) => es.push(p),
                None => {
                    return None;
                },
            }
            i = i + 1;
        }
        Some(es)
    }
}

} // verus!
