//! Ciphertext storage. The server never holds a key, so a blob is just an
//! opaque byte stream addressed by file id. What the stores decide is here:
//! where a blob lives, when an upload has grown too large, and which backend
//! a storage URI names.
use vstd::prelude::*;
use crate::server::error::AppError;
use crate::text::{chars_of, matches_at, occurs_at, string_of, trim_end_char, trim_end_matches_char};

verus! {

broadcast use vstd::string::group_string_axioms;

/// Why a blob operation failed.
#[derive(Debug)]
pub enum BlobError {
    /// No object is stored under that id.
    NotFound,
    /// The upload exceeded the configured maximum and was discarded.
    TooLarge,
    /// Anything the backend itself reported.
    Other(String),
}

impl BlobError {
    /// How a failed upload is answered: too large is the client's doing,
    /// anything else the server's.
    pub fn for_upload(self) -> (e: AppError)
        ensures
            self is TooLarge ==> e is TooLarge,
            !(self is TooLarge) ==> e is Internal,
    {
        match self {
            BlobError::TooLarge => AppError::TooLarge,
            BlobError::NotFound => AppError::Internal("blob not found".to_owned()),
            BlobError::Other(m) => AppError::Internal(m),
        }
    }

    /// How a failed fetch is answered: a missing blob is a missing file,
    /// anything else the server's fault.
    pub fn for_download(self) -> (e: AppError)
        ensures
            self is NotFound ==> e is NotFound,
            !(self is NotFound) ==> e is Internal,
    {
        match self {
            BlobError::NotFound => AppError::NotFound,
            BlobError::TooLarge => AppError::Internal("upload exceeds the maximum allowed size".to_owned()),
            BlobError::Other(m) => AppError::Internal(m),
        }
    }
}

/// The running size of an upload after one more chunk of `chunk_len`
/// bytes, or `TooLarge` once it would exceed `max_size`: the upload is cut
/// off at the first chunk that crosses the limit.
pub fn written_after(written: u64, chunk_len: u64, max_size: u64) -> (total: Result<u64, BlobError>)
    requires
        written <= max_size,
    ensures
        total is Ok <==> written + chunk_len <= max_size,
        total matches Ok(t) ==> t == written + chunk_len,
        total matches Err(e) ==> e is TooLarge,
{
    if chunk_len > max_size - written {
        Err(BlobError::TooLarge)
    } else {
        Ok(written + chunk_len)
    }
}

/// `base` joined with `part` as `Path::join` does on Unix: an absolute
/// `part` replaces `base`; otherwise a `/` separates them unless `base` is
/// empty or already ends with one.
pub open spec fn join_path(base: Seq<char>, part: Seq<char>) -> Seq<char> {
    if part.len() > 0 && part[0] == '/' {
        part
    } else if base.len() == 0 {
        part
    } else if base.last() == '/' {
        base + part
    } else {
        base + seq!['/'] + part
    }
}

/// `base` joined with `part`.
fn join(base: &str, part: &str) -> (path: String)
    ensures
        path@ == join_path(base@, part@),
{
    let b = chars_of(base);
    let p = chars_of(part);
    if p.len() > 0 && p[0] == '/' {
        return part.to_owned();
    }
    if b.len() == 0 {
        return part.to_owned();
    }
    let mut path = base.to_owned();
    if b[b.len() - 1] != '/' {
        path.append("/");
        proof { reveal_strlit("/"); }
    }
    path.append(part);
    path
}

/// The two characters an id is sharded on; the id's first two bytes when
/// they are ASCII.
pub open spec fn shard_ok(id: Seq<char>) -> bool {
    id.len() >= 2 && (id[0] as u32) < 128 && (id[1] as u32) < 128
}

/// Filesystem blob store, for local runs and single-host deployments.
#[derive(Debug)]
pub struct FsBlobStore {
    root: String,
}

impl FsBlobStore {
    /// The directory blobs live under.
    pub closed spec fn root(&self) -> Seq<char> {
        self.root@
    }

    /// A store rooted at `root`; the directory itself is created by the
    /// caller.
    pub fn new(root: String) -> (store: Self)
        ensures
            store.root() == root@,
    {
        FsBlobStore { root }
    }

    /// The blob's path: sharded on the first two id characters, so a busy
    /// instance does not put millions of entries in one directory.
    pub fn path_for(&self, id: &str) -> (path: String)
        requires
            shard_ok(id@),
        ensures
            path@ == join_path(join_path(self.root(), id@.subrange(0, 2)), id@),
    {
        let shard = id.substring_char(0, 2);
        let dir = join(self.root.as_str(), shard);
        join(dir.as_str(), id)
    }
}

/// The object key of a blob in a bucket under `prefix`.
pub open spec fn s3_key_text(prefix: Seq<char>, id: Seq<char>) -> Seq<char> {
    if prefix.len() == 0 {
        "blobs/"@ + id.subrange(0, 2) + seq!['/'] + id
    } else {
        prefix + "/blobs/"@ + id.subrange(0, 2) + seq!['/'] + id
    }
}

/// The object key of a blob: `[<prefix>/]blobs/<shard>/<id>`.
pub fn s3_key(prefix: &str, id: &str) -> (key: String)
    requires
        shard_ok(id@),
    ensures
        key@ == s3_key_text(prefix@, id@),
{
    let mut key = if chars_of(prefix).len() == 0 {
        "blobs/".to_owned()
    } else {
        let mut k = prefix.to_owned();
        k.append("/blobs/");
        k
    };
    key.append(id.substring_char(0, 2));
    key.append("/");
    key.append(id);
    proof { reveal_strlit("/"); }
    key
}

/// Where ciphertext is kept, as a storage URI names it.
#[derive(Debug)]
pub enum StorageUri {
    /// `fs:<path>` or `file://<path>`.
    Fs(String),
    /// `s3://<bucket>[/<prefix>]`.
    S3 { bucket: String, prefix: String },
}

/// `s` begins with `p`.
pub open spec fn starts_with(s: Seq<char>, p: Seq<char>) -> bool {
    matches_at(s, p, 0)
}

/// Whether `v` begins with `p`.
fn has_prefix(v: &[char], p: &str) -> (b: bool)
    ensures
        b == starts_with(v@, p@),
{
    let pat = chars_of(p);
    occurs_at(v, pat.as_slice(), 0)
}

/// What a storage URI names: `fs:` or `file://` and a path; `s3://`, a
/// bucket, and the prefix after its first `/` less trailing `/`s; nothing
/// else.
pub open spec fn storage_of(uri: Seq<char>) -> Option<(bool, Seq<char>, Seq<char>)> {
    if starts_with(uri, "fs:"@) {
        Some((true, uri.subrange("fs:"@.len() as int, uri.len() as int), Seq::empty()))
    } else if starts_with(uri, "file://"@) {
        Some((true, uri.subrange("file://"@.len() as int, uri.len() as int), Seq::empty()))
    } else if starts_with(uri, "s3://"@) {
        let rest = uri.subrange("s3://"@.len() as int, uri.len() as int);
        match crate::text::find_char(rest, '/') {
            Some(i) => Some((false, rest.subrange(0, i), trim_end_char(rest.subrange(i + 1, rest.len() as int), '/'))),
            None => Some((false, rest, Seq::empty())),
        }
    } else {
        None
    }
}

/// `k` slashes.
pub open spec fn slashes(k: nat) -> Seq<char> {
    Seq::new(k, |i: int| '/')
}

/// Removing trailing `/`s leaves a text that does not end in `/` and that
/// gives back the original when the removed slashes are put back.
pub proof fn lemma_trim_end_slashes(t: Seq<char>)
    ensures
        exists|k: nat| t == #[trigger] (trim_end_char(t, '/') + slashes(k)),
        trim_end_char(t, '/').len() == 0 || trim_end_char(t, '/').last() != '/',
    decreases t.len(),
{
    if t.len() > 0 && t.last() == '/' {
        let d = t.drop_last();
        lemma_trim_end_slashes(d);
        let q = trim_end_char(d, '/');
        assert(trim_end_char(t, '/') == q);
        let k = choose|k: nat| d == #[trigger] (trim_end_char(d, '/') + slashes(k));
        assert(d == q + slashes(k));
        assert(t =~= d.push('/'));
        assert(q + slashes(k + 1) =~= (q + slashes(k)).push('/'));
        assert(t == trim_end_char(t, '/') + slashes(k + 1));
    } else {
        assert(t =~= trim_end_char(t, '/') + slashes(0));
    }
}

/// `fs:<path>` and `file://<path>` name that path on disk.
proof fn lemma_disk_uris(path: Seq<char>)
    ensures
        storage_of("fs:"@ + path) == Some((true, path, Seq::<char>::empty())),
        storage_of("file://"@ + path) == Some((true, path, Seq::<char>::empty())),
{
    reveal_strlit("fs:");
    reveal_strlit("file://");
    let f = "fs:"@ + path;
    assert(f.subrange(0, 3) =~= "fs:"@);
    assert(f.subrange(3, f.len() as int) =~= path);
    let g = "file://"@ + path;
    assert(g.subrange(0, 3) != "fs:"@) by { assert(g.subrange(0, 3)[1] != "fs:"@[1]); }
    assert(g.subrange(0, 7) =~= "file://"@);
    assert(g.subrange(7, g.len() as int) =~= path);
}

/// A URI beginning `s3://` names S3, with `rest` the text after the scheme.
proof fn lemma_s3_scheme(rest: Seq<char>)
    ensures
        storage_of("s3://"@ + rest) == match crate::text::find_char(rest, '/') {
            Some(i) => Some((false, rest.subrange(0, i), trim_end_char(rest.subrange(i + 1, rest.len() as int), '/'))),
            None => Some((false, rest, Seq::<char>::empty())),
        },
{
    reveal_strlit("fs:");
    reveal_strlit("file://");
    reveal_strlit("s3://");
    let u = "s3://"@ + rest;
    assert(u.subrange(0, 3) != "fs:"@) by { assert(u.subrange(0, 3)[0] != "fs:"@[0]); }
    if u.len() >= 7 {
        assert(u.subrange(0, 7) != "file://"@) by { assert(u.subrange(0, 7)[0] != "file://"@[0]); }
    }
    assert(u.subrange(0, 5) =~= "s3://"@);
    assert(u.subrange(5, u.len() as int) =~= rest);
}

/// How a storage URI splits: `fs:<path>` and `file://<path>` name that path
/// on disk; `s3://<bucket>` names the bucket with no prefix; and
/// `s3://<bucket>/<tail>`, for a bucket without `/`, names that bucket and
/// a prefix that is the tail up to its trailing `/`s: the prefix followed by
/// some slashes is the tail, and the prefix does not end in `/`.
pub proof fn lemma_storage_uri_parts(path: Seq<char>, bucket: Seq<char>, tail: Seq<char>)
    requires
        forall|i: int| 0 <= i < bucket.len() ==> bucket[i] != '/',
    ensures
        storage_of("fs:"@ + path) == Some((true, path, Seq::<char>::empty())),
        storage_of("file://"@ + path) == Some((true, path, Seq::<char>::empty())),
        storage_of("s3://"@ + bucket) == Some((false, bucket, Seq::<char>::empty())),
        storage_of("s3://"@ + bucket + "/"@ + tail) matches Some((on_disk, b, prefix)) && !on_disk && b == bucket
            && (exists|k: nat| tail == #[trigger] (prefix + slashes(k)))
            && (prefix.len() == 0 || prefix.last() != '/'),
{
    lemma_disk_uris(path);
    lemma_s3_scheme(bucket);
    crate::text::lemma_find_char_from(bucket, '/', 0);
    reveal_strlit("/");
    let rest = bucket + "/"@ + tail;
    assert("s3://"@ + bucket + "/"@ + tail =~= "s3://"@ + rest);
    lemma_s3_scheme(rest);
    let n = bucket.len() as int;
    assert(rest[n] == '/');
    crate::text::lemma_find_char_from(rest, '/', 0);
    assert(crate::text::find_char(rest, '/') == Some(n)) by {
        match crate::text::find_char(rest, '/') {
            Some(i) => {
                if i < n {
                    assert(rest[i] == bucket[i]);
                }
            },
            None => {},
        }
    }
    assert(rest.subrange(0, n) =~= bucket);
    assert(rest.subrange(n + 1, rest.len() as int) =~= tail);
    lemma_trim_end_slashes(tail);
}

/// Read a storage URI.
pub fn parse_storage_uri(uri: &str) -> (storage: Option<StorageUri>)
    ensures
        storage is None <==> storage_of(uri@) is None,
        storage matches Some(StorageUri::Fs(path)) ==> storage_of(uri@) == Some((true, path@, Seq::<char>::empty())),
        storage matches Some(StorageUri::S3 { bucket, prefix }) ==> storage_of(uri@) == Some((false, bucket@, prefix@)),
{
    let v = chars_of(uri);
    if has_prefix(v.as_slice(), "fs:") {
        proof { reveal_strlit("fs:"); }
        return Some(StorageUri::Fs(string_of(&v.as_slice()[3..v.len()])));
    }
    if has_prefix(v.as_slice(), "file://") {
        proof { reveal_strlit("file://"); }
        return Some(StorageUri::Fs(string_of(&v.as_slice()[7..v.len()])));
    }
    if has_prefix(v.as_slice(), "s3://") {
        proof { reveal_strlit("s3://"); }
        let rest = &v.as_slice()[5..v.len()];
        return match crate::text::position_of(rest, '/') {
            Some(i) => {
                proof { crate::text::lemma_find_char_from(rest@, '/', 0); }
                let bucket = string_of(&rest[0..i]);
                let tail = string_of(&rest[i + 1..rest.len()]);
                Some(StorageUri::S3 { bucket, prefix: trim_end_matches_char(tail.as_str(), '/') })
            },
            None => Some(StorageUri::S3 { bucket: string_of(rest), prefix: String::new() }),
        };
    }
    None
}

} // verus!
