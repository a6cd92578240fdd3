//! Putting contents into the store and taking them back out. Contents are
//! stored compressed in the Snappy frame format, under their hash.
use vstd::prelude::*;
use vstd::string::*;
use crate::config::{cache_path_for_hash, Config};
use crate::digest::{content_hash, evaluate_file_sha512_hash};
use crate::paths::strip_path_prefix;
use crate::root_definition::{RootDefinition, OUTSIDE_ROOT_MESSAGE};
use crate::snapshots::shapshot_delta::SnapshotDelta;
use crate::snapshots::shapshot_entry::{SnapshotEntry, Timestamp};
use crate::store_cache::hash_db::HashDB;
use crate::store_error::{CacheHandlerError, CacheHandlerResult, StoreError, StoreResult};
use crate::store_preferences::DEFAULT_PREFIX_LENGTH;

verus! {

/// The Snappy frame encoding of `data`, as `snap::read::FrameEncoder` produces it.
pub uninterp spec fn snappy_frame_encoding(data: Seq<u8>) -> Seq<u8>;

/// What `snap::read::FrameDecoder` reads out of `data`: `None` when `data` is
/// not a valid Snappy frame stream.
pub uninterp spec fn snappy_frame_decoding(data: Seq<u8>) -> Option<Seq<u8>>;

/// Calls `snap::read::FrameEncoder::new` on `data` and reads it to the end.
/// Claimed: the read succeeds, since reading a byte slice never fails and each
/// block read from it is compressed into a buffer sized for it; what comes out is
/// the encoding `snappy_frame_encoding` names, and decoding it gives `data` back,
/// the format's purpose as the crate documents it.
#[verifier::external_body]
fn snappy_compress(data: &[u8]) -> (r: Result<Vec<u8>, std::io::Error>)
    ensures
        r is Ok,
        r matches Ok(v) ==> v@ == snappy_frame_encoding(data@) && snappy_frame_decoding(v@)
            == Some(data@),
{
    let mut out: Vec<u8> = Vec::new();
    match std::io::Read::read_to_end(&mut snap::read::FrameEncoder::new(data), &mut out) {
        Ok(_) => Ok(out),
        Err(e) => Err(e),
    }
}

/// Calls `snap::read::FrameDecoder::new` on `data` and reads it to the end.
/// Claimed: the read succeeds exactly when `data` decodes, and gives what it
/// decodes to.
#[verifier::external_body]
fn snappy_decompress(data: &[u8]) -> (r: Result<Vec<u8>, std::io::Error>)
    ensures
        r is Ok <==> snappy_frame_decoding(data@) is Some,
        r matches Ok(v) ==> snappy_frame_decoding(data@) == Some(v@),
{
    let mut out: Vec<u8> = Vec::new();
    match std::io::Read::read_to_end(&mut snap::read::FrameDecoder::new(data), &mut out) {
        Ok(_) => Ok(out),
        Err(e) => Err(e),
    }
}

/// Bytes to write to a file of the store.
pub struct CacheWrite {
    pub destination: String,
    pub data: Vec<u8>,
}

/// The prefix length the configuration lays the data folder out with.
pub open spec fn effective_prefix_length(config: Config) -> int {
    match config.spec_store().prefix_setting() {
        Some(n) => n as int,
        None => DEFAULT_PREFIX_LENGTH as int,
    }
}

/// Where the store keeps the contents with hash `hash`.
pub open spec fn stored_location(config: Config, hash: Seq<char>) -> Seq<char> {
    cache_path_for_hash(config.spec_store_root(), effective_prefix_length(config), hash)
}

/// The write that stores `contents` under `hash_str`: the compressed contents,
/// destined for the hash's file in the data folder. Compressing bytes in memory
/// always succeeds.
pub fn compress_and_store_file(config: &Config, contents: &[u8], hash_str: &str) -> (r: CacheHandlerResult<CacheWrite>)
    ensures
        r matches Ok(w) && w.destination@ == stored_location(*config, hash_str@) && w.data@
            == snappy_frame_encoding(contents@) && snappy_frame_decoding(w.data@) == Some(
            contents@,
        ),
{
    let destination = config.get_store_cache_path_for_hash(hash_str);
    match snappy_compress(contents) {
        Ok(data) => Ok(CacheWrite { destination, data }),
        Err(e) => Err(CacheHandlerError::ErrorDuringCompression(e)),
    }
}

/// Names the file a failed read of stored contents was about.
pub const COMPRESSED_SOURCE_MESSAGE: &'static str = "compressed file to uncompress";

/// What restoring contents from a read of a store file gives: the read's error,
/// or, for bytes that decode, the decoded contents, else a decoding error.
pub open spec fn restore_outcome(source: Result<Vec<u8>, std::io::Error>, r: CacheHandlerResult<Vec<u8>>) -> bool {
    match source {
        Err(_) => r matches Err(CacheHandlerError::FailedToOpenFile(_, m)) && m == COMPRESSED_SOURCE_MESSAGE,
        Ok(bytes) => match snappy_frame_decoding(bytes@) {
            Some(c) => r matches Ok(v) && v@ == c,
            None => r matches Err(CacheHandlerError::ErrorDuringCompression(_)),
        },
    }
}

/// The contents restored from what was read from a file of the store: reading
/// it failed, or it is not a valid stream, or it decodes to the contents.
pub fn uncompress_and_restore(source: Result<Vec<u8>, std::io::Error>) -> (r: CacheHandlerResult<Vec<u8>>)
    ensures
        restore_outcome(source, r),
{
    let bytes = match source {
        Ok(b) => b,
        Err(e) => return Err(CacheHandlerError::FailedToOpenFile(e, COMPRESSED_SOURCE_MESSAGE)),
    };
    match snappy_decompress(bytes.as_slice()) {
        Ok(v) => Ok(v),
        Err(e) => Err(CacheHandlerError::ErrorDuringCompression(e)),
    }
}

/// A stored file: its entry for the snapshot, and the write that puts its
/// contents into the store when the store did not hold them yet.
pub struct StoredFile {
    pub delta: SnapshotDelta,
    pub write: Option<CacheWrite>,
}

/// The delta records `path`, relative to `root`, with `hash` and `modified`.
pub open spec fn delta_records(d: SnapshotDelta, root: RootDefinition, id: Seq<char>, hash: Seq<char>, modified: Timestamp) -> bool {
    &&& d.root.spec_name() == root.spec_name()
    &&& d.root.spec_path() == root.spec_path()
    &&& d.root.spec_preferences() == root.spec_preferences()
    &&& d.file_id@ == id
    &&& d.entry.spec_hash() == hash
    &&& d.entry.spec_modified() == modified
}

/// What storing a file does, in the order the checks are made: a failed time
/// read, a path outside the root and a failed contents read are errors that leave
/// the held hashes as they were. Otherwise storing succeeds and the contents' hash
/// is held afterwards; when it was not held before, the outcome carries the write
/// of the compressed contents. The delta records the file's identifier, hash and time.
pub open spec fn store_file_outcome(
    config: Config,
    before: Set<Seq<char>>,
    after: Set<Seq<char>>,
    path: Seq<char>,
    parent_root: RootDefinition,
    last_modified: Result<Timestamp, std::io::Error>,
    contents: Result<Vec<u8>, std::io::Error>,
    r: StoreResult<StoredFile>,
) -> bool {
    match last_modified {
        Err(_) => r matches Err(StoreError::FileMetadataError(_)) && after == before,
        Ok(t) => match strip_path_prefix(path, parent_root.spec_path()) {
            None => r matches Err(StoreError::PathIdentifierError(m)) && m == OUTSIDE_ROOT_MESSAGE
                && after == before,
            Some(id) => match contents {
                Err(_) => r matches Err(StoreError::ErrorDuringHashEval(_)) && after == before,
                Ok(c) => {
                    let h = content_hash(c@);
                    &&& h.len() == 88
                    &&& after == before.insert(h)
                    &&& r matches Ok(sf) && {
                        &&& delta_records(sf.delta, parent_root, id, h, t)
                        &&& (sf.write is Some <==> !before.contains(h))
                        &&& (sf.write matches Some(w) ==> w.destination@ == stored_location(config, h)
                            && w.data@ == snappy_frame_encoding(c@)
                            && snappy_frame_decoding(w.data@) == Some(c@))
                    }
                },
            },
        },
    }
}

/// Restoring the bytes that storing a file wrote gives the file's contents back.
pub proof fn lemma_restore_after_store(
    config: Config,
    before: Set<Seq<char>>,
    after: Set<Seq<char>>,
    path: Seq<char>,
    parent_root: RootDefinition,
    last_modified: Result<Timestamp, std::io::Error>,
    contents: Result<Vec<u8>, std::io::Error>,
    stored: StoreResult<StoredFile>,
    restored: CacheHandlerResult<Vec<u8>>,
)
    requires
        store_file_outcome(config, before, after, path, parent_root, last_modified, contents, stored),
        stored matches Ok(sf) && sf.write matches Some(w) && restore_outcome(Ok(w.data), restored),
    ensures
        contents matches Ok(c) && restored matches Ok(v) && v@ == c@,
{
}

/// Contents are written at most once: when a file is stored right after another
/// file with the same contents, into the store the first call left, the second
/// call makes no write and records the same hash.
pub proof fn lemma_same_contents_written_once(
    config: Config,
    before: Set<Seq<char>>,
    middle: Set<Seq<char>>,
    after: Set<Seq<char>>,
    path1: Seq<char>,
    path2: Seq<char>,
    parent_root: RootDefinition,
    time1: Result<Timestamp, std::io::Error>,
    time2: Result<Timestamp, std::io::Error>,
    contents1: Result<Vec<u8>, std::io::Error>,
    contents2: Result<Vec<u8>, std::io::Error>,
    r1: StoreResult<StoredFile>,
    r2: StoreResult<StoredFile>,
)
    requires
        store_file_outcome(config, before, middle, path1, parent_root, time1, contents1, r1),
        store_file_outcome(config, middle, after, path2, parent_root, time2, contents2, r2),
        r1 is Ok,
        r2 is Ok,
        contents1 matches Ok(c1) && contents2 matches Ok(c2) && c1@ == c2@,
    ensures
        r2 matches Ok(sf) && sf.write is None && sf.delta.entry.spec_hash() == r1->Ok_0.delta.entry.spec_hash(),
        after == middle,
{
    let h = content_hash(contents1->Ok_0@);
    assert(middle.contains(h));
    assert(middle.insert(h) =~= middle);
}

/// The contents held in the store are named by their file: the stem of the
/// file that holds the contents of `hash` is `hash`, for every hash the store
/// computes. So the hashes read back from the data folder's file names are the
/// hashes that were stored.
pub proof fn lemma_stored_file_names_its_hash(config: Config, data: Seq<u8>)
    requires
        content_hash(data).len() > 0,
    ensures
        crate::paths::file_stem(stored_location(config, content_hash(data))) == Some(content_hash(data)),
{
    let h = content_hash(data);
    crate::digest::lemma_base64_text(crate::digest::sha512_digest(data));
    assert forall|i: int| 0 <= i < h.len() implies h[i] != '/' && h[i] != '.' by {
        assert(crate::digest::base64_text_char(h[i]));
    }
    crate::config::lemma_cache_file_stem(config.spec_store_root(), effective_prefix_length(config), h);
}

/// Stores the file at `path` of `parent_root`, given its modification time and
/// its contents as read from disk. In order: a failed time read, a path outside
/// the root and a failed contents read are errors. Then, when the contents' hash
/// is new to the store, the write of the compressed contents is made, and only
/// then is the hash added to the store's set. The delta records the file with its
/// hash and time.
pub fn store_file(
    config: &Config,
    data_store_cache: &mut HashDB,
    path: &str,
    parent_root: &RootDefinition,
    last_modified: Result<Timestamp, std::io::Error>,
    contents: Result<Vec<u8>, std::io::Error>,
) -> (r: StoreResult<StoredFile>)
    ensures
        store_file_outcome(
            *config,
            old(data_store_cache).contents(),
            final(data_store_cache).contents(),
            path@,
            *parent_root,
            last_modified,
            contents,
            r,
        ),
{
    let fs_last_modified = match last_modified {
        Ok(t) => t,
        Err(e) => return Err(StoreError::FileMetadataError(e)),
    };
    let path_identifier = match parent_root.make_path_identifier(path) {
        Ok(id) => id,
        Err(e) => return Err(StoreError::PathIdentifierError(e)),
    };
    let contents = match contents {
        Ok(c) => c,
        Err(e) => return Err(StoreError::ErrorDuringHashEval(e)),
    };
    let hash_str = evaluate_file_sha512_hash(contents.as_slice());
    if hash_str.unicode_len() == 0 {
        return Err(StoreError::CriticalHashError);
    }
    let write = if !data_store_cache.contains(hash_str.as_str()) {
        match compress_and_store_file(config, contents.as_slice(), hash_str.as_str()) {
            Ok(w) => Some(w),
            Err(e) => return Err(StoreError::CacheHandlerError(e)),
        }
    } else {
        None
    };
    data_store_cache.insert(hash_str.clone());
    Ok(StoredFile {
        delta: SnapshotDelta {
            root: parent_root.duplicate(),
            file_id: path_identifier,
            entry: SnapshotEntry::new(hash_str, fs_last_modified),
        },
        write,
    })
}

} // verus!
