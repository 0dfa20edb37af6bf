//! The cache store itself: its immutable configuration, the derivation of
//! on-disk locations from a key, and the decisions taken by `store` and
//! `get`.
//!
//! The store persists each cached value as two files inside
//! `{root}/{instance}/{namespace}/`: the payload under
//! `{name}-cache.json` and its expiry record under
//! `{name}-cache-metadata.json`. The functions here are pure: they derive
//! paths, lay out bytes to write, and decide what a call does, while the
//! caller carries the decisions out against the real filesystem. The
//! `spec_store_disk` / `spec_get_result` / `spec_get_disk` functions state
//! the effect of a call on a disk modelled as a map from full paths to
//! file contents.

use vstd::prelude::*;
use vstd::string::*;

use crate::metadata::{
    decode_metadata, encode_metadata, spec_decode_metadata, spec_encode_metadata, spec_expired,
    FileCacheItemMetadata,
};

verus! {

/// File cache service: immutable configuration holding the cache root
/// directory and the instance name under it. Stateless beyond that — every
/// operation derives its paths afresh — so it is safe to clone and share.
#[derive(Clone)]
pub struct FileCacheService {
    /// Path to the cache root directory.
    root_path: String,
    /// Name of the owning service, the first directory level under the root.
    instance_name: String,
}

/// What one `get` call decides to do once it has seen the metadata file's
/// bytes (or its absence), whether the data file exists, and the clock.
#[derive(Clone, Copy, Debug, PartialEq, Eq, Structural)]
pub enum GetAction {
    /// Nothing usable and nothing to clean: report a miss.
    Miss,
    /// A data file stands alone without its metadata companion: remove the
    /// orphan data file, then report a miss.
    RemoveOrphanData,
    /// The metadata file does not decode and a data file stands beside it:
    /// remove the metadata file, then the data file, then report a miss.
    RemoveCorrupt,
    /// The entry has expired and the data file exists: remove the data
    /// file, then the metadata file, then report a miss.
    RemoveExpired,
    /// The entry is fresh and the data file exists: read it and serve it.
    ReadData,
}

/// What `get` does after it has read the data file, depending on whether
/// the caller's codec could decode the payload.
#[derive(Clone, Copy, Debug, PartialEq, Eq, Structural)]
pub enum DataFileOutcome {
    /// The payload decoded: serve the value.
    Serve,
    /// The payload did not decode: remove the data file, then its metadata
    /// companion, and report a miss.
    RemoveBothAndMiss,
}

/// The paths one `get` call works at and the action it chose.
pub struct GetPlan {
    pub metadata_path: String,
    pub data_path: String,
    pub action: GetAction,
}

/// Everything one `store` call writes and where. The caller creates the
/// directory if missing, writes the metadata bytes first, and only then
/// replaces the data file with the payload, so that a crash between the
/// two writes never leaves a fresh data file with stale metadata.
pub struct StorePlan {
    pub directory_path: String,
    pub metadata_path: String,
    pub metadata_bytes: Vec<u8>,
    pub data_path: String,
}

/// The decision `get` takes, as a function of what the disk shows at the
/// key's two paths and of the time of the call.
pub open spec fn spec_get_action(meta: Option<Seq<u8>>, data_exists: bool, now: u64) -> GetAction {
    match meta {
        Option::None => if data_exists {
            GetAction::RemoveOrphanData
        } else {
            GetAction::Miss
        },
        Option::Some(bytes) => match spec_decode_metadata(bytes) {
            Option::None => if data_exists {
                GetAction::RemoveCorrupt
            } else {
                GetAction::Miss
            },
            Option::Some(m) => if spec_expired(m, now) {
                if data_exists {
                    GetAction::RemoveExpired
                } else {
                    GetAction::Miss
                }
            } else {
                if data_exists {
                    GetAction::ReadData
                } else {
                    GetAction::Miss
                }
            },
        },
    }
}

/// What `get` does once the data file is read: a payload that decodes is
/// served; one that does not marks the entry corrupt, and both files go.
pub open spec fn spec_data_file_outcome(payload_decoded: bool) -> DataFileOutcome {
    if payload_decoded {
        DataFileOutcome::Serve
    } else {
        DataFileOutcome::RemoveBothAndMiss
    }
}

impl FileCacheService {
    /// The configured cache root directory.
    pub closed spec fn spec_root_path(self) -> Seq<char> {
        self.root_path@
    }

    /// The configured instance name.
    pub closed spec fn spec_instance_name(self) -> Seq<char> {
        self.instance_name@
    }

    /// Where the directory of `namespace` stands:
    /// `{root}/{instance}/{namespace}`.
    pub open spec fn spec_dir_path(self, namespace: Seq<char>) -> Seq<char> {
        self.spec_root_path() + "/"@ + self.spec_instance_name() + "/"@ + namespace
    }

    /// Where the data file of a key stands:
    /// `{root}/{instance}/{namespace}/{name}-cache.json`.
    pub open spec fn spec_data_path(self, namespace: Seq<char>, name: Seq<char>) -> Seq<char> {
        self.spec_dir_path(namespace) + "/"@ + name + "-"@ + "cache.json"@
    }

    /// Where the metadata companion file of a key stands:
    /// `{root}/{instance}/{namespace}/{name}-cache-metadata.json`.
    pub open spec fn spec_metadata_path(self, namespace: Seq<char>, name: Seq<char>) -> Seq<char> {
        self.spec_dir_path(namespace) + "/"@ + name + "-"@ + "cache-metadata.json"@
    }

    /// Creates the service configuration over a cache root directory and
    /// an instance name, both already validated non-blank by the caller.
    /// The caller must also make sure the root directory exists before the
    /// first store, creating it (and its parents) if absent.
    pub fn new(root_path: &str, instance_name: &str) -> (r: FileCacheService)
        requires
            root_path@.len() > 0,
            instance_name@.len() > 0,
        ensures
            r.spec_root_path() == root_path@,
            r.spec_instance_name() == instance_name@,
    {
        FileCacheService { root_path: root_path.to_owned(), instance_name: instance_name.to_owned() }
    }

    /// Directory that holds every item of `namespace`:
    /// `{root_path}/{instance_name}/{namespace}`.
    pub fn get_cache_item_path(&self, root_path: &str, instance_name: &str, namespace: &str) -> (r:
        String)
        ensures
            r@ == root_path@ + "/"@ + instance_name@ + "/"@ + namespace@,
    {
        let mut p = root_path.to_owned();
        p.append("/");
        p.append(instance_name);
        p.append("/");
        p.append(namespace);
        p
    }

    /// Filename of a cache or metadata file: `{cache_item_name}-{postfix}`.
    pub fn get_filename(&self, cache_item_name: &str, postfix: &str) -> (r: String)
        ensures
            r@ == cache_item_name@ + "-"@ + postfix@,
    {
        let mut f = cache_item_name.to_owned();
        f.append("-");
        f.append(postfix);
        f
    }

    /// Full path of a file inside a namespace directory:
    /// `{cache_item_path}/{cache_item_name}`.
    pub fn get_cache_file_path(&self, cache_item_path: &str, cache_item_name: &str) -> (r: String)
        ensures
            r@ == cache_item_path@ + "/"@ + cache_item_name@,
    {
        let mut p = cache_item_path.to_owned();
        p.append("/");
        p.append(cache_item_name);
        p
    }

    /// Decides one `store` call: derives the namespace directory and both
    /// file paths, and lays out the metadata record — the given TTL,
    /// created now — as the exact bytes to write.
    pub fn plan_store(&self, namespace: &str, name: &str, ttl_secs: u64, now: u64) -> (r: StorePlan)
        ensures
            r.directory_path@ == self.spec_dir_path(namespace@),
            r.metadata_path@ == self.spec_metadata_path(namespace@, name@),
            r.data_path@ == self.spec_data_path(namespace@, name@),
            r.metadata_bytes@ == spec_encode_metadata(
                FileCacheItemMetadata { ttl_secs, created_unixtime: now },
            ),
    {
        let directory_path = self.get_cache_item_path(
            self.root_path.as_str(),
            self.instance_name.as_str(),
            namespace,
        );
        let metadata_filename = self.get_filename(name, "cache-metadata.json");
        let metadata_path = self.get_cache_file_path(
            directory_path.as_str(),
            metadata_filename.as_str(),
        );
        let item_metadata = FileCacheItemMetadata { ttl_secs, created_unixtime: now };
        let metadata_bytes = encode_metadata(&item_metadata);
        let filename = self.get_filename(name, "cache.json");
        let data_path = self.get_cache_file_path(directory_path.as_str(), filename.as_str());
        StorePlan { directory_path, metadata_path, metadata_bytes, data_path }
    }

    /// Decides one `get` call from what the disk shows: the metadata
    /// file's bytes (or nothing when the file is absent), whether the data
    /// file exists, and the current time. The caller carries the chosen
    /// action out: deletions in the order the action names, and a
    /// `ReadData` by reading the data file and then going through
    /// `plan_data_file_outcome`.
    pub fn plan_get(
        &self,
        namespace: &str,
        item_name: &str,
        metadata_bytes: Option<&Vec<u8>>,
        data_file_exists: bool,
        now: u64,
    ) -> (r: GetPlan)
        ensures
            r.metadata_path@ == self.spec_metadata_path(namespace@, item_name@),
            r.data_path@ == self.spec_data_path(namespace@, item_name@),
            r.action == spec_get_action(
                match metadata_bytes {
                    Option::Some(b) => Option::Some(b@),
                    Option::None => Option::None,
                },
                data_file_exists,
                now,
            ),
    {
        let cache_item_path = self.get_cache_item_path(
            self.root_path.as_str(),
            self.instance_name.as_str(),
            namespace,
        );
        let metadata_filename = self.get_filename(item_name, "cache-metadata.json");
        let metadata_path = self.get_cache_file_path(
            cache_item_path.as_str(),
            metadata_filename.as_str(),
        );
        let filename = self.get_filename(item_name, "cache.json");
        let data_path = self.get_cache_file_path(cache_item_path.as_str(), filename.as_str());
        let action = match metadata_bytes {
            Option::None => if data_file_exists {
                GetAction::RemoveOrphanData
            } else {
                GetAction::Miss
            },
            Option::Some(bytes) => match decode_metadata(bytes) {
                Option::None => if data_file_exists {
                    GetAction::RemoveCorrupt
                } else {
                    GetAction::Miss
                },
                Option::Some(m) => if m.is_expired(now) {
                    if data_file_exists {
                        GetAction::RemoveExpired
                    } else {
                        GetAction::Miss
                    }
                } else {
                    if data_file_exists {
                        GetAction::ReadData
                    } else {
                        GetAction::Miss
                    }
                },
            },
        };
        GetPlan { metadata_path, data_path, action }
    }

    /// Decides what `get` does after reading the data file: serve the
    /// decoded payload, or — when the caller's codec failed on it — remove
    /// the data file, then its metadata companion, and report a miss.
    pub fn plan_data_file_outcome(&self, payload_decoded: bool) -> (r: DataFileOutcome)
        ensures
            r == spec_data_file_outcome(payload_decoded),
    {
        if payload_decoded {
            DataFileOutcome::Serve
        } else {
            DataFileOutcome::RemoveBothAndMiss
        }
    }

    /// What one `store` leaves on disk, the disk taken as a map from full
    /// file paths to file contents: the key's metadata file holds the new
    /// record and its data file the payload, whatever stood there before.
    pub open spec fn spec_store_disk(
        self,
        disk: Map<Seq<char>, Seq<u8>>,
        namespace: Seq<char>,
        name: Seq<char>,
        payload: Seq<u8>,
        ttl_secs: u64,
        now: u64,
    ) -> Map<Seq<char>, Seq<u8>> {
        disk.insert(
            self.spec_metadata_path(namespace, name),
            spec_encode_metadata(FileCacheItemMetadata { ttl_secs, created_unixtime: now }),
        ).insert(self.spec_data_path(namespace, name), payload)
    }

    /// The metadata bytes the disk shows for a key, when the file exists.
    pub open spec fn spec_disk_metadata(
        self,
        disk: Map<Seq<char>, Seq<u8>>,
        namespace: Seq<char>,
        name: Seq<char>,
    ) -> Option<Seq<u8>> {
        if disk.dom().contains(self.spec_metadata_path(namespace, name)) {
            Option::Some(disk[self.spec_metadata_path(namespace, name)])
        } else {
            Option::None
        }
    }

    /// The action `get` takes on this disk for this key at time `now`.
    pub open spec fn spec_get_action_on_disk(
        self,
        disk: Map<Seq<char>, Seq<u8>>,
        namespace: Seq<char>,
        name: Seq<char>,
        now: u64,
    ) -> GetAction {
        spec_get_action(
            self.spec_disk_metadata(disk, namespace, name),
            disk.dom().contains(self.spec_data_path(namespace, name)),
            now,
        )
    }

    /// What `get` answers on this disk: the payload bytes it serves, or
    /// nothing on a miss.
    pub open spec fn spec_get_result(
        self,
        disk: Map<Seq<char>, Seq<u8>>,
        namespace: Seq<char>,
        name: Seq<char>,
        now: u64,
    ) -> Option<Seq<u8>> {
        if self.spec_get_action_on_disk(disk, namespace, name, now) is ReadData {
            Option::Some(disk[self.spec_data_path(namespace, name)])
        } else {
            Option::None
        }
    }

    /// What `get` leaves on disk: the cleanup its action performs.
    pub open spec fn spec_get_disk(
        self,
        disk: Map<Seq<char>, Seq<u8>>,
        namespace: Seq<char>,
        name: Seq<char>,
        now: u64,
    ) -> Map<Seq<char>, Seq<u8>> {
        match self.spec_get_action_on_disk(disk, namespace, name, now) {
            GetAction::Miss => disk,
            GetAction::ReadData => disk,
            GetAction::RemoveOrphanData => disk.remove(self.spec_data_path(namespace, name)),
            GetAction::RemoveCorrupt => disk.remove(self.spec_metadata_path(namespace, name)).remove(
                self.spec_data_path(namespace, name),
            ),
            GetAction::RemoveExpired => disk.remove(self.spec_data_path(namespace, name)).remove(
                self.spec_metadata_path(namespace, name),
            ),
        }
    }
}

} // verus!
