//! The guarantees the cache gives, proved over the disk model: a disk is a
//! map from full file paths to file contents, `spec_store_disk` is what a
//! `store` writes, and `spec_get_result` / `spec_get_disk` are what a `get`
//! answers and leaves behind.

use vstd::prelude::*;

use crate::metadata::{lemma_decode_of_encode, spec_decode_metadata, FileCacheItemMetadata};
use crate::service::{FileCacheService, GetAction};

verus! {

/// The two companion files of one key never share a path: the filenames
/// end differently.
pub proof fn lemma_companion_paths_distinct(
    s: FileCacheService,
    namespace: Seq<char>,
    name: Seq<char>,
)
    ensures
        s.spec_data_path(namespace, name) != s.spec_metadata_path(namespace, name),
{
    reveal_strlit("cache.json");
    reveal_strlit("cache-metadata.json");
    assert(s.spec_data_path(namespace, name).len() != s.spec_metadata_path(
        namespace,
        name,
    ).len());
}

/// Splitting at a separator is unambiguous when the piece before it
/// cannot hold the separator: equal `{pre}{a}/{b}` strings have equal
/// parts.
proof fn lemma_separated_concat_injective(
    pre: Seq<char>,
    a1: Seq<char>,
    b1: Seq<char>,
    a2: Seq<char>,
    b2: Seq<char>,
)
    requires
        !a1.contains('/'),
        !a2.contains('/'),
        pre + a1 + seq!['/'] + b1 == pre + a2 + seq!['/'] + b2,
    ensures
        a1 == a2,
        b1 == b2,
{
    let s = pre + a1 + seq!['/'] + b1;
    let t = pre + a2 + seq!['/'] + b2;
    if a1.len() < a2.len() {
        let k = pre.len() + a1.len();
        assert(s[k as int] == '/');
        assert(s[k as int] == a2[a1.len() as int]);
        assert(a2.contains('/'));
    }
    if a2.len() < a1.len() {
        let k = pre.len() + a2.len();
        assert(t[k as int] == '/');
        assert(t[k as int] == a1[a2.len() as int]);
        assert(a1.contains('/'));
    }
    assert forall|i: int| 0 <= i < a1.len() implies a1[i] == a2[i] by {
        assert(s[pre.len() + i] == a1[i]);
        assert(t[pre.len() + i] == a2[i]);
    }
    assert(a1 =~= a2);
    assert(a1.len() == a2.len());
    assert(s.len() == t.len());
    assert(b1.len() == b2.len());
    assert forall|i: int| 0 <= i < b1.len() implies b1[i] == b2[i] by {
        let k = pre.len() + a1.len() + 1 + i;
        assert((pre + a1 + seq!['/'] + b1)[k] == b1[i]);
        assert((pre + a2 + seq!['/'] + b2)[k] == b2[i]);
    }
    assert(b1 =~= b2);
}

/// Path derivation is injective: within one instance, two keys whose
/// namespace and name hold no path separator land on the same data path —
/// or the same metadata path — only if they are the same key. Callers keep
/// this premise by choosing identifiers without separators.
pub proof fn lemma_paths_injective(
    s: FileCacheService,
    ns1: Seq<char>,
    name1: Seq<char>,
    ns2: Seq<char>,
    name2: Seq<char>,
)
    requires
        !ns1.contains('/'),
        !ns2.contains('/'),
        s.spec_data_path(ns1, name1) == s.spec_data_path(ns2, name2) || s.spec_metadata_path(
            ns1,
            name1,
        ) == s.spec_metadata_path(ns2, name2),
    ensures
        ns1 == ns2,
        name1 == name2,
{
    reveal_strlit("/");
    reveal_strlit("-");
    let pre = s.spec_root_path() + "/"@ + s.spec_instance_name() + "/"@;
    assert("/"@ =~= seq!['/']);
    if s.spec_data_path(ns1, name1) == s.spec_data_path(ns2, name2) {
        let tail1 = name1 + "-"@ + "cache.json"@;
        let tail2 = name2 + "-"@ + "cache.json"@;
        assert(s.spec_data_path(ns1, name1) =~= pre + ns1 + seq!['/'] + tail1);
        assert(s.spec_data_path(ns2, name2) =~= pre + ns2 + seq!['/'] + tail2);
        lemma_separated_concat_injective(pre, ns1, tail1, ns2, tail2);
        assert forall|i: int| 0 <= i < name1.len() implies name1[i] == name2[i] by {
            assert(tail1[i] == name1[i]);
            assert(tail2[i] == name2[i]);
        }
        assert(name1 =~= name2);
    } else {
        let tail1 = name1 + "-"@ + "cache-metadata.json"@;
        let tail2 = name2 + "-"@ + "cache-metadata.json"@;
        assert(s.spec_metadata_path(ns1, name1) =~= pre + ns1 + seq!['/'] + tail1);
        assert(s.spec_metadata_path(ns2, name2) =~= pre + ns2 + seq!['/'] + tail2);
        lemma_separated_concat_injective(pre, ns1, tail1, ns2, tail2);
        assert forall|i: int| 0 <= i < name1.len() implies name1[i] == name2[i] by {
            assert(tail1[i] == name1[i]);
            assert(tail2[i] == name2[i]);
        }
        assert(name1 =~= name2);
    }
}

/// Round trip: a value stored under a key is served back, byte for byte,
/// by a `get` of the same key at any time at which it has not expired —
/// at any time at all when the TTL is zero — and the disk is left exactly
/// as the store wrote it.
pub proof fn lemma_store_then_get(
    s: FileCacheService,
    disk: Map<Seq<char>, Seq<u8>>,
    namespace: Seq<char>,
    name: Seq<char>,
    payload: Seq<u8>,
    ttl_secs: u64,
    now: u64,
    later: u64,
)
    requires
        ttl_secs == 0 || later <= now + ttl_secs,
    ensures
        ({
            let stored = s.spec_store_disk(disk, namespace, name, payload, ttl_secs, now);
            &&& s.spec_get_result(stored, namespace, name, later) == Option::Some(payload)
            &&& s.spec_get_disk(stored, namespace, name, later) == stored
        }),
{
    let m = FileCacheItemMetadata { ttl_secs, created_unixtime: now };
    let stored = s.spec_store_disk(disk, namespace, name, payload, ttl_secs, now);
    lemma_companion_paths_distinct(s, namespace, name);
    lemma_decode_of_encode(m);
    assert(s.spec_disk_metadata(stored, namespace, name) == Option::Some(
        stored[s.spec_metadata_path(namespace, name)],
    ));
    assert(spec_decode_metadata(stored[s.spec_metadata_path(namespace, name)]) == Option::Some(m));
    assert(s.spec_get_action_on_disk(stored, namespace, name, later) == GetAction::ReadData);
}

/// A zero TTL is immortal: however much later the `get` comes, the stored
/// value is still served and nothing is cleaned up.
pub proof fn lemma_get_immortal(
    s: FileCacheService,
    disk: Map<Seq<char>, Seq<u8>>,
    namespace: Seq<char>,
    name: Seq<char>,
    payload: Seq<u8>,
    now: u64,
    later: u64,
)
    ensures
        ({
            let stored = s.spec_store_disk(disk, namespace, name, payload, 0, now);
            &&& s.spec_get_result(stored, namespace, name, later) == Option::Some(payload)
            &&& s.spec_get_disk(stored, namespace, name, later) == stored
        }),
{
    lemma_store_then_get(s, disk, namespace, name, payload, 0, now, later);
}

/// A key never stored is a clean miss: `get` serves nothing and leaves the
/// disk untouched.
pub proof fn lemma_get_unknown_key(
    s: FileCacheService,
    disk: Map<Seq<char>, Seq<u8>>,
    namespace: Seq<char>,
    name: Seq<char>,
    now: u64,
)
    requires
        !disk.dom().contains(s.spec_metadata_path(namespace, name)),
        !disk.dom().contains(s.spec_data_path(namespace, name)),
    ensures
        s.spec_get_result(disk, namespace, name, now) == Option::None::<Seq<u8>>,
        s.spec_get_disk(disk, namespace, name, now) == disk,
{
}

/// `get` never writes: every file it leaves behind stood on the disk
/// before the call, with the same content.
pub proof fn lemma_get_never_writes(
    s: FileCacheService,
    disk: Map<Seq<char>, Seq<u8>>,
    namespace: Seq<char>,
    name: Seq<char>,
    now: u64,
)
    ensures
        ({
            let after = s.spec_get_disk(disk, namespace, name, now);
            &&& after.dom().subset_of(disk.dom())
            &&& forall|p: Seq<char>| after.dom().contains(p) ==> after[p] == disk[p]
        }),
{
}

/// Storing twice under one key leaves exactly what the second store alone
/// would have written — one data file, one metadata file, the second
/// value — and so, with the round-trip law, the second value is what a
/// later `get` serves.
pub proof fn lemma_store_overwrites(
    s: FileCacheService,
    disk: Map<Seq<char>, Seq<u8>>,
    namespace: Seq<char>,
    name: Seq<char>,
    payload1: Seq<u8>,
    ttl1: u64,
    now1: u64,
    payload2: Seq<u8>,
    ttl2: u64,
    now2: u64,
)
    ensures
        s.spec_store_disk(
            s.spec_store_disk(disk, namespace, name, payload1, ttl1, now1),
            namespace,
            name,
            payload2,
            ttl2,
            now2,
        ) == s.spec_store_disk(disk, namespace, name, payload2, ttl2, now2),
{
    assert(s.spec_store_disk(
        s.spec_store_disk(disk, namespace, name, payload1, ttl1, now1),
        namespace,
        name,
        payload2,
        ttl2,
        now2,
    ) =~= s.spec_store_disk(disk, namespace, name, payload2, ttl2, now2));
}

/// An expired entry is dropped: once more than `ttl_secs` seconds of a
/// positive TTL have passed since the store, `get` reports a miss and
/// removes both the data file and its metadata companion.
pub proof fn lemma_get_expired(
    s: FileCacheService,
    disk: Map<Seq<char>, Seq<u8>>,
    namespace: Seq<char>,
    name: Seq<char>,
    payload: Seq<u8>,
    ttl_secs: u64,
    now: u64,
    later: u64,
)
    requires
        ttl_secs > 0,
        later > now + ttl_secs,
    ensures
        ({
            let stored = s.spec_store_disk(disk, namespace, name, payload, ttl_secs, now);
            let after = s.spec_get_disk(stored, namespace, name, later);
            &&& s.spec_get_result(stored, namespace, name, later) == Option::None::<Seq<u8>>
            &&& !after.dom().contains(s.spec_data_path(namespace, name))
            &&& !after.dom().contains(s.spec_metadata_path(namespace, name))
        }),
{
    let m = FileCacheItemMetadata { ttl_secs, created_unixtime: now };
    let stored = s.spec_store_disk(disk, namespace, name, payload, ttl_secs, now);
    lemma_companion_paths_distinct(s, namespace, name);
    lemma_decode_of_encode(m);
    assert(spec_decode_metadata(stored[s.spec_metadata_path(namespace, name)]) == Option::Some(m));
    assert(s.spec_get_action_on_disk(stored, namespace, name, later) == GetAction::RemoveExpired);
}

/// A data file without its metadata companion is never served: `get`
/// reports a miss and removes the orphan, touching nothing else.
pub proof fn lemma_get_orphan_data(
    s: FileCacheService,
    disk: Map<Seq<char>, Seq<u8>>,
    namespace: Seq<char>,
    name: Seq<char>,
    now: u64,
)
    requires
        !disk.dom().contains(s.spec_metadata_path(namespace, name)),
        disk.dom().contains(s.spec_data_path(namespace, name)),
    ensures
        s.spec_get_result(disk, namespace, name, now) == Option::None::<Seq<u8>>,
        s.spec_get_disk(disk, namespace, name, now) == disk.remove(
            s.spec_data_path(namespace, name),
        ),
{
}

/// A metadata file that does not decode poisons its entry: with a data
/// file beside it, `get` reports a miss and removes both files.
pub proof fn lemma_get_corrupt_metadata(
    s: FileCacheService,
    disk: Map<Seq<char>, Seq<u8>>,
    namespace: Seq<char>,
    name: Seq<char>,
    now: u64,
)
    requires
        disk.dom().contains(s.spec_metadata_path(namespace, name)),
        spec_decode_metadata(disk[s.spec_metadata_path(namespace, name)]) is None,
        disk.dom().contains(s.spec_data_path(namespace, name)),
    ensures
        s.spec_get_result(disk, namespace, name, now) == Option::None::<Seq<u8>>,
        ({
            let after = s.spec_get_disk(disk, namespace, name, now);
            &&& after == disk.remove(s.spec_metadata_path(namespace, name)).remove(
                s.spec_data_path(namespace, name),
            )
            &&& !after.dom().contains(s.spec_data_path(namespace, name))
            &&& !after.dom().contains(s.spec_metadata_path(namespace, name))
        }),
{
}

} // verus!
