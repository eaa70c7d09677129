//! The on-disk cache format: variable-length records written back-to-back
//! with no outer length prefix and no terminator.
//!
//! Each record holds, in order: a 2-byte little-endian key length, the key
//! bytes (UTF-8 text), the 8-byte node id followed by 2 reserved padding
//! bytes, the 8-byte stored magnitude, the 2-byte unit tag, and the 8-byte
//! volume id.  Reading stops cleanly at the end of the stream; a key length
//! of 0 or above the ceiling, a truncated record, or key bytes that are not
//! valid text count one corruption event and abort the parse, keeping every
//! record already read.

use crate::store::{assoc_update, CacheEntry, CacheStore};
use crate::text::string_from_utf8;
use crate::units::SizeUnit;
use vstd::bytes::{
    spec_u16_from_le_bytes, spec_u16_to_le_bytes, spec_u64_from_le_bytes, spec_u64_to_le_bytes,
    u16_from_le_bytes, u16_to_le_bytes, u64_from_le_bytes, u64_to_le_bytes,
};
use vstd::prelude::*;
use vstd::slice::{slice_subrange, slice_to_vec};
use vstd::utf8::{decode_utf8, encode_utf8, valid_utf8};

verus! {

/// Longest key, in bytes, that a stored record may declare.
pub const KEY_LEN_CEILING: u16 = 4096;

/// A cache image larger than this is treated as "no usable cache".
pub const CACHE_FILE_CEILING: u64 = 100 * 1024 * 1024;

/// Number of record bytes that follow the key: node id, padding, magnitude,
/// unit tag, volume id.
pub const RECORD_TAIL_LEN: u64 = 28;

/// Whether a key's UTF-8 form fits the 16-bit length field.
pub open spec fn spec_key_fits(key: Seq<char>) -> bool {
    encode_utf8(key).len() <= 65535
}

/// The bytes of one record.
pub open spec fn spec_record_bytes(key: Seq<char>, e: CacheEntry) -> Seq<u8>
    recommends
        spec_key_fits(key),
{
    spec_u16_to_le_bytes(encode_utf8(key).len() as u16) + encode_utf8(key) + spec_u64_to_le_bytes(
        e.inode,
    ) + seq![0u8, 0u8] + spec_u64_to_le_bytes(e.size) + spec_u16_to_le_bytes(
        e.size_unit.spec_to_u16(),
    ) + spec_u64_to_le_bytes(e.device_id)
}

/// The full stream for a record list: records back to back, records whose
/// key does not fit the length field left out.
pub open spec fn spec_encode_stream(s: Seq<(Seq<char>, CacheEntry)>) -> Seq<u8>
    decreases s.len(),
{
    if s.len() == 0 {
        Seq::empty()
    } else {
        (if spec_key_fits(s[0].0) {
            spec_record_bytes(s[0].0, s[0].1)
        } else {
            Seq::empty()
        }) + spec_encode_stream(s.drop_first())
    }
}

/// How many records the encoder leaves out of the stream.
pub open spec fn spec_encode_skipped(s: Seq<(Seq<char>, CacheEntry)>) -> nat
    decreases s.len(),
{
    if s.len() == 0 {
        0
    } else {
        (if spec_key_fits(s[0].0) {
            0nat
        } else {
            1nat
        }) + spec_encode_skipped(s.drop_first())
    }
}

proof fn lemma_encode_stream_snoc(s: Seq<(Seq<char>, CacheEntry)>, x: (Seq<char>, CacheEntry))
    ensures
        spec_encode_stream(s.push(x)) == spec_encode_stream(s) + (if spec_key_fits(x.0) {
            spec_record_bytes(x.0, x.1)
        } else {
            Seq::<u8>::empty()
        }),
        spec_encode_skipped(s.push(x)) == spec_encode_skipped(s) + (if spec_key_fits(x.0) {
            0nat
        } else {
            1nat
        }),
    decreases s.len(),
{
    let piece = if spec_key_fits(x.0) {
        spec_record_bytes(x.0, x.1)
    } else {
        Seq::<u8>::empty()
    };
    let extra = if spec_key_fits(x.0) {
        0nat
    } else {
        1nat
    };
    if s.len() == 0 {
        assert(s.push(x)[0] == x);
        assert(s.push(x).drop_first() =~= s);
        assert(spec_encode_stream(s.push(x)) == piece + spec_encode_stream(s));
        assert(spec_encode_stream(s) == Seq::<u8>::empty());
        assert(spec_encode_stream(s.push(x)) =~= spec_encode_stream(s) + piece);
        assert(spec_encode_skipped(s.push(x)) == extra + spec_encode_skipped(s));
        assert(spec_encode_skipped(s) == 0);
    } else {
        lemma_encode_stream_snoc(s.drop_first(), x);
        assert(s.push(x)[0] == s[0]);
        assert(s.push(x).drop_first() =~= s.drop_first().push(x));
        assert(spec_encode_stream(s.push(x)) =~= spec_encode_stream(s) + piece);
        assert(spec_encode_skipped(s.push(x)) == spec_encode_skipped(s) + extra);
    }
}

/// Serialises the store into its on-disk byte stream.  Records whose key
/// does not fit the 16-bit length field are left out, not treated as fatal;
/// the count of such records is returned beside the bytes.
pub fn save_cache(store: &CacheStore) -> (r: (Vec<u8>, u64))
    ensures
        r.0@ == spec_encode_stream(store@),
        r.1 == spec_encode_skipped(store@),
{
    let mut out: Vec<u8> = Vec::new();
    let mut skipped: u64 = 0;
    let n = store.len();
    assert(out@ =~= spec_encode_stream(store@.take(0)));
    for i in 0..n
        invariant
            n == store@.len(),
            out@ == spec_encode_stream(store@.take(i as int)),
            skipped == spec_encode_skipped(store@.take(i as int)),
            skipped <= i,
    {
        let ghost prefix = store@.take(i as int);
        let key = store.key_at(i);
        let entry = store.entry_at(i);
        if key.as_str().len() > 65535 {
            skipped = skipped + 1;
        } else {
            let kb = key.as_str().as_bytes();
            let klen: u16 = kb.len() as u16;
            let mut field = u16_to_le_bytes(klen);
            out.append(&mut field);
            out.extend_from_slice(kb);
            let mut field = u64_to_le_bytes(entry.inode);
            out.append(&mut field);
            out.push(0);
            out.push(0);
            let mut field = u64_to_le_bytes(entry.size);
            out.append(&mut field);
            let mut field = u16_to_le_bytes(entry.size_unit.to_u16());
            out.append(&mut field);
            let mut field = u64_to_le_bytes(entry.device_id);
            out.append(&mut field);
            proof {
                assert(out@ =~= spec_encode_stream(prefix) + spec_record_bytes(
                    store@[i as int].0,
                    store@[i as int].1,
                ));
            }
        }
        proof {
            lemma_encode_stream_snoc(prefix, store@[i as int]);
            assert(prefix.push(store@[i as int]) =~= store@.take(i + 1));
        }
    }
    proof {
        assert(store@.take(n as int) =~= store@);
    }
    (out, skipped)
}

/// What one parse pass yields from a byte stream: the records read, in
/// order, and how many corruption events ended the parse (at most one, since
/// the first aborts it).
pub open spec fn spec_decode(bytes: Seq<u8>) -> (Seq<(Seq<char>, CacheEntry)>, nat)
    decreases bytes.len(),
{
    if bytes.len() < 2 {
        (Seq::empty(), 0nat)
    } else {
        let klen = spec_u16_from_le_bytes(bytes.take(2)) as int;
        if klen == 0 || klen > KEY_LEN_CEILING {
            (Seq::empty(), 1nat)
        } else if bytes.len() < 2 + klen + RECORD_TAIL_LEN {
            (Seq::empty(), 1nat)
        } else if !valid_utf8(bytes.subrange(2, 2 + klen)) {
            (Seq::empty(), 1nat)
        } else {
            let key = decode_utf8(bytes.subrange(2, 2 + klen));
            let entry = spec_record_entry(bytes, klen);
            let rest = spec_decode(bytes.skip(2 + klen + RECORD_TAIL_LEN));
            (seq![(key, entry)] + rest.0, rest.1)
        }
    }
}

/// The record fields found after a key of byte length `klen`.
pub open spec fn spec_record_entry(bytes: Seq<u8>, klen: int) -> CacheEntry {
    CacheEntry {
        size: spec_u64_from_le_bytes(bytes.subrange(2 + klen + 10, 2 + klen + 18)),
        inode: spec_u64_from_le_bytes(bytes.subrange(2 + klen, 2 + klen + 8)),
        device_id: spec_u64_from_le_bytes(bytes.subrange(2 + klen + 20, 2 + klen + 28)),
        size_unit: spec_unit_or_bytes(
            spec_u16_from_le_bytes(bytes.subrange(2 + klen + 18, 2 + klen + 20)),
        ),
    }
}

/// The unit a tag decodes to; an unknown tag falls back to raw bytes.
pub open spec fn spec_unit_or_bytes(tag: u16) -> SizeUnit {
    match SizeUnit::spec_from_u16(tag) {
        Some(u) => u,
        None => SizeUnit::Bytes,
    }
}

/// The store contents after binding a record list, in order, on top of
/// `base`; later records overwrite earlier ones with the same key.
pub open spec fn spec_apply_records(
    base: Seq<(Seq<char>, CacheEntry)>,
    records: Seq<(Seq<char>, CacheEntry)>,
) -> Seq<(Seq<char>, CacheEntry)>
    decreases records.len(),
{
    if records.len() == 0 {
        base
    } else {
        spec_apply_records(assoc_update(base, records[0].0, records[0].1), records.drop_first())
    }
}

/// Parses a byte stream into a store, together with the number of corruption
/// events (0 or 1: the first corruption aborts the parse, keeping every
/// record already read).
pub fn decode_cache(bytes: &[u8]) -> (r: (CacheStore, u64))
    ensures
        r.0@ == spec_apply_records(Seq::empty(), spec_decode(bytes@).0),
        r.0.wf(),
        r.1 == spec_decode(bytes@).1,
{
    let mut store = CacheStore::new();
    let mut p: usize = 0;
    let n = bytes.len();
    let ghost target = spec_apply_records(Seq::empty(), spec_decode(bytes@).0);
    let ghost total_corrupt = spec_decode(bytes@).1;
    proof {
        assert(bytes@.skip(0) =~= bytes@);
        assert(store@ =~= Seq::<(Seq<char>, CacheEntry)>::empty());
    }
    loop
        invariant
            p <= n,
            n == bytes@.len(),
            store.wf(),
            target == spec_apply_records(Seq::empty(), spec_decode(bytes@).0),
            total_corrupt == spec_decode(bytes@).1,
            spec_apply_records(store@, spec_decode(bytes@.skip(p as int)).0) == target,
            spec_decode(bytes@.skip(p as int)).1 == total_corrupt,
        decreases n - p,
    {
        let ghost rem = bytes@.skip(p as int);
        let remaining = n - p;
        if remaining < 2 {
            // end of stream at a record boundary (or a single stray byte):
            // a clean stop
            assert(store@ == target);
            return (store, 0);
        }
        let klen16 = u16_from_le_bytes(slice_subrange(bytes, p, p + 2));
        proof {
            assert(bytes@.subrange(p as int, p + 2) =~= rem.take(2));
        }
        let klen = klen16 as usize;
        if klen16 == 0 || klen16 > KEY_LEN_CEILING {
            assert(store@ == target);
            return (store, 1);
        }
        if remaining - 2 < klen || remaining - 2 - klen < 28 {
            assert(rem.len() < 2 + klen + RECORD_TAIL_LEN);
            assert(store@ == target);
            return (store, 1);
        }
        let kb = slice_subrange(bytes, p + 2, p + 2 + klen);
        proof {
            assert(kb@ =~= rem.subrange(2, 2 + klen as int));
        }
        match string_from_utf8(slice_to_vec(kb)) {
            None => {
                assert(store@ == target);
                return (store, 1);
            },
            Some(key) => {
                let inode = u64_from_le_bytes(slice_subrange(bytes, p + 2 + klen, p + 10 + klen));
                let size = u64_from_le_bytes(
                    slice_subrange(bytes, p + 12 + klen, p + 20 + klen),
                );
                let tag = u16_from_le_bytes(slice_subrange(bytes, p + 20 + klen, p + 22 + klen));
                let size_unit = match SizeUnit::from_u16(tag) {
                    Some(u) => u,
                    None => SizeUnit::Bytes,
                };
                let device_id = u64_from_le_bytes(
                    slice_subrange(bytes, p + 22 + klen, p + 30 + klen),
                );
                let entry = CacheEntry { size, inode, device_id, size_unit };
                proof {
                    assert(bytes@.subrange(p + 2 + klen, p + 10 + klen) =~= rem.subrange(
                        2 + klen as int,
                        2 + klen + 8,
                    ));
                    assert(bytes@.subrange(p + 12 + klen, p + 20 + klen) =~= rem.subrange(
                        2 + klen + 10,
                        2 + klen + 18,
                    ));
                    assert(bytes@.subrange(p + 20 + klen, p + 22 + klen) =~= rem.subrange(
                        2 + klen + 18,
                        2 + klen + 20,
                    ));
                    assert(bytes@.subrange(p + 22 + klen, p + 30 + klen) =~= rem.subrange(
                        2 + klen + 20,
                        2 + klen + 28,
                    ));
                    assert(entry == spec_record_entry(rem, klen as int));
                    assert(key@ == decode_utf8(rem.subrange(2, 2 + klen as int)));
                }
                store.insert_record(key, entry);
                proof {
                    let next = bytes@.skip(p + 30 + klen);
                    assert(rem.skip(2 + klen + 28) =~= next);
                    assert(spec_decode(rem).0 == seq![
                        (decode_utf8(rem.subrange(2, 2 + klen as int)), entry),
                    ] + spec_decode(next).0);
                    assert(spec_decode(rem).1 == spec_decode(next).1);
                    assert(spec_decode(rem).0.drop_first() =~= spec_decode(next).0);
                    assert(spec_decode(rem).0[0] == (key@, entry));
                    assert(spec_apply_records(store@, spec_decode(next).0) == target);
                }
                p = p + 30 + klen;
            },
        }
    }
}

/// Builds the usable store from a cache image: an empty image is the
/// documented "no cache yet" case and an oversized one is unusable, both
/// yielding an empty store with no corruption; anything else is parsed.
pub fn load_cache(data: &[u8]) -> (r: (CacheStore, u64))
    ensures
        data@.len() == 0 || data@.len() > CACHE_FILE_CEILING ==> r.0@ == Seq::<(
            Seq<char>,
            CacheEntry,
        )>::empty() && r.1 == 0,
        0 < data@.len() <= CACHE_FILE_CEILING ==> r.0@ == spec_apply_records(
            Seq::empty(),
            spec_decode(data@).0,
        ) && r.1 == spec_decode(data@).1,
        r.0.wf(),
{
    if data.len() == 0 {
        return (CacheStore::new(), 0);
    }
    if data.len() as u64 > CACHE_FILE_CEILING {
        return (CacheStore::new(), 0);
    }
    decode_cache(data)
}

/// Every key of the record list persists on disk: its UTF-8 form is between
/// 1 byte and the declared ceiling.
pub open spec fn spec_keys_persist(s: Seq<(Seq<char>, CacheEntry)>) -> bool {
    forall|i: int|
        0 <= i < s.len() ==> 1 <= encode_utf8((#[trigger] s[i]).0).len() <= KEY_LEN_CEILING
}

/// No key of the record list is bound twice.
pub open spec fn spec_keys_unique(s: Seq<(Seq<char>, CacheEntry)>) -> bool {
    forall|i: int, j: int| 0 <= i < j < s.len() ==> (#[trigger] s[i]).0 != (#[trigger] s[j]).0
}

/// The stream of a record list splits at any position.
proof fn lemma_stream_split(s: Seq<(Seq<char>, CacheEntry)>, k: int)
    requires
        0 <= k <= s.len(),
    ensures
        spec_encode_stream(s) == spec_encode_stream(s.take(k)) + spec_encode_stream(s.skip(k)),
    decreases k,
{
    if k == 0 {
        assert(s.take(0).len() == 0);
        assert(s.skip(0) =~= s);
        assert(spec_encode_stream(s.take(0)) + spec_encode_stream(s) =~= spec_encode_stream(s));
    } else {
        lemma_stream_split(s.drop_first(), k - 1);
        assert(s.take(k)[0] == s[0]);
        assert(s.take(k).drop_first() =~= s.drop_first().take(k - 1));
        assert(s.skip(k) =~= s.drop_first().skip(k - 1));
        assert(spec_encode_stream(s) =~= spec_encode_stream(s.take(k)) + spec_encode_stream(
            s.skip(k),
        ));
    }
}

proof fn lemma_record_bytes_len(key: Seq<char>, e: CacheEntry)
    requires
        spec_key_fits(key),
    ensures
        spec_record_bytes(key, e).len() == 2 + encode_utf8(key).len() + 28,
{
    vstd::bytes::lemma_auto_spec_u16_to_from_le_bytes();
    vstd::bytes::lemma_auto_spec_u64_to_from_le_bytes();
}

/// Decoding the stream written for a record list whose keys persist reads
/// back exactly those records, in order, with no corruption.
pub proof fn lemma_decode_encode(s: Seq<(Seq<char>, CacheEntry)>)
    requires
        spec_keys_persist(s),
    ensures
        spec_decode(spec_encode_stream(s)).0 == s,
        spec_decode(spec_encode_stream(s)).1 == 0,
    decreases s.len(),
{
    vstd::bytes::lemma_auto_spec_u16_to_from_le_bytes();
    vstd::bytes::lemma_auto_spec_u64_to_from_le_bytes();
    if s.len() == 0 {
        assert(spec_encode_stream(s).len() == 0);
        assert(spec_decode(spec_encode_stream(s)).0 =~= s);
    } else {
        let key = s[0].0;
        let e = s[0].1;
        let kb = encode_utf8(key);
        let klen = kb.len() as int;
        assert(1 <= klen <= KEY_LEN_CEILING);
        assert(spec_key_fits(key));
        let rec = spec_record_bytes(key, e);
        let rest = spec_encode_stream(s.drop_first());
        let bytes = spec_encode_stream(s);
        assert(bytes == rec + rest);
        lemma_record_bytes_len(key, e);
        assert(bytes.take(2) =~= spec_u16_to_le_bytes(klen as u16));
        assert(spec_u16_from_le_bytes(bytes.take(2)) == klen as u16);
        assert(bytes.subrange(2, 2 + klen) =~= kb);
        vstd::utf8::encode_utf8_valid_utf8(key);
        vstd::utf8::encode_utf8_decode_utf8(key);
        assert(bytes.subrange(2 + klen, 2 + klen + 8) =~= spec_u64_to_le_bytes(e.inode));
        assert(bytes.subrange(2 + klen + 10, 2 + klen + 18) =~= spec_u64_to_le_bytes(e.size));
        assert(bytes.subrange(2 + klen + 18, 2 + klen + 20) =~= spec_u16_to_le_bytes(
            e.size_unit.spec_to_u16(),
        ));
        assert(bytes.subrange(2 + klen + 20, 2 + klen + 28) =~= spec_u64_to_le_bytes(e.device_id));
        crate::units::lemma_unit_tag_round_trip(e.size_unit);
        assert(spec_record_entry(bytes, klen) == e);
        assert(bytes.skip(2 + klen + 28) =~= rest);
        assert forall|i: int|
            0 <= i < s.drop_first().len() implies 1 <= encode_utf8(
            (#[trigger] s.drop_first()[i]).0,
        ).len() <= KEY_LEN_CEILING by {
            assert(s.drop_first()[i] == s[i + 1]);
        }
        lemma_decode_encode(s.drop_first());
        assert(spec_decode(bytes).0 =~= s);
        assert(spec_decode(bytes).1 == 0);
    }
}

/// Binding records whose keys are fresh and pairwise distinct on top of
/// `base` simply appends them.
pub proof fn lemma_apply_fresh(
    base: Seq<(Seq<char>, CacheEntry)>,
    s: Seq<(Seq<char>, CacheEntry)>,
)
    requires
        spec_keys_unique(s),
        forall|i: int, p: int|
            0 <= i < s.len() && 0 <= p < base.len() ==> (#[trigger] s[i]).0 != (
            #[trigger] base[p]).0,
    ensures
        spec_apply_records(base, s) == base + s,
    decreases s.len(),
{
    if s.len() == 0 {
        assert(spec_apply_records(base, s) =~= base + s);
    } else {
        assert forall|p: int| 0 <= p < base.len() implies (#[trigger] base[p]).0 != s[0].0 by {
            assert(s[0].0 != base[p].0);
        }
        crate::store::lemma_assoc_update_missing(base, s[0].0, s[0].1);
        let base2 = assoc_update(base, s[0].0, s[0].1);
        assert((s[0].0, s[0].1) == s[0]);
        assert(base2 == base.push(s[0]));
        let rest = s.drop_first();
        assert forall|i: int, j: int| 0 <= i < j < rest.len() implies (#[trigger] rest[i]).0 != (
        #[trigger] rest[j]).0 by {
            assert(rest[i] == s[i + 1]);
            assert(rest[j] == s[j + 1]);
        }
        assert forall|i: int, p: int|
            0 <= i < rest.len() && 0 <= p < base2.len() implies (#[trigger] rest[i]).0 != (
        #[trigger] base2[p]).0 by {
            assert(rest[i] == s[i + 1]);
            if p < base.len() {
                assert(base2[p] == base[p]);
            } else {
                assert(base2[p] == s[0]);
            }
        }
        lemma_apply_fresh(base2, rest);
        assert(spec_apply_records(base, s) == spec_apply_records(base2, rest));
        assert(base2 + rest =~= base + s);
    }
}

/// The cache round trip: a store whose keys persist and are bound once is
/// reproduced bit-for-bit by saving, loading, and saving again.  Loading the
/// saved stream finds exactly the saved records (key, magnitude, unit,
/// volume id and node id all preserved) with no corruption, and the reloaded
/// store writes the same stream.
pub proof fn lemma_cache_round_trip(s: Seq<(Seq<char>, CacheEntry)>)
    requires
        spec_keys_unique(s),
        spec_keys_persist(s),
    ensures
        spec_decode(spec_encode_stream(s)).0 == s,
        spec_decode(spec_encode_stream(s)).1 == 0,
        spec_apply_records(Seq::empty(), spec_decode(spec_encode_stream(s)).0) == s,
        spec_encode_stream(spec_apply_records(Seq::empty(), spec_decode(spec_encode_stream(s)).0))
            == spec_encode_stream(s),
{
    lemma_decode_encode(s);
    lemma_apply_fresh(Seq::empty(), s);
    assert(Seq::<(Seq<char>, CacheEntry)>::empty() + s =~= s);
}

/// Corruption containment: a valid stream cut short strictly inside record
/// `i` (at least past that record's length field) decodes to all the intact
/// records before it, with exactly one corruption event, and nothing more.
pub proof fn lemma_truncation_containment(s: Seq<(Seq<char>, CacheEntry)>, i: int, cut: int)
    requires
        spec_keys_persist(s),
        0 <= i < s.len(),
        spec_encode_stream(s.take(i)).len() + 2 <= cut,
        cut < spec_encode_stream(s.take(i + 1)).len(),
    ensures
        spec_decode(spec_encode_stream(s).take(cut)).0 == s.take(i),
        spec_decode(spec_encode_stream(s).take(cut)).1 == 1,
    decreases i,
{
    vstd::bytes::lemma_auto_spec_u16_to_from_le_bytes();
    vstd::bytes::lemma_auto_spec_u64_to_from_le_bytes();
    let key = s[0].0;
    let e = s[0].1;
    let kb = encode_utf8(key);
    let klen = kb.len() as int;
    assert(1 <= klen <= KEY_LEN_CEILING);
    assert(spec_key_fits(key));
    let rec = spec_record_bytes(key, e);
    let bytes = spec_encode_stream(s);
    let rest = spec_encode_stream(s.drop_first());
    assert(bytes == rec + rest);
    lemma_record_bytes_len(key, e);
    let cb = bytes.take(cut);
    if i == 0 {
        assert(spec_encode_stream(s.take(0)).len() == 0);
        assert(s.take(1).drop_first() =~= Seq::<(Seq<char>, CacheEntry)>::empty());
        assert(s.take(1)[0] == s[0]);
        assert(spec_encode_stream(s.take(1)) == (if spec_key_fits(s.take(1)[0].0) {
            spec_record_bytes(s.take(1)[0].0, s.take(1)[0].1)
        } else {
            Seq::<u8>::empty()
        }) + spec_encode_stream(s.take(1).drop_first()));
        assert(spec_encode_stream(s.take(1).drop_first()).len() == 0);
        assert(spec_record_bytes(s.take(1)[0].0, s.take(1)[0].1) == rec);
        assert(2 <= cut < rec.len());
        assert(cb.len() == cut);
        assert(cb.take(2) =~= spec_u16_to_le_bytes(klen as u16));
        assert(spec_u16_from_le_bytes(cb.take(2)) == klen as u16);
        assert(cb.len() < 2 + klen + RECORD_TAIL_LEN);
        assert(spec_decode(cb).0 =~= s.take(0));
    } else {
        let prev = spec_encode_stream(s.take(i));
        assert(s.take(i)[0] == s[0]);
        assert(s.take(i).drop_first() =~= s.drop_first().take(i - 1));
        assert(spec_encode_stream(s.take(i)) == rec + spec_encode_stream(
            s.drop_first().take(i - 1),
        ));
        assert(s.take(i + 1)[0] == s[0]);
        assert(s.take(i + 1).drop_first() =~= s.drop_first().take(i));
        assert(spec_encode_stream(s.take(i + 1)) == rec + spec_encode_stream(
            s.drop_first().take(i),
        ));
        assert(cut >= rec.len() + 2);
        lemma_stream_split(s, i + 1);
        assert(spec_encode_stream(s).len() >= spec_encode_stream(s.take(i + 1)).len());
        assert(cut <= bytes.len());
        assert(cb.len() == cut);
        assert(cb.take(2) =~= spec_u16_to_le_bytes(klen as u16));
        assert(spec_u16_from_le_bytes(cb.take(2)) == klen as u16);
        assert(cb.len() >= 2 + klen + RECORD_TAIL_LEN);
        assert(cb.subrange(2, 2 + klen) =~= kb);
        vstd::utf8::encode_utf8_valid_utf8(key);
        vstd::utf8::encode_utf8_decode_utf8(key);
        assert(cb.subrange(2 + klen, 2 + klen + 8) =~= spec_u64_to_le_bytes(e.inode));
        assert(cb.subrange(2 + klen + 10, 2 + klen + 18) =~= spec_u64_to_le_bytes(e.size));
        assert(cb.subrange(2 + klen + 18, 2 + klen + 20) =~= spec_u16_to_le_bytes(
            e.size_unit.spec_to_u16(),
        ));
        assert(cb.subrange(2 + klen + 20, 2 + klen + 28) =~= spec_u64_to_le_bytes(e.device_id));
        crate::units::lemma_unit_tag_round_trip(e.size_unit);
        assert(spec_record_entry(cb, klen) == e);
        assert(cb.skip(2 + klen + 28) =~= rest.take(cut - rec.len()));
        assert forall|j: int|
            0 <= j < s.drop_first().len() implies 1 <= encode_utf8(
            (#[trigger] s.drop_first()[j]).0,
        ).len() <= KEY_LEN_CEILING by {
            assert(s.drop_first()[j] == s[j + 1]);
        }
        lemma_truncation_containment(s.drop_first(), i - 1, cut - rec.len() as int);
        assert(spec_decode(cb).0 =~= seq![(key, e)] + s.drop_first().take(i - 1));
        assert(seq![(key, e)] + s.drop_first().take(i - 1) =~= s.take(i));
        assert(spec_decode(cb).1 == 1);
    }
}

} // verus!
