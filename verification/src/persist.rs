//! The persistent store: the whole system cache serialized into a compact,
//! versioned binary snapshot, compressed before it reaches disk.
//!
//! Writing the snapshot file and reading it back is the caller's business;
//! this module turns the cache into bytes and bytes back into a cache.  Any
//! malformed input decodes to nothing, never to a failure: the caller then
//! rebuilds the cache by a full scan.
//!
//! Layout, little-endian throughout: a version byte; then the volume count;
//! per volume its mountpoint and its entry count; per entry the filename,
//! the path count, and each path as its string and one kind byte.  Strings
//! are a byte count followed by UTF-8 bytes.

use vstd::bytes::{spec_u64_from_le_bytes, spec_u64_to_le_bytes, lemma_auto_spec_u64_to_from_le_bytes};
use vstd::prelude::*;
use vstd::utf8::{decode_utf8, encode_utf8, valid_utf8};

use crate::state::{CachedPathView, FileType, SystemCache, SystemCacheView, VolumeCacheView};

verus! {

/// Version byte that opens every snapshot.
pub const SNAPSHOT_VERSION: u8 = 1;

/// A string is encodable when its UTF-8 length fits the length field.
pub open spec fn str_ok(s: Seq<char>) -> bool {
    encode_utf8(s).len() <= u64::MAX
}

pub open spec fn path_ok(p: CachedPathView) -> bool {
    str_ok(p.file_path)
}

pub open spec fn bucket_ok(name: Seq<char>, ps: Seq<CachedPathView>) -> bool {
    &&& str_ok(name)
    &&& ps.len() <= u64::MAX
    &&& forall|i: int| 0 <= i < ps.len() ==> path_ok(#[trigger] ps[i])
}

pub open spec fn volume_ok(mp: Seq<char>, v: VolumeCacheView) -> bool {
    &&& str_ok(mp)
    &&& v.len() <= u64::MAX
    &&& forall|i: int| 0 <= i < v.len() ==> bucket_ok((#[trigger] v[i]).0, v[i].1)
}

/// A system cache small enough in every dimension to encode.
pub open spec fn cache_ok(s: SystemCacheView) -> bool {
    &&& s.len() <= u64::MAX
    &&& forall|i: int| 0 <= i < s.len() ==> volume_ok((#[trigger] s[i]).0, s[i].1)
}

pub open spec fn ft_byte(ft: FileType) -> u8 {
    if ft is File {
        0
    } else {
        1
    }
}

pub open spec fn enc_str(s: Seq<char>) -> Seq<u8> {
    spec_u64_to_le_bytes(encode_utf8(s).len() as u64) + encode_utf8(s)
}

pub open spec fn enc_path(p: CachedPathView) -> Seq<u8> {
    enc_str(p.file_path) + seq![ft_byte(p.file_type)]
}

pub open spec fn enc_path_items(ps: Seq<CachedPathView>) -> Seq<u8>
    decreases ps.len(),
{
    if ps.len() == 0 {
        Seq::empty()
    } else {
        enc_path(ps[0]) + enc_path_items(ps.drop_first())
    }
}

pub open spec fn enc_bucket(name: Seq<char>, ps: Seq<CachedPathView>) -> Seq<u8> {
    enc_str(name) + spec_u64_to_le_bytes(ps.len() as u64) + enc_path_items(ps)
}

pub open spec fn enc_bucket_items(v: VolumeCacheView) -> Seq<u8>
    decreases v.len(),
{
    if v.len() == 0 {
        Seq::empty()
    } else {
        enc_bucket(v[0].0, v[0].1) + enc_bucket_items(v.drop_first())
    }
}

pub open spec fn enc_volume(mp: Seq<char>, v: VolumeCacheView) -> Seq<u8> {
    enc_str(mp) + spec_u64_to_le_bytes(v.len() as u64) + enc_bucket_items(v)
}

pub open spec fn enc_volume_items(s: SystemCacheView) -> Seq<u8>
    decreases s.len(),
{
    if s.len() == 0 {
        Seq::empty()
    } else {
        enc_volume(s[0].0, s[0].1) + enc_volume_items(s.drop_first())
    }
}

/// The full snapshot encoding of a system cache.
pub open spec fn spec_encode_snapshot(s: SystemCacheView) -> Seq<u8> {
    seq![SNAPSHOT_VERSION] + spec_u64_to_le_bytes(s.len() as u64) + enc_volume_items(s)
}

// ---------------------------------------------------------------------
// The specification decoder: a total function from bytes to an optional
// value and the position after it.  The executable parser mirrors it.
// ---------------------------------------------------------------------

pub open spec fn dec_u64(data: Seq<u8>, pos: int) -> Option<(u64, int)> {
    if 0 <= pos && pos + 8 <= data.len() {
        Some((spec_u64_from_le_bytes(data.subrange(pos, pos + 8)), pos + 8))
    } else {
        None
    }
}

pub open spec fn dec_str(data: Seq<u8>, pos: int) -> Option<(Seq<char>, int)> {
    match dec_u64(data, pos) {
        None => None,
        Some((len, p2)) => {
            if p2 + len <= data.len() {
                let bytes = data.subrange(p2, p2 + len);
                if valid_utf8(bytes) {
                    Some((decode_utf8(bytes), p2 + len))
                } else {
                    None
                }
            } else {
                None
            }
        },
    }
}

pub open spec fn dec_path(data: Seq<u8>, pos: int) -> Option<(CachedPathView, int)> {
    match dec_str(data, pos) {
        None => None,
        Some((fp, p2)) => {
            if p2 + 1 <= data.len() {
                if data[p2] == 0u8 {
                    Some((CachedPathView { file_path: fp, file_type: FileType::File }, p2 + 1))
                } else if data[p2] == 1u8 {
                    Some(
                        (CachedPathView { file_path: fp, file_type: FileType::Directory }, p2 + 1),
                    )
                } else {
                    None
                }
            } else {
                None
            }
        },
    }
}

pub open spec fn dec_path_items(data: Seq<u8>, pos: int, n: nat) -> Option<(
    Seq<CachedPathView>,
    int,
)>
    decreases n,
{
    if n == 0 {
        Some((Seq::empty(), pos))
    } else {
        match dec_path(data, pos) {
            None => None,
            Some((p, p2)) => match dec_path_items(data, p2, (n - 1) as nat) {
                None => None,
                Some((rest, p3)) => Some((seq![p] + rest, p3)),
            },
        }
    }
}

pub open spec fn dec_bucket(data: Seq<u8>, pos: int) -> Option<(
    (Seq<char>, Seq<CachedPathView>),
    int,
)> {
    match dec_str(data, pos) {
        None => None,
        Some((name, p2)) => match dec_u64(data, p2) {
            None => None,
            Some((n, p3)) => match dec_path_items(data, p3, n as nat) {
                None => None,
                Some((ps, p4)) => Some(((name, ps), p4)),
            },
        },
    }
}

pub open spec fn dec_bucket_items(data: Seq<u8>, pos: int, n: nat) -> Option<(
    VolumeCacheView,
    int,
)>
    decreases n,
{
    if n == 0 {
        Some((Seq::empty(), pos))
    } else {
        match dec_bucket(data, pos) {
            None => None,
            Some((b, p2)) => match dec_bucket_items(data, p2, (n - 1) as nat) {
                None => None,
                Some((rest, p3)) => Some((seq![b] + rest, p3)),
            },
        }
    }
}

pub open spec fn dec_volume(data: Seq<u8>, pos: int) -> Option<(
    (Seq<char>, VolumeCacheView),
    int,
)> {
    match dec_str(data, pos) {
        None => None,
        Some((mp, p2)) => match dec_u64(data, p2) {
            None => None,
            Some((n, p3)) => match dec_bucket_items(data, p3, n as nat) {
                None => None,
                Some((v, p4)) => Some(((mp, v), p4)),
            },
        },
    }
}

pub open spec fn dec_volume_items(data: Seq<u8>, pos: int, n: nat) -> Option<(
    SystemCacheView,
    int,
)>
    decreases n,
{
    if n == 0 {
        Some((Seq::empty(), pos))
    } else {
        match dec_volume(data, pos) {
            None => None,
            Some((v, p2)) => match dec_volume_items(data, p2, (n - 1) as nat) {
                None => None,
                Some((rest, p3)) => Some((seq![v] + rest, p3)),
            },
        }
    }
}

/// The decoded snapshot: the version byte, the volume count, the volumes,
/// and nothing after them.
pub open spec fn spec_decode_snapshot(data: Seq<u8>) -> Option<SystemCacheView> {
    if data.len() >= 1 && data[0] == SNAPSHOT_VERSION {
        match dec_u64(data, 1) {
            None => None,
            Some((n, p2)) => match dec_volume_items(data, p2, n as nat) {
                None => None,
                Some((s, p3)) => {
                    if p3 == data.len() {
                        Some(s)
                    } else {
                        None
                    }
                },
            },
        }
    } else {
        None
    }
}

// ---------------------------------------------------------------------
// Round trip: decoding an encoding, wherever it sits in a larger buffer,
// yields the encoded value and stops right after it.
// ---------------------------------------------------------------------


/// Splits knowledge about a concatenation sitting inside a buffer into
/// knowledge about its two parts.
proof fn lemma_subrange_concat(data: Seq<u8>, pos: int, x: Seq<u8>, y: Seq<u8>)
    requires
        0 <= pos,
        pos + x.len() + y.len() <= data.len(),
        data.subrange(pos, pos + x.len() + y.len()) == x + y,
    ensures
        data.subrange(pos, pos + x.len()) == x,
        data.subrange(pos + x.len(), pos + x.len() + y.len()) == y,
{
    assert forall|k: int| 0 <= k < x.len() implies data.subrange(pos, pos + x.len() as int)[k]
        == x[k] by {
        assert(data.subrange(pos, pos + x.len() + y.len())[k] == (x + y)[k]);
    }
    assert(data.subrange(pos, pos + x.len()) =~= x);
    assert forall|k: int|
        0 <= k < y.len() implies data.subrange(
        pos + x.len(),
        pos + x.len() + y.len(),
    )[k] == y[k] by {
        assert(data.subrange(pos + x.len(), pos + x.len() + y.len())[k] == data[pos + x.len()
            + k]);
        assert(data.subrange(pos, pos + x.len() + y.len())[x.len() + k] == data[pos + x.len()
            + k]);
        assert((x + y)[x.len() + k] == y[k]);
    }
    assert(data.subrange(pos + x.len(), pos + x.len() + y.len()) =~= y);
}

proof fn lemma_dec_u64_enc(data: Seq<u8>, pos: int, x: u64)
    requires
        0 <= pos,
        pos + 8 <= data.len(),
        data.subrange(pos, pos + 8) == spec_u64_to_le_bytes(x),
    ensures
        dec_u64(data, pos) == Some((x, pos + 8)),
{
    lemma_auto_spec_u64_to_from_le_bytes();
}

proof fn lemma_dec_str_enc(data: Seq<u8>, pos: int, s: Seq<char>)
    requires
        0 <= pos,
        str_ok(s),
        pos + enc_str(s).len() <= data.len(),
        data.subrange(pos, pos + enc_str(s).len()) == enc_str(s),
    ensures
        enc_str(s).len() >= 8,
        dec_str(data, pos) == Some((s, pos + enc_str(s).len())),
{
    broadcast use vstd::utf8::encode_utf8_valid_utf8;
    broadcast use vstd::utf8::encode_utf8_decode_utf8;

    lemma_auto_spec_u64_to_from_le_bytes();
    let ub = spec_u64_to_le_bytes(encode_utf8(s).len() as u64);
    let eb = encode_utf8(s);
    assert(ub.len() == 8);
    assert(enc_str(s).len() == 8 + eb.len());
    lemma_subrange_concat(data, pos, ub, eb);
    lemma_dec_u64_enc(data, pos, encode_utf8(s).len() as u64);
    assert(valid_utf8(eb));
    assert(decode_utf8(eb) == s);
}

proof fn lemma_dec_path_enc(data: Seq<u8>, pos: int, p: CachedPathView)
    requires
        0 <= pos,
        path_ok(p),
        pos + enc_path(p).len() <= data.len(),
        data.subrange(pos, pos + enc_path(p).len()) == enc_path(p),
    ensures
        enc_path(p).len() >= 9,
        dec_path(data, pos) == Some((p, pos + enc_path(p).len())),
{
    let es = enc_str(p.file_path);
    let fb = seq![ft_byte(p.file_type)];
    lemma_subrange_concat(data, pos, es, fb);
    lemma_dec_str_enc(data, pos, p.file_path);
    assert(data.subrange(pos + es.len(), pos + es.len() + 1)[0] == data[pos + es.len()]);
    assert(data[pos + es.len()] == ft_byte(p.file_type));
}

proof fn lemma_dec_path_items_enc(data: Seq<u8>, pos: int, ps: Seq<CachedPathView>)
    requires
        0 <= pos,
        forall|i: int| 0 <= i < ps.len() ==> path_ok(#[trigger] ps[i]),
        pos + enc_path_items(ps).len() <= data.len(),
        data.subrange(pos, pos + enc_path_items(ps).len()) == enc_path_items(ps),
    ensures
        dec_path_items(data, pos, ps.len()) == Some((ps, pos + enc_path_items(ps).len())),
    decreases ps.len(),
{
    if ps.len() == 0 {
        assert(dec_path_items(data, pos, 0) == Some((Seq::<CachedPathView>::empty(), pos)));
        assert(ps =~= Seq::<CachedPathView>::empty());
    } else {
        let e0 = enc_path(ps[0]);
        let rest = enc_path_items(ps.drop_first());
        assert(enc_path_items(ps).len() == e0.len() + rest.len());
        lemma_subrange_concat(data, pos, e0, rest);
        lemma_dec_path_enc(data, pos, ps[0]);
        assert(forall|i: int|
            0 <= i < ps.drop_first().len() ==> path_ok(#[trigger] ps.drop_first()[i]));
        lemma_dec_path_items_enc(data, pos + e0.len(), ps.drop_first());
        assert(seq![ps[0]] + ps.drop_first() =~= ps);
    }
}

proof fn lemma_dec_bucket_enc(data: Seq<u8>, pos: int, name: Seq<char>, ps: Seq<CachedPathView>)
    requires
        0 <= pos,
        bucket_ok(name, ps),
        pos + enc_bucket(name, ps).len() <= data.len(),
        data.subrange(pos, pos + enc_bucket(name, ps).len()) == enc_bucket(name, ps),
    ensures
        dec_bucket(data, pos) == Some(((name, ps), pos + enc_bucket(name, ps).len())),
{
    let es = enc_str(name);
    let cb = spec_u64_to_le_bytes(ps.len() as u64);
    let items = enc_path_items(ps);
    lemma_auto_spec_u64_to_from_le_bytes();
    assert(cb.len() == 8);
    assert(enc_bucket(name, ps).len() == es.len() + 8 + items.len());
    assert(enc_bucket(name, ps) == (es + cb) + items);
    assert((es + cb).len() == es.len() + 8);
    lemma_subrange_concat(data, pos, es + cb, items);
    lemma_subrange_concat(data, pos, es, cb);
    lemma_dec_str_enc(data, pos, name);
    lemma_dec_u64_enc(data, pos + es.len(), ps.len() as u64);
    lemma_dec_path_items_enc(data, pos + es.len() + 8, ps);
}

proof fn lemma_dec_bucket_items_enc(data: Seq<u8>, pos: int, v: VolumeCacheView)
    requires
        0 <= pos,
        forall|i: int| 0 <= i < v.len() ==> bucket_ok((#[trigger] v[i]).0, v[i].1),
        pos + enc_bucket_items(v).len() <= data.len(),
        data.subrange(pos, pos + enc_bucket_items(v).len()) == enc_bucket_items(v),
    ensures
        dec_bucket_items(data, pos, v.len()) == Some((v, pos + enc_bucket_items(v).len())),
    decreases v.len(),
{
    if v.len() == 0 {
        assert(v =~= Seq::<(Seq<char>, Seq<CachedPathView>)>::empty());
    } else {
        let e0 = enc_bucket(v[0].0, v[0].1);
        let rest = enc_bucket_items(v.drop_first());
        assert(enc_bucket_items(v).len() == e0.len() + rest.len());
        lemma_subrange_concat(data, pos, e0, rest);
        lemma_dec_bucket_enc(data, pos, v[0].0, v[0].1);
        assert(forall|i: int|
            0 <= i < v.drop_first().len() ==> bucket_ok(
                (#[trigger] v.drop_first()[i]).0,
                v.drop_first()[i].1,
            ));
        lemma_dec_bucket_items_enc(data, pos + e0.len(), v.drop_first());
        assert((v[0].0, v[0].1) == v[0]);
        assert(seq![v[0]] + v.drop_first() =~= v);
    }
}

proof fn lemma_dec_volume_enc(data: Seq<u8>, pos: int, mp: Seq<char>, v: VolumeCacheView)
    requires
        0 <= pos,
        volume_ok(mp, v),
        pos + enc_volume(mp, v).len() <= data.len(),
        data.subrange(pos, pos + enc_volume(mp, v).len()) == enc_volume(mp, v),
    ensures
        dec_volume(data, pos) == Some(((mp, v), pos + enc_volume(mp, v).len())),
{
    let es = enc_str(mp);
    let cb = spec_u64_to_le_bytes(v.len() as u64);
    let items = enc_bucket_items(v);
    lemma_auto_spec_u64_to_from_le_bytes();
    assert(cb.len() == 8);
    assert(enc_volume(mp, v).len() == es.len() + 8 + items.len());
    assert(enc_volume(mp, v) == (es + cb) + items);
    assert((es + cb).len() == es.len() + 8);
    lemma_subrange_concat(data, pos, es + cb, items);
    lemma_subrange_concat(data, pos, es, cb);
    lemma_dec_str_enc(data, pos, mp);
    lemma_dec_u64_enc(data, pos + es.len(), v.len() as u64);
    lemma_dec_bucket_items_enc(data, pos + es.len() + 8, v);
}

proof fn lemma_dec_volume_items_enc(data: Seq<u8>, pos: int, s: SystemCacheView)
    requires
        0 <= pos,
        forall|i: int| 0 <= i < s.len() ==> volume_ok((#[trigger] s[i]).0, s[i].1),
        pos + enc_volume_items(s).len() <= data.len(),
        data.subrange(pos, pos + enc_volume_items(s).len()) == enc_volume_items(s),
    ensures
        dec_volume_items(data, pos, s.len()) == Some((s, pos + enc_volume_items(s).len())),
    decreases s.len(),
{
    if s.len() == 0 {
        assert(s =~= Seq::<(Seq<char>, VolumeCacheView)>::empty());
    } else {
        let e0 = enc_volume(s[0].0, s[0].1);
        let rest = enc_volume_items(s.drop_first());
        assert(enc_volume_items(s).len() == e0.len() + rest.len());
        lemma_subrange_concat(data, pos, e0, rest);
        lemma_dec_volume_enc(data, pos, s[0].0, s[0].1);
        assert(forall|i: int|
            0 <= i < s.drop_first().len() ==> volume_ok(
                (#[trigger] s.drop_first()[i]).0,
                s.drop_first()[i].1,
            ));
        lemma_dec_volume_items_enc(data, pos + e0.len(), s.drop_first());
        assert((s[0].0, s[0].1) == s[0]);
        assert(seq![s[0]] + s.drop_first() =~= s);
    }
}

/// Law: decoding an encoded snapshot gives back exactly the encoded cache,
/// for every cache whose dimensions fit the format.
pub proof fn lemma_snapshot_round_trip(s: SystemCacheView)
    requires
        cache_ok(s),
    ensures
        spec_decode_snapshot(spec_encode_snapshot(s)) == Some(s),
{
    let data = spec_encode_snapshot(s);
    lemma_auto_spec_u64_to_from_le_bytes();
    let vb = seq![SNAPSHOT_VERSION];
    let cb = spec_u64_to_le_bytes(s.len() as u64);
    let items = enc_volume_items(s);
    assert(cb.len() == 8);
    assert(data == (vb + cb) + items);
    assert(data.len() == 9 + items.len());
    assert(data.subrange(0, data.len() as int) =~= data);
    lemma_subrange_concat(data, 0, vb + cb, items);
    lemma_subrange_concat(data, 0, vb, cb);
    assert(data[0] == vb[0]);
    lemma_dec_u64_enc(data, 1, s.len() as u64);
    lemma_dec_volume_items_enc(data, 9, s);
}


// ---------------------------------------------------------------------
// Executable encoder.
// ---------------------------------------------------------------------

proof fn lemma_enc_path_items_push(ps: Seq<CachedPathView>, p: CachedPathView)
    ensures
        enc_path_items(ps.push(p)) == enc_path_items(ps) + enc_path(p),
    decreases ps.len(),
{
    if ps.len() == 0 {
        assert(ps.push(p)[0] == p);
        assert(ps.push(p).drop_first() =~= Seq::<CachedPathView>::empty());
        assert(enc_path_items(ps.push(p)) == enc_path(p) + enc_path_items(
            Seq::<CachedPathView>::empty(),
        ));
        assert(enc_path(p) + Seq::<u8>::empty() =~= Seq::<u8>::empty() + enc_path(p));
    } else {
        assert(ps.push(p).drop_first() =~= ps.drop_first().push(p));
        lemma_enc_path_items_push(ps.drop_first(), p);
        assert(enc_path(ps[0]) + (enc_path_items(ps.drop_first()) + enc_path(p)) =~= (enc_path(
            ps[0],
        ) + enc_path_items(ps.drop_first())) + enc_path(p));
    }
}

proof fn lemma_enc_bucket_items_push(v: VolumeCacheView, name: Seq<char>, ps: Seq<CachedPathView>)
    ensures
        enc_bucket_items(v.push((name, ps))) == enc_bucket_items(v) + enc_bucket(name, ps),
    decreases v.len(),
{
    if v.len() == 0 {
        assert(v.push((name, ps))[0] == (name, ps));
        assert(v.push((name, ps)).drop_first() =~= Seq::<(Seq<char>, Seq<CachedPathView>)>::empty());
        assert(enc_bucket_items(v.push((name, ps))) == enc_bucket(name, ps) + enc_bucket_items(
            Seq::<(Seq<char>, Seq<CachedPathView>)>::empty(),
        ));
        assert(enc_bucket(name, ps) + Seq::<u8>::empty() =~= Seq::<u8>::empty() + enc_bucket(
            name,
            ps,
        ));
    } else {
        assert(v.push((name, ps)).drop_first() =~= v.drop_first().push((name, ps)));
        lemma_enc_bucket_items_push(v.drop_first(), name, ps);
        assert(enc_bucket(v[0].0, v[0].1) + (enc_bucket_items(v.drop_first()) + enc_bucket(
            name,
            ps,
        )) =~= (enc_bucket(v[0].0, v[0].1) + enc_bucket_items(v.drop_first())) + enc_bucket(
            name,
            ps,
        ));
    }
}

proof fn lemma_enc_volume_items_push(s: SystemCacheView, mp: Seq<char>, v: VolumeCacheView)
    ensures
        enc_volume_items(s.push((mp, v))) == enc_volume_items(s) + enc_volume(mp, v),
    decreases s.len(),
{
    if s.len() == 0 {
        assert(s.push((mp, v))[0] == (mp, v));
        assert(s.push((mp, v)).drop_first() =~= Seq::<(Seq<char>, VolumeCacheView)>::empty());
        assert(enc_volume_items(s.push((mp, v))) == enc_volume(mp, v) + enc_volume_items(
            Seq::<(Seq<char>, VolumeCacheView)>::empty(),
        ));
        assert(enc_volume(mp, v) + Seq::<u8>::empty() =~= Seq::<u8>::empty() + enc_volume(mp, v));
    } else {
        assert(s.push((mp, v)).drop_first() =~= s.drop_first().push((mp, v)));
        lemma_enc_volume_items_push(s.drop_first(), mp, v);
        assert(enc_volume(s[0].0, s[0].1) + (enc_volume_items(s.drop_first()) + enc_volume(
            mp,
            v,
        )) =~= (enc_volume(s[0].0, s[0].1) + enc_volume_items(s.drop_first())) + enc_volume(
            mp,
            v,
        ));
    }
}

pub(crate) fn push_u64(out: &mut Vec<u8>, x: u64)
    ensures
        final(out)@ == old(out)@ + spec_u64_to_le_bytes(x),
{
    let mut b = vstd::bytes::u64_to_le_bytes(x);
    out.append(&mut b);
}

pub(crate) fn push_str(out: &mut Vec<u8>, s: &str)
    ensures
        final(out)@ == old(out)@ + enc_str(s@),
        str_ok(s@),
{
    let bytes = s.as_bytes();
    let n = bytes.len();
    push_u64(out, n as u64);
    let mut bv = vstd::slice::slice_to_vec(bytes);
    out.append(&mut bv);
    proof {
        assert(final(out)@ =~= old(out)@ + enc_str(s@));
    }
}

/// Serializes the whole system cache into its snapshot bytes.
pub fn encode_snapshot(c: &SystemCache) -> (out: Vec<u8>)
    ensures
        cache_ok(c@),
        out@ == spec_encode_snapshot(c@),
{
    let ghost gc = c@;
    let mut out: Vec<u8> = Vec::new();
    out.push(SNAPSHOT_VERSION);
    let n = c.len();
    push_u64(&mut out, n as u64);
    let ghost header = seq![SNAPSHOT_VERSION] + spec_u64_to_le_bytes(gc.len() as u64);
    proof {
        assert(out@ =~= header);
        assert(gc.take(0) =~= Seq::<(Seq<char>, VolumeCacheView)>::empty());
        assert(out@ =~= header + enc_volume_items(gc.take(0)));
    }
    for vi in 0..n
        invariant
            n == gc.len(),
            c@ == gc,
            out@ == header + enc_volume_items(gc.take(vi as int)),
            forall|i: int| 0 <= i < vi ==> volume_ok((#[trigger] gc[i]).0, gc[i].1),
    {
        let mp = c.key_at(vi);
        let vol = c.value_at(vi);
        push_str(&mut out, mp.as_str());
        let ghost gvol = vol.deep_view();
        let bn = vol.len();
        push_u64(&mut out, bn as u64);
        let ghost vbase = header + enc_volume_items(gc.take(vi as int)) + enc_str(gc[vi as int].0)
            + spec_u64_to_le_bytes(gvol.len() as u64);
        proof {
            assert(gvol.take(0) =~= Seq::<(Seq<char>, Seq<CachedPathView>)>::empty());
            assert(out@ =~= vbase + enc_bucket_items(gvol.take(0)));
        }
        for bi in 0..bn
            invariant
                bn == gvol.len(),
                vol.deep_view() == gvol,
                out@ == vbase + enc_bucket_items(gvol.take(bi as int)),
                forall|i: int| 0 <= i < bi ==> bucket_ok((#[trigger] gvol[i]).0, gvol[i].1),
        {
            let name = vol.key_at(bi);
            let bucket = vol.value_at(bi);
            let ghost gb = bucket.deep_view();
            push_str(&mut out, name.as_str());
            let pn = bucket.len();
            push_u64(&mut out, pn as u64);
            let ghost bbase = vbase + enc_bucket_items(gvol.take(bi as int)) + enc_str(
                gvol[bi as int].0,
            ) + spec_u64_to_le_bytes(gb.len() as u64);
            proof {
                assert(gb.take(0) =~= Seq::<CachedPathView>::empty());
                assert(out@ =~= bbase + enc_path_items(gb.take(0)));
            }
            for pi in 0..pn
                invariant
                    pn == gb.len(),
                    bucket.deep_view() == gb,
                    out@ == bbase + enc_path_items(gb.take(pi as int)),
                    forall|i: int| 0 <= i < pi ==> path_ok(#[trigger] gb[i]),
            {
                push_str(&mut out, bucket[pi].file_path.as_str());
                let fb: u8 = match bucket[pi].file_type {
                    FileType::File => 0,
                    FileType::Directory => 1,
                };
                out.push(fb);
                proof {
                    assert(out@ =~= bbase + enc_path_items(gb.take(pi as int)) + enc_path(
                        gb[pi as int],
                    ));
                    assert(gb.take(pi + 1) =~= gb.take(pi as int).push(gb[pi as int]));
                    lemma_enc_path_items_push(gb.take(pi as int), gb[pi as int]);
                    assert(out@ =~= bbase + enc_path_items(gb.take(pi + 1)));
                }
            }
            proof {
                assert(gb.take(pn as int) =~= gb);
                assert(gvol.take(bi + 1) =~= gvol.take(bi as int).push(gvol[bi as int]));
                lemma_enc_bucket_items_push(
                    gvol.take(bi as int),
                    gvol[bi as int].0,
                    gvol[bi as int].1,
                );
                assert((gvol[bi as int].0, gvol[bi as int].1) == gvol[bi as int]);
                assert(out@ =~= vbase + enc_bucket_items(gvol.take(bi + 1)));
                assert(bucket_ok(gvol[bi as int].0, gvol[bi as int].1));
            }
        }
        proof {
            assert(gvol.take(bn as int) =~= gvol);
            assert(gc.take(vi + 1) =~= gc.take(vi as int).push(gc[vi as int]));
            lemma_enc_volume_items_push(gc.take(vi as int), gc[vi as int].0, gc[vi as int].1);
            assert((gc[vi as int].0, gc[vi as int].1) == gc[vi as int]);
            assert(out@ =~= header + enc_volume_items(gc.take(vi + 1)));
            assert(volume_ok(gc[vi as int].0, gc[vi as int].1));
        }
    }
    proof {
        assert(gc.take(n as int) =~= gc);
        assert(out@ =~= spec_encode_snapshot(gc));
    }
    out
}

// ---------------------------------------------------------------------
// Executable decoder.
// ---------------------------------------------------------------------

/// Relies on `String::from_utf8`: it succeeds exactly on valid UTF-8 and
/// yields the string whose UTF-8 encoding is the input bytes.
#[verifier::external_body]
fn string_from_utf8(v: Vec<u8>) -> (r: Option<String>)
    ensures
        match r {
            Some(s) => encode_utf8(s@) == v@,
            None => !valid_utf8(v@),
        },
{
    String::from_utf8(v).ok()
}

pub(crate) fn read_u64(data: &[u8], pos: usize) -> (r: Option<(u64, usize)>)
    requires
        pos <= data@.len(),
    ensures
        match r {
            Some(xp) => dec_u64(data@, pos as int) == Some((xp.0, xp.1 as int)) && pos < xp.1
                <= data@.len(),
            None => dec_u64(data@, pos as int) is None,
        },
{
    if data.len() - pos < 8 {
        None
    } else {
        let s = vstd::slice::slice_subrange(data, pos, pos + 8);
        Some((vstd::bytes::u64_from_le_bytes(s), pos + 8))
    }
}

pub(crate) fn read_str(data: &[u8], pos: usize) -> (r: Option<(String, usize)>)
    requires
        pos <= data@.len(),
    ensures
        match r {
            Some(sp) => dec_str(data@, pos as int) == Some((sp.0@, sp.1 as int)) && pos < sp.1
                <= data@.len(),
            None => dec_str(data@, pos as int) is None,
        },
{
    broadcast use vstd::utf8::encode_utf8_valid_utf8;
    broadcast use vstd::utf8::encode_utf8_decode_utf8;

    match read_u64(data, pos) {
        None => None,
        Some((len, p2)) => {
            if len > (data.len() - p2) as u64 {
                return None;
            }
            let l = len as usize;
            let bytes = vstd::slice::slice_subrange(data, p2, p2 + l);
            let bv = vstd::slice::slice_to_vec(bytes);
            match string_from_utf8(bv) {
                Some(st) => {
                    proof {
                        assert(valid_utf8(data@.subrange(p2 as int, p2 + len)));
                        assert(decode_utf8(data@.subrange(p2 as int, p2 + len)) == st@);
                    }
                    Some((st, p2 + l))
                },
                None => None,
            }
        },
    }
}

fn read_path(data: &[u8], pos: usize) -> (r: Option<(crate::state::CachedPath, usize)>)
    requires
        pos <= data@.len(),
    ensures
        match r {
            Some(pp) => dec_path(data@, pos as int) == Some((pp.0@, pp.1 as int)) && pos < pp.1
                <= data@.len(),
            None => dec_path(data@, pos as int) is None,
        },
{
    match read_str(data, pos) {
        None => None,
        Some((fp, p2)) => {
            if data.len() - p2 < 1 {
                return None;
            }
            let b = data[p2];
            if b == 0 {
                Some((crate::state::CachedPath::new(fp, FileType::File), p2 + 1))
            } else if b == 1 {
                Some((crate::state::CachedPath::new(fp, FileType::Directory), p2 + 1))
            } else {
                None
            }
        },
    }
}

fn read_path_items(data: &[u8], pos: usize, n: u64) -> (r: Option<(Vec<crate::state::CachedPath>, usize)>)
    requires
        pos <= data@.len(),
    ensures
        match r {
            Some(pp) => dec_path_items(data@, pos as int, n as nat) == Some(
                (pp.0.deep_view(), pp.1 as int),
            ) && pp.1 <= data@.len(),
            None => dec_path_items(data@, pos as int, n as nat) is None,
        },
{
    let mut acc: Vec<crate::state::CachedPath> = Vec::new();
    let mut cur: usize = pos;
    proof {
        let r0 = dec_path_items(data@, pos as int, n as nat);
        if r0 is Some {
            assert(acc.deep_view() + r0.unwrap().0 =~= r0.unwrap().0);
        }
        assert(acc.deep_view() =~= Seq::<CachedPathView>::empty());
    }
    for i in 0..n
        invariant
            cur <= data@.len(),
            dec_path_items(data@, pos as int, n as nat) == (match dec_path_items(
                data@,
                cur as int,
                (n - i) as nat,
            ) {
                None => None,
                Some((rest, p)) => Some((acc.deep_view() + rest, p)),
            }),
    {
        let ghost before = acc.deep_view();
        match read_path(data, cur) {
            None => {
                return None;
            },
            Some((p, p2)) => {
                let ghost gp = p@;
                acc.push(p);
                proof {
                    let m = (n - i) as nat;
                    let r2 = dec_path_items(data@, p2 as int, (m - 1) as nat);
                    if r2 is Some {
                        assert(acc.deep_view() =~= before.push(gp));
                        assert(before + (seq![gp] + r2.unwrap().0) =~= (before.push(gp))
                            + r2.unwrap().0);
                    }
                }
                cur = p2;
            },
        }
    }
    proof {
        assert(dec_path_items(data@, cur as int, 0) == Some(
            (Seq::<CachedPathView>::empty(), cur as int),
        ));
        assert(acc.deep_view() + Seq::<CachedPathView>::empty() =~= acc.deep_view());
    }
    Some((acc, cur))
}

fn read_bucket_items(data: &[u8], pos: usize, n: u64) -> (r: Option<(crate::state::VolumeCache, usize)>)
    requires
        pos <= data@.len(),
    ensures
        match r {
            Some(vp) => dec_bucket_items(data@, pos as int, n as nat) == Some(
                (vp.0@, vp.1 as int),
            ) && vp.1 <= data@.len(),
            None => dec_bucket_items(data@, pos as int, n as nat) is None,
        },
{
    let mut acc: crate::state::VolumeCache = crate::alist::AssocList::new();
    let mut cur: usize = pos;
    proof {
        let r0 = dec_bucket_items(data@, pos as int, n as nat);
        if r0 is Some {
            assert(acc@ + r0.unwrap().0 =~= r0.unwrap().0);
        }
    }
    for i in 0..n
        invariant
            cur <= data@.len(),
            dec_bucket_items(data@, pos as int, n as nat) == (match dec_bucket_items(
                data@,
                cur as int,
                (n - i) as nat,
            ) {
                None => None,
                Some((rest, p)) => Some((acc@ + rest, p)),
            }),
    {
        let ghost before = acc@;
        match read_str(data, cur) {
            None => {
                return None;
            },
            Some((name, p2)) => match read_u64(data, p2) {
                None => {
                    return None;
                },
                Some((pn, p3)) => match read_path_items(data, p3, pn) {
                    None => {
                        return None;
                    },
                    Some((ps, p4)) => {
                        let ghost gname = name@;
                        let ghost gps = ps.deep_view();
                        acc.push(name, ps);
                        proof {
                            let m = (n - i) as nat;
                            let r2 = dec_bucket_items(data@, p4 as int, (m - 1) as nat);
                            if r2 is Some {
                                assert(acc@ =~= before.push((gname, gps)));
                                assert(before + (seq![(gname, gps)] + r2.unwrap().0) =~= (
                                before.push((gname, gps))) + r2.unwrap().0);
                            }
                        }
                        cur = p4;
                    },
                },
            },
        }
    }
    proof {
        assert(dec_bucket_items(data@, cur as int, 0) == Some(
            (Seq::<(Seq<char>, Seq<CachedPathView>)>::empty(), cur as int),
        ));
        assert(acc@ + Seq::<(Seq<char>, Seq<CachedPathView>)>::empty() =~= acc@);
    }
    Some((acc, cur))
}

fn read_volume_items(data: &[u8], pos: usize, n: u64) -> (r: Option<(SystemCache, usize)>)
    requires
        pos <= data@.len(),
    ensures
        match r {
            Some(sp) => dec_volume_items(data@, pos as int, n as nat) == Some(
                (sp.0@, sp.1 as int),
            ) && sp.1 <= data@.len(),
            None => dec_volume_items(data@, pos as int, n as nat) is None,
        },
{
    let mut acc: SystemCache = crate::alist::AssocList::new();
    let mut cur: usize = pos;
    proof {
        let r0 = dec_volume_items(data@, pos as int, n as nat);
        if r0 is Some {
            assert(acc@ + r0.unwrap().0 =~= r0.unwrap().0);
        }
    }
    for i in 0..n
        invariant
            cur <= data@.len(),
            dec_volume_items(data@, pos as int, n as nat) == (match dec_volume_items(
                data@,
                cur as int,
                (n - i) as nat,
            ) {
                None => None,
                Some((rest, p)) => Some((acc@ + rest, p)),
            }),
    {
        let ghost before = acc@;
        match read_str(data, cur) {
            None => {
                return None;
            },
            Some((mp, p2)) => match read_u64(data, p2) {
                None => {
                    return None;
                },
                Some((bn, p3)) => match read_bucket_items(data, p3, bn) {
                    None => {
                        return None;
                    },
                    Some((vol, p4)) => {
                        let ghost gmp = mp@;
                        let ghost gvol = vol@;
                        acc.push(mp, vol);
                        proof {
                            let m = (n - i) as nat;
                            let r2 = dec_volume_items(data@, p4 as int, (m - 1) as nat);
                            if r2 is Some {
                                assert(acc@ =~= before.push((gmp, gvol)));
                                assert(before + (seq![(gmp, gvol)] + r2.unwrap().0) =~= (
                                before.push((gmp, gvol))) + r2.unwrap().0);
                            }
                        }
                        cur = p4;
                    },
                },
            },
        }
    }
    proof {
        assert(dec_volume_items(data@, cur as int, 0) == Some(
            (Seq::<(Seq<char>, VolumeCacheView)>::empty(), cur as int),
        ));
        assert(acc@ + Seq::<(Seq<char>, VolumeCacheView)>::empty() =~= acc@);
    }
    Some((acc, cur))
}

/// Parses snapshot bytes back into a system cache.  Malformed bytes give
/// nothing; trailing bytes after the encoded cache also count as malformed.
pub fn decode_snapshot(data: &[u8]) -> (r: Option<SystemCache>)
    ensures
        match r {
            Some(c) => spec_decode_snapshot(data@) == Some(c@),
            None => spec_decode_snapshot(data@) is None,
        },
{
    if data.len() < 1 {
        return None;
    }
    if data[0] != SNAPSHOT_VERSION {
        return None;
    }
    match read_u64(data, 1) {
        None => None,
        Some((n, p2)) => match read_volume_items(data, p2, n) {
            None => None,
            Some((c, p3)) => {
                if p3 == data.len() {
                    Some(c)
                } else {
                    None
                }
            },
        },
    }
}

// ---------------------------------------------------------------------
// Compression and the disk-facing entry points.
// ---------------------------------------------------------------------

/// What zstd decompression yields on a given input, or nothing when the
/// input is not a zstd stream.  Decompression is a function of the bytes
/// alone.
pub uninterp spec fn unzstd(data: Seq<u8>) -> Option<Seq<u8>>;

/// Relies on `zstd::stream::encode_all` at the default level together with
/// `zstd::stream::decode_all`: decompressing a compressed stream gives back
/// exactly the bytes that were compressed.
#[verifier::external_body]
pub(crate) fn zstd_compress(data: &[u8]) -> (r: Option<Vec<u8>>)
    ensures
        match r {
            Some(v) => unzstd(v@) == Some(data@),
            None => true,
        },
{
    zstd::stream::encode_all(data, 0).ok()
}

/// Relies on `zstd::stream::decode_all`: it succeeds exactly on inputs that
/// decompress, and yields the decompressed bytes.
#[verifier::external_body]
pub(crate) fn zstd_decompress(data: &[u8]) -> (r: Option<Vec<u8>>)
    ensures
        match r {
            Some(v) => unzstd(data@) == Some(v@),
            None => unzstd(data@) is None,
        },
{
    zstd::stream::decode_all(data).ok()
}

/// Whether a loaded cache satisfies the structural invariant: unique
/// mountpoints, and in every volume unique filenames with non-empty path
/// lists.
fn system_cache_is_wf(c: &SystemCache) -> (r: bool)
    ensures
        r == crate::state::system_cache_wf(c@),
{
    if !c.keys_unique() {
        return false;
    }
    let n = c.len();
    for vi in 0..n
        invariant
            n == c@.len(),
            crate::alist::al_keys_unique(c@),
            forall|i: int| 0 <= i < vi ==> crate::state::volume_cache_wf(#[trigger] c@[i].1),
    {
        let vol = c.value_at(vi);
        if !vol.keys_unique() {
            proof {
                assert(!crate::state::volume_cache_wf(c@[vi as int].1));
                assert(!crate::state::system_cache_wf(c@));
            }
            return false;
        }
        let bn = vol.len();
        for bi in 0..bn
            invariant
                bn == vol@.len(),
                vol.deep_view() == c@[vi as int].1,
                vi < c@.len(),
                forall|i: int| 0 <= i < bi ==> (#[trigger] c@[vi as int].1[i]).1.len() > 0,
        {
            if vol.value_at(bi).len() == 0 {
                proof {
                    assert(c@[vi as int].1[bi as int].1.len() == 0);
                    assert(!crate::state::volume_cache_wf(c@[vi as int].1));
                    assert(!crate::state::system_cache_wf(c@));
                }
                return false;
            }
        }
        proof {
            assert(crate::alist::al_keys_unique(c@[vi as int].1));
            assert(forall|i: int|
                0 <= i < c@[vi as int].1.len() ==> (#[trigger] c@[vi as int].1[i]).1.len() > 0);
            assert(crate::state::volume_cache_wf(c@[vi as int].1));
        }
    }
    true
}

/// Serializes the live system cache and compresses it into the snapshot
/// bytes that belong on disk.  Compression is the one step that can refuse.
pub fn save_system_cache(state: &crate::state::AppState) -> (r: Option<Vec<u8>>)
    ensures
        match r {
            Some(bytes) => unzstd(bytes@) == Some(spec_encode_snapshot(state.system_cache@))
                && cache_ok(state.system_cache@),
            None => true,
        },
{
    let plain = encode_snapshot(&state.system_cache);
    zstd_compress(plain.as_slice())
}

/// Decompresses and decodes snapshot bytes and installs the cache they
/// hold.  Returns `true` exactly when the bytes decompress, decode, and
/// satisfy the cache invariant; any failure leaves the state untouched.
pub fn load_system_cache(state: &mut crate::state::AppState, data: &[u8]) -> (r: bool)
    ensures
        final(state).token_cache@ == old(state).token_cache@,
        !r ==> final(state).system_cache@ == old(state).system_cache@,
        r == (match unzstd(data@) {
            Some(plain) => match spec_decode_snapshot(plain) {
                Some(m) => crate::state::system_cache_wf(m),
                None => false,
            },
            None => false,
        }),
        r ==> (match unzstd(data@) {
            Some(plain) => spec_decode_snapshot(plain) == Some(final(state).system_cache@),
            None => false,
        }),
        r ==> final(state).wf(),
{
    match zstd_decompress(data) {
        None => false,
        Some(plain) => match decode_snapshot(plain.as_slice()) {
            None => false,
            Some(c) => {
                if system_cache_is_wf(&c) {
                    state.system_cache = c;
                    true
                } else {
                    false
                }
            },
        },
    }
}

} // verus!
