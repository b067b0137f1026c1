//! The tag cache: a bounded least-recently-used mapping from tag to its
//! documents, persisted with the same compressed-binary pattern as the
//! system cache snapshot.
//!
//! The cache's contents are modelled as the sequence of its entries from
//! most to least recently used.  An insert evicts the least recently used
//! entry when the cache is full; a read promotes its entry to most recently
//! used.

use vstd::prelude::*;

use crate::alist::{al_contains, al_key_idx, al_keys_unique, al_lookup, lemma_key_idx_absent};
use crate::persist::{
    dec_str, dec_u64, enc_str, push_str, push_u64, read_str, read_u64, unzstd, zstd_compress,
    zstd_decompress,
};
use vstd::bytes::spec_u64_to_le_bytes;

verus! {

/// Version byte that opens every tag snapshot.
pub const TAG_SNAPSHOT_VERSION: u8 = 1;

/// One document attached to a tag.
pub struct TagDoc {
    pub uuid: String,
    pub file_paths: Vec<String>,
    pub identifier: String,
    pub color_hex: String,
}

/// Mathematical image of a `TagDoc`.
pub struct TagDocView {
    pub uuid: Seq<char>,
    pub file_paths: Seq<Seq<char>>,
    pub identifier: Seq<char>,
    pub color_hex: Seq<char>,
}

impl View for TagDoc {
    type V = TagDocView;

    open spec fn view(&self) -> TagDocView {
        TagDocView {
            uuid: self.uuid@,
            file_paths: self.file_paths.deep_view(),
            identifier: self.identifier@,
            color_hex: self.color_hex@,
        }
    }
}

impl DeepView for TagDoc {
    type V = TagDocView;

    open spec fn deep_view(&self) -> TagDocView {
        self.view()
    }
}

impl Clone for TagDoc {
    fn clone(&self) -> (r: Self)
        ensures
            r@ == self@,
    {
        let r = TagDoc {
            uuid: self.uuid.clone(),
            file_paths: clone_strings(&self.file_paths),
            identifier: self.identifier.clone(),
            color_hex: self.color_hex.clone(),
        };
        proof {
            assert(r@ == self@);
        }
        r
    }
}

fn clone_strings(v: &Vec<String>) -> (r: Vec<String>)
    ensures
        r.deep_view() == v.deep_view(),
{
    let mut r: Vec<String> = Vec::new();
    let n = v.len();
    for i in 0..n
        invariant
            n == v@.len(),
            r.deep_view() == v.deep_view().take(i as int),
    {
        let ghost before = r.deep_view();
        r.push(v[i].clone());
        proof {
            assert(r.deep_view() =~= before.push(v.deep_view()[i as int]));
            assert(before.push(v.deep_view()[i as int]) =~= v.deep_view().take(i + 1));
        }
    }
    proof {
        assert(v.deep_view().take(n as int) =~= v.deep_view());
    }
    r
}

/// The entries of a tag cache, most recently used first.
pub type TagEntries = Seq<(Seq<char>, Seq<TagDocView>)>;

/// What the bounded LRU holds, from most to least recently used.  A name
/// for the contents of the `lru` crate's cache.
pub uninterp spec fn lru_entries(c: lru::LruCache<String, Vec<TagDoc>>) -> TagEntries;

/// The fixed capacity the `lru` crate's cache was created with.
pub uninterp spec fn lru_capacity(c: lru::LruCache<String, Vec<TagDoc>>) -> nat;

#[verifier::external_type_specification]
#[verifier::external_body]
#[verifier::reject_recursive_types(K)]
#[verifier::reject_recursive_types(V)]
#[verifier::reject_recursive_types(S)]
pub struct ExLruCache<K, V, S>(lru::LruCache<K, V, S>);

/// Contents after inserting `(k, v)`: an entry already bearing `k` is
/// replaced and promoted; otherwise the new entry enters at the front, and
/// a full cache drops its least recently used entry.
pub open spec fn spec_lru_put(s: TagEntries, cap: nat, k: Seq<char>, v: Seq<TagDocView>) -> TagEntries {
    if al_contains(s, k) {
        seq![(k, v)] + s.remove(al_key_idx(s, k))
    } else if s.len() >= cap {
        seq![(k, v)] + s.drop_last()
    } else {
        seq![(k, v)] + s
    }
}

/// Contents after reading `k`: its entry moves to the front.
pub open spec fn spec_lru_promote(s: TagEntries, k: Seq<char>) -> TagEntries {
    if al_contains(s, k) {
        seq![s[al_key_idx(s, k)]] + s.remove(al_key_idx(s, k))
    } else {
        s
    }
}

/// Relies on `lru::LruCache::new`: an empty cache with the given fixed
/// capacity.
#[verifier::external_body]
fn lru_new(capacity: usize) -> (r: lru::LruCache<String, Vec<TagDoc>>)
    requires
        capacity >= 1,
    ensures
        lru_entries(r) == Seq::<(Seq<char>, Seq<TagDocView>)>::empty(),
        lru_capacity(r) == capacity,
{
    lru::LruCache::new(std::num::NonZeroUsize::new(capacity).unwrap())
}

/// Relies on `lru::LruCache::put`: an existing key is updated and promoted
/// to most recently used; a new key enters at the front, evicting the least
/// recently used entry when the cache is full.
#[verifier::external_body]
fn lru_put(c: &mut lru::LruCache<String, Vec<TagDoc>>, k: String, v: Vec<TagDoc>)
    ensures
        lru_capacity(*final(c)) == lru_capacity(*old(c)),
        lru_entries(*final(c)) == spec_lru_put(
            lru_entries(*old(c)),
            lru_capacity(*old(c)),
            k@,
            v.deep_view(),
        ),
{
    c.put(k, v);
}

/// Relies on `lru::LruCache::get`: returns the value of a present key and
/// moves its entry to most recently used; an absent key changes nothing.
#[verifier::external_body]
fn lru_get(c: &mut lru::LruCache<String, Vec<TagDoc>>, k: &String) -> (r: Option<Vec<TagDoc>>)
    ensures
        lru_capacity(*final(c)) == lru_capacity(*old(c)),
        match r {
            Some(v) => al_contains(lru_entries(*old(c)), k@) && v.deep_view() == al_lookup(
                lru_entries(*old(c)),
                k@,
            ) && lru_entries(*final(c)) == spec_lru_promote(lru_entries(*old(c)), k@),
            None => !al_contains(lru_entries(*old(c)), k@) && lru_entries(*final(c))
                == lru_entries(*old(c)),
        },
{
    c.get(k).cloned()
}

/// Relies on `lru::LruCache::iter`: the entries from most to least
/// recently used, cloned out.
#[verifier::external_body]
fn lru_items(c: &lru::LruCache<String, Vec<TagDoc>>) -> (r: Vec<(String, Vec<TagDoc>)>)
    ensures
        r.deep_view() == lru_entries(*c),
{
    c.iter().map(|(k, v)| (k.clone(), v.clone())).collect()
}

/// A bounded LRU cache from tag to its documents.
pub struct TagCache {
    cache: lru::LruCache<String, Vec<TagDoc>>,
}

impl TagCache {
    /// The entries, most recently used first.
    pub closed spec fn entries(&self) -> TagEntries {
        lru_entries(self.cache)
    }

    pub closed spec fn capacity(&self) -> nat {
        lru_capacity(self.cache)
    }

    /// An empty cache that will hold at most `capacity` tags.
    pub fn new(capacity: usize) -> (r: Self)
        requires
            capacity >= 1,
        ensures
            r.entries() == Seq::<(Seq<char>, Seq<TagDocView>)>::empty(),
            r.capacity() == capacity,
    {
        TagCache { cache: lru_new(capacity) }
    }

    /// Inserts a tag, evicting the least recently used entry when the
    /// cache is full.
    pub fn insert(&mut self, key: String, value: Vec<TagDoc>)
        ensures
            final(self).capacity() == old(self).capacity(),
            final(self).entries() == spec_lru_put(
                old(self).entries(),
                old(self).capacity(),
                key@,
                value.deep_view(),
            ),
    {
        lru_put(&mut self.cache, key, value);
    }

    /// The documents of a tag, which becomes the most recently used.
    pub fn get(&mut self, key: &String) -> (r: Option<Vec<TagDoc>>)
        ensures
            final(self).capacity() == old(self).capacity(),
            match r {
                Some(v) => al_contains(old(self).entries(), key@) && v.deep_view() == al_lookup(
                    old(self).entries(),
                    key@,
                ) && final(self).entries() == spec_lru_promote(old(self).entries(), key@),
                None => !al_contains(old(self).entries(), key@) && final(self).entries() == old(
                    self,
                ).entries(),
            },
    {
        lru_get(&mut self.cache, key)
    }

    /// Every tag name, most recently used first.
    pub fn tags(&self) -> (r: Vec<String>)
        ensures
            r.deep_view() == Seq::new(self.entries().len(), |i: int| self.entries()[i].0),
    {
        let items = lru_items(&self.cache);
        let ghost gi = items.deep_view();
        let mut r: Vec<String> = Vec::new();
        let n = items.len();
        for i in 0..n
            invariant
                n == gi.len(),
                items.deep_view() == gi,
                gi == self.entries(),
                r.deep_view() == Seq::new(i as nat, |j: int| gi[j].0),
        {
            let ghost before = r.deep_view();
            r.push(items[i].0.clone());
            proof {
                assert(r.deep_view() =~= before.push(gi[i as int].0));
                assert(before.push(gi[i as int].0) =~= Seq::new((i + 1) as nat, |j: int| gi[j].0));
            }
        }
        proof {
            assert(r.deep_view() =~= Seq::new(self.entries().len(), |i: int| self.entries()[i].0));
        }
        r
    }

    /// Serializes the entries, most recently used first, and compresses
    /// them into the tag snapshot bytes.
    pub fn save_to_disk(&self) -> (r: Option<Vec<u8>>)
        ensures
            match r {
                Some(bytes) => unzstd(bytes@) == Some(spec_encode_tags(self.entries())),
                None => true,
            },
    {
        let items = lru_items(&self.cache);
        let plain = encode_tags(&items);
        zstd_compress(plain.as_slice())
    }

    /// Decompresses and decodes tag snapshot bytes into a cache with the
    /// given fixed capacity: the decoded entries are re-inserted from least
    /// to most recently used, so the recency order survives the round trip.
    pub fn load_from_disk(data: &[u8], capacity: usize) -> (r: Option<TagCache>)
        requires
            capacity >= 1,
        ensures
            match r {
                Some(c) => (match unzstd(data@) {
                    Some(plain) => (match spec_decode_tags(plain) {
                        Some(es) => c.entries() == spec_rebuild(es, capacity as nat) && c.capacity()
                            == capacity,
                        None => false,
                    }),
                    None => false,
                }),
                None => (match unzstd(data@) {
                    Some(plain) => spec_decode_tags(plain) is None,
                    None => true,
                }),
            },
    {
        match zstd_decompress(data) {
            None => None,
            Some(plain) => match decode_tags(plain.as_slice()) {
                None => None,
                Some(items) => {
                    let ghost ges = items.deep_view();
                    let mut cache = TagCache::new(capacity);
                    let mut i = items.len();
                    proof {
                        assert(ges.skip(i as int) =~= Seq::<(Seq<char>, Seq<TagDocView>)>::empty());
                    }
                    while i > 0
                        invariant
                            i <= items@.len(),
                            items.deep_view() == ges,
                            cache.capacity() == capacity,
                            capacity >= 1,
                            cache.entries() == spec_rebuild(ges.skip(i as int), capacity as nat),
                        decreases i,
                    {
                        i = i - 1;
                        let (k, v) = read_item(&items, i);
                        let ghost before = cache.entries();
                        cache.insert(k, v);
                        proof {
                            assert(ges.skip(i as int).drop_first() =~= ges.skip(i + 1));
                            assert(ges.skip(i as int)[0] == ges[i as int]);
                        }
                    }
                    proof {
                        assert(ges.skip(0) =~= ges);
                    }
                    Some(cache)
                },
            },
        }
    }
}

/// The cache contents that re-inserting a decoded entry list produces: the
/// entries are put back from the last (least recent) to the first.
pub open spec fn spec_rebuild(es: TagEntries, cap: nat) -> TagEntries
    decreases es.len(),
{
    if es.len() == 0 {
        Seq::empty()
    } else {
        spec_lru_put(spec_rebuild(es.drop_first(), cap), cap, es[0].0, es[0].1)
    }
}

/// Law: a saved tag snapshot loads back to exactly the saved entries, in
/// the same recency order, whenever the tags are distinct and fit the
/// configured capacity.
pub proof fn lemma_tag_snapshot_restores(es: TagEntries, cap: nat)
    requires
        al_keys_unique(es),
        es.len() <= cap,
    ensures
        spec_rebuild(es, cap) == es,
    decreases es.len(),
{
    if es.len() > 0 {
        let tail = es.drop_first();
        assert(forall|i: int, j: int| 0 <= i < j < tail.len() ==> tail[i].0 != tail[j].0);
        lemma_tag_snapshot_restores(tail, cap);
        assert(forall|j: int| 0 <= j < tail.len() ==> tail[j].0 != es[0].0);
        lemma_key_idx_absent(tail, es[0].0);
        assert((es[0].0, es[0].1) == es[0]);
        assert(seq![es[0]] + tail =~= es);
    }
}

fn read_item(items: &Vec<(String, Vec<TagDoc>)>, i: usize) -> (r: (String, Vec<TagDoc>))
    requires
        i < items@.len(),
    ensures
        r.0@ == items.deep_view()[i as int].0,
        r.1.deep_view() == items.deep_view()[i as int].1,
{
    let k = items[i].0.clone();
    let mut v: Vec<TagDoc> = Vec::new();
    let n = items[i].1.len();
    for j in 0..n
        invariant
            i < items@.len(),
            n == items@[i as int].1@.len(),
            v.deep_view() == items.deep_view()[i as int].1.take(j as int),
    {
        let ghost before = v.deep_view();
        v.push(items[i].1[j].clone());
        proof {
            assert(v.deep_view() =~= before.push(items.deep_view()[i as int].1[j as int]));
            assert(before.push(items.deep_view()[i as int].1[j as int])
                =~= items.deep_view()[i as int].1.take(j + 1));
        }
    }
    proof {
        assert(items.deep_view()[i as int].1.take(n as int) =~= items.deep_view()[i as int].1);
    }
    (k, v)
}

// ---------------------------------------------------------------------
// The tag snapshot encoding.
// ---------------------------------------------------------------------

pub open spec fn enc_str_items(ss: Seq<Seq<char>>) -> Seq<u8>
    decreases ss.len(),
{
    if ss.len() == 0 {
        Seq::empty()
    } else {
        enc_str(ss[0]) + enc_str_items(ss.drop_first())
    }
}

pub open spec fn enc_tag_doc(d: TagDocView) -> Seq<u8> {
    enc_str(d.uuid) + spec_u64_to_le_bytes(d.file_paths.len() as u64) + enc_str_items(d.file_paths)
        + enc_str(d.identifier) + enc_str(d.color_hex)
}

pub open spec fn enc_tag_docs(ds: Seq<TagDocView>) -> Seq<u8>
    decreases ds.len(),
{
    if ds.len() == 0 {
        Seq::empty()
    } else {
        enc_tag_doc(ds[0]) + enc_tag_docs(ds.drop_first())
    }
}

pub open spec fn enc_tag_entry(k: Seq<char>, ds: Seq<TagDocView>) -> Seq<u8> {
    enc_str(k) + spec_u64_to_le_bytes(ds.len() as u64) + enc_tag_docs(ds)
}

pub open spec fn enc_tag_items(es: TagEntries) -> Seq<u8>
    decreases es.len(),
{
    if es.len() == 0 {
        Seq::empty()
    } else {
        enc_tag_entry(es[0].0, es[0].1) + enc_tag_items(es.drop_first())
    }
}

/// The full tag snapshot encoding.
pub open spec fn spec_encode_tags(es: TagEntries) -> Seq<u8> {
    seq![TAG_SNAPSHOT_VERSION] + spec_u64_to_le_bytes(es.len() as u64) + enc_tag_items(es)
}

pub open spec fn dec_str_items(data: Seq<u8>, pos: int, n: nat) -> Option<(Seq<Seq<char>>, int)>
    decreases n,
{
    if n == 0 {
        Some((Seq::empty(), pos))
    } else {
        match dec_str(data, pos) {
            None => None,
            Some((s, p2)) => match dec_str_items(data, p2, (n - 1) as nat) {
                None => None,
                Some((rest, p3)) => Some((seq![s] + rest, p3)),
            },
        }
    }
}

pub open spec fn dec_tag_doc(data: Seq<u8>, pos: int) -> Option<(TagDocView, int)> {
    match dec_str(data, pos) {
        None => None,
        Some((uuid, p2)) => match dec_u64(data, p2) {
            None => None,
            Some((n, p3)) => match dec_str_items(data, p3, n as nat) {
                None => None,
                Some((paths, p4)) => match dec_str(data, p4) {
                    None => None,
                    Some((ident, p5)) => match dec_str(data, p5) {
                        None => None,
                        Some((color, p6)) => Some(
                            (
                                TagDocView {
                                    uuid: uuid,
                                    file_paths: paths,
                                    identifier: ident,
                                    color_hex: color,
                                },
                                p6,
                            ),
                        ),
                    },
                },
            },
        },
    }
}

pub open spec fn dec_tag_docs(data: Seq<u8>, pos: int, n: nat) -> Option<(Seq<TagDocView>, int)>
    decreases n,
{
    if n == 0 {
        Some((Seq::empty(), pos))
    } else {
        match dec_tag_doc(data, pos) {
            None => None,
            Some((d, p2)) => match dec_tag_docs(data, p2, (n - 1) as nat) {
                None => None,
                Some((rest, p3)) => Some((seq![d] + rest, p3)),
            },
        }
    }
}

pub open spec fn dec_tag_entry(data: Seq<u8>, pos: int) -> Option<(
    (Seq<char>, Seq<TagDocView>),
    int,
)> {
    match dec_str(data, pos) {
        None => None,
        Some((k, p2)) => match dec_u64(data, p2) {
            None => None,
            Some((n, p3)) => match dec_tag_docs(data, p3, n as nat) {
                None => None,
                Some((ds, p4)) => Some(((k, ds), p4)),
            },
        },
    }
}

pub open spec fn dec_tag_items(data: Seq<u8>, pos: int, n: nat) -> Option<(TagEntries, int)>
    decreases n,
{
    if n == 0 {
        Some((Seq::empty(), pos))
    } else {
        match dec_tag_entry(data, pos) {
            None => None,
            Some((e, p2)) => match dec_tag_items(data, p2, (n - 1) as nat) {
                None => None,
                Some((rest, p3)) => Some((seq![e] + rest, p3)),
            },
        }
    }
}

/// The decoded tag snapshot: version, count, entries, nothing after them.
pub open spec fn spec_decode_tags(data: Seq<u8>) -> Option<TagEntries> {
    if data.len() >= 1 && data[0] == TAG_SNAPSHOT_VERSION {
        match dec_u64(data, 1) {
            None => None,
            Some((n, p2)) => match dec_tag_items(data, p2, n as nat) {
                None => None,
                Some((es, p3)) => {
                    if p3 == data.len() {
                        Some(es)
                    } else {
                        None
                    }
                },
            },
        }
    } else {
        None
    }
}

proof fn lemma_enc_str_items_push(ss: Seq<Seq<char>>, x: Seq<char>)
    ensures
        enc_str_items(ss.push(x)) == enc_str_items(ss) + enc_str(x),
    decreases ss.len(),
{
    if ss.len() == 0 {
        assert(ss.push(x)[0] == x);
        assert(ss.push(x).drop_first() =~= Seq::<Seq<char>>::empty());
        assert(enc_str_items(ss.push(x)) == enc_str(x) + enc_str_items(Seq::<Seq<char>>::empty()));
        assert(enc_str(x) + Seq::<u8>::empty() =~= Seq::<u8>::empty() + enc_str(x));
    } else {
        assert(ss.push(x).drop_first() =~= ss.drop_first().push(x));
        lemma_enc_str_items_push(ss.drop_first(), x);
        assert(enc_str(ss[0]) + (enc_str_items(ss.drop_first()) + enc_str(x)) =~= (enc_str(
            ss[0],
        ) + enc_str_items(ss.drop_first())) + enc_str(x));
    }
}

proof fn lemma_enc_tag_docs_push(ds: Seq<TagDocView>, d: TagDocView)
    ensures
        enc_tag_docs(ds.push(d)) == enc_tag_docs(ds) + enc_tag_doc(d),
    decreases ds.len(),
{
    if ds.len() == 0 {
        assert(ds.push(d)[0] == d);
        assert(ds.push(d).drop_first() =~= Seq::<TagDocView>::empty());
        assert(enc_tag_docs(ds.push(d)) == enc_tag_doc(d) + enc_tag_docs(
            Seq::<TagDocView>::empty(),
        ));
        assert(enc_tag_doc(d) + Seq::<u8>::empty() =~= Seq::<u8>::empty() + enc_tag_doc(d));
    } else {
        assert(ds.push(d).drop_first() =~= ds.drop_first().push(d));
        lemma_enc_tag_docs_push(ds.drop_first(), d);
        assert(enc_tag_doc(ds[0]) + (enc_tag_docs(ds.drop_first()) + enc_tag_doc(d)) =~= (
        enc_tag_doc(ds[0]) + enc_tag_docs(ds.drop_first())) + enc_tag_doc(d));
    }
}

proof fn lemma_enc_tag_items_push(es: TagEntries, k: Seq<char>, ds: Seq<TagDocView>)
    ensures
        enc_tag_items(es.push((k, ds))) == enc_tag_items(es) + enc_tag_entry(k, ds),
    decreases es.len(),
{
    if es.len() == 0 {
        assert(es.push((k, ds))[0] == (k, ds));
        assert(es.push((k, ds)).drop_first() =~= Seq::<(Seq<char>, Seq<TagDocView>)>::empty());
        assert(enc_tag_items(es.push((k, ds))) == enc_tag_entry(k, ds) + enc_tag_items(
            Seq::<(Seq<char>, Seq<TagDocView>)>::empty(),
        ));
        assert(enc_tag_entry(k, ds) + Seq::<u8>::empty() =~= Seq::<u8>::empty() + enc_tag_entry(
            k,
            ds,
        ));
    } else {
        assert(es.push((k, ds)).drop_first() =~= es.drop_first().push((k, ds)));
        lemma_enc_tag_items_push(es.drop_first(), k, ds);
        assert(enc_tag_entry(es[0].0, es[0].1) + (enc_tag_items(es.drop_first()) + enc_tag_entry(
            k,
            ds,
        )) =~= (enc_tag_entry(es[0].0, es[0].1) + enc_tag_items(es.drop_first())) + enc_tag_entry(
            k,
            ds,
        ));
    }
}

fn encode_tag_doc(out: &mut Vec<u8>, d: &TagDoc)
    ensures
        final(out)@ == old(out)@ + enc_tag_doc(d@),
{
    let ghost base = out@;
    push_str(out, d.uuid.as_str());
    let n = d.file_paths.len();
    push_u64(out, n as u64);
    let ghost pbase = base + enc_str(d@.uuid) + spec_u64_to_le_bytes(d@.file_paths.len() as u64);
    proof {
        assert(d@.file_paths.take(0) =~= Seq::<Seq<char>>::empty());
        assert(out@ =~= pbase + enc_str_items(d@.file_paths.take(0)));
    }
    for i in 0..n
        invariant
            n == d@.file_paths.len(),
            out@ == pbase + enc_str_items(d@.file_paths.take(i as int)),
    {
        push_str(out, d.file_paths[i].as_str());
        proof {
            assert(d@.file_paths.take(i + 1) =~= d@.file_paths.take(i as int).push(
                d@.file_paths[i as int],
            ));
            lemma_enc_str_items_push(d@.file_paths.take(i as int), d@.file_paths[i as int]);
            assert(out@ =~= pbase + enc_str_items(d@.file_paths.take(i + 1)));
        }
    }
    proof {
        assert(d@.file_paths.take(n as int) =~= d@.file_paths);
    }
    push_str(out, d.identifier.as_str());
    push_str(out, d.color_hex.as_str());
    proof {
        assert(final(out)@ =~= old(out)@ + enc_tag_doc(d@));
    }
}

fn encode_tags(items: &Vec<(String, Vec<TagDoc>)>) -> (r: Vec<u8>)
    ensures
        r@ == spec_encode_tags(items.deep_view()),
{
    let ghost ges = items.deep_view();
    let mut out: Vec<u8> = Vec::new();
    out.push(TAG_SNAPSHOT_VERSION);
    let n = items.len();
    push_u64(&mut out, n as u64);
    let ghost header = seq![TAG_SNAPSHOT_VERSION] + spec_u64_to_le_bytes(ges.len() as u64);
    proof {
        assert(out@ =~= header);
        assert(ges.take(0) =~= Seq::<(Seq<char>, Seq<TagDocView>)>::empty());
        assert(out@ =~= header + enc_tag_items(ges.take(0)));
    }
    for i in 0..n
        invariant
            n == ges.len(),
            items.deep_view() == ges,
            out@ == header + enc_tag_items(ges.take(i as int)),
    {
        push_str(&mut out, items[i].0.as_str());
        let dn = items[i].1.len();
        push_u64(&mut out, dn as u64);
        let ghost dbase = header + enc_tag_items(ges.take(i as int)) + enc_str(ges[i as int].0)
            + spec_u64_to_le_bytes(ges[i as int].1.len() as u64);
        proof {
            assert(ges[i as int].1.take(0) =~= Seq::<TagDocView>::empty());
            assert(out@ =~= dbase + enc_tag_docs(ges[i as int].1.take(0)));
        }
        for j in 0..dn
            invariant
                i < ges.len(),
                dn == ges[i as int].1.len(),
                items.deep_view() == ges,
                n == ges.len(),
                out@ == dbase + enc_tag_docs(ges[i as int].1.take(j as int)),
        {
            encode_tag_doc(&mut out, &items[i].1[j]);
            proof {
                assert(ges[i as int].1.take(j + 1) =~= ges[i as int].1.take(j as int).push(
                    ges[i as int].1[j as int],
                ));
                lemma_enc_tag_docs_push(ges[i as int].1.take(j as int), ges[i as int].1[j as int]);
                assert(out@ =~= dbase + enc_tag_docs(ges[i as int].1.take(j + 1)));
            }
        }
        proof {
            assert(ges[i as int].1.take(dn as int) =~= ges[i as int].1);
            assert(ges.take(i + 1) =~= ges.take(i as int).push(ges[i as int]));
            lemma_enc_tag_items_push(ges.take(i as int), ges[i as int].0, ges[i as int].1);
            assert((ges[i as int].0, ges[i as int].1) == ges[i as int]);
            assert(out@ =~= header + enc_tag_items(ges.take(i + 1)));
        }
    }
    proof {
        assert(ges.take(n as int) =~= ges);
        assert(out@ =~= spec_encode_tags(ges));
    }
    out
}

fn read_str_items(data: &[u8], pos: usize, n: u64) -> (r: Option<(Vec<String>, usize)>)
    requires
        pos <= data@.len(),
    ensures
        match r {
            Some(sp) => dec_str_items(data@, pos as int, n as nat) == Some(
                (sp.0.deep_view(), sp.1 as int),
            ) && sp.1 <= data@.len(),
            None => dec_str_items(data@, pos as int, n as nat) is None,
        },
{
    let mut acc: Vec<String> = Vec::new();
    let mut cur: usize = pos;
    proof {
        let r0 = dec_str_items(data@, pos as int, n as nat);
        if r0 is Some {
            assert(acc.deep_view() + r0.unwrap().0 =~= r0.unwrap().0);
        }
        assert(acc.deep_view() =~= Seq::<Seq<char>>::empty());
    }
    for i in 0..n
        invariant
            cur <= data@.len(),
            dec_str_items(data@, pos as int, n as nat) == (match dec_str_items(
                data@,
                cur as int,
                (n - i) as nat,
            ) {
                None => None,
                Some((rest, p)) => Some((acc.deep_view() + rest, p)),
            }),
    {
        let ghost before = acc.deep_view();
        match read_str(data, cur) {
            None => {
                return None;
            },
            Some((s, p2)) => {
                let ghost gs = s@;
                acc.push(s);
                proof {
                    let m = (n - i) as nat;
                    let r2 = dec_str_items(data@, p2 as int, (m - 1) as nat);
                    if r2 is Some {
                        assert(acc.deep_view() =~= before.push(gs));
                        assert(before + (seq![gs] + r2.unwrap().0) =~= (before.push(gs))
                            + r2.unwrap().0);
                    }
                }
                cur = p2;
            },
        }
    }
    proof {
        assert(dec_str_items(data@, cur as int, 0) == Some((Seq::<Seq<char>>::empty(), cur as int)));
        assert(acc.deep_view() + Seq::<Seq<char>>::empty() =~= acc.deep_view());
    }
    Some((acc, cur))
}

fn read_tag_doc(data: &[u8], pos: usize) -> (r: Option<(TagDoc, usize)>)
    requires
        pos <= data@.len(),
    ensures
        match r {
            Some(dp) => dec_tag_doc(data@, pos as int) == Some((dp.0@, dp.1 as int)) && dp.1
                <= data@.len(),
            None => dec_tag_doc(data@, pos as int) is None,
        },
{
    match read_str(data, pos) {
        None => None,
        Some((uuid, p2)) => match read_u64(data, p2) {
            None => None,
            Some((n, p3)) => match read_str_items(data, p3, n) {
                None => None,
                Some((paths, p4)) => match read_str(data, p4) {
                    None => None,
                    Some((ident, p5)) => match read_str(data, p5) {
                        None => None,
                        Some((color, p6)) => Some(
                            (
                                TagDoc {
                                    uuid,
                                    file_paths: paths,
                                    identifier: ident,
                                    color_hex: color,
                                },
                                p6,
                            ),
                        ),
                    },
                },
            },
        },
    }
}

fn read_tag_docs(data: &[u8], pos: usize, n: u64) -> (r: Option<(Vec<TagDoc>, usize)>)
    requires
        pos <= data@.len(),
    ensures
        match r {
            Some(dp) => dec_tag_docs(data@, pos as int, n as nat) == Some(
                (dp.0.deep_view(), dp.1 as int),
            ) && dp.1 <= data@.len(),
            None => dec_tag_docs(data@, pos as int, n as nat) is None,
        },
{
    let mut acc: Vec<TagDoc> = Vec::new();
    let mut cur: usize = pos;
    proof {
        let r0 = dec_tag_docs(data@, pos as int, n as nat);
        if r0 is Some {
            assert(acc.deep_view() + r0.unwrap().0 =~= r0.unwrap().0);
        }
        assert(acc.deep_view() =~= Seq::<TagDocView>::empty());
    }
    for i in 0..n
        invariant
            cur <= data@.len(),
            dec_tag_docs(data@, pos as int, n as nat) == (match dec_tag_docs(
                data@,
                cur as int,
                (n - i) as nat,
            ) {
                None => None,
                Some((rest, p)) => Some((acc.deep_view() + rest, p)),
            }),
    {
        let ghost before = acc.deep_view();
        match read_tag_doc(data, cur) {
            None => {
                return None;
            },
            Some((d, p2)) => {
                let ghost gd = d@;
                acc.push(d);
                proof {
                    let m = (n - i) as nat;
                    let r2 = dec_tag_docs(data@, p2 as int, (m - 1) as nat);
                    if r2 is Some {
                        assert(acc.deep_view() =~= before.push(gd));
                        assert(before + (seq![gd] + r2.unwrap().0) =~= (before.push(gd))
                            + r2.unwrap().0);
                    }
                }
                cur = p2;
            },
        }
    }
    proof {
        assert(dec_tag_docs(data@, cur as int, 0) == Some((Seq::<TagDocView>::empty(), cur as int)));
        assert(acc.deep_view() + Seq::<TagDocView>::empty() =~= acc.deep_view());
    }
    Some((acc, cur))
}

fn read_tag_items(data: &[u8], pos: usize, n: u64) -> (r: Option<(Vec<(String, Vec<TagDoc>)>, usize)>)
    requires
        pos <= data@.len(),
    ensures
        match r {
            Some(ep) => dec_tag_items(data@, pos as int, n as nat) == Some(
                (ep.0.deep_view(), ep.1 as int),
            ) && ep.1 <= data@.len(),
            None => dec_tag_items(data@, pos as int, n as nat) is None,
        },
{
    let mut acc: Vec<(String, Vec<TagDoc>)> = Vec::new();
    let mut cur: usize = pos;
    proof {
        let r0 = dec_tag_items(data@, pos as int, n as nat);
        if r0 is Some {
            assert(acc.deep_view() + r0.unwrap().0 =~= r0.unwrap().0);
        }
        assert(acc.deep_view() =~= Seq::<(Seq<char>, Seq<TagDocView>)>::empty());
    }
    for i in 0..n
        invariant
            cur <= data@.len(),
            dec_tag_items(data@, pos as int, n as nat) == (match dec_tag_items(
                data@,
                cur as int,
                (n - i) as nat,
            ) {
                None => None,
                Some((rest, p)) => Some((acc.deep_view() + rest, p)),
            }),
    {
        let ghost before = acc.deep_view();
        match read_str(data, cur) {
            None => {
                return None;
            },
            Some((k, p2)) => match read_u64(data, p2) {
                None => {
                    return None;
                },
                Some((dn, p3)) => match read_tag_docs(data, p3, dn) {
                    None => {
                        return None;
                    },
                    Some((ds, p4)) => {
                        let ghost gk = k@;
                        let ghost gds = ds.deep_view();
                        acc.push((k, ds));
                        proof {
                            let m = (n - i) as nat;
                            let r2 = dec_tag_items(data@, p4 as int, (m - 1) as nat);
                            if r2 is Some {
                                assert(acc.deep_view() =~= before.push((gk, gds)));
                                assert(before + (seq![(gk, gds)] + r2.unwrap().0) =~= (
                                before.push((gk, gds))) + r2.unwrap().0);
                            }
                        }
                        cur = p4;
                    },
                },
            },
        }
    }
    proof {
        assert(dec_tag_items(data@, cur as int, 0) == Some(
            (Seq::<(Seq<char>, Seq<TagDocView>)>::empty(), cur as int),
        ));
        assert(acc.deep_view() + Seq::<(Seq<char>, Seq<TagDocView>)>::empty() =~= acc.deep_view());
    }
    Some((acc, cur))
}

fn decode_tags(data: &[u8]) -> (r: Option<Vec<(String, Vec<TagDoc>)>>)
    ensures
        match r {
            Some(es) => spec_decode_tags(data@) == Some(es.deep_view()),
            None => spec_decode_tags(data@) is None,
        },
{
    if data.len() < 1 {
        return None;
    }
    if data[0] != TAG_SNAPSHOT_VERSION {
        return None;
    }
    match read_u64(data, 1) {
        None => None,
        Some((n, p2)) => match read_tag_items(data, p2, n) {
            None => None,
            Some((es, p3)) => {
                if p3 == data.len() {
                    Some(es)
                } else {
                    None
                }
            },
        },
    }
}

} // verus!
