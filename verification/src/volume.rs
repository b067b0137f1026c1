//! Volumes and the cache builder: a descriptive snapshot of one mounted
//! volume, and the merge step that folds a full traversal of a volume into
//! the shared cache.
//!
//! The traversal itself walks the filesystem and is the caller's business;
//! it hands this module the flat list of `(filename, path)` pairs it found.

use vstd::prelude::*;

use crate::alist::{al_contains, al_key_idx, al_lookup, lemma_key_idx_bounds, lemma_key_idx_push,
    lemma_key_idx_update};
use crate::state::{volume_cache_wf, system_cache_wf, AppState, CachedPath, CachedPathView,
    SystemCacheView, VolumeCache, VolumeCacheView};

verus! {

/// Kind of the underlying disk, as the volume enumeration reports it.
#[derive(Clone, Copy, PartialEq, Eq, Structural, Debug)]
pub enum DiskKind {
    Hdd,
    Ssd,
    Unknown,
}

/// Descriptive snapshot of one mounted volume.  Recomputed on each
/// enumeration, never persisted.
pub struct Volume {
    pub name: String,
    pub mount_point: String,
    pub used: u64,
    pub size: u64,
    pub available: u64,
    pub removable: bool,
    pub file_system_type: String,
    pub disk_type: String,
}

impl Volume {
    /// Assembles the snapshot from the values the disk enumeration read: an
    /// empty volume name falls back to a fixed label, the used space is
    /// what the size leaves after the available space, and the disk kind
    /// becomes its label.
    pub fn from_parts(
        name: String,
        mount_point: String,
        size: u64,
        available: u64,
        removable: bool,
        file_system_type: String,
        kind: DiskKind,
    ) -> (r: Volume)
        requires
            available <= size,
        ensures
            r.name@ == (if name@.len() == 0 {
                "Local Volume"@
            } else {
                name@
            }),
            r.mount_point@ == mount_point@,
            r.size == size,
            r.available == available,
            r.used == size - available,
            r.removable == removable,
            r.file_system_type@ == file_system_type@,
            r.disk_type@ == (match kind {
                DiskKind::Hdd => "HDD"@,
                DiskKind::Ssd => "SSD"@,
                DiskKind::Unknown => "Unknown"@,
            }),
    {
        let name = if name.as_str().is_empty() {
            "Local Volume".to_owned()
        } else {
            name
        };
        let disk_type = match kind {
            DiskKind::Hdd => "HDD".to_owned(),
            DiskKind::Ssd => "SSD".to_owned(),
            DiskKind::Unknown => "Unknown".to_owned(),
        };
        Volume {
            name,
            mount_point,
            used: size - available,
            size,
            available,
            removable,
            file_system_type,
            disk_type,
        }
    }

    /// Folds a full traversal of this volume into the shared cache: every
    /// `(filename, path)` pair lands in the filename's bucket, and a volume
    /// unknown to the cache is created first.  Afterwards every traversed
    /// filename is a key of this volume's cache and its bucket holds the
    /// traversed path.
    pub fn create_cache(&self, state: &mut AppState, entries: Vec<(String, CachedPath)>)
        ensures
            final(state).token_cache@ == old(state).token_cache@,
            final(state).system_cache@ == spec_after_scan(
                old(state).system_cache@,
                self.mount_point@,
                entries.deep_view(),
            ),
            ({
                let merged = al_lookup(final(state).system_cache@, self.mount_point@);
                &&& al_contains(final(state).system_cache@, self.mount_point@)
                &&& forall|i: int|
                    0 <= i < entries.deep_view().len() ==> al_contains(
                        merged,
                        (#[trigger] entries.deep_view()[i]).0,
                    ) && al_lookup(merged, entries.deep_view()[i].0).contains(
                        entries.deep_view()[i].1,
                    )
            }),
            old(state).wf() ==> final(state).wf(),
    {
        let ghost s0 = state.system_cache@;
        let ghost ge = entries.deep_view();
        let (base, existing) = match state.system_cache.index_of(self.mount_point.as_str()) {
            Some(vi) => {
                let (key, vol) = state.system_cache.remove_entry_at(vi);
                // The volume goes back in at the same index once merged; to
                // keep the proof simple it is reinserted right away and
                // replaced at the end.
                state.system_cache.insert_entry_at(vi, key, vol);
                let (_, vol) = state.system_cache.remove_entry_at(vi);
                (vol, Some(vi))
            },
            None => (crate::alist::AssocList::new(), None),
        };
        proof {
            if existing is Some {
                assert(state.system_cache@ =~= s0.remove(al_key_idx(s0, self.mount_point@)));
            }
        }
        let merged = merge_entries(base, &entries);
        match existing {
            Some(vi) => {
                let key = clone_string(&self.mount_point);
                state.system_cache.insert_entry_at(vi, key, merged);
                proof {
                    assert(final(state).system_cache@ =~= s0.update(
                        al_key_idx(s0, self.mount_point@),
                        (s0[al_key_idx(s0, self.mount_point@)].0, spec_merge_entries(
                            al_lookup(s0, self.mount_point@),
                            ge,
                        )),
                    ));
                    if system_cache_wf(s0) {
                        lemma_scan_wf(s0, self.mount_point@, ge);
                    }
                    lemma_scan_lookup(s0, self.mount_point@, ge);
                    lemma_merge_entries_complete(al_lookup(s0, self.mount_point@), ge);
                }
            },
            None => {
                let key = clone_string(&self.mount_point);
                state.system_cache.push(key, merged);
                proof {
                    let empty_vol = Seq::<(Seq<char>, Seq<CachedPathView>)>::empty();
                    assert(final(state).system_cache@ =~= s0.push(
                        (self.mount_point@, spec_merge_entries(empty_vol, ge)),
                    ));
                    if system_cache_wf(s0) {
                        lemma_scan_wf(s0, self.mount_point@, ge);
                    }
                    lemma_scan_lookup(s0, self.mount_point@, ge);
                    lemma_merge_entries_complete(empty_vol, ge);
                }
            },
        }
    }
}

fn clone_string(s: &String) -> (r: String)
    ensures
        r@ == s@,
{
    s.clone()
}

/// One traversal pair folded into a volume cache: the path is appended to
/// the filename's bucket, and an unseen filename opens a new bucket.
pub open spec fn vc_add(v: VolumeCacheView, name: Seq<char>, cp: CachedPathView) -> VolumeCacheView {
    if al_contains(v, name) {
        let i = al_key_idx(v, name);
        v.update(i, (v[i].0, v[i].1.push(cp)))
    } else {
        v.push((name, seq![cp]))
    }
}

/// Every traversal pair folded into a volume cache, in traversal order.
pub open spec fn spec_merge_entries(
    v: VolumeCacheView,
    entries: Seq<(Seq<char>, CachedPathView)>,
) -> VolumeCacheView
    decreases entries.len(),
{
    if entries.len() == 0 {
        v
    } else {
        spec_merge_entries(vc_add(v, entries[0].0, entries[0].1), entries.drop_first())
    }
}

/// The system cache after a full scan of the volume at `mp`: the merged
/// volume replaces the old one, or is appended when the mountpoint is new.
pub open spec fn spec_after_scan(
    s: SystemCacheView,
    mp: Seq<char>,
    entries: Seq<(Seq<char>, CachedPathView)>,
) -> SystemCacheView {
    if al_contains(s, mp) {
        let i = al_key_idx(s, mp);
        s.update(i, (s[i].0, spec_merge_entries(al_lookup(s, mp), entries)))
    } else {
        s.push((mp, spec_merge_entries(Seq::empty(), entries)))
    }
}

proof fn lemma_vc_add_keeps(v: VolumeCacheView, name: Seq<char>, cp: CachedPathView, k: Seq<char>, p: CachedPathView)
    requires
        al_contains(v, k),
        al_lookup(v, k).contains(p),
    ensures
        al_contains(vc_add(v, name, cp), k),
        al_lookup(vc_add(v, name, cp), k).contains(p),
{
    lemma_key_idx_bounds(v, name);
    lemma_key_idx_bounds(v, k);
    if al_contains(v, name) {
        let i = al_key_idx(v, name);
        lemma_key_idx_update(v, i, v[i].1.push(cp), k);
        if k == name {
            let b = al_lookup(v, k);
            let j = choose|j: int| 0 <= j < b.len() && b[j] == p;
            assert(b.push(cp)[j] == p);
        } else {
            assert(al_key_idx(v, k) != i);
            assert(al_lookup(vc_add(v, name, cp), k) == al_lookup(v, k));
        }
    } else {
        lemma_key_idx_push(v, (name, seq![cp]), k);
    }
}

proof fn lemma_vc_add_self(v: VolumeCacheView, name: Seq<char>, cp: CachedPathView)
    ensures
        al_contains(vc_add(v, name, cp), name),
        al_lookup(vc_add(v, name, cp), name).contains(cp),
{
    lemma_key_idx_bounds(v, name);
    if al_contains(v, name) {
        let i = al_key_idx(v, name);
        lemma_key_idx_update(v, i, v[i].1.push(cp), name);
        let b = v[i].1;
        assert(b.push(cp)[b.len() as int] == cp);
    } else {
        lemma_key_idx_push(v, (name, seq![cp]), name);
        assert(seq![cp][0] == cp);
    }
}

proof fn lemma_merge_keeps(v: VolumeCacheView, entries: Seq<(Seq<char>, CachedPathView)>, k: Seq<char>, p: CachedPathView)
    requires
        al_contains(v, k),
        al_lookup(v, k).contains(p),
    ensures
        al_contains(spec_merge_entries(v, entries), k),
        al_lookup(spec_merge_entries(v, entries), k).contains(p),
    decreases entries.len(),
{
    if entries.len() > 0 {
        lemma_vc_add_keeps(v, entries[0].0, entries[0].1, k, p);
        lemma_merge_keeps(vc_add(v, entries[0].0, entries[0].1), entries.drop_first(), k, p);
    }
}

/// Law: after the merge, every traversed filename is a key whose bucket
/// holds the traversed path.
pub proof fn lemma_merge_entries_complete(v: VolumeCacheView, entries: Seq<(Seq<char>, CachedPathView)>)
    ensures
        forall|i: int|
            0 <= i < entries.len() ==> al_contains(
                spec_merge_entries(v, entries),
                (#[trigger] entries[i]).0,
            ) && al_lookup(spec_merge_entries(v, entries), entries[i].0).contains(entries[i].1),
    decreases entries.len(),
{
    if entries.len() > 0 {
        let v2 = vc_add(v, entries[0].0, entries[0].1);
        lemma_vc_add_self(v, entries[0].0, entries[0].1);
        lemma_merge_keeps(v2, entries.drop_first(), entries[0].0, entries[0].1);
        lemma_merge_entries_complete(v2, entries.drop_first());
        assert(forall|i: int|
            1 <= i < entries.len() ==> entries[i] == entries.drop_first()[i - 1]);
    }
}

proof fn lemma_vc_add_wf(v: VolumeCacheView, name: Seq<char>, cp: CachedPathView)
    requires
        volume_cache_wf(v),
    ensures
        volume_cache_wf(vc_add(v, name, cp)),
{
    lemma_key_idx_bounds(v, name);
    if al_contains(v, name) {
        let i = al_key_idx(v, name);
        let r = vc_add(v, name, cp);
        assert(forall|j: int| 0 <= j < r.len() ==> (#[trigger] r[j]).0 == v[j].0);
    }
}

proof fn lemma_merge_wf(v: VolumeCacheView, entries: Seq<(Seq<char>, CachedPathView)>)
    requires
        volume_cache_wf(v),
    ensures
        volume_cache_wf(spec_merge_entries(v, entries)),
    decreases entries.len(),
{
    if entries.len() > 0 {
        lemma_vc_add_wf(v, entries[0].0, entries[0].1);
        lemma_merge_wf(vc_add(v, entries[0].0, entries[0].1), entries.drop_first());
    }
}

proof fn lemma_scan_wf(s: SystemCacheView, mp: Seq<char>, entries: Seq<(Seq<char>, CachedPathView)>)
    requires
        system_cache_wf(s),
    ensures
        system_cache_wf(spec_after_scan(s, mp, entries)),
{
    lemma_key_idx_bounds(s, mp);
    let empty_vol = Seq::<(Seq<char>, Seq<CachedPathView>)>::empty();
    if al_contains(s, mp) {
        let i = al_key_idx(s, mp);
        lemma_merge_wf(s[i].1, entries);
        let r = spec_after_scan(s, mp, entries);
        assert(forall|j: int| 0 <= j < r.len() ==> (#[trigger] r[j]).0 == s[j].0);
        assert(forall|j: int|
            0 <= j < r.len() && j != i ==> (#[trigger] r[j]).1 == s[j].1);
    } else {
        assert(volume_cache_wf(empty_vol));
        lemma_merge_wf(empty_vol, entries);
        let r = spec_after_scan(s, mp, entries);
        assert(forall|j: int| 0 <= j < s.len() ==> (#[trigger] r[j]) == s[j]);
        assert(forall|j: int| 0 <= j < s.len() ==> s[j].0 != mp);
    }
}

proof fn lemma_scan_lookup(s: SystemCacheView, mp: Seq<char>, entries: Seq<(Seq<char>, CachedPathView)>)
    ensures
        al_contains(spec_after_scan(s, mp, entries), mp),
        al_lookup(spec_after_scan(s, mp, entries), mp) == (if al_contains(s, mp) {
            spec_merge_entries(al_lookup(s, mp), entries)
        } else {
            spec_merge_entries(Seq::empty(), entries)
        }),
{
    lemma_key_idx_bounds(s, mp);
    if al_contains(s, mp) {
        let i = al_key_idx(s, mp);
        lemma_key_idx_update(s, i, spec_merge_entries(al_lookup(s, mp), entries), mp);
    } else {
        lemma_key_idx_push(
            s,
            (mp, spec_merge_entries(Seq::empty(), entries)),
            mp,
        );
    }
}

/// Folds the traversal pairs into one volume cache.
fn merge_entries(vol: VolumeCache, entries: &Vec<(String, CachedPath)>) -> (r: VolumeCache)
    ensures
        r@ == spec_merge_entries(vol@, entries.deep_view()),
{
    let ghost ge = entries.deep_view();
    let ghost g0 = vol@;
    let mut vol = vol;
    let n = entries.len();
    proof {
        assert(ge.skip(0) =~= ge);
    }
    for i in 0..n
        invariant
            n == ge.len(),
            entries.deep_view() == ge,
            spec_merge_entries(g0, ge) == spec_merge_entries(vol@, ge.skip(i as int)),
    {
        let ghost before = vol@;
        let name = &entries[i].0;
        let cp = entries[i].1.clone();
        let ghost gcp = cp@;
        match vol.index_of(name.as_str()) {
            Some(bi) => {
                let (key, mut bucket) = vol.remove_entry_at(bi);
                bucket.push(cp);
                vol.insert_entry_at(bi, key, bucket);
                proof {
                    assert(bucket.deep_view() =~= before[bi as int].1.push(gcp));
                    assert(vol@ =~= vc_add(before, ge[i as int].0, ge[i as int].1));
                }
            },
            None => {
                let key = clone_string(name);
                let mut bucket: Vec<CachedPath> = Vec::new();
                bucket.push(cp);
                let ghost gb = bucket.deep_view();
                vol.push(key, bucket);
                proof {
                    assert(gb =~= seq![gcp]);
                    assert(vol@ =~= vc_add(before, ge[i as int].0, ge[i as int].1));
                }
            },
        }
        proof {
            assert(ge.skip(i as int)[0] == ge[i as int]);
            assert(ge.skip(i as int).drop_first() =~= ge.skip(i + 1));
        }
    }
    proof {
        assert(ge.skip(n as int) =~= Seq::<(Seq<char>, CachedPathView)>::empty());
    }
    vol
}

} // verus!
