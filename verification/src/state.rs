//! The live index: per-volume filename caches, the system-wide cache, the
//! derived token index, and the process-wide state that owns them.

use vstd::prelude::*;

use crate::alist::{al_keys_unique, AssocList};

verus! {

/// Classification of one cached filesystem entry.
#[derive(Clone, Copy, PartialEq, Eq, Structural, Debug)]
pub enum FileType {
    File,
    Directory,
}

/// One concrete location of a filename: the full path and its kind.
pub struct CachedPath {
    pub file_path: String,
    pub file_type: FileType,
}

/// Mathematical image of a `CachedPath`.
pub struct CachedPathView {
    pub file_path: Seq<char>,
    pub file_type: FileType,
}

impl View for CachedPath {
    type V = CachedPathView;

    open spec fn view(&self) -> CachedPathView {
        CachedPathView { file_path: self.file_path@, file_type: self.file_type }
    }
}

impl DeepView for CachedPath {
    type V = CachedPathView;

    open spec fn deep_view(&self) -> CachedPathView {
        self.view()
    }
}

impl Clone for CachedPath {
    fn clone(&self) -> (r: Self)
        ensures
            r@ == self@,
    {
        CachedPath { file_path: self.file_path.clone(), file_type: self.file_type }
    }
}

impl CachedPath {
    pub fn new(file_path: String, file_type: FileType) -> (r: Self)
        ensures
            r@ == (CachedPathView { file_path: file_path@, file_type }),
    {
        CachedPath { file_path, file_type }
    }
}

/// Mapping from filename to every cached path bearing that name, for one
/// mounted volume.
pub type VolumeCache = AssocList<Vec<CachedPath>>;

/// Mapping from mountpoint to the cache of that volume.
pub type SystemCache = AssocList<VolumeCache>;

/// Mapping from token to the filenames containing that token.  Derived from
/// the system cache; never a source of truth.
pub type TokenIndex = AssocList<Vec<String>>;

/// View of one volume cache: filename, then the views of its paths.
pub type VolumeCacheView = Seq<(Seq<char>, Seq<CachedPathView>)>;

/// View of the system cache: mountpoint, then the volume cache view.
pub type SystemCacheView = Seq<(Seq<char>, VolumeCacheView)>;

/// View of the token index: token, then the filenames holding it.
pub type TokenIndexView = Seq<(Seq<char>, Seq<Seq<char>>)>;

/// A volume cache is well formed when its filename keys are unique and every
/// filename key holds at least one path: the last path removed removes the
/// key with it.
pub open spec fn volume_cache_wf(v: VolumeCacheView) -> bool {
    &&& al_keys_unique(v)
    &&& forall|i: int| 0 <= i < v.len() ==> (#[trigger] v[i].1).len() > 0
}

/// A system cache is well formed when its mountpoint keys are unique and
/// every volume cache in it is well formed.
pub open spec fn system_cache_wf(s: SystemCacheView) -> bool {
    &&& al_keys_unique(s)
    &&& forall|i: int| 0 <= i < s.len() ==> volume_cache_wf(#[trigger] s[i].1)
}

/// The process-wide state: the live system cache and the token index built
/// from it.  One instance is created at startup and handed to every
/// component by reference.
pub struct AppState {
    pub system_cache: SystemCache,
    pub token_cache: TokenIndex,
}

impl AppState {
    pub open spec fn wf(&self) -> bool {
        system_cache_wf(self.system_cache@)
    }
}

impl Default for AppState {
    fn default() -> (r: Self)
        ensures
            r.system_cache@ == Seq::<(Seq<char>, VolumeCacheView)>::empty(),
            r.token_cache@ == Seq::<(Seq<char>, Seq<Seq<char>>)>::empty(),
            r.wf(),
    {
        AppState { system_cache: AssocList::new(), token_cache: AssocList::new() }
    }
}

pub open spec fn volume_has_path(v: VolumeCacheView, path: Seq<char>) -> bool {
    exists|i: int, j: int|
        0 <= i < v.len() && 0 <= j < v[i].1.len() && (#[trigger] v[i].1[j]).file_path == path
}

/// First index of a volume whose cache holds an entry with exactly this
/// path, or `-1` when none does.
pub open spec fn vol_with_path_idx(s: SystemCacheView, path: Seq<char>) -> int
    decreases s.len(),
{
    if s.len() == 0 {
        -1
    } else if volume_has_path(s[0].1, path) {
        0
    } else if vol_with_path_idx(s.drop_first(), path) < 0 {
        -1
    } else {
        vol_with_path_idx(s.drop_first(), path) + 1
    }
}

/// Mountpoint of the first volume whose cache holds an entry with exactly
/// this path.
pub open spec fn spec_volume_for_path(s: SystemCacheView, path: Seq<char>) -> Option<Seq<char>> {
    if vol_with_path_idx(s, path) >= 0 {
        Some(s[vol_with_path_idx(s, path)].0)
    } else {
        None
    }
}

proof fn lemma_vol_with_path_idx_first(s: SystemCacheView, path: Seq<char>, i: int)
    requires
        0 <= i < s.len(),
        volume_has_path(s[i].1, path),
        forall|j: int| 0 <= j < i ==> !volume_has_path(#[trigger] s[j].1, path),
    ensures
        vol_with_path_idx(s, path) == i,
    decreases s.len(),
{
    if i > 0 {
        assert(forall|j: int|
            0 <= j < i - 1 ==> !volume_has_path(#[trigger] s.drop_first()[j].1, path));
        lemma_vol_with_path_idx_first(s.drop_first(), path, i - 1);
    }
}

proof fn lemma_vol_with_path_idx_absent(s: SystemCacheView, path: Seq<char>)
    requires
        forall|j: int| 0 <= j < s.len() ==> !volume_has_path(#[trigger] s[j].1, path),
    ensures
        vol_with_path_idx(s, path) == -1,
    decreases s.len(),
{
    if s.len() > 0 {
        assert(forall|j: int|
            0 <= j < s.len() - 1 ==> !volume_has_path(#[trigger] s.drop_first()[j].1, path));
        lemma_vol_with_path_idx_absent(s.drop_first(), path);
    }
}

/// Finds which volume holds a cached entry whose path is exactly `path`,
/// scanning volumes in order.
pub fn get_volume_for_path<'a>(state: &'a AppState, path: &str) -> (r: Option<&'a String>)
    ensures
        match r {
            Some(mp) => spec_volume_for_path(state.system_cache@, path@) == Some(mp@),
            None => spec_volume_for_path(state.system_cache@, path@) is None,
        },
{
    let nv = state.system_cache.len();
    for vi in 0..nv
        invariant
            nv == state.system_cache@.len(),
            forall|j: int|
                0 <= j < vi ==> !volume_has_path(#[trigger] state.system_cache@[j].1, path@),
    {
        let volume = state.system_cache.value_at(vi);
        if volume_cache_has_path(volume, path) {
            proof {
                lemma_vol_with_path_idx_first(state.system_cache@, path@, vi as int);
            }
            return Some(state.system_cache.key_at(vi));
        }
    }
    proof {
        lemma_vol_with_path_idx_absent(state.system_cache@, path@);
    }
    None
}

/// Whether any bucket of this volume cache holds an entry with this path.
fn volume_cache_has_path(volume: &VolumeCache, path: &str) -> (r: bool)
    ensures
        r == volume_has_path(volume@, path@),
{
    let nb = volume.len();
    for bi in 0..nb
        invariant
            nb == volume@.len(),
            forall|j: int, l: int|
                0 <= j < bi && 0 <= l < volume@[j].1.len() ==> (#[trigger] volume@[j].1[l]).file_path
                    != path@,
    {
        let bucket = volume.value_at(bi);
        let np = bucket.len();
        for pi in 0..np
            invariant
                np == bucket@.len(),
                bucket.deep_view() == volume@[bi as int].1,
                nb == volume@.len(),
                bi < nb,
                forall|l: int|
                    0 <= l < pi ==> (#[trigger] volume@[bi as int].1[l]).file_path != path@,
                forall|j: int, l: int|
                    0 <= j < bi && 0 <= l < volume@[j].1.len() ==> (
                    #[trigger] volume@[j].1[l]).file_path != path@,
        {
            if crate::strutil::str_eq(bucket[pi].file_path.as_str(), path) {
                proof {
                    assert(volume@[bi as int].1[pi as int].file_path == path@);
                }
                return true;
            }
        }
    }
    false
}

} // verus!
