//! The change watcher: translates filesystem change notifications into four
//! idempotent mutations of the volume cache for one mountpoint.
//!
//! Every mutation is applied only when the mountpoint is known; an event for
//! an unknown mountpoint leaves the state untouched instead of failing the
//! watcher.

use vstd::prelude::*;

use crate::alist::{
    al_contains, al_key_idx, al_lookup, lemma_key_idx_bounds, lemma_key_idx_push,
    lemma_key_idx_remove, lemma_key_idx_update,
};
use crate::state::{
    volume_cache_wf, system_cache_wf, AppState, CachedPath, CachedPathView, FileType,
    SystemCacheView, VolumeCache, VolumeCacheView,
};
use crate::strutil::{file_name_of, spec_file_name};

verus! {

/// Kind of a newly created filesystem entry, as the watcher reports it.
#[derive(Clone, Copy, PartialEq, Eq, Structural, Debug)]
pub enum CreateKind {
    File,
    Folder,
    Other,
}

/// A filesystem change event, reduced to the data the cache needs.  A rename
/// arrives as its two halves; a half can arrive alone when the other side of
/// the rename crossed the watched boundary.
pub enum FsEvent {
    Create(CreateKind, String),
    Remove(String),
    RenameFrom(String),
    RenameTo(String, bool),
    Other,
}

/// The bucket with every path whose `file_path` equals `path` removed, in
/// the original order.
pub open spec fn remove_matching(s: Seq<CachedPathView>, path: Seq<char>) -> Seq<CachedPathView>
    decreases s.len(),
{
    if s.len() == 0 {
        Seq::empty()
    } else if s.last().file_path == path {
        remove_matching(s.drop_last(), path)
    } else {
        remove_matching(s.drop_last(), path).push(s.last())
    }
}

/// Law: after a path removal, no surviving path in the bucket equals the
/// removed one, and the bucket did not grow.
pub proof fn lemma_remove_matching_props(s: Seq<CachedPathView>, path: Seq<char>)
    ensures
        remove_matching(s, path).len() <= s.len(),
        forall|i: int|
            0 <= i < remove_matching(s, path).len() ==> (#[trigger] remove_matching(s, path)[i]).file_path
                != path,
    decreases s.len(),
{
    if s.len() > 0 {
        lemma_remove_matching_props(s.drop_last(), path);
    }
}

/// File type recorded for a create event; `Other` events are never applied.
pub open spec fn create_file_type(kind: CreateKind) -> FileType {
    if kind is File {
        FileType::File
    } else {
        FileType::Directory
    }
}

/// Insertion semantics shared by `Create` and `RenameTo`: first writer wins,
/// an existing filename key is never clobbered.
pub open spec fn spec_create(v: VolumeCacheView, name: Seq<char>, cp: CachedPathView) -> VolumeCacheView {
    if al_contains(v, name) {
        v
    } else {
        v.push((name, seq![cp]))
    }
}

/// Removal semantics shared by `Delete` and `RenameFrom`: a filename with a
/// single cached path loses its key; otherwise only the paths matching
/// `path` are removed, and the key goes away when nothing is left.
pub open spec fn spec_remove_path(v: VolumeCacheView, name: Seq<char>, path: Seq<char>) -> VolumeCacheView {
    let i = al_key_idx(v, name);
    if i < 0 {
        v
    } else if v[i].1.len() <= 1 {
        v.remove(i)
    } else {
        let nb = remove_matching(v[i].1, path);
        if nb.len() == 0 {
            v.remove(i)
        } else {
            v.update(i, (v[i].0, nb))
        }
    }
}

/// The system cache with the volume of mountpoint `mp` replaced by `nv`.
pub open spec fn spec_apply(s: SystemCacheView, mp: Seq<char>, nv: VolumeCacheView) -> SystemCacheView
    recommends
        al_contains(s, mp),
{
    s.update(al_key_idx(s, mp), (s[al_key_idx(s, mp)].0, nv))
}

/// System cache after a create event for `path` under mountpoint `mp`.
pub open spec fn spec_after_create(
    s: SystemCacheView,
    mp: Seq<char>,
    kind: CreateKind,
    path: Seq<char>,
) -> SystemCacheView {
    let name = spec_file_name(path);
    if !al_contains(s, mp) || name.len() == 0 || kind is Other {
        s
    } else {
        spec_apply(
            s,
            mp,
            spec_create(
                al_lookup(s, mp),
                name,
                CachedPathView { file_path: path, file_type: create_file_type(kind) },
            ),
        )
    }
}

/// System cache after a delete or rename-from event for `path` under
/// mountpoint `mp`.
pub open spec fn spec_after_remove(s: SystemCacheView, mp: Seq<char>, path: Seq<char>) -> SystemCacheView {
    let name = spec_file_name(path);
    if !al_contains(s, mp) || name.len() == 0 {
        s
    } else {
        spec_apply(s, mp, spec_remove_path(al_lookup(s, mp), name, path))
    }
}

/// System cache after a rename-to event for `path` under mountpoint `mp`.
pub open spec fn spec_after_rename_to(
    s: SystemCacheView,
    mp: Seq<char>,
    path: Seq<char>,
    is_dir: bool,
) -> SystemCacheView {
    let name = spec_file_name(path);
    if !al_contains(s, mp) || name.len() == 0 {
        s
    } else {
        spec_apply(
            s,
            mp,
            spec_create(
                al_lookup(s, mp),
                name,
                CachedPathView {
                    file_path: path,
                    file_type: if is_dir {
                        FileType::Directory
                    } else {
                        FileType::File
                    },
                },
            ),
        )
    }
}

/// Applies the first-writer-wins insertion to one volume cache.
fn vc_create(vol: VolumeCache, name: String, cp: CachedPath) -> (r: VolumeCache)
    ensures
        r@ == spec_create(vol@, name@, cp@),
        volume_cache_wf(vol@) ==> volume_cache_wf(r@),
{
    let ghost gv = vol@;
    let ghost gcp = cp@;
    let present = vol.contains_key(name.as_str());
    if present {
        vol
    } else {
        let mut bucket: Vec<CachedPath> = Vec::new();
        bucket.push(cp);
        let ghost gb = bucket.deep_view();
        let mut vol = vol;
        vol.push(name, bucket);
        proof {
            assert(gb =~= seq![gcp]);
            lemma_key_idx_bounds(gv, name@);
            if volume_cache_wf(gv) {
                assert(forall|i: int| 0 <= i < gv.len() ==> (#[trigger] gv[i]).0 != name@);
                assert(volume_cache_wf(vol@));
            }
        }
        vol
    }
}

/// Applies the path-removal semantics to one volume cache.
fn vc_remove_path(vol: VolumeCache, name: &str, path: &str) -> (r: VolumeCache)
    ensures
        r@ == spec_remove_path(vol@, name@, path@),
        volume_cache_wf(vol@) ==> volume_cache_wf(r@),
{
    let ghost gv = vol@;
    let mut vol = vol;
    match vol.index_of(name) {
        None => {
            proof {
                if volume_cache_wf(gv) {
                    assert(volume_cache_wf(vol@));
                }
            }
            vol
        },
        Some(i) => {
            let blen = vol.value_at(i).len();
            if blen <= 1 {
                vol.remove_at(i);
                proof {
                    if volume_cache_wf(gv) {
                        lemma_key_idx_remove(gv, i as int, gv[i as int].0);
                        assert(volume_cache_wf(vol@));
                    }
                }
                vol
            } else {
                let bucket = vol.value_at(i);
                let n = bucket.len();
                let ghost gb = bucket.deep_view();
                let mut nb: Vec<CachedPath> = Vec::new();
                for j in 0..n
                    invariant
                        n == gb.len(),
                        bucket.deep_view() == gb,
                        vol@ == gv,
                        i < vol@.len(),
                        gb == vol@[i as int].1,
                        nb.deep_view() == remove_matching(gb.take(j as int), path@),
                {
                    proof {
                        assert(gb.take(j + 1).drop_last() =~= gb.take(j as int));
                        assert(gb.take(j + 1).last() == gb[j as int]);
                    }
                    if !crate::strutil::str_eq(bucket[j].file_path.as_str(), path) {
                        nb.push(bucket[j].clone());
                        proof {
                            assert(nb.deep_view() =~= remove_matching(gb.take(j + 1), path@));
                        }
                    } else {
                        proof {
                            assert(nb.deep_view() =~= remove_matching(gb.take(j + 1), path@));
                        }
                    }
                }
                proof {
                    assert(gb.take(n as int) =~= gb);
                }
                if nb.len() == 0 {
                    vol.remove_at(i);
                    proof {
                        if volume_cache_wf(gv) {
                            lemma_key_idx_remove(gv, i as int, gv[i as int].0);
                            assert(volume_cache_wf(vol@));
                        }
                    }
                    vol
                } else {
                    vol.set_at(i, nb);
                    proof {
                        if volume_cache_wf(gv) {
                            assert(forall|k: int|
                                0 <= k < vol@.len() ==> (#[trigger] vol@[k]).0 == gv[k].0);
                            assert(volume_cache_wf(vol@));
                        }
                    }
                    vol
                }
            }
        },
    }
}

/// Watches one mountpoint and applies its change events to the shared state.
pub struct FsEventHandler {
    pub mountpoint: String,
}

impl FsEventHandler {
    pub fn new(mountpoint: String) -> (r: Self)
        ensures
            r.mountpoint@ == mountpoint@,
    {
        FsEventHandler { mountpoint }
    }

    /// The cache of this handler's volume, when the state knows the
    /// mountpoint.
    pub fn get_from_cache<'a>(&self, state: &'a AppState) -> (r: Option<&'a VolumeCache>)
        ensures
            match r {
                Some(v) => al_contains(state.system_cache@, self.mountpoint@) && v.deep_view()
                    == al_lookup(state.system_cache@, self.mountpoint@),
                None => !al_contains(state.system_cache@, self.mountpoint@),
            },
    {
        state.system_cache.get(self.mountpoint.as_str())
    }

    /// Inserts the created entry under its filename, unless that filename is
    /// already cached: the first writer wins, so a concurrent full scan is
    /// never clobbered.
    pub fn handle_create(&self, state: &mut AppState, kind: CreateKind, path: &str)
        ensures
            final(state).system_cache@ == spec_after_create(
                old(state).system_cache@,
                self.mountpoint@,
                kind,
                path@,
            ),
            final(state).token_cache@ == old(state).token_cache@,
            old(state).wf() ==> final(state).wf(),
    {
        let ghost s = state.system_cache@;
        let name = file_name_of(path);
        if name.as_str().is_empty() {
            return ;
        }
        let file_type = match kind {
            CreateKind::File => FileType::File,
            CreateKind::Folder => FileType::Directory,
            CreateKind::Other => { return ; },
        };
        match state.system_cache.index_of(self.mountpoint.as_str()) {
            None => {},
            Some(vi) => {
                let (key, vol) = state.system_cache.remove_entry_at(vi);
                let ghost gvol = vol.deep_view();
                let vol2 = vc_create(vol, name, CachedPath::new(path.to_owned(), file_type));
                state.system_cache.insert_entry_at(vi, key, vol2);
                proof {
                    assert(final(state).system_cache@ =~= spec_apply(s, self.mountpoint@, vol2@));
                    lemma_apply_wf(s, self.mountpoint@, vol2@);
                }
            },
        }
    }

    /// Removes the deleted path from its filename's bucket; the key itself
    /// goes away when it held only that path.
    pub fn handle_delete(&self, state: &mut AppState, path: &str)
        ensures
            final(state).system_cache@ == spec_after_remove(
                old(state).system_cache@,
                self.mountpoint@,
                path@,
            ),
            final(state).token_cache@ == old(state).token_cache@,
            old(state).wf() ==> final(state).wf(),
    {
        self.remove_path_mutation(state, path);
    }

    /// First half of a rename: the old path leaves the cache with the same
    /// semantics as a delete; `handle_rename_to` adds the new one back.
    pub fn handle_rename_from(&self, state: &mut AppState, old_path: &str)
        ensures
            final(state).system_cache@ == spec_after_remove(
                old(state).system_cache@,
                self.mountpoint@,
                old_path@,
            ),
            final(state).token_cache@ == old(state).token_cache@,
            old(state).wf() ==> final(state).wf(),
    {
        self.remove_path_mutation(state, old_path);
    }

    /// Second half of a rename: adds the new filename and path, with the
    /// same first-writer-wins semantics as a create.
    pub fn handle_rename_to(&self, state: &mut AppState, new_path: &str, is_dir: bool)
        ensures
            final(state).system_cache@ == spec_after_rename_to(
                old(state).system_cache@,
                self.mountpoint@,
                new_path@,
                is_dir,
            ),
            final(state).token_cache@ == old(state).token_cache@,
            old(state).wf() ==> final(state).wf(),
    {
        let ghost s = state.system_cache@;
        let name = file_name_of(new_path);
        if name.as_str().is_empty() {
            return ;
        }
        let file_type = if is_dir {
            FileType::Directory
        } else {
            FileType::File
        };
        match state.system_cache.index_of(self.mountpoint.as_str()) {
            None => {},
            Some(vi) => {
                let (key, vol) = state.system_cache.remove_entry_at(vi);
                let ghost gvol = vol.deep_view();
                let vol2 = vc_create(vol, name, CachedPath::new(new_path.to_owned(), file_type));
                state.system_cache.insert_entry_at(vi, key, vol2);
                proof {
                    assert(final(state).system_cache@ =~= spec_apply(s, self.mountpoint@, vol2@));
                    lemma_apply_wf(s, self.mountpoint@, vol2@);
                }
            },
        }
    }

    /// Shared body of `handle_delete` and `handle_rename_from`.
    fn remove_path_mutation(&self, state: &mut AppState, path: &str)
        ensures
            final(state).system_cache@ == spec_after_remove(
                old(state).system_cache@,
                self.mountpoint@,
                path@,
            ),
            final(state).token_cache@ == old(state).token_cache@,
            old(state).wf() ==> final(state).wf(),
    {
        let ghost s = state.system_cache@;
        let name = file_name_of(path);
        if name.as_str().is_empty() {
            return ;
        }
        match state.system_cache.index_of(self.mountpoint.as_str()) {
            None => {},
            Some(vi) => {
                let (key, vol) = state.system_cache.remove_entry_at(vi);
                let ghost gvol = vol.deep_view();
                let vol2 = vc_remove_path(vol, name.as_str(), path);
                state.system_cache.insert_entry_at(vi, key, vol2);
                proof {
                    assert(final(state).system_cache@ =~= spec_apply(s, self.mountpoint@, vol2@));
                    lemma_apply_wf(s, self.mountpoint@, vol2@);
                }
            },
        }
    }

    /// Dispatches one watcher event to the matching mutation.
    pub fn handle_event(&self, state: &mut AppState, event: FsEvent)
        ensures
            final(state).token_cache@ == old(state).token_cache@,
            old(state).wf() ==> final(state).wf(),
            (event matches FsEvent::Create(kind, path) ==> final(state).system_cache@
                == spec_after_create(old(state).system_cache@, self.mountpoint@, kind, path@)),
            (event matches FsEvent::Remove(path) ==> final(state).system_cache@
                == spec_after_remove(old(state).system_cache@, self.mountpoint@, path@)),
            (event matches FsEvent::RenameFrom(path) ==> final(state).system_cache@
                == spec_after_remove(old(state).system_cache@, self.mountpoint@, path@)),
            (event matches FsEvent::RenameTo(path, is_dir) ==> final(state).system_cache@
                == spec_after_rename_to(
                old(state).system_cache@,
                self.mountpoint@,
                path@,
                is_dir,
            )),
            (event is Other ==> final(state).system_cache@ == old(state).system_cache@),
    {
        match event {
            FsEvent::Create(kind, path) => self.handle_create(state, kind, path.as_str()),
            FsEvent::Remove(path) => self.handle_delete(state, path.as_str()),
            FsEvent::RenameFrom(path) => self.handle_rename_from(state, path.as_str()),
            FsEvent::RenameTo(path, is_dir) => self.handle_rename_to(state, path.as_str(), is_dir),
            FsEvent::Other => {},
        }
    }
}

/// Law: the insertion mutation is idempotent: once a filename is cached,
/// inserting it again changes nothing, whatever path or kind the repeat
/// carries.
pub proof fn lemma_create_idempotent(
    v: VolumeCacheView,
    name: Seq<char>,
    cp: CachedPathView,
    cp2: CachedPathView,
)
    ensures
        spec_create(spec_create(v, name, cp), name, cp2) == spec_create(v, name, cp),
{
    if !al_contains(v, name) {
        lemma_key_idx_push(v, (name, seq![cp]), name);
    }
}

/// Law: a delete aimed at a filename that holds a single cached path
/// removes the filename key entirely, and touches no other filename.
pub proof fn lemma_delete_single_path(v: VolumeCacheView, name: Seq<char>, path: Seq<char>)
    requires
        volume_cache_wf(v),
        al_contains(v, name),
        al_lookup(v, name).len() == 1,
    ensures
        !al_contains(spec_remove_path(v, name, path), name),
        forall|k: Seq<char>|
            k != name ==> al_contains(#[trigger] spec_remove_path(v, name, path), k)
                == al_contains(v, k),
        forall|k: Seq<char>|
            k != name && al_contains(v, k) ==> al_lookup(
                #[trigger] spec_remove_path(v, name, path),
                k,
            ) == al_lookup(v, k),
{
    let i = al_key_idx(v, name);
    lemma_key_idx_bounds(v, name);
    let r = spec_remove_path(v, name, path);
    assert(r == v.remove(i));
    lemma_key_idx_remove(v, i, name);
    assert forall|k: Seq<char>| k != name implies al_contains(#[trigger] spec_remove_path(
        v,
        name,
        path,
    ), k) == al_contains(v, k) && (al_contains(v, k) ==> al_lookup(
        spec_remove_path(v, name, path),
        k,
    ) == al_lookup(v, k)) by {
        lemma_key_idx_remove(v, i, k);
    }
}

/// Law: a delete aimed at a filename that holds two cached paths, one of
/// which is the targeted path, removes only that path: the filename stays,
/// holding exactly the other path.
pub proof fn lemma_delete_two_paths(
    v: VolumeCacheView,
    name: Seq<char>,
    path: Seq<char>,
    ti: int,
)
    requires
        volume_cache_wf(v),
        al_contains(v, name),
        al_lookup(v, name).len() == 2,
        0 <= ti < 2,
        al_lookup(v, name)[ti].file_path == path,
        al_lookup(v, name)[1 - ti].file_path != path,
    ensures
        al_contains(spec_remove_path(v, name, path), name),
        al_lookup(spec_remove_path(v, name, path), name) == seq![al_lookup(v, name)[1 - ti]],
{
    reveal_with_fuel(remove_matching, 4);
    let i = al_key_idx(v, name);
    lemma_key_idx_bounds(v, name);
    let b = v[i].1;
    assert(b.drop_last() =~= seq![b[0]]);
    assert(seq![b[0]].drop_last() =~= Seq::<CachedPathView>::empty());
    assert(b.last() == b[1]);
    assert(seq![b[0]].last() == b[0]);
    let nb = remove_matching(b, path);
    if ti == 1 {
        assert(nb =~= seq![b[0]]);
    } else {
        assert(remove_matching(seq![b[0]], path) =~= Seq::<CachedPathView>::empty());
        assert(nb =~= seq![b[1]]);
    }
    let r = spec_remove_path(v, name, path);
    assert(r == v.update(i, (v[i].0, nb)));
    lemma_key_idx_update(v, i, nb, name);
}

/// Law: after the two halves of a rename, the destination filename is
/// present, and the source filename is gone or holds exactly its remaining
/// paths, the renamed one removed.
pub proof fn lemma_rename_pair(
    v: VolumeCacheView,
    from_path: Seq<char>,
    to_path: Seq<char>,
    is_dir: bool,
)
    requires
        volume_cache_wf(v),
    ensures
        ({
            let from_name = spec_file_name(from_path);
            let to_name = spec_file_name(to_path);
            let cp = CachedPathView {
                file_path: to_path,
                file_type: if is_dir {
                    FileType::Directory
                } else {
                    FileType::File
                },
            };
            let v2 = spec_create(spec_remove_path(v, from_name, from_path), to_name, cp);
            let i = al_key_idx(v, from_name);
            &&& al_contains(v2, to_name)
            &&& (from_name != to_name && i < 0 ==> !al_contains(v2, from_name))
            &&& (from_name != to_name && 0 <= i && (v[i].1.len() <= 1 || remove_matching(
                v[i].1,
                from_path,
            ).len() == 0) ==> !al_contains(v2, from_name))
            &&& (from_name != to_name && 0 <= i && v[i].1.len() > 1 && remove_matching(
                v[i].1,
                from_path,
            ).len() > 0 ==> al_contains(v2, from_name) && al_lookup(v2, from_name)
                == remove_matching(v[i].1, from_path))
        }),
{
    let from_name = spec_file_name(from_path);
    let to_name = spec_file_name(to_path);
    let cp = CachedPathView {
        file_path: to_path,
        file_type: if is_dir {
            FileType::Directory
        } else {
            FileType::File
        },
    };
    let v1 = spec_remove_path(v, from_name, from_path);
    let v2 = spec_create(v1, to_name, cp);
    let i = al_key_idx(v, from_name);
    lemma_key_idx_bounds(v, from_name);

    // The destination is present: either it already was, or it was pushed.
    if al_contains(v1, to_name) {
        assert(v2 == v1);
    } else {
        lemma_key_idx_push(v1, (to_name, seq![cp]), to_name);
    }

    // The source is gone or reduced.
    if from_name != to_name {
        if i < 0 {
            assert(v1 == v);
        } else if v[i].1.len() <= 1 || remove_matching(v[i].1, from_path).len() == 0 {
            assert(v1 == v.remove(i));
            lemma_key_idx_remove(v, i, from_name);
        } else {
            let nb = remove_matching(v[i].1, from_path);
            assert(v1 == v.update(i, (v[i].0, nb)));
            lemma_key_idx_update(v, i, nb, from_name);
        }
        if !al_contains(v1, to_name) {
            lemma_key_idx_push(v1, (to_name, seq![cp]), from_name);
        }
    }
}

/// Replacing one well-formed volume by another well-formed volume keeps the
/// system cache well formed.
proof fn lemma_apply_wf(s: SystemCacheView, mp: Seq<char>, newv: VolumeCacheView)
    requires
        al_contains(s, mp),
        volume_cache_wf(al_lookup(s, mp)) ==> volume_cache_wf(newv),
    ensures
        system_cache_wf(s) ==> system_cache_wf(spec_apply(s, mp, newv)),
{
    lemma_key_idx_bounds(s, mp);
    if system_cache_wf(s) {
        let i = al_key_idx(s, mp);
        let t = spec_apply(s, mp, newv);
        assert(forall|j: int| 0 <= j < t.len() ==> (#[trigger] t[j]).0 == s[j].0);
        assert(forall|j: int|
            0 <= j < t.len() && j != i ==> (#[trigger] t[j]).1 == s[j].1);
        assert(volume_cache_wf(t[i].1));
        assert(system_cache_wf(t));
    }
}

} // verus!
