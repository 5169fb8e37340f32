use vstd::prelude::*;
use core::marker::PhantomData;
use std::collections::HashMap;
use crate::events::Events;

verus! {

/// The identifier of an asset.
pub type HandleId = u32;

/// A typed reference to an asset of type `T`, identified by its id.
#[derive(Debug)]
pub struct Handle<T> {
    id: HandleId,
    _p: PhantomData<T>,
}

impl<T> Handle<T> {
    pub closed spec fn spec_id(&self) -> HandleId {
        self.id
    }

    /// A handle to the asset with the given id.
    pub fn new(id: HandleId) -> (r: Handle<T>)
        ensures
            r.spec_id() == id,
    {
        Handle { id, _p: PhantomData }
    }

    pub fn id(&self) -> (r: HandleId)
        ensures
            r == self.spec_id(),
    {
        self.id
    }
}

impl<T> Clone for Handle<T> {
    fn clone(&self) -> (r: Handle<T>)
        ensures
            r.spec_id() == self.spec_id(),
    {
        Handle { id: self.id, _p: PhantomData }
    }
}

impl<T> PartialEq for Handle<T> {
    /// Two handles are equal when they refer to the same asset.
    fn eq(&self, other: &Handle<T>) -> (r: bool)
        ensures
            r == (self.spec_id() == other.spec_id()),
    {
        self.id == other.id
    }
}

impl<T> vstd::std_specs::cmp::PartialEqSpecImpl for Handle<T> {
    open spec fn obeys_eq_spec() -> bool {
        true
    }

    open spec fn eq_spec(&self, other: &Handle<T>) -> bool {
        self.spec_id() == other.spec_id()
    }
}

/// A change to the asset store: an asset became available, or was dropped.
#[derive(Debug, PartialEq)]
pub enum AssetEvent<T> {
    Added(Handle<T>),
    Removed(Handle<T>),
}

/// Whether an event tells of an addition, and of which asset.
pub open spec fn event_code<T>(e: AssetEvent<T>) -> (bool, HandleId) {
    match e {
        AssetEvent::Added(h) => (true, h.spec_id()),
        AssetEvent::Removed(h) => (false, h.spec_id()),
    }
}

pub open spec fn codes<T>(s: Seq<AssetEvent<T>>) -> Seq<(bool, HandleId)> {
    s.map_values(|e: AssetEvent<T>| event_code(e))
}

pub open spec fn added_codes(ids: Seq<HandleId>) -> Seq<(bool, HandleId)> {
    ids.map_values(|id: HandleId| (true, id))
}

pub open spec fn removed_codes(ids: Seq<HandleId>) -> Seq<(bool, HandleId)> {
    ids.map_values(|id: HandleId| (false, id))
}

/// Turns the bytes of a loaded file into an asset.
pub trait AssetProcessor<T> {
    fn process(&self, bytes: Vec<u8>) -> Result<T, String>;
}

/// A file read that the host is asked to perform for an asset.
pub struct LoadRequest {
    pub handle: HandleId,
    pub path: String,
}

struct PendingAsset {
    handle: HandleId,
    path: String,
    bytes: Option<Vec<u8>>,
}

/// A pending file as the contracts see it: its asset and its contents, once
/// they have arrived.
pub type PendingView = (HandleId, Option<Seq<u8>>);

spec fn pending_view(p: PendingAsset) -> PendingView {
    (
        p.handle,
        match p.bytes {
            Some(b) => Some(b@),
            None => None,
        },
    )
}

/// The files of `s` whose contents have not arrived, in order.
pub open spec fn unloaded(s: Seq<PendingView>) -> Seq<PendingView>
    decreases s.len(),
{
    if s.len() == 0 {
        seq![]
    } else if s.last().1 is None {
        unloaded(s.drop_last()).push(s.last())
    } else {
        unloaded(s.drop_last())
    }
}

/// The assets of `s` whose contents have arrived, last first.
pub open spec fn loaded_rev(s: Seq<PendingView>) -> Seq<HandleId>
    decreases s.len(),
{
    if s.len() == 0 {
        seq![]
    } else if s.last().1 is Some {
        seq![s.last().0] + loaded_rev(s.drop_last())
    } else {
        loaded_rev(s.drop_last())
    }
}

/// The position of the first entry of asset `id`, if any.
pub open spec fn entry_of(s: Seq<(HandleId, usize)>, id: HandleId) -> Option<nat>
    decreases s.len(),
{
    if s.len() == 0 {
        None
    } else if s[0].0 == id {
        Some(0)
    } else {
        match entry_of(s.drop_first(), id) {
            Some(k) => Some(k + 1),
            None => None,
        }
    }
}

/// The entries that some holder still uses, in order.
pub open spec fn kept(s: Seq<(HandleId, usize)>) -> Seq<(HandleId, usize)>
    decreases s.len(),
{
    if s.len() == 0 {
        seq![]
    } else if s.last().1 > 0 {
        kept(s.drop_last()).push(s.last())
    } else {
        kept(s.drop_last())
    }
}

/// The assets that no holder uses any longer, in order.
pub open spec fn dropped(s: Seq<(HandleId, usize)>) -> Seq<HandleId>
    decreases s.len(),
{
    if s.len() == 0 {
        seq![]
    } else if s.last().1 == 0 {
        dropped(s.drop_last()).push(s.last().0)
    } else {
        dropped(s.drop_last())
    }
}

/// The position of the first pending file of asset `id`, if any.
pub open spec fn pending_of(s: Seq<PendingView>, id: HandleId) -> Option<nat>
    decreases s.len(),
{
    if s.len() == 0 {
        None
    } else if s[0].0 == id {
        Some(0)
    } else {
        match pending_of(s.drop_first(), id) {
            Some(k) => Some(k + 1),
            None => None,
        }
    }
}

proof fn lemma_entry_of(s: Seq<(HandleId, usize)>, id: HandleId, j: int)
    requires
        0 <= j <= s.len(),
        forall|i: int| 0 <= i < j ==> s[i].0 != id,
    ensures
        j < s.len() && s[j].0 == id ==> entry_of(s, id) == Some(j as nat),
        j == s.len() ==> entry_of(s, id) is None,
    decreases j,
{
    if s.len() > 0 && j > 0 {
        lemma_entry_of(s.drop_first(), id, j - 1);
    }
}

proof fn lemma_pending_of(s: Seq<PendingView>, id: HandleId, j: int)
    requires
        0 <= j <= s.len(),
        forall|i: int| 0 <= i < j ==> s[i].0 != id,
    ensures
        j < s.len() && s[j].0 == id ==> pending_of(s, id) == Some(j as nat),
        j == s.len() ==> pending_of(s, id) is None,
    decreases j,
{
    if s.len() > 0 && j > 0 {
        lemma_pending_of(s.drop_first(), id, j - 1);
    }
}

/// A store of assets of type `T`, some added directly and some loaded from
/// files that a host reads. Holders of handles are counted explicitly:
/// `retain` counts one more, `release` one fewer, and `update_assets` drops
/// the assets that nobody holds.
pub struct Assets<T, P> {
    entries: Vec<(HandleId, usize)>,
    values: HashMap<HandleId, T>,
    last_id: HandleId,
    created: Vec<HandleId>,
    loading: Vec<PendingAsset>,
    requests: Vec<LoadRequest>,
    processor: Option<P>,
    processed: Ghost<Seq<HandleId>>,
}

impl<T, P: AssetProcessor<T>> Assets<T, P> {
    /// The tracked assets with the number of holders of each, oldest first.
    pub closed spec fn entries_view(&self) -> Seq<(HandleId, usize)> {
        self.entries@
    }

    pub closed spec fn values_view(&self) -> Map<HandleId, T> {
        self.values@
    }

    /// The id given to the newest asset; 0 before the first.
    pub closed spec fn last(&self) -> HandleId {
        self.last_id
    }

    /// Assets added since the last update, whose `Added` event is due.
    pub closed spec fn created_view(&self) -> Seq<HandleId> {
        self.created@
    }

    pub closed spec fn loading_view(&self) -> Seq<PendingView> {
        self.loading@.map_values(|p: PendingAsset| pending_view(p))
    }

    pub closed spec fn requests_view(&self) -> Seq<(HandleId, Seq<char>)> {
        self.requests@.map_values(|r: LoadRequest| (r.handle, r.path@))
    }

    pub closed spec fn has_processor(&self) -> bool {
        self.processor is Some
    }

    /// The loaded assets that the last update turned into values.
    pub closed spec fn last_processed(&self) -> Seq<HandleId> {
        self.processed@
    }

    /// An empty store without a processor.
    pub fn new() -> (r: Assets<T, P>)
        ensures
            r.entries_view() == Seq::<(HandleId, usize)>::empty(),
            r.values_view() == Map::<HandleId, T>::empty(),
            r.last() == 0,
            r.created_view() == Seq::<HandleId>::empty(),
            r.loading_view() == Seq::<PendingView>::empty(),
            r.requests_view() == Seq::<(HandleId, Seq<char>)>::empty(),
            !r.has_processor(),
    {
        let r = Assets {
            entries: Vec::new(),
            values: HashMap::new(),
            last_id: 0,
            created: Vec::new(),
            loading: Vec::new(),
            requests: Vec::new(),
            processor: None,
            processed: Ghost(Seq::empty()),
        };
        assert(r.loading_view() =~= Seq::<PendingView>::empty());
        assert(r.requests_view() =~= Seq::<(HandleId, Seq<char>)>::empty());
        r
    }

    /// Sets the processor that turns loaded files into assets.
    pub fn use_processor(&mut self, processor: P)
        ensures
            final(self).has_processor(),
            final(self).entries_view() == old(self).entries_view(),
            final(self).values_view() == old(self).values_view(),
            final(self).last() == old(self).last(),
            final(self).created_view() == old(self).created_view(),
            final(self).loading_view() == old(self).loading_view(),
            final(self).requests_view() == old(self).requests_view(),
    {
        self.processor = Some(processor);
    }

    fn create_handle(&mut self) -> (r: Handle<T>)
        requires
            old(self).last() < HandleId::MAX,
        ensures
            r.spec_id() == old(self).last() + 1,
            final(self).last() == r.spec_id(),
            final(self).entries_view() == old(self).entries_view().push((r.spec_id(), 1usize)),
            final(self).values_view() == old(self).values_view(),
            final(self).created_view() == old(self).created_view(),
            final(self).loading_view() == old(self).loading_view(),
            final(self).requests_view() == old(self).requests_view(),
            final(self).has_processor() == old(self).has_processor(),
    {
        self.last_id = self.last_id + 1;
        let id = self.last_id;
        self.entries.push((id, 1));
        Handle::new(id)
    }

    /// Adds `value` as a new asset, held once by the handle returned.
    pub fn add(&mut self, value: T) -> (r: Handle<T>)
        requires
            old(self).last() < HandleId::MAX,
        ensures
            r.spec_id() == old(self).last() + 1,
            final(self).last() == r.spec_id(),
            final(self).entries_view() == old(self).entries_view().push((r.spec_id(), 1usize)),
            final(self).values_view() == old(self).values_view().insert(r.spec_id(), value),
            final(self).created_view() == old(self).created_view().push(r.spec_id()),
            final(self).loading_view() == old(self).loading_view(),
            final(self).requests_view() == old(self).requests_view(),
            final(self).has_processor() == old(self).has_processor(),
    {
        let handle = self.create_handle();
        self.values.insert(handle.id(), value);
        self.created.push(handle.id());
        handle
    }

    /// The asset of `handle`, if it is there.
    pub fn get(&self, handle: &Handle<T>) -> (r: Option<&T>)
        ensures
            r == if self.values_view().contains_key(handle.spec_id()) {
                Some(&self.values_view()[handle.spec_id()])
            } else {
                None
            },
    {
        self.values.get(&handle.id)
    }

    /// Starts loading the asset at `path`: the returned handle refers to it
    /// and a read of `path` is requested from the host.
    pub fn load(&mut self, path: &str) -> (r: Handle<T>)
        requires
            old(self).last() < HandleId::MAX,
        ensures
            r.spec_id() == old(self).last() + 1,
            final(self).last() == r.spec_id(),
            final(self).entries_view() == old(self).entries_view().push((r.spec_id(), 1usize)),
            final(self).values_view() == old(self).values_view(),
            final(self).created_view() == old(self).created_view(),
            final(self).loading_view() == old(self).loading_view().push((r.spec_id(), None)),
            final(self).requests_view() == old(self).requests_view().push((r.spec_id(), path@)),
            final(self).has_processor() == old(self).has_processor(),
    {
        let handle = self.create_handle();
        let id = handle.id();
        self.loading.push(PendingAsset { handle: id, path: path.to_owned(), bytes: None });
        self.requests.push(LoadRequest { handle: id, path: path.to_owned() });
        assert(self.loading_view() =~= old(self).loading_view().push((id, None)));
        assert(self.requests_view() =~= old(self).requests_view().push((id, path@)));
        handle
    }

    /// Hands over the file reads requested so far.
    pub fn take_requests(&mut self) -> (r: Vec<LoadRequest>)
        ensures
            r@.map_values(|q: LoadRequest| (q.handle, q.path@)) == old(self).requests_view(),
            final(self).requests_view() == Seq::<(HandleId, Seq<char>)>::empty(),
            final(self).entries_view() == old(self).entries_view(),
            final(self).values_view() == old(self).values_view(),
            final(self).last() == old(self).last(),
            final(self).created_view() == old(self).created_view(),
            final(self).loading_view() == old(self).loading_view(),
            final(self).has_processor() == old(self).has_processor(),
    {
        let mut r: Vec<LoadRequest> = Vec::new();
        std::mem::swap(&mut r, &mut self.requests);
        assert(self.requests_view() =~= Seq::<(HandleId, Seq<char>)>::empty());
        r
    }

    /// Whether a file is still awaited or unprocessed for asset `id`.
    pub fn is_loading(&self, id: HandleId) -> (r: bool)
        ensures
            r == exists|k: int| 0 <= k < self.loading_view().len() && self.loading_view()[k].0 == id,
    {
        let mut k: usize = 0;
        while k < self.loading.len()
            invariant
                k <= self.loading@.len(),
                forall|j: int| 0 <= j < k ==> self.loading_view()[j].0 != id,
            decreases self.loading@.len() - k,
        {
            if self.loading[k].handle == id {
                assert(self.loading_view()[k as int].0 == id);
                return true;
            }
            k += 1;
        }
        false
    }

    fn find_entry(&self, id: HandleId) -> (r: Option<usize>)
        ensures
            match entry_of(self.entries_view(), id) {
                Some(k) => r == Some(k as usize) && k < self.entries_view().len(),
                None => r is None,
            },
            r matches Some(k) ==> entry_of(self.entries_view(), id) == Some(k as nat),
    {
        let mut k: usize = 0;
        while k < self.entries.len()
            invariant
                k <= self.entries@.len(),
                forall|j: int| 0 <= j < k ==> self.entries@[j].0 != id,
            decreases self.entries@.len() - k,
        {
            if self.entries[k].0 == id {
                proof {
                    lemma_entry_of(self.entries@, id, k as int);
                }
                return Some(k);
            }
            k += 1;
        }
        proof {
            lemma_entry_of(self.entries@, id, k as int);
        }
        None
    }

    fn find_pending(&self, id: HandleId) -> (r: Option<usize>)
        ensures
            match pending_of(self.loading_view(), id) {
                Some(k) => r == Some(k as usize) && k < self.loading_view().len(),
                None => r is None,
            },
            r matches Some(k) ==> pending_of(self.loading_view(), id) == Some(k as nat)
                && self.loading_view()[k as int].0 == id,
    {
        let mut k: usize = 0;
        while k < self.loading.len()
            invariant
                k <= self.loading@.len(),
                forall|j: int| 0 <= j < k ==> self.loading_view()[j].0 != id,
            decreases self.loading@.len() - k,
        {
            if self.loading[k].handle == id {
                proof {
                    lemma_pending_of(self.loading_view(), id, k as int);
                }
                return Some(k);
            }
            k += 1;
        }
        proof {
            lemma_pending_of(self.loading_view(), id, k as int);
        }
        None
    }

    /// Records the outcome of reading the file of asset `id`: its contents,
    /// or, on failure, that the asset will not be loaded.
    pub fn file_loaded(&mut self, id: HandleId, result: Result<Vec<u8>, String>)
        requires
            pending_of(old(self).loading_view(), id) is Some,
        ensures
            ({
                let k = pending_of(old(self).loading_view(), id)->Some_0 as int;
                final(self).loading_view() == match result {
                    Ok(bytes) => old(self).loading_view().update(k, (id, Some(bytes@))),
                    Err(_) => old(self).loading_view().remove(k),
                }
            }),
            final(self).entries_view() == old(self).entries_view(),
            final(self).values_view() == old(self).values_view(),
            final(self).last() == old(self).last(),
            final(self).created_view() == old(self).created_view(),
            final(self).requests_view() == old(self).requests_view(),
            final(self).has_processor() == old(self).has_processor(),
    {
        let k = self.find_pending(id).unwrap();
        match result {
            Ok(bytes) => {
                let ghost b = bytes@;
                self.loading[k].bytes = Some(bytes);
                assert(self.loading_view() =~= old(self).loading_view().update(k as int, (id, Some(b))));
            },
            Err(_) => {
                self.loading.remove(k);
                assert(self.loading_view() =~= old(self).loading_view().remove(k as int));
            },
        }
    }

    /// Counts one more holder of the asset of `handle`.
    pub fn retain(&mut self, handle: &Handle<T>) -> (r: Handle<T>)
        requires
            entry_of(old(self).entries_view(), handle.spec_id()) matches Some(k) && old(
                self,
            ).entries_view()[k as int].1 < usize::MAX,
        ensures
            r.spec_id() == handle.spec_id(),
            ({
                let k = entry_of(old(self).entries_view(), handle.spec_id())->Some_0 as int;
                final(self).entries_view() == old(self).entries_view().update(
                    k,
                    (handle.spec_id(), (old(self).entries_view()[k].1 + 1) as usize),
                )
            }),
            final(self).values_view() == old(self).values_view(),
            final(self).last() == old(self).last(),
            final(self).created_view() == old(self).created_view(),
            final(self).loading_view() == old(self).loading_view(),
            final(self).requests_view() == old(self).requests_view(),
            final(self).has_processor() == old(self).has_processor(),
    {
        let k = self.find_entry(handle.id).unwrap();
        let count = self.entries[k].1;
        self.entries.set(k, (handle.id, count + 1));
        Handle::new(handle.id)
    }

    /// Counts one holder fewer of the asset of `handle`; the asset is dropped
    /// at the next update once nobody holds it.
    pub fn release(&mut self, handle: Handle<T>)
        requires
            entry_of(old(self).entries_view(), handle.spec_id()) matches Some(k) && old(
                self,
            ).entries_view()[k as int].1 > 0,
        ensures
            ({
                let k = entry_of(old(self).entries_view(), handle.spec_id())->Some_0 as int;
                final(self).entries_view() == old(self).entries_view().update(
                    k,
                    (handle.spec_id(), (old(self).entries_view()[k].1 - 1) as usize),
                )
            }),
            final(self).values_view() == old(self).values_view(),
            final(self).last() == old(self).last(),
            final(self).created_view() == old(self).created_view(),
            final(self).loading_view() == old(self).loading_view(),
            final(self).requests_view() == old(self).requests_view(),
            final(self).has_processor() == old(self).has_processor(),
    {
        let k = self.find_entry(handle.id).unwrap();
        let count = self.entries[k].1;
        self.entries.set(k, (handle.id, count - 1));
    }

    /// One update of the store, run once per tick: the files that have
    /// arrived are handed to the processor, last requested first, and each
    /// value it makes becomes an asset; an `Added` event goes out for every
    /// asset added since the last update, then a `Removed` event for every
    /// asset that nobody holds any longer, which leaves the store.
    pub fn update_assets(&mut self, events: &mut Events<AssetEvent<T>>)
        ensures
            final(self).loading_view() == unloaded(old(self).loading_view()),
            final(self).entries_view() == kept(old(self).entries_view()),
            final(self).created_view() == Seq::<HandleId>::empty(),
            final(self).last() == old(self).last(),
            final(self).requests_view() == old(self).requests_view(),
            final(self).has_processor() == old(self).has_processor(),
            !old(self).has_processor() ==> final(self).last_processed() == Seq::<HandleId>::empty(),
            forall|i: int|
                0 <= i < final(self).last_processed().len() ==> loaded_rev(old(self).loading_view()).contains(
                    #[trigger] final(self).last_processed()[i],
                ),
            codes(final(events)@) == codes(old(events)@) + added_codes(
                old(self).created_view() + final(self).last_processed(),
            ) + removed_codes(dropped(old(self).entries_view())),
            forall|id: HandleId|
                #[trigger] final(self).values_view().contains_key(id) <==> ((old(self).values_view().contains_key(id)
                    || final(self).last_processed().contains(id)) && !dropped(
                    old(self).entries_view(),
                ).contains(id)),
            forall|id: HandleId|
                old(self).values_view().contains_key(id) && !final(self).last_processed().contains(id)
                    && !dropped(old(self).entries_view()).contains(id)
                    ==> #[trigger] final(self).values_view()[id] == old(self).values_view()[id],
    {
        let ghost l0 = self.loading_view();
        let ghost v0 = self.values@;
        let ghost c0 = self.created@;
        let ghost e0 = self.entries@;
        let ghost ev0 = events@;
        // the files whose contents have arrived leave the loading list
        let mut files: Vec<PendingAsset> = Vec::new();
        std::mem::swap(&mut files, &mut self.loading);
        assert(files@.map_values(|p: PendingAsset| pending_view(p)) == l0);
        let mut loaded: Vec<PendingAsset> = Vec::new();
        let ghost mut k: int = 0;
        while files.len() > 0
            invariant
                0 <= k <= l0.len(),
                files@.map_values(|p: PendingAsset| pending_view(p)) == l0.subrange(k, l0.len() as int),
                self.loading_view() == unloaded(l0.take(k)),
                loaded@.map_values(|p: PendingAsset| p.handle) == loaded_rev(l0.take(k)),
                forall|j: int| 0 <= j < loaded@.len() ==> (#[trigger] loaded@[j]).bytes is Some,
                self.values@ == v0,
                self.created@ == c0,
                self.entries@ == e0,
                self.last() == old(self).last(),
                self.requests_view() == old(self).requests_view(),
                self.has_processor() == old(self).has_processor(),
            decreases files@.len(),
        {
            let ghost lv = self.loading_view();
            let ghost ld = loaded@;
            let ghost fs = files@;
            let ghost fv = fs.map_values(|p: PendingAsset| pending_view(p));
            assert(fv.len() == fs.len());
            assert(fv.len() == l0.len() - k);
            assert(fv[0] == pending_view(fs[0]));
            assert(fv[0] == l0[k]);
            let f = files.remove(0);
            assert(f == fs[0]);
            assert(pending_view(f) == l0[k]);
            assert(l0.take(k + 1).drop_last() =~= l0.take(k));
            assert(l0.take(k + 1).last() == l0[k]);
            if f.bytes.is_some() {
                loaded.insert(0, f);
                assert(loaded@.map_values(|p: PendingAsset| p.handle) =~= loaded_rev(l0.take(k + 1)));
                assert forall|j: int| 0 <= j < loaded@.len() implies (#[trigger] loaded@[j]).bytes is Some by {
                    if j > 0 {
                        assert(loaded@[j] == ld[j - 1]);
                    }
                }
                assert(self.loading_view() =~= unloaded(l0.take(k + 1)));
            } else {
                self.loading.push(f);
                assert(self.loading_view() =~= lv.push(pending_view(f)));
                assert(self.loading_view() =~= unloaded(l0.take(k + 1)));
                assert(loaded@.map_values(|p: PendingAsset| p.handle) =~= loaded_rev(l0.take(k + 1)));
            }
            proof {
                k = k + 1;
            }
            assert(files@ =~= fs.subrange(1, fs.len() as int));
            assert forall|x: int| 0 <= x < files@.len() implies files@.map_values(|p: PendingAsset| pending_view(p))[x] == l0.subrange(k, l0.len() as int)[x] by {
                assert(files@[x] == fs[x + 1]);
                assert(fv[x + 1] == pending_view(fs[x + 1]));
            }
            assert(files@.map_values(|p: PendingAsset| pending_view(p)) =~= l0.subrange(k, l0.len() as int));
        }
        assert(l0.take(k) =~= l0);
        // the processor turns each arrived file into an asset
        let ghost order = loaded_rev(l0);
        let ghost mut processed: Seq<HandleId> = Seq::empty();
        let ghost mut m: int = 0;
        while loaded.len() > 0
            invariant
                0 <= m <= order.len(),
                loaded@.map_values(|p: PendingAsset| p.handle) == order.subrange(m, order.len() as int),
                forall|j: int| 0 <= j < loaded@.len() ==> (#[trigger] loaded@[j]).bytes is Some,
                forall|i: int| 0 <= i < processed.len() ==> order.contains(#[trigger] processed[i]),
                !old(self).has_processor() ==> processed == Seq::<HandleId>::empty(),
                self.has_processor() == old(self).has_processor(),
                self.created@ == c0 + processed,
                forall|id: HandleId| #[trigger] self.values@.contains_key(id) <==> (v0.contains_key(id) || processed.contains(id)),
                forall|id: HandleId| v0.contains_key(id) && !processed.contains(id) ==> #[trigger] self.values@[id] == v0[id],
                self.loading_view() == unloaded(l0),
                self.entries@ == e0,
                self.last() == old(self).last(),
                self.requests_view() == old(self).requests_view(),
            decreases loaded@.len(),
        {
            let ghost ld = loaded@;
            let ghost lh = ld.map_values(|p: PendingAsset| p.handle);
            assert(lh.len() == ld.len());
            assert(lh.len() == order.len() - m);
            assert(lh[0] == ld[0].handle);
            assert(0 <= m < order.len());
            let f = loaded.remove(0);
            assert(f.handle == order[m]);
            assert(order.contains(f.handle));
            assert(loaded@ =~= ld.subrange(1, ld.len() as int));
            let bytes = f.bytes.unwrap();
            let outcome = match &self.processor {
                Some(p) => Some(p.process(bytes)),
                None => None,
            };
            if let Some(result) = outcome {
                if self.store_processed(f.handle, result) {
                    proof {
                        let pr = processed;
                        processed = processed.push(f.handle);
                        assert forall|i: int| 0 <= i < processed.len() implies order.contains(#[trigger] processed[i]) by {
                            if i < pr.len() {
                                assert(processed[i] == pr[i]);
                            }
                        }
                        assert(self.created@ =~= c0 + processed);
                        assert forall|id: HandleId| #[trigger] self.values@.contains_key(id) <==> (v0.contains_key(id) || processed.contains(id)) by {
                            if processed.contains(id) && id != f.handle {
                                let i = choose|i: int| 0 <= i < processed.len() && processed[i] == id;
                                assert(pr[i] == id);
                            }
                            if pr.contains(id) {
                                let i = choose|i: int| 0 <= i < pr.len() && pr[i] == id;
                                assert(processed[i] == id);
                            }
                            assert(processed[pr.len() as int] == f.handle);
                        }
                        assert forall|id: HandleId| v0.contains_key(id) && !processed.contains(id) implies #[trigger] self.values@[id] == v0[id] by {
                            assert(processed[pr.len() as int] == f.handle);
                            if pr.contains(id) {
                                let i = choose|i: int| 0 <= i < pr.len() && pr[i] == id;
                                assert(processed[i] == id);
                            }
                        }
                    }
                }
            }
            proof {
                m = m + 1;
            }
            assert forall|x: int| 0 <= x < loaded@.len() implies loaded@.map_values(|p: PendingAsset| p.handle)[x] == order.subrange(m, order.len() as int)[x] by {
                assert(loaded@[x] == ld[x + 1]);
                assert(lh[x + 1] == ld[x + 1].handle);
            }
            assert(loaded@.map_values(|p: PendingAsset| p.handle) =~= order.subrange(m, order.len() as int));
            assert forall|j: int| 0 <= j < loaded@.len() implies (#[trigger] loaded@[j]).bytes is Some by {
                assert(loaded@[j] == ld[j + 1]);
            }
        }
        self.processed = Ghost(processed);
        // announce the assets added since the last update
        let ghost added = self.created@;
        let ghost vp = self.values@;
        let n = self.created.len();
        let mut i: usize = 0;
        while i < n
            invariant
                i <= n,
                n == self.created@.len(),
                self.created@ == added,
                codes(events@) == codes(ev0) + added_codes(added.take(i as int)),
                self.loading_view() == unloaded(l0),
                self.entries@ == e0,
                self.values@ == vp,
                self.processed@ == processed,
                self.last() == old(self).last(),
                self.requests_view() == old(self).requests_view(),
                self.has_processor() == old(self).has_processor(),
            decreases n - i,
        {
            let ghost before = events@;
            events.send(AssetEvent::Added(Handle::new(self.created[i])));
            assert(codes(events@) =~= codes(before).push((true, added[i as int])));
            assert(added.take(i + 1) =~= added.take(i as int).push(added[i as int]));
            assert(added_codes(added.take(i + 1)) =~= added_codes(added.take(i as int)).push((true, added[i as int])));
            i += 1;
        }
        assert(added.take(n as int) =~= added);
        self.created.clear();
        // drop the assets that nobody holds
        let mut entries: Vec<(HandleId, usize)> = Vec::new();
        std::mem::swap(&mut entries, &mut self.entries);
        let mut gone: Vec<HandleId> = Vec::new();
        let mut j: usize = 0;
        while j < entries.len()
            invariant
                j <= entries@.len(),
                entries@ == e0,
                self.entries@ == kept(e0.take(j as int)),
                gone@ == dropped(e0.take(j as int)),
                self.created@ == Seq::<HandleId>::empty(),
                self.loading_view() == unloaded(l0),
                self.values@ == vp,
                self.processed@ == processed,
                self.last() == old(self).last(),
                self.requests_view() == old(self).requests_view(),
                self.has_processor() == old(self).has_processor(),
            decreases entries@.len() - j,
        {
            let e = entries[j];
            assert(e0.take(j + 1).drop_last() =~= e0.take(j as int));
            if e.1 > 0 {
                self.entries.push(e);
            } else {
                gone.push(e.0);
            }
            j += 1;
        }
        assert(e0.take(j as int) =~= e0);
        let ghost v1 = self.values@;
        let ghost ev1 = events@;
        let mut q: usize = 0;
        while q < gone.len()
            invariant
                q <= gone@.len(),
                gone@ == dropped(e0),
                forall|id: HandleId| #[trigger] self.values@.contains_key(id) <==> (v1.contains_key(id) && !gone@.take(q as int).contains(id)),
                forall|id: HandleId| self.values@.contains_key(id) ==> #[trigger] self.values@[id] == v1[id],
                codes(events@) == codes(ev1) + removed_codes(gone@.take(q as int)),
                self.entries@ == kept(e0),
                self.created@ == Seq::<HandleId>::empty(),
                self.loading_view() == unloaded(l0),
                self.processed@ == processed,
                self.last() == old(self).last(),
                self.requests_view() == old(self).requests_view(),
                self.has_processor() == old(self).has_processor(),
            decreases gone@.len() - q,
        {
            let id = gone[q];
            let ghost before = events@;
            let ghost g = gone@.take(q as int);
            self.values.remove(&id);
            events.send(AssetEvent::Removed(Handle::new(id)));
            assert(gone@.take(q + 1) =~= g.push(id));
            assert forall|x: HandleId| g.push(id).contains(x) <==> (g.contains(x) || x == id) by {
                if g.contains(x) {
                    let i = choose|i: int| 0 <= i < g.len() && g[i] == x;
                    assert(g.push(id)[i] == x);
                }
                if g.push(id).contains(x) && x != id {
                    let i = choose|i: int| 0 <= i < g.push(id).len() && g.push(id)[i] == x;
                    assert(g[i] == x);
                }
                assert(g.push(id)[g.len() as int] == id);
            }
            assert(codes(events@) =~= codes(before).push((false, id)));
            assert(removed_codes(gone@.take(q + 1)) =~= removed_codes(g).push((false, id)));
            q += 1;
        }
        assert(gone@.take(q as int) =~= gone@);
        assert(codes(events@) =~= codes(ev0) + added_codes(c0 + processed) + removed_codes(dropped(e0)));
    }

    /// Keeps what the processor made of the file of asset `id`: a value
    /// becomes the asset, with its `Added` event due; an error drops the file.
    pub fn store_processed(&mut self, id: HandleId, result: Result<T, String>) -> (stored: bool)
        ensures
            stored == result is Ok,
            match result {
                Ok(v) => final(self).values_view() == old(self).values_view().insert(id, v)
                    && final(self).created_view() == old(self).created_view().push(id),
                Err(_) => final(self).values_view() == old(self).values_view()
                    && final(self).created_view() == old(self).created_view(),
            },
            final(self).entries_view() == old(self).entries_view(),
            final(self).last() == old(self).last(),
            final(self).loading_view() == old(self).loading_view(),
            final(self).requests_view() == old(self).requests_view(),
            final(self).has_processor() == old(self).has_processor(),
            final(self).last_processed() == old(self).last_processed(),
    {
        match result {
            Ok(value) => {
                self.values.insert(id, value);
                self.created.push(id);
                true
            },
            Err(_) => false,
        }
    }

    /// Whether every file requested has arrived and been processed.
    pub fn everything_loaded(&self) -> (r: bool)
        ensures
            r == (self.loading_view().len() == 0),
    {
        self.loading.len() == 0
    }
}

} // verus!
