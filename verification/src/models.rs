//! The resource cache: heavyweight models, built on first use, shared while
//! cached, and dropped after a time without use.
//!
//! The cache decides; its caller acts. `get_model` says whether the model is
//! there, is being built by someone else, has to be built now, or is
//! unknown. The caller builds where it is told to, away from the cache, and
//! reports the outcome with `store` or `abandon`. After every hit and every
//! store the caller starts a timer of `timeout` and calls `evict_idle` when
//! it fires; the cache then drops the model only if it has not been used
//! for the whole `timeout`, so a use that comes in after the timer was
//! started always wins over that timer.
//!
//! `M` is the handle of a model; the cache stores it and never looks into
//! it. Times are milliseconds of a clock that does not go back.

use crate::text::{
    all_distinct, first_index, index_of, lemma_first_index, lemma_first_index_is, str_eq, texts,
};
use vstd::prelude::*;
use vstd::string::*;

verus! {

/// Milliseconds without use after which a model is dropped unless told otherwise.
pub const DEFAULT_TIMEOUT_MILLIS: u64 = 300_000;

/// The id under which the vision-language model is registered.
pub const VLM_ID: &'static str = "vlm";

/// The id under which the language model is registered.
pub const LM_ID: &'static str = "lm";

/// What a request for a model leads to.
#[derive(Debug, Clone, Copy, PartialEq, Eq, Structural)]
pub enum Lookup {
    /// The model is cached; its time of last use has been renewed.
    Hit,
    /// The model is not cached, and a build of it is under way elsewhere.
    InFlight,
    /// The model is not cached; the caller is to build it and to report back.
    Build,
    /// No builder is registered under the id.
    Unknown,
}

/// A cached model as mathematics.
pub struct Cached<M> {
    pub model: M,
    pub last_used: nat,
}

/// The cache as mathematics: what is cached under which id, which ids are
/// being built, and which ids have a builder.
pub struct ManagerView<M> {
    pub timeout: nat,
    pub cached: Map<Seq<char>, Cached<M>>,
    pub building: Set<Seq<char>>,
    pub builders: Set<Seq<char>>,
}

impl<M> ManagerView<M> {
    /// What a request for `id` leads to.
    pub open spec fn outcome(self, id: Seq<char>) -> Lookup {
        if self.cached.contains_key(id) {
            Lookup::Hit
        } else if self.building.contains(id) {
            Lookup::InFlight
        } else if self.builders.contains(id) {
            Lookup::Build
        } else {
            Lookup::Unknown
        }
    }

    /// The cache after a request for `id` at the time `now`: a hit renews the
    /// time of last use, a build is noted as under way, anything else
    /// changes nothing.
    pub open spec fn get(self, id: Seq<char>, now: nat) -> ManagerView<M> {
        match self.outcome(id) {
            Lookup::Hit => ManagerView {
                cached: self.cached.insert(
                    id,
                    Cached { model: self.cached[id].model, last_used: now },
                ),
                ..self
            },
            Lookup::Build => ManagerView { building: self.building.insert(id), ..self },
            _ => self,
        }
    }

    /// The cache after `model` has been built for `id` at the time `now`.
    pub open spec fn store(self, id: Seq<char>, model: M, now: nat) -> ManagerView<M> {
        ManagerView {
            cached: self.cached.insert(id, Cached { model, last_used: now }),
            building: self.building.remove(id),
            ..self
        }
    }

    /// The cache after the build for `id` has failed.
    pub open spec fn abandon(self, id: Seq<char>) -> ManagerView<M> {
        ManagerView { building: self.building.remove(id), ..self }
    }

    /// Whether the model of `id` is cached and has not been used for the
    /// whole timeout at the time `now`.
    pub open spec fn is_idle(self, id: Seq<char>, now: nat) -> bool {
        self.cached.contains_key(id) && self.cached[id].last_used + self.timeout <= now
    }

    /// The cache after a timer for `id` has fired at the time `now`.
    pub open spec fn expire(self, id: Seq<char>, now: nat) -> ManagerView<M> {
        if self.is_idle(id, now) {
            ManagerView { cached: self.cached.remove(id), ..self }
        } else {
            self
        }
    }

    /// The model cached under `id`.
    pub open spec fn handle(self, id: Seq<char>) -> Option<M> {
        if self.cached.contains_key(id) {
            Some(self.cached[id].model)
        } else {
            None
        }
    }
}

struct CacheEntry<M> {
    id: String,
    model: M,
    last_used: u64,
}

/// Lazily built, shared, idle-evicted models.
pub struct ModelManager<M> {
    timeout: u64,
    cache: Vec<CacheEntry<M>>,
    building: Vec<String>,
    builders: Vec<String>,
}

spec fn entry_ids<M>(entries: Seq<CacheEntry<M>>) -> Seq<Seq<char>> {
    entries.map_values(|e: CacheEntry<M>| e.id@)
}

spec fn cache_map<M>(entries: Seq<CacheEntry<M>>) -> Map<Seq<char>, Cached<M>> {
    Map::new(
        |k: Seq<char>| first_index(entry_ids(entries), k) is Some,
        |k: Seq<char>|
            {
                let i = first_index(entry_ids(entries), k).unwrap();
                Cached { model: entries[i].model, last_used: entries[i].last_used as nat }
            },
    )
}

spec fn key_set(keys: Seq<Seq<char>>) -> Set<Seq<char>> {
    Set::new(|k: Seq<char>| first_index(keys, k) is Some)
}

proof fn lemma_keys_push(keys: Seq<Seq<char>>, key: Seq<char>)
    ensures
        forall|k: Seq<char>| #[trigger]
            first_index(keys.push(key), k) == match first_index(keys, k) {
                Some(i) => Some(i),
                None => if k == key {
                    Some(keys.len() as int)
                } else {
                    None
                },
            },
        all_distinct(keys) && first_index(keys, key) is None ==> all_distinct(keys.push(key)),
{
    let more = keys.push(key);
    assert forall|k: Seq<char>| #[trigger]
        first_index(more, k) == match first_index(keys, k) {
            Some(i) => Some(i),
            None => if k == key {
                Some(keys.len() as int)
            } else {
                None
            },
        } by {
        lemma_first_index(keys, k);
        lemma_first_index(more, k);
        match first_index(keys, k) {
            Some(i) => {
                assert(more[i] == keys[i]);
                assert forall|j: int| 0 <= j < i implies more[j] != k by {
                    assert(more[j] == keys[j]);
                }
                lemma_first_index_is(more, k, i);
            },
            None => {
                assert forall|j: int| 0 <= j < keys.len() implies more[j] != k by {
                    assert(more[j] == keys[j]);
                }
                if k == key {
                    lemma_first_index_is(more, k, keys.len() as int);
                }
            },
        }
    }
    if all_distinct(keys) && first_index(keys, key) is None {
        lemma_first_index(keys, key);
    }
}

proof fn lemma_keys_remove(keys: Seq<Seq<char>>, at: int)
    requires
        0 <= at < keys.len(),
        all_distinct(keys),
    ensures
        all_distinct(keys.remove(at)),
        forall|k: Seq<char>| #[trigger]
            first_index(keys.remove(at), k) == match first_index(keys, k) {
                Some(i) => if i < at {
                    Some(i)
                } else if i == at {
                    None
                } else {
                    Some(i - 1)
                },
                None => None,
            },
{
    let less = keys.remove(at);
    assert forall|i: int| 0 <= i < less.len() implies less[i] == keys[if i < at {
        i
    } else {
        i + 1
    }] by {}
    assert forall|k: Seq<char>| #[trigger]
        first_index(less, k) == match first_index(keys, k) {
            Some(i) => if i < at {
                Some(i)
            } else if i == at {
                None
            } else {
                Some(i - 1)
            },
            None => None,
        } by {
        lemma_first_index(keys, k);
        lemma_first_index(less, k);
        match first_index(keys, k) {
            Some(i) => {
                if i < at {
                    lemma_first_index_is(less, k, i);
                } else if i > at {
                    lemma_first_index_is(less, k, i - 1);
                }
            },
            None => {},
        }
    }
}

impl<M> View for ModelManager<M> {
    type V = ManagerView<M>;

    closed spec fn view(&self) -> ManagerView<M> {
        ManagerView {
            timeout: self.timeout as nat,
            cached: cache_map(self.cache@),
            building: key_set(texts(self.building@)),
            builders: key_set(texts(self.builders@)),
        }
    }
}

impl<M> ModelManager<M> {
    /// The invariant of the cache: at most one model under each id, and at
    /// most one build under way for each id.
    pub closed spec fn wf(&self) -> bool {
        &&& all_distinct(entry_ids(self.cache@))
        &&& all_distinct(texts(self.building@))
    }

    /// An empty cache that drops a model after `timeout` milliseconds
    /// without use and knows how to have the models of `builder_ids` built.
    pub fn new(timeout: u64, builder_ids: Vec<String>) -> (manager: Self)
        ensures
            manager.wf(),
            manager@.timeout == timeout,
            manager@.cached == Map::<Seq<char>, Cached<M>>::empty(),
            manager@.building == Set::<Seq<char>>::empty(),
            forall|k: Seq<char>|
                manager@.builders.contains(k) <==> exists|i: int|
                    0 <= i < builder_ids@.len() && (#[trigger] builder_ids@[i])@ == k,
    {
        let manager = ModelManager {
            timeout,
            cache: Vec::new(),
            building: Vec::new(),
            builders: builder_ids,
        };
        proof {
            assert(manager@.cached =~= Map::<Seq<char>, Cached<M>>::empty());
            assert(manager@.building =~= Set::<Seq<char>>::empty());
            assert forall|k: Seq<char>|
                manager@.builders.contains(k) <==> exists|i: int|
                    0 <= i < builder_ids@.len() && (#[trigger] builder_ids@[i])@ == k by {
                lemma_first_index(texts(builder_ids@), k);
                if manager@.builders.contains(k) {
                    let i = first_index(texts(builder_ids@), k).unwrap();
                    assert(builder_ids@[i]@ == k);
                }
                if exists|i: int| 0 <= i < builder_ids@.len() && (#[trigger] builder_ids@[i])@ == k {
                    let i = choose|i: int|
                        0 <= i < builder_ids@.len() && (#[trigger] builder_ids@[i])@ == k;
                    assert(texts(builder_ids@)[i] == k);
                }
            }
        }
        manager
    }

    /// The position of the entry of `id` in the cache.
    fn slot(&self, id: &str) -> (found: Option<usize>)
        ensures
            match found {
                Some(i) => {
                    &&& first_index(entry_ids(self.cache@), id@) == Some(i as int)
                    &&& i < self.cache@.len()
                    &&& self.cache@[i as int].id@ == id@
                    &&& self@.cached.contains_key(id@)
                    &&& self@.cached[id@] == Cached {
                        model: self.cache@[i as int].model,
                        last_used: self.cache@[i as int].last_used as nat,
                    }
                },
                None => {
                    &&& first_index(entry_ids(self.cache@), id@) is None
                    &&& !self@.cached.contains_key(id@)
                },
            },
    {
        let n = self.cache.len();
        let ghost ids = entry_ids(self.cache@);
        let mut i: usize = 0;
        while i < n
            invariant
                n == self.cache@.len(),
                ids == entry_ids(self.cache@),
                i <= n,
                forall|j: int| 0 <= j < i ==> ids[j] != id@,
            decreases n - i,
        {
            assert(ids[i as int] == self.cache@[i as int].id@);
            if str_eq(self.cache[i].id.as_str(), id) {
                proof {
                    lemma_first_index_is(ids, id@, i as int);
                }
                return Some(i);
            }
            i += 1;
        }
        proof {
            lemma_first_index(ids, id@);
        }
        None
    }

    /// Takes the entry at `at` out of the cache.
    fn take_entry(&mut self, at: usize) -> (entry: CacheEntry<M>)
        requires
            old(self).wf(),
            at < old(self).cache@.len(),
        ensures
            final(self).wf(),
            entry == old(self).cache@[at as int],
            final(self)@ == (ManagerView {
                cached: old(self)@.cached.remove(entry.id@),
                ..old(self)@
            }),
            !final(self)@.cached.contains_key(entry.id@),
            first_index(entry_ids(final(self).cache@), entry.id@) is None,
    {
        let ghost before = entry_ids(self.cache@);
        let entry = self.cache.remove(at);
        proof {
            lemma_keys_remove(before, at as int);
            assert(entry_ids(self.cache@) =~= before.remove(at as int));
            let after = entry_ids(self.cache@);
            let gone = entry.id@;
            assert(before[at as int] == gone);
            lemma_first_index_is(before, gone, at as int);
            assert forall|k: Seq<char>|
                self@.cached.contains_key(k) <==> old(self)@.cached.contains_key(k) && k
                    != gone by {
                lemma_first_index(before, k);
                assert(first_index(after, k) == first_index(before.remove(at as int), k));
            }
            assert forall|k: Seq<char>| self@.cached.contains_key(k) implies self@.cached[k] == old(
                self,
            )@.cached[k] by {
                lemma_first_index(before, k);
                assert(first_index(after, k) == first_index(before.remove(at as int), k));
                let i = first_index(before, k).unwrap();
                if i < at {
                    assert(self.cache@[i] == old(self).cache@[i]);
                } else {
                    assert(self.cache@[i - 1] == old(self).cache@[i]);
                }
            }
            assert(self@.cached =~= old(self)@.cached.remove(gone));
        }
        entry
    }

    /// Puts an entry for an id that has none into the cache.
    fn put_entry(&mut self, id: String, model: M, now: u64)
        requires
            old(self).wf(),
            first_index(entry_ids(old(self).cache@), id@) is None,
        ensures
            final(self).wf(),
            final(self)@ == (ManagerView {
                cached: old(self)@.cached.insert(id@, Cached { model, last_used: now as nat }),
                ..old(self)@
            }),
    {
        let ghost before = entry_ids(self.cache@);
        let ghost entries = self.cache@;
        self.cache.push(CacheEntry { id, model, last_used: now });
        proof {
            lemma_keys_push(before, id@);
            let after = entry_ids(self.cache@);
            assert(after =~= before.push(id@));
            let added = Cached { model, last_used: now as nat };
            assert forall|k: Seq<char>|
                self@.cached.contains_key(k) <==> old(self)@.cached.contains_key(k) || k
                    == id@ by {
                assert(first_index(after, k) == first_index(before.push(id@), k));
            }
            assert forall|k: Seq<char>| self@.cached.contains_key(k) implies self@.cached[k] == (
            if k == id@ {
                added
            } else {
                old(self)@.cached[k]
            }) by {
                assert(first_index(after, k) == first_index(before.push(id@), k));
                lemma_first_index(before, k);
                if k != id@ {
                    let i = first_index(before, k).unwrap();
                    assert(self.cache@[i] == entries[i]);
                }
            }
            assert(self@.cached =~= old(self)@.cached.insert(
                id@,
                Cached { model, last_used: now as nat },
            ));
        }
    }

    /// Notes that a build for `id` is under way.
    fn mark_building(&mut self, id: &str)
        requires
            old(self).wf(),
            !old(self)@.building.contains(id@),
        ensures
            final(self).wf(),
            final(self)@ == (ManagerView {
                building: old(self)@.building.insert(id@),
                ..old(self)@
            }),
    {
        let ghost before = texts(self.building@);
        self.building.push(String::from_str(id));
        proof {
            lemma_keys_push(before, id@);
            assert(texts(self.building@) =~= before.push(id@));
            assert(self@.building =~= old(self)@.building.insert(id@));
        }
    }

    /// Notes that no build for `id` is under way any more.
    fn unmark_building(&mut self, id: &str)
        requires
            old(self).wf(),
        ensures
            final(self).wf(),
            final(self)@ == (ManagerView {
                building: old(self)@.building.remove(id@),
                ..old(self)@
            }),
    {
        let ghost before = texts(self.building@);
        match index_of(&self.building, id) {
            Some(i) => {
                self.building.remove(i);
                proof {
                    lemma_keys_remove(before, i as int);
                    lemma_first_index(before, id@);
                    assert(texts(self.building@) =~= before.remove(i as int));
                    assert forall|k: Seq<char>|
                        self@.building.contains(k) <==> old(self)@.building.remove(id@).contains(
                            k,
                        ) by {
                        lemma_first_index(before, k);
                    }
                    assert(self@.building =~= old(self)@.building.remove(id@));
                }
            },
            None => {
                assert(self@.building =~= old(self)@.building.remove(id@));
            },
        }
    }

    /// Asks for the model of `id` at the time `now`.
    ///
    /// `Hit`: the model is cached and counts as used at `now`; fetch it with
    /// `model` and restart its timer. `InFlight`: someone else is building
    /// it; wait and ask again. `Build`: build it now and report with `store`
    /// or `abandon`; until then others are told `InFlight`. `Unknown`: no
    /// builder is registered under `id`.
    pub fn get_model(&mut self, id: &str, now: u64) -> (out: Lookup)
        requires
            old(self).wf(),
        ensures
            final(self).wf(),
            out == old(self)@.outcome(id@),
            final(self)@ == old(self)@.get(id@, now as nat),
    {
        if let Some(i) = self.slot(id) {
            let entry = self.take_entry(i);
            assert(entry.id@ == id@);
            self.put_entry(entry.id, entry.model, now);
            assert(self@.cached =~= old(self)@.cached.insert(
                id@,
                Cached { model: old(self)@.cached[id@].model, last_used: now as nat },
            ));
            return Lookup::Hit;
        }
        if index_of(&self.building, id).is_some() {
            return Lookup::InFlight;
        }
        if index_of(&self.builders, id).is_some() {
            self.mark_building(id);
            return Lookup::Build;
        }
        Lookup::Unknown
    }

    /// The cached model of `id`, if there is one.
    pub fn model(&self, id: &str) -> (out: Option<&M>)
        ensures
            match out {
                Some(m) => self@.handle(id@) == Some(*m),
                None => self@.handle(id@) is None,
            },
    {
        match self.slot(id) {
            Some(i) => Some(&self.cache[i].model),
            None => None,
        }
    }

    /// Takes in the model that was built for `id` at the time `now`. It is
    /// the model of `id` from now on, and the build is no longer under way.
    pub fn store(&mut self, id: &str, model: M, now: u64)
        requires
            old(self).wf(),
        ensures
            final(self).wf(),
            final(self)@ == old(self)@.store(id@, model, now as nat),
    {
        self.unmark_building(id);
        if let Some(i) = self.slot(id) {
            let _ = self.take_entry(i);
        }
        self.put_entry(String::from_str(id), model, now);
        assert(self@.cached =~= old(self)@.cached.insert(
            id@,
            Cached { model, last_used: now as nat },
        ));
    }

    /// Notes that the build for `id` has failed. Nothing is cached under
    /// `id` on that account, and the next request for it starts a new build.
    pub fn abandon(&mut self, id: &str)
        requires
            old(self).wf(),
        ensures
            final(self).wf(),
            final(self)@ == old(self)@.abandon(id@),
    {
        self.unmark_building(id);
    }

    /// Answers a timer for `id` that fires at the time `now`: drops the model
    /// and hands it out if it has not been used for the whole timeout, and
    /// does nothing otherwise.
    pub fn evict_idle(&mut self, id: &str, now: u64) -> (out: Option<M>)
        requires
            old(self).wf(),
        ensures
            final(self).wf(),
            final(self)@ == old(self)@.expire(id@, now as nat),
            match out {
                Some(m) => old(self)@.is_idle(id@, now as nat) && old(self)@.handle(id@) == Some(m),
                None => !old(self)@.is_idle(id@, now as nat),
            },
    {
        match self.slot(id) {
            Some(i) => {
                let used = self.cache[i].last_used;
                if now >= used && now - used >= self.timeout {
                    let entry = self.take_entry(i);
                    Some(entry.model)
                } else {
                    None
                }
            },
            None => None,
        }
    }

    /// Milliseconds without use after which a model is dropped.
    pub fn timeout(&self) -> (t: u64)
        ensures
            t == self@.timeout,
    {
        self.timeout
    }

    /// How many models are cached.
    pub fn cached_len(&self) -> (n: usize)
        requires
            self.wf(),
        ensures
            self@.cached.dom().finite(),
            n == self@.cached.dom().len(),
    {
        proof {
            lemma_cache_size(self.cache@);
        }
        self.cache.len()
    }
}

/// With one entry for each id, the cache holds as many ids as entries.
proof fn lemma_cache_size<M>(entries: Seq<CacheEntry<M>>)
    requires
        all_distinct(entry_ids(entries)),
    ensures
        cache_map(entries).dom().finite(),
        cache_map(entries).dom().len() == entries.len(),
    decreases entries.len(),
{
    let ids = entry_ids(entries);
    if entries.len() == 0 {
        assert(cache_map(entries).dom() =~= Set::<Seq<char>>::empty());
    } else {
        let last = entries.len() - 1;
        let fewer = entries.take(last);
        let ids_fewer = entry_ids(fewer);
        assert(ids_fewer =~= ids.take(last));
        assert(all_distinct(ids_fewer)) by {
            assert forall|i: int, j: int|
                0 <= i < ids_fewer.len() && 0 <= j < ids_fewer.len() && i != j implies ids_fewer[i]
                != ids_fewer[j] by {
                assert(ids_fewer[i] == ids[i]);
                assert(ids_fewer[j] == ids[j]);
            }
        }
        lemma_cache_size(fewer);
        assert(ids =~= ids_fewer.push(ids[last]));
        lemma_keys_push(ids_fewer, ids[last]);
        lemma_first_index(ids_fewer, ids[last]);
        assert(first_index(ids_fewer, ids[last]) is None) by {
            if first_index(ids_fewer, ids[last]) is Some {
                let i = first_index(ids_fewer, ids[last]).unwrap();
                assert(ids_fewer[i] == ids[i]);
            }
        }
        assert(cache_map(entries).dom() =~= cache_map(fewer).dom().insert(ids[last]));
    }
}

/// Two requests for the same cached id are served the same model: a hit
/// renews the time of last use and leaves the model as it is.
pub proof fn lemma_same_id_same_handle<M>(v: ManagerView<M>, id: Seq<char>, first: nat, second: nat)
    requires
        v.cached.contains_key(id),
    ensures
        v.outcome(id) == Lookup::Hit,
        v.get(id, first).outcome(id) == Lookup::Hit,
        v.get(id, first).handle(id) == v.handle(id),
        v.get(id, first).get(id, second).handle(id) == v.handle(id),
{
}

/// Once a model has been built and stored for an id, requests for that id
/// are hits and are served that model.
pub proof fn lemma_built_model_is_served<M>(
    v: ManagerView<M>,
    id: Seq<char>,
    model: M,
    built_at: nat,
    now: nat,
)
    ensures
        v.store(id, model, built_at).outcome(id) == Lookup::Hit,
        v.store(id, model, built_at).handle(id) == Some(model),
        v.store(id, model, built_at).get(id, now).handle(id) == Some(model),
{
}

/// Models built for two different ids are kept apart: each id is served the
/// model that was built for it, whichever was stored first.
pub proof fn lemma_ids_keep_their_own_models<M>(
    v: ManagerView<M>,
    a: Seq<char>,
    b: Seq<char>,
    model_a: M,
    model_b: M,
    at_a: nat,
    at_b: nat,
)
    requires
        a != b,
    ensures
        v.store(a, model_a, at_a).store(b, model_b, at_b).handle(a) == Some(model_a),
        v.store(a, model_a, at_a).store(b, model_b, at_b).handle(b) == Some(model_b),
        v.store(b, model_b, at_b).store(a, model_a, at_a).handle(a) == Some(model_a),
        v.store(b, model_b, at_b).store(a, model_a, at_a).handle(b) == Some(model_b),
{
}

/// Nothing that happens to one id touches what is cached under another.
pub proof fn lemma_other_ids_untouched<M>(
    v: ManagerView<M>,
    id: Seq<char>,
    other: Seq<char>,
    model: M,
    now: nat,
)
    requires
        id != other,
    ensures
        v.get(other, now).handle(id) == v.handle(id),
        v.store(other, model, now).handle(id) == v.handle(id),
        v.abandon(other).handle(id) == v.handle(id),
        v.expire(other, now).handle(id) == v.handle(id),
        v.get(other, now).outcome(id) == v.outcome(id),
        v.store(other, model, now).outcome(id) == v.outcome(id),
        v.abandon(other).outcome(id) == v.outcome(id),
        v.expire(other, now).outcome(id) == v.outcome(id),
{
}

/// A use wins over every timer that was started before it: after a hit at
/// `used_at`, a timer that fires before `used_at + timeout` drops nothing.
pub proof fn lemma_fresh_use_outlives_timer<M>(
    v: ManagerView<M>,
    id: Seq<char>,
    used_at: nat,
    fired_at: nat,
)
    requires
        v.cached.contains_key(id),
        fired_at < used_at + v.timeout,
    ensures
        v.get(id, used_at).expire(id, fired_at) == v.get(id, used_at),
        v.get(id, used_at).expire(id, fired_at).handle(id) == v.handle(id),
{
}

/// A timer that fires when the model has not been used for the whole
/// timeout drops it: the id is no longer cached, and the next request for
/// it is no hit.
pub proof fn lemma_idle_model_is_dropped<M>(v: ManagerView<M>, id: Seq<char>, now: nat)
    requires
        v.is_idle(id, now),
    ensures
        v.expire(id, now).handle(id) is None,
        v.expire(id, now).outcome(id) != Lookup::Hit,
        v.expire(id, now).cached == v.cached.remove(id),
{
}

/// A build that fails leaves no trace: nothing is cached under the id, and
/// the cache is what it was before the build was asked for.
pub proof fn lemma_failed_build_leaves_no_entry<M>(v: ManagerView<M>, id: Seq<char>, now: nat)
    requires
        v.outcome(id) == Lookup::Build,
    ensures
        v.get(id, now).abandon(id) == v,
        v.get(id, now).abandon(id).handle(id) is None,
{
    assert(v.building.insert(id).remove(id) =~= v.building);
}

/// While a build is under way nobody else is told to build: after the
/// request that started it, every further request for the id is told
/// `InFlight` and changes nothing, until the build is stored or abandoned.
pub proof fn lemma_single_flight<M>(v: ManagerView<M>, id: Seq<char>, now: nat, later: nat)
    requires
        v.outcome(id) == Lookup::Build,
    ensures
        v.get(id, now).outcome(id) == Lookup::InFlight,
        v.get(id, now).get(id, later) == v.get(id, now),
{
}

} // verus!
