//! Loading of tiles: URL configuration of a dynamic source and the decisions
//! taken between the cache, the network and the decoder.
use vstd::prelude::*;
use crate::tile_index::TileIndex;
use crate::url::{build_url, pairs_view, tile_url};
use crate::mvt::{MvtTile, tile_of, tile_view};

verus! {

/// Error that can occur when trying to load a vector tile.
#[derive(Debug, Clone, Copy, PartialEq, Eq, Structural)]
pub enum TileLoadError {
    /// Could not connect to the remote server.
    Network,
    /// Tile with the given index does not exist.
    DoesNotExist,
    /// Failed to decode vector tile from the binary data.
    Decoding,
}

/// How a byte fetch by the platform failed.
#[derive(Debug, Clone, Copy, PartialEq, Eq, Structural)]
pub enum FetchError {
    /// The server has no resource at that address.
    NotFound,
    /// Any other failure: connection, server error, I/O.
    Failed,
}

/// Where the retrieval of a tile's raw bytes stands. Each state other than
/// `Done` names the work that the caller performs next.
#[derive(Debug, PartialEq, Eq)]
pub enum RawLoad {
    /// Look the URL up in the persistent cache (absent cache: a miss).
    CheckingCache,
    /// Fetch the URL through the platform.
    Fetching,
    /// Write the fetched bytes to the cache.
    Storing(Vec<u8>),
    /// The retrieval is over, with these bytes or this error.
    Done(Result<Vec<u8>, TileLoadError>),
}

/// The outcome of the work that a [`RawLoad`] state asked for.
#[derive(Debug, PartialEq, Eq)]
pub enum LoadEvent {
    /// The cache answered, with the bytes stored under the URL if any.
    CacheAnswered(Option<Vec<u8>>),
    /// The platform's fetch completed.
    FetchAnswered(Result<Vec<u8>, FetchError>),
    /// The cache write completed; `true` when it succeeded.
    StoreAnswered(bool),
}

/// The state that follows `state` once `event` has come. An event that does
/// not answer the state's work leaves it unchanged; `Done` never changes.
pub open spec fn next_raw_load(
    offline_mode: bool,
    has_cache: bool,
    state: RawLoad,
    event: LoadEvent,
) -> RawLoad {
    match state {
        RawLoad::CheckingCache => match event {
            LoadEvent::CacheAnswered(cached) => match cached {
                Some(b) => RawLoad::Done(Ok(b)),
                None => if offline_mode {
                    RawLoad::Done(Err(TileLoadError::DoesNotExist))
                } else {
                    RawLoad::Fetching
                },
            },
            _ => state,
        },
        RawLoad::Fetching => match event {
            LoadEvent::FetchAnswered(fetched) => match fetched {
                Ok(b) => if has_cache {
                    RawLoad::Storing(b)
                } else {
                    RawLoad::Done(Ok(b))
                },
                Err(FetchError::NotFound) => RawLoad::Done(Err(TileLoadError::DoesNotExist)),
                Err(FetchError::Failed) => RawLoad::Done(Err(TileLoadError::Network)),
            },
            _ => state,
        },
        RawLoad::Storing(b) => match event {
            LoadEvent::StoreAnswered(_) => RawLoad::Done(Ok(b)),
            _ => state,
        },
        RawLoad::Done(_) => state,
    }
}

/// The state reached from `state` after the events, in order.
pub open spec fn run_raw_load(
    offline_mode: bool,
    has_cache: bool,
    state: RawLoad,
    events: Seq<LoadEvent>,
) -> RawLoad
    decreases events.len(),
{
    if events.len() == 0 {
        state
    } else {
        run_raw_load(
            offline_mode,
            has_cache,
            next_raw_load(offline_mode, has_cache, state, events[0]),
            events.drop_first(),
        )
    }
}

/// Advances the retrieval of a tile's bytes by one answered piece of work.
/// A cache hit ends it with the cached bytes; a miss ends it with
/// `DoesNotExist` offline and asks for a fetch online; a fetch that found
/// nothing gives `DoesNotExist`, any other failed fetch `Network`; fetched
/// bytes are offered to the cache when there is one, and the load returns
/// them whatever the cache write answered.
pub fn raw_load_step(offline_mode: bool, has_cache: bool, state: RawLoad, event: LoadEvent) -> (r:
    RawLoad)
    ensures
        r == next_raw_load(offline_mode, has_cache, state, event),
{
    match state {
        RawLoad::CheckingCache => match event {
            LoadEvent::CacheAnswered(cached) => match cached {
                Some(b) => RawLoad::Done(Ok(b)),
                None => if offline_mode {
                    RawLoad::Done(Err(TileLoadError::DoesNotExist))
                } else {
                    RawLoad::Fetching
                },
            },
            _ => RawLoad::CheckingCache,
        },
        RawLoad::Fetching => match event {
            LoadEvent::FetchAnswered(fetched) => match fetched {
                Ok(b) => if has_cache {
                    RawLoad::Storing(b)
                } else {
                    RawLoad::Done(Ok(b))
                },
                Err(FetchError::NotFound) => RawLoad::Done(Err(TileLoadError::DoesNotExist)),
                Err(FetchError::Failed) => RawLoad::Done(Err(TileLoadError::Network)),
            },
            _ => RawLoad::Fetching,
        },
        RawLoad::Storing(b) => match event {
            LoadEvent::StoreAnswered(_) => RawLoad::Done(Ok(b)),
            _ => RawLoad::Storing(b),
        },
        RawLoad::Done(res) => RawLoad::Done(res),
    }
}

/// A finished retrieval stays finished, whatever comes after.
pub proof fn lemma_done_is_final(
    offline_mode: bool,
    has_cache: bool,
    result: Result<Vec<u8>, TileLoadError>,
    events: Seq<LoadEvent>,
)
    ensures
        run_raw_load(offline_mode, has_cache, RawLoad::Done(result), events) == RawLoad::Done(
            result,
        ),
    decreases events.len(),
{
    if events.len() > 0 {
        lemma_done_is_final(offline_mode, has_cache, result, events.drop_first());
    }
}

/// A cache hit ends the retrieval with the cached bytes: after it, whatever
/// events follow, no state ever asks for a fetch.
pub proof fn lemma_cache_hit_never_fetches(
    offline_mode: bool,
    has_cache: bool,
    cached: Vec<u8>,
    later: Seq<LoadEvent>,
)
    ensures
        forall|k: int|
            0 <= k <= later.len() ==> #[trigger] run_raw_load(
                offline_mode,
                has_cache,
                RawLoad::CheckingCache,
                seq![LoadEvent::CacheAnswered(Some(cached))] + later.take(k),
            ) == RawLoad::Done(Ok(cached)),
{
    assert forall|k: int| 0 <= k <= later.len() implies #[trigger] run_raw_load(
        offline_mode,
        has_cache,
        RawLoad::CheckingCache,
        seq![LoadEvent::CacheAnswered(Some(cached))] + later.take(k),
    ) == RawLoad::Done(Ok(cached)) by {
        let evs = seq![LoadEvent::CacheAnswered(Some(cached))] + later.take(k);
        assert(evs.drop_first() =~= later.take(k));
        lemma_done_is_final(offline_mode, has_cache, Ok(cached), later.take(k));
    }
}

/// Offline, a cache miss ends the retrieval with `DoesNotExist` at once,
/// without a fetch.
pub proof fn lemma_offline_miss_does_not_exist(has_cache: bool)
    ensures
        next_raw_load(true, has_cache, RawLoad::CheckingCache, LoadEvent::CacheAnswered(None))
            == RawLoad::Done(Err(TileLoadError::DoesNotExist)),
{
}

/// Whether writing fetched bytes to the cache succeeds or fails, the
/// retrieval ends with those bytes.
pub proof fn lemma_store_outcome_irrelevant(
    offline_mode: bool,
    has_cache: bool,
    fetched: Vec<u8>,
    stored: bool,
)
    ensures
        next_raw_load(
            offline_mode,
            has_cache,
            RawLoad::Storing(fetched),
            LoadEvent::StoreAnswered(stored),
        ) == RawLoad::Done(Ok(fetched)),
        next_raw_load(
            offline_mode,
            has_cache,
            RawLoad::Storing(fetched),
            LoadEvent::StoreAnswered(stored),
        ) == next_raw_load(
            offline_mode,
            has_cache,
            RawLoad::Storing(fetched),
            LoadEvent::StoreAnswered(!stored),
        ),
{
}

/// The parameters left once every pair whose key is `key` is taken out.
pub open spec fn without_key(
    ps: Seq<(Seq<char>, Seq<char>)>,
    key: Seq<char>,
) -> Seq<(Seq<char>, Seq<char>)> {
    ps.filter(|p: (Seq<char>, Seq<char>)| p.0 != key)
}

/// The pairs whose key is `key`.
pub open spec fn with_key(
    ps: Seq<(Seq<char>, Seq<char>)>,
    key: Seq<char>,
) -> Seq<(Seq<char>, Seq<char>)> {
    ps.filter(|p: (Seq<char>, Seq<char>)| p.0 == key)
}

/// The URL configuration of a vector tile source whose template and query
/// parameters the host application may change at run time.
///
/// Each load computes its URL from the configuration as it then stands.
pub struct DynamicUrlVtLoader {
    url_template: String,
    parameters: Vec<(String, String)>,
    offline_mode: bool,
}

impl DynamicUrlVtLoader {
    /// The URL template, with its `{z}`, `{x}`, `{y}` placeholders.
    pub closed spec fn template(&self) -> Seq<char> {
        self.url_template@
    }

    /// The query parameters, in the order they were given.
    pub closed spec fn params(&self) -> Seq<(Seq<char>, Seq<char>)> {
        pairs_view(self.parameters@)
    }

    /// Whether a cache miss ends the load instead of going to the network.
    pub closed spec fn is_offline(&self) -> bool {
        self.offline_mode
    }

    /// Creates a loader for the template, with no parameters.
    pub fn new(url_template: String, offline_mode: bool) -> (r: DynamicUrlVtLoader)
        ensures
            r.template() == url_template@,
            r.params() == Seq::<(Seq<char>, Seq<char>)>::empty(),
            r.is_offline() == offline_mode,
    {
        let r = DynamicUrlVtLoader { url_template, parameters: Vec::new(), offline_mode };
        assert(r.params() =~= Seq::<(Seq<char>, Seq<char>)>::empty());
        r
    }

    /// Whether a cache miss ends the load instead of going to the network.
    pub fn offline_mode(&self) -> (r: bool)
        ensures
            r == self.is_offline(),
    {
        self.offline_mode
    }

    /// Replaces the URL template used for generating tile URLs.
    pub fn update_url_template(&mut self, new_template: String)
        ensures
            final(self).template() == new_template@,
            final(self).params() == old(self).params(),
            final(self).is_offline() == old(self).is_offline(),
    {
        self.url_template = new_template;
    }

    /// Replaces the whole list of query parameters.
    pub fn update_parameters(&mut self, new_parameters: Vec<(String, String)>)
        ensures
            final(self).params() == pairs_view(new_parameters@),
            final(self).template() == old(self).template(),
            final(self).is_offline() == old(self).is_offline(),
    {
        self.parameters = new_parameters;
    }

    /// Appends one parameter after the existing ones.
    pub fn add_parameter(&mut self, key: String, value: String)
        ensures
            final(self).params() == old(self).params().push((key@, value@)),
            final(self).template() == old(self).template(),
            final(self).is_offline() == old(self).is_offline(),
    {
        self.parameters.push((key, value));
        assert(self.params() =~= old(self).params().push((key@, value@)));
    }

    /// Removes every parameter whose key is `key`, keeping the others in order.
    pub fn remove_parameter(&mut self, key: &str)
        ensures
            final(self).params() == without_key(old(self).params(), key@),
            final(self).template() == old(self).template(),
            final(self).is_offline() == old(self).is_offline(),
    {
        let key_string = String::from_str(key);
        let ghost pred = |p: (Seq<char>, Seq<char>)| p.0 != key@;
        let ghost ps = old(self).params();
        let mut kept: Vec<(String, String)> = Vec::new();
        let mut old_params: Vec<(String, String)> = Vec::new();
        std::mem::swap(&mut old_params, &mut self.parameters);
        assert(pairs_view(old_params@) == ps);
        let mut i: usize = 0;
        proof {
            reveal(Seq::filter);
            assert(ps.take(0) =~= Seq::<(Seq<char>, Seq<char>)>::empty());
            assert(pairs_view(kept@) =~= ps.take(0).filter(pred));
        }
        while i < old_params.len()
            invariant
                i <= old_params.len(),
                pairs_view(old_params@) == ps,
                key_string@ == key@,
                pred == (|p: (Seq<char>, Seq<char>)| p.0 != key@),
                pairs_view(kept@) == ps.take(i as int).filter(pred),
            decreases old_params.len() - i,
        {
            proof {
                reveal(Seq::filter);
                assert(ps.take(i + 1).drop_last() =~= ps.take(i as int));
                assert(ps.take(i + 1).last() == ps[i as int]);
            }
            if old_params[i].0 != key_string {
                let entry = (old_params[i].0.clone(), old_params[i].1.clone());
                kept.push(entry);
                assert(pairs_view(kept@) =~= ps.take(i + 1).filter(pred));
            } else {
                assert(pairs_view(kept@) =~= ps.take(i + 1).filter(pred));
            }
            i = i + 1;
        }
        assert(ps.take(old_params.len() as int) =~= ps);
        self.parameters = kept;
    }

    /// Removes all parameters.
    pub fn clear_parameters(&mut self)
        ensures
            final(self).params() == Seq::<(Seq<char>, Seq<char>)>::empty(),
            final(self).template() == old(self).template(),
            final(self).is_offline() == old(self).is_offline(),
    {
        self.parameters.clear();
        assert(self.params() =~= Seq::<(Seq<char>, Seq<char>)>::empty());
    }

    /// The URL of the tile at `index` under the current template and parameters.
    pub fn generate_url(&self, index: &TileIndex) -> (r: String)
        ensures
            r@ == tile_url(self.template(), self.params(), *index),
    {
        build_url(self.url_template.as_str(), &self.parameters, index)
    }
}

/// Taking a key out removes every pair with that key and keeps, in order,
/// every pair with another key; clearing leaves no pair at all.
pub proof fn lemma_remove_parameter(ps: Seq<(Seq<char>, Seq<char>)>, key: Seq<char>)
    ensures
        forall|i: int|
            0 <= i < without_key(ps, key).len() ==> (#[trigger] without_key(ps, key)[i]).0 != key,
        forall|i: int|
            0 <= i < ps.len() && ps[i].0 != key ==> #[trigger] without_key(ps, key).contains(ps[i]),
        without_key(ps, key).len() == ps.len() - with_key(ps, key).len(),
{
    broadcast use vstd::seq_lib::group_filter_ensures;
    lemma_filter_complement(ps, key);
}

proof fn lemma_filter_complement(ps: Seq<(Seq<char>, Seq<char>)>, key: Seq<char>)
    ensures
        without_key(ps, key).len() + with_key(ps, key).len() == ps.len(),
    decreases ps.len(),
{
    reveal(Seq::filter);
    if ps.len() > 0 {
        lemma_filter_complement(ps.drop_last(), key);
        assert(without_key(ps, key) == without_key(ps.drop_last(), key) || without_key(ps, key)
            == without_key(ps.drop_last(), key).push(ps.last()));
    }
}

/// The outcome of a load once its bytes were retrieved: the retrieval's
/// error as it is, else the decoded tile, or `Decoding` when the bytes are
/// not a well-formed vector tile.
pub fn decode_loaded(raw: Result<Vec<u8>, TileLoadError>) -> (r: Result<MvtTile, TileLoadError>)
    ensures
        match raw {
            Err(e) => r == Err::<MvtTile, TileLoadError>(e),
            Ok(b) => match tile_of(b@) {
                Some(t) => r is Ok && tile_view(r->Ok_0) == t,
                None => r == Err::<MvtTile, TileLoadError>(TileLoadError::Decoding),
            },
        },
{
    match raw {
        Err(e) => Err(e),
        Ok(b) => match MvtTile::decode(b.as_slice()) {
            Ok(t) => Ok(t),
            Err(_) => Err(TileLoadError::Decoding),
        },
    }
}

} // verus!
