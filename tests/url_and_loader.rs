use galileo_core::loader::{
    decode_loaded, raw_load_step, DynamicUrlVtLoader, FetchError, LoadEvent, RawLoad, TileLoadError,
};
use galileo_core::tile_index::TileIndex;
use galileo_core::url::{build_query, build_url, substitute_placeholders};

fn pairs(v: &[(&str, &str)]) -> Vec<(String, String)> {
    v.iter().map(|(k, val)| (k.to_string(), val.to_string())).collect()
}

#[test]
fn placeholders_are_replaced_by_decimal_values() {
    let url = substitute_placeholders("https://t.example/{z}/{x}/{y}.pbf", &TileIndex::new(5, 3, 12));
    assert_eq!(url, "https://t.example/12/5/3.pbf");
}

#[test]
fn negative_and_repeated_placeholders() {
    let url = substitute_placeholders("{x}-{x}/{y}/{z}{z}", &TileIndex::new(-17, 0, 7));
    assert_eq!(url, "-17--17/0/77");
    let url = substitute_placeholders("{{z}}/{q}/{x", &TileIndex::new(1, 2, 3));
    assert_eq!(url, "{3}/{q}/{x");
}

#[test]
fn extreme_coordinates() {
    let url = substitute_placeholders("{z}/{x}/{y}", &TileIndex::new(i32::MIN, i32::MAX, u32::MAX));
    assert_eq!(url, "4294967295/-2147483648/2147483647");
}

#[test]
fn query_keeps_order_and_encodes() {
    let q = build_query(&pairs(&[("api key", "a&b=c"), ("style", "dark"), ("style", "ünï")]));
    assert_eq!(q, "api%20key=a%26b%3Dc&style=dark&style=%C3%BCn%C3%AF");
    assert_eq!(build_query(&pairs(&[("a-b_c.d~", "Z9")])), "a-b_c.d~=Z9");
}

#[test]
fn url_without_parameters_has_no_query() {
    let url = build_url("https://t/{z}/{x}/{y}", &Vec::new(), &TileIndex::new(1, 2, 3));
    assert_eq!(url, "https://t/3/1/2");
    let url = build_url("https://t/{z}", &pairs(&[("k", "v")]), &TileIndex::new(1, 2, 3));
    assert_eq!(url, "https://t/3?k=v");
}

#[test]
fn dynamic_loader_parameters() {
    let mut loader = DynamicUrlVtLoader::new("https://v/{z}/{x}/{y}.pbf".to_string(), false);
    let index = TileIndex::new(5, 3, 3);
    assert_eq!(loader.generate_url(&index), "https://v/3/5/3.pbf");
    loader.add_parameter("api_key".to_string(), "k1".to_string());
    loader.add_parameter("style".to_string(), "dark".to_string());
    loader.add_parameter("api_key".to_string(), "k2".to_string());
    assert_eq!(loader.generate_url(&index), "https://v/3/5/3.pbf?api_key=k1&style=dark&api_key=k2");
    loader.remove_parameter("api_key");
    assert_eq!(loader.generate_url(&index), "https://v/3/5/3.pbf?style=dark");
    loader.remove_parameter("missing");
    assert_eq!(loader.generate_url(&index), "https://v/3/5/3.pbf?style=dark");
    loader.update_url_template("https://w/{z}-{x}-{y}".to_string());
    assert_eq!(loader.generate_url(&index), "https://w/3-5-3?style=dark");
    loader.update_parameters(pairs(&[("a", "1"), ("b", "2")]));
    assert_eq!(loader.generate_url(&index), "https://w/3-5-3?a=1&b=2");
    loader.clear_parameters();
    assert_eq!(loader.generate_url(&index), "https://w/3-5-3");
    assert!(!loader.offline_mode());
}

#[test]
fn clearing_many_parameters() {
    let mut loader = DynamicUrlVtLoader::new("u".to_string(), true);
    for i in 0..10 {
        loader.add_parameter(format!("k{i}"), "v".to_string());
    }
    loader.clear_parameters();
    assert_eq!(loader.generate_url(&TileIndex::new(0, 0, 0)), "u");
    assert!(loader.offline_mode());
}

/// Drives one retrieval, answering each requested piece of work from the
/// given cache, fetch and store outcomes; returns the result and how many
/// fetches were made.
fn drive(
    offline: bool,
    cache: Option<&Vec<(String, Vec<u8>)>>,
    url: &str,
    fetch: Result<Vec<u8>, FetchError>,
    store_ok: bool,
) -> (Result<Vec<u8>, TileLoadError>, usize) {
    let mut state = RawLoad::CheckingCache;
    let mut fetches = 0;
    loop {
        state = match state {
            RawLoad::CheckingCache => {
                let hit = cache.and_then(|c| c.iter().find(|(k, _)| k == url).map(|(_, v)| v.clone()));
                raw_load_step(offline, cache.is_some(), RawLoad::CheckingCache, LoadEvent::CacheAnswered(hit))
            }
            RawLoad::Fetching => {
                fetches += 1;
                raw_load_step(offline, cache.is_some(), RawLoad::Fetching, LoadEvent::FetchAnswered(fetch.clone()))
            }
            RawLoad::Storing(b) => {
                raw_load_step(offline, cache.is_some(), RawLoad::Storing(b), LoadEvent::StoreAnswered(store_ok))
            }
            RawLoad::Done(r) => return (r, fetches),
        }
    }
}

#[test]
fn cache_hit_makes_no_fetch() {
    let cache = vec![("https://t/1/2/3".to_string(), vec![7u8, 8, 9])];
    for _ in 0..3 {
        let (r, fetches) = drive(false, Some(&cache), "https://t/1/2/3", Ok(vec![1]), true);
        assert_eq!(r, Ok(vec![7, 8, 9]));
        assert_eq!(fetches, 0);
    }
}

#[test]
fn offline_miss_does_not_exist_without_fetch() {
    let cache = vec![("other".to_string(), vec![1u8])];
    let (r, fetches) = drive(true, Some(&cache), "https://t/1/2/3", Ok(vec![1]), true);
    assert_eq!(r, Err(TileLoadError::DoesNotExist));
    assert_eq!(fetches, 0);
    let (r, fetches) = drive(true, None, "https://t/1/2/3", Ok(vec![1]), true);
    assert_eq!(r, Err(TileLoadError::DoesNotExist));
    assert_eq!(fetches, 0);
}

#[test]
fn cache_write_failure_keeps_result() {
    let cache = Vec::new();
    let (ok, n1) = drive(false, Some(&cache), "u", Ok(vec![4, 5]), true);
    let (failed, n2) = drive(false, Some(&cache), "u", Ok(vec![4, 5]), false);
    assert_eq!(ok, Ok(vec![4, 5]));
    assert_eq!(failed, ok);
    assert_eq!((n1, n2), (1, 1));
}

#[test]
fn fetch_errors_are_mapped() {
    let (r, _) = drive(false, None, "u", Err(FetchError::NotFound), true);
    assert_eq!(r, Err(TileLoadError::DoesNotExist));
    let (r, _) = drive(false, None, "u", Err(FetchError::Failed), true);
    assert_eq!(r, Err(TileLoadError::Network));
    let (r, n) = drive(false, None, "u", Ok(vec![3]), false);
    assert_eq!(r, Ok(vec![3]));
    assert_eq!(n, 1);
}

#[test]
fn unrelated_events_leave_state() {
    assert_eq!(
        raw_load_step(false, true, RawLoad::Fetching, LoadEvent::StoreAnswered(true)),
        RawLoad::Fetching
    );
    assert_eq!(
        raw_load_step(false, true, RawLoad::Done(Ok(vec![1])), LoadEvent::CacheAnswered(None)),
        RawLoad::Done(Ok(vec![1]))
    );
    assert_eq!(
        raw_load_step(false, true, RawLoad::CheckingCache, LoadEvent::CacheAnswered(None)),
        RawLoad::Fetching
    );
}

#[test]
fn decode_loaded_maps_errors() {
    assert_eq!(decode_loaded(Err(TileLoadError::Network)), Err(TileLoadError::Network));
    assert_eq!(decode_loaded(Ok(vec![0xFF])), Err(TileLoadError::Decoding));
    let empty = decode_loaded(Ok(Vec::new())).unwrap();
    assert!(empty.layers.is_empty());
}
