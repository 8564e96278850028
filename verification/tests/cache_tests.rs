use std::collections::HashMap;
use tarnish::cache::{fingerprint, retrieve_once, Cache, RetrieveAction, RetrieveStep};
use tarnish::TroveError;

/// Drives one retrieval against an in-memory filesystem, counting fetches.
fn drive(
    cache: &Cache,
    fs: &mut HashMap<String, Vec<u8>>,
    response: Option<(bool, Vec<u8>)>,
    key: &str,
    fetches: &mut u32,
) -> Result<Vec<u8>, TroveError> {
    let (session, action) = cache.retrieve(key);
    let checked = match action {
        RetrieveAction::CheckExists { path } => path,
        _ => panic!("a retrieval must begin with an existence check"),
    };
    let exists = fs.contains_key(&checked);
    let (session, action) = session.lookup_done(exists);
    match action {
        RetrieveAction::ReadFile { path } => session.read_done(fs.get(&path).cloned()),
        RetrieveAction::FetchUrl { url } => {
            assert_eq!(url, key);
            *fetches += 1;
            match session.fetch_done(response) {
                RetrieveStep::Done { result } => result,
                RetrieveStep::Next { session, action } => {
                    let (sidecar_path, sidecar_data) = match action {
                        RetrieveAction::WriteFile { path, data } => (path, data),
                        _ => panic!("a successful fetch is followed by the sidecar write"),
                    };
                    fs.insert(sidecar_path, sidecar_data);
                    match session.sidecar_write_done(true) {
                        RetrieveStep::Done { result } => result,
                        RetrieveStep::Next { session, action } => {
                            let (payload_path, payload_data) = match action {
                                RetrieveAction::WriteFile { path, data } => (path, data),
                                _ => panic!("the sidecar write is followed by the payload write"),
                            };
                            fs.insert(payload_path, payload_data.clone());
                            session.payload_write_done(true, payload_data)
                        },
                    }
                },
            }
        },
        _ => panic!("a lookup is followed by a read or a fetch"),
    }
}

#[test]
fn miss_fetches_and_persists_both_artifacts() {
    let cache = Cache::new("store".to_string());
    let mut fs: HashMap<String, Vec<u8>> = HashMap::new();
    let mut fetches = 0;
    let key = "https://example.com/page";
    let body = b"the payload".to_vec();
    let got = drive(&cache, &mut fs, Some((true, body.clone())), key, &mut fetches).unwrap();
    assert_eq!(got, body);
    assert_eq!(fetches, 1);
    let digest = fingerprint(key);
    let payload_path = format!("store/{}", digest);
    let sidecar_path = format!("store/{}.url", digest);
    assert_eq!(fs.get(&payload_path), Some(&body));
    assert_eq!(fs.get(&sidecar_path), Some(&key.as_bytes().to_vec()));
}

#[test]
fn second_retrieve_is_a_hit_with_identical_bytes() {
    let cache = Cache::new("store".to_string());
    let mut fs: HashMap<String, Vec<u8>> = HashMap::new();
    let mut fetches = 0;
    let key = "https://example.com/page";
    let body = b"cached once".to_vec();
    let first = drive(&cache, &mut fs, Some((true, body.clone())), key, &mut fetches).unwrap();
    let second = drive(&cache, &mut fs, None, key, &mut fetches).unwrap();
    assert_eq!(first, second);
    assert_eq!(fetches, 1);
}

#[test]
fn fresh_cache_at_same_root_hits_without_network() {
    let first = Cache::new("store".to_string());
    let mut fs: HashMap<String, Vec<u8>> = HashMap::new();
    let mut fetches = 0;
    let key = "https://example.com/page";
    let body = vec![1u8, 2, 3];
    drive(&first, &mut fs, Some((true, body.clone())), key, &mut fetches).unwrap();
    let fresh = Cache::new("store".to_string());
    let again = drive(&fresh, &mut fs, None, key, &mut fetches).unwrap();
    assert_eq!(again, body);
    assert_eq!(fetches, 1);
}

#[test]
fn transport_failure_is_an_error() {
    let cache = Cache::new("store".to_string());
    let mut fs = HashMap::new();
    let mut fetches = 0;
    let r = drive(&cache, &mut fs, None, "https://example.com/x", &mut fetches);
    assert_eq!(r, Err(TroveError::Network));
    assert!(fs.is_empty());
}

#[test]
fn non_success_status_is_an_error() {
    let cache = Cache::new("store".to_string());
    let mut fs = HashMap::new();
    let mut fetches = 0;
    let r = drive(
        &cache,
        &mut fs,
        Some((false, b"not found".to_vec())),
        "https://example.com/x",
        &mut fetches,
    );
    assert_eq!(r, Err(TroveError::HttpStatus));
    assert!(fs.is_empty());
}

#[test]
fn failed_write_fails_the_retrieval() {
    let cache = Cache::new("store".to_string());
    let (session, _) = cache.retrieve("https://example.com/x");
    let (session, _) = session.lookup_done(false);
    match session.fetch_done(Some((true, b"body".to_vec()))) {
        RetrieveStep::Next { session, action: _ } => match session.sidecar_write_done(false) {
            RetrieveStep::Done { result } => assert_eq!(result, Err(TroveError::Io)),
            _ => panic!("a failed write must end the retrieval"),
        },
        _ => panic!("a successful fetch continues the retrieval"),
    }
}

#[test]
fn retrieve_once_reports_hit_and_miss() {
    let cache = Cache::new("store".to_string());
    let body = b"once".to_vec();
    let (r, fetched) = retrieve_once(
        &cache,
        "https://example.com/p",
        None,
        Some((true, body.clone())),
        true,
        true,
    );
    assert_eq!(r.unwrap(), body);
    assert!(fetched);
    let (r, fetched) = retrieve_once(
        &cache,
        "https://example.com/p",
        Some(body.clone()),
        None,
        true,
        true,
    );
    assert_eq!(r.unwrap(), body);
    assert!(!fetched);
}

#[test]
fn retrieve_once_surfaces_every_failure() {
    let cache = Cache::new("store".to_string());
    let key = "https://example.com/p";
    let (r, _) = retrieve_once(&cache, key, None, None, true, true);
    assert_eq!(r, Err(TroveError::Network));
    let (r, _) = retrieve_once(&cache, key, None, Some((false, vec![])), true, true);
    assert_eq!(r, Err(TroveError::HttpStatus));
    let (r, _) = retrieve_once(&cache, key, None, Some((true, vec![7])), false, true);
    assert_eq!(r, Err(TroveError::Io));
    let (r, _) = retrieve_once(&cache, key, None, Some((true, vec![7])), true, false);
    assert_eq!(r, Err(TroveError::Io));
}

#[test]
fn paths_are_derived_from_root_and_digest() {
    let cache = Cache::new("store".to_string());
    let key = "https://example.com/p";
    let digest = fingerprint(key);
    assert_eq!(cache.payload_path(key), format!("store/{}", digest));
    assert_eq!(cache.sidecar_path(key), format!("store/{}.url", digest));
}
