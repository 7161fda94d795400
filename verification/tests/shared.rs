use std::collections::HashSet;
use std::sync::Arc;
use url_shortener::generator::IdGenerator;
use url_shortener::shared::SharedStore;
use url_shortener::store::StoreError;

#[test]
fn shared_create_then_resolve_returns_the_target() {
    let shared = SharedStore::default();
    let id = shared.create("https://example.com/page").unwrap();
    assert_eq!(id.len(), 6);
    assert!(id.chars().all(|c| c.is_ascii_alphanumeric() || c == '-' || c == '_'));
    assert_eq!(shared.resolve(&id), Ok(String::from("https://example.com/page")));
    assert_eq!(shared.resolve(&id), Ok(String::from("https://example.com/page")));
    if id != "zzzzzz" {
        assert_eq!(shared.resolve("zzzzzz"), Err(StoreError::NotFound));
    }
}

#[test]
fn shared_store_keeps_its_configuration() {
    let shared = SharedStore::new(IdGenerator::new(3, vec!['a', 'b']).unwrap(), 7);
    assert_eq!(shared.max_attempts(), 7);
    assert_eq!(shared.generator().length(), 3);
    assert_eq!(shared.generator().alphabet(), &vec!['a', 'b']);
    let shared = SharedStore::default();
    assert_eq!(shared.max_attempts(), 16);
    assert_eq!(shared.generator().length(), 6);
    assert_eq!(shared.generator().alphabet().len(), 64);
}

#[test]
fn shared_lookup_of_a_malformed_identifier_finds_nothing() {
    let shared = SharedStore::default();
    shared.create("https://example.com").unwrap();
    assert_eq!(shared.resolve(""), Err(StoreError::NotFound));
    assert_eq!(shared.resolve("abc"), Err(StoreError::NotFound));
    assert_eq!(shared.resolve("abc/de"), Err(StoreError::NotFound));
    assert_eq!(shared.resolve("abcdefg"), Err(StoreError::NotFound));
}

#[test]
fn shared_store_gives_up_when_every_candidate_is_taken() {
    let shared = SharedStore::new(IdGenerator::new(1, vec!['a']).unwrap(), 5);
    assert_eq!(shared.create("https://one.example"), Ok(String::from("a")));
    assert_eq!(shared.create("https://two.example"), Err(StoreError::GenerationExhausted));
    assert_eq!(shared.resolve("a"), Ok(String::from("https://one.example")));
}

#[test]
fn shared_store_without_attempts_creates_nothing() {
    let shared = SharedStore::new(IdGenerator::default(), 0);
    assert_eq!(shared.create("https://example.com"), Err(StoreError::GenerationExhausted));
    assert_eq!(shared.into_store().len(), 0);
}

#[test]
fn into_store_hands_out_every_mapping() {
    let shared = SharedStore::new(IdGenerator::new(4, vec!['a', 'b', 'c', 'd']).unwrap(), 50);
    let mut handed_out = Vec::new();
    for n in 0..20 {
        let target = format!("https://example.com/{}", n);
        handed_out.push((shared.create(&target).unwrap(), target));
    }
    let store = shared.into_store();
    assert_eq!(store.len(), 20);
    assert_eq!(store.max_attempts(), 50);
    assert_eq!(store.generator().length(), 4);
    for (id, target) in &handed_out {
        assert_eq!(store.resolve(id), Ok(target.clone()));
    }
}

fn create_on_workers(
    shared: &Arc<SharedStore>,
    workers: usize,
    per_worker: usize,
) -> Vec<(String, String)> {
    let runtime = tokio::runtime::Builder::new_multi_thread().worker_threads(4).build().unwrap();
    runtime.block_on(async {
        let mut running = Vec::new();
        for w in 0..workers {
            let shared = Arc::clone(shared);
            running.push(tokio::spawn(async move {
                let mut mine = Vec::new();
                for n in 0..per_worker {
                    let target = format!("https://example.com/{}/{}", w, n);
                    let id = shared.create(&target).unwrap();
                    assert_eq!(shared.resolve(&id), Ok(target.clone()));
                    mine.push((id, target));
                }
                mine
            }));
        }
        let mut handed_out = Vec::new();
        for worker in running {
            handed_out.extend(worker.await.unwrap());
        }
        handed_out
    })
}

#[test]
fn concurrent_creates_yield_distinct_resolvable_ids() {
    let shared = Arc::new(SharedStore::default());
    let handed_out = create_on_workers(&shared, 8, 100);
    assert_eq!(handed_out.len(), 800);
    let ids: HashSet<&String> = handed_out.iter().map(|(id, _)| id).collect();
    assert_eq!(ids.len(), 800);
    for (id, target) in &handed_out {
        assert_eq!(shared.resolve(id), Ok(target.clone()));
    }
    let store = Arc::try_unwrap(shared).ok().unwrap().into_store();
    assert_eq!(store.len(), 800);
}

#[test]
fn concurrent_creates_in_a_small_space_never_share_an_identifier() {
    let symbols = vec!['a', 'b', 'c', 'd'];
    let shared = Arc::new(SharedStore::new(IdGenerator::new(3, symbols).unwrap(), 10_000));
    let handed_out = create_on_workers(&shared, 4, 16);
    let ids: HashSet<&String> = handed_out.iter().map(|(id, _)| id).collect();
    assert_eq!(ids.len(), 64);
    for (id, target) in &handed_out {
        assert_eq!(shared.resolve(id), Ok(target.clone()));
    }
    assert_eq!(shared.create("https://example.com/full"), Err(StoreError::GenerationExhausted));
    let store = Arc::try_unwrap(shared).ok().unwrap().into_store();
    assert_eq!(store.len(), 64);
}
