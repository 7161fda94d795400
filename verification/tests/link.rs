use url_shortener::link::short_url;
use url_shortener::store::MappingStore;

#[test]
fn short_url_is_the_base_followed_by_the_id() {
    assert_eq!(short_url("http://localhost:7878/", "abc123"), "http://localhost:7878/abc123");
}

#[test]
fn short_url_adds_nothing_of_its_own() {
    assert_eq!(short_url("", "abc123"), "abc123");
    assert_eq!(short_url("http://localhost:7878/", ""), "http://localhost:7878/");
    assert_eq!(short_url("https://sho.rt", "x_-Y"), "https://sho.rtx_-Y");
}

#[test]
fn short_url_of_a_created_id_ends_in_that_id() {
    let mut store = MappingStore::default();
    let id = store.create("https://example.com/page").unwrap();
    let url = short_url("http://localhost:7878/", &id);
    assert_eq!(url.len(), "http://localhost:7878/".len() + 6);
    assert_eq!(url.strip_prefix("http://localhost:7878/"), Some(id.as_str()));
}
