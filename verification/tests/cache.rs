use riftbound_events::cache::{first_step, FetchError, FetchEvent, FetchStep, PageCache};

fn download(cache: &mut PageCache, url: &str, body: &str) -> FetchStep {
    let step = cache.begin(url);
    assert!(matches!(step, FetchStep::Download));
    cache.advance(url, step, FetchEvent::Downloaded(body.to_string()))
}

fn keep(cache: &mut PageCache, url: &str, body: &str) {
    let step = download(cache, url, body);
    let step = cache.advance(url, step, FetchEvent::Parsed);
    assert!(matches!(step, FetchStep::Done(kept) if kept == body));
}

#[test]
fn an_empty_cache_loads_everything() {
    let mut cache = PageCache::new();
    assert!(matches!(cache.begin("a"), FetchStep::Download));
}

#[test]
fn a_parsed_body_is_kept() {
    let mut cache = PageCache::new();
    keep(&mut cache, "a", "body of a");
    let step = cache.begin("a");
    assert!(matches!(&step, FetchStep::ParseCached(body) if body == "body of a"));
    let step = cache.advance("a", step, FetchEvent::Parsed);
    assert!(matches!(step, FetchStep::Done(body) if body == "body of a"));
    assert!(matches!(cache.begin("a"), FetchStep::ParseCached(_)));
}

#[test]
fn a_body_that_does_not_parse_is_not_kept() {
    let mut cache = PageCache::new();
    let step = download(&mut cache, "a", "<html>");
    assert!(matches!(&step, FetchStep::ParseDownloaded(body) if body == "<html>"));
    let step = cache.advance("a", step, FetchEvent::NotParsed("expected value".to_string()));
    assert!(matches!(
        step,
        FetchStep::Failed(FetchError::NotParsed(reason)) if reason == "expected value"
    ));
    assert!(matches!(cache.begin("a"), FetchStep::Download));
}

#[test]
fn a_kept_body_that_does_not_parse_is_loaded_anew() {
    let mut cache = PageCache::new();
    keep(&mut cache, "a", "old");
    keep(&mut cache, "b", "other");
    let step = cache.begin("a");
    let step = cache.advance("a", step, FetchEvent::NotParsed("no".to_string()));
    assert!(matches!(step, FetchStep::Download));
    assert!(matches!(cache.begin("a"), FetchStep::Download));
    assert!(matches!(cache.begin("b"), FetchStep::ParseCached(body) if body == "other"));
}

#[test]
fn a_new_body_replaces_the_old_one() {
    let mut cache = PageCache::new();
    keep(&mut cache, "a", "old");
    let step = cache.begin("a");
    let step = cache.advance("a", step, FetchEvent::NotParsed("no".to_string()));
    let step = cache.advance("a", step, FetchEvent::Downloaded("new".to_string()));
    let step = cache.advance("a", step, FetchEvent::Parsed);
    assert!(matches!(step, FetchStep::Done(body) if body == "new"));
    assert!(matches!(cache.begin("a"), FetchStep::ParseCached(body) if body == "new"));
}

#[test]
fn an_address_may_not_load() {
    let mut cache = PageCache::new();
    let step = cache.begin("a");
    let step = cache.advance("a", step, FetchEvent::NotLoaded);
    assert!(matches!(step, FetchStep::Failed(FetchError::NotLoaded)));
}

#[test]
fn a_reply_may_have_no_body() {
    let mut cache = PageCache::new();
    let step = cache.begin("a");
    let step = cache.advance("a", step, FetchEvent::NoBody);
    assert!(matches!(step, FetchStep::Failed(FetchError::NoBody)));
    assert!(matches!(cache.begin("a"), FetchStep::Download));
}

#[test]
fn a_fetch_starts_with_what_is_kept() {
    assert!(matches!(first_step(None), FetchStep::Download));
    assert!(matches!(
        first_step(Some("body".to_string())),
        FetchStep::ParseCached(body) if body == "body"
    ));
}

#[test]
fn a_second_fetch_loads_nothing() {
    let mut cache = PageCache::new();
    keep(&mut cache, "a", "body of a");
    keep(&mut cache, "b", "body of b");
    let step = cache.begin("c");
    cache.advance("c", step, FetchEvent::NotLoaded);
    for _ in 0..2 {
        let step = cache.begin("a");
        assert!(matches!(&step, FetchStep::ParseCached(body) if body == "body of a"));
        let step = cache.advance("a", step, FetchEvent::Parsed);
        assert!(matches!(step, FetchStep::Done(body) if body == "body of a"));
    }
    assert!(matches!(cache.begin("b"), FetchStep::ParseCached(body) if body == "body of b"));
}

#[test]
fn what_is_said_of_a_failed_fetch() {
    let url = "https://example.net/x";
    assert_eq!(
        FetchError::NotLoaded.message(url),
        "failed to load url: https://example.net/x"
    );
    assert_eq!(
        FetchError::NoBody.message(url),
        "could not read body of https://example.net/x"
    );
    assert_eq!(
        FetchError::NotParsed("expected value at line 1 column 1".to_string()).message(url),
        "expected value at line 1 column 1"
    );
}
