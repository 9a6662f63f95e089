use practice::fetcher::{retrieve_source, DataSource};
use practice::grep::{DefaultStrategy, Pattern};
use practice::httpie::{render_body, KvPair, KvPairError};
use practice::thumber::cache::ImageCache;
use practice::thumber::{spec::Data, Resize, Spec, Watermark};

#[test]
fn kv_pair_is_read_up_to_the_next_equals() {
    let p = KvPair::try_from("name=tyr").unwrap();
    assert_eq!(p.k, "name");
    assert_eq!(p.v, "tyr");
    let p = KvPair::try_from("a=b=c").unwrap();
    assert_eq!((p.k.as_str(), p.v.as_str()), ("a", "b"));
    let p = KvPair::try_from("empty=").unwrap();
    assert_eq!((p.k.as_str(), p.v.as_str()), ("empty", ""));
    assert_eq!(KvPair::try_from("novalue").unwrap_err(), KvPairError::NoValue);
}

#[test]
fn json_bodies_are_pretty_printed() {
    let out = render_body(Some("application/json"), "{\"a\":1,\"b\":2}").unwrap();
    assert_eq!(out, "{\n  \"a\": 1,\n  \"b\": 2\n}");
    let out = render_body(Some("text/html"), "{\"a\":1}").unwrap();
    assert_eq!(out, "{\"a\":1}");
    assert_eq!(render_body(None, "plain").unwrap(), "plain");
}

#[test]
fn grep_cuts_lines_around_the_first_match() {
    let pattern = Pattern::new("wor.d").unwrap();
    let lines = vec!["hello world".to_string(), "nothing".to_string(), "a world, a word".to_string()];
    let found = DefaultStrategy.grep(&pattern, &lines);
    assert_eq!(found.len(), 2);
    assert_eq!(found[0].lineno, 0);
    assert_eq!(found[0].start, 6);
    assert_eq!(
        (found[0].before.as_str(), found[0].matched.as_str(), found[0].after.as_str()),
        ("hello ", "world", "")
    );
    assert_eq!(found[1].lineno, 2);
    assert_eq!(found[1].matched, "world");
    assert_eq!(found[1].after, ", a word");
    assert!(Pattern::new("(unclosed").is_err());
}

#[test]
fn grep_offsets_are_bytes() {
    let pattern = Pattern::new("b").unwrap();
    let found = DefaultStrategy.grep(&pattern, &vec!["☺ab".to_string()]);
    assert_eq!(found[0].start, 4);
    assert_eq!(found[0].before, "☺a");
}

#[test]
fn image_cache_gives_back_what_it_stored() {
    let mut cache = ImageCache::new(2);
    assert_eq!(cache.lookup("http://a/1.png"), None);
    cache.store("http://a/1.png", vec![1, 2, 3]);
    assert_eq!(cache.lookup("http://a/1.png"), Some(vec![1, 2, 3]));
    cache.store("http://a/2.png", vec![4]);
    cache.store("http://a/3.png", vec![5]);
    // the least recently used image went away
    assert_eq!(cache.lookup("http://a/1.png"), None);
    assert_eq!(cache.lookup("http://a/2.png"), Some(vec![4]));
    assert_eq!(cache.lookup("http://a/3.png"), Some(vec![5]));
    let mut none = ImageCache::new(0);
    none.store("x", vec![1]);
    assert_eq!(none.lookup("x"), None);
}

#[test]
fn image_specs_hold_their_transformations() {
    let s = Spec { data: Some(Data::Resize(Resize { width: 600, height: 800 })) };
    let w = Spec { data: Some(Data::Watermark(Watermark { x: 20, y: 20 })) };
    let spec = practice::thumber::ImageSpec { specs: vec![s.clone(), w] };
    assert_eq!(spec.specs[0], s);
}

#[test]
fn image_urls_are_percent_decoded() {
    assert_eq!(practice::thumber::image_url("http%3A%2F%2Fa.com%2Fx.png"), "http://a.com/x.png");
    assert_eq!(practice::thumber::image_url("plain"), "plain");
    assert_eq!(practice::thumber::image_url("bad%FF"), "bad\u{FFFD}");
}

#[test]
fn sources_pick_their_fetcher() {
    assert!(matches!(retrieve_source("https://example.com/a.csv"), DataSource::Net(f) if f.0 == "https://example.com/a.csv"));
    assert!(matches!(retrieve_source("/tmp/a.csv"), DataSource::File(f) if f.0 == "/tmp/a.csv"));
    assert!(matches!(retrieve_source("htt.csv"), DataSource::File(_)));
}

#[test]
fn framed_streams_keep_their_inner_stream() {
    let s: practice::kv::network::AsyncProstStream<Vec<u8>, u8, u16> = practice::kv::network::AsyncProstStream::new(vec![1, 2]);
    assert_eq!(s.inner, vec![1, 2]);
}

#[test]
fn lines_are_answered_with_their_hash() {
    let mut hasher = std::collections::hash_map::DefaultHasher::new();
    std::hash::Hasher::write(&mut hasher, "hello".as_bytes());
    assert_eq!(practice::hashing::hash_line("hello"), std::hash::Hasher::finish(&hasher));
    assert_eq!(practice::hashing::hash_line("hello"), practice::hashing::hash_line("hello"));
    assert_ne!(practice::hashing::hash_line("hello"), practice::hashing::hash_line("world"));
}

#[test]
fn content_is_read_as_csv() {
    match practice::loader::detect_content("a,b\n1,2\n".to_string()) {
        practice::loader::DataLoader::CsvLoader(c) => assert_eq!(c.0, "a,b\n1,2\n"),
    }
}

#[test]
fn serving_an_image_fetches_once_then_hits() {
    let mut cache = ImageCache::new(2);
    let url = match cache.begin("http%3A%2F%2Fa%2F1.png") {
        practice::thumber::cache::ImageStep::Fetch(u) => u,
        practice::thumber::cache::ImageStep::Cached(_) => panic!("nothing is cached yet"),
    };
    assert_eq!(url, "http://a/1.png");
    assert_eq!(cache.fetched(&url, vec![9, 8]), vec![9, 8]);
    match cache.begin("http%3A%2F%2Fa%2F1.png") {
        practice::thumber::cache::ImageStep::Cached(d) => assert_eq!(d, vec![9, 8]),
        practice::thumber::cache::ImageStep::Fetch(_) => panic!("the image was cached"),
    }
}

#[test]
fn a_hit_makes_an_image_the_most_recent() {
    let mut cache = ImageCache::new(2);
    cache.store("a", vec![1]);
    cache.store("b", vec![2]);
    // reading "a" makes "b" the least recently used
    assert_eq!(cache.lookup("a"), Some(vec![1]));
    cache.store("c", vec![3]);
    assert_eq!(cache.lookup("b"), None);
    assert_eq!(cache.lookup("a"), Some(vec![1]));
    assert_eq!(cache.lookup("c"), Some(vec![3]));
}
