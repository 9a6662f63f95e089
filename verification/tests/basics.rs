use practice::counter::{gen_iter, to_iter, DefaultAggregate, MemoryMetricStorage, Metric};
use practice::lock::{goes_first, Store1};
use practice::routeguide::{Feature, Point};
use practice::text::{find_char, split};

#[test]
fn it_works() {
    let result = practice::abc::calc(2, 2);
    assert_eq!(result, 4);
}

#[test]
fn calc_adds_negatives() {
    assert_eq!(practice::abc::calc(-7, 3), -4);
    assert_eq!(practice::abc::calc(i32::MAX, 0), i32::MAX);
}

#[test]
fn gen_iter_works() {
    assert_eq!(gen_iter::<i32>(1..3).collect::<Vec<_>>(), vec![0, 0]);
}

#[test]
fn gen_iter_of_an_empty_range_is_empty() {
    assert_eq!(gen_iter::<u8>(5..2).count(), 0);
    assert_eq!(gen_iter::<String>(0..3).collect::<Vec<_>>(), vec![String::new(); 3]);
}

#[test]
fn to_iter_keeps_the_values() {
    assert_eq!(to_iter(Some(vec![3, 1, 2])).unwrap().collect::<Vec<_>>(), vec![3, 1, 2]);
    assert!(to_iter(None).is_none());
}

#[test]
fn metrics_are_grouped_and_windowed() {
    let mut store = MemoryMetricStorage::new();
    store.save(Metric::new("api_a", 10, 5));
    store.save(Metric::new("api_b", 20, 7));
    store.save(Metric::new("api_a", 30, 9));
    let all = store.load_all(0, i64::MAX);
    assert_eq!(all.len(), 2);
    assert_eq!(all[0].0, "api_a");
    assert_eq!(all[0].1.iter().map(|m| m.ts).collect::<Vec<_>>(), vec![10, 30]);
    assert_eq!(all[1].0, "api_b");
    let window = store.load_all(15, 30);
    assert_eq!(window[0].1.iter().map(|m| m.ts).collect::<Vec<_>>(), vec![30]);
    assert_eq!(window[1].1.len(), 1);
    let none = store.load_all(31, 40);
    assert!(none.iter().all(|(_, ms)| ms.is_empty()));
}

#[test]
fn aggregate_is_the_mean_rounded_toward_zero() {
    let r = DefaultAggregate::new(vec![Metric::new("a", 0, 10), Metric::new("a", 1, 25)]).aggregate();
    assert_eq!(r.avg, 17);
    let r = DefaultAggregate::new(vec![Metric::new("a", 0, -10), Metric::new("a", 1, -25)]).aggregate();
    assert_eq!(r.avg, -17);
}

#[test]
fn store1_saves_by_parity() {
    let mut store = Store1::default();
    for j in 0..6 {
        store.record(j);
    }
    store.save1(100);
    store.save2(101);
    assert!(goes_first(0));
    assert!(goes_first(-4));
    assert!(!goes_first(7));
    assert!(!goes_first(-3));
}

#[test]
fn points_and_features() {
    let p = Point::new(409146138, -746188906);
    assert_eq!(p.latitude, 409146138);
    assert_eq!(p.longitude, -746188906);
    let f = Feature::new(Some(p), "Berkshire Valley Management Area Trail");
    assert_eq!(f.location, Some(Point { latitude: 409146138, longitude: -746188906 }));
    assert_eq!(f.name, "Berkshire Valley Management Area Trail");
}

#[test]
fn split_at_the_first_delimiter() {
    assert_eq!(split("hello☺world", '☺'), Some(("hello", "world")));
    assert_eq!(split("a,b,c", ','), Some(("a", "b,c")));
    assert_eq!(split("abc", ','), None);
    assert_eq!(split(",", ','), Some(("", "")));
    assert_eq!(find_char("añb", 'b'), Some(2));
}
