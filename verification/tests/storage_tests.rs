//! Tests for the reference-counted keyed cache.

use collide2d::storage::{Storage, StorageError};

#[test]
fn add_get_has_drop_clear() {
    let mut s: Storage<u32> = Storage::new();
    let key = String::from("textures/grass");

    assert!(!s.has(&key));
    assert_eq!(s.get(&key), None);

    let h = s.add(&key, 7).unwrap();
    assert_eq!(*h, 7);
    assert!(s.has(&key));
    assert_eq!(s.get(&key).map(|r| *r), Some(7));

    // a second add under the same key is refused
    match s.add(&key, 9) {
        Err(StorageError::StorageOccupied(k)) => assert_eq!(k, key),
        _ => panic!("occupied key was not refused"),
    }
    assert_eq!(s.get(&key).map(|r| *r), Some(7));

    let dropped = s.drop(&key);
    assert_eq!(dropped.map(|r| *r), Some(7));
    assert!(!s.has(&key));
    assert_eq!(s.drop(&key), None);

    s.add(&String::from("a"), 1).unwrap();
    s.add(&String::from("b"), 2).unwrap();
    s.clear();
    assert!(!s.has(&String::from("a")));
    assert!(!s.has(&String::from("b")));
}

#[test]
fn load_runs_the_loader_only_on_a_miss() {
    let mut s: Storage<u32> = Storage::new();
    let key = String::from("maps/overworld");

    let first = s.load(&key, |_p: &String| Ok(11)).unwrap();
    assert_eq!(*first, 11);

    // a cached entry wins and the loader must not run at all
    let second = s.load(&key, |_p: &String| -> Result<u32, String> {
        panic!("loader ran for a cached key")
    }).unwrap();
    assert_eq!(*second, 11);

    // other keys load their own values
    let other = s.load(&String::from("maps/cave"), |_p: &String| Ok(42)).unwrap();
    assert_eq!(*other, 42);
    assert_eq!(s.get(&key).map(|r| *r), Some(11));
}

#[test]
fn load_reports_a_failing_loader() {
    let mut s: Storage<u32> = Storage::new();
    let key = String::from("maps/missing");

    let r = s.load(&key, |_p: &String| Err(String::from("no such map")));
    match r {
        Err(StorageError::Error(m)) => assert_eq!(m, "no such map"),
        _ => panic!("the loader's failure was not reported"),
    }
    // a failed load caches nothing
    assert!(!s.has(&key));
}
