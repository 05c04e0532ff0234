use amcli::artwork::Bitmap;
use amcli::cache::{ArtworkCache, CacheProbe};

fn bitmap(seed: u8) -> Bitmap {
    Bitmap { width: 2, height: 1, pixels: vec![seed, 1, 2, 255, 3, seed, 5, 128] }
}

fn hit(c: &mut ArtworkCache, key: &str) -> Option<Bitmap> {
    match c.get(key) {
        CacheProbe::Hit(b) => Some(b),
        CacheProbe::Miss(_) => None,
    }
}

#[test]
fn disk_path_is_sha256_of_key() {
    let c = ArtworkCache::new("/tmp/art".to_string(), 4);
    assert_eq!(
        c.disk_path("abc"),
        "/tmp/art/ba7816bf8f01cfea414140de5dae2223b00361a396177a9cb410ff61f20015ad.png"
    );
    let c = ArtworkCache::new("/tmp/art/".to_string(), 4);
    assert_eq!(
        c.disk_path("abc"),
        "/tmp/art/ba7816bf8f01cfea414140de5dae2223b00361a396177a9cb410ff61f20015ad.png"
    );
}

#[test]
fn distinct_keys_get_distinct_files() {
    let c = ArtworkCache::new("d".to_string(), 4);
    assert_ne!(c.disk_path("http://a/1.jpg"), c.disk_path("http://a/2.jpg"));
    assert_eq!(c.disk_path("http://a/1.jpg"), c.disk_path("http://a/1.jpg"));
}

#[test]
fn miss_names_the_file() {
    let mut c = ArtworkCache::new("d".to_string(), 4);
    match c.get("k") {
        CacheProbe::Miss(p) => assert_eq!(p, c.disk_path("k")),
        CacheProbe::Hit(_) => panic!("empty cache hit"),
    }
}

#[test]
fn insert_then_get_returns_same_bitmap() {
    let mut c = ArtworkCache::new("d".to_string(), 4);
    let path = c.insert("k".to_string(), bitmap(7));
    assert_eq!(path, c.disk_path("k"));
    assert_eq!(hit(&mut c, "k"), Some(bitmap(7)));
}

#[test]
fn disk_round_trip_survives_restart() {
    let mut c = ArtworkCache::new("d".to_string(), 4);
    let path = c.insert("k".to_string(), bitmap(9));
    assert_eq!(path, c.disk_path("k"));
    let bytes = amcli::cache::encode_for_disk(&bitmap(9)).expect("encodes");
    assert_eq!(&bytes[1..4], b"PNG");
    let mut fresh = ArtworkCache::new("d".to_string(), 4);
    assert!(hit(&mut fresh, "k").is_none());
    assert_eq!(fresh.load_from_disk("k", Some(bytes)), Some(bitmap(9)));
    assert_eq!(hit(&mut fresh, "k"), Some(bitmap(9)));
}

#[test]
fn unreadable_file_is_a_miss() {
    let mut c = ArtworkCache::new("d".to_string(), 4);
    assert_eq!(c.load_from_disk("k", Some(vec![1, 2, 3])), None);
    assert_eq!(c.load_from_disk("k", None), None);
    assert!(hit(&mut c, "k").is_none());
}

#[test]
fn full_cache_evicts_least_recent() {
    let mut c = ArtworkCache::new("d".to_string(), 2);
    c.insert("a".to_string(), bitmap(1));
    c.insert("b".to_string(), bitmap(2));
    c.insert("c".to_string(), bitmap(3));
    assert!(hit(&mut c, "a").is_none());
    assert_eq!(hit(&mut c, "b"), Some(bitmap(2)));
    assert_eq!(hit(&mut c, "c"), Some(bitmap(3)));
}

#[test]
fn access_promotes_entry() {
    let mut c = ArtworkCache::new("d".to_string(), 2);
    c.insert("a".to_string(), bitmap(1));
    c.insert("b".to_string(), bitmap(2));
    assert!(hit(&mut c, "a").is_some());
    c.insert("c".to_string(), bitmap(3));
    assert!(hit(&mut c, "b").is_none());
    assert_eq!(hit(&mut c, "a"), Some(bitmap(1)));
}

#[test]
fn reinsert_replaces_value() {
    let mut c = ArtworkCache::new("d".to_string(), 2);
    c.insert("a".to_string(), bitmap(1));
    c.insert("a".to_string(), bitmap(5));
    assert_eq!(hit(&mut c, "a"), Some(bitmap(5)));
}

#[test]
fn lock_free_pieces_match_cache() {
    let mut c = ArtworkCache::new("/tmp/art".to_string(), 2);
    assert_eq!(amcli::cache::cache_file_path("/tmp/art", "abc"), c.disk_path("abc"));
    assert!(c.lookup("k").is_none());
    c.store("k".to_string(), bitmap(4));
    assert_eq!(c.lookup("k"), Some(bitmap(4)));
    let bytes = amcli::cache::encode_for_disk(&bitmap(4)).unwrap();
    assert_eq!(amcli::cache::decode_artwork(&bytes), Some(bitmap(4)));
    assert!(amcli::cache::encode_for_disk(&Bitmap { width: 3, height: 3, pixels: vec![0; 4] }).is_none());
}

#[test]
fn accept_decoded_stores_only_bitmaps() {
    let mut c = ArtworkCache::new("d".to_string(), 2);
    assert_eq!(c.accept_decoded("k", None), None);
    assert!(hit(&mut c, "k").is_none());
    assert_eq!(c.accept_decoded("k", Some(bitmap(6))), Some(bitmap(6)));
    assert_eq!(hit(&mut c, "k"), Some(bitmap(6)));
}

#[test]
fn cache_file_stem_is_64_lower_hex() {
    let p = amcli::cache::cache_file_path("", "http://x/y.jpg");
    let stem = p.strip_suffix(".png").unwrap();
    assert_eq!(stem.len(), 64);
    assert!(stem.chars().all(|c| c.is_ascii_digit() || ('a'..='f').contains(&c)));
}
