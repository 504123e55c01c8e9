use wayland_proxy::clipboard::{is_cacheable_mime, ClipboardCache, TeeCollector, MAX_CACHED_BYTES};

#[test]
fn only_small_texts_and_images_are_cacheable() {
    for mime in
        ["text/plain", "text/plain;charset=utf-8", "UTF8_STRING", "STRING", "TEXT", "image/png"]
    {
        assert!(is_cacheable_mime(mime));
    }
    assert!(!is_cacheable_mime("text/html"));
    assert!(!is_cacheable_mime(""));
}

#[test]
fn what_is_stored_is_found_under_its_type() {
    let mut cache = ClipboardCache::new();
    assert_eq!(cache.get("TEXT"), None);
    cache.store("TEXT".to_string(), b"one".to_vec());
    cache.store("STRING".to_string(), b"two".to_vec());
    cache.store("TEXT".to_string(), b"three".to_vec());
    assert_eq!(cache.get("TEXT"), Some(b"three".to_vec()));
    assert_eq!(cache.get("STRING"), Some(b"two".to_vec()));
    assert_eq!(cache.cached_mime_types(), vec!["TEXT".to_string(), "STRING".to_string()]);
}

#[test]
fn a_transfer_is_kept_whole_or_not_at_all() {
    let mut cache = ClipboardCache::new();
    let mut tee = TeeCollector::new();
    tee.push(b"he");
    tee.push(b"llo");
    tee.finish("TEXT".to_string(), &mut cache);
    assert_eq!(cache.get("TEXT"), Some(b"hello".to_vec()));

    let mut tee = TeeCollector::new();
    tee.push(&vec![0; MAX_CACHED_BYTES]);
    tee.push(&[1]);
    tee.push(b"more");
    tee.finish("STRING".to_string(), &mut cache);
    assert_eq!(cache.get("STRING"), None);

    TeeCollector::new().finish("UTF8_STRING".to_string(), &mut cache);
    assert_eq!(cache.get("UTF8_STRING"), None);
}
