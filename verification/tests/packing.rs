use wcc::packing::{decompress_b64, list_stamp, name_stamp, pack};
use wcc::uri::{checked_uri, path_to_uri, uri_to_path};
use wcc::wcm::{codec_of, search_line, Codec};

#[test]
fn packed_text_is_read_back() {
    for s in ["", "hello", "größe 😀\n", &"x".repeat(100_000)] {
        let packed = pack(s).unwrap();
        assert_ne!(packed, s);
        assert_eq!(decompress_b64(&packed), Some(s.to_string()));
    }
    assert!(pack(&"x".repeat(100_000)).unwrap().len() < 2_000);
}

#[test]
fn what_was_not_packed_is_refused() {
    assert_eq!(decompress_b64("not base64!"), None);
    assert_eq!(decompress_b64("aGVsbG8="), None);
}

#[test]
fn stamps_of_seconds() {
    assert_eq!(name_stamp(0), Some("19700101T000000Z".to_string()));
    assert_eq!(name_stamp(1_700_000_000), Some("20231114T221320Z".to_string()));
    assert_eq!(list_stamp(1_700_000_000), Some("11-14 22:13:20".to_string()));
    assert_eq!(name_stamp(i64::MAX), None);
}

#[test]
fn uris_lead_back_to_their_paths() {
    assert_eq!(path_to_uri("/a/b c.rs"), Ok("file:///a/b%20c.rs".to_string()));
    assert_eq!(uri_to_path("file:///a/b%20c.rs"), Some("/a/b c.rs".to_string()));
    assert_eq!(uri_to_path("http://x/y"), None);
    assert_eq!(uri_to_path("not a uri"), None);
    assert!(path_to_uri("rel/a.rs").is_err());
    assert_eq!(checked_uri("/a", Some("file:///a".to_string())), Ok("file:///a".to_string()));
    assert!(checked_uri("rel", None).unwrap_err().contains("rel"));
}

#[test]
fn codecs_and_hits() {
    assert_eq!(codec_of("a/log.lz4"), Codec::Lz4);
    assert_eq!(codec_of("log.gz"), Codec::Gzip);
    assert_eq!(codec_of("log.txt"), Codec::Plain);
    assert_eq!(search_line("log.gz", 3, "an error here", "error"), Some("log.gz:3:an error here\n".to_string()));
    assert_eq!(search_line("log.gz", 3, "fine\n", "error"), None);
}
