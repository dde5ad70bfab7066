use cache_streamer::byte_range::Range;
use cache_streamer::config::Config;
use cache_streamer::http_range::{empty_range_if_head, get_cache_possible_and_expire_time,
    get_request_range, into_response_range, parse_range_header, put_request_range, should_cache,
    should_cache_response, CacheControlValue, ContentRangeValue};
use cache_streamer::signer::{Configuration, Signer};
use cache_streamer::types::{RequestRange, ResponseRange};

#[test]
fn test_parse_range_header_forms() {
    assert_eq!(
        parse_range_header(b"bytes=0-499"),
        Some(RequestRange::FromTo(0, 500))
    );
    assert_eq!(
        parse_range_header(b"bytes=500-"),
        Some(RequestRange::AllFrom(500))
    );
    assert_eq!(parse_range_header(b"bytes=-200"), Some(RequestRange::Last(200)));
    assert_eq!(parse_range_header(b"bytes=0-0"), Some(RequestRange::FromTo(0, 1)));
    // Leading zeros are just digits.
    assert_eq!(
        parse_range_header(b"bytes=007-"),
        Some(RequestRange::AllFrom(7))
    );
}

#[test]
fn test_parse_range_header_invalid() {
    // A start after the end.
    assert_eq!(parse_range_header(b"bytes=5-3"), None);
    // Multipart ranges.
    assert_eq!(parse_range_header(b"bytes=1-2,4-5"), None);
    // Not a byte range.
    assert_eq!(parse_range_header(b"items=1-2"), None);
    // No bounds, no digits, or stray bytes.
    assert_eq!(parse_range_header(b"bytes=-"), None);
    assert_eq!(parse_range_header(b"bytes="), None);
    assert_eq!(parse_range_header(b"bytes=a-b"), None);
    assert_eq!(parse_range_header(b"bytes=1-2x"), None);
    // A number too large for the address space.
    assert_eq!(parse_range_header(b"bytes=99999999999999999999-"), None);
}

#[test]
fn test_get_request_range_header_presence() {
    assert_eq!(get_request_range(None), Some(RequestRange::Whole));
    assert_eq!(
        get_request_range(Some(b"bytes=1-2")),
        Some(RequestRange::FromTo(1, 3))
    );
    assert_eq!(get_request_range(Some(b"garbage")), None);
}

#[test]
fn test_put_request_range_forms() {
    assert_eq!(put_request_range(&RequestRange::Whole), None);
    assert_eq!(
        put_request_range(&RequestRange::AllFrom(500)),
        Some(b"bytes=500-".to_vec())
    );
    assert_eq!(
        put_request_range(&RequestRange::Last(200)),
        Some(b"bytes=-200".to_vec())
    );
    assert_eq!(
        put_request_range(&RequestRange::FromTo(0, 500)),
        Some(b"bytes=0-499".to_vec())
    );
    // An empty range has no closed-interval encoding.
    assert_eq!(put_request_range(&RequestRange::FromTo(5, 5)), None);
}

#[test]
fn test_range_codec_round_trip_values() {
    let samples = vec![
        RequestRange::AllFrom(0),
        RequestRange::AllFrom(17),
        RequestRange::Last(0),
        RequestRange::Last(1024),
        RequestRange::FromTo(0, 1),
        RequestRange::FromTo(10, 4096),
    ];
    for range in samples {
        let encoded = put_request_range(&range).unwrap();
        assert_eq!(parse_range_header(&encoded), Some(range));
    }
}

#[test]
fn test_into_response_range_table() {
    // No content-length: never cacheable.
    assert_eq!(into_response_range(None, None, &RequestRange::Whole), None);

    // Whole-resource request: content-length alone decides.
    assert_eq!(
        into_response_range(Some(11), None, &RequestRange::Whole),
        Some(ResponseRange {
            bytes_len: 11,
            bytes_range: RequestRange::Whole,
        })
    );

    // A content-range without a request range is unusable.
    let cr = ContentRangeValue {
        bytes_range: Some((0, 4)),
        bytes_len: Some(11),
    };
    assert_eq!(into_response_range(Some(11), Some(cr), &RequestRange::Whole), None);

    // A request range without a content-range is unusable.
    assert_eq!(
        into_response_range(Some(11), None, &RequestRange::FromTo(0, 5)),
        None
    );

    // Complete content-range: half-open, one past the closed upper bound.
    assert_eq!(
        into_response_range(Some(5), Some(cr), &RequestRange::FromTo(0, 5)),
        Some(ResponseRange {
            bytes_len: 11,
            bytes_range: RequestRange::FromTo(0, 5),
        })
    );

    // Incomplete content-range values are unusable.
    let missing_total = ContentRangeValue {
        bytes_range: Some((0, 4)),
        bytes_len: None,
    };
    let missing_range = ContentRangeValue {
        bytes_range: None,
        bytes_len: Some(11),
    };
    assert_eq!(
        into_response_range(Some(5), Some(missing_total), &RequestRange::FromTo(0, 5)),
        None
    );
    assert_eq!(
        into_response_range(Some(5), Some(missing_range), &RequestRange::FromTo(0, 5)),
        None
    );

    // An interval that does not fit inside the reported total is unusable.
    let overlong = ContentRangeValue {
        bytes_range: Some((0, 20)),
        bytes_len: Some(5),
    };
    let crossed = ContentRangeValue {
        bytes_range: Some((7, 3)),
        bytes_len: Some(11),
    };
    assert_eq!(
        into_response_range(Some(5), Some(overlong), &RequestRange::FromTo(0, 5)),
        None
    );
    assert_eq!(
        into_response_range(Some(5), Some(crossed), &RequestRange::FromTo(0, 5)),
        None
    );
}

#[test]
fn test_cache_possible_and_expire_time() {
    // No cache-control header: cacheable, no expiry.
    assert_eq!(get_cache_possible_and_expire_time(None, 7), (true, None));

    // no-cache / no-store forbid caching.
    let no_cache = CacheControlValue {
        no_cache: true,
        no_store: false,
        max_age: Some(60),
    };
    let no_store = CacheControlValue {
        no_cache: false,
        no_store: true,
        max_age: None,
    };
    assert_eq!(
        get_cache_possible_and_expire_time(Some(no_cache), 7),
        (false, None)
    );
    assert_eq!(
        get_cache_possible_and_expire_time(Some(no_store), 7),
        (false, None)
    );

    // max-age sets the expiry relative to now.
    let max_age = CacheControlValue {
        no_cache: false,
        no_store: false,
        max_age: Some(60),
    };
    assert_eq!(
        get_cache_possible_and_expire_time(Some(max_age), 7),
        (true, Some(67))
    );

    // Without max-age the entry never expires.
    let plain = CacheControlValue {
        no_cache: false,
        no_store: false,
        max_age: None,
    };
    assert_eq!(get_cache_possible_and_expire_time(Some(plain), 7), (true, None));
}

#[test]
fn test_should_cache_statuses() {
    assert!(should_cache(200));
    assert!(should_cache(204));
    assert!(should_cache(206));
    assert!(should_cache(205));
    assert!(should_cache(299));
    assert!(!should_cache(404));
    assert!(!should_cache(301));
    assert!(!should_cache(199));
}

#[test]
fn test_should_cache_response_preconditions() {
    let rr = ResponseRange {
        bytes_len: 11,
        bytes_range: RequestRange::Whole,
    };
    assert!(should_cache_response(true, Some(rr), true, 100));
    // Any failing precondition denies caching.
    assert!(!should_cache_response(false, Some(rr), true, 100));
    assert!(!should_cache_response(true, None, true, 100));
    assert!(!should_cache_response(true, Some(rr), false, 100));
    assert!(!should_cache_response(true, Some(rr), true, 10));
}

#[test]
fn test_empty_range_for_head_requests() {
    assert_eq!(empty_range_if_head(true, 3..9), 3..3);
    assert_eq!(empty_range_if_head(false, 3..9), 3..9);
}

#[test]
fn test_byte_range_as_range() {
    assert_eq!(Range(None, None).as_range(10), None);
    assert_eq!(Range(Some(2), Some(5)).as_range(10), Some(2..6));
    assert_eq!(Range(Some(2), None).as_range(10), Some(2..10));
    assert_eq!(Range(None, Some(4)).as_range(10), Some(0..5));
    // Bounds clip to the resource length.
    assert_eq!(Range(Some(15), Some(20)).as_range(10), Some(10..10));
}

#[test]
fn test_byte_range_is_empty() {
    assert!(Range(Some(5), Some(3)).is_empty());
    assert!(!Range(Some(3), Some(5)).is_empty());
    assert!(!Range(Some(3), None).is_empty());
    assert!(!Range(None, Some(5)).is_empty());
    assert!(!Range(None, None).is_empty());
}

#[test]
fn test_byte_range_add_start() {
    let mut r = Range(Some(3), Some(9));
    r.add_start(4);
    assert_eq!(r, Range(Some(7), Some(9)));

    let mut r = Range(None, Some(9));
    r.add_start(4);
    assert_eq!(r, Range(Some(4), Some(9)));
}

fn test_configuration() -> Configuration {
    Configuration {
        access_key: "AKID".to_string(),
        secret_key: "test-secret-key".to_string(),
        region: "us-east-1".to_string(),
        scheme: "https".to_string(),
        host: "store.example:9000".to_string(),
    }
}

#[test]
fn test_sign_request_body_digest() {
    let config = test_configuration();
    let signer = Signer::new(
        &config,
        "20130524T000000Z".to_string(),
        "20130524".to_string(),
    );
    let signature = signer.sign_request("GET", "/x", b"");

    // The well-known SHA-256 of the empty message.
    assert_eq!(
        signature.x_amz_content_sha256,
        "e3b0c44298fc1c149afbf4c8996fb92427ae41e4649b934ca495991b7852b855"
    );
    assert_eq!(signature.x_amz_date, "20130524T000000Z");
}

#[test]
fn test_sign_request_authorization_shape() {
    let config = test_configuration();
    let signer = Signer::new(
        &config,
        "20130524T000000Z".to_string(),
        "20130524".to_string(),
    );
    let signature = signer.sign_request("GET", "/x", b"");

    let expected_prefix = "AWS4-HMAC-SHA256 Credential=AKID/20130524/us-east-1/s3/aws4_request, \
                           SignedHeaders=host;x-amz-content-sha256;x-amz-date, Signature=";
    assert!(signature.authorization.starts_with(expected_prefix));
    let sig_hex = &signature.authorization[expected_prefix.len()..];
    assert_eq!(sig_hex.len(), 64);
    assert!(sig_hex.chars().all(|c| c.is_ascii_hexdigit() && !c.is_ascii_uppercase()));
}

#[test]
fn test_sign_request_is_deterministic() {
    let config = test_configuration();
    let a = Signer::new(
        &config,
        "20130524T000000Z".to_string(),
        "20130524".to_string(),
    )
    .sign_request("GET", "/x", b"hello");
    let b = Signer::new(
        &config,
        "20130524T000000Z".to_string(),
        "20130524".to_string(),
    )
    .sign_request("GET", "/x", b"hello");

    assert_eq!(a.authorization, b.authorization);
    assert_eq!(a.x_amz_content_sha256, b.x_amz_content_sha256);
}

#[test]
fn test_config_fields() {
    let config = Config {
        url: "http://example.com".to_string(),
        bind_address: "127.0.0.1:3000".to_string(),
        capacity: 2048,
        limit: 100,
    };
    assert_eq!(config.capacity, 2048);
    assert_eq!(config.limit, 100);
}
