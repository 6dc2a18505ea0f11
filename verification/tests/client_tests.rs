use cos_fuse_demo::cos_client::{
    object_meta, parse_decimal, parse_http_date, ClientError, CosClient, HeadResponse,
};
use std::time::{Duration, SystemTime};

fn response(status: u16) -> HeadResponse {
    HeadResponse {
        status,
        content_length: Some("13".to_string()),
        last_modified: Some("Wed, 21 Oct 2015 07:28:00 GMT".to_string()),
        etag: Some("\"abc\"".to_string()),
        content_type: Some("text/plain".to_string()),
    }
}

#[test]
fn test_cos_client_creation() {
    let client = CosClient::new("test-bucket".to_string(), "ap-beijing".to_string());
    assert_eq!(client.bucket(), "test-bucket");
    assert_eq!(client.region(), "ap-beijing");
}

#[test]
fn base_url_names_bucket_and_region() {
    let client = CosClient::new("test-bucket".to_string(), "ap-beijing".to_string());
    assert_eq!(client.base_url(), "https://test-bucket.cos.ap-beijing.myqcloud.com");
    assert_eq!(
        client.object_url("dir/b.txt"),
        "https://test-bucket.cos.ap-beijing.myqcloud.com/dir/b.txt"
    );
    assert_eq!(client.object_url(""), "https://test-bucket.cos.ap-beijing.myqcloud.com/");
}

#[test]
fn head_object_reads_the_fields() {
    let client = CosClient::new("b".to_string(), "r".to_string());
    let meta = client.head_object("a.txt", &response(200)).unwrap();
    assert_eq!(meta.key, "a.txt");
    assert_eq!(meta.size, 13);
    assert_eq!(meta.etag, "\"abc\"");
    assert_eq!(meta.content_type, Some("text/plain".to_string()));
}

#[test]
fn object_meta_takes_the_time_it_is_given() {
    let modified = SystemTime::UNIX_EPOCH + Duration::from_secs(1_445_412_480);
    let meta = object_meta("dir/b.txt", &response(200), modified);
    assert_eq!(meta.key, "dir/b.txt");
    assert_eq!(meta.size, 13);
    assert_eq!(meta.last_modified, modified);
    assert_eq!(meta.etag, "\"abc\"");
    assert_eq!(meta.content_type, Some("text/plain".to_string()));
}

#[test]
fn head_object_reads_the_clock() {
    let client = CosClient::new("b".to_string(), "r".to_string());
    let before = SystemTime::now();
    let meta = client.head_object("a.txt", &response(200)).unwrap();
    assert!(meta.last_modified >= before);
    assert!(meta.last_modified <= SystemTime::now());
}

#[test]
fn head_object_defaults_missing_fields() {
    let client = CosClient::new("b".to_string(), "r".to_string());
    let bare = HeadResponse {
        status: 204,
        content_length: None,
        last_modified: None,
        etag: None,
        content_type: None,
    };
    let meta = client.head_object("k", &bare).unwrap();
    assert_eq!(meta.key, "k");
    assert_eq!(meta.size, 0);
    assert_eq!(meta.etag, "");
    assert_eq!(meta.content_type, None);
}

#[test]
fn head_object_takes_a_bad_length_for_zero() {
    let client = CosClient::new("b".to_string(), "r".to_string());
    let mut r = response(200);
    r.content_length = Some("13 bytes".to_string());
    assert_eq!(client.head_object("k", &r).unwrap().size, 0);
    r.content_length = Some("".to_string());
    assert_eq!(client.head_object("k", &r).unwrap().size, 0);
    r.content_length = Some("-1".to_string());
    assert_eq!(client.head_object("k", &r).unwrap().size, 0);
}

#[test]
fn head_object_reports_a_missing_object() {
    let client = CosClient::new("b".to_string(), "r".to_string());
    assert_eq!(client.head_object("k", &response(404)).unwrap_err(), ClientError::NotFound);
}

#[test]
fn head_object_reports_other_statuses() {
    let client = CosClient::new("b".to_string(), "r".to_string());
    assert_eq!(client.head_object("k", &response(500)).unwrap_err(), ClientError::Status(500));
    assert_eq!(client.head_object("k", &response(403)).unwrap_err(), ClientError::Status(403));
    assert_eq!(client.head_object("k", &response(199)).unwrap_err(), ClientError::Status(199));
    assert_eq!(client.head_object("k", &response(300)).unwrap_err(), ClientError::Status(300));
    assert!(client.head_object("k", &response(299)).is_ok());
}

#[test]
fn get_object_hands_the_body_on() {
    let client = CosClient::new("b".to_string(), "r".to_string());
    let body = b"Hello, World!".to_vec();
    assert_eq!(client.get_object("k", 200, body.clone()).unwrap(), body);
    assert_eq!(client.get_object("k", 206, Vec::new()).unwrap(), Vec::<u8>::new());
}

#[test]
fn get_object_reports_failures() {
    let client = CosClient::new("b".to_string(), "r".to_string());
    assert_eq!(client.get_object("k", 404, vec![1, 2]).unwrap_err(), ClientError::NotFound);
    assert_eq!(client.get_object("k", 503, vec![1, 2]).unwrap_err(), ClientError::Status(503));
    assert_eq!(client.get_object("k", 301, vec![1, 2]).unwrap_err(), ClientError::Status(301));
}

#[test]
fn list_objects_gives_the_four_keys() {
    let client = CosClient::new("b".to_string(), "r".to_string());
    let keys = client.list_objects().unwrap();
    assert_eq!(
        keys,
        vec![
            "data/file1.txt".to_string(),
            "data/file2.jpg".to_string(),
            "data/subdir/file3.txt".to_string(),
            "README.md".to_string(),
        ]
    );
}

#[test]
fn parse_http_date_always_answers() {
    assert!(parse_http_date("Wed, 21 Oct 2015 07:28:00 GMT").is_some());
    assert!(parse_http_date("").is_some());
    assert!(parse_http_date("no date").is_some());
}

#[test]
fn parse_decimal_reads_numbers() {
    assert_eq!(parse_decimal("0"), Some(0));
    assert_eq!(parse_decimal("100"), Some(100));
    assert_eq!(parse_decimal("+7"), Some(7));
    assert_eq!(parse_decimal("007"), Some(7));
    assert_eq!(parse_decimal("18446744073709551615"), Some(u64::MAX));
}

#[test]
fn parse_decimal_refuses_what_is_no_number() {
    assert_eq!(parse_decimal(""), None);
    assert_eq!(parse_decimal("+"), None);
    assert_eq!(parse_decimal("-1"), None);
    assert_eq!(parse_decimal("++1"), None);
    assert_eq!(parse_decimal(" 1"), None);
    assert_eq!(parse_decimal("1 "), None);
    assert_eq!(parse_decimal("1_000"), None);
    assert_eq!(parse_decimal("12a"), None);
    assert_eq!(parse_decimal("١٢"), None);
    assert_eq!(parse_decimal("18446744073709551616"), None);
    assert_eq!(parse_decimal("99999999999999999999999"), None);
}

#[test]
fn parse_decimal_agrees_with_the_standard_parser() {
    let samples = [
        "", "0", "+0", "-0", "42", "+42", "4 2", "0x10", "18446744073709551615",
        "18446744073709551616", "000000000000000000000001", "+", "1+", "١",
    ];
    for s in samples {
        assert_eq!(parse_decimal(s), s.parse::<u64>().ok(), "on {:?}", s);
    }
}
