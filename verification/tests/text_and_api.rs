use remote_file_system::text::str_eq;
use remote_file_system::api::{
    change_status, list_status, range_header, read_status, rename_body, rename_status,
    write_offset_header, Api, ApiError,
};
use remote_file_system::text::{join_path, parse_u64, str_has_prefix, u64_to_decimal};

#[test]
fn decimal_writes_numbers() {
    assert_eq!(u64_to_decimal(0), "0");
    assert_eq!(u64_to_decimal(7), "7");
    assert_eq!(u64_to_decimal(1234567890), "1234567890");
    assert_eq!(u64_to_decimal(u64::MAX), "18446744073709551615");
}

#[test]
fn parse_accepts_what_std_accepts() {
    for s in ["0", "42", "+42", "007", "18446744073709551615", "", "+", "-1", "4x", " 4", "18446744073709551616"] {
        assert_eq!(parse_u64(s), s.parse::<u64>().ok(), "input {:?}", s);
    }
}

#[test]
fn decimal_roundtrip_concrete() {
    for n in [0u64, 1, 9, 10, 99, 100, 65535, u64::MAX - 1, u64::MAX] {
        assert_eq!(parse_u64(&u64_to_decimal(n)), Some(n));
    }
}

#[test]
fn join_path_follows_unix_rules() {
    assert_eq!(join_path("/", "a.txt"), "/a.txt");
    assert_eq!(join_path("/dir", "a.txt"), "/dir/a.txt");
    assert_eq!(join_path("/dir/", "a.txt"), "/dir/a.txt");
    assert_eq!(join_path("/dir", "/abs"), "/abs");
    assert_eq!(join_path("", "a"), "a");
    assert_eq!(join_path("/dir", ""), "/dir/");
    for (p, n) in [("/", "x"), ("/a/b", "c"), ("/a/", "c"), ("/a", "/c"), ("rel", "c")] {
        let expected = std::path::PathBuf::from(p).join(n).to_string_lossy().to_string();
        assert_eq!(join_path(p, n), expected);
    }
}

#[test]
fn prefix_check() {
    assert!(str_has_prefix("bytes=0-1", "bytes="));
    assert!(!str_has_prefix("byte", "bytes="));
    assert!(str_has_prefix("abc", ""));
}

#[test]
fn base_url_gets_one_separator() {
    assert_eq!(Api::new("http://server:8080".to_string()).base_url, "http://server:8080/api/");
    assert_eq!(Api::new("http://server:8080/".to_string()).base_url, "http://server:8080/api/");
}

#[test]
fn request_addresses() {
    let api = Api::new("http://h".to_string());
    assert_eq!(api.list_url("/"), "http://h/api/list/");
    assert_eq!(api.list_url("/dir"), "http://h/api/list/dir");
    assert_eq!(api.files_url("/dir/a.txt"), "http://h/api/files/dir/a.txt");
    assert_eq!(api.mkdir_url("/new"), "http://h/api/mkdir/new");
}

#[test]
fn range_header_covers_the_request() {
    assert_eq!(range_header(0, 10), "bytes=0-9");
    assert_eq!(range_header(100, 1), "bytes=100-100");
    assert_eq!(range_header(5, 5242880), "bytes=5-5242884");
    assert_eq!(write_offset_header(0), "0");
    assert_eq!(write_offset_header(4096), "4096");
}

#[test]
fn rename_body_is_json() {
    assert_eq!(rename_body("new_name.txt"), "{\"new_name\":\"new_name.txt\"}");
    assert_eq!(rename_body("a\"b\\c\nd\u{1}"), "{\"new_name\":\"a\\\"b\\\\c\\nd\\u0001\"}");
    let v: serde_json::Value = serde_json::from_str(&rename_body("x y")).unwrap();
    assert_eq!(v["new_name"], "x y");
}

#[test]
fn status_meanings() {
    assert_eq!(list_status(404), Err(ApiError::NotFound));
    assert_eq!(list_status(200), Ok(()));
    assert_eq!(list_status(500), Ok(()));
    assert_eq!(read_status(200), Ok(()));
    assert_eq!(read_status(206), Ok(()));
    assert_eq!(read_status(404), Err(ApiError::NotFound));
    assert_eq!(read_status(416), Err(ApiError::Other));
    assert_eq!(change_status(201), Ok(()));
    assert_eq!(change_status(299), Ok(()));
    assert_eq!(change_status(300), Err(ApiError::Other));
    assert_eq!(change_status(404), Err(ApiError::Other));
    assert_eq!(rename_status(200), Ok(()));
    assert_eq!(rename_status(404), Err(ApiError::NotFound));
    assert_eq!(rename_status(500), Err(ApiError::Other));
}

#[test]
fn string_equality() {
    assert!(str_eq("ab", "ab"));
    assert!(!str_eq("ab", "abc"));
    assert!(!str_eq("ab", "aB"));
    assert!(str_eq("", ""));
}
