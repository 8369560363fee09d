//! Configuring a client.

use upload_symbols::base::Method;
use upload_symbols::client::ClientInner;
use upload_symbols::urls::AbsoluteUrl as Url;
use upload_symbols::v1;
use upload_symbols::v2;
use upload_symbols::{AuthInfo, Client, ClientBuilder, Error, UploadApiVersion};

fn address(text: &str) -> Url {
    Url::parse(text).unwrap()
}

fn info(upload_api_version: u32) -> AuthInfo {
    AuthInfo {
        email: "user@mozilla.com".to_string(),
        try_symbols: false,
        token_expires_at: 86_400,
        upload_api_version,
    }
}

#[test]
fn test_validate_base_url() {
    for (base_url, expected) in [
        (None, Ok("https://symbols.mozilla.org/")),
        (
            Some("https://symbols.allizom.org/"),
            Ok("https://symbols.allizom.org/"),
        ),
        (
            Some("https://symbols.mozilla.org/v1"),
            Ok("https://symbols.mozilla.org/v1/"),
        ),
        (Some("ftp://ftp.mozilla.org/"), Err(())),
    ] {
        let actual = ClientBuilder::validate_base_url(base_url.map(|u| Url::parse(u).unwrap()));
        match actual {
            Ok(base_url) => assert_eq!(Ok(base_url.as_str()), expected),
            Err(e) => {
                if let Error::InvalidBaseUrlScheme(_) = e {
                    assert_eq!(Err(()), expected);
                } else {
                    panic!("expected InvalidBaseUrl error");
                }
            }
        }
    }
}

#[test]
fn lib_test_validate_base_url() {
    let default = ClientBuilder::validate_base_url(None).unwrap();
    assert_eq!(default.as_str(), "https://symbols.mozilla.org/");
    let same = ClientBuilder::validate_base_url(Some(address("https://symbols.allizom.org/"))).unwrap();
    assert_eq!(same.as_str(), "https://symbols.allizom.org/");
    let longer = ClientBuilder::validate_base_url(Some(address("https://symbols.mozilla.org/v1"))).unwrap();
    assert_eq!(longer.as_str(), "https://symbols.mozilla.org/v1/");
    match ClientBuilder::validate_base_url(Some(address("ftp://ftp.mozilla.org/"))) {
        Err(Error::InvalidBaseUrlScheme(u)) => assert_eq!(u.as_str(), "ftp://ftp.mozilla.org/"),
        _ => panic!("expected InvalidBaseUrl error"),
    }
}

#[test]
fn validation_is_idempotent() {
    for text in ["http://localhost:8000", "https://example.com/a/b?q=1#f"] {
        let once = ClientBuilder::validate_base_url(Some(address(text))).unwrap();
        let twice = ClientBuilder::validate_base_url(Some(once.clone())).unwrap();
        assert_eq!(once.as_str(), twice.as_str());
    }
    let with_query = ClientBuilder::validate_base_url(Some(address("https://example.com/a/b?q=1#f")));
    assert_eq!(with_query.unwrap().as_str(), "https://example.com/a/b/?q=1#f");
}

/// A host with one very long label, which does not parse again once it is written in ASCII.
fn long_host() -> String {
    (0..1000u32).map(|j| char::from_u32(0x4e00 + 20 * j).unwrap()).collect()
}

#[test]
fn long_hosts_are_kept() {
    let original = address(&format!("http://{}/v1?q#f", long_host()));
    assert!(Url::parse(original.as_str()).is_err());
    let before = original.as_str().split("/v1").next().unwrap().to_string();
    let base_url = ClientBuilder::validate_base_url(Some(original)).unwrap();
    assert_eq!(base_url.as_str(), format!("{before}/v1/?q#f"));
    let pending = Client::builder("ab".to_string())
        .base_url(address(&format!("http://{}/v1", long_host())))
        .build()
        .unwrap_or_else(|_| panic!("the configuration is valid"));
    let request = pending.auth_info_request();
    assert_eq!(request.url.as_str(), format!("{before}/v1/upload/auth_info/"));
}

#[test]
fn addresss_of_the_url_crate_are_taken_and_given() {
    let inner = url::Url::parse("https://example.com/a?q").unwrap();
    let absolute = Url::new(inner.clone());
    assert_eq!(absolute.as_str(), "https://example.com/a?q");
    assert_eq!(absolute.path(), "/a");
    assert_eq!(absolute.into_inner(), inner);
}

#[test]
fn addresss_are_parsed_and_joined() {
    let u = address("HTTPS://Example.COM/a/../b/");
    assert_eq!(u.as_str(), "https://example.com/b/");
    assert_eq!(u.scheme(), "https");
    assert_eq!(u.path(), "/b/");
    assert!(u.is_web());
    assert!(u.has_trailing_slash());
    assert_eq!(u.join("upload/").unwrap().as_str(), "https://example.com/b/upload/");
    assert_eq!(u.join("../c").unwrap().as_str(), "https://example.com/c");
    assert!(Url::parse("not a url").is_err());
    assert!(address("mailto:user@mozilla.com").join("upload/").is_err());
    assert!(!address("ftp://ftp.mozilla.org/").is_web());
}

#[test]
fn defaults() {
    let builder = Client::builder("1a2b3c4d".to_string());
    assert!(builder.base_url.is_none());
    assert_eq!(builder.upload_api_version, UploadApiVersion::Auto);
    assert_eq!(builder.connect_timeout_seconds, 10);
    assert_eq!(builder.read_timeout_seconds, 600);
    assert_eq!(builder.v1, v1::Config::default());
    assert_eq!(builder.v1.max_connections_v1, 3);
    assert_eq!(builder.v1.zip_size_threshold_v1, 1 << 26);
    assert_eq!(builder.v1.retries_v1, 5);
    assert_eq!(builder.v1.retry_delay_seconds_v1, 60);
    assert_eq!(builder.v2, v2::Config::default());
    assert_eq!(builder.v2.retries, 2);
    assert_eq!(builder.v2.retry_delay_seconds, 30);
    assert_eq!(builder.v2.batch_size, 128);
    assert_eq!(builder.v2.max_file_uploads, 16);
    assert_eq!(builder.v2.file_upload_retries, 10);
    assert_eq!(builder.v2.file_upload_delay_seconds, 1);
    assert_eq!(builder.v2.chunk_size, 16 * 1024 * 1024);
}

#[test]
fn setters() {
    let builder = Client::builder("00".to_string())
        .connect_timeout_seconds(1)
        .read_timeout_seconds(2)
        .base_url(address("http://localhost/"))
        .upload_api_version(UploadApiVersion::V2)
        .max_connections_v1(3)
        .zip_size_threshold_v1(4)
        .retries_v1(5)
        .retry_delay_v1_seconds(6)
        .retries(7)
        .retry_delay_seconds(8)
        .batch_size(9)
        .max_file_uploads(10)
        .file_upload_retries(11)
        .file_upload_delay_seconds(12)
        .chunk_size(300_000);
    assert_eq!(builder.connect_timeout_seconds, 1);
    assert_eq!(builder.read_timeout_seconds, 2);
    assert_eq!(builder.base_url.as_ref().unwrap().as_str(), "http://localhost/");
    assert_eq!(builder.upload_api_version, UploadApiVersion::V2);
    assert_eq!(builder.v1.max_connections_v1, 3);
    assert_eq!(builder.v1.zip_size_threshold_v1, 4);
    assert_eq!(builder.v1.retries_v1, 5);
    assert_eq!(builder.v1.retry_delay_seconds_v1, 6);
    assert_eq!(builder.v2.retries, 7);
    assert_eq!(builder.v2.retry_delay_seconds, 8);
    assert_eq!(builder.v2.batch_size, 9);
    assert_eq!(builder.v2.max_file_uploads, 10);
    assert_eq!(builder.v2.file_upload_retries, 11);
    assert_eq!(builder.v2.file_upload_delay_seconds, 12);
    assert_eq!(builder.v2.chunk_size, 262_144);
}

#[test]
fn chunk_sizes_are_rounded_down() {
    for (chunk_size, expected) in [
        (262_144, 262_144),
        (524_287, 262_144),
        (524_288, 524_288),
        (u64::MAX, u64::MAX - 262_143),
    ] {
        let builder = Client::builder(String::new()).chunk_size(chunk_size);
        assert_eq!(builder.v2.chunk_size, expected);
    }
}

#[test]
fn token_is_not_shown() {
    let one = Client::builder("aa".to_string());
    let other = Client::builder("bb".to_string());
    let shown = format!("{:?}", one.redacted());
    assert!(shown.contains("\"<redacted>\""));
    assert_eq!(shown, format!("{:?}", other.redacted()));
}

#[test]
fn token_must_be_hexadecimal() {
    assert!(Client::builder("0123456789abcdefABCDEF".to_string()).build().is_ok());
    assert!(Client::builder(String::new()).build().is_ok());
    for token in ["fake_auth_token", "12 34", "12\n", "g", "\u{661}"] {
        let result = Client::builder(token.to_string()).build();
        assert!(matches!(result, Err(Error::InvalidAuthToken)));
    }
}

#[test]
fn base_url_is_checked_before_token() {
    let result = Client::builder("not hex".to_string())
        .base_url(address("ftp://ftp.mozilla.org/"))
        .build();
    assert!(matches!(result, Err(Error::InvalidBaseUrlScheme(_))));
}

#[test]
fn requests_lie_below_base_url() {
    let pending = Client::builder("ab".to_string())
        .base_url(address("https://example.com/symbols?q"))
        .build()
        .unwrap_or_else(|_| panic!("the configuration is valid"));
    let request = pending.auth_info_request();
    assert_eq!(request.method, Method::Post);
    assert_eq!(request.url.as_str(), "https://example.com/symbols/upload/auth_info/");
    assert_eq!(request.header, "auth-token");
    assert_eq!(request.token, "ab");
    let client = pending.finish(info(1));
    match client.versioned() {
        ClientInner::V1(v1) => {
            let request = v1.upload_request();
            assert_eq!(request.method, Method::Post);
            assert_eq!(request.url.as_str(), "https://example.com/symbols/upload/");
            assert_eq!(request.token, "ab");
            assert_eq!(v1.retry.max_connections, Some(3));
            assert_eq!(v1.retry.retries, 5);
            assert_eq!(v1.retry.delay_seconds, 60);
            assert_eq!(v1.zip_size_threshold, 1 << 26);
        }
        ClientInner::V2(_) => panic!("the server asked for version 1"),
    }
}

#[test]
fn version_is_chosen() {
    for (configured, preferred, expected) in [
        (UploadApiVersion::Auto, 1, UploadApiVersion::V1),
        (UploadApiVersion::Auto, 2, UploadApiVersion::V2),
        (UploadApiVersion::V1, 2, UploadApiVersion::V1),
        (UploadApiVersion::V2, 1, UploadApiVersion::V2),
        (UploadApiVersion::V2, 3, UploadApiVersion::V2),
    ] {
        let pending = Client::builder("ab".to_string())
            .upload_api_version(configured)
            .build()
            .unwrap_or_else(|_| panic!("the configuration is valid"));
        assert!(pending.accepts(&info(preferred)));
        let client = pending.finish(info(preferred));
        assert_eq!(client.upload_api_version(), expected);
        assert_eq!(client.auth_info().email, "user@mozilla.com");
        assert_eq!(client.auth_info().upload_api_version, preferred);
    }
    let pending = Client::builder("ab".to_string())
        .build()
        .unwrap_or_else(|_| panic!("the configuration is valid"));
    assert!(!pending.accepts(&info(0)));
    assert!(!pending.accepts(&info(3)));
}

#[test]
fn v2_client_takes_its_configuration() {
    let client = Client::builder("ab".to_string())
        .upload_api_version(UploadApiVersion::V2)
        .retries(1)
        .batch_size(3)
        .max_file_uploads(4)
        .build()
        .unwrap_or_else(|_| panic!("the configuration is valid"))
        .finish(info(2));
    match client.versioned() {
        ClientInner::V2(v2) => {
            assert_eq!(v2.upload_request().url.as_str(), "https://symbols.mozilla.org/upload/v2/");
            assert_eq!(v2.retry.retries, 1);
            assert_eq!(v2.retry.delay_seconds, 30);
            assert_eq!(v2.retry.max_connections, None);
            assert_eq!(v2.batch_size, 3);
            assert_eq!(v2.max_file_uploads, 4);
            assert_eq!(v2.file_upload_retries, 10);
            assert_eq!(v2.file_upload_delay_seconds, 1);
            assert_eq!(v2.chunk_size, 16_777_216);
        }
        ClientInner::V1(_) => panic!("version 2 was configured"),
    }
}

#[test]
fn versions_have_names() {
    assert_eq!(UploadApiVersion::Auto.to_string(), "auto");
    assert_eq!(UploadApiVersion::V1.to_string(), "1");
    assert_eq!(UploadApiVersion::V2.to_string(), "2");
    assert_eq!(UploadApiVersion::Auto.debug_name(), format!("{:?}", UploadApiVersion::Auto));
    assert_eq!(UploadApiVersion::V1.debug_name(), "V1");
    assert_eq!(UploadApiVersion::V2.debug_name(), "V2");
}

#[test]
fn only_directories_are_uploaded() {
    assert_eq!(Client::check_directory(b"/tmp/x".to_vec(), true).unwrap(), b"/tmp/x".to_vec());
    let error = Client::check_directory(b"/tmp/x".to_vec(), false).unwrap_err();
    assert!(matches!(error, Error::NotADirectory(_)));
    assert_eq!(error.message(), "not a directory: /tmp/x");
}
