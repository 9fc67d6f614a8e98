use bytes::Bytes;
use hyper::header::{HeaderMap, HeaderValue, CONTENT_TYPE};
use isup::{Request, RequestError};

#[test]
fn it_creates_a_new() {
    // Define the method and URL
    let method = "GET";
    let url = "http://example.com/";
    // Create a new request
    let request = Request::new(method, url);
    // Verify that the request was created
    assert_eq!(&request.url.to_string(), url);
    // Verify that the method was set
    assert_eq!(request.method, method);
    // Verify that the body is empty
    assert!(request.body.is_empty());
    // Verify that the headers are empty
    assert!(request.headers.is_empty());
}

#[test]
#[should_panic]
fn it_fails_comparing_url_without_trailing_slash() {
    // Define the method and URL
    let method = "GET";
    let url = "http://example.com";
    // Create a new request
    let request = Request::new(method, url);

    // The URI parser appends a trailing slash if none is given:
    // "http://example.com/" != "http://example.com"
    assert_eq!(&request.url.to_string(), url);
}

#[test]
fn it_sets_body() {
    // Create a new request
    let mut request = Request::new("POST", "http://example.com/");
    // Create a new body
    let body = Bytes::from("Hello, Rust");
    // Set the body of the request
    request = request.set_body(body.to_vec());
    // Verify that the body was set
    assert_eq!(request.body, body);
}

#[test]
fn it_sets_headers() {
    // Create a new request
    let mut request = Request::new("POST", "http://example.com/");
    // Create a new header map
    let mut headers = HeaderMap::new();
    // Insert a new header into the map
    headers.insert(CONTENT_TYPE, HeaderValue::from_static("application/json"));

    let pairs: Vec<(String, String)> = headers
        .iter()
        .map(|(name, value)| (name.as_str().to_string(), value.to_str().unwrap().to_string()))
        .collect();

    // Set the headers of the request
    request = request.set_headers(pairs.clone());
    // Verify that the headers were set
    assert_eq!(request.headers, pairs);
    assert_eq!(request.headers, vec![("content-type".to_string(), "application/json".to_string())]);
}

#[test]
fn new_renders_authority_only_url_with_root_path() {
    let request = Request::new("GET", "http://example.com");
    assert_eq!(request.url, "http://example.com/");
}

#[test]
fn try_new_accepts_valid_method_and_url() {
    let request = Request::try_new("PATCH", "https://example.com/health").unwrap();
    assert_eq!(request.url, "https://example.com/health");
    assert_eq!(request.method, "PATCH");
}

#[test]
fn try_new_accepts_extension_method() {
    let request = Request::try_new("PURGE", "http://example.com/").unwrap();
    assert_eq!(request.method, "PURGE");
}

#[test]
fn try_new_refuses_empty_method() {
    assert_eq!(Request::try_new("", "http://example.com/").err(), Some(RequestError::InvalidMethod));
}

#[test]
fn try_new_refuses_method_with_space() {
    assert_eq!(Request::try_new("GE T", "http://example.com/").err(), Some(RequestError::InvalidMethod));
}

#[test]
fn try_new_checks_method_before_url() {
    assert_eq!(Request::try_new("", "http://exa mple.com/").err(), Some(RequestError::InvalidMethod));
}

#[test]
fn try_new_refuses_invalid_url() {
    assert_eq!(Request::try_new("GET", "http://exa mple.com/").err(), Some(RequestError::InvalidUrl));
}

#[test]
fn try_new_starts_empty_with_given_method() {
    let request = Request::try_new("DELETE", "http://example.com/x").unwrap();
    assert_eq!(request.method, "DELETE");
    assert!(request.body.is_empty());
    assert!(request.headers.is_empty());
}
