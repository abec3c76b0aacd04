use minihttp::http_request::{HttpRequest, RequestError};
use minihttp::pairs::Pairs;
use minihttp::HttpMethod;

fn request_with(content_type: Option<&[u8]>, body: Option<&[u8]>) -> HttpRequest {
    let mut headers = Pairs::new();
    if let Some(ct) = content_type {
        headers.insert(b"Content-Type".to_vec(), ct.to_vec());
    }
    HttpRequest::new(
        HttpMethod::Post,
        b"/".to_vec(),
        Pairs::new(),
        headers,
        body.map(|b| b.to_vec()),
    )
}

#[test]
fn form_accessor_parses_pairs() {
    let req = request_with(Some(b"application/x-www-form-urlencoded"), Some(b"a=1&b=2"));
    let form = req.form().ok().unwrap();
    assert_eq!(form.get(&b"a".to_vec()), Some(&b"1".to_vec()));
    assert_eq!(form.get(&b"b".to_vec()), Some(&b"2".to_vec()));
    assert_eq!(form.len(), 2);
}

#[test]
fn form_accessor_rejects_other_content_type() {
    let req = request_with(Some(b"text/plain"), Some(b"a=1&b=2"));
    assert!(matches!(req.form(), Err(RequestError::InvalidContentType)));
}

#[test]
fn form_accessor_rejects_missing_content_type() {
    let req = request_with(None, Some(b"a=1"));
    assert!(matches!(req.form(), Err(RequestError::InvalidContentType)));
}

#[test]
fn form_accessor_rejects_missing_body() {
    let req = request_with(Some(b"application/x-www-form-urlencoded"), None);
    assert!(matches!(req.form(), Err(RequestError::EmptyBody)));
}

#[test]
fn form_accessor_rejects_pair_without_equals() {
    let req = request_with(Some(b"application/x-www-form-urlencoded"), Some(b"a"));
    assert!(matches!(req.form(), Err(RequestError::MalformedBody)));
}

#[test]
fn form_duplicate_key_last_wins() {
    let req = request_with(Some(b"application/x-www-form-urlencoded"), Some(b"a=1&a=2"));
    let form = req.form().ok().unwrap();
    assert_eq!(form.get(&b"a".to_vec()), Some(&b"2".to_vec()));
    assert_eq!(form.len(), 1);
}

#[test]
fn json_accessor_parses_valid_json() {
    let req = request_with(Some(b"application/json"), Some(b"{\"a\": 1}"));
    let value = req.json().ok().unwrap();
    assert_eq!(value["a"], 1);
}

#[test]
fn json_accessor_rejects_other_content_type() {
    let req = request_with(Some(b"text/plain"), Some(b"{}"));
    assert!(matches!(req.json(), Err(RequestError::InvalidContentType)));
}

#[test]
fn json_accessor_rejects_missing_body() {
    let req = request_with(Some(b"application/json"), None);
    assert!(matches!(req.json(), Err(RequestError::EmptyBody)));
}

#[test]
fn json_accessor_reports_parse_failure() {
    let req = request_with(Some(b"application/json"), Some(b"{not json"));
    assert!(matches!(req.json(), Err(RequestError::JsonError(_))));
}

#[test]
fn request_error_converts_to_400_response() {
    let resp = minihttp::http_request::response_for_request_error(
        RequestError::InvalidContentType,
    );
    assert_eq!(resp.get_status(), 400);
    assert_eq!(resp.get_body(), &b"Invalid Content-Type".to_vec());
    assert_eq!(resp.get_content_type(), &Some(b"text/plain".to_vec()));
}

#[test]
fn json_error_converts_with_message() {
    let resp = minihttp::http_request::response_for_request_error(RequestError::JsonError(
        b"oops".to_vec(),
    ));
    assert_eq!(resp.get_status(), 400);
    assert_eq!(resp.get_body(), &b"JSON Error: oops".to_vec());
}

#[test]
fn write_from_json_round_trips() {
    let value = json::parse("{\"name\": \"box\", \"count\": 3, \"tags\": [\"a\", \"b\"]}")
        .unwrap();
    let mut resp = minihttp::http_response::HttpResponse::new(
        200,
        Pairs::new(),
        None,
        Vec::new(),
    );
    minihttp::http_response::HttpResponse::write_from_json(&mut resp, &value);
    assert_eq!(resp.get_content_type(), &Some(b"application/json".to_vec()));
    let text = String::from_utf8(resp.get_body().clone()).unwrap();
    let reparsed = json::parse(&text).unwrap();
    assert_eq!(reparsed, value);
}

#[test]
fn request_getters_expose_fields() {
    let mut q = Pairs::new();
    q.insert(b"k".to_vec(), b"v".to_vec());
    let req = HttpRequest::new(
        HttpMethod::Put,
        b"/p".to_vec(),
        q,
        Pairs::new(),
        Some(b"body".to_vec()),
    );
    assert_eq!(*req.get_method(), HttpMethod::Put);
    assert_eq!(req.get_path(), &b"/p".to_vec());
    assert_eq!(req.get_query().get(&b"k".to_vec()), Some(&b"v".to_vec()));
    assert_eq!(req.get_headers().len(), 0);
    assert_eq!(req.get_body(), Some(&b"body".to_vec()));
}
