use minihttp::http_response::HttpResponse;
use minihttp::pairs::Pairs;

#[test]
fn serialize_renders_the_exact_frame() {
    let resp = HttpResponse::new(
        200,
        Pairs::new(),
        Some(b"text/plain".to_vec()),
        b"hi".to_vec(),
    );
    let bytes = resp.serialize();
    assert_eq!(
        bytes,
        b"HTTP/1.1 200\r\nContent-Length: 2\r\nContent-Type: text/plain\r\n\r\nhi".to_vec()
    );
}

#[test]
fn serialize_falls_back_to_text_plain() {
    let resp = HttpResponse::new(404, Pairs::new(), None, Vec::new());
    let bytes = resp.serialize();
    assert_eq!(
        bytes,
        b"HTTP/1.1 404\r\nContent-Length: 0\r\nContent-Type: text/plain\r\n\r\n".to_vec()
    );
}

#[test]
fn serialize_renders_headers_in_insertion_order() {
    let mut resp = HttpResponse::new(200, Pairs::new(), Some(b"text/plain".to_vec()), Vec::new());
    resp.set_header(b"X-One".to_vec(), b"1".to_vec());
    resp.set_header(b"X-Two".to_vec(), b"2".to_vec());
    let bytes = resp.serialize();
    assert_eq!(
        bytes,
        b"HTTP/1.1 200\r\nX-One: 1\r\nX-Two: 2\r\nContent-Length: 0\r\nContent-Type: text/plain\r\n\r\n"
            .to_vec()
    );
}

#[test]
fn set_header_replaces_value_in_place() {
    let mut resp = HttpResponse::new(200, Pairs::new(), None, Vec::new());
    resp.set_header(b"X-One".to_vec(), b"1".to_vec());
    resp.set_header(b"X-Two".to_vec(), b"2".to_vec());
    resp.set_header(b"X-One".to_vec(), b"9".to_vec());
    assert_eq!(resp.get_headers().len(), 2);
    assert_eq!(resp.get_headers().get(&b"X-One".to_vec()), Some(&b"9".to_vec()));
    assert_eq!(resp.get_headers().key_at(0), &b"X-One".to_vec());
}

#[test]
fn write_from_string_sets_body_and_content_type() {
    let mut resp = HttpResponse::new(200, Pairs::new(), None, Vec::new());
    HttpResponse::write_from_string(&mut resp, b"hello".to_vec());
    assert_eq!(resp.get_body(), &b"hello".to_vec());
    assert_eq!(resp.get_content_type(), &Some(b"text/plain".to_vec()));
}

#[test]
fn write_from_file_bytes_infers_content_type() {
    let mut resp = HttpResponse::new(200, Pairs::new(), None, Vec::new());
    HttpResponse::write_from_file_bytes(&mut resp, &b"assets/logo.png".to_vec(), vec![1, 2, 3]);
    assert_eq!(resp.get_body(), &vec![1, 2, 3]);
    assert_eq!(resp.get_content_type(), &Some(b"image/png".to_vec()));
}

#[test]
fn setters_and_getters_agree() {
    let mut resp = HttpResponse::new(0, Pairs::new(), None, Vec::new());
    assert_eq!(resp.get_status(), 0);
    resp.set_status(201);
    resp.set_body(b"abc".to_vec());
    resp.set_content_type(b"text/css".to_vec());
    assert_eq!(resp.get_status(), 201);
    assert_eq!(resp.get_body(), &b"abc".to_vec());
    assert_eq!(resp.get_content_type(), &Some(b"text/css".to_vec()));
}

#[test]
fn mimetype_mapping_matches_the_table() {
    let cases: Vec<(&[u8], &[u8])> = vec![
        (b"a/x.html", b"text/html"),
        (b"a/x.css", b"text/css"),
        (b"a/x.js", b"text/javascript"),
        (b"a/x.png", b"image/png"),
        (b"a/x.jpg", b"image/jpeg"),
        (b"a/x.jpeg", b"image/jpeg"),
        (b"a/x.gif", b"image/gif"),
        (b"a/x.ico", b"image/x-icon"),
        (b"a/x.pdf", b"application/pdf"),
        (b"a/x.txt", b"text/plain"),
        (b"a/noext", b"text/plain"),
        (b"a.css/noext", b"text/plain"),
    ];
    for (path, mime) in cases {
        assert_eq!(minihttp::helpers::path_to_mimetype(&path.to_vec()), mime.to_vec());
    }
}

#[test]
fn status_digits_render_in_decimal() {
    let resp = HttpResponse::new(65535, Pairs::new(), None, Vec::new());
    let bytes = resp.serialize();
    assert!(bytes.starts_with(b"HTTP/1.1 65535\r\n"));
}
