use minihttp::server::{Router, Dispatch, static_file_path, static_response, default_response,
    chosen_response};
use minihttp::http_response::HttpResponse;
use minihttp::pairs::Pairs;

#[test]
fn second_registration_for_a_path_wins() {
    let mut router: Router<u32> = Router::new();
    router.add_handler(b"/a".to_vec(), 1);
    router.add_handler(b"/a".to_vec(), 2);
    assert_eq!(router.lookup(&b"/a".to_vec()), Some(&2));
}

#[test]
fn lookup_is_exact_match_only() {
    let mut router: Router<u32> = Router::new();
    router.add_handler(b"/a".to_vec(), 1);
    assert_eq!(router.lookup(&b"/a/b".to_vec()), None);
    assert_eq!(router.lookup(&b"/".to_vec()), None);
    assert_eq!(router.lookup(&b"/a".to_vec()), Some(&1));
}

#[test]
fn static_path_appends_index_html_on_trailing_slash() {
    assert_eq!(
        static_file_path(&b"assets".to_vec(), &b"/".to_vec()),
        b"assets/index.html".to_vec()
    );
    assert_eq!(
        static_file_path(&b"assets".to_vec(), &b"/sub/".to_vec()),
        b"assets/sub/index.html".to_vec()
    );
    assert_eq!(
        static_file_path(&b"assets".to_vec(), &b"/logo.png".to_vec()),
        b"assets/logo.png".to_vec()
    );
}

#[test]
fn resolved_static_file_wins_over_handlers() {
    let mut router: Router<u32> = Router::new();
    router.add_handler(b"/".to_vec(), 1);
    assert!(matches!(router.dispatch(true, &b"/".to_vec()), Dispatch::ServeStatic));
}

#[test]
fn unresolved_static_falls_through_to_the_route_table() {
    let mut router: Router<u32> = Router::new();
    router.add_handler(b"/".to_vec(), 7);
    match router.dispatch(false, &b"/".to_vec()) {
        Dispatch::Invoke(h) => assert_eq!(*h, 7),
        _ => panic!("expected the registered handler"),
    }
    assert!(matches!(router.dispatch(false, &b"/other".to_vec()), Dispatch::ServeDefault));
}

#[test]
fn static_response_carries_file_bytes_and_mime() {
    let resp = static_response(&b"assets/index.html".to_vec(), b"<html>".to_vec());
    assert_eq!(resp.get_status(), 200);
    assert_eq!(resp.get_body(), &b"<html>".to_vec());
    assert_eq!(resp.get_content_type(), &Some(b"text/html".to_vec()));
}

#[test]
fn default_response_has_status_zero_and_empty_body() {
    let resp = default_response();
    assert_eq!(resp.get_status(), 0);
    assert_eq!(resp.get_body(), &Vec::<u8>::new());
    assert_eq!(resp.get_content_type(), &None);
    let bytes = resp.serialize();
    assert_eq!(
        bytes,
        b"HTTP/1.1 0\r\nContent-Length: 0\r\nContent-Type: text/plain\r\n\r\n".to_vec()
    );
}

#[test]
fn handler_failure_response_replaces_the_mutated_one() {
    let mut mutated = default_response();
    mutated.set_status(200);
    let alt = HttpResponse::new(400, Pairs::new(), None, b"bad".to_vec());
    let served = chosen_response(Err(alt), mutated);
    assert_eq!(served.get_status(), 400);
    assert_eq!(served.get_body(), &b"bad".to_vec());

    let mut mutated2 = default_response();
    mutated2.set_status(200);
    mutated2.set_body(b"ok".to_vec());
    let served2 = chosen_response(Ok(()), mutated2);
    assert_eq!(served2.get_status(), 200);
    assert_eq!(served2.get_body(), &b"ok".to_vec());
}
