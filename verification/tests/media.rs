use loquazx::media::{
    content_type, parse_range, percent_decode, percent_encode, range_from_headers, reply_for,
    request_method_and_target, respond_error, MediaServer, Refusal, Reply,
};

fn target_of(url: &str) -> String {
    let after_scheme = url.strip_prefix("http://").unwrap();
    after_scheme[after_scheme.find('/').unwrap()..].to_string()
}

#[test]
fn sirve_el_archivo_completo() {
    let mut server = MediaServer::new(4000);
    let file = "/tmp/x/vídeo de prueba.mp4";
    let url = server.url_for(file, true).unwrap();
    let (method, target) = request_method_and_target(&format!("GET {} HTTP/1.1\r\n", target_of(&url)));
    let path = server.route(&method, &target).unwrap();
    assert_eq!(path, file);
    assert!(server.authorize(Some(&path)).is_ok());
    match reply_for(&method, None, 1000, &path) {
        Reply::Content { head, start, body_length, send_body } => {
            assert!(head.starts_with("HTTP/1.1 200 OK\r\n"));
            assert!(head.contains("Accept-Ranges: bytes"));
            assert!(head.contains("Content-Type: video/mp4"));
            assert!(head.contains("Content-Length: 1000\r\n"));
            assert_eq!((start, body_length, send_body), (0, 1000, true));
        }
        Reply::Unsatisfiable { .. } => panic!("expected content"),
    }
}

#[test]
fn sirve_rangos_parciales() {
    match reply_for("GET", Some("bytes=10-19".into()), 1000, "/a/b.mp4") {
        Reply::Content { head, start, body_length, .. } => {
            assert!(head.contains("206"));
            assert!(head.contains("Content-Range: bytes 10-19/1000"));
            assert_eq!((start, body_length), (10, 10));
        }
        Reply::Unsatisfiable { .. } => panic!("expected content"),
    }
    match reply_for("GET", Some("bytes=990-".into()), 1000, "/a/b.mp4") {
        Reply::Content { head, body_length, .. } => {
            assert!(head.contains("206"));
            assert_eq!(body_length, 10);
        }
        Reply::Unsatisfiable { .. } => panic!("expected content"),
    }
}

#[test]
fn rechaza_rango_fuera_del_archivo() {
    match reply_for("GET", Some("bytes=2000-".into()), 1000, "/a/b.mp4") {
        Reply::Unsatisfiable { head } => {
            assert_eq!(
                head,
                "HTTP/1.1 416 Range Not Satisfiable\r\nContent-Range: bytes */1000\r\nConnection: close\r\n\r\n"
            );
        }
        Reply::Content { .. } => panic!("expected a refusal"),
    }
}

#[test]
fn rechaza_token_invalido() {
    let mut server = MediaServer::new(4000);
    let url = server.url_for("/tmp/x/a.mp4", true).unwrap();
    let target = target_of(&url).replacen(&server.token(), "tokenfalso", 1);
    assert_eq!(server.route("GET", &target).err(), Some(Refusal::Forbidden));
    assert_eq!(Refusal::Forbidden.status(), "403 Forbidden");
}

#[test]
fn rechaza_archivo_no_registrado() {
    let mut server = MediaServer::new(4000);
    let registered = target_of(&server.url_for("/tmp/x/vídeo.mp4", true).unwrap());
    let target = registered.replace(
        &percent_encode("/tmp/x/vídeo.mp4"),
        &percent_encode("/tmp/x/secreto.txt"),
    );
    let path = server.route("GET", &target).unwrap();
    assert_eq!(server.authorize(Some(&path)).err(), Some(Refusal::Forbidden));
}

#[test]
fn url_para_archivo_inexistente_falla() {
    let mut server = MediaServer::new(4000);
    assert!(server.url_for("/tmp/x/nada.mp4", false).is_err());
    assert!(!server.is_allowed("/tmp/x/nada.mp4"));
}

#[test]
fn urls_carry_port_token_and_encoded_path() {
    let mut server = MediaServer::new(8123);
    let token = server.token();
    assert_eq!(token.len(), 32);
    let url = server.url_for("/a b/ñ.wav", true).unwrap();
    assert_eq!(url, format!("http://127.0.0.1:8123/{token}/%2Fa%20b/%C3%B1.wav").replace("%2F", "/"));
    assert!(server.is_allowed("/a b/ñ.wav"));
    // allowing again keeps one entry and gives the same URL
    assert_eq!(server.url_for("/a b/ñ.wav", true).unwrap(), url);
}

#[test]
fn percent_coding_round_trips() {
    assert_eq!(percent_encode("a-b_c.d~e/f"), "a-b_c.d~e/f");
    assert_eq!(percent_encode("¿?"), "%C2%BF%3F");
    assert_eq!(percent_decode("%C2%bf%3F").as_deref(), Some("¿?"));
    assert_eq!(percent_decode("%+5").as_deref(), Some("\u{5}"));
    assert_eq!(percent_decode("%4"), None);
    assert_eq!(percent_decode("%zz"), None);
    assert_eq!(percent_decode("%FF"), None);
}

#[test]
fn requests_are_refused_for_their_reason() {
    let server = MediaServer::new(1);
    assert_eq!(server.route("POST", "/x").err(), Some(Refusal::MethodNotAllowed));
    let bad = format!("/{}/%G0", server.token());
    assert_eq!(server.route("HEAD", &bad).err(), Some(Refusal::BadRequest));
    assert_eq!(server.authorize(None).err(), Some(Refusal::NotFound));
    assert_eq!(
        respond_error(Refusal::MethodNotAllowed.status()),
        "HTTP/1.1 405 Method Not Allowed\r\nContent-Length: 0\r\nConnection: close\r\n\r\n"
    );
}

#[test]
fn range_headers_are_read_case_insensitively() {
    let lines = vec!["Host: x".to_string(), "RANGE:  bytes=1-2 ".to_string(), "range: bytes=5-".to_string()];
    assert_eq!(range_from_headers(&lines).as_deref(), Some("bytes=5-"));
    assert_eq!(range_from_headers(&vec!["Host: x".to_string()]), None);
    assert_eq!(parse_range("bytes=0-0", 1), Some((0, 0)));
    assert_eq!(parse_range("bytes= 3 - 4 ", 10), Some((3, 4)));
    assert_eq!(parse_range("bytes=-4", 10), None);
    assert_eq!(parse_range("bytes=5-4", 10), None);
    assert_eq!(parse_range("bytes=0-", 0), None);
    assert_eq!(content_type("/a/B.WAV"), "audio/wav");
    assert_eq!(content_type("/a/b"), "application/octet-stream");
}

#[test]
fn rasterized_pages_are_served_as_png() {
    assert_eq!(content_type("/p/slides/pages/page-1.png"), "image/png");
    assert_eq!(content_type("/p/slides/pages/PAGE-2.PNG"), "image/png");
    assert_eq!(content_type("/p/slides/pages/page-1.pn"), "application/octet-stream");
}
