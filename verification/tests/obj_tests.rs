use http_packet::obj::body::Body;
use http_packet::obj::header::Header;
use http_packet::packet::PacketErr;
use http_packet::{Method, StatusCode, Version};

#[test]
fn obj_none1() {
    assert_eq!(
        Err(PacketErr::InvalidHttpVersion),
        Version::try_from_first_line("GET /api HTTP/2.0")
    );
}

#[test]
fn obj_valid_0_9__1() {
    assert_eq!(Ok(Version::V0_9), Version::try_from_first_line("GET /api"));
}

#[test]
fn obj_valid_0_9__2() {
    assert_eq!(Ok(Version::V0_9), Version::try_from_first_line("POST /"));
}

#[test]
fn obj_valid_1_0__1() {
    assert_eq!(Ok(Version::V1_0), Version::try_from_first_line("POST / HTTP/1.0"));
}

#[test]
fn obj_valid_1_1__1() {
    assert_eq!(Ok(Version::V1_1), Version::try_from_first_line("POST / HTTP/1.1"));
}

#[test]
fn version_none1() {
    assert_eq!(
        Err(PacketErr::InvalidHttpVersion),
        Version::try_from_first_line("GET /api HTTP/2.0")
    );
}

#[test]
fn version_valid_0_9__1() {
    assert_eq!(Ok(Version::V0_9), Version::try_from_first_line("GET /api"));
}

#[test]
fn version_valid_0_9__2() {
    assert_eq!(Ok(Version::V0_9), Version::try_from_first_line("POST /"));
}

#[test]
fn version_valid_1_0__1() {
    assert_eq!(Ok(Version::V1_0), Version::try_from_first_line("POST / HTTP/1.0"));
}

#[test]
fn version_valid_1_1__1() {
    assert_eq!(Ok(Version::V1_1), Version::try_from_first_line("POST / HTTP/1.1"));
}

#[test]
fn version_one_word_is_count_mismatch() {
    assert_eq!(
        Err(PacketErr::FirstLineWordCountMismatch),
        Version::try_from_first_line("GET")
    );
    assert_eq!(
        Err(PacketErr::FirstLineWordCountMismatch),
        Version::try_from_first_line("GET /a HTTP/1.0 x")
    );
}

#[test]
fn version_to_string_literals() {
    assert_eq!("", Version::V0_9.to_string());
    assert_eq!("HTTP/1.0", Version::V1_0.to_string());
    assert_eq!("HTTP/1.1", Version::V1_1.to_string());
}

#[test]
fn code_desc_200() {
    assert_eq!("200 OK", StatusCode::OK.code_and_description().as_str());
}

#[test]
fn code_desc_418() {
    assert_eq!("418 I'm a teapot", StatusCode::ImATeapot.code_and_description().as_str());
}

#[test]
fn status_int_round_trip() {
    let codes = [
        StatusCode::Continue,
        StatusCode::EarlyHints,
        StatusCode::OK,
        StatusCode::IMUsed,
        StatusCode::MovedPermanently,
        StatusCode::NotFound,
        StatusCode::ImATeapot,
        StatusCode::UnavailableForLegalReasons,
        StatusCode::InternalServerError,
        StatusCode::NetworkAuthenticationRequired,
    ];
    for c in codes {
        assert_eq!(Some(c.clone()), StatusCode::try_from_int(c.as_int()));
    }
}

#[test]
fn status_unsupported_ints() {
    assert_eq!(None, StatusCode::try_from_int(0));
    assert_eq!(None, StatusCode::try_from_int(99));
    assert_eq!(None, StatusCode::try_from_int(209));
    assert_eq!(None, StatusCode::try_from_int(600));
}

#[test]
fn status_line_single_word_reason() {
    assert_eq!(
        Ok(StatusCode::OK),
        StatusCode::try_from_first_res_line("HTTP/1.0 200 OK")
    );
    assert_eq!(
        Ok(StatusCode::Found),
        StatusCode::try_from_first_res_line("HTTP/1.1 302 Found")
    );
}

#[test]
fn status_line_multi_word_reason_rejected() {
    // the token-count check rejects any reason phrase of more than one word
    assert_eq!(
        Err(PacketErr::InvalidStatusLine),
        StatusCode::try_from_first_res_line("HTTP/1.0 404 Not Found")
    );
}

#[test]
fn status_line_bad_number() {
    assert_eq!(
        Err(PacketErr::InvalidStatusLine),
        StatusCode::try_from_first_res_line("HTTP/1.0 abc OK")
    );
    assert_eq!(
        Err(PacketErr::InvalidStatusLine),
        StatusCode::try_from_first_res_line("HTTP/1.0 999 OK")
    );
}

#[test]
fn method_tokens() {
    assert_eq!(Some(Method::Get), Method::try_from("GET"));
    assert_eq!(Some(Method::Connect), Method::try_from(" CONNECT "));
    assert_eq!(None, Method::try_from("get"));
    assert_eq!(None, Method::try_from("FETCH"));
    assert_eq!("PATCH", Method::Patch.to_string());
}

#[test]
fn header_splits_at_first_colon() {
    let h = Header::try_from("Key: Value").unwrap();
    assert_eq!("Key", h.key);
    assert_eq!(" Value", h.value);
    let h2 = Header::try_from("a:b:c").unwrap();
    assert_eq!("a", h2.key);
    assert_eq!("b:c", h2.value);
}

#[test]
fn header_without_colon_is_malformed() {
    assert_eq!(
        Err(PacketErr::MalformedHeader("no colon here".to_string())),
        Header::try_from("no colon here")
    );
}

#[test]
fn body_json_check() {
    assert!(Body("{\"a\": [1, 2]}".to_string()).is_valid_json());
    assert!(Body("42".to_string()).is_valid_json());
    assert!(!Body("not json".to_string()).is_valid_json());
    assert!(!Body("".to_string()).is_valid_json());
}
