use http_packet::obj::body::Body;
use http_packet::obj::header::Header;
use http_packet::packet::{
    PacketErr, RequestPacket, RequestPacketBuilder, ResponsePacket, ResponsePacketBuilder,
};
use http_packet::{Method, StatusCode, Version};

#[test]
fn req_packet1() {
    let headers = vec![Header { key: "Key".into(), value: "Value".into() }];
    let method = Method::Get;
    let url = "/";
    let version = "HTTP/1.0";

    let rp = RequestPacket {
        method: method.clone(),
        url: url.to_string(),
        headers,
        version: Version::try_from_first_line(
            format!("{} {} {}", method.to_string(), url, version).as_str(),
        )
        .expect("Could not parse version"),
        body: None,
    };

    let str_repr = "GET / HTTP/1.0\r\nKey: Value\r\n\r\n";

    assert_eq!(str_repr, rp.to_string());
}

#[test]
fn too_many_words() {
    let input = "GET /api HTTP/1.0 a";
    let output = Err(PacketErr::FirstLineWordCountMismatch);
    assert_eq!(RequestPacketBuilder::try_from_str(input), output);
}

#[test]
fn joined() {
    let v = vec!["a"];
    let joined = v.join("\r\n");
    assert_eq!(joined, "a");
}

#[test]
fn request_parse_full() {
    let b = RequestPacketBuilder::try_from_str(
        "POST /submit HTTP/1.1\r\nHost: example.com\r\nAccept: */*\r\n\r\n{\"x\":1}",
    )
    .unwrap();
    let p = b.try_build().unwrap();
    assert_eq!(Method::Post, p.method);
    assert_eq!("/submit", p.url);
    assert_eq!(Version::V1_1, p.version);
    assert_eq!(2, p.headers.len());
    assert_eq!("Host", p.headers[0].key);
    assert_eq!(" example.com", p.headers[0].value);
    assert_eq!("Accept", p.headers[1].key);
    assert_eq!(" */*", p.headers[1].value);
    assert_eq!(Some(Body("{\"x\":1}".to_string())), p.body);
}

#[test]
fn request_parse_v0_9() {
    let b = RequestPacketBuilder::try_from_str("GET /api\r\n\r\n").unwrap();
    let p = b.try_build().unwrap();
    assert_eq!(Method::Get, p.method);
    assert_eq!("/api", p.url);
    assert_eq!(Version::V0_9, p.version);
    assert!(p.headers.is_empty());
    assert_eq!(None, p.body);
}

#[test]
fn request_round_trip_concrete() {
    let packet = RequestPacket {
        method: Method::Put,
        url: "/x".to_string(),
        version: Version::V1_1,
        headers: vec![Header { key: "K".into(), value: "V".into() }],
        body: Some(Body("hello\r\nworld".to_string())),
    };
    let wire = packet.to_string();
    assert_eq!("PUT /x HTTP/1.1\r\nK: V\r\n\r\nhello\r\nworld", wire);
    let back = RequestPacketBuilder::try_from_str(&wire).unwrap().try_build().unwrap();
    assert_eq!(packet.method, back.method);
    assert_eq!(packet.url, back.url);
    assert_eq!(packet.version, back.version);
    assert_eq!(packet.body, back.body);
    assert_eq!(1, back.headers.len());
    assert_eq!("K", back.headers[0].key);
    // the separator space is folded into the value on reparse
    assert_eq!(" V", back.headers[0].value);
}

#[test]
fn request_parse_invalid_method() {
    assert_eq!(
        Err(PacketErr::InvalidMethod),
        RequestPacketBuilder::try_from_str("FETCH / HTTP/1.0\r\n\r\n")
    );
}

#[test]
fn request_parse_invalid_version() {
    assert_eq!(
        Err(PacketErr::InvalidHttpVersion),
        RequestPacketBuilder::try_from_str("GET / HTTP/9.9\r\n\r\n")
    );
}

#[test]
fn request_parse_no_header_end() {
    assert_eq!(
        Err(PacketErr::NoHeaderEndFound),
        RequestPacketBuilder::try_from_str("GET / HTTP/1.0\r\nHost: x")
    );
}

#[test]
fn request_parse_malformed_header() {
    assert_eq!(
        Err(PacketErr::MalformedHeader("nocolon".to_string())),
        RequestPacketBuilder::try_from_str("GET / HTTP/1.0\r\nnocolon\r\n\r\n")
    );
}

#[test]
fn request_builder_missing_fields() {
    assert_eq!(
        Err(PacketErr::MissingMethod),
        RequestPacketBuilder::new().try_build()
    );
    assert_eq!(
        Err(PacketErr::MissingURL),
        RequestPacketBuilder::new().method(Method::Get).try_build()
    );
    assert_eq!(
        Err(PacketErr::MissingVersion),
        RequestPacketBuilder::new().method(Method::Get).url("/").try_build()
    );
}

#[test]
fn request_builder_setters() {
    let p = RequestPacketBuilder::new()
        .method(Method::Head)
        .url("/here")
        .version(Version::V1_0)
        .header(("A", "1"))
        .headers(vec![Header { key: "B".into(), value: "2".into() }])
        .body("payload")
        .try_build()
        .unwrap();
    assert_eq!(Method::Head, p.method);
    assert_eq!("/here", p.url);
    assert_eq!(Version::V1_0, p.version);
    assert_eq!(2, p.headers.len());
    assert_eq!("A", p.headers[0].key);
    assert_eq!("1", p.headers[0].value);
    assert_eq!("B", p.headers[1].key);
    assert_eq!(Some(Body("payload".to_string())), p.body);
}

#[test]
fn response_parse_with_body() {
    let b = ResponsePacketBuilder::try_from_str(
        "HTTP/1.0 200 OK\r\nContent-Length: 13\r\n\r\nHello, world!",
    )
    .unwrap();
    let p = b.try_build().unwrap();
    assert_eq!(Version::V1_0, p.version);
    assert_eq!(Some(StatusCode::OK), p.status);
    let hs = p.headers.clone().unwrap();
    assert_eq!(1, hs.len());
    assert_eq!("Content-Length", hs[0].key);
    assert_eq!(" 13", hs[0].value);
    assert_eq!(Some(Body("Hello, world!".to_string())), p.body);
}

#[test]
fn response_parse_blank_input() {
    assert_eq!(
        Err(PacketErr::InvalidLines),
        ResponsePacketBuilder::try_from_str("   \r\n")
    );
    assert_eq!(Err(PacketErr::InvalidLines), ResponsePacketBuilder::try_from_str(""));
}

#[test]
fn response_parse_too_few_segments() {
    assert_eq!(
        Err(PacketErr::InvalidLines),
        ResponsePacketBuilder::try_from_str("HTTP/1.0 200 OK\r\n")
    );
}

#[test]
fn response_parse_no_headers_normalized() {
    let b = ResponsePacketBuilder::try_from_str("HTTP/1.1 200 OK\r\n\r\nbody").unwrap();
    assert_eq!(Some(Version::V1_1), b.version);
    assert_eq!(Some(StatusCode::OK), b.status);
    assert_eq!(None, b.headers);
    assert_eq!(Some(Body("body".to_string())), b.body);
}

#[test]
fn response_parse_bad_status_line() {
    assert_eq!(
        Err(PacketErr::InvalidStatusLine),
        ResponsePacketBuilder::try_from_str("HTTP/1.0 999 OK\r\nA: b\r\n\r\n")
    );
    assert_eq!(
        Err(PacketErr::InvalidHttpVersion),
        ResponsePacketBuilder::try_from_str("HTTPS/1.0 200 OK\r\nA: b\r\n\r\n")
    );
}

#[test]
fn response_builder_requirements() {
    assert_eq!(Err(PacketErr::NoVersionFound), ResponsePacketBuilder::new().try_build());
    assert_eq!(
        Err(PacketErr::NoStatusCode),
        ResponsePacketBuilder::new().version(Version::V1_0).try_build()
    );
    // V0_9 imposes no field requirement at build time
    let p = ResponsePacketBuilder::new().version(Version::V0_9).try_build().unwrap();
    assert_eq!(Version::V0_9, p.version);
    assert_eq!(None, p.status);
}

#[test]
fn response_render_v0_9_is_body_alone() {
    let p = ResponsePacketBuilder::new()
        .version(Version::V0_9)
        .body("<p>That's it</p>")
        .try_build()
        .unwrap();
    assert_eq!(Ok("<p>That's it</p>".to_string()), p.try_to_string());
}

#[test]
fn response_render_v0_9_without_body_fails() {
    let p = ResponsePacketBuilder::new().version(Version::V0_9).try_build().unwrap();
    assert_eq!(Err(PacketErr::NoBody), p.try_to_string());
}

#[test]
fn response_render_v1_0_with_headers() {
    let p = ResponsePacketBuilder::new()
        .version(Version::V1_0)
        .status(StatusCode::OK)
        .header(("Content-Length", "13"))
        .body("Hello, world!")
        .try_build()
        .unwrap();
    assert_eq!(
        Ok("HTTP/1.0 200 OK\r\nContent-Length: 13\r\n\r\nHello, world!".to_string()),
        p.try_to_string()
    );
}

#[test]
fn response_render_without_headers_emits_no_blank_line() {
    // when no header sequence is present at all, no blank-line separator
    // is written: the body follows the status line directly
    let p = ResponsePacket {
        version: Version::V1_1,
        status: Some(StatusCode::NotFound),
        headers: None,
        body: Some(Body("gone".to_string())),
    };
    assert_eq!(Ok("HTTP/1.1 404 Not Found\r\ngone".to_string()), p.try_to_string());
    // an explicitly empty header sequence still gets the blank line
    let q = ResponsePacket {
        version: Version::V1_1,
        status: Some(StatusCode::NotFound),
        headers: Some(Vec::new()),
        body: Some(Body("gone".to_string())),
    };
    assert_eq!(Ok("HTTP/1.1 404 Not Found\r\n\r\ngone".to_string()), q.try_to_string());
}

#[test]
fn response_render_missing_status_fails() {
    let p = ResponsePacket {
        version: Version::V1_0,
        status: None,
        headers: None,
        body: None,
    };
    assert_eq!(Err(PacketErr::NoStatusCode), p.try_to_string());
}
