use http_proxy_client_async::flow::request;
use http_proxy_client_async::flow::request::{write_decimal, write_headers, write_host_port};
use http_proxy_client_async::flow::{handshake, send_request};
use http_proxy_client_async::{HeaderMap, HeaderValue};
use std::io::{Cursor, Result, Write};

#[test]
fn send_request_without_headers() -> Result<()> {
    let sample_res = "CONNECT 127.0.0.1:8080 HTTP/1.1\r\n\
                      Host: 127.0.0.1:8080\r\n\
                      \r\n";
    let mut socket = Cursor::new(vec![0u8; 1024]);
    let headers = HeaderMap::new();
    socket.write_all(&send_request("127.0.0.1", 8080, &headers))?;

    assert_eq!(
        &socket.get_ref()[..socket.position() as usize],
        sample_res.as_bytes(),
    );
    Ok(())
}

#[test]
fn send_request_with_headers() -> Result<()> {
    let sample_res = "CONNECT 127.0.0.1:8080 HTTP/1.1\r\n\
                      Host: 127.0.0.1:8080\r\n\
                      proxy-authorization: Basic aGVsbG86d29ybGQ=\r\n\
                      \r\n";
    let mut socket = Cursor::new(vec![0u8; 1024]);
    let mut headers = HeaderMap::new();
    headers.insert(
        "Proxy-Authorization",
        HeaderValue::from_static("Basic aGVsbG86d29ybGQ="),
    );
    socket.write_all(&send_request("127.0.0.1", 8080, &headers))?;

    assert_eq!(
        &socket.get_ref()[..socket.position() as usize],
        sample_res.as_bytes(),
    );
    Ok(())
}

#[test]
fn send_request_test() -> Result<()> {
    let sample_res = "CONNECT 127.0.0.1:8080 HTTP/1.1\r\n\
                      Host: 127.0.0.1:8080\r\n\
                      \r\n";
    let mut socket = Cursor::new(vec![0u8; 1024]);
    socket.write_all(&send_request("127.0.0.1", 8080, &HeaderMap::new()))?;

    assert_eq!(
        &socket.get_ref()[..socket.position() as usize],
        sample_res.as_bytes(),
    );
    Ok(())
}

#[test]
fn request_keeps_header_order_and_duplicates() {
    let mut headers = HeaderMap::new();
    headers.insert("X-Second", HeaderValue::from_static("2"));
    headers.insert("X-First", HeaderValue::from_static("1"));
    headers.insert("x-second", HeaderValue::from_static("again"));
    let request = send_request("example.org", 443, &headers);
    assert_eq!(
        request,
        b"CONNECT example.org:443 HTTP/1.1\r\n\
          Host: example.org:443\r\n\
          x-second: 2\r\n\
          x-first: 1\r\n\
          x-second: again\r\n\
          \r\n"
            .to_vec(),
    );
}

#[test]
fn request_writes_values_byte_for_byte() {
    let mut headers = HeaderMap::new();
    headers.append(b"X-Raw", HeaderValue::from_bytes(&[b'a', 0xff, b' ', b'Z']));
    let request = send_request("h", 1, &headers);
    let mut expected = b"CONNECT h:1 HTTP/1.1\r\nHost: h:1\r\nx-raw: ".to_vec();
    expected.extend_from_slice(&[b'a', 0xff, b' ', b'Z']);
    expected.extend_from_slice(b"\r\n\r\n");
    assert_eq!(request, expected);
}

#[test]
fn request_encodes_the_host_as_utf8() {
    let request = send_request("bücher.example", 80, &HeaderMap::new());
    assert_eq!(
        request,
        "CONNECT bücher.example:80 HTTP/1.1\r\nHost: bücher.example:80\r\n\r\n".as_bytes(),
    );
}

#[test]
fn write_appends_to_what_the_writer_holds() {
    let mut writer = b"before".to_vec();
    request::write(&mut writer, "proxy", 3128, &HeaderMap::new());
    assert_eq!(
        writer,
        b"beforeCONNECT proxy:3128 HTTP/1.1\r\nHost: proxy:3128\r\n\r\n".to_vec(),
    );
}

#[test]
fn write_host_port_formats_every_width_of_port() {
    for (port, text) in [
        (0u16, "h:0"),
        (7, "h:7"),
        (10, "h:10"),
        (99, "h:99"),
        (100, "h:100"),
        (8080, "h:8080"),
        (10000, "h:10000"),
        (65535, "h:65535"),
    ] {
        let mut writer = Vec::new();
        write_host_port(&mut writer, "h", port);
        assert_eq!(writer, text.as_bytes());
    }
}

#[test]
fn write_decimal_agrees_with_the_standard_formatting() {
    for n in [0u16, 1, 9, 10, 11, 19, 20, 101, 999, 1000, 4096, 9999, 10001, 65534, 65535] {
        let mut writer = Vec::new();
        write_decimal(&mut writer, n);
        assert_eq!(writer, format!("{}", n).into_bytes());
    }
}

#[test]
fn write_headers_of_an_empty_map_writes_nothing() {
    let mut writer = b"x".to_vec();
    write_headers(&mut writer, &HeaderMap::new());
    assert_eq!(writer, b"x".to_vec());
}

#[test]
fn write_headers_writes_one_line_for_each_header() {
    let mut headers = HeaderMap::new();
    headers.insert("A", HeaderValue::from_static("1"));
    headers.insert("B", HeaderValue::from_static(""));
    let mut writer = Vec::new();
    write_headers(&mut writer, &headers);
    assert_eq!(writer, b"a: 1\r\nb: \r\n".to_vec());
}

#[test]
fn handshake_begins_with_the_request_and_a_fresh_receiver() {
    let mut headers = HeaderMap::new();
    headers.insert("User-Agent", HeaderValue::from_static("t"));
    let (request, receiver) = handshake("127.0.0.1", 8080, &headers);
    assert_eq!(request, send_request("127.0.0.1", 8080, &headers));
    assert_eq!(
        request,
        b"CONNECT 127.0.0.1:8080 HTTP/1.1\r\nHost: 127.0.0.1:8080\r\nuser-agent: t\r\n\r\n"
            .to_vec(),
    );
    let progress =
        http_proxy_client_async::flow::receive_response(receiver, b"HTTP/1.1 200 OK\r\n\r\n");
    assert!(matches!(
        progress,
        http_proxy_client_async::flow::Progress::Done(_)
    ));
}
