//! The CONNECT request, byte for byte.

use crate::http::HeaderMap;
use vstd::prelude::*;
use vstd::utf8::encode_utf8;

verus! {

/// The bytes of a piece of text.
pub open spec fn text(s: &str) -> Seq<u8> {
    encode_utf8(s@)
}

/// The decimal digits of `n` in ASCII, without leading zeros.
pub open spec fn decimal(n: nat) -> Seq<u8>
    decreases n,
{
    if n < 10 {
        seq![(0x30 + n) as u8]
    } else {
        decimal(n / 10).push((0x30 + n % 10) as u8)
    }
}

/// `<host>:<port>`.
pub open spec fn host_port(host: Seq<char>, port: u16) -> Seq<u8> {
    encode_utf8(host) + text(":") + decimal(port as nat)
}

/// `<name>: <value>\r\n`.
pub open spec fn header_line(header: (Seq<u8>, Seq<u8>)) -> Seq<u8> {
    header.0 + text(": ") + header.1 + text("\r\n")
}

/// The lines of `headers`, one behind the other in the order of `headers`.
pub open spec fn header_lines(headers: Seq<(Seq<u8>, Seq<u8>)>) -> Seq<u8>
    decreases headers.len(),
{
    if headers.len() == 0 {
        Seq::empty()
    } else {
        header_lines(headers.drop_last()) + header_line(headers.last())
    }
}

/// The whole request: the request line, the `Host` header, the headers
/// given, and the empty line that ends the head.
pub open spec fn request(host: Seq<char>, port: u16, headers: Seq<(Seq<u8>, Seq<u8>)>) -> Seq<u8> {
    text("CONNECT ") + host_port(host, port) + text(" HTTP/1.1\r\n")
        + text("Host: ") + host_port(host, port) + text("\r\n")
        + header_lines(headers)
        + text("\r\n")
}

/// Puts `bytes` behind what `writer` holds.
pub fn write_all(writer: &mut Vec<u8>, bytes: &[u8])
    ensures
        final(writer)@ == old(writer)@ + bytes@,
{
    writer.extend_from_slice(bytes);
    assert(writer@ =~= old(writer)@ + bytes@);
}

/// Puts the decimal digits of `n` behind what `writer` holds.
pub fn write_decimal(writer: &mut Vec<u8>, n: u16)
    ensures
        final(writer)@ == old(writer)@ + decimal(n as nat),
    decreases n,
{
    if n >= 10 {
        write_decimal(writer, n / 10);
    }
    let digit: u8 = 0x30 + (n % 10) as u8;
    writer.push(digit);
    assert(writer@ =~= old(writer)@ + decimal(n as nat));
}

/// Puts `<host>:<port>` behind what `writer` holds.
pub fn write_host_port(writer: &mut Vec<u8>, host: &str, port: u16)
    ensures
        final(writer)@ == old(writer)@ + host_port(host@, port),
{
    write_all(writer, host.as_bytes());
    write_all(writer, ":".as_bytes());
    write_decimal(writer, port);
    assert(writer@ =~= old(writer)@ + host_port(host@, port));
}

/// Puts one line for each header of `map` behind what `writer` holds, in
/// the order of the map, names and values as the map holds them.
pub fn write_headers(writer: &mut Vec<u8>, map: &HeaderMap)
    ensures
        final(writer)@ == old(writer)@ + header_lines(map@),
{
    let mut i: usize = 0;
    assert(writer@ =~= old(writer)@ + header_lines(map@.take(0)));
    while i < map.len()
        invariant
            i <= map@.len(),
            writer@ == old(writer)@ + header_lines(map@.take(i as int)),
        decreases map@.len() - i,
    {
        if let Some((name, value)) = map.entry(i) {
            write_all(writer, name);
            write_all(writer, ": ".as_bytes());
            write_all(writer, value.as_bytes());
            write_all(writer, "\r\n".as_bytes());
        }
        proof {
            let before = map@.take(i as int);
            let after = map@.take(i + 1);
            assert(after.drop_last() =~= before);
            assert(after.last() == map@[i as int]);
            assert(writer@ =~= old(writer)@ + header_lines(after));
        }
        i += 1;
    }
    assert(map@.take(i as int) =~= map@);
}

/// Puts the whole request for a tunnel to `host` and `port` behind what
/// `writer` holds.
pub fn write(writer: &mut Vec<u8>, host: &str, port: u16, headers: &HeaderMap)
    ensures
        final(writer)@ == old(writer)@ + request(host@, port, headers@),
{
    write_all(writer, "CONNECT ".as_bytes());
    write_host_port(writer, host, port);
    write_all(writer, " HTTP/1.1\r\n".as_bytes());

    write_all(writer, "Host: ".as_bytes());
    write_host_port(writer, host, port);
    write_all(writer, "\r\n".as_bytes());

    write_headers(writer, headers);

    write_all(writer, "\r\n".as_bytes());
    assert(writer@ =~= old(writer)@ + request(host@, port, headers@));
}

} // verus!
