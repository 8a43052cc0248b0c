use socks_proxy::socks::data::{
    parse_port, port_to_bytes, AuthMethod, AuthReply, AuthRequest, EncodeError, NetAddr,
    ParseError, SocksCommand, SocksReply, SocksReplyStatus, SocksRequest,
};

fn reply(address: NetAddr, port: u16) -> SocksReply {
    SocksReply { version: 5, reply: SocksReplyStatus::Success, address, port }
}

fn round_trip(address: NetAddr, port: u16) {
    let bytes = reply(address.clone(), port).to_bytes().unwrap();
    let (decoded, rest) = SocksReply::parse(&bytes).unwrap();
    assert_eq!(decoded.address, address);
    assert_eq!(decoded.port, port);
    assert_eq!(decoded.version, 5);
    assert_eq!(decoded.reply, SocksReplyStatus::Success);
    assert!(rest.is_empty());
}

#[test]
fn auth_request_parses_methods_in_order() {
    let data = [5u8, 2, 2, 0, 9];
    let (request, rest) = AuthRequest::parse(&data).unwrap();
    assert_eq!(request.version, 5);
    assert_eq!(request.methods, vec![AuthMethod::Other, AuthMethod::Unauthorized]);
    assert_eq!(rest, &[9u8][..]);
}

#[test]
fn auth_request_keeps_any_version() {
    let (request, rest) = AuthRequest::parse(&[4u8, 1, 0]).unwrap();
    assert_eq!(request.version, 4);
    assert_eq!(request.methods, vec![AuthMethod::Unauthorized]);
    assert!(rest.is_empty());
}

#[test]
fn auth_request_without_methods() {
    let (request, rest) = AuthRequest::parse(&[5u8, 0, 7, 7]).unwrap();
    assert!(request.methods.is_empty());
    assert_eq!(rest, &[7u8, 7][..]);
}

#[test]
fn auth_request_reads_the_refusal_code_as_other() {
    let (request, _) = AuthRequest::parse(&[5u8, 1, 0xff]).unwrap();
    assert_eq!(request.methods, vec![AuthMethod::Other]);
}

#[test]
fn auth_request_waits_for_all_methods() {
    assert_eq!(AuthRequest::parse(&[]), Err(ParseError::Incomplete));
    assert_eq!(AuthRequest::parse(&[5u8]), Err(ParseError::Incomplete));
    assert_eq!(AuthRequest::parse(&[5u8, 2, 0]), Err(ParseError::Incomplete));
    assert_eq!(AuthRequest::parse(&[5u8, 255]), Err(ParseError::Incomplete));
}

#[test]
fn auth_request_with_all_255_methods() {
    let mut data = vec![5u8, 255];
    data.extend(std::iter::repeat(2u8).take(254));
    assert_eq!(AuthRequest::parse(&data), Err(ParseError::Incomplete));
    data.push(0);
    let (request, rest) = AuthRequest::parse(&data).unwrap();
    assert_eq!(request.methods.len(), 255);
    assert_eq!(request.methods[254], AuthMethod::Unauthorized);
    assert_eq!(request.methods[0], AuthMethod::Other);
    assert!(rest.is_empty());
}

#[test]
fn auth_reply_bytes() {
    let accept = AuthReply { version: 5, method: AuthMethod::Unauthorized };
    assert_eq!(accept.to_bytes(), [0x05, 0x00]);
    let refuse = AuthReply { version: 5, method: AuthMethod::NoMethod };
    assert_eq!(refuse.to_bytes(), [0x05, 0xff]);
}

#[test]
fn port_is_big_endian_both_ways() {
    assert_eq!(port_to_bytes(80), [0x00, 0x50]);
    assert_eq!(port_to_bytes(0x1234), [0x12, 0x34]);
    assert_eq!(port_to_bytes(0), [0, 0]);
    assert_eq!(port_to_bytes(65535), [0xff, 0xff]);
    assert_eq!(parse_port(&[0x12, 0x34, 9]), Ok((0x1234, &[9u8][..])));
    assert_eq!(parse_port(&[0x00, 0x50]), Ok((80, &[][..])));
    assert_eq!(parse_port(&[0x01, 0x00]), Ok((256, &[][..])));
    assert_eq!(parse_port(&[0xff]), Err(ParseError::Incomplete));
    assert_eq!(parse_port(&[]), Err(ParseError::Incomplete));
}

#[test]
fn every_port_survives_the_round_trip() {
    for port in 0..=65535u16 {
        let bytes = port_to_bytes(port);
        assert_eq!(parse_port(&bytes), Ok((port, &[][..])));
    }
}

#[test]
fn request_with_ipv4_address() {
    let data = [5u8, 1, 0, 1, 127, 0, 0, 1, 0, 80];
    let (request, rest) = SocksRequest::parse(&data).unwrap();
    assert_eq!(request.version, 5);
    assert_eq!(request.command, SocksCommand::Connect);
    assert_eq!(request.address, NetAddr::V4([127, 0, 0, 1]));
    assert_eq!(request.port, 80);
    assert!(rest.is_empty());
}

#[test]
fn request_with_ipv6_address() {
    let mut data = vec![5u8, 2, 0, 4];
    let octets: [u8; 16] = [0x20, 0x01, 0x0d, 0xb8, 0, 0, 0, 0, 0, 0, 0, 0, 0, 0, 0, 1];
    data.extend_from_slice(&octets);
    data.extend_from_slice(&[0x1f, 0x90, 0xaa]);
    let (request, rest) = SocksRequest::parse(&data).unwrap();
    assert_eq!(request.command, SocksCommand::Bind);
    assert_eq!(request.address, NetAddr::V6(octets));
    assert_eq!(request.port, 8080);
    assert_eq!(rest, &[0xaau8][..]);
}

#[test]
fn request_with_domain_name() {
    let mut data = vec![5u8, 3, 0, 3, 11];
    data.extend_from_slice(b"example.com");
    data.extend_from_slice(&[0x01, 0xbb]);
    let (request, rest) = SocksRequest::parse(&data).unwrap();
    assert_eq!(request.command, SocksCommand::Associate);
    assert_eq!(request.address, NetAddr::Name("example.com".to_string()));
    assert_eq!(request.port, 443);
    assert!(rest.is_empty());
}

#[test]
fn request_ignores_the_reserved_byte() {
    let data = [5u8, 1, 0xee, 1, 10, 0, 0, 1, 0, 22];
    let (request, _) = SocksRequest::parse(&data).unwrap();
    assert_eq!(request.address, NetAddr::V4([10, 0, 0, 1]));
    assert_eq!(request.port, 22);
}

#[test]
fn request_with_unknown_command_is_malformed() {
    assert_eq!(SocksRequest::parse(&[5u8, 0]), Err(ParseError::Malformed));
    assert_eq!(SocksRequest::parse(&[5u8, 4, 0, 1, 1, 2, 3, 4, 0, 80]), Err(ParseError::Malformed));
    assert_eq!(SocksRequest::parse(&[5u8, 0xff]), Err(ParseError::Malformed));
}

#[test]
fn request_with_unknown_address_type_is_malformed() {
    assert_eq!(SocksRequest::parse(&[5u8, 1, 0, 2]), Err(ParseError::Malformed));
    assert_eq!(SocksRequest::parse(&[5u8, 1, 0, 0, 1, 2, 3, 4, 0, 80]), Err(ParseError::Malformed));
    assert_eq!(SocksRequest::parse(&[5u8, 1, 0, 5, 1, 0]), Err(ParseError::Malformed));
}

#[test]
fn request_with_a_name_that_is_not_utf8_is_malformed() {
    let data = [5u8, 1, 0, 3, 2, 0xff, 0xfe, 0, 80];
    assert_eq!(SocksRequest::parse(&data), Err(ParseError::Malformed));
    let truncated_scalar = [5u8, 1, 0, 3, 1, 0xc3, 0, 80];
    assert_eq!(SocksRequest::parse(&truncated_scalar), Err(ParseError::Malformed));
}

#[test]
fn request_with_a_name_in_utf8() {
    let name = "b\u{fc}cher.example";
    let mut data = vec![5u8, 1, 0, 3, name.len() as u8];
    data.extend_from_slice(name.as_bytes());
    data.extend_from_slice(&[0, 80]);
    let (request, _) = SocksRequest::parse(&data).unwrap();
    assert_eq!(request.address, NetAddr::Name(name.to_string()));
}

#[test]
fn request_with_an_empty_name() {
    let data = [5u8, 1, 0, 3, 0, 0, 80];
    let (request, rest) = SocksRequest::parse(&data).unwrap();
    assert_eq!(request.address, NetAddr::Name(String::new()));
    assert_eq!(request.port, 80);
    assert!(rest.is_empty());
}

#[test]
fn request_cut_short_is_incomplete_at_every_length() {
    let mut whole = vec![5u8, 1, 0, 3, 11];
    whole.extend_from_slice(b"example.com");
    whole.extend_from_slice(&[0x01, 0xbb]);
    for cut in 0..whole.len() {
        assert_eq!(SocksRequest::parse(&whole[..cut]), Err(ParseError::Incomplete), "cut {}", cut);
    }
    assert!(SocksRequest::parse(&whole).is_ok());
    let v4 = [5u8, 1, 0, 1, 127, 0, 0, 1, 0, 80];
    for cut in 0..v4.len() {
        assert_eq!(SocksRequest::parse(&v4[..cut]), Err(ParseError::Incomplete), "cut {}", cut);
    }
    let mut v6 = vec![5u8, 1, 0, 4];
    v6.extend_from_slice(&[7u8; 16]);
    v6.extend_from_slice(&[0, 80]);
    for cut in 0..v6.len() {
        assert_eq!(SocksRequest::parse(&v6[..cut]), Err(ParseError::Incomplete), "cut {}", cut);
    }
}

#[test]
fn name_length_field_is_checked_against_what_is_there() {
    let data = [5u8, 1, 0, 3, 200, b'a', b'b'];
    assert_eq!(SocksRequest::parse(&data), Err(ParseError::Incomplete));
}

#[test]
fn address_alone_decodes_and_encodes() {
    let (addr, rest) = NetAddr::parse(&[1u8, 192, 168, 0, 1, 9]).unwrap();
    assert_eq!(addr, NetAddr::V4([192, 168, 0, 1]));
    assert_eq!(rest, &[9u8][..]);
    let mut out = vec![0xaau8];
    assert_eq!(addr.write_to(&mut out), Ok(()));
    assert_eq!(out, vec![0xaa, 1, 192, 168, 0, 1]);
    assert_eq!(NetAddr::parse(&[]), Err(ParseError::Incomplete));
    assert_eq!(NetAddr::parse(&[9u8]), Err(ParseError::Malformed));
}

#[test]
fn reply_bytes_for_ipv4() {
    let bytes = reply(NetAddr::V4([127, 0, 0, 1]), 80).to_bytes().unwrap();
    assert_eq!(bytes, vec![0x05, 0x00, 0x01, 0x7f, 0x00, 0x00, 0x01, 0x00, 0x50]);
}

#[test]
fn reply_bytes_for_failure() {
    let failed = SocksReply {
        version: 5,
        reply: SocksReplyStatus::Failure,
        address: NetAddr::V4([0, 0, 0, 0]),
        port: 0,
    };
    assert_eq!(failed.to_bytes().unwrap(), vec![5, 1, 1, 0, 0, 0, 0, 0, 0]);
}

#[test]
fn reply_bytes_for_ipv6() {
    let octets: [u8; 16] = [1, 2, 3, 4, 5, 6, 7, 8, 9, 10, 11, 12, 13, 14, 15, 16];
    let bytes = reply(NetAddr::V6(octets), 0x0102).to_bytes().unwrap();
    let mut expected = vec![5u8, 0, 4];
    expected.extend_from_slice(&octets);
    expected.extend_from_slice(&[1, 2]);
    assert_eq!(bytes, expected);
}

#[test]
fn reply_bytes_for_domain_name() {
    let bytes = reply(NetAddr::Name("a.io".to_string()), 443).to_bytes().unwrap();
    assert_eq!(bytes, vec![5, 0, 3, 4, b'a', b'.', b'i', b'o', 0x01, 0xbb]);
}

#[test]
fn reply_with_a_name_of_255_bytes_encodes() {
    let name = "n".repeat(255);
    let bytes = reply(NetAddr::Name(name.clone()), 1).to_bytes().unwrap();
    assert_eq!(bytes.len(), 2 + 2 + 255 + 2);
    assert_eq!(bytes[3], 255);
    round_trip(NetAddr::Name(name), 1);
}

#[test]
fn reply_with_a_name_of_256_bytes_is_an_error() {
    let name = "n".repeat(256);
    assert_eq!(reply(NetAddr::Name(name), 1).to_bytes(), Err(EncodeError::NameTooLong));
}

#[test]
fn name_length_counts_bytes_not_characters() {
    let fits = "\u{e9}".repeat(127);
    assert_eq!(fits.len(), 254);
    round_trip(NetAddr::Name(fits), 9);
    let too_long = "\u{e9}".repeat(128);
    assert_eq!(too_long.chars().count(), 128);
    let mut out = Vec::new();
    assert_eq!(NetAddr::Name(too_long).write_to(&mut out), Err(EncodeError::NameTooLong));
    assert!(out.is_empty());
}

#[test]
fn reply_round_trip_for_each_kind_of_address() {
    round_trip(NetAddr::V4([127, 0, 0, 1]), 80);
    round_trip(NetAddr::V4([0, 0, 0, 0]), 0);
    round_trip(NetAddr::V4([255, 255, 255, 255]), 65535);
    round_trip(NetAddr::V6([0; 16]), 1);
    round_trip(NetAddr::V6([0xff; 16]), 65535);
    round_trip(NetAddr::Name(String::new()), 53);
    round_trip(NetAddr::Name("example.com".to_string()), 443);
    round_trip(NetAddr::Name("\u{4f8b}\u{3048}.jp".to_string()), 8080);
}

#[test]
fn reply_parse_keeps_what_follows() {
    let mut bytes = reply(NetAddr::V4([1, 2, 3, 4]), 5).to_bytes().unwrap();
    bytes.extend_from_slice(&[0xde, 0xad]);
    let (decoded, rest) = SocksReply::parse(&bytes).unwrap();
    assert_eq!(decoded, reply(NetAddr::V4([1, 2, 3, 4]), 5));
    assert_eq!(rest, &[0xdeu8, 0xad][..]);
}

#[test]
fn reply_with_unknown_status_is_malformed() {
    assert_eq!(SocksReply::parse(&[5u8, 2, 1, 0, 0, 0, 0, 0, 0]), Err(ParseError::Malformed));
    assert_eq!(SocksReply::parse(&[5u8]), Err(ParseError::Incomplete));
    assert_eq!(SocksReply::parse(&[5u8, 0]), Err(ParseError::Incomplete));
}

#[test]
fn request_reads_the_address_block_of_a_reply() {
    let sent = reply(NetAddr::Name("proxy.test".to_string()), 1080).to_bytes().unwrap();
    let mut request = vec![5u8, 1, 0];
    request.extend_from_slice(&sent[2..]);
    let (parsed, rest) = SocksRequest::parse(&request).unwrap();
    assert_eq!(parsed.address, NetAddr::Name("proxy.test".to_string()));
    assert_eq!(parsed.port, 1080);
    assert!(rest.is_empty());
}

#[test]
fn cloned_address_is_equal() {
    let name = NetAddr::Name("copy.me".to_string());
    assert_eq!(name.clone(), name);
    let v6 = NetAddr::V6([3; 16]);
    assert_eq!(v6.clone(), v6);
}
