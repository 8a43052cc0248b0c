//! Laws of the wire codec: decoding undoes encoding, and what a decoder says
//! of a message does not change when more bytes arrive behind it.

use crate::socks::data::{
    spec_host_bytes, spec_parse_auth, spec_parse_host, spec_parse_port, spec_parse_reply,
    spec_parse_request, spec_port_bytes, spec_reply_bytes, AuthRequestView, NetAddrView,
    ParseError, SocksReplyView, SocksRequestView, ATYP_IPV4, ATYP_IPV6, ATYP_NAME, MAX_NAME_LEN,
};
use vstd::prelude::*;
use vstd::utf8::encode_utf8;

verus! {

/// Decoding the two bytes of a port gives the port back, and leaves what
/// follows them.
pub proof fn lemma_port_round_trip(port: u16, rest: Seq<u8>)
    ensures
        spec_parse_port(spec_port_bytes(port) + rest) == Ok::<_, ParseError>((port, rest)),
{
    let bytes = spec_port_bytes(port) + rest;
    assert(bytes.skip(2) =~= rest);
}

/// Decoding an encoded address gives the address back, and leaves what
/// follows it.
pub proof fn lemma_host_round_trip(addr: NetAddrView, rest: Seq<u8>)
    requires
        addr.encodable(),
    ensures
        spec_parse_host(spec_host_bytes(addr) + rest) == Ok::<_, ParseError>((addr, rest)),
{
    let bytes = spec_host_bytes(addr) + rest;
    match addr {
        NetAddrView::V4(octets) => {
            assert(bytes.subrange(1, 5) =~= octets);
            assert(bytes.skip(5) =~= rest);
        },
        NetAddrView::V6(octets) => {
            assert(bytes.subrange(1, 17) =~= octets);
            assert(bytes.skip(17) =~= rest);
        },
        NetAddrView::Name(name) => {
            let raw = encode_utf8(name);
            assert(bytes.subrange(2, 2 + bytes[1]) =~= raw);
            assert(bytes.skip(2 + bytes[1]) =~= rest);
            vstd::utf8::encode_utf8_valid_utf8(name);
            vstd::utf8::encode_utf8_decode_utf8(name);
        },
    }
}

/// Codec round trip: decoding an encoded reply gives back the same reply,
/// and with it the same address and port, for every IPv4 address, IPv6
/// address and domain name of at most 255 bytes, and every port.
pub proof fn lemma_reply_round_trip(reply: SocksReplyView, rest: Seq<u8>)
    requires
        reply.address.encodable(),
    ensures
        spec_parse_reply(spec_reply_bytes(reply) + rest) == Ok::<_, ParseError>((reply, rest)),
{
    let bytes = spec_reply_bytes(reply) + rest;
    let tail = spec_port_bytes(reply.port) + rest;
    assert(bytes.skip(2) =~= spec_host_bytes(reply.address) + tail);
    lemma_host_round_trip(reply.address, tail);
    lemma_port_round_trip(reply.port, rest);
}

/// Every address that a decoder returns can be encoded again: a parsed
/// domain name has at most 255 bytes. The decoder took at least one byte.
pub proof fn lemma_parsed_host_encodable(bytes: Seq<u8>)
    ensures
        spec_parse_host(bytes) matches Ok((addr, rest)) ==> addr.encodable() && bytes
            == spec_host_bytes(addr) + rest,
{
    if let Ok((NetAddrView::Name(name), rest)) = spec_parse_host(bytes) {
        vstd::utf8::decode_utf8_encode_utf8(bytes.subrange(2, 2 + bytes[1]));
    }
}

/// A port that was decoded stays decoded, with the same value, when more
/// bytes follow.
pub proof fn lemma_parse_port_extend(bytes: Seq<u8>, more: Seq<u8>)
    ensures
        spec_parse_port(bytes) matches Ok((port, rest)) ==> spec_parse_port(bytes + more)
            == Ok::<_, ParseError>((port, rest + more)),
{
    if bytes.len() >= 2 {
        assert((bytes + more).skip(2) =~= bytes.skip(2) + more);
    }
}

/// What the address decoder found, an address or a fault, it still finds
/// when more bytes follow.
pub proof fn lemma_parse_host_extend(bytes: Seq<u8>, more: Seq<u8>)
    ensures
        spec_parse_host(bytes) matches Ok((addr, rest)) ==> spec_parse_host(bytes + more)
            == Ok::<_, ParseError>((addr, rest + more)),
        spec_parse_host(bytes) == Err::<(NetAddrView, Seq<u8>), _>(ParseError::Malformed)
            ==> spec_parse_host(bytes + more) == Err::<(NetAddrView, Seq<u8>), _>(
            ParseError::Malformed,
        ),
{
    let all = bytes + more;
    if bytes.len() >= 1 {
        if bytes[0] == ATYP_IPV4 {
            if bytes.len() >= 5 {
                assert(all.subrange(1, 5) =~= bytes.subrange(1, 5));
                assert(all.skip(5) =~= bytes.skip(5) + more);
            }
        } else if bytes[0] == ATYP_IPV6 {
            if bytes.len() >= 17 {
                assert(all.subrange(1, 17) =~= bytes.subrange(1, 17));
                assert(all.skip(17) =~= bytes.skip(17) + more);
            }
        } else if bytes[0] == ATYP_NAME {
            if bytes.len() >= 2 && bytes.len() >= 2 + bytes[1] {
                assert(all.subrange(2, 2 + all[1]) =~= bytes.subrange(2, 2 + bytes[1]));
                assert(all.skip(2 + all[1]) =~= bytes.skip(2 + bytes[1]) + more);
            }
        }
    }
}

/// An authentication request that was decoded stays decoded, with the same
/// value, when more bytes follow. The decoder never finds a fault.
pub proof fn lemma_parse_auth_extend(bytes: Seq<u8>, more: Seq<u8>)
    ensures
        spec_parse_auth(bytes) matches Ok((request, rest)) ==> spec_parse_auth(bytes + more)
            == Ok::<_, ParseError>((request, rest + more)),
        spec_parse_auth(bytes) != Err::<(AuthRequestView, Seq<u8>), _>(ParseError::Malformed),
{
    let all = bytes + more;
    if let Ok((request, rest)) = spec_parse_auth(bytes) {
        let n = bytes[1] as int;
        assert(all.skip(2 + n) =~= rest + more);
        let found = spec_parse_auth(all)->Ok_0.0;
        assert(found.methods =~= request.methods);
    }
}

/// What the request decoder found, a request or a fault, it still finds
/// when more bytes follow.
pub proof fn lemma_parse_request_extend(bytes: Seq<u8>, more: Seq<u8>)
    ensures
        spec_parse_request(bytes) matches Ok((request, rest)) ==> spec_parse_request(bytes + more)
            == Ok::<_, ParseError>((request, rest + more)),
        spec_parse_request(bytes) == Err::<(SocksRequestView, Seq<u8>), _>(ParseError::Malformed)
            ==> spec_parse_request(bytes + more) == Err::<(SocksRequestView, Seq<u8>), _>(
            ParseError::Malformed,
        ),
{
    let all = bytes + more;
    if bytes.len() >= 3 {
        assert(all.skip(3) =~= bytes.skip(3) + more);
        lemma_parse_host_extend(bytes.skip(3), more);
        if let Ok((address, after_host)) = spec_parse_host(bytes.skip(3)) {
            lemma_parse_port_extend(after_host, more);
        }
    }
}

/// A decoder waits for more bytes only while a message could still follow:
/// an unfinished authentication request is shorter than 257 bytes, an
/// unfinished request shorter than 262.
pub proof fn lemma_incomplete_is_short(bytes: Seq<u8>)
    ensures
        spec_parse_auth(bytes) == Err::<(AuthRequestView, Seq<u8>), _>(ParseError::Incomplete)
            ==> bytes.len() < 2 + 255,
        spec_parse_request(bytes) == Err::<(SocksRequestView, Seq<u8>), _>(ParseError::Incomplete)
            ==> bytes.len() < 3 + 2 + MAX_NAME_LEN + 2,
{
    if bytes.len() >= 3 {
        lemma_parsed_host_encodable(bytes.skip(3));
    }
}

/// A decoder that returns a message has consumed at least two bytes of its
/// input, and its rest is the end of that input.
pub proof fn lemma_parse_consumes(bytes: Seq<u8>)
    ensures
        spec_parse_auth(bytes) matches Ok((_, rest)) ==> rest.len() + 2 <= bytes.len() && rest
            == bytes.skip(bytes.len() - rest.len()),
        spec_parse_request(bytes) matches Ok((_, rest)) ==> rest.len() + 2 <= bytes.len() && rest
            == bytes.skip(bytes.len() - rest.len()),
{
    if bytes.len() >= 3 {
        lemma_parsed_host_encodable(bytes.skip(3));
    }
}

} // verus!
