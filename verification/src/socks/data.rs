//! Wire codec for SOCKS5 messages.
//!
//! Every decoder takes a byte slice and returns the parsed value with the
//! unconsumed rest of the slice, or says why it could not: the input stops
//! short of a whole message, or it cannot be the start of any message.

use byteorder::{ByteOrder, NetworkEndian};
use vstd::prelude::*;
use vstd::slice::slice_to_vec;
use vstd::utf8::{decode_utf8, encode_utf8, valid_utf8};

verus! {

/// The protocol version this server speaks.
pub const SOCKS_VERSION: u8 = 5;

/// Method code of "no authentication required".
pub const METHOD_UNAUTHORIZED: u8 = 0x00;

/// Method code that tells the client that none of its methods is acceptable.
pub const METHOD_NONE_ACCEPTABLE: u8 = 0xff;

/// Address type code of a 4-byte IPv4 address.
pub const ATYP_IPV4: u8 = 0x01;

/// Address type code of a length-prefixed domain name.
pub const ATYP_NAME: u8 = 0x03;

/// Address type code of a 16-byte IPv6 address.
pub const ATYP_IPV6: u8 = 0x04;

/// Command code of CONNECT.
pub const CMD_CONNECT: u8 = 0x01;

/// Command code of BIND.
pub const CMD_BIND: u8 = 0x02;

/// Command code of UDP ASSOCIATE.
pub const CMD_ASSOCIATE: u8 = 0x03;

/// Reply code of a granted request.
pub const REP_SUCCESS: u8 = 0x00;

/// Reply code of a refused request.
pub const REP_FAILURE: u8 = 0x01;

/// The longest domain name, in bytes, that its one-byte length prefix can announce.
pub const MAX_NAME_LEN: usize = 255;

/// Why a decoder returned no message.
#[derive(Clone, Copy, Debug, PartialEq, Eq, Structural)]
pub enum ParseError {
    /// The bytes are the start of a message, but more are needed.
    Incomplete,
    /// No message starts with these bytes.
    Malformed,
}

/// Why an encoder returned no bytes.
#[derive(Clone, Copy, Debug, PartialEq, Eq, Structural)]
pub enum EncodeError {
    /// A domain name is longer than its length prefix can say.
    NameTooLong,
}

/// An authentication method, as far as this server tells them apart.
#[derive(Clone, Copy, Debug, PartialEq, Eq, Structural)]
pub enum AuthMethod {
    /// No authentication required.
    Unauthorized,
    /// The reply that refuses every offered method.
    NoMethod,
    /// Any method this server does not implement.
    Other,
}

/// The method that a code on the wire stands for in a client's offer.
pub open spec fn spec_method_of(code: u8) -> AuthMethod {
    if code == METHOD_UNAUTHORIZED {
        AuthMethod::Unauthorized
    } else {
        AuthMethod::Other
    }
}

/// The client's opening message: its version and the methods it offers.
#[derive(Debug, PartialEq, Eq)]
pub struct AuthRequest {
    pub version: u8,
    pub methods: Vec<AuthMethod>,
}

/// Mathematical value of an [`AuthRequest`].
pub struct AuthRequestView {
    pub version: u8,
    pub methods: Seq<AuthMethod>,
}

impl View for AuthRequest {
    type V = AuthRequestView;

    open spec fn view(&self) -> AuthRequestView {
        AuthRequestView { version: self.version, methods: self.methods@ }
    }
}

/// What the first bytes of `bytes` say as an authentication request:
/// a version byte, a count `n`, then `n` method codes.
pub open spec fn spec_parse_auth(bytes: Seq<u8>) -> Result<(AuthRequestView, Seq<u8>), ParseError> {
    if bytes.len() < 2 || bytes.len() < 2 + bytes[1] {
        Err(ParseError::Incomplete)
    } else {
        let n = bytes[1] as int;
        Ok(
            (
                AuthRequestView {
                    version: bytes[0],
                    methods: Seq::new(n as nat, |i: int| spec_method_of(bytes[2 + i])),
                },
                bytes.skip(2 + n),
            ),
        )
    }
}

impl AuthRequest {
    /// Decodes an authentication request from the front of `data`.
    pub fn parse<'a>(data: &'a [u8]) -> (r: Result<(AuthRequest, &'a [u8]), ParseError>)
        ensures
            match r {
                Ok((request, rest)) => spec_parse_auth(data@) == Ok::<_, ParseError>(
                    (request@, rest@),
                ),
                Err(e) => spec_parse_auth(data@) == Err::<(AuthRequestView, Seq<u8>), _>(e),
            },
    {
        if data.len() < 2 {
            return Err(ParseError::Incomplete);
        }
        let version = data[0];
        let n_methods = data[1] as usize;
        if data.len() - 2 < n_methods {
            return Err(ParseError::Incomplete);
        }
        let mut methods: Vec<AuthMethod> = Vec::new();
        let mut i: usize = 0;
        while i < n_methods
            invariant
                i <= n_methods,
                2 + n_methods <= data.len(),
                methods@.len() == i,
                forall|j: int| 0 <= j < i ==> methods@[j] == spec_method_of(data@[2 + j]),
            decreases n_methods - i,
        {
            let method = if data[2 + i] == METHOD_UNAUTHORIZED {
                AuthMethod::Unauthorized
            } else {
                AuthMethod::Other
            };
            methods.push(method);
            i = i + 1;
        }
        let rest = &data[2 + n_methods..data.len()];
        let request = AuthRequest { version, methods };
        proof {
            let n = data@[1] as int;
            assert(request@.methods =~= Seq::new(
                n as nat,
                |i: int| spec_method_of(data@[2 + i]),
            ));
        }
        Ok((request, rest))
    }
}

/// The server's answer to an [`AuthRequest`]: the method it chose, or
/// [`AuthMethod::NoMethod`] when it accepts none of those offered.
#[derive(Debug, PartialEq, Eq)]
pub struct AuthReply {
    pub version: u8,
    pub method: AuthMethod,
}

/// The code that stands for `method` in a reply. [`AuthMethod::Other`] names
/// no single method, so it has no code of its own.
pub open spec fn spec_method_code(method: AuthMethod) -> u8
    recommends
        method != AuthMethod::Other,
{
    match method {
        AuthMethod::Unauthorized => METHOD_UNAUTHORIZED,
        _ => METHOD_NONE_ACCEPTABLE,
    }
}

impl AuthReply {
    /// The two bytes of the reply: the version, then the method's code.
    pub fn to_bytes(&self) -> (bytes: [u8; 2])
        requires
            self.method != AuthMethod::Other,
        ensures
            bytes@ == seq![self.version, spec_method_code(self.method)],
    {
        let code: u8 = match self.method {
            AuthMethod::Unauthorized => METHOD_UNAUTHORIZED,
            _ => METHOD_NONE_ACCEPTABLE,
        };
        let bytes: [u8; 2] = [self.version, code];
        bytes
    }
}

/// The port that two bytes in network order stand for.
pub open spec fn spec_port_of(high: u8, low: u8) -> u16 {
    (high as int * 256 + low as int) as u16
}

/// The two bytes of a port, most significant first.
pub open spec fn spec_port_bytes(port: u16) -> Seq<u8> {
    seq![(port / 256) as u8, (port % 256) as u8]
}

/// What the first two bytes of `bytes` say as a port.
pub open spec fn spec_parse_port(bytes: Seq<u8>) -> Result<(u16, Seq<u8>), ParseError> {
    if bytes.len() < 2 {
        Err(ParseError::Incomplete)
    } else {
        Ok((spec_port_of(bytes[0], bytes[1]), bytes.skip(2)))
    }
}

/// `byteorder::ByteOrder::read_u16` for the network byte order: the first
/// byte of the buffer is the high half of the result and the second its low
/// half. The crate's function panics on a buffer of fewer than two bytes.
#[verifier::external_body]
fn read_u16_be(buf: &[u8]) -> (r: u16)
    requires
        buf@.len() >= 2,
    ensures
        r == spec_port_of(buf@[0], buf@[1]),
{
    NetworkEndian::read_u16(buf)
}

/// Decodes a port from the front of `data`.
pub fn parse_port<'a>(data: &'a [u8]) -> (r: Result<(u16, &'a [u8]), ParseError>)
    ensures
        match r {
            Ok((port, rest)) => spec_parse_port(data@) == Ok::<_, ParseError>((port, rest@)),
            Err(e) => spec_parse_port(data@) == Err::<(u16, Seq<u8>), _>(e),
        },
{
    if data.len() < 2 {
        return Err(ParseError::Incomplete);
    }
    let port: u16 = read_u16_be(data);
    let rest = &data[2..data.len()];
    Ok((port, rest))
}

/// Encodes a port: its high byte, then its low byte.
pub fn port_to_bytes(port: u16) -> (bytes: [u8; 2])
    ensures
        bytes@ == spec_port_bytes(port),
{
    let high: u8 = (port >> 8) as u8;
    let low: u8 = (port & 0xff) as u8;
    assert(high == (port / 256) as u8 && low == (port % 256) as u8) by (bit_vector)
        requires
            high == (port >> 8) as u8,
            low == (port & 0xff) as u8,
    ;
    let bytes: [u8; 2] = [high, low];
    bytes
}

/// The address of a target host.
#[derive(Debug, PartialEq, Eq)]
pub enum NetAddr {
    /// The four octets of an IPv4 address, in network order.
    V4([u8; 4]),
    /// The sixteen octets of an IPv6 address, in network order.
    V6([u8; 16]),
    /// A domain name.
    Name(String),
}

/// Mathematical value of a [`NetAddr`].
pub enum NetAddrView {
    V4(Seq<u8>),
    V6(Seq<u8>),
    Name(Seq<char>),
}

impl NetAddrView {
    /// The octet counts that every [`NetAddr`] has.
    pub open spec fn well_formed(self) -> bool {
        match self {
            NetAddrView::V4(octets) => octets.len() == 4,
            NetAddrView::V6(octets) => octets.len() == 16,
            NetAddrView::Name(_) => true,
        }
    }

    /// Whether the address has an encoding: a domain name must fit its
    /// one-byte length prefix.
    pub open spec fn encodable(self) -> bool {
        &&& self.well_formed()
        &&& self matches NetAddrView::Name(name) ==> encode_utf8(name).len() <= MAX_NAME_LEN
    }
}

impl View for NetAddr {
    type V = NetAddrView;

    open spec fn view(&self) -> NetAddrView {
        match self {
            NetAddr::V4(octets) => NetAddrView::V4(octets@),
            NetAddr::V6(octets) => NetAddrView::V6(octets@),
            NetAddr::Name(name) => NetAddrView::Name(name@),
        }
    }
}

impl Clone for NetAddr {
    fn clone(&self) -> (r: Self)
        ensures
            r@ == self@,
    {
        match self {
            NetAddr::V4(octets) => NetAddr::V4(*octets),
            NetAddr::V6(octets) => NetAddr::V6(*octets),
            NetAddr::Name(name) => NetAddr::Name(name.clone()),
        }
    }
}

/// The address type byte and the address that follows it.
pub open spec fn spec_host_bytes(addr: NetAddrView) -> Seq<u8> {
    match addr {
        NetAddrView::V4(octets) => seq![ATYP_IPV4] + octets,
        NetAddrView::V6(octets) => seq![ATYP_IPV6] + octets,
        NetAddrView::Name(name) => seq![ATYP_NAME, encode_utf8(name).len() as u8] + encode_utf8(
            name,
        ),
    }
}

/// What the first bytes of `bytes` say as an address: one type byte, then
/// 4 octets, 16 octets, or a length byte and a name of that many bytes,
/// which must be UTF-8.
pub open spec fn spec_parse_host(bytes: Seq<u8>) -> Result<(NetAddrView, Seq<u8>), ParseError> {
    if bytes.len() < 1 {
        Err(ParseError::Incomplete)
    } else if bytes[0] == ATYP_IPV4 {
        if bytes.len() < 5 {
            Err(ParseError::Incomplete)
        } else {
            Ok((NetAddrView::V4(bytes.subrange(1, 5)), bytes.skip(5)))
        }
    } else if bytes[0] == ATYP_IPV6 {
        if bytes.len() < 17 {
            Err(ParseError::Incomplete)
        } else {
            Ok((NetAddrView::V6(bytes.subrange(1, 17)), bytes.skip(17)))
        }
    } else if bytes[0] == ATYP_NAME {
        if bytes.len() < 2 || bytes.len() < 2 + bytes[1] {
            Err(ParseError::Incomplete)
        } else {
            let name = bytes.subrange(2, 2 + bytes[1]);
            if valid_utf8(name) {
                Ok((NetAddrView::Name(decode_utf8(name)), bytes.skip(2 + bytes[1])))
            } else {
                Err(ParseError::Malformed)
            }
        }
    } else {
        Err(ParseError::Malformed)
    }
}

/// The error of `String::from_utf8`.
#[verifier::external_type_specification]
#[verifier::external_body]
pub struct ExFromUtf8Error(std::string::FromUtf8Error);

/// `String::from_utf8`: succeeds exactly on well-formed UTF-8, and the string
/// it returns holds the bytes it was given.
#[verifier::external_body]
fn string_from_utf8(bytes: Vec<u8>) -> (r: Result<String, std::string::FromUtf8Error>)
    ensures
        r is Ok <==> valid_utf8(bytes@),
        r matches Ok(s) ==> encode_utf8(s@) == bytes@,
{
    String::from_utf8(bytes)
}

impl NetAddr {
    /// Decodes an address type byte and the address it announces from the
    /// front of `data`.
    pub fn parse<'a>(data: &'a [u8]) -> (r: Result<(NetAddr, &'a [u8]), ParseError>)
        ensures
            match r {
                Ok((addr, rest)) => spec_parse_host(data@) == Ok::<_, ParseError>(
                    (addr@, rest@),
                ),
                Err(e) => spec_parse_host(data@) == Err::<(NetAddrView, Seq<u8>), _>(e),
            },
    {
        if data.len() < 1 {
            return Err(ParseError::Incomplete);
        }
        let addr_type: u8 = data[0];
        if addr_type == ATYP_IPV4 {
            if data.len() < 5 {
                return Err(ParseError::Incomplete);
            }
            let octets: [u8; 4] = [data[1], data[2], data[3], data[4]];
            let rest = &data[5..data.len()];
            proof {
                assert(octets@ =~= data@.subrange(1, 5));
            }
            Ok((NetAddr::V4(octets), rest))
        } else if addr_type == ATYP_IPV6 {
            if data.len() < 17 {
                return Err(ParseError::Incomplete);
            }
            let octets: [u8; 16] = [
                data[1],
                data[2],
                data[3],
                data[4],
                data[5],
                data[6],
                data[7],
                data[8],
                data[9],
                data[10],
                data[11],
                data[12],
                data[13],
                data[14],
                data[15],
                data[16],
            ];
            let rest = &data[17..data.len()];
            proof {
                assert(octets@ =~= data@.subrange(1, 17));
            }
            Ok((NetAddr::V6(octets), rest))
        } else if addr_type == ATYP_NAME {
            if data.len() < 2 {
                return Err(ParseError::Incomplete);
            }
            let len = data[1] as usize;
            if data.len() - 2 < len {
                return Err(ParseError::Incomplete);
            }
            let raw: Vec<u8> = slice_to_vec(&data[2..2 + len]);
            match string_from_utf8(raw) {
                Ok(name) => {
                    let rest = &data[2 + len..data.len()];
                    proof {
                        vstd::utf8::encode_utf8_decode_utf8(name@);
                    }
                    Ok((NetAddr::Name(name), rest))
                },
                Err(_) => Err(ParseError::Malformed),
            }
        } else {
            Err(ParseError::Malformed)
        }
    }

    /// Appends the address type byte and the address to `out`, or leaves
    /// `out` as it is when a domain name is too long to encode.
    pub fn write_to(&self, out: &mut Vec<u8>) -> (r: Result<(), EncodeError>)
        ensures
            r is Ok <==> self@.encodable(),
            r is Ok ==> final(out)@ == old(out)@ + spec_host_bytes(self@),
            r is Err ==> final(out)@ == old(out)@,
    {
        match self {
            NetAddr::V4(octets) => {
                out.push(ATYP_IPV4);
                out.push(octets[0]);
                out.push(octets[1]);
                out.push(octets[2]);
                out.push(octets[3]);
                Ok(())
            },
            NetAddr::V6(octets) => {
                out.push(ATYP_IPV6);
                let mut i: usize = 0;
                while i < 16
                    invariant
                        i <= 16,
                        out@ =~= old(out)@ + seq![ATYP_IPV6] + octets@.subrange(0, i as int),
                    decreases 16 - i,
                {
                    out.push(octets[i]);
                    i = i + 1;
                }
                Ok(())
            },
            NetAddr::Name(name) => {
                let raw: &[u8] = name.as_str().as_bytes();
                if raw.len() > MAX_NAME_LEN {
                    return Err(EncodeError::NameTooLong);
                }
                out.push(ATYP_NAME);
                out.push(raw.len() as u8);
                let mut i: usize = 0;
                while i < raw.len()
                    invariant
                        i <= raw.len(),
                        raw@.len() <= MAX_NAME_LEN,
                        out@ =~= old(out)@ + seq![ATYP_NAME, raw@.len() as u8] + raw@.subrange(
                            0,
                            i as int,
                        ),
                    decreases raw.len() - i,
                {
                    out.push(raw[i]);
                    i = i + 1;
                }
                Ok(())
            },
        }
    }
}

/// What a client may ask the server to do.
#[derive(Clone, Copy, Debug, PartialEq, Eq, Structural)]
pub enum SocksCommand {
    Connect,
    Bind,
    Associate,
}

/// The command that a code on the wire stands for, if any.
pub open spec fn spec_command_of(code: u8) -> Option<SocksCommand> {
    if code == CMD_CONNECT {
        Some(SocksCommand::Connect)
    } else if code == CMD_BIND {
        Some(SocksCommand::Bind)
    } else if code == CMD_ASSOCIATE {
        Some(SocksCommand::Associate)
    } else {
        None
    }
}

/// The client's request, sent once a method is agreed.
#[derive(Debug, PartialEq, Eq)]
pub struct SocksRequest {
    pub version: u8,
    pub command: SocksCommand,
    pub address: NetAddr,
    pub port: u16,
}

/// Mathematical value of a [`SocksRequest`].
pub struct SocksRequestView {
    pub version: u8,
    pub command: SocksCommand,
    pub address: NetAddrView,
    pub port: u16,
}

impl View for SocksRequest {
    type V = SocksRequestView;

    open spec fn view(&self) -> SocksRequestView {
        SocksRequestView {
            version: self.version,
            command: self.command,
            address: self.address@,
            port: self.port,
        }
    }
}

/// What the first bytes of `bytes` say as a request: version, command,
/// one reserved byte of any value, an address, a port.
pub open spec fn spec_parse_request(bytes: Seq<u8>) -> Result<
    (SocksRequestView, Seq<u8>),
    ParseError,
> {
    if bytes.len() < 2 {
        Err(ParseError::Incomplete)
    } else {
        match spec_command_of(bytes[1]) {
            None => Err(ParseError::Malformed),
            Some(command) => if bytes.len() < 3 {
                Err(ParseError::Incomplete)
            } else {
                match spec_parse_host(bytes.skip(3)) {
                    Err(e) => Err(e),
                    Ok((address, after_host)) => match spec_parse_port(after_host) {
                        Err(e) => Err(e),
                        Ok((port, rest)) => Ok(
                            (SocksRequestView { version: bytes[0], command, address, port }, rest),
                        ),
                    },
                }
            },
        }
    }
}

impl SocksRequest {
    /// Decodes a request from the front of `data`.
    pub fn parse<'a>(data: &'a [u8]) -> (r: Result<(SocksRequest, &'a [u8]), ParseError>)
        ensures
            match r {
                Ok((request, rest)) => spec_parse_request(data@) == Ok::<_, ParseError>(
                    (request@, rest@),
                ),
                Err(e) => spec_parse_request(data@) == Err::<(SocksRequestView, Seq<u8>), _>(e),
            },
    {
        if data.len() < 2 {
            return Err(ParseError::Incomplete);
        }
        let version: u8 = data[0];
        let code: u8 = data[1];
        let command = if code == CMD_CONNECT {
            SocksCommand::Connect
        } else if code == CMD_BIND {
            SocksCommand::Bind
        } else if code == CMD_ASSOCIATE {
            SocksCommand::Associate
        } else {
            return Err(ParseError::Malformed);
        };
        if data.len() < 3 {
            return Err(ParseError::Incomplete);
        }
        let tail = &data[3..data.len()];
        let (address, after_host) = match NetAddr::parse(tail) {
            Ok(found) => found,
            Err(e) => {
                return Err(e);
            },
        };
        let (port, rest) = match parse_port(after_host) {
            Ok(found) => found,
            Err(e) => {
                return Err(e);
            },
        };
        Ok((SocksRequest { version, command, address, port }, rest))
    }
}

/// Whether the server granted a request.
#[derive(Clone, Copy, Debug, PartialEq, Eq, Structural)]
pub enum SocksReplyStatus {
    Success,
    Failure,
}

/// The code that stands for `status` on the wire.
pub open spec fn spec_status_code(status: SocksReplyStatus) -> u8 {
    match status {
        SocksReplyStatus::Success => REP_SUCCESS,
        SocksReplyStatus::Failure => REP_FAILURE,
    }
}

/// The status that a code on the wire stands for, if any.
pub open spec fn spec_status_of(code: u8) -> Option<SocksReplyStatus> {
    if code == REP_SUCCESS {
        Some(SocksReplyStatus::Success)
    } else if code == REP_FAILURE {
        Some(SocksReplyStatus::Failure)
    } else {
        None
    }
}

/// The server's answer to a [`SocksRequest`].
#[derive(Debug, PartialEq, Eq)]
pub struct SocksReply {
    pub version: u8,
    pub reply: SocksReplyStatus,
    pub address: NetAddr,
    pub port: u16,
}

/// Mathematical value of a [`SocksReply`].
pub struct SocksReplyView {
    pub version: u8,
    pub reply: SocksReplyStatus,
    pub address: NetAddrView,
    pub port: u16,
}

impl View for SocksReply {
    type V = SocksReplyView;

    open spec fn view(&self) -> SocksReplyView {
        SocksReplyView {
            version: self.version,
            reply: self.reply,
            address: self.address@,
            port: self.port,
        }
    }
}

/// The bytes of a reply: version, status, an address, a port.
pub open spec fn spec_reply_bytes(reply: SocksReplyView) -> Seq<u8> {
    seq![reply.version, spec_status_code(reply.reply)] + spec_host_bytes(reply.address)
        + spec_port_bytes(reply.port)
}

/// What the first bytes of `bytes` say as a reply.
pub open spec fn spec_parse_reply(bytes: Seq<u8>) -> Result<(SocksReplyView, Seq<u8>), ParseError> {
    if bytes.len() < 2 {
        Err(ParseError::Incomplete)
    } else {
        match spec_status_of(bytes[1]) {
            None => Err(ParseError::Malformed),
            Some(reply) => match spec_parse_host(bytes.skip(2)) {
                Err(e) => Err(e),
                Ok((address, after_host)) => match spec_parse_port(after_host) {
                    Err(e) => Err(e),
                    Ok((port, rest)) => Ok(
                        (SocksReplyView { version: bytes[0], reply, address, port }, rest),
                    ),
                },
            },
        }
    }
}

impl SocksReply {
    /// Encodes the reply, unless its address is a domain name of more than
    /// [`MAX_NAME_LEN`] bytes.
    pub fn to_bytes(&self) -> (r: Result<Vec<u8>, EncodeError>)
        ensures
            match r {
                Ok(bytes) => self@.address.encodable() && bytes@ == spec_reply_bytes(self@),
                Err(e) => !self@.address.encodable() && e == EncodeError::NameTooLong,
            },
    {
        let mut res: Vec<u8> = Vec::new();
        res.push(self.version);
        res.push(
            match self.reply {
                SocksReplyStatus::Success => REP_SUCCESS,
                SocksReplyStatus::Failure => REP_FAILURE,
            },
        );
        match self.address.write_to(&mut res) {
            Ok(()) => {},
            Err(e) => {
                return Err(e);
            },
        }
        let port: [u8; 2] = port_to_bytes(self.port);
        res.push(port[0]);
        res.push(port[1]);
        Ok(res)
    }

    /// Decodes a reply from the front of `data`.
    pub fn parse<'a>(data: &'a [u8]) -> (r: Result<(SocksReply, &'a [u8]), ParseError>)
        ensures
            match r {
                Ok((reply, rest)) => spec_parse_reply(data@) == Ok::<_, ParseError>(
                    (reply@, rest@),
                ),
                Err(e) => spec_parse_reply(data@) == Err::<(SocksReplyView, Seq<u8>), _>(e),
            },
    {
        if data.len() < 2 {
            return Err(ParseError::Incomplete);
        }
        let version: u8 = data[0];
        let code: u8 = data[1];
        let reply = if code == REP_SUCCESS {
            SocksReplyStatus::Success
        } else if code == REP_FAILURE {
            SocksReplyStatus::Failure
        } else {
            return Err(ParseError::Malformed);
        };
        let tail = &data[2..data.len()];
        let (address, after_host) = match NetAddr::parse(tail) {
            Ok(found) => found,
            Err(e) => {
                return Err(e);
            },
        };
        let (port, rest) = match parse_port(after_host) {
            Ok(found) => found,
            Err(e) => {
                return Err(e);
            },
        };
        Ok((SocksReply { version, reply, address, port }, rest))
    }
}

} // verus!
