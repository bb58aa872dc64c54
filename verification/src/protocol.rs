//! Binary wire protocol between client and session daemon.
//!
//! Wire format: `[u8 tag][u32 big-endian length][payload bytes]`.
//!
//! Every connection that the daemon accepts starts with an [`S_VERSION`]
//! frame, which the client answers with [`C_HELLO`]. Where the major versions
//! differ the daemon answers with [`S_INCOMPAT`] and closes. A different minor
//! version is fine.
//!
//! Tags `0x10..=0x1F` are reserved for negotiation.

use vstd::prelude::*;
use vstd::string::*;

use crate::text;

verus! {

// ── Client → server tags ──

/// Terminal event, serialized as JSON.
pub const C_EVENT: u8 = 0x01;

/// Client wants to detach.
pub const C_DETACH: u8 = 0x02;

/// Terminal resize: payload = `[u16 cols BE][u16 rows BE]`.
pub const C_RESIZE: u8 = 0x03;

/// Kill the server.
pub const C_KILL: u8 = 0x04;

/// Liveness probe without side effects.
pub const C_PING: u8 = 0x05;

/// Client attach with mode; payload = JSON [`AttachRequest`].
pub const C_ATTACH: u8 = 0x06;

// ── Server → client tags ──

/// Terminal output bytes (rendered frame).
pub const S_OUTPUT: u8 = 0x81;

/// Server acknowledges detach.
pub const S_DETACHED: u8 = 0x82;

/// Server is shutting down.
pub const S_EXIT: u8 = 0x83;

/// Answer to [`C_PING`].
pub const S_PONG: u8 = 0x84;

// ── Version negotiation tags ──

/// Server hello; payload = JSON [`ServerHello`].
pub const S_VERSION: u8 = 0x10;

/// Client hello; payload = JSON [`ClientHello`].
pub const C_HELLO: u8 = 0x11;

/// Incompatibility notice; payload = JSON [`IncompatNotice`].
pub const S_INCOMPAT: u8 = 0x12;

/// Major version of the wire protocol. Bumped only for breaking changes.
pub const PROTO_MAJOR: u16 = 1;

/// Minor version of the wire protocol. Bumped for additive changes.
pub const PROTO_MINOR: u16 = 0;

/// Largest payload of one message (16 MiB).
pub const MAX_PAYLOAD: usize = 16_777_216;

/// Version of this program.
pub const PKG_VERSION: &'static str = "0.16.0";

// ─── Frames ────────────────────────────────────────────────

/// The four bytes of `n`, most significant first.
pub open spec fn be32(n: int) -> Seq<u8> {
    seq![
        (n / 0x100_0000) as u8,
        ((n / 0x1_0000) % 0x100) as u8,
        ((n / 0x100) % 0x100) as u8,
        (n % 0x100) as u8,
    ]
}

/// The number that four bytes stand for, most significant first.
pub open spec fn from_be32(b: Seq<u8>) -> int {
    b[0] * 0x100_0000 + b[1] * 0x1_0000 + b[2] * 0x100 + b[3]
}

/// The bytes of one frame.
pub open spec fn frame(tag: u8, payload: Seq<u8>) -> Seq<u8> {
    seq![tag] + be32(payload.len() as int) + payload
}

/// Why a message could not be written or read.
#[derive(Clone, Copy, Debug, PartialEq, Eq, Structural)]
pub enum FrameError {
    /// The payload to write is longer than [`MAX_PAYLOAD`].
    PayloadTooLarge(usize),
    /// The header announces more than [`MAX_PAYLOAD`] bytes.
    MessageTooLarge(usize),
    /// The input ends before the frame does.
    UnexpectedEnd,
}

/// The message of a frame error.
pub open spec fn frame_error_text(e: FrameError) -> Seq<char> {
    match e {
        FrameError::PayloadTooLarge(n) => "payload too large: "@ + text::decimal(n as nat)
            + " bytes"@,
        FrameError::MessageTooLarge(n) => "message too large: "@ + text::decimal(n as nat)
            + " bytes"@,
        FrameError::UnexpectedEnd => "unexpected end of input"@,
    }
}

impl FrameError {
    /// The message shown to a user.
    pub fn to_string(&self) -> (r: String)
        ensures
            r@ == frame_error_text(*self),
    {
        let mut out = String::new();
        match self {
            FrameError::PayloadTooLarge(n) => {
                out.append("payload too large: ");
                out.append(text::decimal_text(*n as u128).as_str());
                out.append(" bytes");
            },
            FrameError::MessageTooLarge(n) => {
                out.append("message too large: ");
                out.append(text::decimal_text(*n as u128).as_str());
                out.append(" bytes");
            },
            FrameError::UnexpectedEnd => {
                out.append("unexpected end of input");
            },
        }
        assert(out@ =~= frame_error_text(*self));
        out
    }
}

/// Appends `src` to `out`.
pub fn push_bytes(out: &mut Vec<u8>, src: &[u8])
    ensures
        final(out)@ == old(out)@ + src@,
{
    let mut i: usize = 0;
    assert(old(out)@ + src@.take(0) =~= old(out)@);
    while i < src.len()
        invariant
            i <= src@.len(),
            out@ == old(out)@ + src@.take(i as int),
        decreases src@.len() - i,
    {
        out.push(src[i]);
        i += 1;
        assert(old(out)@ + src@.take(i as int) =~= (old(out)@ + src@.take(i - 1)).push(src@[i - 1]));
    }
    assert(src@.take(src@.len() as int) =~= src@);
}

/// The bytes `from..to` of `src`.
pub fn copy_bytes(src: &[u8], from: usize, to: usize) -> (r: Vec<u8>)
    requires
        from <= to <= src@.len(),
    ensures
        r@ == src@.subrange(from as int, to as int),
{
    let mut out: Vec<u8> = Vec::new();
    let mut i: usize = from;
    while i < to
        invariant
            from <= i <= to <= src@.len(),
            out@ == src@.subrange(from as int, i as int),
        decreases to - i,
    {
        out.push(src[i]);
        i += 1;
        assert(src@.subrange(from as int, i as int) =~= src@.subrange(from as int, i - 1).push(
            src@[i - 1],
        ));
    }
    out
}

/// Write a length-prefixed framed message to the end of `w`. A payload that is
/// too large leaves `w` as it was.
pub fn write_msg(w: &mut Vec<u8>, tag: u8, payload: &[u8]) -> (r: Result<(), FrameError>)
    ensures
        payload@.len() <= MAX_PAYLOAD ==> r is Ok && final(w)@ == old(w)@ + frame(tag, payload@),
        payload@.len() > MAX_PAYLOAD ==> r == Err::<(), FrameError>(
            FrameError::PayloadTooLarge(payload@.len() as usize),
        ) && final(w)@ == old(w)@,
{
    let n: usize = payload.len();
    if n > MAX_PAYLOAD {
        return Err(FrameError::PayloadTooLarge(n));
    }
    w.push(tag);
    w.push((n / 0x100_0000) as u8);
    w.push(((n / 0x1_0000) % 0x100) as u8);
    w.push(((n / 0x100) % 0x100) as u8);
    w.push((n % 0x100) as u8);
    push_bytes(w, payload);
    assert(w@ =~= old(w)@ + frame(tag, payload@));
    Ok(())
}

/// What the input from `pos` on holds: a whole frame, an announced length that
/// is too large, or less than a frame.
pub open spec fn parse_frame(input: Seq<u8>, pos: int) -> Result<
    (u8, Seq<u8>, int),
    FrameError,
> {
    if pos + 5 > input.len() {
        Err(FrameError::UnexpectedEnd)
    } else {
        let n = from_be32(input.subrange(pos + 1, pos + 5));
        if n > MAX_PAYLOAD {
            Err(FrameError::MessageTooLarge(n as usize))
        } else if pos + 5 + n > input.len() {
            Err(FrameError::UnexpectedEnd)
        } else {
            Ok((input[pos], input.subrange(pos + 5, pos + 5 + n), pos + 5 + n))
        }
    }
}

/// Reads the payload length out of the four length bytes of a header, where it
/// is not too large.
pub fn frame_len(header: &[u8]) -> (r: Result<usize, FrameError>)
    requires
        header@.len() >= 4,
    ensures
        ({
            let n = from_be32(header@.subrange(0, 4));
            r == if n <= MAX_PAYLOAD {
                Ok::<usize, FrameError>(n as usize)
            } else {
                Err::<usize, FrameError>(FrameError::MessageTooLarge(n as usize))
            }
        }),
{
    let n: u32 = header[0] as u32 * 0x100_0000 + header[1] as u32 * 0x1_0000 + header[2] as u32
        * 0x100 + header[3] as u32;
    if n as usize > MAX_PAYLOAD {
        Err(FrameError::MessageTooLarge(n as usize))
    } else {
        Ok(n as usize)
    }
}

/// Read a length-prefixed framed message at `pos`. Returns the tag, the
/// payload and the position after the frame.
pub fn read_msg(input: &[u8], pos: usize) -> (r: Result<(u8, Vec<u8>, usize), FrameError>)
    requires
        pos <= input@.len(),
    ensures
        match r {
            Ok((tag, payload, end)) => parse_frame(input@, pos as int) == Ok::<
                (u8, Seq<u8>, int),
                FrameError,
            >((tag, payload@, end as int)),
            Err(e) => parse_frame(input@, pos as int) == Err::<(u8, Seq<u8>, int), FrameError>(e),
        },
{
    if input.len() - pos < 5 {
        return Err(FrameError::UnexpectedEnd);
    }
    let header = copy_bytes(input, pos + 1, pos + 5);
    assert(header@.subrange(0, 4) =~= header@);
    let n: usize = match frame_len(header.as_slice()) {
        Err(e) => return Err(e),
        Ok(n) => n,
    };
    if input.len() - pos - 5 < n {
        return Err(FrameError::UnexpectedEnd);
    }
    let payload = copy_bytes(input, pos + 5, pos + 5 + n);
    Ok((input[pos], payload, pos + 5 + n))
}

/// Reading a frame gives back what was written, whatever stands before and
/// after it.
pub proof fn frame_round_trip(before: Seq<u8>, tag: u8, payload: Seq<u8>, after: Seq<u8>)
    requires
        payload.len() <= MAX_PAYLOAD,
    ensures
        parse_frame(before + frame(tag, payload) + after, before.len() as int) == Ok::<
            (u8, Seq<u8>, int),
            FrameError,
        >((tag, payload, (before.len() + frame(tag, payload).len()) as int)),
{
    let all = before + frame(tag, payload) + after;
    let p = before.len() as int;
    let n = payload.len() as int;
    assert(all.subrange(p + 1, p + 5) =~= be32(n));
    assert(from_be32(be32(n)) == n);
    assert(all.subrange(p + 5, p + 5 + n) =~= payload);
}

// ─── Resize payload ────────────────────────────────────────

/// Encode a terminal resize as `[cols_hi][cols_lo][rows_hi][rows_lo]`.
pub fn encode_resize(cols: u16, rows: u16) -> (r: [u8; 4])
    ensures
        r@ == resize_bytes(cols, rows),
{
    let out = [
        (cols / 0x100) as u8,
        (cols % 0x100) as u8,
        (rows / 0x100) as u8,
        (rows % 0x100) as u8,
    ];
    assert(out@ =~= resize_bytes(cols, rows));
    out
}

pub open spec fn resize_bytes(cols: u16, rows: u16) -> Seq<u8> {
    seq![
        (cols / 0x100) as u8,
        (cols % 0x100) as u8,
        (rows / 0x100) as u8,
        (rows % 0x100) as u8,
    ]
}

/// The columns and rows in the first four bytes of a payload.
pub open spec fn resize_of(payload: Seq<u8>) -> Option<(u16, u16)> {
    if payload.len() < 4 {
        None
    } else {
        Some(
            (
                (payload[0] * 0x100 + payload[1]) as u16,
                (payload[2] * 0x100 + payload[3]) as u16,
            ),
        )
    }
}

/// Decode a terminal resize from the first four bytes of a payload.
pub fn decode_resize(payload: &[u8]) -> (r: Option<(u16, u16)>)
    ensures
        r == resize_of(payload@),
{
    if payload.len() < 4 {
        return None;
    }
    let cols: u16 = payload[0] as u16 * 0x100 + payload[1] as u16;
    let rows: u16 = payload[2] as u16 * 0x100 + payload[3] as u16;
    Some((cols, rows))
}

/// Decoding an encoded resize gives back its columns and rows, also with more
/// bytes behind it.
pub proof fn resize_round_trip(cols: u16, rows: u16, more: Seq<u8>)
    ensures
        resize_of(resize_bytes(cols, rows) + more) == Some((cols, rows)),
{
}

// ─── Attach and handshake payloads ─────────────────────────

/// How a client wants to attach to a session.
#[derive(Clone, Copy, Debug, PartialEq, Eq, Structural)]
pub enum AttachMode {
    /// Detach any existing client.
    Steal,
    /// All clients can send input and see output.
    Shared,
    /// The client can only observe.
    Readonly,
}

impl Default for AttachMode {
    fn default() -> (r: Self)
        ensures
            r == AttachMode::Steal,
    {
        AttachMode::Steal
    }
}

/// Payload of [`C_ATTACH`].
#[derive(Clone, Debug)]
pub struct AttachRequest {
    pub cols: u16,
    pub rows: u16,
    pub mode: AttachMode,
}

/// Payload of [`S_VERSION`].
#[derive(Clone, Debug, PartialEq, Eq)]
pub struct ServerHello {
    pub proto_major: u16,
    pub proto_minor: u16,
    /// Human-readable build identifier.
    pub build: String,
}

/// Payload of [`C_HELLO`].
#[derive(Clone, Debug, PartialEq, Eq)]
pub struct ClientHello {
    pub proto_major: u16,
    pub proto_minor: u16,
    /// Human-readable client build identifier.
    pub client_build: String,
    /// Capability flags the client understands.
    pub supported_features: Vec<String>,
}

/// Payload of [`S_INCOMPAT`].
#[derive(Clone, Debug, PartialEq, Eq)]
pub struct IncompatNotice {
    /// `"<major>.<minor>"` of the server.
    pub server_proto: String,
    /// `"<major>.<minor>"` of the client, or `"unknown"`.
    pub client_proto: String,
    /// Explanation for the user.
    pub message: String,
}

/// The build identifier: the version of this program and its revision, which
/// is unknown where none or an empty one is given.
pub open spec fn build_text(rev: Option<Seq<char>>) -> Seq<char> {
    let r = match rev {
        Some(sha) => if sha.len() > 0 {
            sha
        } else {
            "unknown"@
        },
        None => "unknown"@,
    };
    "ezpn "@ + PKG_VERSION@ + " (rev "@ + r + ")"@
}

/// Build the `build` string for [`ServerHello`].
pub fn build_string(rev: Option<&str>) -> (r: String)
    ensures
        r@ == build_text(match rev {
            Some(s) => Some(s@),
            None => None,
        }),
{
    let shown = match rev {
        Some(sha) => if !sha.is_empty() {
            sha
        } else {
            "unknown"
        },
        None => "unknown",
    };
    let mut out = String::new();
    out.append("ezpn ");
    out.append(PKG_VERSION);
    out.append(" (rev ");
    out.append(shown);
    out.append(")");
    assert(out@ =~= "ezpn "@ + PKG_VERSION@ + " (rev "@ + shown@ + ")"@);
    out
}

/// Outcome of inspecting the first byte received on a fresh connection.
#[derive(Clone, Copy, Debug, PartialEq, Eq, Structural)]
pub enum FirstByteKind {
    /// A tag in the negotiation or normal range (up to `0x20`, whitespace
    /// apart).
    Tag,
    /// The start of a JSON document: a client that knows no handshake.
    LegacyJson,
    /// Anything else: a protocol violation.
    Unknown,
}

/// ASCII whitespace, which may stand before a JSON document.
pub open spec fn ascii_space(b: u8) -> bool {
    b == 0x09 || b == 0x0a || b == 0x0c || b == 0x0d || b == 0x20
}

/// Classify the first byte received on a freshly accepted connection. A
/// document may have whitespace in front, so whitespace is no tag.
pub fn classify_first_byte(b: u8) -> (r: FirstByteKind)
    ensures
        r == if ascii_space(b) || b == 0x7b || b == 0x5b {
            FirstByteKind::LegacyJson
        } else if b <= 0x20 {
            FirstByteKind::Tag
        } else {
            FirstByteKind::Unknown
        },
{
    if b == 0x09 || b == 0x0a || b == 0x0c || b == 0x0d || b == 0x20 || b == 0x7b || b == 0x5b {
        FirstByteKind::LegacyJson
    } else if b <= 0x20 {
        FirstByteKind::Tag
    } else {
        FirstByteKind::Unknown
    }
}

// ─── Handshake ─────────────────────────────────────────────

/// `"<major>.<minor>"`.
pub open spec fn proto_text(major: u16, minor: u16) -> Seq<char> {
    text::decimal(major as nat) + "."@ + text::decimal(minor as nat)
}

/// Writes a protocol version.
pub fn proto_string(major: u16, minor: u16) -> (r: String)
    ensures
        r@ == proto_text(major, minor),
{
    let mut out = text::decimal_text(major as u128);
    out.append(".");
    out.append(text::decimal_text(minor as u128).as_str());
    out
}

/// The texts of a notice.
#[verifier::ext_equal]
pub struct NoticeView {
    pub server_proto: Seq<char>,
    pub client_proto: Seq<char>,
    pub message: Seq<char>,
}

impl View for IncompatNotice {
    type V = NoticeView;

    open spec fn view(&self) -> NoticeView {
        NoticeView {
            server_proto: self.server_proto@,
            client_proto: self.client_proto@,
            message: self.message@,
        }
    }
}

/// What a server hello says.
#[verifier::ext_equal]
pub struct ServerHelloView {
    pub proto_major: u16,
    pub proto_minor: u16,
    pub build: Seq<char>,
}

impl View for ServerHello {
    type V = ServerHelloView;

    open spec fn view(&self) -> ServerHelloView {
        ServerHelloView {
            proto_major: self.proto_major,
            proto_minor: self.proto_minor,
            build: self.build@,
        }
    }
}

/// What a client hello says.
#[verifier::ext_equal]
pub struct ClientHelloView {
    pub proto_major: u16,
    pub proto_minor: u16,
    pub client_build: Seq<char>,
    pub supported_features: Seq<Seq<char>>,
}

impl View for ClientHello {
    type V = ClientHelloView;

    open spec fn view(&self) -> ClientHelloView {
        ClientHelloView {
            proto_major: self.proto_major,
            proto_minor: self.proto_minor,
            client_build: self.client_build@,
            supported_features: text::texts(self.supported_features@),
        }
    }
}

/// The capability flags of this client.
pub open spec fn feature_texts() -> Seq<Seq<char>> {
    seq!["scrollback-v3"@, "kitty-kbd-stack"@, "osc-52-confirm"@]
}

/// The capability flags that this client announces in [`ClientHello`].
pub fn client_features() -> (r: Vec<String>)
    ensures
        text::texts(r@) == feature_texts(),
{
    let mut out: Vec<String> = Vec::new();
    out.push("scrollback-v3".to_owned());
    out.push("kitty-kbd-stack".to_owned());
    out.push("osc-52-confirm".to_owned());
    assert(text::texts(out@) =~= feature_texts());
    out
}

/// The hello of this server.
pub open spec fn own_server_hello() -> ServerHelloView {
    ServerHelloView { proto_major: PROTO_MAJOR, proto_minor: PROTO_MINOR, build: build_text(None) }
}

/// The hello of this client.
pub open spec fn own_client_hello() -> ClientHelloView {
    ClientHelloView {
        proto_major: PROTO_MAJOR,
        proto_minor: PROTO_MINOR,
        client_build: build_text(None),
        supported_features: feature_texts(),
    }
}

/// The hello that the server sends as its first message.
pub fn server_hello_value() -> (r: ServerHello)
    ensures
        r@ == own_server_hello(),
{
    ServerHello {
        proto_major: PROTO_MAJOR,
        proto_minor: PROTO_MINOR,
        build: build_string(None),
    }
}

/// The hello that the client answers with.
pub fn client_hello_value() -> (r: ClientHello)
    ensures
        r@ == own_client_hello(),
{
    ClientHello {
        proto_major: PROTO_MAJOR,
        proto_minor: PROTO_MINOR,
        client_build: build_string(None),
        supported_features: client_features(),
    }
}

/// Frame the server hello, given as JSON, as the first message of a
/// connection.
pub fn server_hello(json: &[u8]) -> (r: Result<Vec<u8>, FrameError>)
    ensures
        match r {
            Ok(b) => json@.len() <= MAX_PAYLOAD && b@ == frame(S_VERSION, json@),
            Err(e) => json@.len() > MAX_PAYLOAD && e == FrameError::PayloadTooLarge(
                json@.len() as usize,
            ),
        },
{
    framed(S_VERSION, json)
}

/// Frame a notice, given as JSON.
pub fn encode_incompat(json: &[u8]) -> (r: Result<Vec<u8>, FrameError>)
    ensures
        match r {
            Ok(b) => json@.len() <= MAX_PAYLOAD && b@ == frame(S_INCOMPAT, json@),
            Err(e) => json@.len() > MAX_PAYLOAD && e == FrameError::PayloadTooLarge(
                json@.len() as usize,
            ),
        },
{
    framed(S_INCOMPAT, json)
}

/// One frame by itself.
fn framed(tag: u8, json: &[u8]) -> (r: Result<Vec<u8>, FrameError>)
    ensures
        match r {
            Ok(b) => json@.len() <= MAX_PAYLOAD && b@ == frame(tag, json@),
            Err(e) => json@.len() > MAX_PAYLOAD && e == FrameError::PayloadTooLarge(
                json@.len() as usize,
            ),
        },
{
    let mut out: Vec<u8> = Vec::new();
    assert(out@ + frame(tag, json@) =~= frame(tag, json@));
    match write_msg(&mut out, tag, json) {
        Ok(_) => Ok(out),
        Err(e) => Err(e),
    }
}

/// The notice for a client of another major version.
pub open spec fn mismatch_notice(major: u16, minor: u16, session: Seq<char>) -> NoticeView {
    let server = proto_text(PROTO_MAJOR, PROTO_MINOR);
    let client = proto_text(major, minor);
    NoticeView {
        server_proto: server,
        client_proto: client,
        message: "client v"@ + client + " cannot attach to server v"@ + server
            + " \u{2014} restart the daemon with 'ezpn kill "@ + session + "' to upgrade."@,
    }
}

/// The notice for a client of another major version.
pub fn incompat_for_major_mismatch(client: &ClientHello, session_name: &str) -> (r: IncompatNotice)
    ensures
        r@ == mismatch_notice(client.proto_major, client.proto_minor, session_name@),
{
    let server_proto = proto_string(PROTO_MAJOR, PROTO_MINOR);
    let client_proto = proto_string(client.proto_major, client.proto_minor);
    let mut message = String::new();
    message.append("client v");
    message.append(client_proto.as_str());
    message.append(" cannot attach to server v");
    message.append(server_proto.as_str());
    message.append(" \u{2014} restart the daemon with 'ezpn kill ");
    message.append(session_name);
    message.append("' to upgrade.");
    assert(message@ =~= mismatch_notice(
        client.proto_major,
        client.proto_minor,
        session_name@,
    ).message);
    IncompatNotice { server_proto, client_proto, message }
}

/// The notice for a client that sent no hello.
pub open spec fn legacy_notice(session: Seq<char>) -> NoticeView {
    NoticeView {
        server_proto: proto_text(PROTO_MAJOR, PROTO_MINOR),
        client_proto: "unknown"@,
        message:
            "legacy client detected (no version handshake) \u{2014} restart the daemon with 'ezpn kill "@
            + session + "' to upgrade."@,
    }
}

/// The notice for a client that sent no hello.
pub fn incompat_for_legacy_client(session_name: &str) -> (r: IncompatNotice)
    ensures
        r@ == legacy_notice(session_name@),
{
    let mut message = String::new();
    message.append(
        "legacy client detected (no version handshake) \u{2014} restart the daemon with 'ezpn kill ",
    );
    message.append(session_name);
    message.append("' to upgrade.");
    assert(message@ =~= legacy_notice(session_name@).message);
    IncompatNotice {
        server_proto: proto_string(PROTO_MAJOR, PROTO_MINOR),
        client_proto: "unknown".to_owned(),
        message,
    }
}

/// The first frame that a client receives, with what its payload reads as or
/// why it does not.
#[derive(Debug)]
pub enum FirstFrame {
    Version(Result<ServerHello, String>),
    Incompat(Result<IncompatNotice, String>),
    Other(u8),
}

/// Which payload a first frame has.
#[derive(Clone, Copy, Debug, PartialEq, Eq, Structural)]
pub enum FirstFrameKind {
    Version,
    Incompat,
    Other,
}

/// Which payload the first frame with this tag has.
pub fn first_frame_kind(tag: u8) -> (r: FirstFrameKind)
    ensures
        r == if tag == S_VERSION {
            FirstFrameKind::Version
        } else if tag == S_INCOMPAT {
            FirstFrameKind::Incompat
        } else {
            FirstFrameKind::Other
        },
{
    if tag == S_VERSION {
        FirstFrameKind::Version
    } else if tag == S_INCOMPAT {
        FirstFrameKind::Incompat
    } else {
        FirstFrameKind::Other
    }
}

/// Result of the client-side handshake.
#[derive(Debug)]
pub enum HandshakeOutcome {
    /// Server and client are compatible.
    Compatible(ServerHello),
    /// They are not; the message is for the user.
    Incompat(IncompatNotice),
}

/// The notice for a server of another major version.
pub open spec fn server_mismatch_notice(major: u16, minor: u16) -> NoticeView {
    let server = proto_text(major, minor);
    let client = proto_text(PROTO_MAJOR, PROTO_MINOR);
    NoticeView {
        server_proto: server,
        client_proto: client,
        message: "client v"@ + client + " cannot attach to server v"@ + server
            + " \u{2014} reinstall the matching ezpn binary or restart the daemon."@,
    }
}

fn server_mismatch(server: &ServerHello) -> (r: IncompatNotice)
    ensures
        r@ == server_mismatch_notice(server.proto_major, server.proto_minor),
{
    let server_proto = proto_string(server.proto_major, server.proto_minor);
    let client_proto = proto_string(PROTO_MAJOR, PROTO_MINOR);
    let mut message = String::new();
    message.append("client v");
    message.append(client_proto.as_str());
    message.append(" cannot attach to server v");
    message.append(server_proto.as_str());
    message.append(" \u{2014} reinstall the matching ezpn binary or restart the daemon.");
    assert(message@ =~= server_mismatch_notice(server.proto_major, server.proto_minor).message);
    IncompatNotice { server_proto, client_proto, message }
}

/// The message for a payload that does not read as its type.
pub open spec fn malformed_text(frame: Seq<char>, error: Seq<char>) -> Seq<char> {
    "malformed "@ + frame + " payload: "@ + error
}

/// The message for a payload that does not read as its type.
pub fn malformed(frame: &str, error: &str) -> (r: String)
    ensures
        r@ == malformed_text(frame@, error@),
{
    let mut out = String::new();
    out.append("malformed ");
    out.append(frame);
    out.append(" payload: ");
    out.append(error);
    assert(out@ =~= malformed_text(frame@, error@));
    out
}

/// A hexadecimal digit in lower case.
pub open spec fn hex_digit(d: int) -> char {
    if d < 10 {
        (('0' as int + d) as u32) as char
    } else {
        (('a' as int + d - 10) as u32) as char
    }
}

/// A hexadecimal digit in lower case.
pub fn hex_char(d: u8) -> (r: char)
    requires
        d < 16,
    ensures
        r == hex_digit(d as int),
{
    if d < 10 {
        (48 + d) as char
    } else {
        (87 + d) as char
    }
}

pub open spec fn unexpected_text(tag: u8) -> Seq<char> {
    "expected S_VERSION (0x10) or S_INCOMPAT (0x12) as first frame, got 0x"@.push(
        hex_digit(tag as int / 16),
    ).push(hex_digit(tag as int % 16))
}

/// The client-side handshake, given the first frame: a server hello of the own
/// major version is answered with the own hello, whatever its minor version,
/// and [`after_hello`] takes what the server says to that; one of another
/// major version, and a notice, are incompatible, and nothing
/// is sent; any other frame is an error.
pub fn client_handshake(first: FirstFrame) -> (r: Result<
    (HandshakeOutcome, Option<ClientHello>),
    String,
>)
    ensures
        match first {
            FirstFrame::Version(Ok(server)) => if server.proto_major == PROTO_MAJOR {
                r matches Ok((HandshakeOutcome::Compatible(s), Some(hello))) && s == server && hello@
                    == own_client_hello()
            } else {
                r matches Ok((HandshakeOutcome::Incompat(n), None)) && n@
                    == server_mismatch_notice(server.proto_major, server.proto_minor)
            },
            FirstFrame::Version(Err(e)) => r matches Err(m) && m@ == malformed_text(
                "S_VERSION"@,
                e@,
            ),
            FirstFrame::Incompat(Ok(notice)) => r matches Ok((HandshakeOutcome::Incompat(n), None))
                && n == notice,
            FirstFrame::Incompat(Err(e)) => r matches Err(m) && m@ == malformed_text(
                "S_INCOMPAT"@,
                e@,
            ),
            FirstFrame::Other(tag) => r matches Err(m) && m@ == unexpected_text(tag),
        },
{
    match first {
        FirstFrame::Version(Ok(server)) => {
            if server.proto_major != PROTO_MAJOR {
                let notice = server_mismatch(&server);
                Ok((HandshakeOutcome::Incompat(notice), None))
            } else {
                Ok((HandshakeOutcome::Compatible(server), Some(client_hello_value())))
            }
        },
        FirstFrame::Version(Err(e)) => Err(malformed("S_VERSION", e.as_str())),
        FirstFrame::Incompat(Ok(notice)) => Ok((HandshakeOutcome::Incompat(notice), None)),
        FirstFrame::Incompat(Err(e)) => Err(malformed("S_INCOMPAT", e.as_str())),
        FirstFrame::Other(tag) => {
            let mut out =
                "expected S_VERSION (0x10) or S_INCOMPAT (0x12) as first frame, got 0x".to_owned();
            out.push(hex_char(tag / 16));
            out.push(hex_char(tag % 16));
            Err(out)
        },
    }
}

/// The end of the client-side handshake, given the frame that answers the own
/// hello, if there is one: a notice makes the two incompatible, anything else
/// leaves them compatible and belongs to the session.
pub fn after_hello(server: ServerHello, reply: Option<FirstFrame>) -> (r: Result<
    HandshakeOutcome,
    String,
>)
    ensures
        match reply {
            Some(FirstFrame::Incompat(Ok(notice))) => r matches Ok(HandshakeOutcome::Incompat(n))
                && n == notice,
            Some(FirstFrame::Incompat(Err(e))) => r matches Err(m) && m@ == malformed_text(
                "S_INCOMPAT"@,
                e@,
            ),
            _ => r matches Ok(HandshakeOutcome::Compatible(s)) && s == server,
        },
{
    match reply {
        Some(FirstFrame::Incompat(Ok(notice))) => Ok(HandshakeOutcome::Incompat(notice)),
        Some(FirstFrame::Incompat(Err(e))) => Err(malformed("S_INCOMPAT", e.as_str())),
        _ => Ok(HandshakeOutcome::Compatible(server)),
    }
}

/// The notice to show after a hello of another major version: that of the
/// server, where one came behind its hello, else the own one.
pub fn after_mismatch(own: IncompatNotice, next: Option<FirstFrame>) -> (r: IncompatNotice)
    ensures
        r == match next {
            Some(FirstFrame::Incompat(Ok(notice))) => notice,
            _ => own,
        },
{
    match next {
        Some(FirstFrame::Incompat(Ok(notice))) => notice,
        _ => own,
    }
}

/// A frame is its number, four bytes for the length of what follows, the most
/// significant first, and what follows.
pub proof fn frames_are_laid_out(tag: u8, payload: Seq<u8>)
    requires
        payload.len() <= MAX_PAYLOAD,
    ensures
        ({
            let f = frame(tag, payload);
            &&& f.len() == 5 + payload.len()
            &&& f[0] == tag
            &&& f[1] * 0x100_0000 + f[2] * 0x1_0000 + f[3] * 0x100 + f[4] == payload.len()
            &&& f.skip(5) == payload
        }),
{
    let f = frame(tag, payload);
    let n = payload.len() as int;
    assert(f.skip(5) =~= payload);
    assert(n == (n / 0x100_0000) * 0x100_0000 + ((n / 0x1_0000) % 0x100) * 0x1_0000 + ((n / 0x100)
        % 0x100) * 0x100 + n % 0x100);
}

/// A size is two bytes for the columns, then two for the rows, the higher one
/// first.
pub proof fn sizes_are_laid_out(cols: u16, rows: u16)
    ensures
        ({
            let b = resize_bytes(cols, rows);
            &&& b.len() == 4
            &&& b[0] * 0x100 + b[1] == cols
            &&& b[2] * 0x100 + b[3] == rows
        }),
{
}

} // verus!
