//! Message header flags, the header record, and frame encoding.

use vstd::prelude::*;
use crate::header::{header_record, parse_header, MessageHeader};
use flate2::bufread::{GzDecoder, GzEncoder};
use flate2::Compression;
use std::io::Read;
use etptypes::energistics::etp::v12::datatypes::message_header_extension::MessageHeaderExtension;
use etptypes::energistics::etp::v12::protocol;
use etptypes::error::{erequest_denied, eunsupported_protocol};
use etptypes::helpers::{AvroSerializable, ETPMetadata};
use etptypes::protocols::ProtocolMessage;
use std::collections::HashMap;

verus! {

pub const MSG_FLAG_NONE: i32 = 0x00;
pub const MSG_FLAG_MULTIPART: i32 = 0x01;
pub const MSG_FLAG_FINAL: i32 = 0x02;
pub const MSG_FLAG_MULTIPART_AND_FINALPART: i32 = 0x03;
pub const MSG_FLAG_NO_DATA: i32 = 0x04;
pub const MSG_FLAG_COMPRESSED: i32 = 0x08;
pub const MSG_FLAG_ACKNOWLEDGE: i32 = 0x10;
pub const MSG_FLAG_HEADER_EXTENSION: i32 = 0x20;

/// Decoded view of the `message_flags` field of a header.
#[derive(Debug, PartialEq, Eq, Structural, Clone, Copy)]
pub struct MessageHeaderFlag {
    pub msg_final: bool,
    pub msg_multipart: bool,
    pub msg_compressed: bool,
    pub msg_no_data: bool,
    pub msg_aknowledge: bool,
    pub msg_has_header_extension: bool,
}

/// The integer whose bits are exactly the flags that are set.
pub open spec fn flags_value(f: MessageHeaderFlag) -> i32 {
    ((if f.msg_final { 0x02i32 } else { 0i32 }) | (if f.msg_compressed { 0x08i32 } else { 0i32 })
        | (if f.msg_multipart { 0x01i32 } else { 0i32 }) | (if f.msg_no_data { 0x04i32 } else { 0i32 })
        | (if f.msg_aknowledge { 0x10i32 } else { 0i32 }) | (if f.msg_has_header_extension {
        0x20i32
    } else {
        0i32
    })) as i32
}

/// The flags that the bits of `flag` carry; the other bits are not read.
pub open spec fn flags_of(flag: i32) -> MessageHeaderFlag {
    MessageHeaderFlag {
        msg_final: flag & 0x02 != 0,
        msg_multipart: flag & 0x01 != 0,
        msg_compressed: flag & 0x08 != 0,
        msg_no_data: flag & 0x04 != 0,
        msg_aknowledge: flag & 0x10 != 0,
        msg_has_header_extension: flag & 0x20 != 0,
    }
}

impl MessageHeaderFlag {
    pub fn as_i32(&self) -> (r: i32)
        ensures
            r == flags_value(*self),
    {
        (if self.msg_final { MSG_FLAG_FINAL } else { 0 }) | (if self.msg_compressed {
            MSG_FLAG_COMPRESSED
        } else {
            0
        }) | (if self.msg_multipart { MSG_FLAG_MULTIPART } else { 0 }) | (if self.msg_no_data {
            MSG_FLAG_NO_DATA
        } else {
            0
        }) | (if self.msg_aknowledge { MSG_FLAG_ACKNOWLEDGE } else { 0 }) | (
        if self.msg_has_header_extension {
            MSG_FLAG_HEADER_EXTENSION
        } else {
            0
        })
    }

    pub fn parse(flag: i32) -> (r: MessageHeaderFlag)
        ensures
            r == flags_of(flag),
    {
        MessageHeaderFlag {
            msg_final: (flag & MSG_FLAG_FINAL) != 0,
            msg_multipart: (flag & MSG_FLAG_MULTIPART) != 0,
            msg_no_data: (flag & MSG_FLAG_NO_DATA) != 0,
            msg_compressed: (flag & MSG_FLAG_COMPRESSED) != 0,
            msg_aknowledge: (flag & MSG_FLAG_ACKNOWLEDGE) != 0,
            msg_has_header_extension: (flag & MSG_FLAG_HEADER_EXTENSION) != 0,
        }
    }

}

impl Default for MessageHeaderFlag {
    /// The flags of a complete single-part message: `FINAL` alone.
    fn default() -> (r: MessageHeaderFlag)
        ensures
            r == flags_of(MSG_FLAG_FINAL),
            flags_value(r) == MSG_FLAG_FINAL,
    {
        let r = MessageHeaderFlag::parse(MSG_FLAG_FINAL);
        assert((2i32 & 0x02) != 0 && (2i32 & 0x01) == 0 && (2i32 & 0x08) == 0 && (2i32 & 0x04) == 0
            && (2i32 & 0x10) == 0 && (2i32 & 0x20) == 0) by (bit_vector);
        assert((0x02i32 | 0i32 | 0i32 | 0i32 | 0i32 | 0i32) == 2i32) by (bit_vector);
        r
    }
}

/// Turning flags into an integer and back gives the same flags.
pub proof fn lemma_flags_round_trip(f: MessageHeaderFlag)
    ensures
        flags_of(flags_value(f)) == f,
{
    let (a, b, c, d, e, g) = (
        f.msg_final,
        f.msg_compressed,
        f.msg_multipart,
        f.msg_no_data,
        f.msg_aknowledge,
        f.msg_has_header_extension,
    );
    let v: i32 = flags_value(f);
    assert(v == ((if a { 0x02i32 } else { 0i32 }) | (if b { 0x08i32 } else { 0i32 }) | (if c {
        0x01i32
    } else {
        0i32
    }) | (if d { 0x04i32 } else { 0i32 }) | (if e { 0x10i32 } else { 0i32 }) | (if g {
        0x20i32
    } else {
        0i32
    })));
    assert(((v & 0x02) != 0) == a && ((v & 0x08) != 0) == b && ((v & 0x01) != 0) == c && ((v
        & 0x04) != 0) == d && ((v & 0x10) != 0) == e && ((v & 0x20) != 0) == g) by (bit_vector)
        requires
            v == ((if a { 0x02i32 } else { 0i32 }) | (if b { 0x08i32 } else { 0i32 }) | (if c {
                0x01i32
            } else {
                0i32
            }) | (if d { 0x04i32 } else { 0i32 }) | (if e { 0x10i32 } else { 0i32 }) | (if g {
                0x20i32
            } else {
                0i32
            })),
    ;
}

/// No flag set gives zero; `FINAL`, `COMPRESSED`, `ACKNOWLEDGE` and
/// `HEADER_EXTENSION` together give `0x3A`.
pub proof fn lemma_flags_values()
    ensures
        flags_value(
            MessageHeaderFlag {
                msg_final: false,
                msg_multipart: false,
                msg_compressed: false,
                msg_no_data: false,
                msg_aknowledge: false,
                msg_has_header_extension: false,
            },
        ) == 0,
        flags_value(
            MessageHeaderFlag {
                msg_final: true,
                msg_multipart: false,
                msg_compressed: true,
                msg_no_data: false,
                msg_aknowledge: true,
                msg_has_header_extension: true,
            },
        ) == (MSG_FLAG_FINAL | MSG_FLAG_COMPRESSED | MSG_FLAG_ACKNOWLEDGE
            | MSG_FLAG_HEADER_EXTENSION),
        (MSG_FLAG_FINAL | MSG_FLAG_COMPRESSED | MSG_FLAG_ACKNOWLEDGE | MSG_FLAG_HEADER_EXTENSION)
            == 0x3A,
{
    assert((0i32 | 0i32 | 0i32 | 0i32 | 0i32 | 0i32) == 0i32) by (bit_vector);
    assert((0x02i32 | 0x08i32 | 0i32 | 0i32 | 0x10i32 | 0x20i32) == 0x3Ai32) by (bit_vector);
    assert((0x02i32 | 0x08i32 | 0x10i32 | 0x20i32) == 0x3Ai32) by (bit_vector);
}

/// Gzip (RFC 1952) may be applied to a body: never on the Core protocol
/// (0), nor to message types 1000 and 1001.
pub open spec fn compression_allowed(protocol: i32, message_type: i32) -> bool {
    protocol != 0 && message_type != 1000 && message_type != 1001
}

/// `flags` with the `COMPRESSED` bit set or cleared, other bits kept.
pub open spec fn with_compressed(flags: i32, on: bool) -> i32 {
    if on {
        flags | 0x08
    } else {
        flags & !0x08i32
    }
}

/// `h` with its `COMPRESSED` bit set or cleared.
pub open spec fn header_compressed(h: MessageHeader, on: bool) -> MessageHeader {
    MessageHeader { message_flags: with_compressed(h.message_flags, on), ..h }
}

/// Whether a frame with header `h` carries a gzipped body.
pub open spec fn body_is_compressed(h: MessageHeader) -> bool {
    h.message_flags & 0x08 != 0 && compression_allowed(h.protocol, h.message_type)
}

/// A frame whose body is sent as it is.
pub open spec fn plain_frame(h: MessageHeader, extension: Seq<u8>, body: Seq<u8>) -> Seq<u8> {
    header_record(header_compressed(h, false)) + extension + body
}

/// A frame whose body is gzipped.
pub open spec fn compressed_frame(h: MessageHeader, extension: Seq<u8>, body: Seq<u8>) -> Seq<
    u8,
> {
    header_record(header_compressed(h, true)) + extension + gzip_of(body)
}

/// The frame written for header `h`: gzipped where `h` asks for it and the
/// rule allows it, plain otherwise.
pub open spec fn frame_of(h: MessageHeader, extension: Seq<u8>, body: Seq<u8>) -> Seq<u8> {
    if body_is_compressed(h) {
        compressed_frame(h, extension, body)
    } else {
        plain_frame(h, extension, body)
    }
}

/// What the gzip encoder writes for `data`.
pub uninterp spec fn gzip_of(data: Seq<u8>) -> Seq<u8>;

/// What the gzip decoder reads from `data`; `None` where it reports an error.
pub uninterp spec fn gunzip_of(data: Seq<u8>) -> Option<Seq<u8>>;

/// Relies on flate2's `bufread::GzEncoder` at the default level: the gzip
/// stream of `data`, which depends on `data` alone (no time stamp). It reads
/// from an in-memory slice, which cannot fail.
#[verifier::external_body]
fn gzip(data: &Vec<u8>) -> (r: Option<Vec<u8>>)
    ensures
        r is Some,
        r matches Some(c) ==> c@ == gzip_of(data@),
{
    let mut encoder = GzEncoder::new(data.as_slice(), Compression::default());
    let mut out = Vec::new();
    match encoder.read_to_end(&mut out) {
        Ok(_) => Some(out),
        Err(_) => None,
    }
}

/// Relies on flate2's `bufread::GzDecoder`: the data that a gzip stream
/// holds, which for the encoder's own output is the data it was given.
#[verifier::external_body]
fn gunzip(data: &Vec<u8>) -> (r: Option<Vec<u8>>)
    ensures
        r is None <==> gunzip_of(data@) is None,
        r matches Some(x) ==> gunzip_of(data@) == Some(x@),
        forall|x: Seq<u8>| #[trigger] gzip_of(x) == data@ ==> r is Some && r->0@ == x,
{
    let mut decoder = GzDecoder::new(data.as_slice());
    let mut out = Vec::new();
    match decoder.read_to_end(&mut out) {
        Ok(_) => Some(out),
        Err(_) => None,
    }
}

/// Whether `COMPRESSED` is asked for and allowed on this header.
pub fn should_compress(header: &MessageHeader) -> (r: bool)
    ensures
        r == body_is_compressed(*header),
{
    (header.message_flags & MSG_FLAG_COMPRESSED) != 0 && header.protocol != 0
        && header.message_type != 1000 && header.message_type != 1001
}

/// Writes one frame: the header record, the extension record's bytes, then
/// the body, gzipped where the header asks for it and the rule allows it.
/// The `COMPRESSED` bit of the written header says whether the body was
/// gzipped.
pub fn encode_frame(header: &MessageHeader, extension: &Vec<u8>, body: &Vec<u8>) -> (r: Vec<u8>)
    ensures
        r@ == frame_of(*header, extension@, body@),
{
    let mut compress = should_compress(header);
    let mut payload: Vec<u8> = Vec::new();
    if compress {
        match gzip(body) {
            Some(c) => {
                payload = c;
            },
            None => {
                compress = false;
            },
        }
    }
    let flags = if compress {
        header.message_flags | MSG_FLAG_COMPRESSED
    } else {
        header.message_flags & !MSG_FLAG_COMPRESSED
    };
    let out_header = MessageHeader { message_flags: flags, ..*header };
    assert(out_header == header_compressed(*header, compress));
    let mut out = out_header.encode();
    let mut i: usize = 0;
    while i < extension.len()
        invariant
            i <= extension.len(),
            out@ == header_record(out_header) + extension@.subrange(0, i as int),
        decreases extension.len() - i,
    {
        out.push(extension[i]);
        i = i + 1;
    }
    assert(extension@.subrange(0, extension.len() as int) =~= extension@);
    let ghost before = out@;
    let source: &Vec<u8> = if compress {
        &payload
    } else {
        body
    };
    let mut i: usize = 0;
    while i < source.len()
        invariant
            i <= source.len(),
            out@ == before + source@.subrange(0, i as int),
        decreases source.len() - i,
    {
        out.push(source[i]);
        i = i + 1;
    }
    assert(source@.subrange(0, source.len() as int) =~= source@);
    out
}

/// A frame read back: its header, and the bytes after the header record
/// (the extension record where the header announces one, then the body),
/// gunzipped where the header says so. `payload` is `None` where gunzip
/// failed: the header still stands, so that errors can be correlated.
pub struct DecodedFrame {
    pub header: MessageHeader,
    pub payload: Option<Vec<u8>>,
}

/// The payload of a frame with header `h`, given the bytes after the header.
pub open spec fn frame_payload(h: MessageHeader, rest: Seq<u8>) -> Option<Seq<u8>> {
    if body_is_compressed(h) {
        gunzip_of(rest)
    } else {
        Some(rest)
    }
}

/// Reads one frame; `None` where the bytes do not open with a header record.
pub fn decode_frame(bytes: &Vec<u8>) -> (r: Option<DecodedFrame>)
    ensures
        match parse_header(bytes@) {
            None => r is None,
            Some((h, n)) => r matches Some(f) && f.header == h && match frame_payload(
                h,
                bytes@.subrange(n, bytes@.len() as int),
            ) {
                Some(p) => f.payload matches Some(q) && q@ == p,
                None => f.payload is None,
            },
        },
        forall|h: MessageHeader, e: Seq<u8>, b: Seq<u8>|
            bytes@ == #[trigger] compressed_frame(h, e, b) ==> (r matches Some(f)
                && f.payload matches Some(q) && q@ == b) || !compression_allowed(
                h.protocol,
                h.message_type,
            ) || e.len() > 0,
{
    proof {
        assert forall|h: MessageHeader, e: Seq<u8>, b: Seq<u8>|
            bytes@ == #[trigger] compressed_frame(h, e, b) && e.len() == 0 implies parse_header(
            bytes@,
        ) == Some((header_compressed(h, true), header_record(header_compressed(h, true)).len() as int))
            && bytes@.subrange(
            header_record(header_compressed(h, true)).len() as int,
            bytes@.len() as int,
        ) == gzip_of(b) by {
            let hc = header_compressed(h, true);
            assert(bytes@ =~= header_record(hc) + gzip_of(b));
            crate::header::lemma_header_round_trip(hc, gzip_of(b));
            assert(bytes@.subrange(header_record(hc).len() as int, bytes@.len() as int) =~= gzip_of(b));
        }
    }
    let (header, n) = match MessageHeader::decode(bytes) {
        Some(x) => x,
        None => return None,
    };
    let rest = tail_from(bytes, n);
    if should_compress(&header) {
        proof {
            assert forall|h: MessageHeader, e: Seq<u8>, b: Seq<u8>|
                bytes@ == #[trigger] compressed_frame(h, e, b) && compression_allowed(
                    h.protocol,
                    h.message_type,
                ) && e.len() == 0 implies gzip_of(b) == rest@ by {}
        }
        let payload = gunzip(&rest);
        Some(DecodedFrame { header, payload })
    } else {
        proof {
            assert forall|h: MessageHeader, e: Seq<u8>, b: Seq<u8>|
                bytes@ == #[trigger] compressed_frame(h, e, b) && compression_allowed(
                    h.protocol,
                    h.message_type,
                ) && e.len() == 0 implies false by {
                let hc = header_compressed(h, true);
                lemma_compressed_bit(h.message_flags);
                assert(header == hc);
            }
        }
        Some(DecodedFrame { header, payload: Some(rest) })
    }
}

/// The bytes of `bytes` from index `start` on.
pub fn tail_from(bytes: &Vec<u8>, start: usize) -> (r: Vec<u8>)
    requires
        start <= bytes.len(),
    ensures
        r@ == bytes@.subrange(start as int, bytes.len() as int),
{
    let mut r: Vec<u8> = Vec::new();
    let mut i: usize = start;
    while i < bytes.len()
        invariant
            start <= i <= bytes.len(),
            r@ == bytes@.subrange(start as int, i as int),
        decreases bytes.len() - i,
    {
        r.push(bytes[i]);
        i = i + 1;
        assert(r@ =~= bytes@.subrange(start as int, i as int));
    }
    r
}

/// On the Core protocol (and for message types 1000 and 1001) asking for
/// compression changes nothing: the frame, its flags included, is the one
/// written without asking.
pub proof fn lemma_compression_request_ignored(h: MessageHeader, extension: Seq<u8>, body: Seq<u8>)
    requires
        !compression_allowed(h.protocol, h.message_type),
    ensures
        !body_is_compressed(header_compressed(h, true)),
        !body_is_compressed(header_compressed(h, false)),
        plain_frame(header_compressed(h, true), extension, body) == plain_frame(
            header_compressed(h, false),
            extension,
            body,
        ),
        frame_of(header_compressed(h, true), extension, body) == frame_of(
            header_compressed(h, false),
            extension,
            body,
        ),
{
    lemma_compressed_bit(h.message_flags);
    assert(header_compressed(header_compressed(h, true), false) == header_compressed(
        header_compressed(h, false),
        false,
    )) by {
        let f = h.message_flags;
        assert((f & !0x08i32) & !0x08i32 == f & !0x08i32) by (bit_vector);
    }
}

/// Where compression is allowed, a gzipped frame and a plain one of the same
/// message differ in the `COMPRESSED` bit of their headers.
pub proof fn lemma_compressed_flag_differs(h: MessageHeader)
    requires
        compression_allowed(h.protocol, h.message_type),
    ensures
        body_is_compressed(header_compressed(h, true)),
        !body_is_compressed(header_compressed(h, false)),
        header_compressed(h, true).message_flags != header_compressed(h, false).message_flags,
{
    lemma_compressed_bit(h.message_flags);
}

/// A plain frame is read back as its header and the bytes that followed it.
pub proof fn lemma_plain_frame_decodes(h: MessageHeader, extension: Seq<u8>, body: Seq<u8>)
    ensures
        ({
            let h0 = header_compressed(h, false);
            let n = header_record(h0).len() as int;
            let f = plain_frame(h, extension, body);
            parse_header(f) == Some((h0, n)) && frame_payload(h0, f.subrange(n, f.len() as int))
                == Some(extension + body)
        }),
{
    let h0 = header_compressed(h, false);
    let f = plain_frame(h, extension, body);
    assert(f =~= header_record(h0) + (extension + body));
    crate::header::lemma_header_round_trip(h0, extension + body);
    lemma_compressed_bit(h.message_flags);
    assert(f.subrange(header_record(h0).len() as int, f.len() as int) =~= extension + body);
}

#[verifier::external_type_specification]
#[verifier::external_body]
pub struct ExProtocolMessage(ProtocolMessage);

#[verifier::external_type_specification]
#[verifier::external_body]
pub struct ExMessageHeaderExtension(MessageHeaderExtension);

/// The protocol and message type that a body's variant declares.
pub uninterp spec fn declared_identity(body: ProtocolMessage) -> (i32, i32);

/// The code of the error that a body reports: `Some` for a protocol
/// exception that carries an error, `None` for anything else.
pub uninterp spec fn exception_code(body: ProtocolMessage) -> Option<i32>;

/// Relies on etptypes' `ETPMetadata::protocol` and `message_type`: the
/// protocol and message type that the body's variant declares.
#[verifier::external_body]
pub(crate) fn message_identity(body: &ProtocolMessage) -> (r: (i32, i32))
    ensures
        r == declared_identity(*body),
{
    (body.protocol(), body.message_type())
}

/// Relies on etptypes' `AvroSerializable::avro_serialize` for a message body.
#[verifier::external_body]
fn serialize_body(body: &ProtocolMessage) -> (r: Option<Vec<u8>>) {
    body.avro_serialize().ok()
}

/// Relies on etptypes' `AvroSerializable::avro_serialize` for a header extension.
#[verifier::external_body]
fn serialize_extension(extension: &MessageHeaderExtension) -> (r: Option<Vec<u8>>) {
    extension.avro_serialize().ok()
}

/// Relies on etptypes' `Acknowledge`, which declares protocol 0, type 1001,
/// and reports no error.
#[verifier::external_body]
pub(crate) fn acknowledge_body() -> (r: ProtocolMessage)
    ensures
        declared_identity(r) == (0i32, 1001i32),
        exception_code(r) is None,
{
    protocol::core::acknowledge::Acknowledge {}.as_protocol_message()
}

/// Relies on etptypes' `ProtocolException` (protocol 0, type 1000) and its
/// `erequest_denied` error, whose code is 6.
#[verifier::external_body]
pub(crate) fn request_denied_body() -> (r: ProtocolMessage)
    ensures
        declared_identity(r) == (0i32, 1000i32),
        exception_code(r) == Some(6i32),
{
    protocol::core::protocol_exception::ProtocolException::default_with_params(
        Some(erequest_denied()),
    ).as_protocol_message()
}

/// Relies on etptypes' `ProtocolException` (protocol 0, type 1000) and its
/// `eunsupported_protocol` error, whose code is 4.
#[verifier::external_body]
pub(crate) fn unsupported_protocol_body() -> (r: ProtocolMessage)
    ensures
        declared_identity(r) == (0i32, 1000i32),
        exception_code(r) == Some(4i32),
{
    ProtocolMessage::Core_ProtocolException(
        protocol::core::protocol_exception::ProtocolException {
            error: Some(eunsupported_protocol()),
            errors: HashMap::new(),
        },
    )
}

/// The `CloseSession` message that etptypes builds with this reason.
pub uninterp spec fn close_session_message(reason: Seq<char>) -> ProtocolMessage;

/// Relies on etptypes' `CloseSession` (protocol 0, type 5), with its reason;
/// it reports no error.
#[verifier::external_body]
pub(crate) fn close_session_body(reason: String) -> (r: ProtocolMessage)
    ensures
        r == close_session_message(reason@),
        declared_identity(r) == (0i32, 5i32),
        exception_code(r) is None,
{
    protocol::core::close_session::CloseSession { reason }.as_protocol_message()
}

/// Relies on etptypes' `ProtocolMessage::Core_ProtocolException`: the code
/// of the error a protocol exception reports, if the body is one.
#[verifier::external_body]
pub(crate) fn reported_error_code(body: &ProtocolMessage) -> (r: Option<i32>)
    ensures
        r == exception_code(*body),
{
    match body {
        ProtocolMessage::Core_ProtocolException(e) => e.error.as_ref().map(|x| x.code),
        _ => None,
    }
}

/// What an endpoint does with an inbound message: the bodies of its replies,
/// in order, or `None` to accept it silently.
pub trait EtpMessageHandler {
    /// By default, every message is answered with a `ProtocolException`
    /// saying that its protocol is not supported.
    fn handle(&mut self, header: MessageHeaderFlag, msg: &ProtocolMessage) -> Option<
        Vec<ProtocolMessage>,
    > {
        let mut replies: Vec<ProtocolMessage> = Vec::new();
        replies.push(unsupported_protocol_body());
        Some(replies)
    }
}

/// A header paired with its optional extension and its typed body. `body`
/// is `None` where the header was read but the body could not be.
pub struct EtpMessage {
    pub header: MessageHeader,
    pub header_extension: Option<MessageHeaderExtension>,
    pub body: Option<ProtocolMessage>,
}

impl EtpMessage {
    /// An envelope for `body` whose header takes the given identity.
    pub(crate) fn with_identity(
        correlation_id: i64,
        message_id: i64,
        message_flags: i32,
        body: ProtocolMessage,
        protocol: i32,
        message_type: i32,
        header_extension: Option<MessageHeaderExtension>,
    ) -> (r: EtpMessage)
        ensures
            r.header == (MessageHeader {
                protocol,
                message_type,
                correlation_id,
                message_id,
                message_flags,
            }),
            r.body == Some(body),
            r.header_extension == header_extension,
    {
        EtpMessage {
            header: MessageHeader {
                protocol,
                message_type,
                correlation_id,
                message_id,
                message_flags,
            },
            header_extension,
            body: Some(body),
        }
    }

    /// An envelope for `body`: the header's protocol and message type are
    /// those that the body declares, the rest is as given.
    pub fn create_message(
        correlation_id: i64,
        message_id: i64,
        message_flags: i32,
        body: ProtocolMessage,
        header_extension: Option<MessageHeaderExtension>,
    ) -> (r: EtpMessage)
        ensures
            (r.header.protocol, r.header.message_type) == declared_identity(body),
            r.header.correlation_id == correlation_id,
            r.header.message_id == message_id,
            r.header.message_flags == message_flags,
            r.body == Some(body),
            r.header_extension == header_extension,
    {
        let (protocol, message_type) = message_identity(&body);
        EtpMessage::with_identity(
            correlation_id,
            message_id,
            message_flags,
            body,
            protocol,
            message_type,
            header_extension,
        )
    }

    /// The frames that carry this message: one frame, `frame_of` the header,
    /// the serialized extension and the serialized body (no bytes where
    /// either is absent). `None` only where one of etptypes' serializers
    /// failed.
    pub fn encode_message(&self) -> (r: Option<Vec<Vec<u8>>>)
        ensures
            r is None ==> self.body is Some || self.header_extension is Some,
            r matches Some(frames) ==> frames@.len() == 1 && exists|e: Seq<u8>, b: Seq<u8>|
                (self.header_extension is None ==> e.len() == 0) && (self.body is None ==> b.len()
                    == 0) && #[trigger] frames@[0]@ == frame_of(self.header, e, b),
    {
        let body_bytes: Vec<u8> = match &self.body {
            Some(b) => match serialize_body(b) {
                Some(bytes) => bytes,
                None => return None,
            },
            None => Vec::new(),
        };
        let extension_bytes: Vec<u8> = match &self.header_extension {
            Some(e) => match serialize_extension(e) {
                Some(bytes) => bytes,
                None => return None,
            },
            None => Vec::new(),
        };
        let frame = encode_frame(&self.header, &extension_bytes, &body_bytes);
        let mut frames: Vec<Vec<u8>> = Vec::new();
        frames.push(frame);
        assert(frames@[0]@ == frame_of(self.header, extension_bytes@, body_bytes@));
        Some(frames)
    }
}


/// The header and payload of one frame, where both can be read.
pub open spec fn decoded_part(bytes: Seq<u8>) -> Option<(MessageHeader, Seq<u8>)> {
    match parse_header(bytes) {
        Some((h, n)) => match frame_payload(h, bytes.subrange(n, bytes.len() as int)) {
            Some(p) => Some((h, p)),
            None => None,
        },
        None => None,
    }
}

/// The least message identifier among the parts.
pub open spec fn least_id(parts: Seq<(MessageHeader, Seq<u8>)>) -> int
    decreases parts.len(),
{
    if parts.len() <= 1 {
        if parts.len() == 0 {
            0
        } else {
            parts[0].0.message_id as int
        }
    } else {
        let rest = least_id(parts.drop_last());
        if (parts.last().0.message_id as int) < rest {
            parts.last().0.message_id as int
        } else {
            rest
        }
    }
}

/// Index of the first part whose message identifier is `id`.
pub open spec fn part_with_id(parts: Seq<(MessageHeader, Seq<u8>)>, id: int) -> Option<int> {
    if exists|j: int| 0 <= j < parts.len() && parts[j].0.message_id == id {
        Some(
            choose|j: int|
                0 <= j < parts.len() && parts[j].0.message_id == id && forall|i: int|
                    0 <= i < j ==> parts[i].0.message_id != id,
        )
    } else {
        None
    }
}

/// The payloads of the parts numbered `lo`, `lo + 1`, ... `lo + k - 1`, joined.
pub open spec fn joined_payloads(parts: Seq<(MessageHeader, Seq<u8>)>, lo: int, k: int) -> Seq<u8>
    decreases k,
{
    if k <= 0 {
        Seq::empty()
    } else {
        joined_payloads(parts, lo, k - 1) + match part_with_id(parts, lo + k - 1) {
            Some(j) => parts[j].1,
            None => Seq::empty(),
        }
    }
}

/// Why the parts of a multipart message do not make one message.
#[derive(Debug, PartialEq, Eq, Structural, Clone, Copy)]
pub enum MultipartError {
    /// There are no parts.
    NoParts,
    /// The part at this position has no readable header or payload.
    UnreadablePart(usize),
    /// No part carries the identifier this far above the least one.
    MissingPart(usize),
    /// The part with the highest identifier is not flagged `MULTIPART | FINAL`.
    NotFinished,
}

/// Joins the parts of one multipart message: they are put in order of
/// message identifier, which must run without a gap from the least; the
/// last must be flagged `MULTIPART | FINAL`. The result has the header of
/// the first part in that order and the joined payloads.
pub fn decode_multipart_message(msgs: &Vec<Vec<u8>>) -> (r: Result<DecodedFrame, MultipartError>)
    ensures
        r == Err::<DecodedFrame, MultipartError>(MultipartError::NoParts) <==> msgs@.len() == 0,
        r matches Err(MultipartError::UnreadablePart(i)) ==> i < msgs@.len() && decoded_part(msgs@[i as int]@) is None,
        (exists|i: int| 0 <= i < msgs@.len() && decoded_part(#[trigger] msgs@[i]@) is None) ==> r matches Err(MultipartError::UnreadablePart(_)),
        (forall|i: int| 0 <= i < msgs@.len() ==> decoded_part(#[trigger] msgs@[i]@) is Some) ==> {
            let parts = Seq::new(msgs@.len(), |i: int| decoded_part(msgs@[i]@)->0);
            let lo = least_id(parts);
            let n = msgs@.len() as int;
            &&& r matches Err(MultipartError::MissingPart(k)) ==> k < n && part_with_id(parts, lo + k) is None
            &&& ((forall|k: int| 0 <= k < n ==> #[trigger] part_with_id(parts, lo + k) is Some) <==> !(r matches Err(MultipartError::MissingPart(_))))
            &&& r matches Ok(f) ==> {
                &&& n > 0
                &&& f.header == parts[part_with_id(parts, lo)->0].0
                &&& f.payload matches Some(b) && b@ == joined_payloads(parts, lo, n)
                &&& parts[part_with_id(parts, lo + n - 1)->0].0.message_flags & 0x03 == 0x03
            }
            &&& r == Err::<DecodedFrame, MultipartError>(MultipartError::NotFinished) ==> n > 0 && parts[part_with_id(parts, lo + n - 1)->0].0.message_flags & 0x03 != 0x03
        },
{
    if msgs.len() == 0 {
        return Err(MultipartError::NoParts);
    }
    let mut parts: Vec<(MessageHeader, Vec<u8>)> = Vec::new();
    let mut i: usize = 0;
    while i < msgs.len()
        invariant
            i <= msgs@.len(),
            parts@.len() == i,
            forall|j: int| 0 <= j < i ==> decoded_part(#[trigger] msgs@[j]@) == Some((parts@[j].0, parts@[j].1@)),
        decreases msgs@.len() - i,
    {
        proof {
            lemma_decoded_part(msgs@[i as int]@);
        }
        match decode_frame(&msgs[i]) {
            Some(DecodedFrame { header, payload: Some(p) }) => {
                parts.push((header, p));
            },
            _ => {
                return Err(MultipartError::UnreadablePart(i));
            },
        }
        i = i + 1;
    }
    let ghost ps = Seq::new(msgs@.len(), |i: int| decoded_part(msgs@[i]@)->0);
    assert forall|j: int| 0 <= j < ps.len() implies ps[j] == (#[trigger] parts@[j].0, parts@[j].1@) by {}
    let n = parts.len();
    let mut lo: i64 = parts[0].0.message_id;
    let mut i: usize = 1;
    while i < n
        invariant
            1 <= i <= n,
            msgs@.len() == n,
            forall|j: int| 0 <= j < n ==> decoded_part(#[trigger] msgs@[j]@) is Some,
            n == parts@.len(),
            n == ps.len(),
            forall|j: int| 0 <= j < n ==> ps[j] == (#[trigger] parts@[j].0, parts@[j].1@),
            lo == least_id(ps.subrange(0, i as int)),
        decreases n - i,
    {
        assert(ps.subrange(0, i + 1).drop_last() =~= ps.subrange(0, i as int));
        if parts[i].0.message_id < lo {
            lo = parts[i].0.message_id;
        }
        i = i + 1;
    }
    assert(ps.subrange(0, n as int) =~= ps);
    proof {
        assert(parts_view(parts@) =~= ps);
    }
    match join_parts(&parts, lo) {
        Err(k) => Err(MultipartError::MissingPart(k)),
        Ok((first_header, last_flags, body)) => {
            if last_flags & MSG_FLAG_MULTIPART_AND_FINALPART != MSG_FLAG_MULTIPART_AND_FINALPART {
                return Err(MultipartError::NotFinished);
            }
            Ok(DecodedFrame { header: first_header, payload: Some(body) })
        },
    }
}

pub open spec fn parts_view(parts: Seq<(MessageHeader, Vec<u8>)>) -> Seq<(MessageHeader, Seq<u8>)> {
    parts.map_values(|p: (MessageHeader, Vec<u8>)| (p.0, p.1@))
}

/// Joins the payloads of the parts numbered on from `lo`, one per part:
/// the header of the first, the flags of the last, and the joined bytes;
/// or how far above `lo` the first missing identifier lies.
fn join_parts(parts: &Vec<(MessageHeader, Vec<u8>)>, lo: i64) -> (r: Result<(MessageHeader, i32, Vec<u8>), usize>)
    requires
        parts@.len() > 0,
    ensures
        ({
            let ps = parts_view(parts@);
            let n = parts@.len() as int;
            match r {
                Ok((h, flags, b)) => {
                    &&& forall|q: int| 0 <= q < n ==> #[trigger] part_with_id(ps, lo + q) is Some
                    &&& h == ps[part_with_id(ps, lo as int)->0].0
                    &&& flags == ps[part_with_id(ps, lo + n - 1)->0].0.message_flags
                    &&& b@ == joined_payloads(ps, lo as int, n)
                },
                Err(k) => k < n && part_with_id(ps, lo + k) is None && forall|q: int|
                    0 <= q < k ==> #[trigger] part_with_id(ps, lo + q) is Some,
            }
        }),
{
    let ghost ps = parts_view(parts@);
    let n = parts.len();
    let mut body: Vec<u8> = Vec::new();
    let mut first_header = parts[0].0;
    let mut last_flags: i32 = 0;
    let mut k: usize = 0;
    while k < n
        invariant
            k <= n,
            n == parts@.len(),
            ps == parts_view(parts@),
            forall|q: int| 0 <= q < k ==> #[trigger] part_with_id(ps, lo + q) is Some,
            body@ == joined_payloads(ps, lo as int, k as int),
            k > 0 ==> first_header == ps[part_with_id(ps, lo as int)->0].0,
            k > 0 ==> last_flags == ps[part_with_id(ps, lo + k - 1)->0].0.message_flags,
        decreases n - k,
    {
        if (lo as i128) + (k as i128) > (i64::MAX as i128) {
            proof {
                lemma_no_part_beyond(ps, lo + k);
            }
            return Err(k);
        }
        let id: i64 = (lo as i128 + k as i128) as i64;
        let j = match find_part(parts, id) {
            Some(j) => j,
            None => {
                proof {
                    lemma_part_with_id_none(ps, id as int);
                }
                return Err(k);
            },
        };
        proof {
            lemma_part_with_id(ps, id as int, j as int);
        }
        append_bytes(&mut body, &parts[j].1);
        if k == 0 {
            first_header = parts[j].0;
        }
        last_flags = parts[j].0.message_flags;
        k = k + 1;
    }
    Ok((first_header, last_flags, body))
}

/// Position of the first part with message identifier `id`.
fn find_part(parts: &Vec<(MessageHeader, Vec<u8>)>, id: i64) -> (r: Option<usize>)
    ensures
        match r {
            Some(j) => j < parts@.len() && parts@[j as int].0.message_id == id && forall|m: int|
                0 <= m < j ==> parts@[m].0.message_id != id,
            None => forall|m: int| 0 <= m < parts@.len() ==> parts@[m].0.message_id != id,
        },
{
    let mut j: usize = 0;
    while j < parts.len()
        invariant
            j <= parts@.len(),
            forall|m: int| 0 <= m < j ==> parts@[m].0.message_id != id,
        decreases parts@.len() - j,
    {
        if parts[j].0.message_id == id {
            return Some(j);
        }
        j = j + 1;
    }
    None
}

/// Appends `bytes` to `body`.
pub fn append_bytes(body: &mut Vec<u8>, bytes: &Vec<u8>)
    ensures
        final(body)@ == old(body)@ + bytes@,
{
    let mut t: usize = 0;
    while t < bytes.len()
        invariant
            t <= bytes@.len(),
            body@ == old(body)@ + bytes@.subrange(0, t as int),
        decreases bytes@.len() - t,
    {
        body.push(bytes[t]);
        t = t + 1;
        assert(body@ =~= old(body)@ + bytes@.subrange(0, t as int));
    }
    assert(bytes@.subrange(0, bytes@.len() as int) =~= bytes@);
}

proof fn lemma_part_with_id(parts: Seq<(MessageHeader, Seq<u8>)>, id: int, j: int)
    requires
        0 <= j < parts.len(),
        parts[j].0.message_id == id,
        forall|m: int| 0 <= m < j ==> parts[m].0.message_id != id,
    ensures
        part_with_id(parts, id) == Some(j),
{
    let c = choose|c: int|
        0 <= c < parts.len() && parts[c].0.message_id == id && forall|i: int|
            0 <= i < c ==> parts[i].0.message_id != id;
    if c < j {
    } else if c > j {
    }
}

proof fn lemma_part_with_id_none(parts: Seq<(MessageHeader, Seq<u8>)>, id: int)
    requires
        forall|m: int| 0 <= m < parts.len() ==> parts[m].0.message_id != id,
    ensures
        part_with_id(parts, id) is None,
{
}

/// Unfolds `decoded_part`.
proof fn lemma_decoded_part(bytes: Seq<u8>)
    ensures
        decoded_part(bytes) == match parse_header(bytes) {
            Some((h, n)) => match frame_payload(h, bytes.subrange(n, bytes.len() as int)) {
                Some(p) => Some((h, p)),
                None => None,
            },
            None => None,
        },
{
}

proof fn lemma_no_part_beyond(parts: Seq<(MessageHeader, Seq<u8>)>, id: int)
    requires
        id > i64::MAX,
    ensures
        part_with_id(parts, id) is None,
{
}

proof fn lemma_compressed_bit(flags: i32)
    ensures
        with_compressed(flags, true) & 0x08 != 0,
        with_compressed(flags, false) & 0x08 == 0,
        with_compressed(with_compressed(flags, true), false) == with_compressed(flags, false),
{
    assert((flags | 0x08) & 0x08 != 0) by (bit_vector);
    assert((flags & !0x08i32) & 0x08 == 0) by (bit_vector);
    assert((flags | 0x08) & !0x08i32 == flags & !0x08i32) by (bit_vector);
}

} // verus!
