//! The session state machine of one connection.

use vstd::prelude::*;
use std::collections::HashMap;
use etptypes::protocols::ProtocolMessage;
use crate::capabilities::ServerCapabilities;
use crate::credentials::ClientInfo;
use crate::header::MessageHeader;
use crate::message::{
    acknowledge_body,
    close_session_body,
    close_session_message,
    declared_identity,
    exception_code,
    flags_of,
    message_identity,
    reported_error_code,
    request_denied_body,
    unsupported_protocol_body,
    EtpMessage,
    EtpMessageHandler,
    MessageHeaderFlag,
    MSG_FLAG_FINAL,
};

verus! {

/// Error code of `EAUTHORIZATION_EXPIRED`: the session cannot go on.
pub const AUTHORIZATION_EXPIRED: i32 = 10;

/// Whether one of the bodies is a protocol exception reporting an expired
/// authorization.
fn reports_expired_authorization(bodies: &Vec<ProtocolMessage>) -> (r: bool)
    ensures
        r == reports_expired(bodies@),
{
    let mut i: usize = 0;
    while i < bodies.len()
        invariant
            i <= bodies@.len(),
            forall|k: int| 0 <= k < i ==> exception_code(#[trigger] bodies@[k]) != Some(AUTHORIZATION_EXPIRED),
        decreases bodies@.len() - i,
    {
        if reported_error_code(&bodies[i]) == Some(AUTHORIZATION_EXPIRED) {
            return true;
        }
        i = i + 1;
    }
    false
}

/// The protocols that ETP 1.2 publishes.
#[derive(Debug, PartialEq, Eq, Structural, Clone, Copy)]
pub enum CommunicationProtocol {
    Core,
    ChannelStreaming,
    ChannelDataFrame,
    Discovery,
    Store,
    StoreNotification,
    GrowingObject,
    GrowingObjectNotification,
    DataArray,
    DiscoveryQuery,
    StoreQuery,
    GrowingObjectQuery,
    Transaction,
    ChannelSubscribe,
    ChannelDataload,
    Dataspace,
    SupportedTypes,
    WitsmlSoap,
}

pub open spec fn protocol_number(p: CommunicationProtocol) -> i32 {
    match p {
        CommunicationProtocol::Core => 0,
        CommunicationProtocol::ChannelStreaming => 1,
        CommunicationProtocol::ChannelDataFrame => 2,
        CommunicationProtocol::Discovery => 3,
        CommunicationProtocol::Store => 4,
        CommunicationProtocol::StoreNotification => 5,
        CommunicationProtocol::GrowingObject => 6,
        CommunicationProtocol::GrowingObjectNotification => 7,
        CommunicationProtocol::DataArray => 9,
        CommunicationProtocol::DiscoveryQuery => 13,
        CommunicationProtocol::StoreQuery => 14,
        CommunicationProtocol::GrowingObjectQuery => 16,
        CommunicationProtocol::Transaction => 18,
        CommunicationProtocol::ChannelSubscribe => 21,
        CommunicationProtocol::ChannelDataload => 22,
        CommunicationProtocol::Dataspace => 24,
        CommunicationProtocol::SupportedTypes => 25,
        CommunicationProtocol::WitsmlSoap => 2000,
    }
}

impl CommunicationProtocol {
    /// The protocol's number on the wire.
    pub fn number(&self) -> (r: i32)
        ensures
            r == protocol_number(*self),
    {
        match self {
            CommunicationProtocol::Core => 0,
            CommunicationProtocol::ChannelStreaming => 1,
            CommunicationProtocol::ChannelDataFrame => 2,
            CommunicationProtocol::Discovery => 3,
            CommunicationProtocol::Store => 4,
            CommunicationProtocol::StoreNotification => 5,
            CommunicationProtocol::GrowingObject => 6,
            CommunicationProtocol::GrowingObjectNotification => 7,
            CommunicationProtocol::DataArray => 9,
            CommunicationProtocol::DiscoveryQuery => 13,
            CommunicationProtocol::StoreQuery => 14,
            CommunicationProtocol::GrowingObjectQuery => 16,
            CommunicationProtocol::Transaction => 18,
            CommunicationProtocol::ChannelSubscribe => 21,
            CommunicationProtocol::ChannelDataload => 22,
            CommunicationProtocol::Dataspace => 24,
            CommunicationProtocol::SupportedTypes => 25,
            CommunicationProtocol::WitsmlSoap => 2000,
        }
    }
}

#[derive(Debug, PartialEq, Eq, Structural, Clone, Copy)]
pub enum ConnectionType {
    Client,
    Server,
}

/// Whether a header is that of the Core message of type `message_type`.
pub open spec fn is_core(h: MessageHeader, message_type: i32) -> bool {
    h.protocol == 0 && h.message_type == message_type
}

pub open spec fn is_request_session(h: MessageHeader) -> bool {
    is_core(h, 1)
}

pub open spec fn is_open_session(h: MessageHeader) -> bool {
    is_core(h, 2)
}

pub open spec fn is_close_session(h: MessageHeader) -> bool {
    is_core(h, 5)
}

pub open spec fn is_protocol_exception(h: MessageHeader) -> bool {
    is_core(h, 1000)
}

pub open spec fn is_acknowledge(h: MessageHeader) -> bool {
    is_core(h, 1001)
}

/// Whether a connection in this state passes the message to its handler.
pub open spec fn calls_handler(connected: bool, kind: ConnectionType, mh: MessageHeader) -> bool {
    if !connected {
        match kind {
            ConnectionType::Server => is_request_session(mh),
            ConnectionType::Client => is_open_session(mh),
        }
    } else {
        !is_close_session(mh)
    }
}

/// Replies to the message `correlation_id`, numbered on from `first_id`,
/// each a single final part with no extension, whose header carries the
/// identity its body declares.
pub open spec fn numbered_replies(replies: Seq<EtpMessage>, correlation_id: i64, first_id: int) -> bool {
    forall|k: int|
        0 <= k < replies.len() ==> {
            let h = (#[trigger] replies[k]).header;
            &&& h.correlation_id == correlation_id
            &&& h.message_id == first_id + k
            &&& h.message_flags == MSG_FLAG_FINAL
            &&& replies[k].header_extension is None
            &&& replies[k].body is Some
            &&& (h.protocol, h.message_type) == declared_identity(replies[k].body->0)
        }
}

/// Whether one of the bodies is an `OpenSession`.
pub open spec fn opens_session(bodies: Seq<ProtocolMessage>) -> bool {
    exists|k: int| 0 <= k < bodies.len() && declared_identity(#[trigger] bodies[k]) == (0i32, 2i32)
}

/// Whether one of the bodies is a protocol exception for an expired
/// authorization.
pub open spec fn reports_expired(bodies: Seq<ProtocolMessage>) -> bool {
    exists|k: int| 0 <= k < bodies.len() && exception_code(#[trigger] bodies[k]) == Some(AUTHORIZATION_EXPIRED)
}

/// Whether the replies from index `from` on carry `bodies`, in order.
pub open spec fn carries(replies: Seq<EtpMessage>, from: int, bodies: Seq<ProtocolMessage>) -> bool {
    &&& 0 <= from
    &&& from + bodies.len() <= replies.len()
    &&& forall|k: int| 0 <= k < bodies.len() ==> #[trigger] replies[from + k].body == Some(bodies[k])
}

/// The contents of an optional vector.
pub open spec fn seq_of<T>(o: Option<Vec<T>>) -> Option<Seq<T>> {
    match o {
        Some(v) => Some(v@),
        None => None,
    }
}

/// The bodies a handler returned; none for `None`.
pub open spec fn handled_bodies(handled: Option<Seq<ProtocolMessage>>) -> Seq<ProtocolMessage> {
    match handled {
        Some(b) => b,
        None => Seq::empty(),
    }
}

/// One end of a session: its state, and the handler that answers what the
/// state machine does not.
pub struct EtpConnection<H: EtpMessageHandler> {
    pub is_connected: bool,
    pub client_info: Option<ClientInfo>,
    pub connection_type: ConnectionType,
    pub message_cache: HashMap<i64, Vec<Vec<u8>>>,
    pub capabilities: Option<ServerCapabilities>,
    msg_handler: H,
    message_id: i64,
}

impl<H: EtpMessageHandler> EtpConnection<H> {
    /// The identifier the next outgoing message takes.
    pub closed spec fn next_message_id(&self) -> i64 {
        self.message_id
    }

    pub closed spec fn connected(&self) -> bool {
        self.is_connected
    }

    pub closed spec fn client(&self) -> Option<ClientInfo> {
        self.client_info
    }

    pub closed spec fn kind(&self) -> ConnectionType {
        self.connection_type
    }

    pub closed spec fn server_capabilities(&self) -> Option<ServerCapabilities> {
        self.capabilities
    }

    pub closed spec fn cache(&self) -> Map<i64, Vec<Vec<u8>>> {
        self.message_cache@
    }

    /// A connection not yet in session; a server numbers its messages from
    /// 1, a client from 2.
    pub fn new(
        client_info: Option<ClientInfo>,
        connection_type: ConnectionType,
        capabilities: Option<ServerCapabilities>,
        msg_handler: H,
    ) -> (r: Self)
        ensures
            !r.connected(),
            r.client() == client_info,
            r.kind() == connection_type,
            r.server_capabilities() == capabilities,
            r.cache() == Map::<i64, Vec<Vec<u8>>>::empty(),
            r.next_message_id() == match connection_type {
                ConnectionType::Server => 1i64,
                ConnectionType::Client => 2i64,
            },
    {
        let message_id: i64 = match connection_type {
            ConnectionType::Server => 1,
            ConnectionType::Client => 2,
        };
        EtpConnection {
            client_info,
            connection_type,
            capabilities,
            is_connected: false,
            message_id,
            message_cache: HashMap::new(),
            msg_handler,
        }
    }

    /// What answering the message with header `mh` does to the connection
    /// (`old` before, `new` after) and what it returns (`r`), given what the
    /// handler returned for it (`handled`, read only where the handler is
    /// called). An `Acknowledge` comes first where `mh` asks for one. Out of
    /// session, a server answers a `RequestSession` with the handler's bodies
    /// and refuses anything else with `erequest_denied`; a client enters the
    /// session on `OpenSession`, answers with the handler's bodies, and drops
    /// anything else. In session, `CloseSession` ends the session (a server
    /// answers with its own `CloseSession`); anything else is answered with
    /// the handler's bodies, followed by a `CloseSession` that ends the
    /// session where one of them reports an expired authorization. Every
    /// reply is numbered in turn; `None` only where the identifiers ran out.
    pub open spec fn answers(
        old: Self,
        new: Self,
        mh: MessageHeader,
        handled: Option<Seq<ProtocolMessage>>,
        r: Option<Seq<EtpMessage>>,
    ) -> bool {
        let acked: int = if flags_of(mh.message_flags).msg_aknowledge {
            1
        } else {
            0
        };
        let server = old.kind() == ConnectionType::Server;
        let hs = handled_bodies(handled);
        &&& new.client() == old.client()
        &&& new.kind() == old.kind()
        &&& (r is None ==> new.next_message_id() == i64::MAX)
        &&& (old.next_message_id() + 2 + hs.len() <= i64::MAX ==> r is Some)
        &&& (r matches Some(replies) ==> {
            &&& numbered_replies(replies, mh.message_id, old.next_message_id() as int)
            &&& new.next_message_id() == old.next_message_id() + replies.len()
            &&& replies.len() >= acked
            &&& (acked == 1 ==> declared_identity(replies[0].body->0) == (0i32, 1001i32))
            &&& if !old.connected() {
                if server {
                    if is_request_session(mh) {
                        &&& replies.len() == acked + hs.len()
                        &&& carries(replies, acked, hs)
                        &&& new.connected() == opens_session(hs)
                        &&& new.server_capabilities() == old.server_capabilities()
                    } else {
                        &&& replies.len() == acked + 1
                        &&& declared_identity(replies[acked].body->0) == (0i32, 1000i32)
                        &&& exception_code(replies[acked].body->0) == Some(6i32)
                        &&& !new.connected()
                        &&& new.server_capabilities() == old.server_capabilities()
                    }
                } else {
                    if is_open_session(mh) {
                        &&& replies.len() == acked + hs.len()
                        &&& carries(replies, acked, hs)
                        &&& new.connected()
                        &&& new.server_capabilities() == old.server_capabilities()
                    } else {
                        &&& replies.len() == acked
                        &&& !new.connected()
                        &&& new.server_capabilities() == old.server_capabilities()
                    }
                }
            } else if is_close_session(mh) {
                &&& !new.connected()
                &&& new.server_capabilities() is None
                &&& replies.len() == acked + if server {
                    1int
                } else {
                    0int
                }
                &&& (server ==> replies[acked].body == Some(
                    close_session_message("Answer to client CloseSession message"@),
                ))
            } else if reports_expired(hs) {
                &&& replies.len() == acked + hs.len() + 1
                &&& carries(replies, acked, hs)
                &&& replies.last().body == Some(close_session_message("Authorization expired"@))
                &&& !new.connected()
                &&& new.server_capabilities() is None
            } else {
                &&& replies.len() == acked + hs.len()
                &&& carries(replies, acked, hs)
                &&& new.connected()
                &&& new.server_capabilities() == old.server_capabilities()
            }
        })
    }

    /// Takes the next message identifier; `None` once `i64::MAX` is reached.
    fn consume_message_id(&mut self) -> (r: Option<i64>)
        ensures
            final(self).is_connected == old(self).is_connected,
            final(self).client_info == old(self).client_info,
            final(self).connection_type == old(self).connection_type,
            final(self).capabilities == old(self).capabilities,
            match r {
                Some(id) => id == old(self).message_id && final(self).message_id == id + 1,
                None => old(self).message_id == i64::MAX && final(self).message_id == i64::MAX,
            },
    {
        if self.message_id == i64::MAX {
            return None;
        }
        let id = self.message_id;
        self.message_id = self.message_id + 1;
        Some(id)
    }

    /// Appends one reply per body to `answer`, each numbered in turn; a body
    /// that opens a session puts the connection in session. `false` where
    /// the identifiers ran out.
    fn push_replies(&mut self, mh: &MessageHeader, handled: Vec<ProtocolMessage>, answer: &mut Vec<EtpMessage>) -> (ok: bool)
        requires
            numbered_replies(old(answer)@, mh.message_id, old(self).message_id - old(answer)@.len()),
        ensures
            final(self).client_info == old(self).client_info,
            final(self).connection_type == old(self).connection_type,
            final(self).capabilities == old(self).capabilities,
            old(self).message_id + handled@.len() <= i64::MAX ==> ok,
            ok ==> {
                &&& final(answer)@.subrange(0, old(answer)@.len() as int) == old(answer)@
                &&& final(answer)@.len() == old(answer)@.len() + handled@.len()
                &&& numbered_replies(final(answer)@, mh.message_id, old(self).message_id - old(answer)@.len())
                &&& final(self).message_id == old(self).message_id + handled@.len()
                &&& carries(final(answer)@, old(answer)@.len() as int, handled@)
                &&& final(self).is_connected == (old(self).is_connected || opens_session(handled@))
            },
            !ok ==> final(self).message_id == i64::MAX,
    {
        let ghost all = handled@;
        let mut bodies = handled;
        let ghost start = answer@.len();
        let ghost first = self.message_id - answer@.len();
        let ghost total = bodies@.len();
        let ghost was_connected = self.is_connected;
        while bodies.len() > 0
            invariant
                start <= answer@.len(),
                answer@.len() - start + bodies@.len() == total,
                answer@.subrange(0, start as int) == old(answer)@,
                numbered_replies(answer@, mh.message_id, first),
                self.message_id == first + answer@.len(),
                first == old(self).message_id - old(answer)@.len(),
                start == old(answer)@.len(),
                self.client_info == old(self).client_info,
                self.connection_type == old(self).connection_type,
                self.capabilities == old(self).capabilities,
                self.is_connected == (was_connected || opens_session(all.subrange(0, answer@.len() - start))),
                was_connected == old(self).is_connected,
                all.len() == total,
                total == handled@.len(),
                bodies@ == all.subrange(answer@.len() - start, total as int),
                forall|k: int| 0 <= k < answer@.len() - start ==> #[trigger] answer@[start + k].body == Some(all[k]),
            decreases bodies@.len(),
        {
            let ghost done = answer@.len() - start;
            assert(done < total);
            assert(self.message_id == old(self).message_id + done);
            let next = bodies.remove(0);
            assert(next == all[done]);
            let (protocol, message_type) = message_identity(&next);
            let id = match self.consume_message_id() {
                Some(id) => id,
                None => return false,
            };
            if protocol == 0 && message_type == 2 {
                self.is_connected = true;
            }
            let ghost before = answer@;
            answer.push(
                EtpMessage::with_identity(
                    mh.message_id,
                    id,
                    MSG_FLAG_FINAL,
                    next,
                    protocol,
                    message_type,
                    None,
                ),
            );
            proof {
                assert(answer@.subrange(0, start as int) =~= before.subrange(0, start as int));
                assert forall|k: int| 0 <= k < answer@.len() implies {
                    let h = (#[trigger] answer@[k]).header;
                    &&& h.correlation_id == mh.message_id
                    &&& h.message_id == first + k
                    &&& h.message_flags == MSG_FLAG_FINAL
                    &&& answer@[k].header_extension is None
                    &&& answer@[k].body is Some
                    &&& (h.protocol, h.message_type) == declared_identity(answer@[k].body->0)
                } by {
                    if k < before.len() {
                        assert(answer@[k] == before[k]);
                    }
                }
                let pre = all.subrange(0, done);
                let post = all.subrange(0, done + 1);
                assert(post =~= pre.push(all[done]));
                if opens_session(pre) {
                    let k = choose|k: int| 0 <= k < pre.len() && declared_identity(pre[k]) == (0i32, 2i32);
                    assert(post[k] == pre[k]);
                }
                if opens_session(post) && !(protocol == 0 && message_type == 2) {
                    let k = choose|k: int| 0 <= k < post.len() && declared_identity(post[k]) == (0i32, 2i32);
                    assert(k < done);
                    assert(pre[k] == post[k]);
                }
                if protocol == 0 && message_type == 2 {
                    assert(post[done] == all[done]);
                }
                assert forall|k: int| 0 <= k < answer@.len() - start implies #[trigger] answer@[start + k].body == Some(all[k]) by {
                    if start + k < before.len() {
                        assert(answer@[start + k] == before[start + k]);
                    }
                }
                assert(bodies@ =~= all.subrange(answer@.len() - start, total as int));
            }
        }
        assert(all.subrange(0, total as int) =~= all);
        true
    }

    /// Appends one reply to `answer`. `false` where the identifiers ran out.
    fn push_reply(&mut self, mh: &MessageHeader, body: ProtocolMessage, answer: &mut Vec<EtpMessage>) -> (ok: bool)
        requires
            numbered_replies(old(answer)@, mh.message_id, old(self).message_id - old(answer)@.len()),
        ensures
            final(self).is_connected == old(self).is_connected,
            final(self).client_info == old(self).client_info,
            final(self).connection_type == old(self).connection_type,
            final(self).capabilities == old(self).capabilities,
            ok ==> {
                &&& final(answer)@.len() == old(answer)@.len() + 1
                &&& final(answer)@.subrange(0, old(answer)@.len() as int) == old(answer)@
                &&& numbered_replies(final(answer)@, mh.message_id, old(self).message_id - old(answer)@.len())
                &&& final(self).message_id == old(self).message_id + 1
                &&& final(answer)@[old(answer)@.len() as int].body == Some(body)
            },
            !ok ==> final(self).message_id == i64::MAX,
            old(self).message_id < i64::MAX ==> ok,
    {
        let (protocol, message_type) = message_identity(&body);
        let id = match self.consume_message_id() {
            Some(id) => id,
            None => return false,
        };
        let ghost before = answer@;
        answer.push(
            EtpMessage::with_identity(mh.message_id, id, MSG_FLAG_FINAL, body, protocol, message_type, None),
        );
        proof {
            assert(answer@.subrange(0, before.len() as int) =~= before);
            assert forall|k: int| 0 <= k < answer@.len() implies {
                let h = (#[trigger] answer@[k]).header;
                &&& h.correlation_id == mh.message_id
                &&& h.message_id == (old(self).message_id - before.len()) + k
                &&& h.message_flags == MSG_FLAG_FINAL
                &&& answer@[k].header_extension is None
                &&& answer@[k].body is Some
                &&& (h.protocol, h.message_type) == declared_identity(answer@[k].body->0)
            } by {
                if k < before.len() {
                    assert(answer@[k] == before[k]);
                }
            }
        }
        true
    }

    /// Answers the message with header `mh`, given what the handler returned
    /// for it: see `answers`.
    pub fn respond(&mut self, mh: &MessageHeader, handled: Option<Vec<ProtocolMessage>>) -> (r: Option<Vec<EtpMessage>>)
        ensures
            Self::answers(*old(self), *final(self), *mh, seq_of(handled), seq_of(r)),
    {
        let ghost hs = handled_bodies(seq_of(handled));
        let mut answer: Vec<EtpMessage> = Vec::new();
        let mh_flags = MessageHeaderFlag::parse(mh.message_flags);
        if mh_flags.msg_aknowledge {
            if !self.push_reply(mh, acknowledge_body(), &mut answer) {
                return None;
            }
        }
        let ghost acked = answer@.len();
        let ghost after_ack = answer@;
        let bodies: Vec<ProtocolMessage> = match handled {
            Some(b) => b,
            None => Vec::new(),
        };
        assert(bodies@ == hs);
        let is_request_session = mh.protocol == 0 && mh.message_type == 1;
        let is_open_session = mh.protocol == 0 && mh.message_type == 2;
        let is_close_session = mh.protocol == 0 && mh.message_type == 5;
        if !self.is_connected {
            match self.connection_type {
                ConnectionType::Server => {
                    if is_request_session {
                        if !self.push_replies(mh, bodies, &mut answer) {
                            return None;
                        }
                    } else {
                        if !self.push_reply(mh, request_denied_body(), &mut answer) {
                            return None;
                        }
                    }
                },
                ConnectionType::Client => {
                    if is_open_session {
                        self.is_connected = true;
                        if !self.push_replies(mh, bodies, &mut answer) {
                            return None;
                        }
                    }
                },
            }
        } else {
            if is_close_session {
                self.is_connected = false;
                self.capabilities = None;
                match self.connection_type {
                    ConnectionType::Server => {
                        let reason = String::from_str("Answer to client CloseSession message");
                        if !self.push_reply(mh, close_session_body(reason), &mut answer) {
                            return None;
                        }
                    },
                    ConnectionType::Client => {},
                }
            } else {
                let fatal = reports_expired_authorization(&bodies);
                if !self.push_replies(mh, bodies, &mut answer) {
                    return None;
                }
                let ghost after_replies = answer@;
                if fatal {
                    self.is_connected = false;
                    self.capabilities = None;
                    let reason = String::from_str("Authorization expired");
                    if !self.push_reply(mh, close_session_body(reason), &mut answer) {
                        return None;
                    }
                    proof {
                        assert forall|k: int| 0 <= k < hs.len() implies #[trigger] answer@[acked + k].body == Some(hs[k]) by {
                            assert(after_replies[acked + k].body == Some(hs[k]));
                            assert(answer@.subrange(0, after_replies.len() as int)[acked + k] == after_replies[acked + k]);
                        }
                    }
                }
            }
        }
        proof {
            if acked == 1 {
                assert(answer@[0] == answer@.subrange(0, acked as int)[0]);
                assert(answer@.subrange(0, acked as int) == after_ack);
            }
        }
        Some(answer)
    }

    /// Answers a message whose body could not be read (unknown protocol and
    /// type, or a payload that would not decode): one `ProtocolException`
    /// for an unsupported protocol, correlated to it. The session state is
    /// unchanged; `None` where the identifiers ran out.
    pub fn reject_unreadable(&mut self, mh: &MessageHeader) -> (r: Option<Vec<EtpMessage>>)
        ensures
            final(self).connected() == old(self).connected(),
            final(self).client() == old(self).client(),
            final(self).kind() == old(self).kind(),
            final(self).server_capabilities() == old(self).server_capabilities(),
            r is None <==> old(self).next_message_id() == i64::MAX,
            r matches Some(replies) ==> {
                &&& replies@.len() == 1
                &&& numbered_replies(replies@, mh.message_id, old(self).next_message_id() as int)
                &&& final(self).next_message_id() == old(self).next_message_id() + 1
                &&& declared_identity(replies@[0].body->0) == (0i32, 1000i32)
                &&& exception_code(replies@[0].body->0) == Some(4i32)
            },
    {
        let mut answer: Vec<EtpMessage> = Vec::new();
        if !self.push_reply(mh, unsupported_protocol_body(), &mut answer) {
            return None;
        }
        Some(answer)
    }

    /// Answers one inbound message, `mh` being its header and `mb` its body:
    /// the handler is called with the decoded flags and `mb` where the state
    /// machine passes the message on (`calls_handler`), and the answer is
    /// what `respond` gives for its result.
    pub fn handle_message(&mut self, mh: &MessageHeader, mb: &ProtocolMessage) -> (r: Option<Vec<EtpMessage>>)
        ensures
            exists|handled: Option<Seq<ProtocolMessage>>|
                (!calls_handler(old(self).connected(), old(self).kind(), *mh) ==> handled is None)
                && #[trigger] Self::answers(*old(self), *final(self), *mh, handled, seq_of(r)),
            !calls_handler(old(self).connected(), old(self).kind(), *mh)
                && old(self).next_message_id() <= i64::MAX - 2 ==> r is Some,
    {
        let calls = if !self.is_connected {
            match self.connection_type {
                ConnectionType::Server => mh.protocol == 0 && mh.message_type == 1,
                ConnectionType::Client => mh.protocol == 0 && mh.message_type == 2,
            }
        } else {
            !(mh.protocol == 0 && mh.message_type == 5)
        };
        let ghost before = *self;
        let handled = if calls {
            let flags = MessageHeaderFlag::parse(mh.message_flags);
            self.msg_handler.handle(flags, mb)
        } else {
            None
        };
        assert(self.is_connected == before.is_connected && self.message_id == before.message_id
            && self.client_info == before.client_info && self.connection_type == before.connection_type
            && self.capabilities == before.capabilities);
        let ghost h = seq_of(handled);
        let r = self.respond(mh, handled);
        assert(Self::answers(*old(self), *self, *mh, h, seq_of(r)));
        r
    }
}

} // verus!
