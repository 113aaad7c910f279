//! Session negotiation: the request messages that create or join a named,
//! password-protected session, and the client-side lifecycle state machine
//! that drives one request/response exchange to completion.
//!
//! The lifecycle is `Idle -> AwaitingResponse -> Established | Rejected`.
//! After a rejection the connection that carried it must be discarded; the
//! state returns to `Idle` only once a fresh connection exists.

use vstd::prelude::*;

use vstd::slice::slice_to_vec;
use vstd::string::StringSliceAdditionalSpecFns;

use crate::network::{
    enc_server_response, parse_server_response, server_response_msg, Reason, ServerResponse,
    ServerResponseView,
};
use crate::wire::{
    lemma_concat3, lemma_concat4, lemma_parse_bytes_at, lemma_parse_u8_at, parse_bytes, parse_u8,
    read_bytes, read_u8, write_all, write_u8, WireError,
};

verus! {

/// Player capacity given to every newly created session.
pub const DEFAULT_PLAYER_LIMIT: u8 = 8;

/// A request to create a named, password-protected session.
#[derive(Debug, Clone, PartialEq, Eq)]
pub struct NewSessionRequest {
    pub id: Vec<u8>,
    pub password: Vec<u8>,
    pub player_limit: u8,
}

/// The mathematical content of a create-session request.
pub struct NewSessionRequestView {
    pub id: Seq<u8>,
    pub password: Seq<u8>,
    pub player_limit: u8,
}

impl View for NewSessionRequest {
    type V = NewSessionRequestView;

    open spec fn view(&self) -> NewSessionRequestView {
        NewSessionRequestView { id: self.id@, password: self.password@, player_limit: self.player_limit }
    }
}

impl NewSessionRequestView {
    /// Both byte sequences fit their one-byte count fields.
    pub open spec fn wf(self) -> bool {
        self.id.len() <= 255 && self.password.len() <= 255
    }
}

/// A request to join an existing session.
#[derive(Debug, Clone, PartialEq, Eq)]
pub struct JoinSessionRequest {
    pub id: Vec<u8>,
    pub password: Vec<u8>,
}

/// The mathematical content of a join-session request.
pub struct JoinSessionRequestView {
    pub id: Seq<u8>,
    pub password: Seq<u8>,
}

impl View for JoinSessionRequest {
    type V = JoinSessionRequestView;

    open spec fn view(&self) -> JoinSessionRequestView {
        JoinSessionRequestView { id: self.id@, password: self.password@ }
    }
}

impl JoinSessionRequestView {
    /// Both byte sequences fit their one-byte count fields.
    pub open spec fn wf(self) -> bool {
        self.id.len() <= 255 && self.password.len() <= 255
    }
}

pub open spec fn enc_new_session(v: NewSessionRequestView) -> Seq<u8> {
    seq![v.id.len() as u8] + v.id + seq![v.password.len() as u8] + v.password
        + seq![v.player_limit]
}

pub open spec fn parse_new_session(b: Seq<u8>, i: int) -> Option<(NewSessionRequestView, int)> {
    match parse_u8(b, i) {
        None => None,
        Some((n, i)) => match parse_bytes(b, i, n as int) {
            None => None,
            Some((id, i)) => match parse_u8(b, i) {
                None => None,
                Some((m, i)) => match parse_bytes(b, i, m as int) {
                    None => None,
                    Some((password, i)) => match parse_u8(b, i) {
                        None => None,
                        Some((player_limit, i)) => Some(
                            (NewSessionRequestView { id, password, player_limit }, i),
                        ),
                    },
                },
            },
        },
    }
}

pub open spec fn enc_join_session(v: JoinSessionRequestView) -> Seq<u8> {
    seq![v.id.len() as u8] + v.id + seq![v.password.len() as u8] + v.password
}

pub open spec fn parse_join_session(b: Seq<u8>, i: int) -> Option<(JoinSessionRequestView, int)> {
    match parse_u8(b, i) {
        None => None,
        Some((n, i)) => match parse_bytes(b, i, n as int) {
            None => None,
            Some((id, i)) => match parse_u8(b, i) {
                None => None,
                Some((m, i)) => match parse_bytes(b, i, m as int) {
                    None => None,
                    Some((password, i)) => Some((JoinSessionRequestView { id, password }, i)),
                },
            },
        },
    }
}

/// The create-session request a whole buffer holds, if it is exactly one
/// well-formed request body.
pub open spec fn new_session_msg(b: Seq<u8>) -> Option<NewSessionRequestView> {
    match parse_new_session(b, 0) {
        None => None,
        Some((v, n)) => if n == b.len() {
            Some(v)
        } else {
            None
        },
    }
}

/// The join-session request a whole buffer holds, if it is exactly one
/// well-formed request body.
pub open spec fn join_session_msg(b: Seq<u8>) -> Option<JoinSessionRequestView> {
    match parse_join_session(b, 0) {
        None => None,
        Some((v, n)) => if n == b.len() {
            Some(v)
        } else {
            None
        },
    }
}

impl NewSessionRequest {
    /// A create-session request for the given credentials, with the fixed
    /// default player limit.
    pub fn new(id: &str, password: &str) -> (r: Self)
        ensures
            r.id@ == id.spec_bytes(),
            r.password@ == password.spec_bytes(),
            r.player_limit == DEFAULT_PLAYER_LIMIT,
    {
        NewSessionRequest {
            id: slice_to_vec(id.as_bytes()),
            password: slice_to_vec(password.as_bytes()),
            player_limit: DEFAULT_PLAYER_LIMIT,
        }
    }

    /// Whether both credential fields fit their one-byte count fields.
    pub fn encodable(&self) -> (r: bool)
        ensures
            r == self@.wf(),
    {
        self.id.len() <= 255 && self.password.len() <= 255
    }

    /// Encodes this request as a count-prefixed id, a count-prefixed
    /// password, and the player limit.
    pub fn to_bytes(&self) -> (r: Vec<u8>)
        requires
            self@.wf(),
        ensures
            r@ == enc_new_session(self@),
    {
        let mut out: Vec<u8> = Vec::new();
        write_u8(&mut out, self.id.len() as u8);
        write_all(&mut out, &self.id);
        write_u8(&mut out, self.password.len() as u8);
        write_all(&mut out, &self.password);
        write_u8(&mut out, self.player_limit);
        assert(out@ =~= enc_new_session(self@));
        out
    }

    /// Decodes one whole create-session request buffer.
    pub fn from_bytes(b: &[u8]) -> (r: Result<NewSessionRequest, WireError>)
        ensures
            match new_session_msg(b@) {
                Some(v) => r matches Ok(q) && q@ == v,
                None => r == Err::<NewSessionRequest, WireError>(WireError::MalformedMessage),
            },
    {
        let mut i: usize = 0;
        let q = match read_new_session(b, &mut i) {
            Ok(v) => v,
            Err(e) => {
                return Err(e);
            },
        };
        if i == b.len() {
            Ok(q)
        } else {
            Err(WireError::MalformedMessage)
        }
    }
}

impl JoinSessionRequest {
    /// A join-session request for the given credentials.
    pub fn new(id: &str, password: &str) -> (r: Self)
        ensures
            r.id@ == id.spec_bytes(),
            r.password@ == password.spec_bytes(),
    {
        JoinSessionRequest {
            id: slice_to_vec(id.as_bytes()),
            password: slice_to_vec(password.as_bytes()),
        }
    }

    /// Whether both credential fields fit their one-byte count fields.
    pub fn encodable(&self) -> (r: bool)
        ensures
            r == self@.wf(),
    {
        self.id.len() <= 255 && self.password.len() <= 255
    }

    /// Encodes this request as a count-prefixed id and a count-prefixed
    /// password.
    pub fn to_bytes(&self) -> (r: Vec<u8>)
        requires
            self@.wf(),
        ensures
            r@ == enc_join_session(self@),
    {
        let mut out: Vec<u8> = Vec::new();
        write_u8(&mut out, self.id.len() as u8);
        write_all(&mut out, &self.id);
        write_u8(&mut out, self.password.len() as u8);
        write_all(&mut out, &self.password);
        assert(out@ =~= enc_join_session(self@));
        out
    }

    /// Decodes one whole join-session request buffer.
    pub fn from_bytes(b: &[u8]) -> (r: Result<JoinSessionRequest, WireError>)
        ensures
            match join_session_msg(b@) {
                Some(v) => r matches Ok(q) && q@ == v,
                None => r == Err::<JoinSessionRequest, WireError>(WireError::MalformedMessage),
            },
    {
        let mut i: usize = 0;
        let q = match read_join_session(b, &mut i) {
            Ok(v) => v,
            Err(e) => {
                return Err(e);
            },
        };
        if i == b.len() {
            Ok(q)
        } else {
            Err(WireError::MalformedMessage)
        }
    }
}

/// A client-to-server message on the session channel.
#[derive(Debug, Clone, PartialEq, Eq)]
pub enum ServerRequest {
    NewSession(NewSessionRequest),
    JoinSession(JoinSessionRequest),
}

/// The mathematical content of a session-channel message.
pub enum ServerRequestView {
    NewSession(NewSessionRequestView),
    JoinSession(JoinSessionRequestView),
}

impl View for ServerRequest {
    type V = ServerRequestView;

    open spec fn view(&self) -> ServerRequestView {
        match self {
            ServerRequest::NewSession(q) => ServerRequestView::NewSession(q@),
            ServerRequest::JoinSession(q) => ServerRequestView::JoinSession(q@),
        }
    }
}

impl ServerRequestView {
    pub open spec fn wf(self) -> bool {
        match self {
            ServerRequestView::NewSession(q) => q.wf(),
            ServerRequestView::JoinSession(q) => q.wf(),
        }
    }
}

pub open spec fn enc_server_request(v: ServerRequestView) -> Seq<u8> {
    match v {
        ServerRequestView::NewSession(q) => seq![1u8] + enc_new_session(q),
        ServerRequestView::JoinSession(q) => seq![2u8] + enc_join_session(q),
    }
}

pub open spec fn parse_server_request(b: Seq<u8>, i: int) -> Option<(ServerRequestView, int)> {
    match parse_u8(b, i) {
        None => None,
        Some((tag, i)) => if tag == 1 {
            match parse_new_session(b, i) {
                None => None,
                Some((q, i)) => Some((ServerRequestView::NewSession(q), i)),
            }
        } else if tag == 2 {
            match parse_join_session(b, i) {
                None => None,
                Some((q, i)) => Some((ServerRequestView::JoinSession(q), i)),
            }
        } else {
            None
        },
    }
}

/// The session request a whole buffer holds, if it is exactly one
/// well-formed message.
pub open spec fn server_request_msg(b: Seq<u8>) -> Option<ServerRequestView> {
    match parse_server_request(b, 0) {
        None => None,
        Some((v, n)) => if n == b.len() {
            Some(v)
        } else {
            None
        },
    }
}

/// Reads one create-session request body.
pub fn read_new_session(b: &[u8], i: &mut usize) -> (r: Result<NewSessionRequest, WireError>)
    ensures
        match parse_new_session(b@, *old(i) as int) {
            Some((v, j)) => r matches Ok(q) && q@ == v && *final(i) == j,
            None => r == Err::<NewSessionRequest, WireError>(WireError::MalformedMessage),
        },
{
    let n = match read_u8(b, i) {
        Ok(v) => v,
        Err(e) => {
            return Err(e);
        },
    };
    let id = match read_bytes(b, i, n as usize) {
        Ok(v) => v,
        Err(e) => {
            return Err(e);
        },
    };
    let m = match read_u8(b, i) {
        Ok(v) => v,
        Err(e) => {
            return Err(e);
        },
    };
    let password = match read_bytes(b, i, m as usize) {
        Ok(v) => v,
        Err(e) => {
            return Err(e);
        },
    };
    let player_limit = match read_u8(b, i) {
        Ok(v) => v,
        Err(e) => {
            return Err(e);
        },
    };
    Ok(NewSessionRequest { id, password, player_limit })
}

/// Reads one join-session request body.
pub fn read_join_session(b: &[u8], i: &mut usize) -> (r: Result<JoinSessionRequest, WireError>)
    ensures
        match parse_join_session(b@, *old(i) as int) {
            Some((v, j)) => r matches Ok(q) && q@ == v && *final(i) == j,
            None => r == Err::<JoinSessionRequest, WireError>(WireError::MalformedMessage),
        },
{
    let n = match read_u8(b, i) {
        Ok(v) => v,
        Err(e) => {
            return Err(e);
        },
    };
    let id = match read_bytes(b, i, n as usize) {
        Ok(v) => v,
        Err(e) => {
            return Err(e);
        },
    };
    let m = match read_u8(b, i) {
        Ok(v) => v,
        Err(e) => {
            return Err(e);
        },
    };
    let password = match read_bytes(b, i, m as usize) {
        Ok(v) => v,
        Err(e) => {
            return Err(e);
        },
    };
    Ok(JoinSessionRequest { id, password })
}

impl ServerRequest {
    /// Whether the carried request can be encoded.
    pub fn encodable(&self) -> (r: bool)
        ensures
            r == self@.wf(),
    {
        match self {
            ServerRequest::NewSession(q) => q.encodable(),
            ServerRequest::JoinSession(q) => q.encodable(),
        }
    }

    /// Encodes this message: one discriminant byte, then the request body.
    pub fn to_bytes(&self) -> (r: Vec<u8>)
        requires
            self@.wf(),
        ensures
            r@ == enc_server_request(self@),
    {
        match self {
            ServerRequest::NewSession(q) => {
                let mut out: Vec<u8> = Vec::new();
                write_u8(&mut out, 1);
                let body = q.to_bytes();
                write_all(&mut out, &body);
                assert(out@ =~= enc_server_request(self@));
                out
            },
            ServerRequest::JoinSession(q) => {
                let mut out: Vec<u8> = Vec::new();
                write_u8(&mut out, 2);
                let body = q.to_bytes();
                write_all(&mut out, &body);
                assert(out@ =~= enc_server_request(self@));
                out
            },
        }
    }

    /// Decodes one whole session-request buffer.
    pub fn from_bytes(b: &[u8]) -> (r: Result<ServerRequest, WireError>)
        ensures
            match server_request_msg(b@) {
                Some(v) => r matches Ok(m) && m@ == v,
                None => r == Err::<ServerRequest, WireError>(WireError::MalformedMessage),
            },
    {
        let mut i: usize = 0;
        let tag = match read_u8(b, &mut i) {
            Ok(v) => v,
            Err(e) => {
                return Err(e);
            },
        };
        if tag == 1 {
            let q = match read_new_session(b, &mut i) {
                Ok(v) => v,
                Err(e) => {
                    return Err(e);
                },
            };
            if i == b.len() {
                Ok(ServerRequest::NewSession(q))
            } else {
                Err(WireError::MalformedMessage)
            }
        } else if tag == 2 {
            let q = match read_join_session(b, &mut i) {
                Ok(v) => v,
                Err(e) => {
                    return Err(e);
                },
            };
            if i == b.len() {
                Ok(ServerRequest::JoinSession(q))
            } else {
                Err(WireError::MalformedMessage)
            }
        } else {
            Err(WireError::MalformedMessage)
        }
    }
}

/// An encoded create-session request parses back from wherever it was
/// written.
#[verifier::rlimit(100)]
pub proof fn lemma_parse_new_session_at(pre: Seq<u8>, v: NewSessionRequestView, post: Seq<u8>)
    requires
        v.wf(),
    ensures
        parse_new_session(pre + enc_new_session(v) + post, pre.len() as int)
            == Some((v, pre.len() as int + enc_new_session(v).len() as int)),
{
    let b = pre + enc_new_session(v) + post;
    let x1 = seq![v.id.len() as u8];
    let x2 = v.id;
    let x3 = seq![v.password.len() as u8];
    let x4 = v.password;
    let x5 = seq![v.player_limit];
    let h4 = x1 + x2 + x3 + x4;
    let h3 = x1 + x2 + x3;
    let h2 = x1 + x2;
    lemma_concat4(pre, h4, x5, post);
    assert(b == (pre + h4) + x5 + post);
    let s5 = post;
    lemma_concat3(pre, h3, x4);
    lemma_concat4(pre + h3, x4, x5, s5);
    assert(b == (pre + h3) + x4 + (x5 + s5));
    let s4 = x5 + s5;
    lemma_concat3(pre, h2, x3);
    lemma_concat4(pre + h2, x3, x4, s4);
    assert(b == (pre + h2) + x3 + (x4 + s4));
    let s3 = x4 + s4;
    lemma_concat3(pre, x1, x2);
    lemma_concat4(pre + x1, x2, x3, s3);
    assert(b == (pre + x1) + x2 + (x3 + s3));
    let s2 = x3 + s3;
    lemma_concat4(pre, x1, x2, s2);
    assert(b == pre + x1 + (x2 + s2));
    let s1 = x2 + s2;
    lemma_parse_u8_at(pre, v.id.len() as u8, s1);
    lemma_parse_bytes_at(pre + x1, v.id, s2);
    lemma_parse_u8_at(pre + h2, v.password.len() as u8, s3);
    lemma_parse_bytes_at(pre + h3, v.password, s4);
    lemma_parse_u8_at(pre + h4, v.player_limit, s5);
    assert((v.id.len() as u8) as int == v.id.len() as int);
    assert((v.password.len() as u8) as int == v.password.len() as int);
}

/// An encoded join-session request parses back from wherever it was
/// written.
#[verifier::rlimit(100)]
pub proof fn lemma_parse_join_session_at(pre: Seq<u8>, v: JoinSessionRequestView, post: Seq<u8>)
    requires
        v.wf(),
    ensures
        parse_join_session(pre + enc_join_session(v) + post, pre.len() as int)
            == Some((v, pre.len() as int + enc_join_session(v).len() as int)),
{
    let b = pre + enc_join_session(v) + post;
    let x1 = seq![v.id.len() as u8];
    let x2 = v.id;
    let x3 = seq![v.password.len() as u8];
    let x4 = v.password;
    let h3 = x1 + x2 + x3;
    let h2 = x1 + x2;
    lemma_concat4(pre, h3, x4, post);
    assert(b == (pre + h3) + x4 + post);
    let s4 = post;
    lemma_concat3(pre, h2, x3);
    lemma_concat4(pre + h2, x3, x4, s4);
    assert(b == (pre + h2) + x3 + (x4 + s4));
    let s3 = x4 + s4;
    lemma_concat3(pre, x1, x2);
    lemma_concat4(pre + x1, x2, x3, s3);
    assert(b == (pre + x1) + x2 + (x3 + s3));
    let s2 = x3 + s3;
    lemma_concat4(pre, x1, x2, s2);
    assert(b == pre + x1 + (x2 + s2));
    let s1 = x2 + s2;
    lemma_parse_u8_at(pre, v.id.len() as u8, s1);
    lemma_parse_bytes_at(pre + x1, v.id, s2);
    lemma_parse_u8_at(pre + h2, v.password.len() as u8, s3);
    lemma_parse_bytes_at(pre + h3, v.password, s4);
    assert((v.id.len() as u8) as int == v.id.len() as int);
    assert((v.password.len() as u8) as int == v.password.len() as int);
}

/// For all well-formed session requests, decoding an encoding yields the
/// request back: round-trip identity for the session-request message.
#[verifier::rlimit(100)]
pub proof fn lemma_server_request_round_trip(v: ServerRequestView)
    requires
        v.wf(),
    ensures
        server_request_msg(enc_server_request(v)) == Some(v),
{
    let b = enc_server_request(v);
    match v {
        ServerRequestView::NewSession(q) => {
            lemma_parse_u8_at(Seq::empty(), 1u8, enc_new_session(q));
            assert(Seq::<u8>::empty() + seq![1u8] + enc_new_session(q) =~= b);
            lemma_parse_new_session_at(seq![1u8], q, Seq::empty());
            assert(seq![1u8] + enc_new_session(q) + Seq::<u8>::empty() =~= b);
        },
        ServerRequestView::JoinSession(q) => {
            lemma_parse_u8_at(Seq::empty(), 2u8, enc_join_session(q));
            assert(Seq::<u8>::empty() + seq![2u8] + enc_join_session(q) =~= b);
            lemma_parse_join_session_at(seq![2u8], q, Seq::empty());
            assert(seq![2u8] + enc_join_session(q) + Seq::<u8>::empty() =~= b);
        },
    }
}

/// For all well-formed create-session requests, decoding an encoding
/// yields the request back.
pub proof fn lemma_new_session_round_trip(v: NewSessionRequestView)
    requires
        v.wf(),
    ensures
        new_session_msg(enc_new_session(v)) == Some(v),
{
    lemma_parse_new_session_at(Seq::empty(), v, Seq::empty());
    assert(Seq::<u8>::empty() + enc_new_session(v) + Seq::<u8>::empty() =~= enc_new_session(v));
}

/// For all well-formed join-session requests, decoding an encoding yields
/// the request back.
pub proof fn lemma_join_session_round_trip(v: JoinSessionRequestView)
    requires
        v.wf(),
    ensures
        join_session_msg(enc_join_session(v)) == Some(v),
{
    lemma_parse_join_session_at(Seq::empty(), v, Seq::empty());
    assert(Seq::<u8>::empty() + enc_join_session(v) + Seq::<u8>::empty() =~= enc_join_session(v));
}

/// The server's terse verdict on a join attempt, kept for the session
/// channel's message catalogue.
#[derive(Clone, Copy, Debug, PartialEq, Eq, Structural)]
pub enum JoinResponse {
    Accepted,
    WrongPassword,
}

pub open spec fn join_response_tag(v: JoinResponse) -> u8 {
    match v {
        JoinResponse::Accepted => 1,
        JoinResponse::WrongPassword => 2,
    }
}

pub open spec fn join_response_msg(b: Seq<u8>) -> Option<JoinResponse> {
    if b.len() == 1 && b[0] == 1 {
        Some(JoinResponse::Accepted)
    } else if b.len() == 1 && b[0] == 2 {
        Some(JoinResponse::WrongPassword)
    } else {
        None
    }
}

impl JoinResponse {
    /// Encodes this verdict as its single discriminant byte.
    pub fn to_bytes(&self) -> (r: Vec<u8>)
        ensures
            r@ == seq![join_response_tag(*self)],
    {
        let mut out: Vec<u8> = Vec::new();
        match self {
            JoinResponse::Accepted => write_u8(&mut out, 1),
            JoinResponse::WrongPassword => write_u8(&mut out, 2),
        }
        assert(out@ =~= seq![join_response_tag(*self)]);
        out
    }

    /// Decodes one whole join-verdict buffer.
    pub fn from_bytes(b: &[u8]) -> (r: Result<JoinResponse, WireError>)
        ensures
            match join_response_msg(b@) {
                Some(v) => r == Ok::<JoinResponse, WireError>(v),
                None => r == Err::<JoinResponse, WireError>(WireError::MalformedMessage),
            },
    {
        if b.len() == 1 && b[0] == 1 {
            Ok(JoinResponse::Accepted)
        } else if b.len() == 1 && b[0] == 2 {
            Ok(JoinResponse::WrongPassword)
        } else {
            Err(WireError::MalformedMessage)
        }
    }
}

/// For all join verdicts, decoding an encoding yields the verdict back.
pub proof fn lemma_join_response_round_trip(v: JoinResponse)
    ensures
        join_response_msg(seq![join_response_tag(v)]) == Some(v),
{
}

/// Where one session-request exchange stands.
#[derive(Clone, Copy, Debug, PartialEq, Eq, Structural)]
pub enum SessionPhase {
    /// No request in flight; a fresh connection may carry one.
    Idle,
    /// A request was sent; exactly one response is awaited.
    AwaitingResponse,
    /// The server accepted; frame synchronization may begin.
    Established,
    /// The server rejected the request for the carried reason; the
    /// connection that carried the rejection must be discarded.
    Rejected(Reason),
}

/// The client side of one session-request exchange.
pub struct SessionClient {
    pub phase: SessionPhase,
}

impl SessionClient {
    /// A client with no request in flight.
    pub fn new() -> (r: Self)
        ensures
            r.phase == SessionPhase::Idle,
    {
        SessionClient { phase: SessionPhase::Idle }
    }

    /// Builds the bytes of a create-session message and moves to
    /// `AwaitingResponse`. The caller writes the bytes on the connection.
    pub fn begin_new_session(&mut self, req: NewSessionRequest) -> (r: Vec<u8>)
        requires
            old(self).phase == SessionPhase::Idle,
            req@.wf(),
        ensures
            final(self).phase == SessionPhase::AwaitingResponse,
            r@ == enc_server_request(ServerRequestView::NewSession(req@)),
    {
        self.phase = SessionPhase::AwaitingResponse;
        let m = ServerRequest::NewSession(req);
        m.to_bytes()
    }

    /// Builds the bytes of a join-session message and moves to
    /// `AwaitingResponse`. The caller writes the bytes on the connection.
    pub fn begin_join_session(&mut self, req: JoinSessionRequest) -> (r: Vec<u8>)
        requires
            old(self).phase == SessionPhase::Idle,
            req@.wf(),
        ensures
            final(self).phase == SessionPhase::AwaitingResponse,
            r@ == enc_server_request(ServerRequestView::JoinSession(req@)),
    {
        self.phase = SessionPhase::AwaitingResponse;
        let m = ServerRequest::JoinSession(req);
        m.to_bytes()
    }

    /// Consumes the one awaited response: acceptance establishes the
    /// session and hands back the initial snapshot; rejection records the
    /// reason. A malformed buffer leaves the exchange where it was — the
    /// connection that produced it is untrustworthy and must be torn down.
    pub fn handle_response(&mut self, b: &[u8]) -> (r: Result<ServerResponse, WireError>)
        requires
            old(self).phase == SessionPhase::AwaitingResponse,
        ensures
            match server_response_msg(b@) {
                Some(v) => {
                    &&& r matches Ok(m) && m@ == v
                    &&& match v {
                        ServerResponseView::Accepted(_) => final(self).phase
                            == SessionPhase::Established,
                        ServerResponseView::InvalidRequest(reason) => final(self).phase
                            == SessionPhase::Rejected(reason),
                    }
                },
                None => r == Err::<ServerResponse, WireError>(WireError::MalformedMessage)
                    && final(self).phase == old(self).phase,
            },
    {
        let m = match ServerResponse::from_bytes(b) {
            Ok(v) => v,
            Err(e) => {
                return Err(e);
            },
        };
        match &m {
            ServerResponse::Accepted(_) => {
                self.phase = SessionPhase::Established;
            },
            ServerResponse::InvalidRequest(reason) => {
                self.phase = SessionPhase::Rejected(*reason);
            },
        }
        Ok(m)
    }

    /// Acknowledges a rejection once a fresh connection exists: the state
    /// returns to `Idle` and a new request may be sent.
    pub fn connection_replaced(&mut self)
        requires
            old(self).phase is Rejected,
        ensures
            final(self).phase == SessionPhase::Idle,
    {
        self.phase = SessionPhase::Idle;
    }
}

} // verus!
