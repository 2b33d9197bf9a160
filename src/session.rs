//! One authenticated exchange with a security provider, as a state machine.
//!
//! The session never touches the device itself: each operation is split into a
//! `begin_*` step that yields the bytes to send and a `finish_*` step that takes
//! what the transport brought back, so the caller drives the hardware.
use vstd::prelude::*;
use crate::frame::{frame, frame_round_trip, parse, parse_spec, frame_spec, FrameError, MAX_PAYLOAD};
use crate::method::{call_spec, call_tokens, parse_response, response_spec, uid_bytes, uid_token};
use crate::status::{status_of, StatusCode};
use crate::token::{
    all_valid, decode, decode_spec, encode, encode_seq, tokenize, tokens_view, valid_token, Token,
    TokenV,
    MAX_ATOM_LEN,
};
use crate::uid::{locking_range, locking_range_spec, MBR_CONTROL, SESSION_MANAGER, SET, START_SESSION};

verus! {

/// The access policy of a locking range.
#[derive(Clone, Copy, Debug, PartialEq, Eq, Structural)]
pub enum LockingState {
    ReadWrite,
    ReadOnly,
    NoAccess,
}

/// The (read-locked, write-locked) flag pair that a policy sets.
pub open spec fn lock_flags(s: LockingState) -> (bool, bool) {
    match s {
        LockingState::ReadWrite => (false, false),
        LockingState::ReadOnly => (false, true),
        LockingState::NoAccess => (true, true),
    }
}

impl LockingState {
    pub fn flags(&self) -> (r: (bool, bool))
        ensures
            r == lock_flags(*self),
    {
        match self {
            LockingState::ReadWrite => (false, false),
            LockingState::ReadOnly => (false, true),
            LockingState::NoAccess => (true, true),
        }
    }
}

/// Why the device refused to open a session.
#[derive(Clone, Copy, Debug, PartialEq, Eq, Structural)]
pub enum Rejection {
    /// The credential was wrong; another one may be tried.
    BadCredential,
    /// The authority is locked out; trying again is pointless.
    LockedOut,
}

impl Rejection {
    /// Whether asking for another credential makes sense.
    pub fn retryable(&self) -> (r: bool)
        ensures
            r == (*self == Rejection::BadCredential),
    {
        match self {
            Rejection::BadCredential => true,
            Rejection::LockedOut => false,
        }
    }
}

/// How an exchange with the device failed below the protocol.
#[derive(Clone, Copy, Debug, PartialEq, Eq, Structural)]
pub enum TransportFailure {
    /// The device did not complete within the time allowed.
    Timeout,
    /// The device completed with this non-success status.
    Hardware(u32),
}

/// Everything that can go wrong in a session.
#[derive(Clone, Copy, Debug, PartialEq, Eq, Structural)]
pub enum OpalError {
    /// The reply payload is not a well-formed token stream.
    TokenFormat,
    /// The reply's envelope or token grammar is wrong.
    ProtocolFormat,
    /// The reply belongs to another session.
    ProtocolDesync,
    TransportTimeout,
    Transport(u32),
    /// The device reported this status for the method.
    Status(StatusCode),
    /// The device refused to open the session.
    Rejected(Rejection),
    /// A request is already outstanding on this session.
    Busy,
    /// The operation is not allowed in the session's current state.
    WrongState,
    /// The request does not fit in one frame.
    BufferTooSmall,
}

#[derive(Clone, Copy, Debug, PartialEq, Eq, Structural)]
pub enum SessionState {
    Disconnected,
    Authenticating,
    Authenticated,
    Rejected,
    Closed,
}

/// The request that is outstanding, if any.
#[derive(Clone, Copy, Debug, PartialEq, Eq, Structural)]
pub enum Pending {
    Idle,
    Start,
    Method,
    Close,
}

pub struct SessionView {
    pub com_id: u16,
    pub hsn: u32,
    pub tsn: u32,
    pub state: SessionState,
    pub pending: Pending,
}

/// The exchange channel of one device: its ComID. It is neither `Copy` nor
/// `Clone`; a device has one, and a session owns it for as long as the session
/// lives, so no two sessions ever share a device's transport.
#[derive(Debug)]
pub struct Channel {
    com_id: u16,
}

impl Channel {
    /// The channel of a device that takes Opal traffic on `com_id`.
    pub fn new(com_id: u16) -> (r: Channel)
        ensures
            r.com_id() == com_id,
    {
        Channel { com_id }
    }

    pub closed spec fn com_id(&self) -> u16 {
        self.com_id
    }

    pub fn get_com_id(&self) -> (r: u16)
        ensures
            r == self.com_id(),
    {
        self.com_id
    }
}

/// A session with one security provider of one device.
#[derive(Debug)]
pub struct Session {
    channel: Channel,
    hsn: u32,
    tsn: u32,
    state: SessionState,
    pending: Pending,
}

impl View for Session {
    type V = SessionView;

    closed spec fn view(&self) -> SessionView {
        SessionView {
            com_id: self.channel.com_id,
            hsn: self.hsn,
            tsn: self.tsn,
            state: self.state,
            pending: self.pending,
        }
    }
}

/// The invariant of a session: a host number, a device number exactly while
/// authenticated, and an outstanding request only where its state allows one.
pub open spec fn session_wf(s: SessionView) -> bool {
    &&& s.hsn != 0
    &&& (s.state == SessionState::Authenticated) == (s.tsn != 0)
    &&& (s.state == SessionState::Authenticating) == (s.pending == Pending::Start)
    &&& (s.pending == Pending::Method || s.pending == Pending::Close) ==> s.state
        == SessionState::Authenticated
}

/// The tokens a reply decodes to, for a session numbered `(tsn, hsn)`.
pub open spec fn reply_tokens(reply: Result<Seq<u8>, TransportFailure>, tsn: u32, hsn: u32) -> Result<
    Seq<TokenV>,
    OpalError,
> {
    match reply {
        Err(TransportFailure::Timeout) => Err(OpalError::TransportTimeout),
        Err(TransportFailure::Hardware(c)) => Err(OpalError::Transport(c)),
        Ok(buf) => match parse_spec(buf, tsn, hsn) {
            Err(FrameError::Format) => Err(OpalError::ProtocolFormat),
            Err(FrameError::Desync) => Err(OpalError::ProtocolDesync),
            Ok(p) => match decode_spec(p) {
                None => Err(OpalError::TokenFormat),
                Some(ts) => Ok(ts),
            },
        },
    }
}

/// The status code and output parameters of a reply.
pub open spec fn method_reply(reply: Result<Seq<u8>, TransportFailure>, tsn: u32, hsn: u32) -> Result<
    (u64, Seq<TokenV>),
    OpalError,
> {
    match reply_tokens(reply, tsn, hsn) {
        Err(e) => Err(e),
        Ok(ts) => match response_spec(ts) {
            None => Err(OpalError::ProtocolFormat),
            Some(x) => Ok(x),
        },
    }
}

/// What a method reply means: its output parameters on success, else the error.
pub open spec fn method_outcome(reply: Result<Seq<u8>, TransportFailure>, tsn: u32, hsn: u32) -> Result<
    Seq<TokenV>,
    OpalError,
> {
    match method_reply(reply, tsn, hsn) {
        Err(e) => Err(e),
        Ok((code, params)) => if status_of(code) == StatusCode::Success {
            Ok(params)
        } else {
            Err(OpalError::Status(status_of(code)))
        },
    }
}

/// What the reply to StartSession means: the device's session number, or why not.
pub open spec fn start_outcome(reply: Result<Seq<u8>, TransportFailure>, hsn: u32) -> Result<
    u32,
    OpalError,
> {
    match method_reply(reply, 0, 0) {
        Err(e) => Err(e),
        Ok((code, params)) => match status_of(code) {
            StatusCode::Success => if params.len() >= 2 {
                match (params[0], params[1]) {
                    (TokenV::Uint(h), TokenV::Uint(t)) => if h != hsn {
                        Err(OpalError::ProtocolDesync)
                    } else if t == 0 || t > 0xFFFF_FFFF {
                        Err(OpalError::ProtocolFormat)
                    } else {
                        Ok(t as u32)
                    },
                    _ => Err(OpalError::ProtocolFormat),
                }
            } else {
                Err(OpalError::ProtocolFormat)
            },
            StatusCode::NotAuthorized => Err(OpalError::Rejected(Rejection::BadCredential)),
            StatusCode::AuthorityLockedOut => Err(OpalError::Rejected(Rejection::LockedOut)),
            s => Err(OpalError::Status(s)),
        },
    }
}

/// Errors after which the exchange can no longer be trusted.
pub open spec fn aborts(e: OpalError) -> bool {
    e == OpalError::TokenFormat || e == OpalError::ProtocolFormat || e == OpalError::ProtocolDesync
}

/// The parameters of StartSession: host number, provider, write access, the
/// credential as host challenge and the authority as host signing authority.
pub open spec fn start_params(hsn: u32, sp: u64, authority: u64, credential: Seq<u8>) -> Seq<TokenV> {
    seq![
        TokenV::Uint(hsn as u64),
        uid_token(sp),
        TokenV::Uint(1),
        TokenV::StartName,
        TokenV::Uint(0),
        TokenV::Bytes(credential),
        TokenV::EndName,
        TokenV::StartName,
        TokenV::Uint(3),
        uid_token(authority),
        TokenV::EndName,
    ]
}

/// The parameters of a Set that writes `value` into column `column`.
pub open spec fn set_params(column: u64, value: bool) -> Seq<TokenV> {
    seq![
        TokenV::StartName,
        TokenV::Uint(1),
        TokenV::StartList,
        TokenV::StartName,
        TokenV::Uint(column),
        TokenV::Uint(if value { 1 } else { 0 }),
        TokenV::EndName,
        TokenV::EndList,
        TokenV::EndName,
    ]
}

/// The parameters of a Set that writes the lock flag pair of a locking range:
/// the read flag into column 5 (ReadLockEnabled) and the write flag into
/// column 6 (WriteLockEnabled).
pub open spec fn lock_params(flags: (bool, bool)) -> Seq<TokenV> {
    seq![
        TokenV::StartName,
        TokenV::Uint(1),
        TokenV::StartList,
        TokenV::StartName,
        TokenV::Uint(5),
        TokenV::Uint(if flags.0 { 1 } else { 0 }),
        TokenV::EndName,
        TokenV::StartName,
        TokenV::Uint(6),
        TokenV::Uint(if flags.1 { 1 } else { 0 }),
        TokenV::EndName,
        TokenV::EndList,
        TokenV::EndName,
    ]
}

/// A token sequence that can be framed and sent.
pub open spec fn request_fits(ts: Seq<TokenV>) -> bool {
    all_valid(ts) && encode_seq(ts).len() <= MAX_PAYLOAD
}

/// What a `begin_*` step yields for a request `ts` on session `(tsn, hsn)`, given
/// the session state it needs.
pub open spec fn begin_outcome(
    s: SessionView,
    needed: SessionState,
    ts: Seq<TokenV>,
    tsn: u32,
) -> Result<Seq<u8>, OpalError> {
    if s.pending != Pending::Idle {
        Err(OpalError::Busy)
    } else if s.state != needed {
        Err(OpalError::WrongState)
    } else if !request_fits(ts) {
        Err(OpalError::BufferTooSmall)
    } else {
        Ok(frame_spec(s.com_id, tsn, s.hsn, encode_seq(ts)))
    }
}

/// What the transport brought back, with the bytes as a sequence.
pub open spec fn reply_view(reply: Result<Vec<u8>, TransportFailure>) -> Result<Seq<u8>, TransportFailure> {
    match reply {
        Ok(b) => Ok(b@),
        Err(f) => Err(f),
    }
}

fn all_tokens_valid(ts: &[Token]) -> (r: bool)
    ensures
        r == all_valid(tokens_view(ts@)),
{
    let mut i: usize = 0;
    while i < ts.len()
        invariant
            i <= ts@.len(),
            forall|j: int| 0 <= j < i ==> valid_token(#[trigger] tokens_view(ts@)[j]),
        decreases ts@.len() - i,
    {
        match &ts[i] {
            Token::Bytes(b) => {
                if b.len() > MAX_ATOM_LEN {
                    assert(!valid_token(tokens_view(ts@)[i as int]));
                    return false;
                }
            },
            _ => {},
        }
        i = i + 1;
    }
    true
}

/// Frames a token sequence for sending, or says that it does not fit.
fn request_bytes(com_id: u16, tsn: u32, hsn: u32, ts: &[Token]) -> (r: Result<Vec<u8>, OpalError>)
    ensures
        match r {
            Ok(b) => request_fits(tokens_view(ts@)) && b@ == frame_spec(
                com_id,
                tsn,
                hsn,
                encode_seq(tokens_view(ts@)),
            ),
            Err(e) => !request_fits(tokens_view(ts@)) && e == OpalError::BufferTooSmall,
        },
{
    if !all_tokens_valid(ts) {
        return Err(OpalError::BufferTooSmall);
    }
    let payload = encode(ts);
    if payload.len() > MAX_PAYLOAD {
        return Err(OpalError::BufferTooSmall);
    }
    Ok(frame(com_id, tsn, hsn, payload.as_slice()))
}

/// The tokens a reply decodes to.
fn read_reply(reply: Result<Vec<u8>, TransportFailure>, tsn: u32, hsn: u32) -> (r: Result<
    (u64, Vec<Token>),
    OpalError,
>)
    ensures
        match r {
            Ok((code, params)) => method_reply(reply_view(reply), tsn, hsn) == Ok::<(u64, Seq<TokenV>), OpalError>((code, tokens_view(params@))),
            Err(e) => method_reply(reply_view(reply), tsn, hsn) == Err::<(u64, Seq<TokenV>), OpalError>(e),
        },
{
    let buf = match reply {
        Err(TransportFailure::Timeout) => {
            return Err(OpalError::TransportTimeout);
        },
        Err(TransportFailure::Hardware(c)) => {
            return Err(OpalError::Transport(c));
        },
        Ok(b) => b,
    };
    let payload = match parse(buf.as_slice(), tsn, hsn) {
        Err(FrameError::Format) => {
            return Err(OpalError::ProtocolFormat);
        },
        Err(FrameError::Desync) => {
            return Err(OpalError::ProtocolDesync);
        },
        Ok(p) => p,
    };
    let ts = match decode(payload.as_slice()) {
        Err(_) => {
            return Err(OpalError::TokenFormat);
        },
        Ok(ts) => ts,
    };
    match parse_response(ts.as_slice()) {
        None => Err(OpalError::ProtocolFormat),
        Some(x) => Ok(x),
    }
}

impl Session {
    /// A session that is not open yet on the device of `channel`, with host
    /// session number `hsn`. The session holds the channel until released.
    pub fn new(channel: Channel, hsn: u32) -> (r: Session)
        requires
            hsn != 0,
        ensures
            r@ == (SessionView {
                com_id: channel.com_id(),
                hsn,
                tsn: 0,
                state: SessionState::Disconnected,
                pending: Pending::Idle,
            }),
            session_wf(r@),
    {
        Session { channel, hsn, tsn: 0, state: SessionState::Disconnected, pending: Pending::Idle }
    }

    /// Gives the device's channel back, for another session to use; refused (the
    /// session comes back unchanged) while a request is outstanding.
    pub fn release(self) -> (r: Result<Channel, Session>)
        ensures
            self@.pending == Pending::Idle ==> (r matches Ok(c) && c.com_id() == self@.com_id),
            self@.pending != Pending::Idle ==> (r matches Err(s) && s@ == self@),
    {
        if self.pending == Pending::Idle {
            Ok(self.channel)
        } else {
            Err(self)
        }
    }

    pub fn state(&self) -> (r: SessionState)
        ensures
            r == self@.state,
    {
        self.state
    }

    /// The session number the device assigned; zero until authenticated.
    pub fn tsn(&self) -> (r: u32)
        ensures
            r == self@.tsn,
    {
        self.tsn
    }

    pub fn hsn(&self) -> (r: u32)
        ensures
            r == self@.hsn,
    {
        self.hsn
    }

    pub fn pending(&self) -> (r: Pending)
        ensures
            r == self@.pending,
    {
        self.pending
    }

    /// The request that opens the session on provider `sp` as `authority`, proving
    /// it with `credential`. Refused while another request is outstanding.
    pub fn begin_start(&mut self, sp: u64, authority: u64, credential: &[u8]) -> (r: Result<
        Vec<u8>,
        OpalError,
    >)
        requires
            session_wf(old(self)@),
        ensures
            session_wf(final(self)@),
            match r {
                Ok(b) => Ok::<Seq<u8>, OpalError>(b@),
                Err(e) => Err(e),
            } == begin_outcome(
                old(self)@,
                SessionState::Disconnected,
                call_spec(
                    SESSION_MANAGER,
                    START_SESSION,
                    start_params(old(self)@.hsn, sp, authority, credential@),
                ),
                0,
            ),
            r is Ok ==> final(self)@ == (SessionView {
                state: SessionState::Authenticating,
                pending: Pending::Start,
                ..old(self)@
            }),
            r is Err ==> final(self)@ == old(self)@,
    {
        if self.pending != Pending::Idle {
            return Err(OpalError::Busy);
        }
        if self.state != SessionState::Disconnected {
            return Err(OpalError::WrongState);
        }
        let mut params: Vec<Token> = Vec::new();
        params.push(Token::Uint(self.hsn as u64));
        params.push(uid_bytes(sp));
        params.push(Token::Uint(1));
        params.push(Token::StartName);
        params.push(Token::Uint(0));
        params.push(Token::Bytes(vstd::slice::slice_to_vec(credential)));
        params.push(Token::EndName);
        params.push(Token::StartName);
        params.push(Token::Uint(3));
        params.push(uid_bytes(authority));
        params.push(Token::EndName);
        assert(tokens_view(params@) =~= start_params(self.hsn, sp, authority, credential@));
        let call = call_tokens(SESSION_MANAGER, START_SESSION, params);
        let bytes = request_bytes(self.channel.com_id, 0, self.hsn, call.as_slice());
        if bytes.is_ok() {
            self.state = SessionState::Authenticating;
            self.pending = Pending::Start;
        }
        bytes
    }

    /// Takes the reply to StartSession. On success the session is authenticated
    /// under the number the device chose; a wrong credential or a locked-out
    /// authority rejects it; anything else leaves it disconnected, with no number.
    pub fn finish_start(&mut self, reply: Result<Vec<u8>, TransportFailure>) -> (r: Result<
        (),
        OpalError,
    >)
        requires
            session_wf(old(self)@),
        ensures
            session_wf(final(self)@),
            old(self)@.pending != Pending::Start ==> r == Err::<(), OpalError>(
                OpalError::WrongState,
            ) && final(self)@ == old(self)@,
            old(self)@.pending == Pending::Start ==> match start_outcome(
                reply_view(reply),
                old(self)@.hsn,
            ) {
                Ok(t) => r is Ok && final(self)@ == (SessionView {
                    tsn: t,
                    state: SessionState::Authenticated,
                    pending: Pending::Idle,
                    ..old(self)@
                }),
                Err(e) => r == Err::<(), OpalError>(e) && final(self)@ == (SessionView {
                    tsn: 0,
                    state: if e is Rejected {
                        SessionState::Rejected
                    } else {
                        SessionState::Disconnected
                    },
                    pending: Pending::Idle,
                    ..old(self)@
                }),
            },
    {
        if self.pending != Pending::Start {
            return Err(OpalError::WrongState);
        }
        self.pending = Pending::Idle;
        let outcome = self.start_reply(reply);
        match outcome {
            Ok(t) => {
                self.tsn = t;
                self.state = SessionState::Authenticated;
                Ok(())
            },
            Err(e) => {
                self.state = match e {
                    OpalError::Rejected(_) => SessionState::Rejected,
                    _ => SessionState::Disconnected,
                };
                Err(e)
            },
        }
    }

    fn start_reply(&self, reply: Result<Vec<u8>, TransportFailure>) -> (r: Result<u32, OpalError>)
        ensures
            r == start_outcome(reply_view(reply), self@.hsn),
    {
        let (code, params) = match read_reply(reply, 0, 0) {
            Err(e) => {
                return Err(e);
            },
            Ok(x) => x,
        };
        match StatusCode::from_code(code) {
            StatusCode::Success => {
                if params.len() < 2 {
                    return Err(OpalError::ProtocolFormat);
                }
                match (&params[0], &params[1]) {
                    (Token::Uint(h), Token::Uint(t)) => {
                        if *h != self.hsn as u64 {
                            Err(OpalError::ProtocolDesync)
                        } else if *t == 0 || *t > 0xFFFF_FFFF {
                            Err(OpalError::ProtocolFormat)
                        } else {
                            Ok(*t as u32)
                        }
                    },
                    _ => Err(OpalError::ProtocolFormat),
                }
            },
            StatusCode::NotAuthorized => Err(OpalError::Rejected(Rejection::BadCredential)),
            StatusCode::AuthorityLockedOut => Err(OpalError::Rejected(Rejection::LockedOut)),
            s => Err(OpalError::Status(s)),
        }
    }

    fn begin_method(&mut self, invoking: u64, method: u64, params: Vec<Token>) -> (r: Result<
        Vec<u8>,
        OpalError,
    >)
        requires
            session_wf(old(self)@),
        ensures
            session_wf(final(self)@),
            match r {
                Ok(b) => Ok::<Seq<u8>, OpalError>(b@),
                Err(e) => Err(e),
            } == begin_outcome(
                old(self)@,
                SessionState::Authenticated,
                call_spec(invoking, method, tokens_view(params@)),
                old(self)@.tsn,
            ),
            r is Ok ==> final(self)@ == (SessionView { pending: Pending::Method, ..old(self)@ }),
            r is Err ==> final(self)@ == old(self)@,
    {
        if self.pending != Pending::Idle {
            return Err(OpalError::Busy);
        }
        if self.state != SessionState::Authenticated {
            return Err(OpalError::WrongState);
        }
        let call = call_tokens(invoking, method, params);
        let bytes = request_bytes(self.channel.com_id, self.tsn, self.hsn, call.as_slice());
        if bytes.is_ok() {
            self.pending = Pending::Method;
        }
        bytes
    }

    /// The Set request that gives locking range `index` the policy `policy`.
    /// Refused while another request is outstanding.
    pub fn begin_set_locking_range(&mut self, index: u16, policy: LockingState) -> (r: Result<
        Vec<u8>,
        OpalError,
    >)
        requires
            session_wf(old(self)@),
        ensures
            session_wf(final(self)@),
            match r {
                Ok(b) => Ok::<Seq<u8>, OpalError>(b@),
                Err(e) => Err(e),
            } == begin_outcome(
                old(self)@,
                SessionState::Authenticated,
                call_spec(locking_range_spec(index), SET, lock_params(lock_flags(policy))),
                old(self)@.tsn,
            ),
            r is Ok ==> final(self)@ == (SessionView { pending: Pending::Method, ..old(self)@ }),
            r is Err ==> final(self)@ == old(self)@,
    {
        let (rl, wl) = policy.flags();
        let mut params: Vec<Token> = Vec::new();
        params.push(Token::StartName);
        params.push(Token::Uint(1));
        params.push(Token::StartList);
        params.push(Token::StartName);
        params.push(Token::Uint(5));
        params.push(Token::Uint(if rl { 1 } else { 0 }));
        params.push(Token::EndName);
        params.push(Token::StartName);
        params.push(Token::Uint(6));
        params.push(Token::Uint(if wl { 1 } else { 0 }));
        params.push(Token::EndName);
        params.push(Token::EndList);
        params.push(Token::EndName);
        assert(tokens_view(params@) =~= lock_params(lock_flags(policy)));
        self.begin_method(locking_range(index), SET, params)
    }

    /// The Set request that marks the shadow MBR as done (or not).
    /// Refused while another request is outstanding.
    pub fn begin_set_mbr_done(&mut self, done: bool) -> (r: Result<Vec<u8>, OpalError>)
        requires
            session_wf(old(self)@),
        ensures
            session_wf(final(self)@),
            match r {
                Ok(b) => Ok::<Seq<u8>, OpalError>(b@),
                Err(e) => Err(e),
            } == begin_outcome(
                old(self)@,
                SessionState::Authenticated,
                call_spec(MBR_CONTROL, SET, set_params(2, done)),
                old(self)@.tsn,
            ),
            r is Ok ==> final(self)@ == (SessionView { pending: Pending::Method, ..old(self)@ }),
            r is Err ==> final(self)@ == old(self)@,
    {
        let mut params: Vec<Token> = Vec::new();
        params.push(Token::StartName);
        params.push(Token::Uint(1));
        params.push(Token::StartList);
        params.push(Token::StartName);
        params.push(Token::Uint(2));
        params.push(Token::Uint(if done { 1 } else { 0 }));
        params.push(Token::EndName);
        params.push(Token::EndList);
        params.push(Token::EndName);
        assert(tokens_view(params@) =~= set_params(2, done));
        self.begin_method(MBR_CONTROL, SET, params)
    }

    /// Takes the reply to a method request: its output parameters when the device
    /// reports success. A failed status leaves the session authenticated; a reply
    /// that cannot be trusted closes it.
    pub fn finish_method(&mut self, reply: Result<Vec<u8>, TransportFailure>) -> (r: Result<
        Vec<Token>,
        OpalError,
    >)
        requires
            session_wf(old(self)@),
        ensures
            session_wf(final(self)@),
            old(self)@.pending != Pending::Method ==> r == Err::<Vec<Token>, OpalError>(
                OpalError::WrongState,
            ) && final(self)@ == old(self)@,
            old(self)@.pending == Pending::Method ==> match method_outcome(
                reply_view(reply),
                old(self)@.tsn,
                old(self)@.hsn,
            ) {
                Ok(p) => r matches Ok(v) && tokens_view(v@) == p && final(self)@ == (SessionView {
                    pending: Pending::Idle,
                    ..old(self)@
                }),
                Err(e) => r matches Err(x) && x == e && final(self)@ == (if aborts(e) {
                    SessionView {
                        tsn: 0,
                        state: SessionState::Closed,
                        pending: Pending::Idle,
                        ..old(self)@
                    }
                } else {
                    SessionView { pending: Pending::Idle, ..old(self)@ }
                }),
            },
    {
        if self.pending != Pending::Method {
            return Err(OpalError::WrongState);
        }
        self.pending = Pending::Idle;
        let result = match read_reply(reply, self.tsn, self.hsn) {
            Err(e) => Err(e),
            Ok((code, params)) => {
                let status = StatusCode::from_code(code);
                if status == StatusCode::Success {
                    Ok(params)
                } else {
                    Err(OpalError::Status(status))
                }
            },
        };
        match result {
            Err(OpalError::TokenFormat) | Err(OpalError::ProtocolFormat) | Err(
                OpalError::ProtocolDesync,
            ) => {
                self.tsn = 0;
                self.state = SessionState::Closed;
            },
            _ => {},
        }
        result
    }

    /// The EndSession request. Refused while another request is outstanding.
    pub fn begin_close(&mut self) -> (r: Result<Vec<u8>, OpalError>)
        requires
            session_wf(old(self)@),
        ensures
            session_wf(final(self)@),
            match r {
                Ok(b) => Ok::<Seq<u8>, OpalError>(b@),
                Err(e) => Err(e),
            } == begin_outcome(
                old(self)@,
                SessionState::Authenticated,
                seq![TokenV::EndOfSession],
                old(self)@.tsn,
            ),
            r is Ok ==> final(self)@ == (SessionView { pending: Pending::Close, ..old(self)@ }),
            r is Err ==> final(self)@ == old(self)@,
    {
        if self.pending != Pending::Idle {
            return Err(OpalError::Busy);
        }
        if self.state != SessionState::Authenticated {
            return Err(OpalError::WrongState);
        }
        let mut ts: Vec<Token> = Vec::new();
        ts.push(Token::EndOfSession);
        assert(tokens_view(ts@) =~= seq![TokenV::EndOfSession]);
        let bytes = request_bytes(self.channel.com_id, self.tsn, self.hsn, ts.as_slice());
        if bytes.is_ok() {
            self.pending = Pending::Close;
        }
        bytes
    }

    /// Takes whatever came back for EndSession: the session is closed either way,
    /// so that a failed close cannot override an earlier result.
    pub fn finish_close(&mut self, reply: Result<Vec<u8>, TransportFailure>)
        requires
            session_wf(old(self)@),
        ensures
            session_wf(final(self)@),
            old(self)@.pending == Pending::Close ==> final(self)@ == (SessionView {
                tsn: 0,
                state: SessionState::Closed,
                pending: Pending::Idle,
                ..old(self)@
            }),
            old(self)@.pending != Pending::Close ==> final(self)@ == old(self)@,
    {
        if self.pending == Pending::Close {
            self.tsn = 0;
            self.state = SessionState::Closed;
            self.pending = Pending::Idle;
        }
    }
}

/// While a request is outstanding every new request is refused as busy, whatever it
/// is and whatever state the session is in: exchanges never interleave. Since a
/// session owns its device's channel and gives it back only when idle, this holds
/// for the device as a whole.
pub proof fn one_request_at_a_time(
    s: SessionView,
    needed: SessionState,
    ts: Seq<TokenV>,
    tsn: u32,
)
    requires
        s.pending != Pending::Idle,
    ensures
        begin_outcome(s, needed, ts, tsn) == Err::<Seq<u8>, OpalError>(OpalError::Busy),
{
}

/// A StartSession reply with status NotAuthorized rejects the session as a bad
/// credential, which may be retried; one with AuthorityLockedOut rejects it as
/// locked out, which may not. The two rejections differ.
pub proof fn start_rejections_classified(
    reply: Result<Seq<u8>, TransportFailure>,
    hsn: u32,
    code: u64,
    params: Seq<TokenV>,
)
    requires
        method_reply(reply, 0, 0) == Ok::<(u64, Seq<TokenV>), OpalError>((code, params)),
    ensures
        status_of(code) == StatusCode::NotAuthorized ==> start_outcome(reply, hsn) == Err::<
            u32,
            OpalError,
        >(OpalError::Rejected(Rejection::BadCredential)),
        status_of(code) == StatusCode::AuthorityLockedOut ==> start_outcome(reply, hsn) == Err::<
            u32,
            OpalError,
        >(OpalError::Rejected(Rejection::LockedOut)),
        Rejection::BadCredential != Rejection::LockedOut,
{
}

/// What a reply means depends only on the tokens its payload splits into, not on
/// the atom classes that wrote them: two framed payloads that split alike give the
/// same StartSession outcome and the same method outcome. With
/// `any_atom_class_in_stream`, a session number sent in an oversized class opens
/// the session under the same number as its smallest encoding.
pub proof fn outcome_depends_on_tokens_only(
    com_id: u16,
    tsn: u32,
    hsn: u32,
    p1: Seq<u8>,
    p2: Seq<u8>,
)
    requires
        p1.len() <= MAX_PAYLOAD,
        p2.len() <= MAX_PAYLOAD,
        tokenize(p1) == tokenize(p2),
    ensures
        start_outcome(Ok(frame_spec(com_id, 0, 0, p1)), hsn) == start_outcome(
            Ok(frame_spec(com_id, 0, 0, p2)),
            hsn,
        ),
        method_outcome(Ok(frame_spec(com_id, tsn, hsn, p1)), tsn, hsn) == method_outcome(
            Ok(frame_spec(com_id, tsn, hsn, p2)),
            tsn,
            hsn,
        ),
{
    frame_round_trip(com_id, 0, 0, p1);
    frame_round_trip(com_id, 0, 0, p2);
    frame_round_trip(com_id, tsn, hsn, p1);
    frame_round_trip(com_id, tsn, hsn, p2);
}

} // verus!
