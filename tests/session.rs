use opal_unlock::frame::{frame, parse};
use opal_unlock::method::{call_tokens, parse_response, uid_bytes};
use opal_unlock::session::{
    Channel, LockingState, OpalError, Pending, Rejection, Session, SessionState, TransportFailure,
};
use opal_unlock::status::StatusCode;
use opal_unlock::token::{decode, encode, Token};
use opal_unlock::uid::{
    locking_range, ADMIN1, LOCKING_RANGE_GLOBAL, LOCKING_SP, MBR_CONTROL, SESSION_MANAGER, SET,
    START_SESSION, SYNC_SESSION,
};

const COM_ID: u16 = 0x07FE;
const HSN: u32 = 0x1001;

fn uid(u: u64) -> Token {
    Token::Bytes(u.to_be_bytes().to_vec())
}

fn status_list(code: u64) -> Vec<Token> {
    vec![
        Token::EndOfData,
        Token::StartList,
        Token::Uint(code),
        Token::Uint(0),
        Token::Uint(0),
        Token::EndList,
    ]
}

fn sync_reply(code: u64, tsn: u64) -> Vec<u8> {
    let mut ts = vec![Token::Call, uid(SESSION_MANAGER), uid(SYNC_SESSION), Token::StartList];
    if code == 0 {
        ts.push(Token::Uint(HSN as u64));
        ts.push(Token::Uint(tsn));
    }
    ts.push(Token::EndList);
    ts.extend(status_list(code));
    frame(COM_ID, 0, 0, &encode(&ts))
}

fn method_reply(tsn: u32, code: u64, results: Vec<Token>) -> Vec<u8> {
    let mut ts = vec![Token::StartList];
    ts.extend(results);
    ts.push(Token::EndList);
    ts.extend(status_list(code));
    frame(COM_ID, tsn, HSN, &encode(&ts))
}

fn request_tokens(req: &[u8], tsn: u32) -> Vec<Token> {
    decode(&parse(req, tsn, HSN).unwrap()).unwrap()
}

fn authenticated() -> Session {
    let mut s = Session::new(Channel::new(COM_ID), HSN);
    s.begin_start(LOCKING_SP, ADMIN1, &[0u8; 32]).unwrap();
    s.finish_start(Ok(sync_reply(0, 0x1234))).unwrap();
    s
}

#[test]
fn start_request_tokens() {
    let mut s = Session::new(Channel::new(COM_ID), HSN);
    let req = s.begin_start(LOCKING_SP, ADMIN1, &[0u8; 32]).unwrap();
    let want = vec![
        Token::Call,
        uid(SESSION_MANAGER),
        uid(START_SESSION),
        Token::StartList,
        Token::Uint(HSN as u64),
        uid(LOCKING_SP),
        Token::Uint(1),
        Token::StartName,
        Token::Uint(0),
        Token::Bytes(vec![0u8; 32]),
        Token::EndName,
        Token::StartName,
        Token::Uint(3),
        uid(ADMIN1),
        Token::EndName,
        Token::EndList,
        Token::EndOfData,
        Token::StartList,
        Token::Uint(0),
        Token::Uint(0),
        Token::Uint(0),
        Token::EndList,
    ];
    assert_eq!(request_tokens(&req, 0), want);
    assert_eq!(s.state(), SessionState::Authenticating);
    assert_eq!(s.pending(), Pending::Start);
}

#[test]
fn start_success_records_session_number() {
    let s = authenticated();
    assert_eq!(s.state(), SessionState::Authenticated);
    assert_eq!(s.tsn(), 0x1234);
    assert_eq!(s.hsn(), HSN);
    assert_eq!(s.pending(), Pending::Idle);
}

#[test]
fn start_not_authorized_is_retryable() {
    let mut s = Session::new(Channel::new(COM_ID), HSN);
    s.begin_start(LOCKING_SP, ADMIN1, &[0u8; 32]).unwrap();
    let r = s.finish_start(Ok(sync_reply(0x01, 0)));
    assert_eq!(r, Err(OpalError::Rejected(Rejection::BadCredential)));
    assert!(Rejection::BadCredential.retryable());
    assert_eq!(s.state(), SessionState::Rejected);
    assert_eq!(s.tsn(), 0);
}

#[test]
fn start_locked_out_is_not_retryable() {
    let mut s = Session::new(Channel::new(COM_ID), HSN);
    s.begin_start(LOCKING_SP, ADMIN1, &[0u8; 32]).unwrap();
    let r = s.finish_start(Ok(sync_reply(0x12, 0)));
    assert_eq!(r, Err(OpalError::Rejected(Rejection::LockedOut)));
    assert!(!Rejection::LockedOut.retryable());
    assert_ne!(Rejection::LockedOut, Rejection::BadCredential);
    assert_eq!(s.state(), SessionState::Rejected);
}

#[test]
fn start_other_status_leaves_disconnected() {
    let mut s = Session::new(Channel::new(COM_ID), HSN);
    s.begin_start(LOCKING_SP, ADMIN1, &[1, 2, 3]).unwrap();
    let r = s.finish_start(Ok(sync_reply(0x03, 0)));
    assert_eq!(r, Err(OpalError::Status(StatusCode::SpBusy)));
    assert_eq!(s.state(), SessionState::Disconnected);
    assert_eq!(s.tsn(), 0);
}

#[test]
fn start_timeout_leaves_disconnected() {
    let mut s = Session::new(Channel::new(COM_ID), HSN);
    s.begin_start(LOCKING_SP, ADMIN1, &[0u8; 32]).unwrap();
    let r = s.finish_start(Err(TransportFailure::Timeout));
    assert_eq!(r, Err(OpalError::TransportTimeout));
    assert_eq!(s.state(), SessionState::Disconnected);
    assert_eq!(s.tsn(), 0);
    assert_eq!(s.pending(), Pending::Idle);
}

#[test]
fn start_hardware_failure_is_reported() {
    let mut s = Session::new(Channel::new(COM_ID), HSN);
    s.begin_start(LOCKING_SP, ADMIN1, &[0u8; 32]).unwrap();
    let r = s.finish_start(Err(TransportFailure::Hardware(6)));
    assert_eq!(r, Err(OpalError::Transport(6)));
    assert_eq!(s.state(), SessionState::Disconnected);
}

#[test]
fn start_reply_for_other_host_session_is_desync() {
    let mut s = Session::new(Channel::new(COM_ID), 0x2002);
    s.begin_start(LOCKING_SP, ADMIN1, &[0u8; 32]).unwrap();
    let r = s.finish_start(Ok(sync_reply(0, 0x1234)));
    assert_eq!(r, Err(OpalError::ProtocolDesync));
    assert_eq!(s.state(), SessionState::Disconnected);
}

#[test]
fn start_garbled_reply_is_format_error() {
    let mut s = Session::new(Channel::new(COM_ID), HSN);
    s.begin_start(LOCKING_SP, ADMIN1, &[0u8; 32]).unwrap();
    assert_eq!(s.finish_start(Ok(vec![0u8; 10])), Err(OpalError::ProtocolFormat));
    let mut s = Session::new(Channel::new(COM_ID), HSN);
    s.begin_start(LOCKING_SP, ADMIN1, &[0u8; 32]).unwrap();
    let bad = frame(COM_ID, 0, 0, &[0xF0]);
    assert_eq!(s.finish_start(Ok(bad)), Err(OpalError::TokenFormat));
    let mut s = Session::new(Channel::new(COM_ID), HSN);
    s.begin_start(LOCKING_SP, ADMIN1, &[0u8; 32]).unwrap();
    let no_status = frame(COM_ID, 0, 0, &encode(&[Token::StartList, Token::EndList]));
    assert_eq!(s.finish_start(Ok(no_status)), Err(OpalError::ProtocolFormat));
}

#[test]
fn second_request_while_outstanding_is_busy() {
    let mut s = Session::new(Channel::new(COM_ID), HSN);
    s.begin_start(LOCKING_SP, ADMIN1, &[0u8; 32]).unwrap();
    assert_eq!(s.begin_start(LOCKING_SP, ADMIN1, &[0u8; 32]), Err(OpalError::Busy));
    assert_eq!(s.begin_set_mbr_done(true), Err(OpalError::Busy));
    assert_eq!(s.begin_close(), Err(OpalError::Busy));
    assert_eq!(s.state(), SessionState::Authenticating);

    let mut s = authenticated();
    s.begin_set_mbr_done(true).unwrap();
    assert_eq!(s.begin_set_locking_range(0, LockingState::ReadWrite), Err(OpalError::Busy));
    assert_eq!(s.begin_close(), Err(OpalError::Busy));
    assert_eq!(s.pending(), Pending::Method);
}

#[test]
fn methods_need_an_authenticated_session() {
    let mut s = Session::new(Channel::new(COM_ID), HSN);
    assert_eq!(s.begin_set_mbr_done(true), Err(OpalError::WrongState));
    assert_eq!(s.begin_close(), Err(OpalError::WrongState));
    assert_eq!(s.finish_method(Err(TransportFailure::Timeout)), Err(OpalError::WrongState));
    assert_eq!(s.finish_start(Err(TransportFailure::Timeout)), Err(OpalError::WrongState));
    let mut a = authenticated();
    assert_eq!(a.begin_start(LOCKING_SP, ADMIN1, &[0u8; 32]), Err(OpalError::WrongState));
}

#[test]
fn set_locking_range_read_write_request() {
    let mut s = authenticated();
    let req = s.begin_set_locking_range(0, LockingState::ReadWrite).unwrap();
    let want = vec![
        Token::Call,
        uid(LOCKING_RANGE_GLOBAL),
        uid(SET),
        Token::StartList,
        Token::StartName,
        Token::Uint(1),
        Token::StartList,
        Token::StartName,
        Token::Uint(5),
        Token::Uint(0),
        Token::EndName,
        Token::StartName,
        Token::Uint(6),
        Token::Uint(0),
        Token::EndName,
        Token::EndList,
        Token::EndName,
        Token::EndList,
        Token::EndOfData,
        Token::StartList,
        Token::Uint(0),
        Token::Uint(0),
        Token::Uint(0),
        Token::EndList,
    ];
    assert_eq!(request_tokens(&req, 0x1234), want);
}

#[test]
fn set_locking_range_no_access_flags() {
    let mut s = authenticated();
    let req = s.begin_set_locking_range(2, LockingState::NoAccess).unwrap();
    let ts = request_tokens(&req, 0x1234);
    assert_eq!(ts[1], uid(0x0000_0802_0003_0002));
    assert_eq!(ts[8], Token::Uint(5));
    assert_eq!(ts[9], Token::Uint(1));
    assert_eq!(ts[12], Token::Uint(6));
    assert_eq!(ts[13], Token::Uint(1));
    assert_eq!(LockingState::ReadOnly.flags(), (false, true));
}

#[test]
fn set_mbr_done_request() {
    let mut s = authenticated();
    let req = s.begin_set_mbr_done(true).unwrap();
    let ts = request_tokens(&req, 0x1234);
    assert_eq!(ts[1], uid(MBR_CONTROL));
    assert_eq!(ts[2], uid(SET));
    assert_eq!(
        &ts[4..13],
        &[
            Token::StartName,
            Token::Uint(1),
            Token::StartList,
            Token::StartName,
            Token::Uint(2),
            Token::Uint(1),
            Token::EndName,
            Token::EndList,
            Token::EndName,
        ]
    );
}

#[test]
fn method_success_returns_results() {
    let mut s = authenticated();
    s.begin_set_mbr_done(true).unwrap();
    let r = s.finish_method(Ok(method_reply(0x1234, 0, vec![Token::Uint(9)])));
    assert_eq!(r, Ok(vec![Token::Uint(9)]));
    assert_eq!(s.state(), SessionState::Authenticated);
    assert_eq!(s.pending(), Pending::Idle);
}

#[test]
fn method_failure_keeps_session() {
    let mut s = authenticated();
    s.begin_set_locking_range(0, LockingState::ReadWrite).unwrap();
    let r = s.finish_method(Ok(method_reply(0x1234, 0x3F, vec![])));
    assert_eq!(r, Err(OpalError::Status(StatusCode::Fail)));
    assert_eq!(s.state(), SessionState::Authenticated);
    assert!(s.begin_set_mbr_done(true).is_ok());
}

#[test]
fn method_desync_closes_session() {
    let mut s = authenticated();
    s.begin_set_mbr_done(true).unwrap();
    let r = s.finish_method(Ok(method_reply(0x9999, 0, vec![])));
    assert_eq!(r, Err(OpalError::ProtocolDesync));
    assert_eq!(s.state(), SessionState::Closed);
    assert_eq!(s.begin_set_mbr_done(true), Err(OpalError::WrongState));
}

#[test]
fn close_always_ends_closed() {
    let mut s = authenticated();
    let req = s.begin_close().unwrap();
    assert_eq!(request_tokens(&req, 0x1234), vec![Token::EndOfSession]);
    s.finish_close(Err(TransportFailure::Timeout));
    assert_eq!(s.state(), SessionState::Closed);
    assert_eq!(s.tsn(), 0);
    assert_eq!(s.pending(), Pending::Idle);
}

#[test]
fn call_and_response_helpers() {
    let call = call_tokens(1, 2, vec![Token::Uint(5)]);
    assert_eq!(call[0], Token::Call);
    assert_eq!(call[1], uid_bytes(1));
    assert_eq!(call[4], Token::Uint(5));
    assert_eq!(call.len(), 12);
    let mut reply = vec![Token::StartList, Token::Uint(4), Token::EndList];
    reply.extend(status_list(0x12));
    assert_eq!(parse_response(&reply), Some((0x12, vec![Token::Uint(4)])));
    assert_eq!(parse_response(&reply[..5]), None);
    assert_eq!(locking_range(0), LOCKING_RANGE_GLOBAL);
    assert_eq!(locking_range(1), 0x0000_0802_0003_0001);
}

#[test]
fn status_codes_are_named() {
    assert_eq!(StatusCode::from_code(0), StatusCode::Success);
    assert_eq!(StatusCode::from_code(1), StatusCode::NotAuthorized);
    assert_eq!(StatusCode::from_code(3), StatusCode::SpBusy);
    assert_eq!(StatusCode::from_code(4), StatusCode::SpFailed);
    assert_eq!(StatusCode::from_code(5), StatusCode::SpDisabled);
    assert_eq!(StatusCode::from_code(0x12), StatusCode::AuthorityLockedOut);
    assert_eq!(StatusCode::from_code(0x3F), StatusCode::Fail);
    assert_eq!(StatusCode::from_code(0x07), StatusCode::Unknown(7));
}

#[test]
fn channel_returns_only_when_idle() {
    let mut s = Session::new(Channel::new(COM_ID), HSN);
    s.begin_start(LOCKING_SP, ADMIN1, &[0u8; 32]).unwrap();
    let s = match s.release() {
        Ok(_) => panic!("released with a request outstanding"),
        Err(s) => s,
    };
    assert_eq!(s.pending(), Pending::Start);
    let mut s = s;
    s.finish_start(Ok(sync_reply(0x01, 0))).unwrap_err();
    let ch = s.release().unwrap();
    assert_eq!(ch.get_com_id(), COM_ID);
    let mut again = Session::new(ch, HSN + 1);
    assert!(again.begin_start(LOCKING_SP, ADMIN1, &[1u8; 32]).is_ok());
}

#[test]
fn start_accepts_oversized_session_number() {
    let mut s = Session::new(Channel::new(COM_ID), HSN);
    s.begin_start(LOCKING_SP, ADMIN1, &[0u8; 32]).unwrap();
    let mut body = encode(&[Token::Call, uid(SESSION_MANAGER), uid(SYNC_SESSION), Token::StartList]);
    body.extend_from_slice(&encode(&[Token::Uint(HSN as u64)]));
    body.extend_from_slice(&[0xC0, 0x04, 0x00, 0x00, 0x12, 0x34]);
    let mut rest = vec![Token::EndList];
    rest.extend(status_list(0));
    body.extend_from_slice(&encode(&rest));
    s.finish_start(Ok(frame(COM_ID, 0, 0, &body))).unwrap();
    assert_eq!(s.tsn(), 0x1234);
}

#[test]
fn start_request_uses_smallest_classes() {
    let mut s = Session::new(Channel::new(COM_ID), HSN);
    let req = s.begin_start(LOCKING_SP, ADMIN1, &[0u8; 32]).unwrap();
    let payload = parse(&req, 0, HSN).unwrap();
    let mut want = vec![0xF8, 0xA8, 0, 0, 0, 0, 0, 0, 0, 0xFF, 0xA8, 0, 0, 0, 0, 0, 0, 0xFF, 0x02];
    want.push(0xF0);
    want.extend_from_slice(&[0x82, 0x10, 0x01]);
    want.extend_from_slice(&[0xA8, 0x00, 0x00, 0x02, 0x05, 0x00, 0x00, 0x00, 0x02]);
    want.push(0x01);
    want.extend_from_slice(&[0xF2, 0x00, 0xD0, 0x20]);
    want.extend_from_slice(&[0u8; 32]);
    want.push(0xF3);
    want.extend_from_slice(&[0xF2, 0x03, 0xA8, 0x00, 0x00, 0x00, 0x09, 0x00, 0x01, 0x00, 0x01, 0xF3]);
    want.extend_from_slice(&[0xF1, 0xF9, 0xF0, 0x00, 0x00, 0x00, 0xF1]);
    assert_eq!(payload, want);
}
