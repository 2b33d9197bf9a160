//! Building method calls and reading the device's replies.
use vstd::prelude::*;
use crate::bytes::{be_bytes, push_be};
use crate::token::{tokens_view, Token, TokenV};

verus! {

/// The token that names the object or method `u`.
pub open spec fn uid_token(u: u64) -> TokenV {
    TokenV::Bytes(be_bytes(u as nat, 8))
}

/// The tokens of a call of `method` on `invoking` with `params`.
pub open spec fn call_spec(invoking: u64, method: u64, params: Seq<TokenV>) -> Seq<TokenV> {
    seq![TokenV::Call, uid_token(invoking), uid_token(method), TokenV::StartList] + params + seq![
        TokenV::EndList,
        TokenV::EndOfData,
        TokenV::StartList,
        TokenV::Uint(0),
        TokenV::Uint(0),
        TokenV::Uint(0),
        TokenV::EndList,
    ]
}

/// The status code and output parameters of a reply, if it has the shape of one:
/// an optional call header, a parameter list, then the end-of-data status list.
pub open spec fn response_spec(ts: Seq<TokenV>) -> Option<(u64, Seq<TokenV>)> {
    let n = ts.len();
    if n < 8 {
        None
    } else if ts[n - 6] == TokenV::EndOfData && ts[n - 5] == TokenV::StartList && ts[n
        - 3] is Uint && ts[n - 2] is Uint && ts[n - 1] == TokenV::EndList {
        match ts[n - 4] {
            TokenV::Uint(s) => {
                let body = ts.take(n - 6);
                let list = if body[0] == TokenV::Call && body.len() >= 3 && body[1] is Bytes
                    && body[2] is Bytes {
                    body.skip(3)
                } else {
                    body
                };
                if list.len() >= 2 && list[0] == TokenV::StartList && list.last()
                    == TokenV::EndList {
                    Some((s, list.subrange(1, list.len() - 1)))
                } else {
                    None
                }
            },
            _ => None,
        }
    } else {
        None
    }
}

/// The token naming `u`.
pub fn uid_bytes(u: u64) -> (r: Token)
    ensures
        r@ == uid_token(u),
{
    let mut b: Vec<u8> = Vec::new();
    push_be(&mut b, u, 8);
    assert(b@ =~= be_bytes(u as nat, 8));
    Token::Bytes(b)
}

/// The token sequence of one method call.
pub fn call_tokens(invoking: u64, method: u64, params: Vec<Token>) -> (r: Vec<Token>)
    ensures
        tokens_view(r@) == call_spec(invoking, method, tokens_view(params@)),
{
    let mut params = params;
    let ghost pv = tokens_view(params@);
    let mut out: Vec<Token> = Vec::new();
    out.push(Token::Call);
    out.push(uid_bytes(invoking));
    out.push(uid_bytes(method));
    out.push(Token::StartList);
    out.append(&mut params);
    out.push(Token::EndList);
    out.push(Token::EndOfData);
    out.push(Token::StartList);
    out.push(Token::Uint(0));
    out.push(Token::Uint(0));
    out.push(Token::Uint(0));
    out.push(Token::EndList);
    assert(tokens_view(out@) =~= call_spec(invoking, method, pv));
    out
}

/// A token with the same meaning as `t`.
pub fn copy_token(t: &Token) -> (r: Token)
    ensures
        r@ == t@,
{
    match t {
        Token::Bytes(b) => Token::Bytes(vstd::slice::slice_to_vec(b.as_slice())),
        Token::Uint(v) => Token::Uint(*v),
        Token::Int(v) => Token::Int(*v),
        Token::StartList => Token::StartList,
        Token::EndList => Token::EndList,
        Token::StartName => Token::StartName,
        Token::EndName => Token::EndName,
        Token::Call => Token::Call,
        Token::EndOfData => Token::EndOfData,
        Token::EndOfSession => Token::EndOfSession,
        Token::Empty => Token::Empty,
    }
}

fn copy_range(ts: &[Token], lo: usize, hi: usize) -> (r: Vec<Token>)
    requires
        lo <= hi <= ts@.len(),
    ensures
        tokens_view(r@) == tokens_view(ts@).subrange(lo as int, hi as int),
{
    let mut out: Vec<Token> = Vec::new();
    let mut i: usize = lo;
    while i < hi
        invariant
            lo <= i <= hi <= ts@.len(),
            tokens_view(out@) == tokens_view(ts@).subrange(lo as int, i as int),
        decreases hi - i,
    {
        let t = copy_token(&ts[i]);
        let ghost before = out@;
        out.push(t);
        assert(tokens_view(out@) =~= tokens_view(before).push(ts@[i as int]@));
        i = i + 1;
        assert(tokens_view(out@) =~= tokens_view(ts@).subrange(lo as int, i as int));
    }
    out
}

/// Reads the status code and output parameters out of a decoded reply.
pub fn parse_response(ts: &[Token]) -> (r: Option<(u64, Vec<Token>)>)
    ensures
        match r {
            None => response_spec(tokens_view(ts@)) is None,
            Some((s, p)) => response_spec(tokens_view(ts@)) == Some((s, tokens_view(p@))),
        },
{
    let ghost v = tokens_view(ts@);
    let n = ts.len();
    if n < 8 {
        return None;
    }
    let tail_ok = matches!(ts[n - 6], Token::EndOfData) && matches!(ts[n - 5], Token::StartList)
        && matches!(ts[n - 3], Token::Uint(_)) && matches!(ts[n - 2], Token::Uint(_))
        && matches!(ts[n - 1], Token::EndList);
    if !tail_ok {
        return None;
    }
    let status = match ts[n - 4] {
        Token::Uint(s) => s,
        _ => {
            return None;
        },
    };
    let ghost body = v.take(n - 6);
    let header = matches!(ts[0], Token::Call) && n - 6 >= 3 && matches!(ts[1], Token::Bytes(_))
        && matches!(ts[2], Token::Bytes(_));
    let lo: usize = if header {
        3
    } else {
        0
    };
    let hi: usize = n - 6;
    let ghost list = if body[0] == TokenV::Call && body.len() >= 3 && body[1] is Bytes
        && body[2] is Bytes {
        body.skip(3)
    } else {
        body
    };
    assert(list =~= v.subrange(lo as int, hi as int));
    if hi - lo < 2 || !matches!(ts[lo], Token::StartList) || !matches!(ts[hi - 1], Token::EndList) {
        return None;
    }
    let params = copy_range(ts, lo + 1, hi - 1);
    assert(list.subrange(1, list.len() - 1) =~= v.subrange(lo + 1, hi - 1));
    Some((status, params))
}

} // verus!
