//! The Opal token stream: atoms, list and name brackets, control tokens.
use vstd::prelude::*;
use crate::bytes::{
    be_bytes, be_value, byte_len, fits, lemma_be_bytes_len, lemma_be_round_trip,
    lemma_be_value_push, lemma_fits_iff, lemma_fits_pow, lemma_pow256_values, min_bytes, pow256, push_be, push_slice, all_ones, lemma_pow256_mono,
    read_be,
};

verus! {

/// One token of a method-call stream.
#[derive(Clone, Debug, PartialEq, Eq)]
pub enum Token {
    /// A byte-string atom.
    Bytes(Vec<u8>),
    /// An unsigned integer atom.
    Uint(u64),
    /// A signed integer atom.
    Int(i64),
    StartList,
    EndList,
    StartName,
    EndName,
    Call,
    EndOfData,
    EndOfSession,
    Empty,
}

/// What a token means, with its bytes as a sequence.
pub enum TokenV {
    Bytes(Seq<u8>),
    Uint(u64),
    Int(i64),
    StartList,
    EndList,
    StartName,
    EndName,
    Call,
    EndOfData,
    EndOfSession,
    Empty,
}

impl View for Token {
    type V = TokenV;

    open spec fn view(&self) -> TokenV {
        match self {
            Token::Bytes(b) => TokenV::Bytes(b@),
            Token::Uint(v) => TokenV::Uint(*v),
            Token::Int(v) => TokenV::Int(*v),
            Token::StartList => TokenV::StartList,
            Token::EndList => TokenV::EndList,
            Token::StartName => TokenV::StartName,
            Token::EndName => TokenV::EndName,
            Token::Call => TokenV::Call,
            Token::EndOfData => TokenV::EndOfData,
            Token::EndOfSession => TokenV::EndOfSession,
            Token::Empty => TokenV::Empty,
        }
    }
}

/// A byte stream that is not a well-formed token sequence.
#[derive(Clone, Copy, Debug, PartialEq, Eq, Structural)]
pub struct TokenFormatError;

/// The largest byte string an atom can carry.
pub const MAX_ATOM_LEN: usize = 0xFF_FFFF;

pub open spec fn tokens_view(ts: Seq<Token>) -> Seq<TokenV> {
    ts.map_values(|t: Token| t@)
}

pub open spec fn valid_token(t: TokenV) -> bool {
    match t {
        TokenV::Bytes(b) => b.len() <= MAX_ATOM_LEN,
        _ => true,
    }
}

pub open spec fn all_valid(ts: Seq<TokenV>) -> bool {
    forall|i: int| 0 <= i < ts.len() ==> valid_token(#[trigger] ts[i])
}

/// The magnitude that decides how many bytes a signed value needs: `v` itself,
/// or `-v - 1` for a negative `v`.
pub open spec fn magnitude(v: i64) -> nat {
    if v >= 0 {
        v as nat
    } else {
        (-(v as int) - 1) as nat
    }
}

/// The fewest bytes that hold `v` in two's complement (at least one).
pub open spec fn signed_len(v: i64) -> nat {
    if byte_len(2 * magnitude(v)) == 0 {
        1
    } else {
        byte_len(2 * magnitude(v))
    }
}

/// `v` in `n`-byte two's complement, as an unsigned number.
pub open spec fn twos(v: i64, n: nat) -> nat {
    if v >= 0 {
        v as nat
    } else {
        (pow256(n) + v) as nat
    }
}

/// The value of a big-endian two's-complement byte string.
pub open spec fn signed_value(b: Seq<u8>) -> int {
    if b.len() == 0 {
        0
    } else if 2 * be_value(b) >= pow256(b.len()) {
        be_value(b) - pow256(b.len())
    } else {
        be_value(b) as int
    }
}

/// The encoding of one token, in the smallest atom class that holds it.
pub open spec fn encode_token(t: TokenV) -> Seq<u8> {
    match t {
        TokenV::Bytes(b) => if b.len() <= 15 {
            seq![(0xA0 + b.len()) as u8] + b
        } else if b.len() <= 2047 {
            seq![(0xD0 + b.len() / 256) as u8, (b.len() % 256) as u8] + b
        } else {
            seq![0xE2u8] + be_bytes(b.len(), 3) + b
        },
        TokenV::Uint(v) => if v < 64 {
            seq![v as u8]
        } else {
            seq![(0x80 + byte_len(v as nat)) as u8] + be_bytes(v as nat, byte_len(v as nat))
        },
        TokenV::Int(v) => if -32 <= v < 32 {
            seq![(0x40 + (if v >= 0 { v as int } else { v + 64 })) as u8]
        } else {
            seq![(0x90 + signed_len(v)) as u8] + be_bytes(twos(v, signed_len(v)), signed_len(v))
        },
        TokenV::StartList => seq![0xF0u8],
        TokenV::EndList => seq![0xF1u8],
        TokenV::StartName => seq![0xF2u8],
        TokenV::EndName => seq![0xF3u8],
        TokenV::Call => seq![0xF8u8],
        TokenV::EndOfData => seq![0xF9u8],
        TokenV::EndOfSession => seq![0xFAu8],
        TokenV::Empty => seq![0xFFu8],
    }
}

pub open spec fn encode_seq(ts: Seq<TokenV>) -> Seq<u8>
    decreases ts.len(),
{
    if ts.len() == 0 {
        Seq::empty()
    } else {
        encode_seq(ts.drop_last()) + encode_token(ts.last())
    }
}

/// An atom of class `kind` (0 integer, 1 signed integer, 2 bytes, 3 signed bytes)
/// whose `len` content bytes follow a header of `hdr` bytes.
pub open spec fn parse_atom(s: Seq<u8>, kind: int, len: nat, hdr: nat) -> Option<(TokenV, nat)> {
    if hdr + len > s.len() {
        None
    } else if kind == 0 && len <= 8 {
        Some((TokenV::Uint(be_value(s.subrange(hdr as int, (hdr + len) as int)) as u64), hdr + len))
    } else if kind == 1 && len <= 8 {
        Some((TokenV::Int(signed_value(s.subrange(hdr as int, (hdr + len) as int)) as i64), hdr + len))
    } else if kind == 2 {
        Some((TokenV::Bytes(s.subrange(hdr as int, (hdr + len) as int)), hdr + len))
    } else {
        None
    }
}

/// The token at the start of `s` and the number of bytes it takes.
pub open spec fn parse_token(s: Seq<u8>) -> Option<(TokenV, nat)> {
    if s.len() == 0 {
        None
    } else {
        let h = s[0];
        if h < 0x40 {
            Some((TokenV::Uint(h as u64), 1))
        } else if h < 0x80 {
            let d = h - 0x40;
            Some((TokenV::Int((if d >= 32 { d - 64 } else { d }) as i64), 1))
        } else if h < 0xC0 {
            parse_atom(s, (h - 0x80) / 16, (h % 16) as nat, 1)
        } else if h < 0xE0 {
            if s.len() < 2 {
                None
            } else {
                parse_atom(s, (h - 0xC0) / 8, ((h % 8) * 256 + s[1]) as nat, 2)
            }
        } else if h < 0xE4 {
            if s.len() < 4 {
                None
            } else {
                parse_atom(s, h - 0xE0, be_value(s.subrange(1, 4)), 4)
            }
        } else if h == 0xF0 {
            Some((TokenV::StartList, 1))
        } else if h == 0xF1 {
            Some((TokenV::EndList, 1))
        } else if h == 0xF2 {
            Some((TokenV::StartName, 1))
        } else if h == 0xF3 {
            Some((TokenV::EndName, 1))
        } else if h == 0xF8 {
            Some((TokenV::Call, 1))
        } else if h == 0xF9 {
            Some((TokenV::EndOfData, 1))
        } else if h == 0xFA {
            Some((TokenV::EndOfSession, 1))
        } else if h == 0xFF {
            Some((TokenV::Empty, 1))
        } else {
            None
        }
    }
}

/// The tokens that `s` splits into, if it splits into tokens at all.
pub open spec fn tokenize(s: Seq<u8>) -> Option<Seq<TokenV>>
    decreases s.len(),
{
    if s.len() == 0 {
        Some(Seq::empty())
    } else {
        match parse_token(s) {
            Some((t, n)) => if 0 < n <= s.len() {
                match tokenize(s.skip(n as int)) {
                    Some(rest) => Some(seq![t] + rest),
                    None => None,
                }
            } else {
                None
            },
            None => None,
        }
    }
}

/// The open brackets after one more token (`true` for a list, `false` for a name).
pub open spec fn nest_step(open: Seq<bool>, t: TokenV) -> Option<Seq<bool>> {
    match t {
        TokenV::StartList => Some(open.push(true)),
        TokenV::StartName => Some(open.push(false)),
        TokenV::EndList => if open.len() > 0 && open.last() {
            Some(open.drop_last())
        } else {
            None
        },
        TokenV::EndName => if open.len() > 0 && !open.last() {
            Some(open.drop_last())
        } else {
            None
        },
        _ => Some(open),
    }
}

/// The brackets left open after `ts`, or `None` where one closes the wrong kind.
pub open spec fn nest_after(ts: Seq<TokenV>) -> Option<Seq<bool>>
    decreases ts.len(),
{
    if ts.len() == 0 {
        Some(Seq::empty())
    } else {
        match nest_after(ts.drop_last()) {
            Some(open) => nest_step(open, ts.last()),
            None => None,
        }
    }
}

/// Every list and name that `ts` opens is closed, in order.
pub open spec fn well_nested(ts: Seq<TokenV>) -> bool {
    nest_after(ts) == Some(Seq::<bool>::empty())
}

/// What decoding `s` yields.
pub open spec fn decode_spec(s: Seq<u8>) -> Option<Seq<TokenV>> {
    match tokenize(s) {
        Some(ts) => if well_nested(ts) {
            Some(ts)
        } else {
            None
        },
        None => None,
    }
}


#[verifier::rlimit(80)]
proof fn lemma_parse_encoded(t: TokenV, rest: Seq<u8>)
    requires
        valid_token(t),
    ensures
        encode_token(t).len() >= 1,
        parse_token(encode_token(t) + rest) == Some((t, encode_token(t).len())),
{
    match t {
        TokenV::Uint(v) => {
            if v >= 64 {
                lemma_uint_parse(v, rest);
            }
        },
        TokenV::Int(v) => {
            lemma_int_parse(v, rest);
        },
        TokenV::Bytes(b) => {
            let len = b.len();
            lemma_be_bytes_len(len, 3);
            if len <= 15 {
                let s = encode_token(t) + rest;
                assert(s.subrange(1, 1 + len as int) =~= b);
            } else if len <= 2047 {
                lemma_medium_parse(b, rest);
            } else {
                lemma_long_parse(b, rest);
            }
        },
        _ => {},
    }
}

/// In `n` bytes, at least as many as `v` needs, its two's complement reads back as `v`.
proof fn lemma_signed_bytes(v: i64, n: nat)
    requires
        signed_len(v) <= n <= 8,
    ensures
        2 * magnitude(v) < pow256(n),
        twos(v, n) < pow256(n),
        fits(twos(v, n), n),
        be_bytes(twos(v, n), n).len() == n,
        signed_value(be_bytes(twos(v, n), n)) == v,
        n >= 1,
{
    let m2 = 2 * magnitude(v);
    lemma_fits_pow(m2, 8);
    lemma_pow256_values();
    lemma_fits_iff(m2, 8);
    lemma_fits_iff(m2, n);
    lemma_fits_pow(m2, n);
    let t = twos(v, n);
    lemma_fits_pow(t, n);
    lemma_be_round_trip(t, n);
    assert(pow256(n) == 256 * pow256((n - 1) as nat));
}

#[verifier::rlimit(80)]
proof fn lemma_int_parse(v: i64, rest: Seq<u8>)
    ensures
        parse_token(encode_token(TokenV::Int(v)) + rest) == Some(
            (TokenV::Int(v), encode_token(TokenV::Int(v)).len()),
        ),
{
    if !(-32 <= v < 32) {
        let n = signed_len(v);
        lemma_fits_pow(2 * magnitude(v), 8);
        lemma_pow256_values();
        lemma_fits_iff(2 * magnitude(v), 8);
        lemma_signed_bytes(v, n);
        let s = encode_token(TokenV::Int(v)) + rest;
        assert(s.subrange(1, 1 + n as int) =~= be_bytes(twos(v, n), n));
    }
}

#[verifier::rlimit(80)]
proof fn lemma_uint_parse(v: u64, rest: Seq<u8>)
    requires
        v >= 64,
    ensures
        parse_token(encode_token(TokenV::Uint(v)) + rest) == Some(
            (TokenV::Uint(v), encode_token(TokenV::Uint(v)).len()),
        ),
{
    let s = encode_token(TokenV::Uint(v)) + rest;
    let n = byte_len(v as nat);
    lemma_fits_pow(v as nat, 8);
    lemma_pow256_values();
    lemma_fits_iff(v as nat, 8);
    lemma_fits_iff(v as nat, n);
    lemma_be_round_trip(v as nat, n);
    assert(n >= 1);
    assert(s.subrange(1, 1 + n as int) =~= be_bytes(v as nat, n));
}

proof fn lemma_medium_len(len: nat)
    requires
        len <= 2047,
    ensures
        (len / 256) * 256 + len % 256 == len,
        len / 256 <= 7,
{
    assert((len / 256) * 256 + len % 256 == len) by (nonlinear_arith);
    assert(len / 256 <= 7) by (nonlinear_arith)
        requires
            len <= 2047,
    ;
}

proof fn lemma_encode_cons(t: TokenV, ts: Seq<TokenV>)
    ensures
        encode_seq(seq![t] + ts) == encode_token(t) + encode_seq(ts),
    decreases ts.len(),
{
    if ts.len() == 0 {
        assert(seq![t] + ts =~= seq![t]);
        assert(seq![t].drop_last() =~= Seq::<TokenV>::empty());
        assert(seq![t].last() == t);
        assert(encode_seq(seq![t]) == encode_seq(Seq::<TokenV>::empty()) + encode_token(t));
        assert(encode_token(t) + encode_seq(ts) =~= encode_token(t));
        assert(Seq::<u8>::empty() + encode_token(t) =~= encode_token(t));
    } else {
        lemma_encode_cons(t, ts.drop_last());
        assert((seq![t] + ts).drop_last() =~= seq![t] + ts.drop_last());
        assert((seq![t] + ts).last() == ts.last());
        assert(encode_seq(seq![t] + ts) == encode_seq(seq![t] + ts.drop_last()) + encode_token(
            ts.last(),
        ));
        assert(encode_token(t) + encode_seq(ts.drop_last()) + encode_token(ts.last())
            =~= encode_token(t) + encode_seq(ts));
    }
}

proof fn lemma_tokenize_encoded(ts: Seq<TokenV>)
    requires
        all_valid(ts),
    ensures
        tokenize(encode_seq(ts)) == Some(ts),
    decreases ts.len(),
{
    if ts.len() == 0 {
    } else {
        let t = ts[0];
        let rest = ts.drop_first();
        assert(ts =~= seq![t] + rest);
        assert(valid_token(ts[0]));
        assert forall|i: int| 0 <= i < rest.len() implies valid_token(#[trigger] rest[i]) by {
            assert(rest[i] == ts[i + 1]);
        }
        lemma_encode_cons(t, rest);
        lemma_parse_encoded(t, encode_seq(rest));
        lemma_tokenize_encoded(rest);
        let s = encode_seq(ts);
        assert(s.skip(encode_token(t).len() as int) =~= encode_seq(rest));
    }
}

proof fn lemma_tokenize_prefix(ts: Seq<TokenV>, rest: Seq<u8>)
    requires
        all_valid(ts),
    ensures
        tokenize(encode_seq(ts) + rest) == prepend(ts, tokenize(rest)),
    decreases ts.len(),
{
    if ts.len() == 0 {
        assert(encode_seq(ts) + rest =~= rest);
        match tokenize(rest) {
            Some(r) => { assert(ts + r =~= r); },
            None => {},
        }
    } else {
        let t = ts[0];
        let r = ts.drop_first();
        assert(ts =~= seq![t] + r);
        assert(valid_token(ts[0]));
        assert forall|i: int| 0 <= i < r.len() implies valid_token(#[trigger] r[i]) by {
            assert(r[i] == ts[i + 1]);
        }
        lemma_encode_cons(t, r);
        let tail = encode_seq(r) + rest;
        lemma_parse_encoded(t, tail);
        lemma_tokenize_prefix(r, rest);
        let s = encode_seq(ts) + rest;
        assert(s =~= encode_token(t) + tail);
        assert(s.skip(encode_token(t).len() as int) =~= tail);
        match tokenize(rest) {
            Some(x) => { assert(seq![t] + (r + x) =~= ts + x); },
            None => {},
        }
    }
}

/// Splitting a stream is unaffected by how one atom in it is written: where the
/// bytes `x`, followed by the encoding of `after`, start with the single token `t`
/// spanning all of `x` (an integer in an oversized class, say), the stream made of
/// the encoding of `before`, then `x`, then the encoding of `after` splits into
/// `before`, `t`, `after`, just as the canonical encoding of those tokens does.
pub proof fn any_atom_class_in_stream(before: Seq<TokenV>, x: Seq<u8>, t: TokenV, after: Seq<TokenV>)
    requires
        all_valid(before),
        all_valid(after),
        x.len() > 0,
        parse_token(x + encode_seq(after)) == Some((t, x.len())),
    ensures
        tokenize(encode_seq(before) + x + encode_seq(after)) == Some(before + seq![t] + after),
{
    let tail = x + encode_seq(after);
    lemma_tokenize_prefix(before, tail);
    lemma_tokenize_prefix(after, Seq::<u8>::empty());
    assert(encode_seq(after) + Seq::<u8>::empty() =~= encode_seq(after));
    assert(after + Seq::<TokenV>::empty() =~= after);
    assert(tail.skip(x.len() as int) =~= encode_seq(after));
    assert(encode_seq(before) + x + encode_seq(after) =~= encode_seq(before) + tail);
    assert(before + (seq![t] + after) =~= before + seq![t] + after);
}

/// An unsigned integer written in any short, medium or long class wide enough to
/// hold it meets the condition of `any_atom_class_in_stream`, whatever follows it.
pub proof fn oversized_uint_parses(v: u64, n: nat, rest: Seq<u8>)
    requires
        byte_len(v as nat) <= n <= 8,
    ensures
        parse_token(seq![(0x80 + n) as u8] + be_bytes(v as nat, n) + rest) == Some(
            (TokenV::Uint(v), n + 1),
        ),
        parse_token(seq![0xC0u8, n as u8] + be_bytes(v as nat, n) + rest) == Some(
            (TokenV::Uint(v), n + 2),
        ),
        parse_token(seq![0xE0u8, 0u8, 0u8, n as u8] + be_bytes(v as nat, n) + rest) == Some(
            (TokenV::Uint(v), n + 4),
        ),
{
    lemma_uint_short(v, n, rest);
    lemma_uint_medium(v, n, rest);
    lemma_uint_long(v, n, rest);
}

/// Decoding the encoding of a well-formed token sequence gives that sequence back.
pub proof fn round_trip(ts: Seq<TokenV>)
    requires
        all_valid(ts),
        well_nested(ts),
    ensures
        decode_spec(encode_seq(ts)) == Some(ts),
{
    lemma_tokenize_encoded(ts);
}

/// Encoding always picks the smallest atom class for an integer: the inline form
/// exactly below 64, and otherwise a short atom with no leading zero byte. A short,
/// medium or long atom that spends more bytes on the same value still decodes to it.
pub proof fn minimal_uint(v: u64, n: nat)
    requires
        byte_len(v as nat) <= n <= 8,
    ensures
        v < 64 ==> encode_token(TokenV::Uint(v)) == seq![v as u8],
        v >= 64 ==> encode_token(TokenV::Uint(v)).len() == 1 + byte_len(v as nat),
        v >= 64 ==> !fits(v as nat, (byte_len(v as nat) - 1) as nat),
        v >= 64 ==> fits(v as nat, byte_len(v as nat)),
        parse_token(seq![(0x80 + n) as u8] + be_bytes(v as nat, n)) == Some(
            (TokenV::Uint(v), n + 1),
        ),
        parse_token(seq![0xC0u8, n as u8] + be_bytes(v as nat, n)) == Some(
            (TokenV::Uint(v), n + 2),
        ),
        parse_token(seq![0xE0u8, 0u8, 0u8, n as u8] + be_bytes(v as nat, n)) == Some(
            (TokenV::Uint(v), n + 4),
        ),
{
    let bl = byte_len(v as nat);
    if v >= 64 {
        lemma_fits_iff(v as nat, bl);
        lemma_fits_iff(v as nat, (bl - 1) as nat);
        lemma_fits_pow(v as nat, 8);
        lemma_pow256_values();
        lemma_fits_iff(v as nat, 8);
        lemma_be_bytes_len(v as nat, bl);
    }
    let e = Seq::<u8>::empty();
    let b = be_bytes(v as nat, n);
    lemma_uint_short(v, n, e);
    lemma_uint_medium(v, n, e);
    lemma_uint_long(v, n, e);
    assert(seq![(0x80 + n) as u8] + b + e =~= seq![(0x80 + n) as u8] + b);
    assert(seq![0xC0u8, n as u8] + b + e =~= seq![0xC0u8, n as u8] + b);
    assert(seq![0xE0u8, 0u8, 0u8, n as u8] + b + e =~= seq![0xE0u8, 0u8, 0u8, n as u8] + b);
}

proof fn lemma_uint_short(v: u64, n: nat, rest: Seq<u8>)
    requires
        byte_len(v as nat) <= n <= 8,
    ensures
        parse_token(seq![(0x80 + n) as u8] + be_bytes(v as nat, n) + rest) == Some(
            (TokenV::Uint(v), n + 1),
        ),
{
    lemma_fits_iff(v as nat, n);
    lemma_be_round_trip(v as nat, n);
    let b = be_bytes(v as nat, n);
    let s1 = seq![(0x80 + n) as u8] + b + rest;
    assert(s1.subrange(1, 1 + n as int) =~= b);
}

proof fn lemma_uint_medium(v: u64, n: nat, rest: Seq<u8>)
    requires
        byte_len(v as nat) <= n <= 8,
    ensures
        parse_token(seq![0xC0u8, n as u8] + be_bytes(v as nat, n) + rest) == Some(
            (TokenV::Uint(v), n + 2),
        ),
{
    lemma_fits_iff(v as nat, n);
    lemma_be_round_trip(v as nat, n);
    let b = be_bytes(v as nat, n);
    let s2 = seq![0xC0u8, n as u8] + b + rest;
    assert(s2.subrange(2, 2 + n as int) =~= b);
}

proof fn lemma_uint_long(v: u64, n: nat, rest: Seq<u8>)
    requires
        byte_len(v as nat) <= n <= 8,
    ensures
        parse_token(seq![0xE0u8, 0u8, 0u8, n as u8] + be_bytes(v as nat, n) + rest) == Some(
            (TokenV::Uint(v), n + 4),
        ),
{
    lemma_fits_iff(v as nat, n);
    lemma_be_round_trip(v as nat, n);
    let b = be_bytes(v as nat, n);
    let s4 = seq![0xE0u8, 0u8, 0u8, n as u8] + b + rest;
    assert(s4.subrange(4, 4 + n as int) =~= b);
    let h = s4.subrange(1, 4);
    let e = Seq::<u8>::empty();
    lemma_be_value_push(e, 0);
    lemma_be_value_push(e.push(0), 0);
    lemma_be_value_push(e.push(0).push(0), n as u8);
    assert(h =~= e.push(0).push(0).push(n as u8));
    assert(be_value(h) == n);
}

/// Encoding always picks the smallest class for a signed integer: the inline form
/// exactly from -32 to 31, and otherwise a short signed atom of the fewest bytes
/// that hold the value in two's complement. A short signed atom that spends more
/// bytes on the same value still decodes to it.
#[verifier::rlimit(80)]
pub proof fn minimal_int(v: i64, n: nat)
    requires
        signed_len(v) <= n <= 8,
    ensures
        -32 <= v < 32 ==> encode_token(TokenV::Int(v)).len() == 1,
        !(-32 <= v < 32) ==> encode_token(TokenV::Int(v)).len() == 1 + signed_len(v),
        !(-32 <= v < 32) ==> 2 * magnitude(v) >= pow256((signed_len(v) - 1) as nat),
        parse_token(seq![(0x90 + n) as u8] + be_bytes(twos(v, n), n)) == Some(
            (TokenV::Int(v), n + 1),
        ),
{
    lemma_signed_bytes(v, n);
    let b = be_bytes(twos(v, n), n);
    let s = seq![(0x90 + n) as u8] + b;
    assert(s.subrange(1, 1 + n as int) =~= b);
    if !(-32 <= v < 32) {
        let m2 = 2 * magnitude(v);
        let sl = signed_len(v);
        lemma_fits_pow(m2, 8);
        lemma_pow256_values();
        lemma_fits_iff(m2, 8);
        lemma_signed_bytes(v, sl);
        lemma_fits_iff(m2, (sl - 1) as nat);
        lemma_fits_pow(m2, (sl - 1) as nat);
    }
}

/// Encoding a byte string picks the short class up to 15 bytes, the medium class up
/// to 2047 and the long class beyond. A medium or long atom holding fewer bytes than
/// its class needs still decodes to the same string.
pub proof fn minimal_bytes(b: Seq<u8>)
    requires
        b.len() <= MAX_ATOM_LEN,
    ensures
        b.len() <= 15 ==> encode_token(TokenV::Bytes(b)).len() == 1 + b.len(),
        15 < b.len() <= 2047 ==> encode_token(TokenV::Bytes(b)).len() == 2 + b.len(),
        2047 < b.len() ==> encode_token(TokenV::Bytes(b)).len() == 4 + b.len(),
        b.len() <= 2047 ==> parse_token(
            seq![(0xD0 + b.len() / 256) as u8, (b.len() % 256) as u8] + b,
        ) == Some((TokenV::Bytes(b), b.len() + 2)),
        parse_token(seq![0xE2u8] + be_bytes(b.len(), 3) + b) == Some(
            (TokenV::Bytes(b), b.len() + 4),
        ),
{
    let e = Seq::<u8>::empty();
    lemma_be_bytes_len(b.len(), 3);
    if b.len() <= 2047 {
        lemma_medium_parse(b, e);
        assert(seq![(0xD0 + b.len() / 256) as u8, (b.len() % 256) as u8] + b + e =~= seq![
            (0xD0 + b.len() / 256) as u8,
            (b.len() % 256) as u8,
        ] + b);
    }
    lemma_long_parse(b, e);
    assert(seq![0xE2u8] + be_bytes(b.len(), 3) + b + e =~= seq![0xE2u8] + be_bytes(b.len(), 3) + b);
}

proof fn lemma_medium_parse(b: Seq<u8>, rest: Seq<u8>)
    requires
        b.len() <= 2047,
    ensures
        parse_token(seq![(0xD0 + b.len() / 256) as u8, (b.len() % 256) as u8] + b + rest)
            == Some((TokenV::Bytes(b), b.len() + 2)),
{
    let len = b.len();
    let s = seq![(0xD0 + len / 256) as u8, (len % 256) as u8] + b + rest;
    assert(s.subrange(2, 2 + len as int) =~= b);
    lemma_medium_len(len);
}

proof fn lemma_long_parse(b: Seq<u8>, rest: Seq<u8>)
    requires
        b.len() <= MAX_ATOM_LEN,
    ensures
        parse_token(seq![0xE2u8] + be_bytes(b.len(), 3) + b + rest) == Some(
            (TokenV::Bytes(b), b.len() + 4),
        ),
{
    let len = b.len();
    lemma_fits_pow(len, 3);
    lemma_pow256_values();
    lemma_be_round_trip(len, 3);
    let s = seq![0xE2u8] + be_bytes(len, 3) + b + rest;
    assert(s.subrange(1, 4) =~= be_bytes(len, 3));
    assert(s.subrange(4, 4 + len as int) =~= b);
}

/// Appends the encoding of one token.
pub fn encode_token_into(t: &Token, out: &mut Vec<u8>)
    requires
        valid_token(t@),
    ensures
        final(out)@ == old(out)@ + encode_token(t@),
{
    match t {
        Token::Bytes(b) => {
            let len = b.len();
            if len <= 15 {
                out.push((0xA0 + len) as u8);
            } else if len <= 2047 {
                out.push((0xD0 + len / 256) as u8);
                out.push((len % 256) as u8);
            } else {
                out.push(0xE2u8);
                push_be(out, len as u64, 3);
            }
            push_slice(out, b.as_slice());
            assert(final(out)@ =~= old(out)@ + encode_token(t@));
        },
        Token::Uint(v) => {
            if *v < 64 {
                out.push(*v as u8);
            } else {
                let n = min_bytes(*v);
                out.push((0x80 + n) as u8);
                push_be(out, *v, n);
            }
            assert(final(out)@ =~= old(out)@ + encode_token(t@));
        },
        Token::Int(v) => {
            let v = *v;
            if -32 <= v && v < 32 {
                if v >= 0 {
                    out.push((0x40 + v) as u8);
                } else {
                    out.push((0x40 + (v + 64)) as u8);
                }
            } else {
                let m: u64 = if v >= 0 {
                    v as u64
                } else {
                    (-(v + 1)) as u64
                };
                let n0 = min_bytes(2 * m);
                let n: usize = if n0 == 0 {
                    1
                } else {
                    n0
                };
                proof {
                    lemma_signed_bytes(v, n as nat);
                }
                let ones = all_ones(n);
                let t: u64 = if v >= 0 {
                    m
                } else {
                    ones - m
                };
                out.push((0x90 + n) as u8);
                push_be(out, t, n);
            }
            assert(final(out)@ =~= old(out)@ + encode_token(t@));
        },
        Token::StartList => out.push(0xF0u8),
        Token::EndList => out.push(0xF1u8),
        Token::StartName => out.push(0xF2u8),
        Token::EndName => out.push(0xF3u8),
        Token::Call => out.push(0xF8u8),
        Token::EndOfData => out.push(0xF9u8),
        Token::EndOfSession => out.push(0xFAu8),
        Token::Empty => out.push(0xFFu8),
    }
}

/// The byte encoding of a token sequence.
pub fn encode(ts: &[Token]) -> (r: Vec<u8>)
    requires
        all_valid(tokens_view(ts@)),
    ensures
        r@ == encode_seq(tokens_view(ts@)),
{
    let mut out: Vec<u8> = Vec::new();
    let mut i: usize = 0;
    while i < ts.len()
        invariant
            i <= ts@.len(),
            all_valid(tokens_view(ts@)),
            out@ == encode_seq(tokens_view(ts@).take(i as int)),
        decreases ts@.len() - i,
    {
        let ghost v = tokens_view(ts@);
        assert(valid_token(v[i as int]));
        encode_token_into(&ts[i], &mut out);
        proof {
            assert(v.take(i + 1).drop_last() =~= v.take(i as int));
        }
        i = i + 1;
    }
    assert(tokens_view(ts@).take(i as int) =~= tokens_view(ts@));
    out
}

fn atom_at(buf: &[u8], pos: usize, kind: u8, len: usize, hdr: usize) -> (r: Option<(Token, usize)>)
    requires
        pos < buf@.len(),
        hdr <= 4,
        len <= 0x100_0000,
    ensures
        match r {
            None => parse_atom(buf@.skip(pos as int), kind as int, len as nat, hdr as nat) is None,
            Some((t, n)) => parse_atom(buf@.skip(pos as int), kind as int, len as nat, hdr as nat)
                == Some((t@, n as nat)),
        },
{
    let ghost s = buf@.skip(pos as int);
    let rem = buf.len() - pos;
    if hdr > rem || len > rem - hdr {
        return None;
    }
    let start = pos + hdr;
    assert(s.subrange(hdr as int, (hdr + len) as int) =~= buf@.subrange(
        start as int,
        (start + len) as int,
    ));
    if kind == 0 && len <= 8 {
        let v = read_be(buf, start, len);
        Some((Token::Uint(v), hdr + len))
    } else if kind == 1 && len <= 8 {
        let u = read_be(buf, start, len);
        let ghost b = buf@.subrange(start as int, (start + len) as int);
        if len == 0 {
            return Some((Token::Int(0), hdr));
        }
        let ones = all_ones(len);
        proof {
            crate::bytes::lemma_be_value_bound(b);
            assert(pow256(len as nat) == 256 * pow256((len - 1) as nat));
        }
        let half = ones / 2 + 1;
        if u >= half {
            Some((Token::Int(-((ones - u) as i64) - 1), hdr + len))
        } else {
            Some((Token::Int(u as i64), hdr + len))
        }
    } else if kind == 2 {
        let part = vstd::slice::slice_subrange(buf, start, start + len);
        let b = vstd::slice::slice_to_vec(part);
        Some((Token::Bytes(b), hdr + len))
    } else {
        None
    }
}

/// The token that starts at `pos`, and how many bytes it takes.
pub fn parse_token_at(buf: &[u8], pos: usize) -> (r: Option<(Token, usize)>)
    requires
        pos < buf@.len(),
    ensures
        match r {
            None => parse_token(buf@.skip(pos as int)) is None,
            Some((t, n)) => parse_token(buf@.skip(pos as int)) == Some((t@, n as nat)),
        },
{
    let ghost s = buf@.skip(pos as int);
    let rem = buf.len() - pos;
    let h = buf[pos];
    assert(s[0] == h);
    if h < 0x40 {
        Some((Token::Uint(h as u64), 1))
    } else if h < 0x80 {
        let d = h - 0x40;
        if d >= 32 {
            Some((Token::Int(d as i64 - 64), 1))
        } else {
            Some((Token::Int(d as i64), 1))
        }
    } else if h < 0xC0 {
        atom_at(buf, pos, (h - 0x80) / 16, (h % 16) as usize, 1)
    } else if h < 0xE0 {
        if rem < 2 {
            None
        } else {
            assert(s[1] == buf@[pos + 1]);
            let len = (h % 8) as usize * 256 + buf[pos + 1] as usize;
            atom_at(buf, pos, (h - 0xC0) / 8, len, 2)
        }
    } else if h < 0xE4 {
        if rem < 4 {
            None
        } else {
            assert(s.subrange(1, 4) =~= buf@.subrange(pos + 1, pos + 4));
            let len = read_be(buf, pos + 1, 3);
            proof {
                crate::bytes::lemma_be_value_bound(buf@.subrange(pos + 1, pos + 4));
                lemma_pow256_values();
            }
            atom_at(buf, pos, h - 0xE0, len as usize, 4)
        }
    } else if h == 0xF0 {
        Some((Token::StartList, 1))
    } else if h == 0xF1 {
        Some((Token::EndList, 1))
    } else if h == 0xF2 {
        Some((Token::StartName, 1))
    } else if h == 0xF3 {
        Some((Token::EndName, 1))
    } else if h == 0xF8 {
        Some((Token::Call, 1))
    } else if h == 0xF9 {
        Some((Token::EndOfData, 1))
    } else if h == 0xFA {
        Some((Token::EndOfSession, 1))
    } else if h == 0xFF {
        Some((Token::Empty, 1))
    } else {
        None
    }
}

pub open spec fn prepend(p: Seq<TokenV>, o: Option<Seq<TokenV>>) -> Option<Seq<TokenV>> {
    match o {
        Some(r) => Some(p + r),
        None => None,
    }
}

/// Splits a byte stream into tokens, without looking at how they nest.
pub fn tokenize_bytes(buf: &[u8]) -> (r: Option<Vec<Token>>)
    ensures
        match r {
            None => tokenize(buf@) is None,
            Some(v) => tokenize(buf@) == Some(tokens_view(v@)),
        },
{
    let mut out: Vec<Token> = Vec::new();
    let mut pos: usize = 0;
    assert(buf@.skip(0) =~= buf@);
    assert(tokens_view(out@) =~= Seq::<TokenV>::empty());
    assert(prepend(Seq::<TokenV>::empty(), tokenize(buf@)) =~= tokenize(buf@)) by {
        match tokenize(buf@) {
            Some(x) => { assert(Seq::<TokenV>::empty() + x =~= x); },
            None => {},
        }
    }
    while pos < buf.len()
        invariant
            pos <= buf@.len(),
            tokenize(buf@) == prepend(tokens_view(out@), tokenize(buf@.skip(pos as int))),
        decreases buf@.len() - pos,
    {
        let ghost s = buf@.skip(pos as int);
        match parse_token_at(buf, pos) {
            None => {
                return None;
            },
            Some((t, n)) => {
                if n == 0 || n > buf.len() - pos {
                    return None;
                }
                assert(s.skip(n as int) =~= buf@.skip((pos + n) as int));
                let ghost p = tokens_view(out@);
                let ghost tv = t@;
                out.push(t);
                proof {
                    assert(tokens_view(out@) =~= p.push(tv));
                    match tokenize(s.skip(n as int)) {
                        Some(rest) => {
                            assert(p + (seq![tv] + rest) =~= p.push(tv) + rest);
                        },
                        None => {},
                    }
                }
                pos = pos + n;
            },
        }
    }
    assert(buf@.skip(pos as int) =~= Seq::<u8>::empty());
    assert(tokens_view(out@) + Seq::<TokenV>::empty() =~= tokens_view(out@));
    Some(out)
}

proof fn lemma_nest_fails_on(ts: Seq<TokenV>, i: int)
    requires
        0 <= i <= ts.len(),
        nest_after(ts.take(i)) is None,
    ensures
        nest_after(ts) is None,
    decreases ts.len(),
{
    if i == ts.len() {
        assert(ts.take(i) =~= ts);
    } else {
        assert(ts.drop_last().take(i) =~= ts.take(i));
        lemma_nest_fails_on(ts.drop_last(), i);
    }
}

/// Whether every list and name that `ts` opens is closed, in order.
pub fn check_nesting(ts: &[Token]) -> (r: bool)
    ensures
        r == well_nested(tokens_view(ts@)),
{
    let ghost v = tokens_view(ts@);
    let mut open: Vec<bool> = Vec::new();
    let mut i: usize = 0;
    assert(v.take(0) =~= Seq::<TokenV>::empty());
    while i < ts.len()
        invariant
            i <= ts@.len(),
            v == tokens_view(ts@),
            nest_after(v.take(i as int)) == Some(open@),
        decreases ts@.len() - i,
    {
        assert(v.take(i + 1).drop_last() =~= v.take(i as int));
        assert(v.take(i + 1).last() == ts@[i as int]@);
        match &ts[i] {
            Token::StartList => open.push(true),
            Token::StartName => open.push(false),
            Token::EndList => {
                if open.len() == 0 || !open[open.len() - 1] {
                    proof { lemma_nest_fails_on(v, i + 1); }
                    return false;
                }
                open.pop();
            },
            Token::EndName => {
                if open.len() == 0 || open[open.len() - 1] {
                    proof { lemma_nest_fails_on(v, i + 1); }
                    return false;
                }
                open.pop();
            },
            _ => {},
        }
        i = i + 1;
    }
    assert(v.take(i as int) =~= v);
    assert(open@.len() == 0 ==> open@ =~= Seq::<bool>::empty());
    open.len() == 0
}

/// Decodes a byte stream into a well-nested token sequence.
pub fn decode(buf: &[u8]) -> (r: Result<Vec<Token>, TokenFormatError>)
    ensures
        match r {
            Ok(v) => decode_spec(buf@) == Some(tokens_view(v@)),
            Err(_) => decode_spec(buf@) is None,
        },
{
    match tokenize_bytes(buf) {
        None => Err(TokenFormatError),
        Some(v) => {
            if check_nesting(v.as_slice()) {
                Ok(v)
            } else {
                Err(TokenFormatError)
            }
        },
    }
}

} // verus!
