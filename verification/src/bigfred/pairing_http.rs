//! Handset pairing over HTTP: response framing and the checks on the decoded fields.
//!
//! The JSON bodies themselves are encoded and decoded by the firmware's serde layer; the
//! library frames the HTTP response and decides which decoded values are acceptable.

use crate::text::{find_from, is_at, parse_unsigned};
use vstd::prelude::*;

verus! {

pub const HANDSET_PAIRING_PATH: &'static str = "/api/v1/remotes/handset-pairing";

pub const HANDSET_SESSION_PATH: &'static str = "/api/v1/remotes/handset-session";

/// Length of a handset pairing code.
pub const PAIRING_CODE_DIGITS: usize = 6;

/// Longest error code kept from an error body.
pub const ERROR_CODE_CAP: usize = 32;

/// Fields consumed by firmware after a successful HTTP 201 response.
#[derive(Clone, Debug, PartialEq, Eq)]
pub struct HandsetPairingResponse {
    /// Six ASCII digits.
    pub pairing_code: Vec<u8>,
    pub expires_at: u64,
    pub layout_id: u32,
    pub command_station_id: u32,
}

/// Session-status fields the handset needs from HTTP 200.
#[derive(Clone, Copy, Debug, PartialEq, Eq)]
pub struct HandsetSessionResponse {
    pub paired: bool,
}

/// `\r\n`.
pub open spec fn crlf() -> Seq<u8> {
    seq![13u8, 10]
}

/// `\r\n\r\n`.
pub open spec fn crlf2() -> Seq<u8> {
    seq![13u8, 10, 13, 10]
}

/// `HTTP/1.0`.
pub open spec fn http10() -> Seq<u8> {
    seq![72u8, 84, 84, 80, 47, 49, 46, 48]
}

/// `HTTP/1.1`.
pub open spec fn http11() -> Seq<u8> {
    seq![72u8, 84, 84, 80, 47, 49, 46, 49]
}

/// ASCII whitespace as `split_ascii_whitespace` knows it.
pub open spec fn is_ascii_ws(c: u8) -> bool {
    c == 32 || c == 9 || c == 10 || c == 12 || c == 13
}

/// First index from `i` that holds no whitespace (or the end).
pub open spec fn skip_ws(s: Seq<u8>, i: int) -> int
    decreases s.len() - i,
{
    if i < 0 || i >= s.len() || !is_ascii_ws(s[i]) {
        i
    } else {
        skip_ws(s, i + 1)
    }
}

/// First index from `i` that holds whitespace (or the end).
pub open spec fn token_end(s: Seq<u8>, i: int) -> int
    decreases s.len() - i,
{
    if i < 0 || i >= s.len() || is_ascii_ws(s[i]) {
        i
    } else {
        token_end(s, i + 1)
    }
}

/// Status code and body offset of a raw HTTP response: the status line (up to the first
/// CRLF) must be UTF-8 whose first two whitespace-separated words are `HTTP/1.0` or
/// `HTTP/1.1` and a `u16`; the body starts after the first blank line.
pub open spec fn split_response_spec(r: Seq<u8>) -> Option<(u16, int)> {
    match find_from(r, crlf2(), 0) {
        None => None,
        Some(h) => match find_from(r, crlf(), 0) {
            None => None,
            Some(se) => {
                let status = r.take(se);
                let a = skip_ws(status, 0);
                let b = token_end(status, a);
                let c = skip_ws(status, b);
                let d = token_end(status, c);
                let version = status.subrange(a, b);
                if !vstd::utf8::valid_utf8(status) || a >= status.len() || c >= status.len() {
                    None
                } else {
                    match parse_unsigned(status.subrange(c, d), 65535) {
                        None => None,
                        Some(code) => if version == http10() || version == http11() {
                            Some((code as u16, h + 4))
                        } else {
                            None
                        },
                    }
                }
            },
        },
    }
}

proof fn lemma_skip_ws(s: Seq<u8>, i: int)
    requires
        0 <= i <= s.len(),
    ensures
        i <= skip_ws(s, i) <= s.len(),
        forall|j: int| i <= j < skip_ws(s, i) ==> is_ascii_ws(#[trigger] s[j]),
    decreases s.len() - i,
{
    if i < s.len() && is_ascii_ws(s[i]) {
        lemma_skip_ws(s, i + 1);
    }
}

proof fn lemma_token_end(s: Seq<u8>, i: int)
    requires
        0 <= i <= s.len(),
    ensures
        i <= token_end(s, i) <= s.len(),
    decreases s.len() - i,
{
    if i < s.len() && !is_ascii_ws(s[i]) {
        lemma_token_end(s, i + 1);
    }
}

fn is_ascii_ws_exec(c: u8) -> (r: bool)
    ensures
        r == is_ascii_ws(c),
{
    c == 32 || c == 9 || c == 10 || c == 12 || c == 13
}

fn skip_ws_exec(s: &[u8], i: usize) -> (r: usize)
    requires
        i <= s@.len(),
    ensures
        r == skip_ws(s@, i as int),
{
    let mut k = i;
    while k < s.len() && is_ascii_ws_exec(s[k])
        invariant
            i <= k <= s@.len(),
            skip_ws(s@, i as int) == skip_ws(s@, k as int),
        decreases s@.len() - k,
    {
        k = k + 1;
    }
    k
}

fn token_end_exec(s: &[u8], i: usize) -> (r: usize)
    requires
        i <= s@.len(),
    ensures
        r == token_end(s@, i as int),
{
    let mut k = i;
    while k < s.len() && !is_ascii_ws_exec(s[k])
        invariant
            i <= k <= s@.len(),
            token_end(s@, i as int) == token_end(s@, k as int),
        decreases s@.len() - k,
    {
        k = k + 1;
    }
    k
}

/// Splits the status code and the body from a raw HTTP response.
pub fn split_response(response: &[u8]) -> (r: Option<(u16, &[u8])>)
    ensures
        match split_response_spec(response@) {
            Some((code, start)) => r matches Some((c, body)) && c == code && body@ == response@.skip(start),
            None => r is None,
        },
{
    let blank: Vec<u8> = vec![13u8, 10, 13, 10];
    assert(blank@ =~= crlf2());
    let eol: Vec<u8> = vec![13u8, 10];
    assert(eol@ =~= crlf());
    proof {
        crate::text::lemma_find_from_facts(response@, crlf2(), 0);
        crate::text::lemma_find_from_facts(response@, crlf(), 0);
    }
    let h = match crate::text::find_bytes(response, blank.as_slice(), 0) {
        Some(p) => p,
        None => {
            return None;
        },
    };
    let se = match crate::text::find_bytes(response, eol.as_slice(), 0) {
        Some(p) => p,
        None => {
            return None;
        },
    };
    let (status, _) = response.split_at(se);
    assert(status@ =~= response@.take(se as int));
    if !crate::text::is_utf8(status) {
        return None;
    }
    proof {
        lemma_skip_ws(status@, 0);
    }
    let a = skip_ws_exec(status, 0);
    if a >= status.len() {
        return None;
    }
    proof {
        lemma_token_end(status@, a as int);
    }
    let b = token_end_exec(status, a);
    proof {
        lemma_skip_ws(status@, b as int);
    }
    let c = skip_ws_exec(status, b);
    if c >= status.len() {
        return None;
    }
    proof {
        lemma_token_end(status@, c as int);
    }
    let d = token_end_exec(status, c);
    let code = match crate::text::parse_unsigned_range(status, c, d, 65535) {
        Some(v) => v as u16,
        None => {
            return None;
        },
    };
    let v10: Vec<u8> = vec![72u8, 84, 84, 80, 47, 49, 46, 48];
    assert(v10@ =~= http10());
    let v11: Vec<u8> = vec![72u8, 84, 84, 80, 47, 49, 46, 49];
    assert(v11@ =~= http11());
    let known = b - a == 8 && (crate::text::matches_at(status, v10.as_slice(), a)
        || crate::text::matches_at(status, v11.as_slice(), a));
    proof {
        let version = status@.subrange(a as int, b as int);
        if version == http10() || version == http11() {
            assert(b - a == 8);
            assert(status@.subrange(a as int, a + 8) =~= version);
        }
    }
    if !known {
        return None;
    }
    assert(is_at(response@, crlf2(), h as int));
    assert(crlf2().len() == 4);
    let n = response.len();
    let (_, body) = response.split_at(h + 4);
    Some((code, body))
}

/// The body of an HTTP response whose status is exactly `expected_status`.
pub fn response_body(response: &[u8], expected_status: u16) -> (r: Option<&[u8]>)
    ensures
        match split_response_spec(response@) {
            Some((code, start)) => if code == expected_status {
                r matches Some(body) && body@ == response@.skip(start)
            } else {
                r is None
            },
            None => r is None,
        },
{
    match split_response(response) {
        Some((code, body)) => if code == expected_status {
            Some(body)
        } else {
            None
        },
        None => None,
    }
}

/// The fields of a pairing response are kept when the code is six ASCII digits and both
/// identifiers are non-zero.
pub open spec fn pairing_fields_ok(code: Seq<u8>, layout_id: u32, command_station_id: u32) -> bool {
    code.len() == PAIRING_CODE_DIGITS && crate::text::all_digits(code) && layout_id != 0
        && command_station_id != 0
}

impl HandsetPairingResponse {
    /// Checks the decoded fields of a pairing response.
    pub fn from_fields(pairing_code: &[u8], expires_at: u64, layout_id: u32, command_station_id: u32) -> (r: Option<Self>)
        ensures
            pairing_fields_ok(pairing_code@, layout_id, command_station_id) ==> (r matches Some(p)
                && p.pairing_code@ == pairing_code@ && p.expires_at == expires_at && p.layout_id
                == layout_id && p.command_station_id == command_station_id),
            !pairing_fields_ok(pairing_code@, layout_id, command_station_id) ==> r is None,
    {
        if pairing_code.len() != PAIRING_CODE_DIGITS || layout_id == 0 || command_station_id == 0 {
            return None;
        }
        let mut i: usize = 0;
        while i < pairing_code.len()
            invariant
                i <= pairing_code@.len(),
                forall|j: int| 0 <= j < i ==> crate::text::is_digit(#[trigger] pairing_code@[j]),
            decreases pairing_code@.len() - i,
        {
            let c = pairing_code[i];
            if c < 48 || c > 57 {
                assert(!crate::text::is_digit(pairing_code@[i as int]));
                return None;
            }
            i = i + 1;
        }
        let code = crate::text::copy_range(pairing_code, 0, pairing_code.len());
        assert(code@ =~= pairing_code@);
        Some(HandsetPairingResponse { pairing_code: code, expires_at, layout_id, command_station_id })
    }
}

/// An error code is kept when it is non-empty and at most [`ERROR_CODE_CAP`] bytes.
pub fn error_code_from_field(error: &[u8]) -> (r: Option<Vec<u8>>)
    ensures
        0 < error@.len() <= ERROR_CODE_CAP ==> (r matches Some(v) && v@ == error@),
        !(0 < error@.len() <= ERROR_CODE_CAP) ==> r is None,
{
    if error.len() == 0 || error.len() > ERROR_CODE_CAP {
        None
    } else {
        Some(crate::text::copy_range(error, 0, error.len()))
    }
}

} // verus!
