//! Parser for the structured error payload that the remote service returns in
//! the body of a failure-status response.
//!
//! The payload is a flat JSON object that must contain a string member
//! `Message` and an unsigned integer member `Code`; other members with string
//! or number values are ignored. Strings support the escapes `\"` and `\\`;
//! numbers are plain decimal digits that fit in a `u64`. A body outside this
//! shape is not a structured payload and is reported uncategorized.

use crate::error::ApiError;
use vstd::prelude::*;

verus! {

/// JSON insignificant whitespace: space, tab, carriage return, line feed.
pub open spec fn spec_is_ws(b: u8) -> bool {
    b == 32 || b == 9 || b == 13 || b == 10
}

/// ASCII decimal digit.
pub open spec fn spec_is_digit(b: u8) -> bool {
    48 <= b <= 57
}

/// The bytes of the member key `Message`.
pub open spec fn message_key() -> Seq<u8> {
    seq![77u8, 101u8, 115u8, 115u8, 97u8, 103u8, 101u8]
}

/// The bytes of the member key `Code`.
pub open spec fn code_key() -> Seq<u8> {
    seq![67u8, 111u8, 100u8, 101u8]
}

/// First position at or after `i` that does not hold whitespace.
pub open spec fn spec_skip_ws(s: Seq<u8>, i: int) -> int
    decreases s.len() - i,
{
    if 0 <= i < s.len() && spec_is_ws(s[i]) {
        spec_skip_ws(s, i + 1)
    } else {
        i
    }
}

/// Scans the inside of a quoted string starting at `i`, accumulating the
/// unescaped bytes; yields the bytes and the position after the closing quote.
pub open spec fn spec_scan_string(s: Seq<u8>, i: int, acc: Seq<u8>) -> Option<(Seq<u8>, int)>
    decreases s.len() - i,
{
    if !(0 <= i < s.len()) {
        None
    } else if s[i] == 34 {
        Some((acc, i + 1))
    } else if s[i] == 92 {
        if i + 1 < s.len() && (s[i + 1] == 34 || s[i + 1] == 92) {
            spec_scan_string(s, i + 2, acc + seq![s[i + 1]])
        } else {
            None
        }
    } else if s[i] < 32 {
        None
    } else {
        spec_scan_string(s, i + 1, acc + seq![s[i]])
    }
}

/// Parses a quoted string whose opening quote stands at `i`.
pub open spec fn spec_parse_string(s: Seq<u8>, i: int) -> Option<(Seq<u8>, int)> {
    if 0 <= i < s.len() && s[i] == 34 {
        spec_scan_string(s, i + 1, Seq::empty())
    } else {
        None
    }
}

/// Scans decimal digits starting at `i` with accumulator `acc`; fails when the
/// value would exceed `u64::MAX`.
pub open spec fn spec_scan_number(s: Seq<u8>, i: int, acc: u64) -> Option<(u64, int)>
    decreases s.len() - i,
{
    if 0 <= i < s.len() && spec_is_digit(s[i]) {
        if acc as int * 10 + (s[i] - 48) > u64::MAX as int {
            None
        } else {
            spec_scan_number(s, i + 1, (acc as int * 10 + (s[i] - 48)) as u64)
        }
    } else {
        Some((acc, i))
    }
}

/// Parses a number whose first digit stands at `i`.
pub open spec fn spec_parse_number(s: Seq<u8>, i: int) -> Option<(u64, int)> {
    if 0 <= i < s.len() && spec_is_digit(s[i]) {
        spec_scan_number(s, i, 0)
    } else {
        None
    }
}

/// Parses the members of the payload object from position `i`, which must
/// hold either a member key or the closing brace. `msg` and `code` carry the
/// member values seen so far; on a later duplicate the later member wins.
pub open spec fn spec_parse_members(
    s: Seq<u8>,
    i: int,
    msg: Option<Seq<u8>>,
    code: Option<u64>,
    fuel: nat,
) -> Option<(Seq<u8>, u64)>
    decreases fuel, 1int,
{
    if fuel == 0 {
        None
    } else if !(0 <= i < s.len()) {
        None
    } else if s[i] == 125 {
        if spec_skip_ws(s, i + 1) == s.len() && msg is Some && code is Some {
            Some((msg->0, code->0))
        } else {
            None
        }
    } else {
        match spec_parse_string(s, i) {
            None => None,
            Some((k, i2)) => {
                let i3 = spec_skip_ws(s, i2);
                if 0 <= i3 < s.len() && s[i3] == 58 {
                    let i4 = spec_skip_ws(s, i3 + 1);
                    if 0 <= i4 < s.len() && s[i4] == 34 {
                        match spec_parse_string(s, i4) {
                            None => None,
                            Some((v, i5)) => if k == code_key() {
                                None
                            } else {
                                let msg2 = if k == message_key() {
                                    Some(v)
                                } else {
                                    msg
                                };
                                spec_after_member(s, i5, msg2, code, (fuel - 1) as nat)
                            },
                        }
                    } else if 0 <= i4 < s.len() && spec_is_digit(s[i4]) {
                        match spec_parse_number(s, i4) {
                            None => None,
                            Some((n, i5)) => if k == message_key() {
                                None
                            } else {
                                let code2 = if k == code_key() {
                                    Some(n)
                                } else {
                                    code
                                };
                                spec_after_member(s, i5, msg, code2, (fuel - 1) as nat)
                            },
                        }
                    } else {
                        None
                    }
                } else {
                    None
                }
            },
        }
    }
}

/// Continues after a member's value: either a comma and the next member key,
/// or the closing brace.
pub open spec fn spec_after_member(
    s: Seq<u8>,
    i: int,
    msg: Option<Seq<u8>>,
    code: Option<u64>,
    fuel: nat,
) -> Option<(Seq<u8>, u64)>
    decreases fuel, 0int,
{
    if fuel == 0 {
        None
    } else {
        let j = spec_skip_ws(s, i);
        if 0 <= j < s.len() && s[j] == 44 {
            let p = spec_skip_ws(s, j + 1);
            if 0 <= p < s.len() && s[p] == 34 {
                spec_parse_members(s, p, msg, code, (fuel - 1) as nat)
            } else {
                None
            }
        } else if 0 <= j < s.len() && s[j] == 125 {
            if spec_skip_ws(s, j + 1) == s.len() && msg is Some && code is Some {
                Some((msg->0, code->0))
            } else {
                None
            }
        } else {
            None
        }
    }
}

/// The structured payloads this adapter recognizes: `Some((message, code))`
/// exactly when the whole body is one object of the shape described at the
/// top of this module.
pub open spec fn spec_parse_api_error(s: Seq<u8>) -> Option<(Seq<u8>, u64)> {
    let i0 = spec_skip_ws(s, 0);
    if 0 <= i0 < s.len() && s[i0] == 123 {
        let i1 = spec_skip_ws(s, i0 + 1);
        spec_parse_members(s, i1, None, None, s.len() as nat)
    } else {
        None
    }
}

/// Relates an executable optional byte buffer to its specification view.
pub open spec fn view_opt_bytes(m: Option<Vec<u8>>) -> Option<Seq<u8>> {
    match m {
        None => None,
        Some(v) => Some(v@),
    }
}

fn skip_ws(s: &Vec<u8>, i: usize) -> (r: usize)
    requires
        i <= s.len(),
    ensures
        r == spec_skip_ws(s@, i as int),
        i <= r <= s.len(),
    decreases s.len() - i,
{
    if i < s.len() && (s[i] == 32 || s[i] == 9 || s[i] == 13 || s[i] == 10) {
        skip_ws(s, i + 1)
    } else {
        i
    }
}

fn scan_string(s: &Vec<u8>, i: usize, acc: Vec<u8>) -> (r: Option<(Vec<u8>, usize)>)
    requires
        i <= s.len(),
    ensures
        (match spec_scan_string(s@, i as int, acc@) {
            None => r is None,
            Some((b, j)) => r is Some && (r->0).0@ == b && (r->0).1 == j && i < (r->0).1 <= s.len(),
        }),
    decreases s.len() - i,
{
    if i >= s.len() {
        None
    } else if s[i] == 34 {
        Some((acc, i + 1))
    } else if s[i] == 92 {
        if i + 1 < s.len() && (s[i + 1] == 34 || s[i + 1] == 92) {
            let mut acc2 = acc;
            acc2.push(s[i + 1]);
            proof {
                assert(acc2@ =~= acc@ + seq![s@[i as int + 1]]);
            }
            scan_string(s, i + 2, acc2)
        } else {
            None
        }
    } else if s[i] < 32 {
        None
    } else {
        let mut acc2 = acc;
        acc2.push(s[i]);
        proof {
            assert(acc2@ =~= acc@ + seq![s@[i as int]]);
        }
        scan_string(s, i + 1, acc2)
    }
}

fn parse_string(s: &Vec<u8>, i: usize) -> (r: Option<(Vec<u8>, usize)>)
    requires
        i <= s.len(),
    ensures
        (match spec_parse_string(s@, i as int) {
            None => r is None,
            Some((b, j)) => r is Some && (r->0).0@ == b && (r->0).1 == j && i < (r->0).1 <= s.len(),
        }),
{
    if i < s.len() && s[i] == 34 {
        let acc: Vec<u8> = Vec::new();
        assert(acc@ =~= Seq::<u8>::empty());
        scan_string(s, i + 1, acc)
    } else {
        None
    }
}

fn scan_number(s: &Vec<u8>, i: usize, acc: u64) -> (r: Option<(u64, usize)>)
    requires
        i <= s.len(),
    ensures
        (match spec_scan_number(s@, i as int, acc) {
            None => r is None,
            Some((n, j)) => r is Some && (r->0).0 == n && (r->0).1 == j && i <= (r->0).1 <= s.len(),
        }),
    decreases s.len() - i,
{
    if i < s.len() && 48 <= s[i] && s[i] <= 57 {
        let d: u8 = s[i] - 48;
        let fits: bool = acc <= (u64::MAX - d as u64) / 10;
        proof {
            assert(fits <==> acc as int * 10 + d <= u64::MAX as int) by (nonlinear_arith)
                requires
                    0 <= d <= 9,
                    fits == (acc <= (u64::MAX - d as u64) / 10),
            ;
        }
        if fits {
            scan_number(s, i + 1, acc * 10 + d as u64)
        } else {
            None
        }
    } else {
        Some((acc, i))
    }
}

fn parse_number(s: &Vec<u8>, i: usize) -> (r: Option<(u64, usize)>)
    requires
        i <= s.len(),
    ensures
        (match spec_parse_number(s@, i as int) {
            None => r is None,
            Some((n, j)) => r is Some && (r->0).0 == n && (r->0).1 == j && i <= (r->0).1 <= s.len(),
        }),
{
    if i < s.len() && 48 <= s[i] && s[i] <= 57 {
        scan_number(s, i, 0)
    } else {
        None
    }
}

/// Byte-for-byte comparison with the `Message` key.
fn is_message_key(k: &Vec<u8>) -> (r: bool)
    ensures
        r == (k@ == message_key()),
{
    let r = k.len() == 7 && k[0] == 77 && k[1] == 101 && k[2] == 115 && k[3] == 115 && k[4] == 97
        && k[5] == 103 && k[6] == 101;
    proof {
        if r {
            assert(k@ =~= message_key());
        }
    }
    r
}

/// Byte-for-byte comparison with the `Code` key.
fn is_code_key(k: &Vec<u8>) -> (r: bool)
    ensures
        r == (k@ == code_key()),
{
    let r = k.len() == 4 && k[0] == 67 && k[1] == 111 && k[2] == 100 && k[3] == 101;
    proof {
        if r {
            assert(k@ =~= code_key());
        }
    }
    r
}

fn parse_members(
    s: &Vec<u8>,
    i: usize,
    msg: Option<Vec<u8>>,
    code: Option<u64>,
    fuel: usize,
) -> (r: Option<(Vec<u8>, u64)>)
    requires
        i <= s.len(),
    ensures
        (match spec_parse_members(s@, i as int, view_opt_bytes(msg), code, fuel as nat) {
            None => r is None,
            Some((m, c)) => r is Some && (r->0).0@ == m && (r->0).1 == c,
        }),
    decreases fuel, 1int,
{
    if fuel == 0 {
        None
    } else if i >= s.len() {
        None
    } else if s[i] == 125 {
        if skip_ws(s, i + 1) == s.len() {
            match (msg, code) {
                (Some(m), Some(c)) => Some((m, c)),
                _ => None,
            }
        } else {
            None
        }
    } else {
        match parse_string(s, i) {
            None => None,
            Some((k, i2)) => {
                let i3 = skip_ws(s, i2);
                if i3 < s.len() && s[i3] == 58 {
                    let i4 = skip_ws(s, i3 + 1);
                    if i4 < s.len() && s[i4] == 34 {
                        match parse_string(s, i4) {
                            None => None,
                            Some((v, i5)) => {
                                if is_code_key(&k) {
                                    None
                                } else {
                                    let msg2 = if is_message_key(&k) {
                                        Some(v)
                                    } else {
                                        msg
                                    };
                                    after_member(s, i5, msg2, code, fuel - 1)
                                }
                            },
                        }
                    } else if i4 < s.len() && 48 <= s[i4] && s[i4] <= 57 {
                        match parse_number(s, i4) {
                            None => None,
                            Some((n, i5)) => {
                                if is_message_key(&k) {
                                    None
                                } else {
                                    let code2 = if is_code_key(&k) {
                                        Some(n)
                                    } else {
                                        code
                                    };
                                    after_member(s, i5, msg, code2, fuel - 1)
                                }
                            },
                        }
                    } else {
                        None
                    }
                } else {
                    None
                }
            },
        }
    }
}

fn after_member(
    s: &Vec<u8>,
    i: usize,
    msg: Option<Vec<u8>>,
    code: Option<u64>,
    fuel: usize,
) -> (r: Option<(Vec<u8>, u64)>)
    requires
        i <= s.len(),
    ensures
        (match spec_after_member(s@, i as int, view_opt_bytes(msg), code, fuel as nat) {
            None => r is None,
            Some((m, c)) => r is Some && (r->0).0@ == m && (r->0).1 == c,
        }),
    decreases fuel, 0int,
{
    if fuel == 0 {
        None
    } else {
        let j = skip_ws(s, i);
        if j < s.len() && s[j] == 44 {
            let p = skip_ws(s, j + 1);
            if p < s.len() && s[p] == 34 {
                parse_members(s, p, msg, code, fuel - 1)
            } else {
                None
            }
        } else if j < s.len() && s[j] == 125 {
            if skip_ws(s, j + 1) == s.len() {
                match (msg, code) {
                    (Some(m), Some(c)) => Some((m, c)),
                    _ => None,
                }
            } else {
                None
            }
        } else {
            None
        }
    }
}

/// Parses a failure-status body as a structured API error payload.
///
/// Returns `Some` exactly on the bodies that `spec_parse_api_error` accepts,
/// with the unescaped `Message` bytes and the `Code` value.
pub fn parse_api_error(body: &Vec<u8>) -> (r: Option<ApiError>)
    ensures
        (match spec_parse_api_error(body@) {
            None => r is None,
            Some((m, c)) => r is Some && (r->0).message@ == m && (r->0).code == c,
        }),
{
    let i0 = skip_ws(body, 0);
    if i0 < body.len() && body[i0] == 123 {
        let i1 = skip_ws(body, i0 + 1);
        match parse_members(body, i1, None, None, body.len()) {
            None => None,
            Some((m, c)) => Some(ApiError { message: m, code: c }),
        }
    } else {
        None
    }
}

} // verus!
