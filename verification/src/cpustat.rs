//! Extracting the CPU-time counter from one accounting file.
//!
//! The file is line oriented; each line is split on whitespace into a key
//! and a value. The value of every scanned line must be a valid unsigned
//! integer; the line whose key is `usage_usec` yields the counter. A line
//! that cannot be split into a pair is an I/O-shaped failure, and a file
//! without the key lacks the required field.

use vstd::prelude::*;
use crate::bytes::{parse_u64, parse_u64_spec, copy_range};

verus! {

/// Why a capture failed.
#[derive(Clone, Copy, Debug, PartialEq, Eq, Structural)]
pub enum ReadError {
    /// A hierarchy root or file could not be read, or a line had no
    /// key/value pair.
    Io,
    /// The accounting file lacks the required counter field.
    MissingField,
    /// A counter value is not a valid unsigned integer.
    ParseError,
}

/// ASCII whitespace, as the splitting of accounting lines sees it.
pub open spec fn is_ws(b: u8) -> bool {
    b == 9 || b == 10 || b == 11 || b == 12 || b == 13 || b == 32
}

/// First newline at or after `i`, or the end of the text.
pub open spec fn line_end(s: Seq<u8>, i: int) -> int
    decreases s.len() - i,
{
    if i >= s.len() {
        i
    } else if s[i] == 10 {
        i
    } else {
        line_end(s, i + 1)
    }
}

pub proof fn lemma_line_end_ge(s: Seq<u8>, i: int)
    requires
        0 <= i <= s.len(),
    ensures
        i <= line_end(s, i) <= s.len(),
    decreases s.len() - i,
{
    if i < s.len() && s[i] != 10 {
        lemma_line_end_ge(s, i + 1);
    }
}

/// First position in `[i, end]` that is `end` or holds a non-whitespace byte.
pub open spec fn skip_ws(s: Seq<u8>, i: int, end: int) -> int
    decreases end - i,
{
    if i >= end {
        end
    } else if is_ws(s[i]) {
        skip_ws(s, i + 1, end)
    } else {
        i
    }
}

/// First position in `[i, end]` that is `end` or holds a whitespace byte.
pub open spec fn token_end(s: Seq<u8>, i: int, end: int) -> int
    decreases end - i,
{
    if i >= end {
        end
    } else if is_ws(s[i]) {
        i
    } else {
        token_end(s, i + 1, end)
    }
}

/// `"usage_usec"`
pub open spec fn usage_key() -> Seq<u8> {
    seq![117u8, 115u8, 97u8, 103u8, 101u8, 95u8, 117u8, 115u8, 101u8, 99u8]
}

/// What scanning one line `[i, end)` decides.
pub enum LineScan {
    /// fewer than two whitespace-separated fields
    NoPair,
    /// the value field is not a valid unsigned integer
    BadNumber,
    /// the counter field, with its value
    Hit(u64),
    /// a well-formed line about something else
    Other,
}

pub open spec fn scan_line(s: Seq<u8>, i: int, end: int) -> LineScan {
    let t1s = skip_ws(s, i, end);
    let t1e = token_end(s, t1s, end);
    let t2s = skip_ws(s, t1e, end);
    let t2e = token_end(s, t2s, end);
    if t1e == t1s || t2e == t2s {
        LineScan::NoPair
    } else {
        match parse_u64_spec(s.subrange(t2s, t2e)) {
            Option::None => LineScan::BadNumber,
            Option::Some(v) => if s.subrange(t1s, t1e) == usage_key() {
                LineScan::Hit(v)
            } else {
                LineScan::Other
            },
        }
    }
}

#[via_fn]
proof fn scan_from_decreases(s: Seq<u8>, i: int) {
    if 0 <= i && i < s.len() {
        lemma_line_end_ge(s, i);
    }
}

/// What scanning the whole text from position `i` on yields.
pub open spec fn scan_from(s: Seq<u8>, i: int) -> Result<u64, ReadError>
    decreases s.len() - i + 1,
    via scan_from_decreases
{
    if !(0 <= i < s.len()) {
        Result::Err(ReadError::MissingField)
    } else {
        let end = line_end(s, i);
        match scan_line(s, i, end) {
            LineScan::NoPair => Result::Err(ReadError::Io),
            LineScan::BadNumber => Result::Err(ReadError::ParseError),
            LineScan::Hit(v) => Result::Ok(v),
            LineScan::Other => scan_from(s, end + 1),
        }
    }
}

fn skip_ws_exec(s: &Vec<u8>, i: usize, end: usize) -> (r: usize)
    requires
        i <= end <= s@.len(),
    ensures
        r == skip_ws(s@, i as int, end as int),
        i <= r <= end,
{
    let mut j = i;
    while j < end && (s[j] == 9 || s[j] == 10 || s[j] == 11 || s[j] == 12 || s[j] == 13
        || s[j] == 32)
        invariant
            i <= j <= end <= s@.len(),
            skip_ws(s@, i as int, end as int) == skip_ws(s@, j as int, end as int),
        decreases end - j,
    {
        j = j + 1;
    }
    j
}

fn token_end_exec(s: &Vec<u8>, i: usize, end: usize) -> (r: usize)
    requires
        i <= end <= s@.len(),
    ensures
        r == token_end(s@, i as int, end as int),
        i <= r <= end,
{
    let mut j = i;
    while j < end && !(s[j] == 9 || s[j] == 10 || s[j] == 11 || s[j] == 12 || s[j] == 13
        || s[j] == 32)
        invariant
            i <= j <= end <= s@.len(),
            token_end(s@, i as int, end as int) == token_end(s@, j as int, end as int),
        decreases end - j,
    {
        j = j + 1;
    }
    j
}

fn is_usage_key(t: &Vec<u8>) -> (r: bool)
    ensures
        r == (t@ == usage_key()),
{
    if t.len() != 10 {
        return false;
    }
    let r = t[0] == 117 && t[1] == 115 && t[2] == 97 && t[3] == 103 && t[4] == 101 && t[5] == 95
        && t[6] == 117 && t[7] == 115 && t[8] == 101 && t[9] == 99;
    proof {
        if r {
            assert(t@ =~= usage_key());
        } else {
            assert(t@ != usage_key());
        }
    }
    r
}

/// Extract the `usage_usec` counter from the bytes of one accounting file.
pub fn parse_cpu_stat(content: &Vec<u8>) -> (r: Result<u64, ReadError>)
    ensures
        r == scan_from(content@, 0),
{
    let n = content.len();
    let mut i: usize = 0;
    while i < n
        invariant
            0 <= i <= n,
            n == content@.len(),
            scan_from(content@, 0) == scan_from(content@, i as int),
        decreases n - i,
    {
        let mut e: usize = i;
        while e < n && content[e] != 10
            invariant
                i <= e <= n,
                n == content@.len(),
                line_end(content@, i as int) == line_end(content@, e as int),
            decreases n - e,
        {
            e = e + 1;
        }
        proof {
            assert(line_end(content@, e as int) == e);
        }
        let t1s = skip_ws_exec(content, i, e);
        let t1e = token_end_exec(content, t1s, e);
        if t1e == t1s {
            return Err(ReadError::Io);
        }
        let t2s = skip_ws_exec(content, t1e, e);
        let t2e = token_end_exec(content, t2s, e);
        if t2e == t2s {
            return Err(ReadError::Io);
        }
        let tok1 = copy_range(content, t1s, t1e);
        let tok2 = copy_range(content, t2s, t2e);
        match parse_u64(&tok2) {
            None => {
                return Err(ReadError::ParseError);
            },
            Some(v) => {
                if is_usage_key(&tok1) {
                    return Ok(v);
                }
            },
        }
        proof {
            assert(scan_line(content@, i as int, e as int) is Other);
            assert(scan_from(content@, i as int) == scan_from(content@, e + 1));
        }
        if e >= n {
            return Err(ReadError::MissingField);
        }
        i = e + 1;
    }
    Err(ReadError::MissingField)
}

} // verus!
