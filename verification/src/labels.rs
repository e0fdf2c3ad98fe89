//! Label policy: raw hierarchy entry names to display names.
//!
//! System entries lose the first service/scope/slice marker in their name
//! and are then truncated to a fixed maximum width, with an ellipsis when
//! anything was cut. User entries of the form `user-<uid>.slice` are
//! resolved to the owning account's name through the host's user database;
//! on any lookup failure the raw name is kept unchanged.

use vstd::prelude::*;
use crate::bytes::{all_digits, dec_value, parse_u64, clone_bytes, copy_range};

verus! {

/// Display names are never longer than this.
pub const MAX_NAME_LEN: usize = 23;

/// The literal `lit` occurs in `s` at position `i`.
pub open spec fn is_lit_at(s: Seq<u8>, i: int, lit: Seq<u8>) -> bool {
    &&& 0 <= i
    &&& i + lit.len() <= s.len()
    &&& forall|k: int| 0 <= k < lit.len() ==> s[i + k] == #[trigger] lit[k]
}

/// `".service"`
pub open spec fn service_marker() -> Seq<u8> {
    seq![46u8, 115u8, 101u8, 114u8, 118u8, 105u8, 99u8, 101u8]
}

/// `".scope"`
pub open spec fn scope_marker() -> Seq<u8> {
    seq![46u8, 115u8, 99u8, 111u8, 112u8, 101u8]
}

/// `".slice"`
pub open spec fn slice_marker() -> Seq<u8> {
    seq![46u8, 115u8, 108u8, 105u8, 99u8, 101u8]
}

/// Length of the marker starting at position `i`, or 0 when none does. At
/// most one marker can start at a given position, since they differ in
/// their third byte.
pub open spec fn marker_len_at_spec(s: Seq<u8>, i: int) -> int {
    if is_lit_at(s, i, service_marker()) {
        8
    } else if is_lit_at(s, i, scope_marker()) {
        6
    } else if is_lit_at(s, i, slice_marker()) {
        6
    } else {
        0
    }
}

/// Position of the leftmost marker at or after `i`; `s.len()` when there is
/// none.
pub open spec fn first_marker(s: Seq<u8>, i: int) -> int
    decreases s.len() - i,
{
    if i >= s.len() {
        s.len() as int
    } else if marker_len_at_spec(s, i) != 0 {
        i
    } else {
        first_marker(s, i + 1)
    }
}

/// The raw name with its first service/scope/slice marker removed, if any.
pub open spec fn stripped(s: Seq<u8>) -> Seq<u8> {
    let j = first_marker(s, 0);
    if j < s.len() {
        s.subrange(0, j) + s.subrange(j + marker_len_at_spec(s, j), s.len() as int)
    } else {
        s
    }
}

/// Truncation to the display maximum: up to 23 bytes pass unchanged, longer
/// names keep their first 20 bytes and gain a three-dot ellipsis.
pub open spec fn truncated(s: Seq<u8>) -> Seq<u8> {
    if s.len() <= MAX_NAME_LEN {
        s
    } else {
        s.subrange(0, MAX_NAME_LEN - 3) + seq![46u8, 46u8, 46u8]
    }
}

/// Display name of a system-category entry.
pub open spec fn system_display_spec(raw: Seq<u8>) -> Seq<u8> {
    truncated(stripped(raw))
}

/// The truncation invariant: a system display name never exceeds the
/// maximum, and whenever the stripped name had to be cut, the display name
/// is exactly the maximum wide and ends in the ellipsis marker.
pub proof fn lemma_system_display_bounded(raw: Seq<u8>)
    ensures
        system_display_spec(raw).len() <= MAX_NAME_LEN,
        stripped(raw).len() > MAX_NAME_LEN ==> {
            &&& system_display_spec(raw).len() == MAX_NAME_LEN
            &&& system_display_spec(raw).subrange(MAX_NAME_LEN - 3, MAX_NAME_LEN as int)
                =~= seq![46u8, 46u8, 46u8]
        },
{
}

/// Byte length of the marker starting at position `i`, or 0.
fn marker_len_at(s: &Vec<u8>, i: usize) -> (l: usize)
    requires
        i <= s@.len(),
    ensures
        l == marker_len_at_spec(s@, i as int),
{
    let n = s.len();
    if n - i >= 8 && s[i] == 46 && s[i + 1] == 115 && s[i + 2] == 101 && s[i + 3] == 114
        && s[i + 4] == 118 && s[i + 5] == 105 && s[i + 6] == 99 && s[i + 7] == 101 {
        proof {
            assert(is_lit_at(s@, i as int, service_marker()));
        }
        return 8;
    }
    proof {
        assert(!is_lit_at(s@, i as int, service_marker()));
    }
    if n - i >= 6 && s[i] == 46 && s[i + 1] == 115 && s[i + 2] == 99 && s[i + 3] == 111
        && s[i + 4] == 112 && s[i + 5] == 101 {
        proof {
            assert(is_lit_at(s@, i as int, scope_marker()));
        }
        return 6;
    }
    proof {
        assert(!is_lit_at(s@, i as int, scope_marker()));
    }
    if n - i >= 6 && s[i] == 46 && s[i + 1] == 115 && s[i + 2] == 108 && s[i + 3] == 105
        && s[i + 4] == 99 && s[i + 5] == 101 {
        proof {
            assert(is_lit_at(s@, i as int, slice_marker()));
        }
        return 6;
    }
    proof {
        assert(!is_lit_at(s@, i as int, slice_marker()));
    }
    0
}

/// Remove the first service/scope/slice marker, if any.
pub fn strip_marker(s: &Vec<u8>) -> (r: Vec<u8>)
    ensures
        r@ == stripped(s@),
{
    let mut i: usize = 0;
    while i < s.len()
        invariant
            0 <= i <= s@.len(),
            first_marker(s@, 0) == first_marker(s@, i as int),
        decreases s@.len() - i,
    {
        let l = marker_len_at(s, i);
        if l > 0 {
            let mut front = copy_range(s, 0, i);
            let mut back = copy_range(s, i + l, s.len());
            front.append(&mut back);
            proof {
                assert(first_marker(s@, i as int) == i);
            }
            return front;
        }
        i = i + 1;
    }
    proof {
        assert(first_marker(s@, i as int) == s@.len());
    }
    clone_bytes(s)
}

/// Truncate to the display maximum, marking the cut with an ellipsis.
pub fn truncate_name(s: Vec<u8>) -> (r: Vec<u8>)
    ensures
        r@ == truncated(s@),
{
    if s.len() <= MAX_NAME_LEN {
        return s;
    }
    let mut r = copy_range(&s, 0, MAX_NAME_LEN - 3);
    r.push(46);
    r.push(46);
    r.push(46);
    proof {
        assert(r@ =~= s@.subrange(0, MAX_NAME_LEN - 3) + seq![46u8, 46u8, 46u8]);
    }
    r
}

/// Display name of a system-category entry.
pub fn system_display_name(raw: &Vec<u8>) -> (r: Vec<u8>)
    ensures
        r@ == system_display_spec(raw@),
{
    truncate_name(strip_marker(raw))
}

/// `"user-"`
pub open spec fn user_prefix() -> Seq<u8> {
    seq![117u8, 115u8, 101u8, 114u8, 45u8]
}

/// The digit run of a `user-<uid>.slice` name.
pub open spec fn uid_digits(raw: Seq<u8>) -> Seq<u8> {
    raw.subrange(5, raw.len() - 6)
}

/// The raw name has the exact shape `user-<digits>.slice`.
pub open spec fn is_user_slice(raw: Seq<u8>) -> bool {
    &&& raw.len() >= 12
    &&& is_lit_at(raw, 0, user_prefix())
    &&& is_lit_at(raw, raw.len() - 6, slice_marker())
    &&& all_digits(uid_digits(raw))
}

/// The uid embedded in a `user-<uid>.slice` name, when the digits fit a
/// `u32`; names of any other shape carry none.
pub open spec fn uid_of(raw: Seq<u8>) -> Option<u32> {
    if is_user_slice(raw) && dec_value(uid_digits(raw)) <= u32::MAX {
        Some(dec_value(uid_digits(raw)) as u32)
    } else {
        None
    }
}

/// Extract the uid from a `user-<uid>.slice` name.
pub fn extract_uid(raw: &Vec<u8>) -> (r: Option<u32>)
    ensures
        r == uid_of(raw@),
{
    let n = raw.len();
    if n < 12 {
        return None;
    }
    if !(raw[0] == 117 && raw[1] == 115 && raw[2] == 101 && raw[3] == 114 && raw[4] == 45) {
        proof {
            assert(!is_lit_at(raw@, 0, user_prefix()));
        }
        return None;
    }
    proof {
        assert(is_lit_at(raw@, 0, user_prefix()));
    }
    if !(raw[n - 6] == 46 && raw[n - 5] == 115 && raw[n - 4] == 108 && raw[n - 3] == 105
        && raw[n - 2] == 99 && raw[n - 1] == 101) {
        proof {
            assert(!is_lit_at(raw@, raw@.len() - 6, slice_marker()));
        }
        return None;
    }
    proof {
        assert(is_lit_at(raw@, raw@.len() - 6, slice_marker()));
    }
    let digits = copy_range(raw, 5, n - 6);
    if digits[0] == 43 {
        // a leading '+' is not a digit, though the number parser accepts it
        proof {
            assert(!all_digits(uid_digits(raw@)));
        }
        return None;
    }
    match parse_u64(&digits) {
        Some(v) => {
            proof {
                assert(all_digits(uid_digits(raw@)));
                crate::bytes::lemma_dec_value_nonneg(uid_digits(raw@));
                assert(v == dec_value(uid_digits(raw@)));
            }
            if v <= 0xFFFF_FFFF {
                Some(v as u32)
            } else {
                None
            }
        },
        None => {
            proof {
                if all_digits(uid_digits(raw@)) {
                    assert(dec_value(uid_digits(raw@)) > u64::MAX);
                }
            }
            None
        },
    }
}

/// Display name a user entry gets once the host lookup's answer is known:
/// the resolved account name when the entry named a uid and the lookup
/// answered, the raw name otherwise.
pub open spec fn user_display_spec(raw: Seq<u8>, resolved: Option<Seq<u8>>) -> Seq<u8> {
    if uid_of(raw) is Some && resolved is Some {
        resolved->Some_0
    } else {
        raw
    }
}

/// Relies on users::get_user_by_uid: asks the host's user database for the
/// account owning `uid` and hands back its name's bytes; `None` when the id
/// is unknown or the name is not valid UTF-8. The answer depends on host
/// state, so nothing is promised of it.
#[verifier::external_body]
fn resolve_owner(uid: u32) -> Option<Vec<u8>> {
    users::get_user_by_uid(uid)
        .as_ref()
        .and_then(|u| u.name().to_str())
        .map(|n| n.as_bytes().to_vec())
}

/// Pure half of the user label policy, with the host's answer as an input.
pub fn apply_user_label(raw: Vec<u8>, resolved: Option<Vec<u8>>) -> (r: Vec<u8>)
    ensures
        r@ == user_display_spec(raw@, match resolved {
            Option::Some(v) => Option::Some(v@),
            Option::None => Option::None,
        }),
{
    let has_uid = extract_uid(&raw).is_some();
    match resolved {
        Some(v) => {
            if has_uid {
                v
            } else {
                raw
            }
        },
        None => raw,
    }
}

/// Display name of a user-category entry. A name without the uid shape is
/// kept unchanged; one with it becomes whatever labeling the host's answer
/// allows.
pub fn user_display_name(raw: &Vec<u8>) -> (r: Vec<u8>)
    ensures
        uid_of(raw@) is None ==> r@ == raw@,
        exists|res: Option<Seq<u8>>| r@ == user_display_spec(raw@, res),
{
    match extract_uid(raw) {
        None => {
            let r = clone_bytes(raw);
            proof {
                let res: Option<Seq<u8>> = Option::None;
                assert(r@ == user_display_spec(raw@, res));
            }
            r
        },
        Some(uid) => {
            let resolved = resolve_owner(uid);
            let ghost res: Option<Seq<u8>> = match &resolved {
                Option::Some(v) => Option::Some(v@),
                Option::None => Option::None,
            };
            let r = apply_user_label(clone_bytes(raw), resolved);
            proof {
                assert(r@ == user_display_spec(raw@, res));
            }
            r
        },
    }
}

} // verus!
