//! Expression profile names: a name becomes a file name in the profiles
//! directory, so it must not reach outside it.

use vstd::prelude::*;
use vstd::string::StringSliceAdditionalSpecFns;

verus! {

/// Longest accepted name, in UTF-8 bytes.
pub const MAX_PROFILE_NAME_BYTES: usize = 64;

/// Whether the bytes hold `b` somewhere.
pub open spec fn has_byte(s: Seq<u8>, b: u8) -> bool {
    exists|i: int| 0 <= i < s.len() && s[i] == b
}

/// Whether the bytes hold two dots in a row.
pub open spec fn has_dot_dot(s: Seq<u8>) -> bool {
    exists|i: int| 0 <= i < s.len() - 1 && #[trigger] s[i] == 0x2E && s[i + 1] == 0x2E
}

/// Whether position `k` starts a forbidden character or "..".
pub open spec fn bad_at(s: Seq<u8>, k: int) -> bool {
    s[k] == 0x2F || s[k] == 0x5C || s[k] == 0 || (k + 1 < s.len() && s[k] == 0x2E && s[k + 1] == 0x2E)
}

/// Which check a name fails, if any: empty; a '/', '\\', ".." or NUL in
/// it; longer than 64 bytes. (The forbidden characters are ASCII, so they
/// are in the name exactly when their bytes are in its UTF-8 encoding.)
pub open spec fn name_problem(s: Seq<u8>) -> Option<Seq<char>> {
    if s.len() == 0 {
        Some("Profile name cannot be empty"@)
    } else if has_byte(s, 0x2F) || has_byte(s, 0x5C) || has_dot_dot(s) || has_byte(s, 0) {
        Some("Profile name contains invalid characters"@)
    } else if s.len() > MAX_PROFILE_NAME_BYTES {
        Some("Profile name too long (max 64 chars)"@)
    } else {
        None
    }
}

/// Check a profile name before it is used as a file name.
pub fn sanitize_name(name: &str) -> (r: Result<(), &'static str>)
    ensures
        match name_problem(name.spec_bytes()) {
            None => r is Ok,
            Some(msg) => r matches Err(e) && e@ == msg,
        },
{
    let bytes = name.as_bytes();
    let n = bytes.len();
    if n == 0 {
        return Err("Profile name cannot be empty");
    }
    let mut bad = false;
    let mut i: usize = 0;
    while i < n
        invariant
            n == bytes@.len(),
            bytes@ == name.spec_bytes(),
            i <= n,
            bad == (exists|k: int| 0 <= k < i && #[trigger] bad_at(bytes@, k)),
        decreases n - i,
    {
        let b = bytes[i];
        if b == 0x2F || b == 0x5C || b == 0 || (i + 1 < n && b == 0x2E && bytes[i + 1] == 0x2E) {
            bad = true;
        }
        assert(bad_at(bytes@, i as int) == (b == 0x2F || b == 0x5C || b == 0 || (i + 1 < n && b == 0x2E
            && bytes@[i + 1] == 0x2E)));
        i = i + 1;
    }
    proof {
        let s = bytes@;
        if bad {
            let k = choose|k: int| 0 <= k < n && #[trigger] bad_at(s, k);
            if s[k] == 0x2F {
                assert(has_byte(s, 0x2F));
            } else if s[k] == 0x5C {
                assert(has_byte(s, 0x5C));
            } else if s[k] == 0 {
                assert(has_byte(s, 0));
            } else {
                assert(has_dot_dot(s));
            }
        } else {
            assert forall|k: int| 0 <= k < s.len() implies s[k] != 0x2F && s[k] != 0x5C && s[k] != 0 by {
                assert(!bad_at(s, k));
            }
            assert forall|k: int| 0 <= k < s.len() - 1 implies !(#[trigger] s[k] == 0x2E && s[k + 1] == 0x2E) by {
                assert(!bad_at(s, k));
            }
        }
    }
    if bad {
        return Err("Profile name contains invalid characters");
    }
    if n > MAX_PROFILE_NAME_BYTES {
        return Err("Profile name too long (max 64 chars)");
    }
    Ok(())
}

} // verus!
