use vstd::prelude::*;

verus! {

/// ASCII lower-casing of a single byte; other bytes are unchanged.
pub open spec fn ascii_lower(b: u8) -> u8 {
    if 65 <= b <= 90 {
        (b + 32) as u8
    } else {
        b
    }
}

/// Byte-wise equality up to ASCII case.
pub open spec fn eq_ignore_ascii_case(a: Seq<u8>, b: Seq<u8>) -> bool {
    &&& a.len() == b.len()
    &&& forall|i: int| 0 <= i < a.len() ==> ascii_lower(#[trigger] a[i]) == ascii_lower(b[i])
}

fn lower_byte(b: u8) -> (r: u8)
    ensures
        r == ascii_lower(b),
{
    if 65 <= b && b <= 90 {
        b + 32
    } else {
        b
    }
}

/// Compares two byte strings, ignoring ASCII case.
pub fn bytes_eq_ignore_ascii_case(a: &[u8], b: &[u8]) -> (r: bool)
    ensures
        r == eq_ignore_ascii_case(a@, b@),
{
    if a.len() != b.len() {
        return false;
    }
    let mut i: usize = 0;
    while i < a.len()
        invariant
            a@.len() == b@.len(),
            i <= a@.len(),
            forall|j: int| 0 <= j < i ==> ascii_lower(#[trigger] a@[j]) == ascii_lower(b@[j]),
        decreases a@.len() - i,
    {
        if lower_byte(a[i]) != lower_byte(b[i]) {
            return false;
        }
        i = i + 1;
    }
    true
}


/// `k` is where the extension of `s` starts: just past a dot that lies in the final
/// path component, is not that component's first byte, and is followed by no other
/// dot or separator.
pub open spec fn is_extension_start(s: Seq<u8>, k: int) -> bool {
    &&& 2 <= k <= s.len()
    &&& s[k - 1] == DOT
    &&& s[k - 2] != SLASH
    &&& forall|j: int| k <= j < s.len() ==> #[trigger] s[j] != DOT && s[j] != SLASH
}

/// `s` has an extension equal to `ext` up to ASCII case.
pub open spec fn extension_matches(s: Seq<u8>, ext: Seq<u8>) -> bool {
    exists|k: int| is_extension_start(s, k) && eq_ignore_ascii_case(#[trigger] s.subrange(k, s.len() as int), ext)
}

pub const DOT: u8 = 46;

pub const SLASH: u8 = 47;

/// Finds where the extension of a path starts, if it has one.
pub fn extension_start(s: &[u8]) -> (r: Option<usize>)
    ensures
        match r {
            Some(k) => is_extension_start(s@, k as int),
            None => forall|k: int| !is_extension_start(s@, k),
        },
{
    let mut i: usize = s.len();
    while i > 0 && s[i - 1] != DOT && s[i - 1] != SLASH
        invariant
            i <= s@.len(),
            forall|j: int| i <= j < s@.len() ==> #[trigger] s@[j] != DOT && s@[j] != SLASH,
        decreases i,
    {
        i = i - 1;
    }
    if i >= 2 && s[i - 1] == DOT && s[i - 2] != SLASH {
        Some(i)
    } else {
        assert forall|k: int| !is_extension_start(s@, k) by {
            if is_extension_start(s@, k) && k != i {
                if k < i {
                    assert(s@[i - 1] == DOT || s@[i - 1] == SLASH);
                    assert(k <= i - 1);
                } else {
                    assert(s@[k - 1] != DOT);
                }
            }
        }
        None
    }
}

proof fn lemma_extension_start_unique(s: Seq<u8>, k1: int, k2: int)
    requires
        is_extension_start(s, k1),
        is_extension_start(s, k2),
    ensures
        k1 == k2,
{
    if k1 < k2 {
        assert(s[k2 - 1] != DOT);
    } else if k2 < k1 {
        assert(s[k1 - 1] != DOT);
    }
}

/// Decides whether the path `name` has the extension `ext`, ignoring ASCII case.
/// A path without an extension matches nothing.
pub fn has_extension(name: &[u8], ext: &[u8]) -> (r: bool)
    ensures
        r == extension_matches(name@, ext@),
{
    match extension_start(name) {
        None => false,
        Some(k) => {
            let (_, tail) = name.split_at(k);
            assert(tail@ == name@.subrange(k as int, name@.len() as int));
            let r = bytes_eq_ignore_ascii_case(tail, ext);
            assert forall|k2: int| #[trigger] is_extension_start(name@, k2) implies k2 == k by {
                lemma_extension_start_unique(name@, k as int, k2);
            }
            r
        },
    }
}

/// Extension matching ignores ASCII case: two allowlist extensions that differ only in
/// case match the same paths.
pub proof fn lemma_match_ignores_case(s: Seq<u8>, e1: Seq<u8>, e2: Seq<u8>)
    requires
        eq_ignore_ascii_case(e1, e2),
    ensures
        extension_matches(s, e1) == extension_matches(s, e2),
{
    if extension_matches(s, e1) {
        let k = choose|k: int| is_extension_start(s, k) && eq_ignore_ascii_case(#[trigger] s.subrange(k, s.len() as int), e1);
        let t = s.subrange(k, s.len() as int);
        assert forall|i: int| 0 <= i < t.len() implies ascii_lower(#[trigger] t[i]) == ascii_lower(e2[i]) by {
            assert(ascii_lower(t[i]) == ascii_lower(e1[i]));
        }
        assert(eq_ignore_ascii_case(t, e2));
    }
    if extension_matches(s, e2) {
        let k = choose|k: int| is_extension_start(s, k) && eq_ignore_ascii_case(#[trigger] s.subrange(k, s.len() as int), e2);
        let t = s.subrange(k, s.len() as int);
        assert forall|i: int| 0 <= i < t.len() implies ascii_lower(#[trigger] t[i]) == ascii_lower(e1[i]) by {
            assert(ascii_lower(t[i]) == ascii_lower(e2[i]));
        }
        assert(eq_ignore_ascii_case(t, e1));
    }
}

} // verus!
