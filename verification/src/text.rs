//! Collection display names.
//!
//! A generated collection is named `"{prefix}{key}% Aim / {100-key}% Tapping"`.
//! This module renders unsigned numbers in decimal, builds that name, and
//! tests a name for the configured prefix, all against sequence-of-character
//! specifications.

use vstd::prelude::*;

verus! {

/// The decimal digit character for a value below ten.
pub open spec fn digit_char(d: nat) -> char {
    if d == 0 {
        '0'
    } else if d == 1 {
        '1'
    } else if d == 2 {
        '2'
    } else if d == 3 {
        '3'
    } else if d == 4 {
        '4'
    } else if d == 5 {
        '5'
    } else if d == 6 {
        '6'
    } else if d == 7 {
        '7'
    } else if d == 8 {
        '8'
    } else {
        '9'
    }
}

/// The decimal rendering of `n`, most significant digit first, no leading
/// zeros (`0` itself renders as `"0"`).
pub open spec fn dec_rep(n: nat) -> Seq<char>
    decreases n,
{
    if n < 10 {
        seq![digit_char(n)]
    } else {
        dec_rep(n / 10) + seq![digit_char(n % 10)]
    }
}

/// The name given to the collection of a bucket: the configured prefix, then
/// the bucket key as an aim percentage, then the complementary tapping
/// percentage.
pub open spec fn collection_name_spec(prefix: Seq<char>, key: nat) -> Seq<char>
    recommends
        key <= 100,
{
    prefix + dec_rep(key) + "% Aim / "@ + dec_rep((100 - key) as nat) + "% Tapping"@
}

fn digit_str(d: u32) -> (s: &'static str)
    requires
        d < 10,
    ensures
        s@ == seq![digit_char(d as nat)],
{
    proof {
        reveal_strlit("0");
        reveal_strlit("1");
        reveal_strlit("2");
        reveal_strlit("3");
        reveal_strlit("4");
        reveal_strlit("5");
        reveal_strlit("6");
        reveal_strlit("7");
        reveal_strlit("8");
        reveal_strlit("9");
    }
    let s: &'static str = if d == 0 {
        "0"
    } else if d == 1 {
        "1"
    } else if d == 2 {
        "2"
    } else if d == 3 {
        "3"
    } else if d == 4 {
        "4"
    } else if d == 5 {
        "5"
    } else if d == 6 {
        "6"
    } else if d == 7 {
        "7"
    } else if d == 8 {
        "8"
    } else {
        "9"
    };
    proof {
        assert(s@ =~= seq![digit_char(d as nat)]);
    }
    s
}

/// Renders `n` in decimal.
pub fn u32_dec(n: u32) -> (s: String)
    ensures
        s@ == dec_rep(n as nat),
    decreases n,
{
    if n < 10 {
        digit_str(n).to_owned()
    } else {
        proof {
            assert(n / 10 < n) by (nonlinear_arith)
                requires
                    n >= 10,
            ;
        }
        let mut s = u32_dec(n / 10);
        s.append(digit_str(n % 10));
        s
    }
}

/// Whether `prefix` is a prefix of `s`, compared character by character.
pub fn str_has_prefix(s: &str, prefix: &str) -> (r: bool)
    ensures
        r == prefix@.is_prefix_of(s@),
{
    let n = prefix.unicode_len();
    if n > s.unicode_len() {
        return false;
    }
    let mut i: usize = 0;
    while i < n
        invariant
            n == prefix@.len(),
            n <= s@.len(),
            0 <= i <= n,
            forall|j: int| 0 <= j < i ==> s@[j] == prefix@[j],
        decreases n - i,
    {
        if s.get_char(i) != prefix.get_char(i) {
            proof {
                assert(s@.subrange(0, n as int)[i as int] == s@[i as int]);
            }
            return false;
        }
        i += 1;
    }
    proof {
        assert(prefix@ =~= s@.subrange(0, n as int));
    }
    true
}

/// Builds the display name of the collection for bucket `key`.
pub fn collection_name(prefix: &str, key: u32) -> (s: String)
    requires
        key <= 100,
    ensures
        s@ == collection_name_spec(prefix@, key as nat),
{
    let mut s = prefix.to_owned();
    s.append(u32_dec(key).as_str());
    s.append("% Aim / ");
    s.append(u32_dec(100 - key).as_str());
    s.append("% Tapping");
    s
}

/// Every generated collection name carries the prefix it was built from: the
/// ground for never mistaking a user-created collection for a generated one.
pub proof fn lemma_collection_name_prefixed(prefix: Seq<char>, key: nat)
    ensures
        prefix.is_prefix_of(collection_name_spec(prefix, key)),
{
    let name = collection_name_spec(prefix, key);
    assert(prefix =~= name.subrange(0, prefix.len() as int));
}

} // verus!
