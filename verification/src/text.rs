use vstd::prelude::*;

verus! {

use vstd::string::StrSliceExecFns;
use vstd::string::StringExecFns;

/// The character for one decimal digit.
pub open spec fn dec_digit(d: int) -> char
    recommends
        0 <= d < 10,
{
    if d == 0 {
        '0'
    } else if d == 1 {
        '1'
    } else if d == 2 {
        '2'
    } else if d == 3 {
        '3'
    } else if d == 4 {
        '4'
    } else if d == 5 {
        '5'
    } else if d == 6 {
        '6'
    } else if d == 7 {
        '7'
    } else if d == 8 {
        '8'
    } else {
        '9'
    }
}

/// The decimal rendering of a number, most significant digit first.
pub open spec fn dec_str(n: nat) -> Seq<char>
    decreases n,
{
    if n < 10 {
        seq![dec_digit(n as int)]
    } else {
        dec_str(n / 10).push(dec_digit((n % 10) as int))
    }
}

fn digit_str(d: u64) -> (s: &'static str)
    requires
        d < 10,
    ensures
        s@ == seq![dec_digit(d as int)],
{
    proof {
        reveal_strlit("0");
        reveal_strlit("1");
        reveal_strlit("2");
        reveal_strlit("3");
        reveal_strlit("4");
        reveal_strlit("5");
        reveal_strlit("6");
        reveal_strlit("7");
        reveal_strlit("8");
        reveal_strlit("9");
    }
    let s = if d == 0 {
        "0"
    } else if d == 1 {
        "1"
    } else if d == 2 {
        "2"
    } else if d == 3 {
        "3"
    } else if d == 4 {
        "4"
    } else if d == 5 {
        "5"
    } else if d == 6 {
        "6"
    } else if d == 7 {
        "7"
    } else if d == 8 {
        "8"
    } else {
        "9"
    };
    proof {
        assert(s@ =~= seq![dec_digit(d as int)]);
    }
    s
}

/// Renders a number in decimal.
pub fn u64_to_string(n: u64) -> (s: String)
    ensures
        s@ == dec_str(n as nat),
    decreases n,
{
    if n < 10 {
        digit_str(n).to_owned()
    } else {
        let mut s = u64_to_string(n / 10);
        s.append(digit_str(n % 10));
        proof {
            assert(dec_str((n / 10) as nat) + seq![dec_digit((n % 10) as int)] =~= dec_str(
                (n / 10) as nat,
            ).push(dec_digit((n % 10) as int)));
        }
        s
    }
}

/// Whether `needle` occurs as a contiguous run of characters in `hay`.
pub open spec fn contains_seq(hay: Seq<char>, needle: Seq<char>) -> bool {
    exists|i: int|
        0 <= i <= hay.len() - needle.len() && #[trigger] hay.subrange(i, i + needle.len() as int)
            == needle
}

fn match_at(hay: &str, needle: &str, at: usize, nlen: usize) -> (r: bool)
    requires
        nlen == needle@.len(),
        at + nlen <= hay@.len(),
        at + nlen <= usize::MAX,
    ensures
        r == (hay@.subrange(at as int, at as int + nlen as int) == needle@),
{
    let mut j: usize = 0;
    while j < nlen
        invariant
            j <= nlen,
            nlen == needle@.len(),
            at + nlen <= hay@.len(),
            at + nlen <= usize::MAX,
            forall|t: int| 0 <= t < j ==> hay@[at + t] == needle@[t],
        decreases nlen - j,
    {
        if hay.get_char(at + j) != needle.get_char(j) {
            proof {
                assert(hay@.subrange(at as int, at as int + nlen as int)[j as int] == hay@[at + j]);
            }
            return false;
        }
        j = j + 1;
    }
    proof {
        assert(hay@.subrange(at as int, at as int + nlen as int) =~= needle@);
    }
    true
}

/// Verified substring search, character by character.
pub fn str_contains(hay: &str, needle: &str) -> (r: bool)
    ensures
        r == contains_seq(hay@, needle@),
{
    let hlen = hay.unicode_len();
    let nlen = needle.unicode_len();
    if nlen > hlen {
        return false;
    }
    if nlen == 0 {
        proof {
            assert(hay@.subrange(0, 0 + needle@.len() as int) =~= needle@);
        }
        return true;
    }
    let mut i: usize = 0;
    while i <= hlen - nlen
        invariant
            hlen == hay@.len(),
            nlen == needle@.len(),
            1 <= nlen <= hlen,
            i <= hlen - nlen + 1,
            forall|t: int|
                0 <= t < i ==> #[trigger] hay@.subrange(t, t + nlen as int) != needle@,
        decreases hlen + 1 - nlen - i,
    {
        if match_at(hay, needle, i, nlen) {
            proof {
                assert(hay@.subrange(i as int, i as int + needle@.len() as int) == needle@);
            }
            return true;
        }
        i = i + 1;
    }
    proof {
        assert forall|t: int| 0 <= t <= hay@.len() - needle@.len() implies #[trigger] hay@.subrange(
            t,
            t + needle@.len() as int,
        ) != needle@ by {
            assert(t < i);
        }
    }
    false
}

/// Rendering of a large count: at least ten million rounds to whole
/// millions; at least one million to millions with one decimal; the same
/// again for thousands; smaller counts in full.
pub open spec fn count_str(n: nat) -> Seq<char> {
    if n >= 10000000 {
        dec_str((n + 500000) / 1000000) + "m"@
    } else if n >= 1000000 {
        dec_str(((n + 50000) / 100000) / 10) + "."@ + dec_str(((n + 50000) / 100000) % 10) + "m"@
    } else if n >= 10000 {
        dec_str((n + 500) / 1000) + "k"@
    } else if n >= 1000 {
        dec_str(((n + 50) / 100) / 10) + "."@ + dec_str(((n + 50) / 100) % 10) + "k"@
    } else {
        dec_str(n)
    }
}

/// Formats a large count compactly.
pub fn format_count(n: u64) -> (s: String)
    ensures
        s@ == count_str(n as nat),
{
    if n >= 10000000 {
        let whole = ((n as u128 + 500000) / 1000000) as u64;
        let mut s = u64_to_string(whole);
        s.append("m");
        s
    } else if n >= 1000000 {
        let tenths = (n + 50000) / 100000;
        let mut s = u64_to_string(tenths / 10);
        s.append(".");
        s.append(u64_to_string(tenths % 10).as_str());
        s.append("m");
        s
    } else if n >= 10000 {
        let mut s = u64_to_string((n + 500) / 1000);
        s.append("k");
        s
    } else if n >= 1000 {
        let tenths = (n + 50) / 100;
        let mut s = u64_to_string(tenths / 10);
        s.append(".");
        s.append(u64_to_string(tenths % 10).as_str());
        s.append("k");
        s
    } else {
        u64_to_string(n)
    }
}

} // verus!
