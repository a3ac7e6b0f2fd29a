//! Decimal formatting and small string helpers used for snapshot labels,
//! timestamps and destination paths.

use vstd::prelude::*;
use vstd::string::{StrSliceExecFns, StringExecFns};

verus! {

/// The ASCII digit for a value below ten.
pub open spec fn digit_char(d: nat) -> char {
    if d == 0 {
        '0'
    } else if d == 1 {
        '1'
    } else if d == 2 {
        '2'
    } else if d == 3 {
        '3'
    } else if d == 4 {
        '4'
    } else if d == 5 {
        '5'
    } else if d == 6 {
        '6'
    } else if d == 7 {
        '7'
    } else if d == 8 {
        '8'
    } else {
        '9'
    }
}

/// The decimal digits of `n`, most significant first, no leading zeroes.
pub open spec fn dec_seq(n: nat) -> Seq<char>
    decreases n,
{
    if n < 10 {
        seq![digit_char(n)]
    } else {
        dec_seq(n / 10).push(digit_char(n % 10))
    }
}

/// The decimal digits of `n` padded on the left to at least two digits.
pub open spec fn pad2_seq(n: nat) -> Seq<char> {
    if n < 10 {
        seq!['0', digit_char(n)]
    } else {
        dec_seq(n)
    }
}

fn digit_str(d: u64) -> (r: &'static str)
    requires
        d < 10,
    ensures
        r@ == seq![digit_char(d as nat)],
{
    let r: &'static str = if d == 0 {
        "0"
    } else if d == 1 {
        "1"
    } else if d == 2 {
        "2"
    } else if d == 3 {
        "3"
    } else if d == 4 {
        "4"
    } else if d == 5 {
        "5"
    } else if d == 6 {
        "6"
    } else if d == 7 {
        "7"
    } else if d == 8 {
        "8"
    } else {
        "9"
    };
    proof {
        reveal_strlit("0");
        reveal_strlit("1");
        reveal_strlit("2");
        reveal_strlit("3");
        reveal_strlit("4");
        reveal_strlit("5");
        reveal_strlit("6");
        reveal_strlit("7");
        reveal_strlit("8");
        reveal_strlit("9");
        assert(r@ =~= seq![digit_char(d as nat)]);
    }
    r
}

/// Format `n` in decimal, without padding.
pub fn u64_to_dec(n: u64) -> (s: String)
    ensures
        s@ == dec_seq(n as nat),
{
    let mut acc = String::new();
    let mut m = n;
    proof {
        assert(dec_seq(n as nat) + acc@ =~= dec_seq(n as nat));
    }
    while m >= 10
        invariant
            dec_seq(n as nat) == dec_seq(m as nat) + acc@,
        decreases m,
    {
        let ghost old_acc = acc@;
        let d = m % 10;
        acc = String::from_str(digit_str(d)).concat(acc.as_str());
        proof {
            assert(dec_seq(m as nat) == dec_seq(m as nat / 10).push(digit_char(m as nat % 10)));
            assert(dec_seq(m as nat / 10).push(digit_char(m as nat % 10)) =~= dec_seq(
                m as nat / 10,
            ) + seq![digit_char(d as nat)]);
            assert(dec_seq(m as nat / 10) + (seq![digit_char(d as nat)] + old_acc) =~= (dec_seq(
                m as nat / 10,
            ) + seq![digit_char(d as nat)]) + old_acc);
        }
        m = m / 10;
    }
    let s = String::from_str(digit_str(m)).concat(acc.as_str());
    proof {
        assert(dec_seq(m as nat) == seq![digit_char(m as nat)]);
        assert(s@ =~= dec_seq(n as nat));
    }
    s
}

/// Format `n` in decimal, left-padded with `0` to two digits.
pub fn pad2(n: u64) -> (s: String)
    requires
        n < 100,
    ensures
        s@ == pad2_seq(n as nat),
{
    if n < 10 {
        let s = String::from_str("0").concat(digit_str(n));
        proof {
            reveal_strlit("0");
            assert(s@ =~= pad2_seq(n as nat));
        }
        s
    } else {
        u64_to_dec(n)
    }
}

/// `s` with every `/` replaced by `_`, character for character.
pub open spec fn underscored(s: Seq<char>) -> Seq<char> {
    s.map_values(|c: char| if c == '/' { '_' } else { c })
}

/// Replace every `/` in `s` with `_` (dataset paths become file-name
/// stems this way).
pub fn replace_slashes(s: &str) -> (r: String)
    ensures
        r@ == underscored(s@),
{
    let mut acc = String::new();
    let n = s.unicode_len();
    let mut i: usize = 0;
    proof {
        assert(acc@ =~= underscored(s@.subrange(0, 0)));
    }
    while i < n
        invariant
            i <= n,
            n == s@.len(),
            acc@ == underscored(s@.subrange(0, i as int)),
        decreases n - i,
    {
        let c = s.get_char(i);
        let ghost old_acc = acc@;
        if c == '/' {
            acc.append("_");
        } else {
            acc = acc.concat(char_str(c).as_str());
        }
        proof {
            reveal_strlit("_");
            assert(s@.subrange(0, i + 1) =~= s@.subrange(0, i as int).push(s@[i as int]));
            assert(acc@ =~= underscored(s@.subrange(0, i + 1)));
        }
        i = i + 1;
    }
    proof {
        assert(s@.subrange(0, n as int) =~= s@);
    }
    acc
}

/// Character-for-character string equality.
pub fn str_eq(a: &str, b: &str) -> (r: bool)
    ensures
        r == (a@ == b@),
{
    let an = a.unicode_len();
    let bn = b.unicode_len();
    if an != bn {
        return false;
    }
    let mut i: usize = 0;
    while i < an
        invariant
            i <= an,
            an == a@.len(),
            an == b@.len(),
            forall|j: int| 0 <= j < i ==> a@[j] == b@[j],
        decreases an - i,
    {
        if a.get_char(i) != b.get_char(i) {
            return false;
        }
        i = i + 1;
    }
    proof {
        assert(a@ =~= b@);
    }
    true
}

/// A one-character string holding exactly `c`.
fn char_str(c: char) -> (r: String)
    ensures
        r@ == seq![c],
{
    let mut s = String::new();
    char_push(&mut s, c);
    proof {
        assert(s@ =~= seq![c]);
    }
    s
}

/// Relies on `alloc::string::String::push`: appends exactly the one
/// character to the end of the string.
#[verifier::external_body]
fn char_push(s: &mut String, c: char)
    ensures
        final (s)@ == old(s)@.push(c),
{
    s.push(c);
}

} // verus!
