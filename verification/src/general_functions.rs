//! Small pure helpers shared across the passes: alignment arithmetic and
//! decimal rendering of the numbers that appear in emitted assembly text.

use vstd::prelude::*;
use vstd::string::StrSliceExecFns;
use vstd::string::StringExecFns;

verus! {

/// `mem` rounded up to the next multiple of `alignment`.
pub open spec fn spec_align(mem: nat, alignment: nat) -> nat {
    if mem % alignment == 0 {
        mem
    } else {
        (mem + alignment - mem % alignment) as nat
    }
}

/// Rounds `mem` up to the next multiple of `alignment`: the least multiple
/// of `alignment` that is at least `mem`.
pub fn align_memory(mem: usize, alignment: usize) -> (r: usize)
    requires
        alignment > 0,
        mem + alignment <= usize::MAX,
    ensures
        r == spec_align(mem as nat, alignment as nat),
        r % alignment == 0,
        mem <= r < mem + alignment,
{
    let rem = mem % alignment;
    proof {
        let m = mem as int;
        let a = alignment as int;
        vstd::arithmetic::div_mod::lemma_fundamental_div_mod(m, a);
        if m % a != 0 {
            assert(m + (a - m % a) == a * (m / a + 1)) by (nonlinear_arith)
                requires
                    m == a * (m / a) + m % a,
            ;
            assert((a * (m / a + 1)) % a == 0) by (nonlinear_arith)
                requires
                    a > 0,
            ;
        }
    }
    if rem == 0 {
        mem
    } else {
        mem + (alignment - rem)
    }
}

/// Character-wise string comparison: equality of the two views.
pub fn str_eq(a: &str, b: &str) -> (r: bool)
    ensures
        r == (a@ == b@),
{
    let alen = a.unicode_len();
    let blen = b.unicode_len();
    if alen != blen {
        assert(a@ != b@);
        return false;
    }
    for i in 0..alen
        invariant
            alen == a@.len(),
            alen == b@.len(),
            forall|j: int| 0 <= j < i ==> a@[j] == b@[j],
    {
        if a.get_char(i) != b.get_char(i) {
            return false;
        }
    }
    proof {
        assert(a@ =~= b@);
    }
    true
}

/// The character for one decimal digit.
pub open spec fn dec_digit(d: nat) -> char {
    if d == 0 {
        '0'
    } else if d == 1 {
        '1'
    } else if d == 2 {
        '2'
    } else if d == 3 {
        '3'
    } else if d == 4 {
        '4'
    } else if d == 5 {
        '5'
    } else if d == 6 {
        '6'
    } else if d == 7 {
        '7'
    } else if d == 8 {
        '8'
    } else {
        '9'
    }
}

/// The decimal digits of `n`, most significant first.
pub open spec fn dec_digits(n: nat) -> Seq<char>
    decreases n,
{
    if n < 10 {
        seq![dec_digit(n)]
    } else {
        dec_digits(n / 10).push(dec_digit(n % 10))
    }
}

/// The decimal rendering of a possibly negative number, with a leading `-`.
pub open spec fn dec_int(n: int) -> Seq<char> {
    if n >= 0 {
        dec_digits(n as nat)
    } else {
        seq!['-'] + dec_digits((-n) as nat)
    }
}

fn dec_digit_str(d: u64) -> (s: &'static str)
    requires
        d < 10,
    ensures
        s@ =~= seq![dec_digit(d as nat)],
{
    proof {
        reveal_strlit("0");
        reveal_strlit("1");
        reveal_strlit("2");
        reveal_strlit("3");
        reveal_strlit("4");
        reveal_strlit("5");
        reveal_strlit("6");
        reveal_strlit("7");
        reveal_strlit("8");
        reveal_strlit("9");
    }
    match d {
        0 => "0",
        1 => "1",
        2 => "2",
        3 => "3",
        4 => "4",
        5 => "5",
        6 => "6",
        7 => "7",
        8 => "8",
        _ => "9",
    }
}

/// Renders `n` in decimal.
pub fn u64_to_dec(n: u64) -> (s: String)
    ensures
        s@ == dec_digits(n as nat),
    decreases n,
{
    if n < 10 {
        String::from_str(dec_digit_str(n))
    } else {
        let mut s = u64_to_dec(n / 10);
        s.append(dec_digit_str(n % 10));
        s
    }
}

/// Renders `n` in decimal.
pub fn usize_to_dec(n: usize) -> (s: String)
    ensures
        s@ == dec_digits(n as nat),
{
    u64_to_dec(n as u64)
}

/// Renders `n` in decimal, with a leading `-` when it is negative.
pub fn i32_to_dec(n: i32) -> (s: String)
    ensures
        s@ == dec_int(n as int),
{
    if n >= 0 {
        u64_to_dec(n as u64)
    } else {
        proof {
            reveal_strlit("-");
        }
        let mut s = String::from_str("-");
        let magnitude = u64_to_dec((-(n as i64)) as u64);
        s.append(magnitude.as_str());
        assert(s@ =~= dec_int(n as int));
        s
    }
}

} // verus!
