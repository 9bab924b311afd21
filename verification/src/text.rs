//! Character-level text helpers: string comparison and conversion, and the
//! decimal notation of unsigned integers.

use vstd::prelude::*;

verus! {

/// Whether two string slices hold the same characters.
pub fn str_eq(a: &str, b: &str) -> (r: bool)
    ensures
        r == (a@ == b@),
{
    let la: usize = a.unicode_len();
    let lb: usize = b.unicode_len();
    if la != lb {
        return false;
    }
    let mut i: usize = 0;
    while i < la
        invariant
            la == a@.len(),
            la == b@.len(),
            i <= la,
            forall|j: int| 0 <= j < i ==> a@[j] == b@[j],
        decreases la - i,
    {
        if a.get_char(i) != b.get_char(i) {
            return false;
        }
        i += 1;
    }
    proof {
        assert(a@ =~= b@);
    }
    true
}

/// Append every character of `s` to `v`, in order.
pub fn push_str_chars(v: &mut Vec<char>, s: &str)
    ensures
        final(v)@ == old(v)@ + s@,
{
    let n: usize = s.unicode_len();
    let mut i: usize = 0;
    while i < n
        invariant
            n == s@.len(),
            i <= n,
            v@ == old(v)@ + s@.subrange(0, i as int),
        decreases n - i,
    {
        let c = s.get_char(i);
        v.push(c);
        proof {
            assert(old(v)@ + s@.subrange(0, i as int) + seq![s@[i as int]] =~= old(v)@
                + s@.subrange(0, i + 1));
        }
        i += 1;
    }
    proof {
        assert(s@.subrange(0, n as int) =~= s@);
    }
}

/// The characters of `s`, as a vector.
pub fn str_to_chars(s: &str) -> (r: Vec<char>)
    ensures
        r@ == s@,
{
    let mut v: Vec<char> = Vec::new();
    push_str_chars(&mut v, s);
    proof {
        assert(Seq::<char>::empty() + s@ =~= s@);
    }
    v
}

/// Relies on `String`'s `FromIterator` impl in std: collecting a sequence of
/// characters yields the string of exactly those characters, in order.
#[verifier::external_body]
pub fn chars_to_string(v: &Vec<char>) -> (r: String)
    ensures
        r@ == v@,
{
    v.iter().collect()
}

/// Whether `c` is a decimal digit.
pub open spec fn is_digit(c: char) -> bool {
    '0' <= c && c <= '9'
}

/// The numeric value of a decimal digit character.
pub open spec fn digit_val(c: char) -> int {
    c as int - '0' as int
}

/// The decimal digit character for a value below ten.
pub open spec fn digit_char(d: int) -> char {
    if d == 0 {
        '0'
    } else if d == 1 {
        '1'
    } else if d == 2 {
        '2'
    } else if d == 3 {
        '3'
    } else if d == 4 {
        '4'
    } else if d == 5 {
        '5'
    } else if d == 6 {
        '6'
    } else if d == 7 {
        '7'
    } else if d == 8 {
        '8'
    } else {
        '9'
    }
}

/// The number denoted by a sequence of decimal digit characters, most
/// significant first (the empty sequence denotes zero).
pub open spec fn seq_to_int(s: Seq<char>) -> int
    decreases s.len(),
{
    if s.len() == 0 {
        0
    } else {
        seq_to_int(s.drop_last()) * 10 + digit_val(s.last())
    }
}

/// The decimal notation of `n`: no sign, no leading zero (except for zero
/// itself).
pub open spec fn spec_dec(n: nat) -> Seq<char>
    decreases n,
{
    if n < 10 {
        seq![digit_char(n as int)]
    } else {
        spec_dec(n / 10).push(digit_char((n % 10) as int))
    }
}

/// A digit character denotes its digit.
pub proof fn lemma_digit_char_val(d: int)
    requires
        0 <= d < 10,
    ensures
        digit_val(digit_char(d)) == d,
        is_digit(digit_char(d)),
{
}

/// The decimal notation of `n` is non-empty, consists of digits alone, and
/// denotes `n`.
pub proof fn lemma_dec_denotes(n: nat)
    ensures
        spec_dec(n).len() >= 1,
        forall|i: int| 0 <= i < spec_dec(n).len() ==> is_digit(#[trigger] spec_dec(n)[i]),
        seq_to_int(spec_dec(n)) == n,
    decreases n,
{
    if n < 10 {
        lemma_digit_char_val(n as int);
        assert(spec_dec(n) =~= seq![digit_char(n as int)]);
        assert(spec_dec(n).drop_last() =~= Seq::<char>::empty());
        assert(seq_to_int(Seq::<char>::empty()) == 0);
        assert(spec_dec(n).last() == digit_char(n as int));
        assert(seq_to_int(spec_dec(n)) == seq_to_int(spec_dec(n).drop_last()) * 10 + digit_val(
            spec_dec(n).last(),
        ));
    } else {
        lemma_dec_denotes(n / 10);
        lemma_digit_char_val((n % 10) as int);
        let d = spec_dec(n / 10);
        assert(spec_dec(n) == d.push(digit_char((n % 10) as int)));
        assert(d.push(digit_char((n % 10) as int)).drop_last() =~= d);
        assert(seq_to_int(spec_dec(n)) == seq_to_int(d) * 10 + digit_val(digit_char((n % 10) as int)));
    }
}

/// The decimal notation never pads with a leading zero: only zero itself
/// begins with one, and its notation is the single digit.
pub proof fn lemma_dec_no_leading_zero(n: nat)
    ensures
        spec_dec(n)[0] == '0' ==> n == 0,
        n == 0 ==> spec_dec(n).len() == 1,
    decreases n,
{
    if n < 10 {
        lemma_digit_char_val(n as int);
    } else {
        lemma_dec_denotes(n / 10);
        lemma_dec_no_leading_zero(n / 10);
        assert(spec_dec(n)[0] == spec_dec(n / 10)[0]);
    }
}

/// The decimal digit character for `d`.
pub fn digit_char_exec(d: u64) -> (c: char)
    requires
        d < 10,
    ensures
        c == digit_char(d as int),
{
    match d {
        0 => '0',
        1 => '1',
        2 => '2',
        3 => '3',
        4 => '4',
        5 => '5',
        6 => '6',
        7 => '7',
        8 => '8',
        _ => '9',
    }
}

/// Append the decimal notation of `n` to `v`.
pub fn push_dec(v: &mut Vec<char>, n: u64)
    ensures
        final(v)@ == old(v)@ + spec_dec(n as nat),
    decreases n,
{
    if n < 10 {
        let c = digit_char_exec(n);
        v.push(c);
        proof {
            assert(old(v)@.push(c) =~= old(v)@ + spec_dec(n as nat));
        }
    } else {
        push_dec(v, n / 10);
        let c = digit_char_exec(n % 10);
        v.push(c);
        proof {
            assert((old(v)@ + spec_dec((n / 10) as nat)).push(c) =~= old(v)@ + spec_dec(
                n as nat,
            ));
        }
    }
}

} // verus!
