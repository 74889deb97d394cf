//! Identity strings. Under the `Increment` strategy an identity is the
//! decimal form of a counter that only grows; this module pins that form
//! down, proves it injective, and wraps the UUID generator.

use vstd::prelude::*;
use vstd::string::*;

verus! {

/// The decimal digit character for `d`.
pub open spec fn dec_digit(d: nat) -> char
    recommends
        d < 10,
{
    if d == 0 {
        '0'
    } else if d == 1 {
        '1'
    } else if d == 2 {
        '2'
    } else if d == 3 {
        '3'
    } else if d == 4 {
        '4'
    } else if d == 5 {
        '5'
    } else if d == 6 {
        '6'
    } else if d == 7 {
        '7'
    } else if d == 8 {
        '8'
    } else {
        '9'
    }
}

/// The value of a decimal digit character.
pub open spec fn digit_val(c: char) -> nat {
    if c == '0' {
        0
    } else if c == '1' {
        1
    } else if c == '2' {
        2
    } else if c == '3' {
        3
    } else if c == '4' {
        4
    } else if c == '5' {
        5
    } else if c == '6' {
        6
    } else if c == '7' {
        7
    } else if c == '8' {
        8
    } else {
        9
    }
}

/// The decimal representation of `n`, most significant digit first, with no
/// leading zeros (`0` is written as one digit).
pub open spec fn dec_rep(n: nat) -> Seq<char>
    decreases n,
{
    if n < 10 {
        seq![dec_digit(n)]
    } else {
        dec_rep(n / 10).push(dec_digit(n % 10))
    }
}

/// The number a digit sequence denotes.
pub open spec fn dec_val(s: Seq<char>) -> nat
    decreases s.len(),
{
    if s.len() == 0 {
        0
    } else {
        dec_val(s.drop_last()) * 10 + digit_val(s.last())
    }
}

/// Reading the decimal representation back gives the number.
pub proof fn lemma_dec_rep_val(n: nat)
    ensures
        dec_val(dec_rep(n)) == n,
    decreases n,
{
    if n < 10 {
        assert(dec_rep(n) == seq![dec_digit(n)]);
        assert(seq![dec_digit(n)].drop_last() =~= Seq::<char>::empty());
        assert(digit_val(dec_digit(n)) == n);
        assert(dec_val(seq![dec_digit(n)]) == dec_val(Seq::<char>::empty()) * 10 + digit_val(
            dec_digit(n),
        ));
    } else {
        lemma_dec_rep_val(n / 10);
        assert(dec_rep(n) == dec_rep(n / 10).push(dec_digit(n % 10)));
        assert(dec_rep(n).drop_last() =~= dec_rep(n / 10));
        assert(dec_rep(n).last() == dec_digit(n % 10));
        assert(digit_val(dec_digit(n % 10)) == n % 10);
        assert(n / 10 * 10 + n % 10 == n) by {
            vstd::arithmetic::div_mod::lemma_fundamental_div_mod(n as int, 10);
        }
    }
}

/// Distinct numbers have distinct decimal representations.
pub proof fn lemma_dec_rep_injective(a: nat, b: nat)
    ensures
        a != b ==> dec_rep(a) != dec_rep(b),
{
    lemma_dec_rep_val(a);
    lemma_dec_rep_val(b);
}

/// Identities generated under the `Increment` strategy never repeat and grow
/// strictly: an insert returns the decimal form of the collection's counter
/// and leaves the counter strictly larger, so of two identities generated in
/// order, the later one denotes the strictly larger number and the two are
/// never equal.
pub proof fn lemma_increment_identities_increase(n1: nat, n2: nat)
    requires
        n1 < n2,
    ensures
        dec_rep(n1) != dec_rep(n2),
        dec_val(dec_rep(n1)) < dec_val(dec_rep(n2)),
{
    lemma_dec_rep_val(n1);
    lemma_dec_rep_val(n2);
    lemma_dec_rep_injective(n1, n2);
}

/// The one-character string for a decimal digit.
fn digit_str(d: u64) -> (s: &'static str)
    requires
        d < 10,
    ensures
        s@ == seq![dec_digit(d as nat)],
{
    let s: &'static str = match d {
        0 => "0",
        1 => "1",
        2 => "2",
        3 => "3",
        4 => "4",
        5 => "5",
        6 => "6",
        7 => "7",
        8 => "8",
        _ => "9",
    };
    proof {
        reveal_strlit("0");
        reveal_strlit("1");
        reveal_strlit("2");
        reveal_strlit("3");
        reveal_strlit("4");
        reveal_strlit("5");
        reveal_strlit("6");
        reveal_strlit("7");
        reveal_strlit("8");
        reveal_strlit("9");
        assert(s@ =~= seq![dec_digit(d as nat)]);
    }
    s
}

/// The decimal form of `n`, matching `dec_rep`.
pub fn u64_to_dec(n: u64) -> (s: String)
    ensures
        s@ == dec_rep(n as nat),
    decreases n,
{
    if n < 10 {
        let s = digit_str(n).to_owned();
        proof {
            assert(s@ =~= dec_rep(n as nat));
        }
        s
    } else {
        let mut s = u64_to_dec(n / 10);
        s.append(digit_str(n % 10));
        proof {
            assert(s@ =~= dec_rep((n / 10) as nat).push(dec_digit((n % 10) as nat)));
        }
        s
    }
}

/// Relies on `uuid::Uuid::new_v4` and its display form: a fresh random UUID
/// rendered in the hyphenated format, which is always 36 characters. Nothing
/// is assumed about which UUID comes out.
#[verifier::external_body]
pub(crate) fn new_uuid_string() -> (r: String)
    ensures
        r@.len() == 36,
{
    uuid::Uuid::new_v4().to_string()
}

} // verus!
