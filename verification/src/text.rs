//! Small verified text helpers: string comparison and decimal formatting,
//! used to build error reports and framed output.

use vstd::prelude::*;

verus! {

/// Relies on String::push: appends exactly one character at the end.
#[verifier::external_body]
pub fn push_char(s: &mut String, c: char)
    ensures
        final(s)@ == old(s)@.push(c),
{
    s.push(c);
}

/// Character-by-character string equality.
pub fn str_eq(a: &str, b: &str) -> (r: bool)
    ensures
        r <==> a@ =~= b@,
{
    let na = a.unicode_len();
    let nb = b.unicode_len();
    if na != nb {
        return false;
    }
    let mut k: usize = 0;
    while k < na
        invariant
            na == a@.len(),
            nb == b@.len(),
            na == nb,
            0 <= k <= na,
            forall|j: int| 0 <= j < k ==> a@[j] == b@[j],
        decreases na - k,
    {
        if a.get_char(k) != b.get_char(k) {
            return false;
        }
        k += 1;
    }
    true
}

/// Sequences of different lengths differ.
pub proof fn lemma_seq_neq_len<A>(a: Seq<A>, b: Seq<A>)
    requires
        a.len() != b.len(),
    ensures
        a != b,
{
    if a == b {
        assert(a.len() == b.len());
    }
}

/// Sequences that differ at one position differ.
pub proof fn lemma_seq_neq_at<A>(a: Seq<A>, b: Seq<A>, i: int)
    requires
        0 <= i < a.len(),
        0 <= i < b.len(),
        a[i] != b[i],
    ensures
        a != b,
{
    if a == b {
        assert(a[i] == b[i]);
    }
}

/// The digit character for a value below ten.
pub open spec fn digit_char(d: int) -> char {
    (48 + d) as char
}

/// The decimal numeral of `n`, most significant digit first.
pub open spec fn decimal_digits(n: nat) -> Seq<char>
    decreases n,
{
    if n < 10 {
        seq![digit_char(n as int)]
    } else {
        decimal_digits(n / 10) + seq![digit_char((n % 10) as int)]
    }
}

fn to_digit_char(d: usize) -> (c: char)
    requires
        d < 10,
    ensures
        c == digit_char(d as int),
{
    ((48 + d as u8)) as char
}

/// Writes a number in decimal.
pub fn decimal_string(n: usize) -> (r: String)
    ensures
        r@ == decimal_digits(n as nat),
{
    let mut digits: Vec<char> = Vec::new();
    let mut m: usize = n;
    while m >= 10
        invariant
            decimal_digits(n as nat) =~= decimal_digits(m as nat) + digits@.reverse(),
        decreases m,
    {
        let d = m % 10;
        digits.push(to_digit_char(d));
        proof {
            assert(decimal_digits(m as nat) =~= decimal_digits((m / 10) as nat) + seq![
                digit_char((m % 10) as int),
            ]);
            assert(digits@.reverse() =~= seq![digit_char((m % 10) as int)]
                + digits@.drop_last().reverse());
        }
        m = m / 10;
    }
    digits.push(to_digit_char(m));
    proof {
        assert(digits@.reverse() =~= seq![digit_char(m as int)] + digits@.drop_last().reverse());
        assert(decimal_digits(n as nat) =~= digits@.reverse());
    }
    let mut r = String::new();
    let count = digits.len();
    let mut k: usize = 0;
    while k < count
        invariant
            count == digits@.len(),
            0 <= k <= count,
            r@ =~= digits@.reverse().take(k as int),
        decreases count - k,
    {
        let c = digits[count - 1 - k];
        push_char(&mut r, c);
        proof {
            assert(digits@.reverse().take(k + 1) =~= digits@.reverse().take(k as int).push(
                digits@.reverse()[k as int],
            ));
        }
        k += 1;
    }
    proof {
        assert(r@ =~= digits@.reverse());
    }
    r
}

} // verus!
