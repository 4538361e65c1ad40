//! Wiring tables: permutations of the 26 alphabet positions, their inverses,
//! and involutions (self-inverse wirings, as used by plugboard and reflector).

use vstd::prelude::*;
use vstd::seq_lib::*;
use vstd::set_lib::*;
use crate::alphabet::{is_letter, letter_index};

verus! {

/// Reduction of a position to the alphabet range; `%` is Euclidean in
/// specifications, so the result is always in `[0, 26)`.
pub open spec fn m26(x: int) -> int {
    x % 26
}

/// Whole turns vanish under reduction.
pub proof fn lemma_m26_shift(x: int, k: int)
    ensures
        m26(x + 26 * k) == m26(x),
{
    vstd::arithmetic::div_mod::lemma_mod_multiples_vanish(k, x, 26);
}

/// Adding and then removing an offset (or the other way round) under
/// reduction gives the position back.
pub proof fn lemma_m26_cancel(x: int, o: int)
    requires
        0 <= x < 26,
    ensures
        m26(m26(x + o) - o) == x,
        m26(m26(x - o) + o) == x,
{
    let k1 = (x + o) / 26;
    assert(m26(x + o) == x + o - 26 * k1);
    lemma_m26_shift(x, -k1);
    assert(m26(x + o) - o == x + 26 * (-k1));
    let k2 = (x - o) / 26;
    assert(m26(x - o) == x - o - 26 * k2);
    lemma_m26_shift(x, -k2);
    assert(m26(x - o) + o == x + 26 * (-k2));
}

/// Every entry of the table is an alphabet position.
pub open spec fn wiring_in_range(w: Seq<u8>) -> bool {
    forall|i: int| 0 <= i < w.len() ==> w[i] < 26
}

/// A full substitution table: 26 entries, all in range, no two alike.
pub open spec fn valid_wiring(w: Seq<u8>) -> bool {
    &&& w.len() == 26
    &&& wiring_in_range(w)
    &&& forall|i: int, j: int| 0 <= i < j < 26 ==> w[i] != w[j]
}

/// `v` undoes `w` and `w` undoes `v`.
pub open spec fn are_inverses(w: Seq<u8>, v: Seq<u8>) -> bool {
    &&& w.len() == 26
    &&& v.len() == 26
    &&& wiring_in_range(w)
    &&& wiring_in_range(v)
    &&& forall|i: int| 0 <= i < 26 ==> v[w[i] as int] as int == i
    &&& forall|i: int| 0 <= i < 26 ==> w[v[i] as int] as int == i
}

/// A wiring that undoes itself; plugboards, reflectors and entry disks keep
/// this shape.
pub open spec fn is_involution(w: Seq<u8>) -> bool {
    &&& w.len() == 26
    &&& wiring_in_range(w)
    &&& forall|i: int| 0 <= i < 26 ==> w[w[i] as int] as int == i
}

/// The identity table, mapping every position to itself.
pub open spec fn identity_wiring() -> Seq<u8> {
    Seq::new(26, |i: int| i as u8)
}

/// A valid wiring hits every position: 26 distinct values within 26 slots
/// leave no slot out.
pub proof fn lemma_valid_wiring_surjective(w: Seq<u8>, x: int)
    requires
        valid_wiring(w),
        0 <= x < 26,
    ensures
        exists|i: int| 0 <= i < 26 && w[i] as int == x,
{
    let ws = w.map_values(|b: u8| b as int);
    assert(ws.no_duplicates()) by {
        assert forall|i: int, j: int|
            0 <= i < ws.len() && 0 <= j < ws.len() && i != j implies ws[i] != ws[j] by {
            if i < j {
                assert(w[i] != w[j]);
            } else {
                assert(w[j] != w[i]);
            }
        }
    }
    ws.unique_seq_to_set();
    let r = set_int_range(0, 26);
    lemma_int_range(0, 26);
    assert(ws.to_set().subset_of(r)) by {
        assert forall|y: int| ws.to_set().contains(y) implies r.contains(y) by {
            let k = choose|k: int| 0 <= k < ws.len() && ws[k] == y;
            assert(w[k] < 26);
        }
    }
    lemma_subset_equality(ws.to_set(), r);
    assert(r.contains(x));
    assert(ws.to_set().contains(x));
    assert(ws.contains(x));
    let i = choose|i: int| 0 <= i < ws.len() && ws[i] == x;
    assert(w[i] as int == x);
}

/// The positions of the letters of `s`, in order.
pub open spec fn letters_to_indices(s: Seq<char>) -> Seq<u8> {
    Seq::new(s.len(), |k: int| letter_index(s[k]) as u8)
}

/// Reads a string as a sequence of alphabet positions; reports the first
/// character that is not an alphabet letter.
pub fn parse_letters(s: &str) -> (r: Result<Vec<u8>, char>)
    ensures
        r is Ok <==> (forall|k: int| 0 <= k < s@.len() ==> is_letter(s@[k])),
        r matches Ok(v) ==> v@ == letters_to_indices(s@),
        r matches Err(c) ==> exists|k: int|
            {
                &&& 0 <= k < s@.len()
                &&& s@[k] == c
                &&& !is_letter(c)
                &&& forall|j: int| 0 <= j < k ==> is_letter(#[trigger] s@[j])
            },
{
    let n = s.unicode_len();
    let mut out: Vec<u8> = Vec::new();
    let mut k: usize = 0;
    while k < n
        invariant
            n == s@.len(),
            0 <= k <= n,
            out@.len() == k,
            forall|j: int| 0 <= j < k ==> is_letter(#[trigger] s@[j]),
            forall|j: int| 0 <= j < k ==> out@[j] as int == letter_index(s@[j]),
        decreases n - k,
    {
        let c = s.get_char(k);
        match crate::alphabet::char_to_index(c) {
            Some(i) => {
                out.push(i);
            },
            None => {
                return Err(c);
            },
        }
        k += 1;
    }
    assert(out@ =~= letters_to_indices(s@));
    Ok(out)
}

/// Builds the inverse lookup of a 26-entry table; fails exactly when the
/// table repeats a value and so is not a permutation.
pub fn build_inverse(w: &Vec<u8>) -> (r: Option<Vec<u8>>)
    requires
        w@.len() == 26,
        wiring_in_range(w@),
    ensures
        r is Some <==> valid_wiring(w@),
        r matches Some(v) ==> are_inverses(w@, v@),
{
    let mut inv: Vec<u8> = Vec::new();
    let mut k: usize = 0;
    while k < 26
        invariant
            0 <= k <= 26,
            inv@.len() == k,
            forall|j: int| 0 <= j < k ==> inv@[j] == 26u8,
        decreases 26 - k,
    {
        inv.push(26);
        k += 1;
    }
    let mut i: usize = 0;
    while i < 26
        invariant
            w@.len() == 26,
            wiring_in_range(w@),
            0 <= i <= 26,
            inv@.len() == 26,
            forall|a: int, b: int| 0 <= a < b < i ==> w@[a] != w@[b],
            forall|a: int| 0 <= a < i ==> inv@[w@[a] as int] as int == a,
            forall|x: int| 0 <= x < 26 && inv@[x] != 26u8 ==> ({
                let a = inv@[x] as int;
                0 <= a && a < i && w@[a] as int == x
            }),
            forall|x: int| 0 <= x < 26 && inv@[x] == 26u8 ==>
                forall|a: int| 0 <= a < i ==> w@[a] as int != x,
        decreases 26 - i,
    {
        let target = w[i] as usize;
        if inv[target] != 26 {
            return None;
        }
        inv.set(target, i as u8);
        i += 1;
    }
    proof {
        assert forall|x: int| 0 <= x < 26 implies inv@[x] != 26u8 by {
            lemma_valid_wiring_surjective(w@, x);
        }
    }
    Some(inv)
}

} // verus!
