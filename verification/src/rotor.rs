//! A substitution wheel: a fixed wiring permutation, a set of turnover
//! notches, and a mutable rotational offset.

use vstd::prelude::*;
use crate::alphabet::{char_to_index, is_letter, letter_at, letter_index};
use crate::errors::{ConfigurationError, InvalidSymbol};
use crate::wiring::{
    are_inverses, build_inverse, letters_to_indices, m26, parse_letters, valid_wiring,
    wiring_in_range,
};

verus! {

/// The mathematical model of a rotor: both lookup directions, the notch
/// positions, and the current offset.
#[verifier::ext_equal]
pub ghost struct RotorView {
    pub wiring: Seq<u8>,
    pub inverse: Seq<u8>,
    pub turnovers: Seq<u8>,
    pub offset: int,
}

impl RotorView {
    /// Well-formed: the two tables undo each other, notches and offset are
    /// alphabet positions.
    pub open spec fn wf(self) -> bool {
        &&& are_inverses(self.wiring, self.inverse)
        &&& wiring_in_range(self.turnovers)
        &&& 0 <= self.offset < 26
    }

    /// The substitution seen from the right-hand neighbour: add the offset,
    /// look the position up forward, remove the offset again.
    pub open spec fn fwd(self, i: int) -> int {
        m26(self.wiring[m26(i + self.offset)] - self.offset)
    }

    /// The mirror substitution, through the inverse table.
    pub open spec fn bwd(self, i: int) -> int {
        m26(self.inverse[m26(i + self.offset)] - self.offset)
    }

    /// Whether the wheel currently sits on one of its notches.
    pub open spec fn at_turnover(self) -> bool {
        self.turnovers.contains(self.offset as u8)
    }

    /// The wheel advanced by one position.
    pub open spec fn stepped(self) -> RotorView {
        RotorView { offset: m26(self.offset + 1), ..self }
    }

    /// The wheel turned to an absolute position.
    pub open spec fn with_offset(self, o: int) -> RotorView {
        RotorView { offset: o, ..self }
    }
}

/// A substitution wheel of the machine.
#[derive(Debug)]
pub struct Rotor {
    wiring: Vec<u8>,
    inverse: Vec<u8>,
    turnover_offsets: Vec<u8>,
    current_offset: u8,
}

impl View for Rotor {
    type V = RotorView;

    closed spec fn view(&self) -> RotorView {
        RotorView {
            wiring: self.wiring@,
            inverse: self.inverse@,
            turnovers: self.turnover_offsets@,
            offset: self.current_offset as int,
        }
    }
}

impl Rotor {
    /// Builds a rotor from its wiring (the letter each position maps to) and
    /// its turnover letters. The wiring must spell a permutation of the
    /// whole alphabet; the wheel starts at position 0.
    pub fn new(alphabet: &str, turnover: &str) -> (r: Result<Rotor, ConfigurationError>)
        ensures
            r is Ok <==> ({
                &&& forall|k: int| 0 <= k < alphabet@.len() ==> is_letter(alphabet@[k])
                &&& valid_wiring(letters_to_indices(alphabet@))
                &&& forall|k: int| 0 <= k < turnover@.len() ==> is_letter(turnover@[k])
            }),
            r matches Ok(rotor) ==> ({
                &&& rotor@.wf()
                &&& rotor@.wiring == letters_to_indices(alphabet@)
                &&& rotor@.turnovers == letters_to_indices(turnover@)
                &&& rotor@.offset == 0
            }),
            !(forall|k: int| 0 <= k < alphabet@.len() ==> is_letter(#[trigger] alphabet@[k])) ==> (
            r matches Err(ConfigurationError::WiringSymbol { symbol }) && !is_letter(symbol)
                && alphabet@.contains(symbol)),
            (forall|k: int| 0 <= k < alphabet@.len() ==> is_letter(#[trigger] alphabet@[k]))
                && alphabet@.len() != 26 ==> (r matches Err(ConfigurationError::WiringLength {
                actual,
            }) && actual == alphabet@.len()),
            (forall|k: int| 0 <= k < alphabet@.len() ==> is_letter(#[trigger] alphabet@[k]))
                && alphabet@.len() == 26 && !valid_wiring(letters_to_indices(alphabet@)) ==> r
                matches Err(ConfigurationError::NotAPermutation),
            (forall|k: int| 0 <= k < alphabet@.len() ==> is_letter(#[trigger] alphabet@[k]))
                && valid_wiring(letters_to_indices(alphabet@)) && !(forall|k: int|
                0 <= k < turnover@.len() ==> is_letter(#[trigger] turnover@[k])) ==> (r matches Err(
                ConfigurationError::TurnoverSymbol { symbol },
            ) && !is_letter(symbol) && turnover@.contains(symbol)),
    {
        let wiring = match parse_letters(alphabet) {
            Ok(w) => w,
            Err(c) => {
                return Err(ConfigurationError::WiringSymbol { symbol: c });
            },
        };
        if wiring.len() != 26 {
            return Err(ConfigurationError::WiringLength { actual: wiring.len() });
        }
        let inverse = match build_inverse(&wiring) {
            Some(v) => v,
            None => {
                return Err(ConfigurationError::NotAPermutation);
            },
        };
        let turnover_offsets = match parse_letters(turnover) {
            Ok(t) => t,
            Err(c) => {
                return Err(ConfigurationError::TurnoverSymbol { symbol: c });
            },
        };
        Ok(Rotor { wiring, inverse, turnover_offsets, current_offset: 0 })
    }

    /// Historical wiring I with its notch at 'Q'.
    pub fn enigma_i_wehrmacht_i() -> (r: Rotor)
        ensures
            r@.wf(),
            r@.wiring == letters_to_indices("EKMFLGDQVZNTOWYHXUSPAIBRCJ"@),
            r@.turnovers == letters_to_indices("Q"@),
            r@.offset == 0,
    {
        proof {
            reveal_strlit("EKMFLGDQVZNTOWYHXUSPAIBRCJ");
            reveal_strlit("Q");
            let s = "EKMFLGDQVZNTOWYHXUSPAIBRCJ"@;
            assert(forall|k: int| 0 <= k < s.len() ==> is_letter(#[trigger] s[k]));
            assert(valid_wiring(letters_to_indices(s)));
        }
        match Rotor::new("EKMFLGDQVZNTOWYHXUSPAIBRCJ", "Q") {
            Ok(r) => r,
            Err(_) => vstd::pervasive::unreached(),
        }
    }

    /// Historical wiring II with its notch at 'E'.
    pub fn enigma_i_wehrmacht_ii() -> (r: Rotor)
        ensures
            r@.wf(),
            r@.wiring == letters_to_indices("AJDKSIRUXBLHWTMCQGZNPYFVOE"@),
            r@.turnovers == letters_to_indices("E"@),
            r@.offset == 0,
    {
        proof {
            reveal_strlit("AJDKSIRUXBLHWTMCQGZNPYFVOE");
            reveal_strlit("E");
            let s = "AJDKSIRUXBLHWTMCQGZNPYFVOE"@;
            assert(forall|k: int| 0 <= k < s.len() ==> is_letter(#[trigger] s[k]));
            assert(valid_wiring(letters_to_indices(s)));
        }
        match Rotor::new("AJDKSIRUXBLHWTMCQGZNPYFVOE", "E") {
            Ok(r) => r,
            Err(_) => vstd::pervasive::unreached(),
        }
    }

    /// Historical wiring III with its notch at 'V'.
    pub fn enigma_i_wehrmacht_iii() -> (r: Rotor)
        ensures
            r@.wf(),
            r@.wiring == letters_to_indices("BDFHJLCPRTXVZNYEIWGAKMUSQO"@),
            r@.turnovers == letters_to_indices("V"@),
            r@.offset == 0,
    {
        proof {
            reveal_strlit("BDFHJLCPRTXVZNYEIWGAKMUSQO");
            reveal_strlit("V");
            let s = "BDFHJLCPRTXVZNYEIWGAKMUSQO"@;
            assert(forall|k: int| 0 <= k < s.len() ==> is_letter(#[trigger] s[k]));
            assert(valid_wiring(letters_to_indices(s)));
        }
        match Rotor::new("BDFHJLCPRTXVZNYEIWGAKMUSQO", "V") {
            Ok(r) => r,
            Err(_) => vstd::pervasive::unreached(),
        }
    }

    /// Historical wiring IV with its notch at 'J'.
    pub fn m3_wehrmacht_iv() -> (r: Rotor)
        ensures
            r@.wf(),
            r@.wiring == letters_to_indices("ESOVPZJAYQUIRHXLNFTGKDCMWB"@),
            r@.turnovers == letters_to_indices("J"@),
            r@.offset == 0,
    {
        proof {
            reveal_strlit("ESOVPZJAYQUIRHXLNFTGKDCMWB");
            reveal_strlit("J");
            let s = "ESOVPZJAYQUIRHXLNFTGKDCMWB"@;
            assert(forall|k: int| 0 <= k < s.len() ==> is_letter(#[trigger] s[k]));
            assert(valid_wiring(letters_to_indices(s)));
        }
        match Rotor::new("ESOVPZJAYQUIRHXLNFTGKDCMWB", "J") {
            Ok(r) => r,
            Err(_) => vstd::pervasive::unreached(),
        }
    }

    /// Historical wiring V with its notch at 'Z'.
    pub fn m3_wehrmacht_v() -> (r: Rotor)
        ensures
            r@.wf(),
            r@.wiring == letters_to_indices("VZBRGITYUPSDNHLXAWMJQOFECK"@),
            r@.turnovers == letters_to_indices("Z"@),
            r@.offset == 0,
    {
        proof {
            reveal_strlit("VZBRGITYUPSDNHLXAWMJQOFECK");
            reveal_strlit("Z");
            let s = "VZBRGITYUPSDNHLXAWMJQOFECK"@;
            assert(forall|k: int| 0 <= k < s.len() ==> is_letter(#[trigger] s[k]));
            assert(valid_wiring(letters_to_indices(s)));
        }
        match Rotor::new("VZBRGITYUPSDNHLXAWMJQOFECK", "Z") {
            Ok(r) => r,
            Err(_) => vstd::pervasive::unreached(),
        }
    }

    /// Selects one of the five historical rotors by its name.
    pub fn from_name(name: &str) -> (r: Option<Rotor>)
        ensures
            r is Some <==> (name@ == "I"@ || name@ == "II"@ || name@ == "III"@ || name@ == "IV"@
                || name@ == "V"@),
            r matches Some(rotor) ==> ({
                &&& rotor@.wf()
                &&& rotor@.offset == 0
                &&& name@ == "I"@ ==> rotor@.wiring == letters_to_indices(
                    "EKMFLGDQVZNTOWYHXUSPAIBRCJ"@,
                ) && rotor@.turnovers == letters_to_indices("Q"@)
                &&& name@ == "II"@ ==> rotor@.wiring == letters_to_indices(
                    "AJDKSIRUXBLHWTMCQGZNPYFVOE"@,
                ) && rotor@.turnovers == letters_to_indices("E"@)
                &&& name@ == "III"@ ==> rotor@.wiring == letters_to_indices(
                    "BDFHJLCPRTXVZNYEIWGAKMUSQO"@,
                ) && rotor@.turnovers == letters_to_indices("V"@)
                &&& name@ == "IV"@ ==> rotor@.wiring == letters_to_indices(
                    "ESOVPZJAYQUIRHXLNFTGKDCMWB"@,
                ) && rotor@.turnovers == letters_to_indices("J"@)
                &&& name@ == "V"@ ==> rotor@.wiring == letters_to_indices(
                    "VZBRGITYUPSDNHLXAWMJQOFECK"@,
                ) && rotor@.turnovers == letters_to_indices("Z"@)
            }),
    {
        proof {
            reveal_strlit("I");
            reveal_strlit("II");
            reveal_strlit("III");
            reveal_strlit("IV");
            reveal_strlit("V");
            crate::text::lemma_seq_neq_len("I"@, "II"@);
            crate::text::lemma_seq_neq_len("I"@, "III"@);
            crate::text::lemma_seq_neq_len("I"@, "IV"@);
            crate::text::lemma_seq_neq_at("I"@, "V"@, 0);
            crate::text::lemma_seq_neq_len("II"@, "III"@);
            crate::text::lemma_seq_neq_at("II"@, "IV"@, 1);
            crate::text::lemma_seq_neq_len("II"@, "V"@);
            crate::text::lemma_seq_neq_len("III"@, "IV"@);
            crate::text::lemma_seq_neq_len("III"@, "V"@);
            crate::text::lemma_seq_neq_len("IV"@, "V"@);
        }
        if crate::text::str_eq(name, "I") {
            Some(Rotor::enigma_i_wehrmacht_i())
        } else if crate::text::str_eq(name, "II") {
            Some(Rotor::enigma_i_wehrmacht_ii())
        } else if crate::text::str_eq(name, "III") {
            Some(Rotor::enigma_i_wehrmacht_iii())
        } else if crate::text::str_eq(name, "IV") {
            Some(Rotor::m3_wehrmacht_iv())
        } else if crate::text::str_eq(name, "V") {
            Some(Rotor::m3_wehrmacht_v())
        } else {
            None
        }
    }

    /// Adds an amount to a position, staying within the alphabet range.
    pub fn offset_positively(offset_source: u8, offset_by: u8) -> (r: u8)
        requires
            offset_source < 26,
        ensures
            r as int == m26(offset_source + offset_by),
            r < 26,
    {
        let o = offset_by % 26;
        let r = (offset_source + o) % 26;
        proof {
            vstd::arithmetic::div_mod::lemma_mod_multiples_vanish(
                -((offset_by / 26) as int),
                offset_source + offset_by,
                26,
            );
        }
        r
    }

    /// Removes an amount from a position, staying within the alphabet range.
    pub fn offset_negatively(offset_source: u8, offset_by: u8) -> (r: u8)
        requires
            offset_source < 26,
        ensures
            r as int == m26(offset_source - offset_by),
            r < 26,
    {
        let o = offset_by % 26;
        let r = (offset_source + 26 - o) % 26;
        proof {
            vstd::arithmetic::div_mod::lemma_mod_multiples_vanish(
                (offset_by / 26) as int + 1,
                offset_source as int - offset_by as int,
                26,
            );
        }
        r
    }

    /// The substitution toward the reflector: offset in, forward table,
    /// offset out.
    pub fn encode_from_right(&self, i: u8) -> (r: u8)
        requires
            self@.wf(),
            i < 26,
        ensures
            r < 26,
            r as int == self@.fwd(i as int),
    {
        let offseted_i = Rotor::offset_positively(i, self.current_offset);
        let next_i = self.wiring[offseted_i as usize];
        Rotor::offset_negatively(next_i, self.current_offset)
    }

    /// The substitution away from the reflector, through the inverse table.
    pub fn encode_from_left(&self, i: u8) -> (r: u8)
        requires
            self@.wf(),
            i < 26,
        ensures
            r < 26,
            r as int == self@.bwd(i as int),
    {
        let offseted_i = Rotor::offset_positively(i, self.current_offset);
        let next_i = self.inverse[offseted_i as usize];
        Rotor::offset_negatively(next_i, self.current_offset)
    }

    /// Turns the wheel to the position of the given letter.
    pub fn turn_to_character(&mut self, character: char) -> (r: Result<(), InvalidSymbol>)
        ensures
            r is Ok <==> is_letter(character),
            r is Ok ==> final(self)@ == old(self)@.with_offset(letter_index(character)),
            r matches Err(e) ==> *final(self) == *old(self) && e.symbol == character,
    {
        match char_to_index(character) {
            Some(i) => {
                self.current_offset = i;
                Ok(())
            },
            None => Err(InvalidSymbol { symbol: character }),
        }
    }

    /// Advances the wheel by one position; reports whether it sat on a notch
    /// before the step, which is what makes the next wheel advance.
    pub fn rotate(&mut self) -> (r: bool)
        requires
            old(self)@.wf(),
        ensures
            final(self)@ == old(self)@.stepped(),
            r == old(self)@.at_turnover(),
    {
        let should_rotate_next = self.is_in_turnover_position();
        self.current_offset = Rotor::offset_positively(self.current_offset, 1);
        should_rotate_next
    }

    /// Whether the wheel currently sits on one of its notches.
    pub fn is_in_turnover_position(&self) -> (r: bool)
        ensures
            r == self@.at_turnover(),
    {
        let n = self.turnover_offsets.len();
        let mut k: usize = 0;
        while k < n
            invariant
                n == self.turnover_offsets@.len(),
                0 <= k <= n,
                forall|j: int| 0 <= j < k ==> self.turnover_offsets@[j] != self.current_offset,
            decreases n - k,
        {
            if self.turnover_offsets[k] == self.current_offset {
                return true;
            }
            k += 1;
        }
        false
    }

    /// Moves the wheel by a relative amount, in either direction.
    pub fn offset_by(&mut self, offset: i8)
        requires
            old(self)@.wf(),
            offset != i8::MIN,
        ensures
            final(self)@ == old(self)@.with_offset(m26(old(self)@.offset + offset)),
    {
        if offset >= 0 {
            self.current_offset = Rotor::offset_positively(self.current_offset, offset as u8);
        } else {
            self.current_offset = Rotor::offset_negatively(self.current_offset, (-offset) as u8);
        }
    }

    /// The letter the wheel currently shows.
    pub fn get_offset_character(&self) -> (c: char)
        requires
            self@.wf(),
        ensures
            c == letter_at(self@.offset),
    {
        crate::alphabet::index_to_char(self.current_offset)
    }

    /// The wheel's current position.
    pub fn current_offset(&self) -> (r: u8)
        ensures
            r as int == self@.offset,
    {
        self.current_offset
    }
}

/// The two lookup directions of a well-formed rotor undo each other at any
/// fixed offset.
pub proof fn lemma_rotor_fwd_bwd(v: RotorView, i: int)
    requires
        v.wf(),
        0 <= i < 26,
    ensures
        0 <= v.fwd(i) < 26,
        0 <= v.bwd(i) < 26,
        v.bwd(v.fwd(i)) == i,
        v.fwd(v.bwd(i)) == i,
{
    let o = v.offset;
    let w = v.wiring;
    let inv = v.inverse;
    let a = m26(i + o);
    assert(0 <= a < 26);
    let b = w[a] as int;
    let f = m26(b - o);
    assert(v.fwd(i) == f);
    crate::wiring::lemma_m26_cancel(b, o);
    assert(m26(f + o) == b);
    assert(inv[b] as int == a);
    assert(v.bwd(f) == m26(a - o));
    crate::wiring::lemma_m26_cancel(i, o);
    assert(m26(a - o) == i);
    let b2 = inv[a] as int;
    let g = m26(b2 - o);
    assert(v.bwd(i) == g);
    crate::wiring::lemma_m26_cancel(b2, o);
    assert(m26(g + o) == b2);
    assert(w[b2] as int == a);
    assert(v.fwd(g) == m26(a - o));
}

} // verus!
