//! The reflector: a fixed self-inverse substitution that turns the one-way
//! signal through the rotors into a round trip.

use vstd::prelude::*;
use crate::alphabet::is_letter;
use crate::errors::ConfigurationError;
use crate::wiring::{is_involution, letters_to_indices, parse_letters};

verus! {

/// The fixed turnaround stage of the machine.
#[derive(Debug)]
pub struct Reflector {
    wiring: Vec<u8>,
}

impl View for Reflector {
    type V = Seq<u8>;

    closed spec fn view(&self) -> Seq<u8> {
        self.wiring@
    }
}

impl Reflector {
    /// Historical reflector A.
    pub fn a() -> (r: Reflector)
        ensures
            is_involution(r@),
            r@ == letters_to_indices("EJMZALYXVBWFCRQUONTSPIKHGD"@),
    {
        proof {
            reveal_strlit("EJMZALYXVBWFCRQUONTSPIKHGD");
            let s = "EJMZALYXVBWFCRQUONTSPIKHGD"@;
            assert(forall|k: int| 0 <= k < s.len() ==> is_letter(#[trigger] s[k]));
            assert(is_involution(letters_to_indices(s)));
        }
        match Reflector::new("EJMZALYXVBWFCRQUONTSPIKHGD") {
            Ok(r) => r,
            Err(_) => vstd::pervasive::unreached(),
        }
    }

    /// Historical reflector B.
    pub fn b() -> (r: Reflector)
        ensures
            is_involution(r@),
            r@ == letters_to_indices("YRUHQSLDPXNGOKMIEBFZCWVJAT"@),
    {
        proof {
            reveal_strlit("YRUHQSLDPXNGOKMIEBFZCWVJAT");
            let s = "YRUHQSLDPXNGOKMIEBFZCWVJAT"@;
            assert(forall|k: int| 0 <= k < s.len() ==> is_letter(#[trigger] s[k]));
            assert(is_involution(letters_to_indices(s)));
        }
        match Reflector::new("YRUHQSLDPXNGOKMIEBFZCWVJAT") {
            Ok(r) => r,
            Err(_) => vstd::pervasive::unreached(),
        }
    }

    /// Historical reflector C.
    pub fn c() -> (r: Reflector)
        ensures
            is_involution(r@),
            r@ == letters_to_indices("FVPJIAOYEDRZXWGCTKUQSBNMHL"@),
    {
        proof {
            reveal_strlit("FVPJIAOYEDRZXWGCTKUQSBNMHL");
            let s = "FVPJIAOYEDRZXWGCTKUQSBNMHL"@;
            assert(forall|k: int| 0 <= k < s.len() ==> is_letter(#[trigger] s[k]));
            assert(is_involution(letters_to_indices(s)));
        }
        match Reflector::new("FVPJIAOYEDRZXWGCTKUQSBNMHL") {
            Ok(r) => r,
            Err(_) => vstd::pervasive::unreached(),
        }
    }

    /// Selects one of the three historical reflectors by its name.
    pub fn from_name(name: &str) -> (r: Option<Reflector>)
        ensures
            r is Some <==> (name@ == "A"@ || name@ == "B"@ || name@ == "C"@),
            r matches Some(refl) ==> ({
                &&& is_involution(refl@)
                &&& name@ == "A"@ ==> refl@ == letters_to_indices("EJMZALYXVBWFCRQUONTSPIKHGD"@)
                &&& name@ == "B"@ ==> refl@ == letters_to_indices("YRUHQSLDPXNGOKMIEBFZCWVJAT"@)
                &&& name@ == "C"@ ==> refl@ == letters_to_indices("FVPJIAOYEDRZXWGCTKUQSBNMHL"@)
            }),
    {
        proof {
            reveal_strlit("A");
            reveal_strlit("B");
            reveal_strlit("C");
            assert("A"@[0] == 'A');
            crate::text::lemma_seq_neq_at("A"@, "B"@, 0);
            crate::text::lemma_seq_neq_at("A"@, "C"@, 0);
            crate::text::lemma_seq_neq_at("B"@, "C"@, 0);
        }
        if crate::text::str_eq(name, "A") {
            Some(Reflector::a())
        } else if crate::text::str_eq(name, "B") {
            Some(Reflector::b())
        } else if crate::text::str_eq(name, "C") {
            Some(Reflector::c())
        } else {
            None
        }
    }

    /// Builds a reflector from the letter each position maps to. The wiring
    /// must spell out a self-inverse permutation of the whole alphabet.
    pub fn new(setting: &str) -> (r: Result<Reflector, ConfigurationError>)
        ensures
            r is Ok <==> ({
                &&& forall|k: int| 0 <= k < setting@.len() ==> is_letter(setting@[k])
                &&& is_involution(letters_to_indices(setting@))
            }),
            r matches Ok(refl) ==> refl@ == letters_to_indices(setting@) && is_involution(refl@),
            !(forall|k: int| 0 <= k < setting@.len() ==> is_letter(#[trigger] setting@[k])) ==> (
            r matches Err(ConfigurationError::WiringSymbol { symbol }) && !is_letter(symbol)
                && setting@.contains(symbol)),
            (forall|k: int| 0 <= k < setting@.len() ==> is_letter(#[trigger] setting@[k]))
                && setting@.len() != 26 ==> (r matches Err(ConfigurationError::WiringLength {
                actual,
            }) && actual == setting@.len()),
            (forall|k: int| 0 <= k < setting@.len() ==> is_letter(#[trigger] setting@[k]))
                && setting@.len() == 26 && !is_involution(letters_to_indices(setting@)) ==> r
                matches Err(ConfigurationError::NotAnInvolution),
    {
        let wiring = match parse_letters(setting) {
            Ok(w) => w,
            Err(c) => {
                return Err(ConfigurationError::WiringSymbol { symbol: c });
            },
        };
        if wiring.len() != 26 {
            return Err(ConfigurationError::WiringLength { actual: wiring.len() });
        }
        let mut i: usize = 0;
        while i < 26
            invariant
                wiring@.len() == 26,
                crate::wiring::wiring_in_range(wiring@),
                wiring@ == letters_to_indices(setting@),
                forall|k: int| 0 <= k < setting@.len() ==> is_letter(#[trigger] setting@[k]),
                0 <= i <= 26,
                forall|j: int| 0 <= j < i ==> wiring@[#[trigger] wiring@[j] as int] as int == j,
            decreases 26 - i,
        {
            let w = wiring[i];
            if wiring[w as usize] != i as u8 {
                proof {
                    assert(wiring@[wiring@[i as int] as int] as int != i as int);
                }
                return Err(ConfigurationError::NotAnInvolution);
            }
            i += 1;
        }
        Ok(Reflector { wiring })
    }

    /// One substitution lookup.
    pub fn encode(&self, i: u8) -> (r: u8)
        requires
            is_involution(self@),
            i < 26,
        ensures
            r < 26,
            r as int == self@[i as int],
    {
        self.wiring[i as usize]
    }
}

} // verus!
