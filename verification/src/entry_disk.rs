//! The entry disk: a static permutation between the plugboard stage and the
//! rotor chain. The common historical machine uses the identity.

use vstd::prelude::*;
use crate::alphabet::is_letter;
use crate::errors::ConfigurationError;
use crate::wiring::{
    are_inverses, build_inverse, identity_wiring, letters_to_indices, parse_letters, valid_wiring,
};

verus! {

/// The mathematical model of the entry disk: the wiring (position of each
/// letter of the configured alphabet) and its inverse.
#[verifier::ext_equal]
pub ghost struct EntryDiskView {
    pub wiring: Seq<u8>,
    pub inverse: Seq<u8>,
}

impl EntryDiskView {
    pub open spec fn wf(self) -> bool {
        are_inverses(self.wiring, self.inverse)
    }
}

/// The static mapping between the plugboard and the rotor chain.
#[derive(Debug)]
pub struct EntryDisk {
    wiring: Vec<u8>,
    inverse: Vec<u8>,
}

impl View for EntryDisk {
    type V = EntryDiskView;

    closed spec fn view(&self) -> EntryDiskView {
        EntryDiskView { wiring: self.wiring@, inverse: self.inverse@ }
    }
}

impl EntryDisk {
    /// The identity disk: every position passes straight through.
    pub fn identity() -> (r: EntryDisk)
        ensures
            r@.wf(),
            r@.wiring == identity_wiring(),
            r@.inverse == identity_wiring(),
    {
        proof {
            reveal_strlit("ABCDEFGHIJKLMNOPQRSTUVWXYZ");
            let s = "ABCDEFGHIJKLMNOPQRSTUVWXYZ"@;
            assert(forall|k: int| 0 <= k < s.len() ==> is_letter(#[trigger] s[k]));
            assert(valid_wiring(letters_to_indices(s)));
            assert(letters_to_indices(s) =~= identity_wiring());
        }
        match EntryDisk::new("ABCDEFGHIJKLMNOPQRSTUVWXYZ") {
            Ok(d) => d,
            Err(_) => vstd::pervasive::unreached(),
        }
    }

    /// Builds a disk from the alphabet it presents to the rotor chain; the
    /// string must be a permutation of the whole alphabet.
    pub fn new(alphabet: &str) -> (r: Result<EntryDisk, ConfigurationError>)
        ensures
            r is Ok <==> ({
                &&& forall|k: int| 0 <= k < alphabet@.len() ==> is_letter(alphabet@[k])
                &&& valid_wiring(letters_to_indices(alphabet@))
            }),
            r matches Ok(d) ==> d@.wf() && d@.wiring == letters_to_indices(alphabet@),
            !(forall|k: int| 0 <= k < alphabet@.len() ==> is_letter(#[trigger] alphabet@[k])) ==> (
            r matches Err(ConfigurationError::WiringSymbol { symbol }) && !is_letter(symbol)
                && alphabet@.contains(symbol)),
            (forall|k: int| 0 <= k < alphabet@.len() ==> is_letter(#[trigger] alphabet@[k]))
                && alphabet@.len() != 26 ==> (r matches Err(ConfigurationError::WiringLength {
                actual,
            }) && actual == alphabet@.len()),
            (forall|k: int| 0 <= k < alphabet@.len() ==> is_letter(#[trigger] alphabet@[k]))
                && alphabet@.len() == 26 && !valid_wiring(letters_to_indices(alphabet@)) ==> r
                matches Err(ConfigurationError::NotAPermutation),
    {
        let wiring = match parse_letters(alphabet) {
            Ok(w) => w,
            Err(c) => {
                return Err(ConfigurationError::WiringSymbol { symbol: c });
            },
        };
        if wiring.len() != 26 {
            return Err(ConfigurationError::WiringLength { actual: wiring.len() });
        }
        let inverse = match build_inverse(&wiring) {
            Some(v) => v,
            None => {
                return Err(ConfigurationError::NotAPermutation);
            },
        };
        Ok(EntryDisk { wiring, inverse })
    }

    /// The substitution toward the rotors: where in the configured alphabet
    /// the standard letter at this position stands.
    pub fn encode_from_right(&self, i: u8) -> (r: u8)
        requires
            self@.wf(),
            i < 26,
        ensures
            r < 26,
            r as int == self@.inverse[i as int],
    {
        self.inverse[i as usize]
    }

    /// The substitution away from the rotors: the standard position of the
    /// configured letter at this index.
    pub fn encode_from_left(&self, i: u8) -> (r: u8)
        requires
            self@.wf(),
            i < 26,
        ensures
            r < 26,
            r as int == self@.wiring[i as int],
    {
        self.wiring[i as usize]
    }
}

} // verus!
