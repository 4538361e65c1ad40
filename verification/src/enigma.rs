//! The cipher engine: one plugboard, one entry disk, one rotor chain and one
//! reflector, the seven-stage signal path per character, and the two-pass
//! keying protocol for whole messages.

use vstd::prelude::*;
use crate::alphabet::{is_letter, letter_at, letter_index};
use crate::entry_disk::{EntryDisk, EntryDiskView};
use crate::errors::{EncodeError, InvalidSetting, MessageErrors};
use crate::plugboard::Plugboard;
use crate::reflector::Reflector;
use crate::rotor_chain::{lemma_chain_fwd_bwd, RotorChain, RotorChainView};
use crate::sanitize::is_space;
use crate::text::push_char;
use crate::wiring::is_involution;

verus! {

/// A three-letter rotor-chain setting.
pub open spec fn valid_setting(s: Seq<char>) -> bool {
    s.len() == 3 && forall|k: int| 0 <= k < 3 ==> is_letter(#[trigger] s[k])
}

/// Only alphabet letters, as the signal path demands.
pub open spec fn all_letters(s: Seq<char>) -> bool {
    forall|k: int| 0 <= k < s.len() ==> is_letter(#[trigger] s[k])
}

/// A character the engine accepts in a message: a letter, or whitespace
/// that the filler letter will stand in for.
pub open spec fn engine_accepts(c: char) -> bool {
    is_letter(c) || is_space(c)
}

/// The message as encoded: whitespace replaced by the filler letter 'X'.
pub open spec fn masked(s: Seq<char>) -> Seq<char> {
    Seq::new(
        s.len(),
        |k: int|
            if is_space(s[k]) {
                'X'
            } else {
                s[k]
            },
    )
}

/// Every message character the engine rejects, in order.
pub open spec fn engine_offenders(s: Seq<char>) -> Seq<char> {
    s.filter(|c: char| !engine_accepts(c))
}

/// The mathematical model of a fully assembled engine.
#[verifier::ext_equal]
pub ghost struct EnigmaView {
    pub plugboard: Seq<u8>,
    pub entry: EntryDiskView,
    pub chain: RotorChainView,
    pub reflector: Seq<u8>,
}

impl EnigmaView {
    /// Well-formed: plugboard and reflector are involutions, entry disk and
    /// rotors hold matching table pairs.
    pub open spec fn wf(self) -> bool {
        &&& is_involution(self.plugboard)
        &&& self.entry.wf()
        &&& self.chain.wf()
        &&& is_involution(self.reflector)
    }

    /// The engine with its rotor chain replaced.
    pub open spec fn with_chain(self, c: RotorChainView) -> EnigmaView {
        EnigmaView { chain: c, ..self }
    }

    /// The seven-stage signal path at the current wheel positions, on
    /// alphabet indices: plugboard, entry disk, the chain toward the
    /// reflector, the reflector, and the same stages mirrored on the way
    /// back.
    pub open spec fn path(self, i: int) -> int {
        self.plugboard[self.entry.wiring[self.chain.bwd(
            self.reflector[self.chain.fwd(
                self.entry.inverse[self.plugboard[i] as int] as int,
            )] as int,
        )] as int] as int
    }

    /// A whole message at the current setting: before each character the
    /// chain ticks once, then the character runs through the path.
    pub open spec fn encode_chars(self, s: Seq<char>) -> Seq<char> {
        Seq::new(
            s.len(),
            |k: int|
                letter_at(
                    self.with_chain(self.chain.after_steps((k + 1) as nat)).path(
                        letter_index(s[k]),
                    ),
                ),
        )
    }
}

/// The signal path comes back to its origin: running an index through the
/// path twice, at the same wheel positions, is the identity. This is what
/// makes the machine decode its own output.
pub proof fn lemma_path_involution(v: EnigmaView, i: int)
    requires
        v.wf(),
        0 <= i < 26,
    ensures
        0 <= v.path(i) < 26,
        v.path(v.path(i)) == i,
{
    let p1 = v.plugboard[i] as int;
    let e1 = v.entry.inverse[p1] as int;
    lemma_chain_fwd_bwd(v.chain, e1);
    let f = v.chain.fwd(e1);
    let r1 = v.reflector[f] as int;
    lemma_chain_fwd_bwd(v.chain, r1);
    let b = v.chain.bwd(r1);
    let w1 = v.entry.wiring[b] as int;
    let out = v.plugboard[w1] as int;
    assert(v.path(i) == out);
    assert(v.plugboard[out] == w1);
    assert(v.entry.inverse[w1] as int == b);
    lemma_chain_fwd_bwd(v.chain, b);
    assert(v.chain.fwd(b) == r1);
    assert(v.reflector[r1] as int == f);
    assert(v.chain.bwd(f) == e1);
    assert(v.entry.wiring[e1] as int == p1);
    assert(v.plugboard[p1] as int == i);
}

/// Involution symmetry: for any well-formed engine state and any in-alphabet
/// message, encoding the encoded message from the same starting state gives
/// the message back.
pub proof fn lemma_encode_involution(v: EnigmaView, s: Seq<char>)
    requires
        v.wf(),
        all_letters(s),
    ensures
        v.encode_chars(v.encode_chars(s)) == s,
{
    let es = v.encode_chars(s);
    assert forall|k: int| 0 <= k < s.len() implies v.encode_chars(es)[k] == s[k] by {
        v.chain.lemma_after_steps_wf((k + 1) as nat);
        let vk = v.with_chain(v.chain.after_steps((k + 1) as nat));
        let i = letter_index(s[k]);
        lemma_path_involution(vk, i);
        crate::alphabet::lemma_letter_bijection(s[k], vk.path(i));
        assert(es[k] == letter_at(vk.path(i)));
        crate::alphabet::lemma_letter_bijection(es[k], vk.path(i));
        assert(letter_index(es[k]) == vk.path(i));
        crate::alphabet::lemma_letter_bijection(s[k], i);
    }
    assert(v.encode_chars(v.encode_chars(s)) =~= s);
}

/// Encoded messages are made of alphabet letters again.
pub proof fn lemma_encode_all_letters(v: EnigmaView, s: Seq<char>)
    requires
        v.wf(),
        all_letters(s),
    ensures
        all_letters(v.encode_chars(s)),
        v.encode_chars(s).len() == s.len(),
{
    let es = v.encode_chars(s);
    assert forall|k: int| 0 <= k < es.len() implies is_letter(#[trigger] es[k]) by {
        v.chain.lemma_after_steps_wf((k + 1) as nat);
        let vk = v.with_chain(v.chain.after_steps((k + 1) as nat));
        lemma_path_involution(vk, letter_index(s[k]));
        crate::alphabet::lemma_letter_bijection(s[k], vk.path(letter_index(s[k])));
    }
}

/// What an encode call hands back: the dimensions and texts the radio
/// message frame is built from.
#[derive(Debug)]
pub struct EncodingResult {
    /// The character count of the message as handed in, whitespace included.
    pub message_length: usize,
    /// The setting the message key was encoded at.
    pub basic_position: String,
    /// The message key as encoded at the basic position.
    pub encoded_message_key: String,
    /// The message as encoded under the message key, whitespace standing as
    /// the filler letter 'X'.
    pub encoded_message: String,
}

/// The assembled cipher machine.
#[derive(Debug)]
pub struct Enigma {
    plugboard: Plugboard,
    entry_disk: EntryDisk,
    rotor_chain: RotorChain,
    reflector: Reflector,
}

impl View for Enigma {
    type V = EnigmaView;

    closed spec fn view(&self) -> EnigmaView {
        EnigmaView {
            plugboard: self.plugboard@,
            entry: self.entry_disk@,
            chain: self.rotor_chain@,
            reflector: self.reflector@,
        }
    }
}

/// Whether a setting error describes the given setting string: the length
/// complaint carries the actual length, the symbol complaint one of its
/// foreign characters.
pub open spec fn setting_error_matches(e: InvalidSetting, s: Seq<char>) -> bool {
    match e {
        InvalidSetting::WrongLength { actual } => s.len() != 3 && actual == s.len(),
        InvalidSetting::Symbol { symbol } => s.len() == 3 && !is_letter(symbol) && s.contains(
            symbol,
        ),
    }
}

/// Checks that a string is a three-letter rotor-chain setting.
pub fn validate_setting(s: &str) -> (r: Result<(), InvalidSetting>)
    ensures
        r is Ok <==> valid_setting(s@),
        s@.len() != 3 ==> (r matches Err(InvalidSetting::WrongLength { actual }) && actual
            == s@.len()),
        s@.len() == 3 && !valid_setting(s@) ==> (r matches Err(InvalidSetting::Symbol { symbol })
            && !is_letter(symbol) && s@.contains(symbol)),
        r matches Err(e) ==> setting_error_matches(e, s@),
{
    let n = s.unicode_len();
    if n != 3 {
        return Err(InvalidSetting::WrongLength { actual: n });
    }
    let mut k: usize = 0;
    while k < 3
        invariant
            s@.len() == 3,
            0 <= k <= 3,
            forall|j: int| 0 <= j < k ==> is_letter(#[trigger] s@[j]),
        decreases 3 - k,
    {
        let c = s.get_char(k);
        if !crate::alphabet::is_supported(c) {
            return Err(InvalidSetting::Symbol { symbol: c });
        }
        k += 1;
    }
    Ok(())
}

impl Enigma {
    /// Assembles an engine from its four parts.
    pub fn new(
        plugboard: Plugboard,
        entry_disk: EntryDisk,
        rotor_chain: RotorChain,
        reflector: Reflector,
    ) -> (r: Enigma)
        ensures
            r@ == (EnigmaView {
                plugboard: plugboard@,
                entry: entry_disk@,
                chain: rotor_chain@,
                reflector: reflector@,
            }),
    {
        Enigma { plugboard, entry_disk, rotor_chain, reflector }
    }

    /// Encodes a run of letters at the current rotor setting: each character
    /// ticks the chain once and then passes the seven stages.
    pub fn encode_for_current_rotor_setting(&mut self, msg: &str) -> (r: String)
        requires
            old(self)@.wf(),
            all_letters(msg@),
        ensures
            r@ == old(self)@.encode_chars(msg@),
            final(self)@ == old(self)@.with_chain(old(self)@.chain.after_steps(msg@.len())),
    {
        let n = msg.unicode_len();
        let mut out = String::new();
        let mut k: usize = 0;
        while k < n
            invariant
                old(self)@.wf(),
                all_letters(msg@),
                n == msg@.len(),
                0 <= k <= n,
                self@.plugboard == old(self)@.plugboard,
                self@.entry == old(self)@.entry,
                self@.reflector == old(self)@.reflector,
                self@.chain == old(self)@.chain.after_steps(k as nat),
                self@.wf(),
                out@ == old(self)@.encode_chars(msg@).take(k as int),
            decreases n - k,
        {
            let c = msg.get_char(k);
            self.rotor_chain.rotate();
            proof {
                assert(old(self)@.chain.after_steps((k + 1) as nat) == old(
                    self,
                )@.chain.after_steps(k as nat).step());
                old(self)@.chain.lemma_after_steps_wf((k + 1) as nat);
            }
            let c_encoded = self.plugboard.encode_from_right(c);
            let c_encoded = self.entry_disk.encode_from_right(c_encoded);
            let c_encoded = self.rotor_chain.encode_from_right(c_encoded);
            let c_encoded = self.reflector.encode(c_encoded);
            let c_encoded = self.rotor_chain.encode_from_left(c_encoded);
            let c_encoded = self.entry_disk.encode_from_left(c_encoded);
            let c_out = self.plugboard.encode_from_left(c_encoded);
            push_char(&mut out, c_out);
            proof {
                let vk = old(self)@.with_chain(old(self)@.chain.after_steps((k + 1) as nat));
                assert(c_out == letter_at(vk.path(letter_index(msg@[k as int]))));
                assert(out@ =~= old(self)@.encode_chars(msg@).take(k + 1));
            }
            k += 1;
        }
        proof {
            assert(old(self)@.encode_chars(msg@).take(n as int) =~= old(self)@.encode_chars(msg@));
            assert(final(self)@ =~= old(self)@.with_chain(old(self)@.chain.after_steps(n as nat)));
        }
        out
    }

    /// The two-pass keying protocol. The message may hold letters and
    /// whitespace; whitespace is encoded as the filler letter 'X'. All
    /// offending characters are reported together; a bad setting aborts at
    /// once; nothing moves unless every input is valid. On success the
    /// chain is set to the basic position, the message key is encoded, the
    /// chain is re-set to the message key, and the message is encoded.
    pub fn encode(&mut self, basic_position: String, message_key: String, message: String) -> (r:
        Result<EncodingResult, EncodeError>)
        requires
            old(self)@.wf(),
        ensures
            r is Ok <==> ({
                &&& message@.len() <= 500
                &&& forall|k: int| 0 <= k < message@.len() ==> engine_accepts(#[trigger] message@[k])
                &&& valid_setting(basic_position@)
                &&& valid_setting(message_key@)
            }),
            r is Err ==> *final(self) == *old(self),
            r matches Err(EncodeError::Message(e)) ==> ({
                &&& e.length_exceeded == if message@.len() > 500 {
                    Some(message@.len() as usize)
                } else {
                    None::<usize>
                }
                &&& e.unsupported@ == engine_offenders(message@)
                &&& (message@.len() > 500 || engine_offenders(message@).len() > 0)
            }),
            r matches Err(EncodeError::Setting(_)) ==> ({
                &&& message@.len() <= 500
                &&& engine_offenders(message@).len() == 0
                &&& (!valid_setting(basic_position@) || !valid_setting(message_key@))
            }),
            (message@.len() <= 500 && engine_offenders(message@).len() == 0 && !valid_setting(
                basic_position@,
            )) ==> (r matches Err(EncodeError::Setting(e)) && setting_error_matches(
                e,
                basic_position@,
            )),
            (message@.len() <= 500 && engine_offenders(message@).len() == 0 && valid_setting(
                basic_position@,
            ) && !valid_setting(message_key@)) ==> (r matches Err(EncodeError::Setting(e))
                && setting_error_matches(e, message_key@)),
            r matches Ok(res) ==> ({
                let v_basic = old(self)@.with_chain(
                    old(self)@.chain.with_setting(
                        letter_index(basic_position@[0]),
                        letter_index(basic_position@[1]),
                        letter_index(basic_position@[2]),
                    ),
                );
                let v_key = old(self)@.with_chain(
                    old(self)@.chain.with_setting(
                        letter_index(message_key@[0]),
                        letter_index(message_key@[1]),
                        letter_index(message_key@[2]),
                    ),
                );
                &&& res.message_length == message@.len()
                &&& res.basic_position@ == basic_position@
                &&& res.encoded_message_key@ == v_basic.encode_chars(message_key@)
                &&& res.encoded_message@ == v_key.encode_chars(masked(message@))
                &&& final(self)@ == v_key.with_chain(
                    v_key.chain.after_steps(message@.len() as nat),
                )
            }),
    {
        let (kept, errors) = engine_scan(message.as_str());
        if !errors.is_empty() {
            return Err(EncodeError::Message(errors));
        }
        match validate_setting(basic_position.as_str()) {
            Ok(()) => (),
            Err(e) => {
                return Err(EncodeError::Setting(e));
            },
        }
        match validate_setting(message_key.as_str()) {
            Ok(()) => (),
            Err(e) => {
                return Err(EncodeError::Setting(e));
            },
        }
        let n = message.as_str().unicode_len();
        match self.rotor_chain.change_setting(basic_position.as_str()) {
            Ok(()) => (),
            Err(_) => {
                return vstd::pervasive::unreached();
            },
        }
        let ghost v_basic = self@;
        proof {
            assert(v_basic.wf());
        }
        let encoded_message_key = self.encode_for_current_rotor_setting(message_key.as_str());
        proof {
            v_basic.chain.lemma_after_steps_wf(message_key@.len());
        }
        match self.rotor_chain.change_setting(message_key.as_str()) {
            Ok(()) => (),
            Err(_) => {
                return vstd::pervasive::unreached();
            },
        }
        let ghost v_key = self@;
        proof {
            assert(v_key.wf());
            let bl = letter_index(basic_position@[0]);
            let bm = letter_index(basic_position@[1]);
            let br = letter_index(basic_position@[2]);
            let kl = letter_index(message_key@[0]);
            let km = letter_index(message_key@[1]);
            let kr = letter_index(message_key@[2]);
            old(self)@.chain.with_setting(bl, bm, br).lemma_after_steps_with_setting(
                message_key@.len(),
                kl,
                km,
                kr,
            );
            old(self)@.chain.lemma_with_setting_twice(bl, bm, br, kl, km, kr);
            assert(v_key == old(self)@.with_chain(old(self)@.chain.with_setting(kl, km, kr)));
        }
        let msg = crate::sanitize::chars_to_string(&kept);
        proof {
            assert(all_letters(msg@));
        }
        let encoded_message = self.encode_for_current_rotor_setting(msg.as_str());
        proof {
            assert(final(self)@ =~= v_key.with_chain(v_key.chain.after_steps(message@.len() as nat)));
        }
        Ok(
            EncodingResult {
                message_length: n,
                basic_position,
                encoded_message_key,
                encoded_message,
            },
        )
    }
}

/// The engine's own message scan: substitutes the filler letter for
/// whitespace and collects the cap overrun and every rejected character.
fn engine_scan(message: &str) -> (r: (Vec<char>, MessageErrors))
    ensures
        r.1.length_exceeded == if message@.len() > 500 {
            Some(message@.len() as usize)
        } else {
            None::<usize>
        },
        r.1.unsupported@ == engine_offenders(message@),
        r.1.spec_is_empty() <==> (message@.len() <= 500 && forall|k: int|
            0 <= k < message@.len() ==> engine_accepts(#[trigger] message@[k])),
        r.1.spec_is_empty() ==> r.0@ == masked(message@),
{
    let n = message.unicode_len();
    let length_exceeded = if n > 500 {
        Some(n)
    } else {
        None
    };
    let mut kept: Vec<char> = Vec::new();
    let mut offending: Vec<char> = Vec::new();
    let mut k: usize = 0;
    while k < n
        invariant
            n == message@.len(),
            0 <= k <= n,
            offending@ == engine_offenders(message@.take(k as int)),
            offending@.len() == 0 ==> kept@ == masked(message@.take(k as int)),
        decreases n - k,
    {
        let c = message.get_char(k);
        let ghost prefix = message@.take(k as int);
        let ghost prefix1 = message@.take(k + 1);
        proof {
            assert(prefix1.drop_last() =~= prefix);
            assert(prefix1.last() == message@[k as int]);
        }
        if crate::sanitize::is_space_char(c) {
            kept.push('X');
            proof {
                reveal(Seq::filter);
                assert(offending@ =~= engine_offenders(prefix1));
                if offending@.len() == 0 {
                    assert(kept@ =~= masked(prefix1));
                }
            }
        } else if crate::alphabet::is_supported(c) {
            kept.push(c);
            proof {
                reveal(Seq::filter);
                assert(offending@ =~= engine_offenders(prefix1));
                if offending@.len() == 0 {
                    assert(kept@ =~= masked(prefix1));
                }
            }
        } else {
            offending.push(c);
            proof {
                reveal(Seq::filter);
                assert(offending@ =~= engine_offenders(prefix1));
            }
        }
        k += 1;
    }
    proof {
        assert(message@.take(n as int) =~= message@);
        lemma_no_engine_offenders(message@);
    }
    (kept, MessageErrors { length_exceeded, unsupported: offending })
}

/// No characters are rejected exactly when every character is a letter or
/// whitespace.
proof fn lemma_no_engine_offenders(s: Seq<char>)
    ensures
        engine_offenders(s).len() == 0 <==> (forall|k: int|
            0 <= k < s.len() ==> engine_accepts(#[trigger] s[k])),
    decreases s.len(),
{
    reveal(Seq::filter);
    if s.len() > 0 {
        lemma_no_engine_offenders(s.drop_last());
        assert(forall|k: int| 0 <= k < s.len() - 1 ==> s.drop_last()[k] == #[trigger] s[k]);
        assert(s[s.len() - 1] == s.last());
    }
}

} // verus!
