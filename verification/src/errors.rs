//! Error values returned by the machine. Every failure is reported as a
//! value, never as an abort, and each error can render the report text that
//! the interactive front end shows.

use vstd::prelude::*;
use crate::alphabet::SUPPORTED_ALPHABET;
use crate::text::{decimal_digits, decimal_string, push_char};

verus! {

/// Report for a symbol outside the alphabet.
pub open spec fn invalid_symbol_text(c: char) -> Seq<char> {
    "Character '"@ + seq![c] + "' is not in supported alphabet: "@
        + "ABCDEFGHIJKLMNOPQRSTUVWXYZ"@
}

/// Report for one unsupported message character.
pub open spec fn unsupported_character_text(c: char) -> Seq<char> {
    "Unsupported character '"@ + seq![c] + "'"@
}

/// Report for a message over the length cap.
pub open spec fn length_exceeded_text(n: nat) -> Seq<char> {
    "Input length exceeded allowed limit of 500, as it contains "@ + decimal_digits(n)
        + " characters"@
}

/// The reports for a run of unsupported characters, joined by commas.
pub open spec fn characters_joined_text(cs: Seq<char>) -> Seq<char>
    decreases cs.len(),
{
    if cs.len() == 0 {
        Seq::empty()
    } else if cs.len() == 1 {
        unsupported_character_text(cs[0])
    } else {
        unsupported_character_text(cs[0]) + ", "@ + characters_joined_text(cs.drop_first())
    }
}

pub proof fn lemma_characters_joined_push(cs: Seq<char>, c: char)
    ensures
        characters_joined_text(cs.push(c)) =~= if cs.len() == 0 {
            unsupported_character_text(c)
        } else {
            characters_joined_text(cs) + ", "@ + unsupported_character_text(c)
        },
    decreases cs.len(),
{
    if cs.len() == 0 {
        assert(cs.push(c).len() == 1);
        assert(cs.push(c)[0] == c);
    } else {
        assert(cs.push(c).drop_first() =~= cs.drop_first().push(c));
        lemma_characters_joined_push(cs.drop_first(), c);
        if cs.len() == 1 {
            assert(characters_joined_text(cs) == unsupported_character_text(cs[0]));
        }
    }
}

/// A character outside the alphabet was handed to a per-symbol operation.
#[derive(Debug)]
pub struct InvalidSymbol {
    pub symbol: char,
}

impl InvalidSymbol {
    pub fn message(&self) -> (r: String)
        ensures
            r@ == invalid_symbol_text(self.symbol),
    {
        let mut s = String::new();
        s.append("Character '");
        push_char(&mut s, self.symbol);
        s.append("' is not in supported alphabet: ");
        s.append(SUPPORTED_ALPHABET);
        s
    }
}

/// A rotor-chain setting string that is not three alphabet letters.
#[derive(Debug)]
pub enum InvalidSetting {
    /// The setting does not hold exactly three characters.
    WrongLength { actual: usize },
    /// The setting holds a character outside the alphabet.
    Symbol { symbol: char },
}

/// Report for a malformed rotor-chain setting.
pub open spec fn setting_length_text(n: nat) -> Seq<char> {
    "New setting for rotor chain is unsupported. Required 3 characters, got "@
        + decimal_digits(n) + "."@
}

/// Report for a rotor-chain setting with a foreign symbol.
pub open spec fn setting_symbol_text(c: char) -> Seq<char> {
    invalid_symbol_text(c) + "."@
}

impl InvalidSetting {
    pub fn message(&self) -> (r: String)
        ensures
            self matches InvalidSetting::WrongLength { actual } ==> r@ == setting_length_text(
                actual as nat,
            ),
            self matches InvalidSetting::Symbol { symbol } ==> r@ == setting_symbol_text(*symbol),
    {
        match self {
            InvalidSetting::WrongLength { actual } => {
                let mut s = String::new();
                s.append("New setting for rotor chain is unsupported. Required 3 characters, got ");
                let d = decimal_string(*actual);
                s.append(d.as_str());
                s.append(".");
                s
            },
            InvalidSetting::Symbol { symbol } => {
                let mut s = InvalidSymbol { symbol: *symbol }.message();
                s.append(".");
                s
            },
        }
    }
}

/// Malformed wiring or turnover data handed to a constructor.
#[derive(Debug)]
pub enum ConfigurationError {
    /// A wiring character outside the alphabet.
    WiringSymbol { symbol: char },
    /// The wiring does not hold exactly 26 letters.
    WiringLength { actual: usize },
    /// The wiring repeats a letter, so it is no permutation.
    NotAPermutation,
    /// The wiring is not self-inverse where an involution is required.
    NotAnInvolution,
    /// A turnover character outside the alphabet.
    TurnoverSymbol { symbol: char },
}

impl ConfigurationError {
    pub fn message(&self) -> (r: String)
        ensures
            self matches ConfigurationError::WiringSymbol { symbol } ==> r@ == "Alphabet error: '"@
                + seq![*symbol] + "' must be a letter from set '"@
                + "ABCDEFGHIJKLMNOPQRSTUVWXYZ"@ + "'"@,
            self matches ConfigurationError::TurnoverSymbol { symbol } ==> r@
                == "Turnover error: '"@ + seq![*symbol] + "' must be a letter from set '"@
                + "ABCDEFGHIJKLMNOPQRSTUVWXYZ"@ + "'"@,
            self matches ConfigurationError::WiringLength { actual } ==> r@
                == "Wiring error: expected 26 letters, got "@ + decimal_digits(actual as nat),
            self is NotAPermutation ==> r@ == "Wiring error: every letter must be used exactly once"@,
            self is NotAnInvolution ==> r@ == "Wiring error: the wiring must be self-inverse"@,
    {
        match self {
            ConfigurationError::WiringSymbol { symbol } => {
                let mut s = String::new();
                s.append("Alphabet error: '");
                push_char(&mut s, *symbol);
                s.append("' must be a letter from set '");
                s.append(SUPPORTED_ALPHABET);
                s.append("'");
                s
            },
            ConfigurationError::TurnoverSymbol { symbol } => {
                let mut s = String::new();
                s.append("Turnover error: '");
                push_char(&mut s, *symbol);
                s.append("' must be a letter from set '");
                s.append(SUPPORTED_ALPHABET);
                s.append("'");
                s
            },
            ConfigurationError::WiringLength { actual } => {
                let mut s = String::new();
                s.append("Wiring error: expected 26 letters, got ");
                let d = decimal_string(*actual);
                s.append(d.as_str());
                s
            },
            ConfigurationError::NotAPermutation => {
                let mut s = String::new();
                s.append("Wiring error: every letter must be used exactly once");
                s
            },
            ConfigurationError::NotAnInvolution => {
                let mut s = String::new();
                s.append("Wiring error: the wiring must be self-inverse");
                s
            },
        }
    }
}

/// A malformed plugboard connection pair.
#[derive(Debug)]
pub enum ConnectionError {
    /// The pair does not hold exactly two characters.
    Format { input: String },
    /// A pair character outside the alphabet.
    Symbol { symbol: char },
}

/// Report for a pair string of the wrong shape.
pub open spec fn connection_format_text(s: Seq<char>) -> Seq<char> {
    "Expected only pairs (2 values) split by comma character (,), but found: "@ + s
}

/// Report for a pair character outside the alphabet.
pub open spec fn connection_symbol_text(c: char) -> Seq<char> {
    "Value '"@ + seq![c] + "' is not allowed as part of plugboard. Allowed: "@
        + "ABCDEFGHIJKLMNOPQRSTUVWXYZ"@
}

impl ConnectionError {
    pub fn message(&self) -> (r: String)
        ensures
            self matches ConnectionError::Format { input } ==> r@ == connection_format_text(
                input@,
            ),
            self matches ConnectionError::Symbol { symbol } ==> r@ == connection_symbol_text(
                *symbol,
            ),
    {
        match self {
            ConnectionError::Format { input } => {
                let mut s = String::new();
                s.append("Expected only pairs (2 values) split by comma character (,), but found: ");
                s.append(input.as_str());
                s
            },
            ConnectionError::Symbol { symbol } => {
                let mut s = String::new();
                s.append("Value '");
                push_char(&mut s, *symbol);
                s.append("' is not allowed as part of plugboard. Allowed: ");
                s.append(SUPPORTED_ALPHABET);
                s
            },
        }
    }
}

/// Everything wrong with a message handed in for encoding: the cap overrun,
/// if any, and every character outside alphabet-plus-whitespace, in order.
#[derive(Debug)]
pub struct MessageErrors {
    /// The actual character count, when it is over the cap of 500.
    pub length_exceeded: Option<usize>,
    /// Every offending character, in message order.
    pub unsupported: Vec<char>,
}

/// The aggregated report: the length complaint first, then one complaint per
/// offending character, joined by commas.
pub open spec fn message_errors_text(length_exceeded: Option<usize>, cs: Seq<char>) -> Seq<char> {
    match length_exceeded {
        Some(n) => if cs.len() == 0 {
            length_exceeded_text(n as nat)
        } else {
            length_exceeded_text(n as nat) + ", "@ + characters_joined_text(cs)
        },
        None => characters_joined_text(cs),
    }
}

/// Why an encode call failed: a bad message, or a bad rotor-chain setting.
#[derive(Debug)]
pub enum EncodeError {
    /// The message broke the length cap or held foreign characters.
    Message(MessageErrors),
    /// The basic position or the message key is not a valid setting.
    Setting(InvalidSetting),
}

impl EncodeError {
    pub fn message(&self) -> (r: String)
        ensures
            self matches EncodeError::Message(e) ==> r@ == message_errors_text(
                e.length_exceeded,
                e.unsupported@,
            ),
            self matches EncodeError::Setting(e) ==> ({
                ||| (e matches InvalidSetting::WrongLength { actual } && r@ == setting_length_text(
                    actual as nat,
                ))
                ||| (e matches InvalidSetting::Symbol { symbol } && r@ == setting_symbol_text(
                    *symbol,
                ))
            }),
    {
        match self {
            EncodeError::Message(e) => e.message(),
            EncodeError::Setting(e) => e.message(),
        }
    }
}

impl MessageErrors {
    /// Whether anything at all went wrong.
    pub open spec fn spec_is_empty(&self) -> bool {
        self.length_exceeded is None && self.unsupported@.len() == 0
    }

    pub fn is_empty(&self) -> (r: bool)
        ensures
            r == self.spec_is_empty(),
    {
        self.length_exceeded.is_none() && self.unsupported.len() == 0
    }

    pub fn message(&self) -> (r: String)
        ensures
            r@ == message_errors_text(self.length_exceeded, self.unsupported@),
    {
        let mut s = String::new();
        let mut first = true;
        match &self.length_exceeded {
            Some(n) => {
                s.append("Input length exceeded allowed limit of 500, as it contains ");
                let d = decimal_string(*n);
                s.append(d.as_str());
                s.append(" characters");
                first = false;
            },
            None => {},
        }
        let count = self.unsupported.len();
        let mut k: usize = 0;
        while k < count
            invariant
                count == self.unsupported@.len(),
                0 <= k <= count,
                first <==> (self.length_exceeded is None && k == 0),
                self.length_exceeded matches Some(n) ==> s@ =~= (if k == 0 {
                    length_exceeded_text(n as nat)
                } else {
                    length_exceeded_text(n as nat) + ", "@ + characters_joined_text(
                        self.unsupported@.take(k as int),
                    )
                }),
                self.length_exceeded is None ==> s@ =~= characters_joined_text(
                    self.unsupported@.take(k as int),
                ),
            decreases count - k,
        {
            if !first {
                s.append(", ");
            }
            first = false;
            s.append("Unsupported character '");
            push_char(&mut s, self.unsupported[k]);
            s.append("'");
            proof {
                let taken = self.unsupported@.take(k as int);
                lemma_characters_joined_push(taken, self.unsupported@[k as int]);
                assert(self.unsupported@.take(k + 1) =~= taken.push(self.unsupported@[k as int]));
            }
            k += 1;
        }
        proof {
            assert(self.unsupported@.take(count as int) =~= self.unsupported@);
        }
        s
    }
}

} // verus!
