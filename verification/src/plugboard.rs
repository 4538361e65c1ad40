//! The plugboard: a mutable pairwise substitution over the alphabet that is
//! an involution at all times — every symbol is paired with itself or with
//! exactly one partner.

use vstd::prelude::*;
use crate::alphabet::{char_to_index, index_to_char, is_letter, letter_at, letter_index};
use crate::errors::{ConnectionError, InvalidSymbol};
use crate::wiring::{identity_wiring, is_involution};

verus! {

/// The table after connecting two distinct positions: the pair points at
/// each other, any previous partner of either falls back to itself, and
/// everything else is untouched.
pub open spec fn plug_connect(m: Seq<u8>, a: int, b: int) -> Seq<u8> {
    Seq::new(
        26,
        |i: int|
            if i == a {
                b as u8
            } else if i == b {
                a as u8
            } else if m[i] as int == a || m[i] as int == b {
                i as u8
            } else {
                m[i]
            },
    )
}

/// The table after disconnecting a position: it and its previous partner
/// fall back to themselves, everything else is untouched.
pub open spec fn plug_disconnect(m: Seq<u8>, a: int) -> Seq<u8> {
    Seq::new(
        26,
        |i: int|
            if i == a {
                a as u8
            } else if m[i] as int == a {
                i as u8
            } else {
                m[i]
            },
    )
}

/// Connecting two distinct positions keeps the table an involution.
pub proof fn lemma_connect_involution(m: Seq<u8>, a: int, b: int)
    requires
        is_involution(m),
        0 <= a < 26,
        0 <= b < 26,
        a != b,
    ensures
        is_involution(plug_connect(m, a, b)),
{
    let m2 = plug_connect(m, a, b);
    assert forall|i: int| 0 <= i < 26 implies m2[m2[i] as int] as int == i by {
        assert(m[m[i] as int] as int == i);
        if !(i == a || i == b || m[i] as int == a || m[i] as int == b) {
            assert(m[m[i] as int] as int == i);
            assert(m2[m[i] as int] == m[m[i] as int]);
        }
    }
}

/// Disconnecting a position keeps the table an involution.
pub proof fn lemma_disconnect_involution(m: Seq<u8>, a: int)
    requires
        is_involution(m),
        0 <= a < 26,
    ensures
        is_involution(plug_disconnect(m, a)),
{
    let m2 = plug_disconnect(m, a);
    assert forall|i: int| 0 <= i < 26 implies m2[m2[i] as int] as int == i by {
        assert(m[m[i] as int] as int == i);
        if !(i == a || m[i] as int == a) {
            assert(m2[m[i] as int] == m[m[i] as int]);
        }
    }
}

/// The user-configurable pairwise substitution stage.
#[derive(Debug)]
pub struct Plugboard {
    mapping: Vec<u8>,
}

impl View for Plugboard {
    type V = Seq<u8>;

    closed spec fn view(&self) -> Seq<u8> {
        self.mapping@
    }
}

impl Plugboard {
    /// The board with no cables: every symbol maps to itself.
    pub fn identity() -> (r: Plugboard)
        ensures
            r@ == identity_wiring(),
            is_involution(r@),
    {
        let mut mapping: Vec<u8> = Vec::new();
        let mut k: u8 = 0;
        while k < 26
            invariant
                0 <= k <= 26,
                mapping@.len() == k,
                forall|j: int| 0 <= j < k ==> mapping@[j] as int == j,
            decreases 26 - k,
        {
            mapping.push(k);
            k += 1;
        }
        proof {
            assert(mapping@ =~= identity_wiring());
        }
        Plugboard { mapping }
    }

    /// Plugs a cable between two symbols. Connecting a symbol to itself is
    /// the same as disconnecting it; any prior partner of either end is
    /// silently released.
    pub fn connect(&mut self, from: char, to: char) -> (r: Result<(), InvalidSymbol>)
        requires
            is_involution(old(self)@),
        ensures
            r is Ok <==> (is_letter(from) && is_letter(to)),
            r matches Err(e) ==> ({
                &&& *final(self) == *old(self)
                &&& !is_letter(e.symbol)
                &&& e.symbol == if is_letter(from) {
                    to
                } else {
                    from
                }
            }),
            r is Ok && from != to ==> final(self)@ == plug_connect(
                old(self)@,
                letter_index(from),
                letter_index(to),
            ),
            r is Ok && from == to ==> final(self)@ == plug_disconnect(
                old(self)@,
                letter_index(from),
            ),
            r is Ok ==> is_involution(final(self)@),
    {
        let a = match char_to_index(from) {
            Some(i) => i,
            None => {
                return Err(InvalidSymbol { symbol: from });
            },
        };
        let b = match char_to_index(to) {
            Some(i) => i,
            None => {
                return Err(InvalidSymbol { symbol: to });
            },
        };
        if a == b {
            match self.disconnect(from) {
                Ok(()) => (),
                Err(_) => {
                    return vstd::pervasive::unreached();
                },
            }
            return Ok(());
        }
        let pa = self.mapping[a as usize];
        let pb = self.mapping[b as usize];
        proof {
            assert(old(self)@[pa as int] as int == a);
            assert(old(self)@[pb as int] as int == b);
        }
        if pa != a && pa != b {
            self.mapping.set(pa as usize, pa);
        }
        if pb != a && pb != b {
            self.mapping.set(pb as usize, pb);
        }
        self.mapping.set(a as usize, b);
        self.mapping.set(b as usize, a);
        proof {
            assert(self.mapping@ =~= plug_connect(old(self)@, a as int, b as int));
            lemma_connect_involution(old(self)@, a as int, b as int);
        }
        Ok(())
    }

    /// Pulls the cable, if any, out of a symbol: it and its previous partner
    /// map to themselves again.
    pub fn disconnect(&mut self, char_to_disconnect: char) -> (r: Result<(), InvalidSymbol>)
        requires
            is_involution(old(self)@),
        ensures
            r is Ok <==> is_letter(char_to_disconnect),
            r matches Err(e) ==> *final(self) == *old(self) && e.symbol == char_to_disconnect,
            r is Ok ==> final(self)@ == plug_disconnect(
                old(self)@,
                letter_index(char_to_disconnect),
            ),
            r is Ok ==> is_involution(final(self)@),
    {
        let a = match char_to_index(char_to_disconnect) {
            Some(i) => i,
            None => {
                return Err(InvalidSymbol { symbol: char_to_disconnect });
            },
        };
        let pa = self.mapping[a as usize];
        proof {
            assert(old(self)@[pa as int] as int == a);
        }
        self.mapping.set(a as usize, a);
        if pa != a {
            self.mapping.set(pa as usize, pa);
        }
        proof {
            assert(self.mapping@ =~= plug_disconnect(old(self)@, a as int));
            lemma_disconnect_involution(old(self)@, a as int);
        }
        Ok(())
    }

    /// The substitution toward the machine: the index of the partner of a
    /// letter.
    pub fn encode_from_right(&self, letter: char) -> (r: u8)
        requires
            is_involution(self@),
            is_letter(letter),
        ensures
            r < 26,
            r as int == self@[letter_index(letter)],
    {
        let i = match char_to_index(letter) {
            Some(i) => i,
            None => {
                return vstd::pervasive::unreached();
            },
        };
        self.mapping[i as usize]
    }

    /// The substitution out of the machine: the partner of the letter at an
    /// index.
    pub fn encode_from_left(&self, i: u8) -> (r: char)
        requires
            is_involution(self@),
            i < 26,
        ensures
            r == letter_at(self@[i as int] as int),
    {
        index_to_char(self.mapping[i as usize])
    }
}

/// The plugboard involution invariant: however the board was rewired,
/// encoding a symbol and decoding the resulting index gives the symbol back,
/// and the table is symmetric.
pub proof fn lemma_plugboard_round_trip(m: Seq<u8>, s: char)
    requires
        is_involution(m),
        is_letter(s),
    ensures
        letter_at(m[m[letter_index(s)] as int] as int) == s,
        forall|i: int, j: int|
            0 <= i < 26 && 0 <= j < 26 ==> (m[i] as int == j <==> m[j] as int == i),
{
    assert(m[m[letter_index(s)] as int] as int == letter_index(s));
    crate::alphabet::lemma_letter_bijection(s, letter_index(s));
    assert forall|i: int, j: int|
        0 <= i < 26 && 0 <= j < 26 implies (m[i] as int == j <==> m[j] as int == i) by {
        assert(m[m[i] as int] as int == i);
        assert(m[m[j] as int] as int == j);
    }
}

/// The position of the first comma, or the length when there is none.
pub open spec fn first_comma(s: Seq<char>) -> nat
    decreases s.len(),
{
    if s.len() == 0 {
        0
    } else if s[0] == ',' {
        0
    } else {
        1 + first_comma(s.drop_first())
    }
}

/// A scan that saw no comma before position `i`, and a comma or the end at
/// `i`, found the first comma.
pub proof fn lemma_first_comma_at(s: Seq<char>, i: int)
    requires
        0 <= i <= s.len(),
        forall|j: int| 0 <= j < i ==> s[j] != ',',
        i < s.len() ==> s[i] == ',',
    ensures
        first_comma(s) == i,
    decreases s.len(),
{
    if i > 0 {
        let t = s.drop_first();
        assert(forall|j: int| 0 <= j < i - 1 ==> t[j] == s[j + 1] && s[j + 1] != ',');
        assert(i - 1 < t.len() ==> t[i - 1] == s[i as int]);
        lemma_first_comma_at(t, i - 1);
    }
}

/// The comma-separated pieces of a string, in order; a string without commas
/// is one piece, and every comma adds a piece.
pub open spec fn split_commas(s: Seq<char>) -> Seq<Seq<char>>
    decreases s.len(),
{
    let i = first_comma(s) as int;
    if i >= s.len() {
        seq![s]
    } else {
        seq![s.take(i)] + split_commas(s.skip(i + 1))
    }
}

/// A piece the list parser accepts: nothing at all, or a two-letter pair.
pub open spec fn segment_ok(seg: Seq<char>) -> bool {
    seg.len() == 0 || (seg.len() == 2 && is_letter(seg[0]) && is_letter(seg[1]))
}

/// The pairs spelt by the non-empty pieces, in order.
pub open spec fn segment_pairs(segments: Seq<Seq<char>>) -> Seq<(char, char)> {
    segments.filter(|g: Seq<char>| g.len() > 0).map_values(|g: Seq<char>| (g[0], g[1]))
}

/// Reads a comma-separated run of connection pairs, as the interactive
/// plugboard prompt accepts it: empty pieces are skipped, every other piece
/// must be a two-letter pair, and the complaints about all bad pieces are
/// joined into one report.
pub fn parse_connections(input: &str) -> (r: Result<Vec<PlugboardConnection>, String>)
    ensures
        r is Ok <==> (forall|k: int|
            0 <= k < split_commas(input@).len() ==> segment_ok(#[trigger] split_commas(input@)[k])),
        r matches Ok(v) ==> v@.map_values(|c: PlugboardConnection| c@) == segment_pairs(
            split_commas(input@),
        ),
    decreases input@.len(),
{
    broadcast use vstd::seq_lib::group_seq_properties;

    let n = input.unicode_len();
    let mut i: usize = 0;
    while i < n && input.get_char(i) != ','
        invariant
            n == input@.len(),
            0 <= i <= n,
            forall|j: int| 0 <= j < i ==> input@[j] != ',',
        decreases n - i,
    {
        i += 1;
    }
    proof {
        lemma_first_comma_at(input@, i as int);
    }
    let seg = input.substring_char(0, i);
    let ghost segments = split_commas(input@);
    if i == n {
        proof {
            assert(seg@ =~= input@);
            assert(segments =~= seq![input@]);
        }
        if seg.unicode_len() == 0 {
            let empty: Vec<PlugboardConnection> = Vec::new();
            proof {
                lemma_segment_pairs_skip_empty(input@, Seq::empty());
                assert(seq![input@] + Seq::<Seq<char>>::empty() =~= segments);
                lemma_segment_pairs_empty();
                assert(empty@.map_values(|c: PlugboardConnection| c@) =~= Seq::<(
                    char,
                    char,
                )>::empty());
            }
            Ok(empty)
        } else {
            match PlugboardConnection::create(seg) {
                Ok(c) => {
                    let mut one: Vec<PlugboardConnection> = Vec::new();
                    one.push(c);
                    proof {
                        lemma_segment_pairs_cons(input@, Seq::empty());
                        assert(seq![input@] + Seq::<Seq<char>>::empty() =~= segments);
                        lemma_segment_pairs_empty();
                        assert(one@.map_values(|c: PlugboardConnection| c@) =~= segment_pairs(
                            segments,
                        ));
                    }
                    Ok(one)
                },
                Err(e) => {
                    proof {
                        assert(!segment_ok(segments[0]));
                    }
                    Err(e.message())
                },
            }
        }
    } else {
        let rest = input.substring_char(i + 1, n);
        proof {
            assert(rest@ =~= input@.skip(i + 1));
            assert(segments =~= seq![input@.take(i as int)] + split_commas(rest@));
            assert(segments[0] == seg@);
            assert(forall|k: int|
                1 <= k < segments.len() ==> segments[k] == #[trigger] split_commas(rest@)[k - 1]);
        }
        let rest_result = parse_connections(rest);
        let current: Result<Option<PlugboardConnection>, String> = if seg.unicode_len() == 0 {
            Ok(None)
        } else {
            match PlugboardConnection::create(seg) {
                Ok(c) => Ok(Some(c)),
                Err(e) => Err(e.message()),
            }
        };
        match (current, rest_result) {
            (Ok(None), Ok(v)) => {
                proof {
                    lemma_segment_pairs_skip_empty(seg@, split_commas(rest@));
                    assert(segment_pairs(segments) =~= segment_pairs(split_commas(rest@)));
                    assert forall|k: int| 0 <= k < segments.len() implies segment_ok(
                        #[trigger] segments[k],
                    ) by {
                        if k >= 1 {
                            assert(segment_ok(split_commas(rest@)[k - 1]));
                        }
                    }
                }
                Ok(v)
            },
            (Ok(Some(c)), Ok(mut v)) => {
                v.insert(0, c);
                proof {
                    lemma_segment_pairs_cons(seg@, split_commas(rest@));
                    assert(v@.map_values(|c: PlugboardConnection| c@) =~= segment_pairs(segments));
                    assert forall|k: int| 0 <= k < segments.len() implies segment_ok(
                        #[trigger] segments[k],
                    ) by {
                        if k >= 1 {
                            assert(segment_ok(split_commas(rest@)[k - 1]));
                        }
                    }
                }
                Ok(v)
            },
            (Err(e), Ok(_)) => {
                proof {
                    assert(!segment_ok(segments[0]));
                }
                Err(e)
            },
            (Ok(_), Err(e)) => {
                proof {
                    let restseg = split_commas(rest@);
                    let kb = choose|k: int|
                        0 <= k < restseg.len() && !segment_ok(#[trigger] restseg[k]);
                    assert(!segment_ok(segments[kb + 1]));
                }
                Err(e)
            },
            (Err(e), Err(rest_errors)) => {
                proof {
                    assert(!segment_ok(segments[0]));
                }
                let mut joined = e;
                joined.append(", ");
                joined.append(rest_errors.as_str());
                Err(joined)
            },
        }
    }
}

/// No pieces, no pairs.
proof fn lemma_segment_pairs_empty()
    ensures
        segment_pairs(Seq::<Seq<char>>::empty()) == Seq::<(char, char)>::empty(),
{
    reveal(Seq::filter);
    let pred = |g: Seq<char>| g.len() > 0;
    assert(Seq::<Seq<char>>::empty().filter(pred) =~= Seq::<Seq<char>>::empty());
    assert(segment_pairs(Seq::<Seq<char>>::empty()) =~= Seq::<(char, char)>::empty());
}

/// An empty leading piece contributes no pair.
proof fn lemma_segment_pairs_skip_empty(seg: Seq<char>, rest: Seq<Seq<char>>)
    requires
        seg.len() == 0,
    ensures
        segment_pairs(seq![seg] + rest) == segment_pairs(rest),
    decreases rest.len(),
{
    let pred = |g: Seq<char>| g.len() > 0;
    Seq::filter_distributes_over_add(seq![seg], rest, pred);
    assert(seq![seg].filter(pred) =~= Seq::<Seq<char>>::empty()) by {
        reveal(Seq::filter);
        assert(seq![seg].drop_last() =~= Seq::<Seq<char>>::empty());
        assert(seq![seg].last() == seg);
        assert(!pred(seg));
        assert(Seq::<Seq<char>>::empty().filter(pred) =~= Seq::<Seq<char>>::empty());
    }
    assert((seq![seg] + rest).filter(pred) =~= rest.filter(pred));
}

/// A non-empty leading piece contributes its pair in front.
proof fn lemma_segment_pairs_cons(seg: Seq<char>, rest: Seq<Seq<char>>)
    requires
        seg.len() > 0,
    ensures
        segment_pairs(seq![seg] + rest) == seq![(seg[0], seg[1])] + segment_pairs(rest),
{
    let pred = |g: Seq<char>| g.len() > 0;
    Seq::filter_distributes_over_add(seq![seg], rest, pred);
    assert(seq![seg].filter(pred) =~= seq![seg]) by {
        reveal(Seq::filter);
        assert(seq![seg].drop_last() =~= Seq::<Seq<char>>::empty());
        assert(seq![seg].last() == seg);
        assert(pred(seg));
        assert(Seq::<Seq<char>>::empty().filter(pred) =~= Seq::<Seq<char>>::empty());
    }
    assert((seq![seg] + rest).filter(pred) =~= seq![seg] + rest.filter(pred));
    let f = |g: Seq<char>| (g[0], g[1]);
    assert((seq![seg] + rest.filter(pred)).map_values(f) =~= seq![(seg[0], seg[1])]
        + rest.filter(pred).map_values(f));
}

/// A validated plugboard cable: two distinct-or-equal alphabet letters read
/// from a two-character string.
#[derive(Debug)]
pub struct PlugboardConnection {
    pub(crate) left: char,
    pub(crate) right: char,
}

impl View for PlugboardConnection {
    type V = (char, char);

    closed spec fn view(&self) -> (char, char) {
        (self.left, self.right)
    }
}

impl PlugboardConnection {
    /// The first letter of the pair.
    pub fn left(&self) -> (c: char)
        ensures
            c == self@.0,
    {
        self.left
    }

    /// The second letter of the pair.
    pub fn right(&self) -> (c: char)
        ensures
            c == self@.1,
    {
        self.right
    }

    /// Reads a two-character string as a connection pair.
    pub fn create(character_pair: &str) -> (r: Result<PlugboardConnection, ConnectionError>)
        ensures
            r is Ok <==> (character_pair@.len() == 2 && is_letter(character_pair@[0]) && is_letter(
                character_pair@[1],
            )),
            r matches Ok(c) ==> c@ == (character_pair@[0], character_pair@[1]),
            character_pair@.len() != 2 ==> (r matches Err(ConnectionError::Format { input })
                && input@ == character_pair@),
            character_pair@.len() == 2 && !(is_letter(character_pair@[0]) && is_letter(
                character_pair@[1],
            )) ==> r matches Err(ConnectionError::Symbol { .. }),
            r matches Err(ConnectionError::Symbol { symbol }) ==> ({
                &&& !is_letter(symbol)
                &&& symbol == if is_letter(character_pair@[0]) {
                    character_pair@[1]
                } else {
                    character_pair@[0]
                }
            }),
    {
        if character_pair.unicode_len() != 2 {
            return Err(ConnectionError::Format { input: character_pair.to_owned() });
        }
        let p0 = character_pair.get_char(0);
        let p1 = character_pair.get_char(1);
        if !crate::alphabet::is_supported(p0) {
            return Err(ConnectionError::Symbol { symbol: p0 });
        }
        if !crate::alphabet::is_supported(p1) {
            return Err(ConnectionError::Symbol { symbol: p1 });
        }
        Ok(PlugboardConnection { left: p0, right: p1 })
    }
}

} // verus!
