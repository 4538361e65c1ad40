//! The ordered triple of rotors: composed substitution in both directions,
//! and the synchronized stepping rule with the double-step anomaly.

use vstd::prelude::*;
use crate::alphabet::{is_letter, letter_index};
use crate::errors::InvalidSetting;
use crate::rotor::{Rotor, RotorView};
use crate::wiring::m26;

verus! {

/// The mathematical model of the chain: three rotor models in their fixed
/// positional roles.
#[verifier::ext_equal]
pub ghost struct RotorChainView {
    pub left: RotorView,
    pub middle: RotorView,
    pub right: RotorView,
}

impl RotorChainView {
    pub open spec fn wf(self) -> bool {
        self.left.wf() && self.middle.wf() && self.right.wf()
    }

    /// One tick of the mechanism, taken before every encoded character.
    /// The right wheel always advances. The middle wheel advances when the
    /// right wheel sat on a notch, or when it sits on a notch itself — the
    /// double-step anomaly. The left wheel advances exactly when the middle
    /// wheel sat on its own notch.
    pub open spec fn step(self) -> RotorChainView {
        let right_at = self.right.at_turnover();
        let middle_at = self.middle.at_turnover();
        RotorChainView {
            left: if middle_at {
                self.left.stepped()
            } else {
                self.left
            },
            middle: if right_at || middle_at {
                self.middle.stepped()
            } else {
                self.middle
            },
            right: self.right.stepped(),
        }
    }

    /// The chain after `n` ticks.
    pub open spec fn after_steps(self, n: nat) -> RotorChainView
        decreases n,
    {
        if n == 0 {
            self
        } else {
            self.after_steps((n - 1) as nat).step()
        }
    }

    /// The composed substitution toward the reflector: right, then middle,
    /// then left.
    pub open spec fn fwd(self, i: int) -> int {
        self.left.fwd(self.middle.fwd(self.right.fwd(i)))
    }

    /// The composed substitution away from the reflector: the mirror order.
    pub open spec fn bwd(self, i: int) -> int {
        self.right.bwd(self.middle.bwd(self.left.bwd(i)))
    }

    /// The chain with all three wheels turned to absolute positions.
    pub open spec fn with_setting(self, l: int, m: int, r: int) -> RotorChainView {
        RotorChainView {
            left: self.left.with_offset(l),
            middle: self.middle.with_offset(m),
            right: self.right.with_offset(r),
        }
    }

    /// Ticks move only the offsets: turning the wheels to absolute
    /// positions afterwards gives the same chain as turning them without
    /// the ticks.
    pub proof fn lemma_after_steps_with_setting(self, n: nat, l: int, m: int, r: int)
        ensures
            self.after_steps(n).with_setting(l, m, r) == self.with_setting(l, m, r),
        decreases n,
    {
        if n > 0 {
            self.lemma_after_steps_with_setting((n - 1) as nat, l, m, r);
            let prev = self.after_steps((n - 1) as nat);
            assert(prev.step().with_setting(l, m, r) =~~= prev.with_setting(l, m, r));
        }
    }

    /// Turning the wheels twice keeps only the second setting.
    pub proof fn lemma_with_setting_twice(self, l1: int, m1: int, r1: int, l2: int, m2: int, r2: int)
        ensures
            self.with_setting(l1, m1, r1).with_setting(l2, m2, r2) == self.with_setting(
                l2,
                m2,
                r2,
            ),
    {
        assert(self.with_setting(l1, m1, r1).with_setting(l2, m2, r2) =~~= self.with_setting(
            l2,
            m2,
            r2,
        ));
    }

    /// Any number of ticks keeps every wheel well formed.
    pub proof fn lemma_after_steps_wf(self, n: nat)
        requires
            self.wf(),
        ensures
            self.after_steps(n).wf(),
        decreases n,
    {
        if n > 0 {
            self.lemma_after_steps_wf((n - 1) as nat);
        }
    }
}

/// The two directions through the chain undo each other at any fixed
/// position of the wheels.
pub proof fn lemma_chain_fwd_bwd(c: RotorChainView, i: int)
    requires
        c.wf(),
        0 <= i < 26,
    ensures
        0 <= c.fwd(i) < 26,
        0 <= c.bwd(i) < 26,
        c.bwd(c.fwd(i)) == i,
        c.fwd(c.bwd(i)) == i,
{
    crate::rotor::lemma_rotor_fwd_bwd(c.right, i);
    crate::rotor::lemma_rotor_fwd_bwd(c.middle, c.right.fwd(i));
    crate::rotor::lemma_rotor_fwd_bwd(c.left, c.middle.fwd(c.right.fwd(i)));
    crate::rotor::lemma_rotor_fwd_bwd(c.left, i);
    crate::rotor::lemma_rotor_fwd_bwd(c.middle, c.left.bwd(i));
    crate::rotor::lemma_rotor_fwd_bwd(c.right, c.middle.bwd(c.left.bwd(i)));
}

/// The ordered rotor triple of the machine.
#[derive(Debug)]
pub struct RotorChain {
    left: Rotor,
    middle: Rotor,
    right: Rotor,
}

impl View for RotorChain {
    type V = RotorChainView;

    closed spec fn view(&self) -> RotorChainView {
        RotorChainView { left: self.left@, middle: self.middle@, right: self.right@ }
    }
}

impl RotorChain {
    /// Takes ownership of the three rotors, left to right.
    pub fn new(left: Rotor, middle: Rotor, right: Rotor) -> (r: RotorChain)
        ensures
            r@.left == left@,
            r@.middle == middle@,
            r@.right == right@,
    {
        RotorChain { left, middle, right }
    }

    /// Turns the three wheels to the positions spelt by a three-letter
    /// setting; rejects anything that is not three alphabet letters, leaving
    /// the chain untouched.
    pub fn change_setting(&mut self, new_setting: &str) -> (r: Result<(), InvalidSetting>)
        ensures
            r is Ok <==> (new_setting@.len() == 3 && forall|k: int|
                0 <= k < 3 ==> is_letter(#[trigger] new_setting@[k])),
            r is Ok ==> final(self)@ == old(self)@.with_setting(
                letter_index(new_setting@[0]),
                letter_index(new_setting@[1]),
                letter_index(new_setting@[2]),
            ),
            r is Err ==> *final(self) == *old(self),
            new_setting@.len() != 3 ==> (r matches Err(InvalidSetting::WrongLength { actual })
                && actual == new_setting@.len()),
            r matches Err(InvalidSetting::WrongLength { actual }) ==> (new_setting@.len() != 3
                && actual == new_setting@.len()),
            r matches Err(InvalidSetting::Symbol { symbol }) ==> ({
                &&& new_setting@.len() == 3
                &&& !is_letter(symbol)
                &&& exists|k: int| 0 <= k < 3 && new_setting@[k] == symbol
            }),
    {
        let n = new_setting.unicode_len();
        if n != 3 {
            return Err(InvalidSetting::WrongLength { actual: n });
        }
        let c0 = new_setting.get_char(0);
        let c1 = new_setting.get_char(1);
        let c2 = new_setting.get_char(2);
        match crate::alphabet::char_to_index(c0) {
            Some(_) => (),
            None => {
                return Err(InvalidSetting::Symbol { symbol: c0 });
            },
        }
        match crate::alphabet::char_to_index(c1) {
            Some(_) => (),
            None => {
                return Err(InvalidSetting::Symbol { symbol: c1 });
            },
        }
        match crate::alphabet::char_to_index(c2) {
            Some(_) => (),
            None => {
                return Err(InvalidSetting::Symbol { symbol: c2 });
            },
        }
        match self.left.turn_to_character(c0) {
            Ok(()) => (),
            Err(_) => {
                return vstd::pervasive::unreached();
            },
        }
        match self.middle.turn_to_character(c1) {
            Ok(()) => (),
            Err(_) => {
                return vstd::pervasive::unreached();
            },
        }
        match self.right.turn_to_character(c2) {
            Ok(()) => (),
            Err(_) => {
                return vstd::pervasive::unreached();
            },
        }
        Ok(())
    }

    /// The left wheel.
    pub fn left(&self) -> (r: &Rotor)
        ensures
            r@ == self@.left,
    {
        &self.left
    }

    /// The middle wheel.
    pub fn middle(&self) -> (r: &Rotor)
        ensures
            r@ == self@.middle,
    {
        &self.middle
    }

    /// The right wheel.
    pub fn right(&self) -> (r: &Rotor)
        ensures
            r@ == self@.right,
    {
        &self.right
    }

    /// The composed substitution toward the reflector.
    pub fn encode_from_right(&self, encoded: u8) -> (r: u8)
        requires
            self@.wf(),
            encoded < 26,
        ensures
            r < 26,
            r as int == self@.fwd(encoded as int),
    {
        let e = self.right.encode_from_right(encoded);
        let e = self.middle.encode_from_right(e);
        self.left.encode_from_right(e)
    }

    /// The composed substitution away from the reflector.
    pub fn encode_from_left(&self, encoded: u8) -> (r: u8)
        requires
            self@.wf(),
            encoded < 26,
        ensures
            r < 26,
            r as int == self@.bwd(encoded as int),
    {
        let e = self.left.encode_from_left(encoded);
        let e = self.middle.encode_from_left(e);
        self.right.encode_from_left(e)
    }

    /// One tick of the mechanism, exactly as `RotorChainView::step` states
    /// it.
    pub fn rotate(&mut self)
        requires
            old(self)@.wf(),
        ensures
            final(self)@ == old(self)@.step(),
    {
        let middle_was_at_turnover = self.middle.is_in_turnover_position();
        let will_rotate_middle = self.right.rotate();
        if will_rotate_middle || middle_was_at_turnover {
            let will_rotate_left = self.middle.rotate();
            if will_rotate_left {
                self.left.rotate();
            }
        }
    }
}

/// The positions reached after any number of ticks are a function of the
/// starting setting alone: two chains that start equal stay equal.
pub proof fn lemma_stepping_deterministic(a: RotorChainView, b: RotorChainView, n: nat)
    requires
        a == b,
    ensures
        a.after_steps(n) == b.after_steps(n),
{
}

/// The right wheel is the odometer: it advances on every tick, so its
/// position after any number of ticks is reproducible by plain arithmetic.
pub proof fn lemma_right_wheel_position(c: RotorChainView, n: nat)
    requires
        c.wf(),
    ensures
        c.after_steps(n).right.offset == m26(c.right.offset + n),
    decreases n,
{
    if n == 0 {
        assert(m26(c.right.offset + 0) == c.right.offset);
    } else {
        lemma_right_wheel_position(c, (n - 1) as nat);
        let prev = c.after_steps((n - 1) as nat);
        assert(prev.step().right.offset == m26(prev.right.offset + 1));
        let k = (c.right.offset + n - 1) / 26;
        assert(m26(c.right.offset + n - 1) == c.right.offset + n - 1 - 26 * k);
        crate::wiring::lemma_m26_shift(c.right.offset + n, -k);
    }
}

/// The double-step anomaly: a middle wheel sitting on its own notch advances
/// on this tick even when the right wheel is off its notch, and it drags the
/// left wheel along.
pub proof fn lemma_middle_notch_forces_step(c: RotorChainView)
    requires
        c.wf(),
        c.middle.at_turnover(),
    ensures
        c.step().middle.offset == m26(c.middle.offset + 1),
        c.step().left.offset == m26(c.left.offset + 1),
{
}

/// The double step in sequence: when the right wheel sits on its notch and
/// the middle wheel is about to land on its own, the middle wheel advances
/// on two consecutive ticks.
pub proof fn lemma_double_step(c: RotorChainView)
    requires
        c.wf(),
        c.right.at_turnover(),
        c.middle.stepped().at_turnover(),
    ensures
        c.step().middle.offset == m26(c.middle.offset + 1),
        c.step().step().middle.offset == m26(c.middle.offset + 2),
{
    let c1 = c.step();
    assert(c1.middle == c.middle.stepped());
    assert(c1.step().middle.offset == m26(m26(c.middle.offset + 1) + 1));
    let k = (c.middle.offset + 1) / 26;
    assert(m26(c.middle.offset + 1) == c.middle.offset + 1 - 26 * k);
    crate::wiring::lemma_m26_shift(c.middle.offset + 2, -k);
}

} // verus!
