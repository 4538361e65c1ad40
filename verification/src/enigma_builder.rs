//! The validating builder: collects optional parts in any order, reports
//! exactly which required part is missing, and stays reusable after a failed
//! build so that the missing part can be supplied and the build retried.

use vstd::prelude::*;
use crate::alphabet::{is_letter, letter_index};
use crate::enigma::{Enigma, EnigmaView};
use crate::entry_disk::{EntryDisk, EntryDiskView};
use crate::plugboard::{
    plug_connect, plug_disconnect, Plugboard, PlugboardConnection,
};
use crate::reflector::Reflector;
use crate::rotor::{Rotor, RotorView};
use crate::rotor_chain::{RotorChain, RotorChainView};
use crate::wiring::{identity_wiring, is_involution};

verus! {

/// Which rotor slot an error speaks of.
#[derive(Debug, Clone, Copy, PartialEq, Eq, Structural)]
pub enum RotorPlacement {
    Left,
    Middle,
    Right,
}

impl RotorPlacement {
    /// The slot's name, as the reports print it.
    pub fn label(&self) -> (r: String)
        ensures
            *self is Left ==> r@ == "Left"@,
            *self is Middle ==> r@ == "Middle"@,
            *self is Right ==> r@ == "Right"@,
    {
        let mut s = String::new();
        match self {
            RotorPlacement::Left => s.append("Left"),
            RotorPlacement::Middle => s.append("Middle"),
            RotorPlacement::Right => s.append("Right"),
        }
        s
    }
}

/// Why a build attempt failed, naming the part at fault so that a caller
/// can supply just that part and retry.
#[derive(Debug)]
pub enum BuildError {
    RotorError(RotorPlacement, String),
    PlugboardError(String),
    EntryDiskError(String),
    ReflectorError(String),
}

/// The mathematical model of the builder: the slots, each possibly still
/// empty, and the requested plugboard cables.
#[verifier::ext_equal]
pub ghost struct EnigmaBuilderView {
    pub entry_disk: Option<EntryDiskView>,
    pub reflector: Option<Seq<u8>>,
    pub rotor_left: Option<RotorView>,
    pub rotor_middle: Option<RotorView>,
    pub rotor_right: Option<RotorView>,
    pub plugboard_connections: Seq<(char, char)>,
}

impl EnigmaBuilderView {
    /// All five required slots are filled.
    pub open spec fn complete(self) -> bool {
        &&& self.rotor_left is Some
        &&& self.rotor_middle is Some
        &&& self.rotor_right is Some
        &&& self.entry_disk is Some
        &&& self.reflector is Some
    }

    /// Every part that is present is well formed.
    pub open spec fn parts_wf(self) -> bool {
        &&& (self.entry_disk matches Some(d) ==> d.wf())
        &&& (self.reflector matches Some(w) ==> is_involution(w))
        &&& (self.rotor_left matches Some(r) ==> r.wf())
        &&& (self.rotor_middle matches Some(r) ==> r.wf())
        &&& (self.rotor_right matches Some(r) ==> r.wf())
    }
}

/// Both ends of every cable are alphabet letters.
pub open spec fn connections_valid(conns: Seq<(char, char)>) -> bool {
    forall|k: int|
        0 <= k < conns.len() ==> is_letter(#[trigger] conns[k].0) && is_letter(conns[k].1)
}

/// The plugboard that results from patching a run of cables into a board,
/// in order: a cable with equal ends disconnects, any other connects, and a
/// cable with a bad end leaves the board alone.
pub open spec fn plug_after(m: Seq<u8>, conns: Seq<(char, char)>) -> Seq<u8>
    decreases conns.len(),
{
    if conns.len() == 0 {
        m
    } else {
        let c = conns[0];
        let m1 = if !is_letter(c.0) || !is_letter(c.1) {
            m
        } else if c.0 == c.1 {
            plug_disconnect(m, letter_index(c.0))
        } else {
            plug_connect(m, letter_index(c.0), letter_index(c.1))
        };
        plug_after(m1, conns.drop_first())
    }
}

/// Patching one more cable at the end.
pub proof fn lemma_plug_after_push(m: Seq<u8>, conns: Seq<(char, char)>, c: (char, char))
    ensures
        plug_after(m, conns.push(c)) == ({
            let m1 = plug_after(m, conns);
            if !is_letter(c.0) || !is_letter(c.1) {
                m1
            } else if c.0 == c.1 {
                plug_disconnect(m1, letter_index(c.0))
            } else {
                plug_connect(m1, letter_index(c.0), letter_index(c.1))
            }
        }),
    decreases conns.len(),
{
    let applied = |m1: Seq<u8>|
        if !is_letter(c.0) || !is_letter(c.1) {
            m1
        } else if c.0 == c.1 {
            plug_disconnect(m1, letter_index(c.0))
        } else {
            plug_connect(m1, letter_index(c.0), letter_index(c.1))
        };
    if conns.len() == 0 {
        assert(conns.push(c)[0] == c);
        assert(conns.push(c).drop_first() =~= Seq::<(char, char)>::empty());
        assert(plug_after(m, conns) == m);
        assert(plug_after(m, conns.push(c)) == plug_after(applied(m), conns.push(c).drop_first()));
        assert(plug_after(applied(m), conns.push(c).drop_first()) == applied(m));
    } else {
        assert(conns.push(c).drop_first() =~= conns.drop_first().push(c));
        assert(conns.push(c)[0] == conns[0]);
        let c0 = conns[0];
        let m1 = if !is_letter(c0.0) || !is_letter(c0.1) {
            m
        } else if c0.0 == c0.1 {
            plug_disconnect(m, letter_index(c0.0))
        } else {
            plug_connect(m, letter_index(c0.0), letter_index(c0.1))
        };
        lemma_plug_after_push(m1, conns.drop_first(), c);
        assert(plug_after(m, conns.push(c)) == plug_after(m1, conns.drop_first().push(c)));
        assert(plug_after(m1, conns.drop_first().push(c)) == applied(plug_after(m1, conns.drop_first())));
        assert(plug_after(m, conns) == plug_after(m1, conns.drop_first()));
    }
}

/// Patching cables keeps the board an involution.
pub proof fn lemma_plug_after_involution(m: Seq<u8>, conns: Seq<(char, char)>)
    requires
        is_involution(m),
    ensures
        is_involution(plug_after(m, conns)),
    decreases conns.len(),
{
    if conns.len() > 0 {
        let c = conns[0];
        if !is_letter(c.0) || !is_letter(c.1) {
            lemma_plug_after_involution(m, conns.drop_first());
        } else if c.0 == c.1 {
            crate::plugboard::lemma_disconnect_involution(m, letter_index(c.0));
            lemma_plug_after_involution(
                plug_disconnect(m, letter_index(c.0)),
                conns.drop_first(),
            );
        } else {
            crate::plugboard::lemma_connect_involution(
                m,
                letter_index(c.0),
                letter_index(c.1),
            );
            lemma_plug_after_involution(
                plug_connect(m, letter_index(c.0), letter_index(c.1)),
                conns.drop_first(),
            );
        }
    }
}

/// Collects the parts of a cipher engine and assembles them after
/// validation.
pub struct EnigmaBuilder {
    entry_disk: Option<EntryDisk>,
    reflector: Option<Reflector>,
    rotor_left: Option<Rotor>,
    rotor_middle: Option<Rotor>,
    rotor_right: Option<Rotor>,
    plugboard_connections: Vec<PlugboardConnection>,
}

impl View for EnigmaBuilder {
    type V = EnigmaBuilderView;

    closed spec fn view(&self) -> EnigmaBuilderView {
        EnigmaBuilderView {
            entry_disk: match self.entry_disk {
                Some(d) => Some(d@),
                None => None,
            },
            reflector: match self.reflector {
                Some(r) => Some(r@),
                None => None,
            },
            rotor_left: match self.rotor_left {
                Some(r) => Some(r@),
                None => None,
            },
            rotor_middle: match self.rotor_middle {
                Some(r) => Some(r@),
                None => None,
            },
            rotor_right: match self.rotor_right {
                Some(r) => Some(r@),
                None => None,
            },
            plugboard_connections: self.plugboard_connections@.map_values(
                |c: PlugboardConnection| c@,
            ),
        }
    }
}

impl EnigmaBuilder {
    /// A fresh builder: the entry disk defaults to the identity, everything
    /// else still has to be supplied.
    pub fn init() -> (r: EnigmaBuilder)
        ensures
            r@.entry_disk matches Some(d) && d.wf() && d.wiring == identity_wiring(),
            r@.reflector is None,
            r@.rotor_left is None,
            r@.rotor_middle is None,
            r@.rotor_right is None,
            r@.plugboard_connections.len() == 0,
            r@.parts_wf(),
    {
        let r = EnigmaBuilder {
            entry_disk: Some(EntryDisk::identity()),
            reflector: None,
            rotor_left: None,
            rotor_middle: None,
            rotor_right: None,
            plugboard_connections: Vec::new(),
        };
        proof {
            assert(r@.plugboard_connections =~= Seq::<(char, char)>::empty());
        }
        r
    }

    /// Supplies the entry disk.
    pub fn entry_disk(self, entry_disk: EntryDisk) -> (r: Self)
        ensures
            r@ == (EnigmaBuilderView { entry_disk: Some(entry_disk@), ..self@ }),
    {
        EnigmaBuilder { entry_disk: Some(entry_disk), ..self }
    }

    /// Supplies the reflector.
    pub fn reflector(self, reflector: Reflector) -> (r: Self)
        ensures
            r@ == (EnigmaBuilderView { reflector: Some(reflector@), ..self@ }),
    {
        EnigmaBuilder { reflector: Some(reflector), ..self }
    }

    /// Supplies the left rotor.
    pub fn rotor_left(self, rotor_left: Rotor) -> (r: Self)
        ensures
            r@ == (EnigmaBuilderView { rotor_left: Some(rotor_left@), ..self@ }),
    {
        EnigmaBuilder { rotor_left: Some(rotor_left), ..self }
    }

    /// Supplies the middle rotor.
    pub fn rotor_middle(self, rotor_middle: Rotor) -> (r: Self)
        ensures
            r@ == (EnigmaBuilderView { rotor_middle: Some(rotor_middle@), ..self@ }),
    {
        EnigmaBuilder { rotor_middle: Some(rotor_middle), ..self }
    }

    /// Supplies the right rotor.
    pub fn rotor_right(self, rotor_right: Rotor) -> (r: Self)
        ensures
            r@ == (EnigmaBuilderView { rotor_right: Some(rotor_right@), ..self@ }),
    {
        EnigmaBuilder { rotor_right: Some(rotor_right), ..self }
    }

    /// Supplies the list of plugboard cables.
    pub fn plugboard_connections(self, plugboard_connections: Vec<PlugboardConnection>) -> (r:
        Self)
        ensures
            r@ == (EnigmaBuilderView {
                plugboard_connections: plugboard_connections@.map_values(
                    |c: PlugboardConnection| c@,
                ),
                ..self@
            }),
    {
        EnigmaBuilder { plugboard_connections, ..self }
    }

    /// Checks that every required part is present, reporting the first
    /// missing one in the fixed order left rotor, middle rotor, right
    /// rotor, entry disk, reflector.
    fn validate_ready_to_build(&self) -> (r: Result<(), BuildError>)
        ensures
            r is Ok <==> self@.complete(),
            self@.rotor_left is None ==> (r matches Err(BuildError::RotorError(p, m))
                && p is Left && m@ == "Left rotor is required"@),
            self@.rotor_left is Some && self@.rotor_middle is None ==> (r matches Err(
                BuildError::RotorError(p, m),
            ) && p is Middle && m@ == "Middle rotor is required"@),
            self@.rotor_left is Some && self@.rotor_middle is Some && self@.rotor_right is None
                ==> (r matches Err(BuildError::RotorError(p, m)) && p is Right && m@
                == "Right rotor is required"@),
            self@.rotor_left is Some && self@.rotor_middle is Some && self@.rotor_right is Some
                && self@.entry_disk is None ==> (r matches Err(BuildError::EntryDiskError(m))
                && m@ == "Entry disk is required"@),
            self@.rotor_left is Some && self@.rotor_middle is Some && self@.rotor_right is Some
                && self@.entry_disk is Some && self@.reflector is None ==> (r matches Err(
                BuildError::ReflectorError(m),
            ) && m@ == "Reflector is required"@),
    {
        if self.rotor_left.is_none() {
            let mut m = String::new();
            m.append("Left rotor is required");
            return Err(BuildError::RotorError(RotorPlacement::Left, m));
        }
        if self.rotor_middle.is_none() {
            let mut m = String::new();
            m.append("Middle rotor is required");
            return Err(BuildError::RotorError(RotorPlacement::Middle, m));
        }
        if self.rotor_right.is_none() {
            let mut m = String::new();
            m.append("Right rotor is required");
            return Err(BuildError::RotorError(RotorPlacement::Right, m));
        }
        if self.entry_disk.is_none() {
            let mut m = String::new();
            m.append("Entry disk is required");
            return Err(BuildError::EntryDiskError(m));
        }
        if self.reflector.is_none() {
            let mut m = String::new();
            m.append("Reflector is required");
            return Err(BuildError::ReflectorError(m));
        }
        Ok(())
    }

    /// Validates and assembles the engine. On success the five part slots
    /// are emptied; on failure the builder is left as it was, so that the
    /// missing or offending part can be supplied and the build retried.
    pub fn build(&mut self) -> (r: Result<Enigma, BuildError>)
        requires
            old(self)@.parts_wf(),
        ensures
            r is Ok <==> (old(self)@.complete() && connections_valid(
                old(self)@.plugboard_connections,
            )),
            r is Err ==> *final(self) == *old(self),
            !old(self)@.complete() ==> (r matches Err(e) && !(e is PlugboardError)),
            old(self)@.complete() && !connections_valid(old(self)@.plugboard_connections) ==> (
            r matches Err(BuildError::PlugboardError(_))),
            r matches Ok(engine) ==> ({
                &&& engine@ == (EnigmaView {
                    plugboard: plug_after(
                        identity_wiring(),
                        old(self)@.plugboard_connections,
                    ),
                    entry: old(self)@.entry_disk->0,
                    chain: RotorChainView {
                        left: old(self)@.rotor_left->0,
                        middle: old(self)@.rotor_middle->0,
                        right: old(self)@.rotor_right->0,
                    },
                    reflector: old(self)@.reflector->0,
                })
                &&& engine@.wf()
                &&& final(self)@ == (EnigmaBuilderView {
                    entry_disk: None,
                    reflector: None,
                    rotor_left: None,
                    rotor_middle: None,
                    rotor_right: None,
                    plugboard_connections: old(self)@.plugboard_connections,
                })
            }),
    {
        match self.validate_ready_to_build() {
            Ok(()) => (),
            Err(e) => {
                return Err(e);
            },
        }
        let ghost conns = self@.plugboard_connections;
        let mut plugboard = Plugboard::identity();
        let n = self.plugboard_connections.len();
        let mut k: usize = 0;
        while k < n
            invariant
                n == self.plugboard_connections@.len(),
                0 <= k <= n,
                conns == self@.plugboard_connections,
                conns.len() == n,
                *self == *old(self),
                old(self)@.complete(),
                is_involution(plugboard@),
                plugboard@ == plug_after(identity_wiring(), conns.take(k as int)),
                forall|j: int|
                    0 <= j < k ==> (is_letter((#[trigger] conns[j]).0) && is_letter(conns[j].1)),
            decreases n - k,
        {
            let from = self.plugboard_connections[k].left();
            let to = self.plugboard_connections[k].right();
            proof {
                assert(conns[k as int] == self.plugboard_connections@[k as int]@);
            }
            let res = plugboard.connect(from, to);
            match res {
                Ok(()) => (),
                Err(e) => {
                    proof {
                        assert(!(is_letter(conns[k as int].0) && is_letter(conns[k as int].1)));
                    }
                    return Err(BuildError::PlugboardError(e.message()));
                },
            }
            proof {
                assert(from == conns[k as int].0 && to == conns[k as int].1);
                assert(is_letter(conns[k as int].0) && is_letter(conns[k as int].1));
                lemma_plug_after_push(identity_wiring(), conns.take(k as int), conns[k as int]);
                assert(conns.take(k + 1) =~= conns.take(k as int).push(conns[k as int]));
            }
            k += 1;
        }
        proof {
            assert(conns.take(n as int) =~= conns);
            lemma_plug_after_involution(identity_wiring(), conns);
        }
        let rotor_left = match self.rotor_left.take() {
            Some(r) => r,
            None => vstd::pervasive::unreached(),
        };
        let rotor_middle = match self.rotor_middle.take() {
            Some(r) => r,
            None => vstd::pervasive::unreached(),
        };
        let rotor_right = match self.rotor_right.take() {
            Some(r) => r,
            None => vstd::pervasive::unreached(),
        };
        let entry_disk = match self.entry_disk.take() {
            Some(d) => d,
            None => vstd::pervasive::unreached(),
        };
        let reflector = match self.reflector.take() {
            Some(r) => r,
            None => vstd::pervasive::unreached(),
        };
        let rotor_chain = RotorChain::new(rotor_left, rotor_middle, rotor_right);
        Ok(Enigma::new(plugboard, entry_disk, rotor_chain, reflector))
    }
}

} // verus!
