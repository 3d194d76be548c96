//! What a decoder waits for.

use vstd::prelude::*;

verus! {

/// Condition on one pin.
#[derive(Clone, Copy, Debug, PartialEq, Eq, Structural)]
pub enum PinCondition {
    High,
    Low,
    Rising,
    Falling,
    EitherEdge,
    NoEdge,
}

impl PinCondition {
    /// Whether the condition holds, given the level of the pin now and one sample before.
    pub open spec fn holds(self, current: bool, previous: bool) -> bool {
        match self {
            PinCondition::High => current,
            PinCondition::Low => !current,
            PinCondition::Rising => !previous && current,
            PinCondition::Falling => previous && !current,
            PinCondition::EitherEdge => previous != current,
            PinCondition::NoEdge => previous == current,
        }
    }

    /// Tells whether the condition holds, given the level of the pin now and one sample before.
    pub fn check(self, current: bool, previous: bool) -> (result: bool)
        ensures
            result == self.holds(current, previous),
    {
        match self {
            PinCondition::High => current,
            PinCondition::Low => !current,
            PinCondition::Rising => !previous && current,
            PinCondition::Falling => previous && !current,
            PinCondition::EitherEdge => previous != current,
            PinCondition::NoEdge => previous == current,
        }
    }

    /// The condition that a code letter of a wait request stands for.
    pub open spec fn of_code(code: Seq<char>) -> Option<PinCondition> {
        if code == seq!['h'] {
            Some(PinCondition::High)
        } else if code == seq!['l'] {
            Some(PinCondition::Low)
        } else if code == seq!['r'] {
            Some(PinCondition::Rising)
        } else if code == seq!['f'] {
            Some(PinCondition::Falling)
        } else if code == seq!['e'] {
            Some(PinCondition::EitherEdge)
        } else if code == seq!['n'] {
            Some(PinCondition::NoEdge)
        } else {
            None
        }
    }

    /// Reads a code letter of a wait request.
    pub fn from_code(code: &str) -> (result: Option<PinCondition>)
        ensures
            result == Self::of_code(code@),
    {
        let letters: Vec<char> = crate::text::to_chars(code);
        if letters.len() != 1 {
            return None;
        }
        let letter: char = letters[0];
        assert(code@ =~= seq![letter]);
        assert(seq!['h'][0] == 'h' && seq!['l'][0] == 'l' && seq!['r'][0] == 'r' && seq!['f'][0]
            == 'f' && seq!['e'][0] == 'e' && seq!['n'][0] == 'n' && code@[0] == letter);
        if letter == 'h' {
            Some(PinCondition::High)
        } else if letter == 'l' {
            Some(PinCondition::Low)
        } else if letter == 'r' {
            Some(PinCondition::Rising)
        } else if letter == 'f' {
            Some(PinCondition::Falling)
        } else if letter == 'e' {
            Some(PinCondition::EitherEdge)
        } else if letter == 'n' {
            Some(PinCondition::NoEdge)
        } else {
            None
        }
    }
}

/// An either-edge condition holds exactly where a rising or a falling one does, that is where the
/// level differs from the one before, and a no-edge condition exactly where it does not. A rise is a
/// high level behind a low one; seen backwards in time it is a fall.
pub proof fn law_edges_are_changes_of_level(current: bool, previous: bool)
    ensures
        PinCondition::EitherEdge.holds(current, previous) <==> (PinCondition::Rising.holds(
            current,
            previous,
        ) || PinCondition::Falling.holds(current, previous)),
        PinCondition::EitherEdge.holds(current, previous) <==> current != previous,
        PinCondition::NoEdge.holds(current, previous) <==> !PinCondition::EitherEdge.holds(
            current,
            previous,
        ),
        PinCondition::Rising.holds(current, previous) <==> (PinCondition::High.holds(
            current,
            previous,
        ) && PinCondition::Low.holds(previous, current)),
        PinCondition::Falling.holds(current, previous) <==> PinCondition::Rising.holds(
            previous,
            current,
        ),
        PinCondition::High.holds(current, previous) <==> current,
        PinCondition::Low.holds(current, previous) <==> !PinCondition::High.holds(current, previous),
{
}

/// Every code letter stands for what it abbreviates, and no other text is a code.
pub proof fn law_code_letters(code: Seq<char>, current: bool, previous: bool)
    ensures
        PinCondition::of_code(code) is Some <==> code.len() == 1 && seq![
            'h',
            'l',
            'r',
            'f',
            'e',
            'n',
        ].contains(code[0]),
        PinCondition::of_code(code) matches Some(condition) ==> {
            &&& code[0] == 'h' ==> (condition.holds(current, previous) <==> current)
            &&& code[0] == 'l' ==> (condition.holds(current, previous) <==> !current)
            &&& code[0] == 'r' ==> (condition.holds(current, previous) <==> current && !previous)
            &&& code[0] == 'f' ==> (condition.holds(current, previous) <==> previous && !current)
            &&& code[0] == 'e' ==> (condition.holds(current, previous) <==> current != previous)
            &&& code[0] == 'n' ==> (condition.holds(current, previous) <==> current == previous)
        },
{
    let letters = seq!['h', 'l', 'r', 'f', 'e', 'n'];
    assert(letters[0] == 'h' && letters[1] == 'l' && letters[2] == 'r' && letters[3] == 'f'
        && letters[4] == 'e' && letters[5] == 'n');
    if code.len() == 1 {
        assert(code =~= seq![code[0]]);
        assert(seq!['h'][0] == 'h' && seq!['l'][0] == 'l' && seq!['r'][0] == 'r' && seq!['f'][0]
            == 'f' && seq!['e'][0] == 'e' && seq!['n'][0] == 'n');
    }
}

/// One term of a condition.
#[derive(Clone, Copy, Debug, PartialEq, Eq, Structural)]
pub enum WaitTerm {
    Pin { channel: usize, condition: PinCondition },
    /// A number of samples to let pass.
    Skip(u64),
    Never,
}

impl WaitTerm {
    pub fn pin(channel: usize, condition: PinCondition) -> (result: Self)
        ensures
            result == (WaitTerm::Pin { channel, condition }),
    {
        WaitTerm::Pin { channel, condition }
    }
}

/// Terms that must all hold.
#[derive(Debug, Clone, PartialEq, Eq)]
pub struct WaitCondition {
    pub terms: Vec<WaitTerm>,
}

impl Default for WaitCondition {
    fn default() -> (result: Self)
        ensures
            result.terms@ == Seq::<WaitTerm>::empty(),
    {
        WaitCondition { terms: Vec::new() }
    }
}

impl WaitCondition {
    pub fn new(terms: Vec<WaitTerm>) -> (result: Self)
        ensures
            result == (WaitCondition { terms }),
    {
        WaitCondition { terms }
    }

    pub fn terms(&self) -> (result: &[WaitTerm])
        ensures
            result@ == self.terms@,
    {
        self.terms.as_slice()
    }
}

/// What a decoder asks for.
#[derive(Debug, Clone, PartialEq, Eq)]
pub enum WaitRequest {
    /// The next sample.
    Next,
    /// A sample that meets one of the conditions.
    Conditions(Vec<WaitCondition>),
}

} // verus!
