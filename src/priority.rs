use vstd::prelude::*;

verus! {

/// How urgent a task is. `High` sorts first.
#[derive(Clone, Copy, Debug, PartialEq, Eq, Structural, PartialOrd, Ord, Hash)]
pub enum Priority {
    High,
    Medium,
    Low,
}

/// A foreground colour used when a task or its due status is shown.
#[derive(Clone, Copy, Debug, PartialEq, Eq, Structural, Hash)]
pub enum Color {
    Red,
    Yellow,
    Green,
}

/// Position of a priority in the order `High < Medium < Low`; this is also
/// its code in the persistence format.
pub open spec fn rank(p: Priority) -> nat {
    match p {
        Priority::High => 0,
        Priority::Medium => 1,
        Priority::Low => 2,
    }
}

/// The priority whose code is `c`, if any.
pub open spec fn priority_of_code(c: int) -> Option<Priority> {
    if c == 0 {
        Some(Priority::High)
    } else if c == 1 {
        Some(Priority::Medium)
    } else if c == 2 {
        Some(Priority::Low)
    } else {
        None
    }
}

pub open spec fn color_of(p: Priority) -> Color {
    match p {
        Priority::High => Color::Red,
        Priority::Medium => Color::Yellow,
        Priority::Low => Color::Green,
    }
}

impl Priority {
    /// The display colour: red, yellow or green from high to low.
    pub fn color(&self) -> (r: Color)
        ensures
            r == color_of(*self),
    {
        match self {
            Priority::High => Color::Red,
            Priority::Medium => Color::Yellow,
            Priority::Low => Color::Green,
        }
    }

    /// The stored code of this priority.
    pub fn code(&self) -> (r: u8)
        ensures
            r as nat == rank(*self),
    {
        match self {
            Priority::High => 0,
            Priority::Medium => 1,
            Priority::Low => 2,
        }
    }

    /// Decodes a stored code; unknown codes give `None`.
    pub fn from_code(c: u8) -> (r: Option<Priority>)
        ensures
            r == priority_of_code(c as int),
    {
        if c == 0 {
            Some(Priority::High)
        } else if c == 1 {
            Some(Priority::Medium)
        } else if c == 2 {
            Some(Priority::Low)
        } else {
            None
        }
    }

    /// `true` when `self` sorts strictly before `other`.
    pub fn precedes(&self, other: &Priority) -> (r: bool)
        ensures
            r == (rank(*self) < rank(*other)),
    {
        self.code() < other.code()
    }
}

/// Every priority decodes back from its own code, and codes are distinct.
pub proof fn lemma_code_round_trip(p: Priority, q: Priority)
    ensures
        priority_of_code(rank(p) as int) == Some(p),
        rank(p) == rank(q) ==> p == q,
{
}

} // verus!
