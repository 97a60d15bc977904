use vstd::prelude::*;

use crate::codec::{digit_value, is_digit};
use crate::priority::Priority;

verus! {

/// A command of the interactive loop.
#[derive(Clone, Copy, Debug, PartialEq, Eq, Structural, Hash)]
pub enum Command {
    Add,
    Complete,
    Print,
    Quit,
    Unknown,
}

pub open spec fn command_spec(s: Seq<char>) -> Command {
    if s == "add"@ {
        Command::Add
    } else if s == "complete"@ {
        Command::Complete
    } else if s == "print"@ {
        Command::Print
    } else if s == "quit"@ {
        Command::Quit
    } else {
        Command::Unknown
    }
}

/// Whether the two texts hold the same characters.
fn same_text(a: &str, b: &str) -> (r: bool)
    ensures
        r == (a@ == b@),
{
    let n = a.unicode_len();
    if n != b.unicode_len() {
        return false;
    }
    let mut i: usize = 0;
    while i < n
        invariant
            n == a@.len(),
            n == b@.len(),
            i <= n,
            forall|k: int| 0 <= k < i ==> a@[k] == b@[k],
        decreases n - i,
    {
        if a.get_char(i) != b.get_char(i) {
            return false;
        }
        i = i + 1;
    }
    assert(a@ =~= b@);
    true
}

impl Command {
    /// The command that a (trimmed) input line names; matching is exact.
    pub fn parse(s: &str) -> (r: Command)
        ensures
            r == command_spec(s@),
    {
        if same_text(s, "add") {
            Command::Add
        } else if same_text(s, "complete") {
            Command::Complete
        } else if same_text(s, "print") {
            Command::Print
        } else if same_text(s, "quit") {
            Command::Quit
        } else {
            Command::Unknown
        }
    }

    /// Only `quit` ends the session.
    pub fn ends_session(&self) -> (r: bool)
        ensures
            r == (*self == Command::Quit),
    {
        match self {
            Command::Quit => true,
            _ => false,
        }
    }
}

pub open spec fn priority_token(s: Seq<char>) -> Option<Priority> {
    if s == "high"@ {
        Some(Priority::High)
    } else if s == "medium"@ {
        Some(Priority::Medium)
    } else if s == "low"@ {
        Some(Priority::Low)
    } else {
        None
    }
}

/// The priority that an input line names, and whether it named none, in
/// which case the priority is `Medium` and a warning is due.
pub fn priority_input(s: &str) -> (r: (Priority, bool))
    ensures
        match priority_token(s@) {
            Some(p) => r == (p, false),
            None => r == (Priority::Medium, true),
        },
{
    if same_text(s, "high") {
        (Priority::High, false)
    } else if same_text(s, "medium") {
        (Priority::Medium, false)
    } else if same_text(s, "low") {
        (Priority::Low, false)
    } else {
        (Priority::Medium, true)
    }
}

/// The value of a string of decimal digits.
pub open spec fn decimal_value(s: Seq<char>) -> int
    decreases s.len(),
{
    if s.len() == 0 {
        0
    } else {
        10 * decimal_value(s.drop_last()) + digit_value(s.last())
    }
}

pub open spec fn all_digits(s: Seq<char>) -> bool {
    forall|k: int| 0 <= k < s.len() ==> is_digit(#[trigger] s[k])
}

/// The text after an optional leading `+`.
pub open spec fn unsigned_part(s: Seq<char>) -> Seq<char> {
    if s.len() > 0 && s[0] == '+' {
        s.drop_first()
    } else {
        s
    }
}

/// The index that an input line denotes: decimal digits after an optional
/// `+`, with a value that fits in `usize`.
pub open spec fn index_spec(s: Seq<char>) -> Option<usize> {
    let d = unsigned_part(s);
    if d.len() > 0 && all_digits(d) && decimal_value(d) <= usize::MAX {
        Some(decimal_value(d) as usize)
    } else {
        None
    }
}

proof fn lemma_decimal_nonneg(s: Seq<char>)
    requires
        all_digits(s),
    ensures
        decimal_value(s) >= 0,
    decreases s.len(),
{
    if s.len() > 0 {
        assert(all_digits(s.drop_last())) by {
            assert forall|k: int| 0 <= k < s.drop_last().len() implies is_digit(
                #[trigger] s.drop_last()[k],
            ) by {
                assert(s.drop_last()[k] == s[k]);
            }
        }
        lemma_decimal_nonneg(s.drop_last());
    }
}

/// Reads a task index as typed by the user.
pub fn parse_index(s: &str) -> (r: Option<usize>)
    ensures
        r == index_spec(s@),
{
    let n = s.unicode_len();
    let mut start: usize = 0;
    if n > 0 && s.get_char(0) == '+' {
        start = 1;
    }
    let ghost d = unsigned_part(s@);
    assert(d =~= s@.subrange(start as int, n as int));
    if start == n {
        return None;
    }
    let mut v: usize = 0;
    let mut i: usize = start;
    while i < n
        invariant
            n == s@.len(),
            start <= i <= n,
            d == unsigned_part(s@),
            d == s@.subrange(start as int, n as int),
            all_digits(s@.subrange(start as int, i as int)),
            v == decimal_value(s@.subrange(start as int, i as int)),
        decreases n - i,
    {
        let c = s.get_char(i);
        let cv = c as u32;
        let ghost pre = s@.subrange(start as int, i as int);
        let ghost next = s@.subrange(start as int, i + 1);
        assert(next.drop_last() =~= pre);
        if cv < 48 || cv > 57 {
            assert(!is_digit(c));
            assert(d[i - start] == c);
            assert(!all_digits(d));
            return None;
        }
        assert(all_digits(next)) by {
            assert forall|k: int| 0 <= k < next.len() implies is_digit(#[trigger] next[k]) by {
                if k < pre.len() {
                    assert(next[k] == pre[k]);
                }
            }
        }
        let dv = (cv - 48) as usize;
        if v > (usize::MAX - dv) / 10 {
            proof {
                assert(decimal_value(next) == 10 * v + dv);
                assert(d.subrange(0, i + 1 - start) =~= next);
                if all_digits(d) {
                    lemma_decimal_grows(d, i + 1 - start);
                }
            }
            return None;
        }
        v = v * 10 + dv;
        i = i + 1;
    }
    assert(s@.subrange(start as int, i as int) =~= d);
    Some(v)
}

/// Appending digits never makes a decimal value smaller.
proof fn lemma_decimal_grows(d: Seq<char>, k: int)
    requires
        all_digits(d),
        0 <= k <= d.len(),
    ensures
        decimal_value(d) >= decimal_value(d.subrange(0, k)),
    decreases d.len() - k,
{
    if k == d.len() {
        assert(d.subrange(0, k) =~= d);
    } else {
        let p = d.subrange(0, k);
        let q = d.subrange(0, k + 1);
        assert(q.drop_last() =~= p);
        assert(all_digits(p)) by {
            assert forall|m: int| 0 <= m < p.len() implies is_digit(#[trigger] p[m]) by {
                assert(p[m] == d[m]);
            }
        }
        lemma_decimal_nonneg(p);
        assert(is_digit(d[k]));
        assert(q.last() == d[k]);
        lemma_decimal_grows(d, k + 1);
    }
}

} // verus!
