//! What splitting a command line means, as a function on sequences of code units.
//!
//! A command line is the part of a buffer before its first zero unit. Its first token, the
//! executable name, is cut off by a rule of its own in which nothing is escaped; the rest is
//! read one unit at a time by a small machine that counts backslashes and tracks quotes.

use vstd::prelude::*;
use crate::utf16::encode_utf16;

verus! {

/// The backslash, `\`.
pub const BACKSLASH: u16 = 0x5C;

/// The quote mark, `"`.
pub const QUOTE: u16 = 0x22;

/// The horizontal tab.
pub const TAB: u16 = 0x09;

/// The space.
pub const SPACE: u16 = 0x20;

/// The token that stands for the executable name when the command line is empty.
pub open spec fn placeholder() -> Seq<u16> {
    encode_utf16("TEST.EXE"@)
}

/// The index of the first unit of `s` that lies between `low` and `high`, both included;
/// `s.len()` where there is none.
pub open spec fn first_index(s: Seq<u16>, low: u16, high: u16) -> int
    decreases s.len(),
{
    if s.len() == 0 || low <= s[0] <= high {
        0
    } else {
        1 + first_index(s.skip(1), low, high)
    }
}

/// The index of the first terminator (zero) of `s`.
pub open spec fn first_terminator(s: Seq<u16>) -> int {
    first_index(s, 0, 0)
}

/// The index of the first quote mark of `s`.
pub open spec fn first_quote(s: Seq<u16>) -> int {
    first_index(s, QUOTE, QUOTE)
}

/// The index of the first unit of `s` that ends an unquoted executable name: a space or any
/// control unit below it, zero apart.
pub open spec fn first_blank(s: Seq<u16>) -> int {
    first_index(s, 1, SPACE)
}

/// The command line held in a buffer: the units before the first terminator.
pub open spec fn command_line(buffer: Seq<u16>) -> Seq<u16> {
    buffer.take(first_terminator(buffer))
}

/// `n` backslashes.
pub open spec fn backslash_run(n: nat) -> Seq<u16> {
    Seq::new(n, |i: int| BACKSLASH)
}

/// The state of the machine that reads the arguments.
pub struct Scan {
    /// The arguments that are complete, in order.
    pub done: Seq<Seq<u16>>,
    /// The argument being built.
    pub cur: Seq<u16>,
    /// A quoted run is open.
    pub in_quotes: bool,
    /// The unit just read was a quote that closed a quoted run.
    pub was_in_quotes: bool,
    /// How many backslashes were read since the last unit that was none.
    pub backslashes: nat,
}

/// The state before any unit is read.
pub open spec fn scan_start() -> Scan {
    Scan {
        done: Seq::empty(),
        cur: Seq::empty(),
        in_quotes: false,
        was_in_quotes: false,
        backslashes: 0,
    }
}

/// The state after reading the unit `c` in state `st`.
pub open spec fn scan_step(st: Scan, c: u16) -> Scan {
    if c == BACKSLASH {
        Scan { backslashes: st.backslashes + 1, was_in_quotes: false, ..st }
    } else if c == QUOTE && st.backslashes % 2 == 0 {
        // An even run of backslashes before a quote: half of them are literal, and the
        // quote either is the second of a doubled pair or opens or closes a quoted run.
        let cur = st.cur + backslash_run(st.backslashes / 2);
        if st.was_in_quotes {
            Scan { cur: cur.push(QUOTE), backslashes: 0, was_in_quotes: false, ..st }
        } else {
            Scan {
                cur,
                backslashes: 0,
                was_in_quotes: st.in_quotes,
                in_quotes: !st.in_quotes,
                ..st
            }
        }
    } else if c == QUOTE {
        // An odd run: half of them, rounded down, are literal and the last escapes the quote.
        Scan {
            cur: (st.cur + backslash_run(st.backslashes / 2)).push(QUOTE),
            backslashes: 0,
            was_in_quotes: false,
            ..st
        }
    } else if (c == SPACE || c == TAB) && !st.in_quotes {
        let cur = st.cur + backslash_run(st.backslashes);
        if cur.len() > 0 || st.was_in_quotes {
            Scan {
                done: st.done.push(cur),
                cur: Seq::empty(),
                backslashes: 0,
                was_in_quotes: false,
                ..st
            }
        } else {
            Scan { cur, backslashes: 0, was_in_quotes: false, ..st }
        }
    } else {
        Scan {
            cur: (st.cur + backslash_run(st.backslashes)).push(c),
            backslashes: 0,
            was_in_quotes: false,
            ..st
        }
    }
}

/// The state after reading all of `s`, one unit after the other, from the start state.
pub open spec fn scan(s: Seq<u16>) -> Scan
    decreases s.len(),
{
    if s.len() == 0 {
        scan_start()
    } else {
        scan_step(scan(s.drop_last()), s.last())
    }
}

/// The arguments that a state stands for when the input ends there: the pending backslashes
/// are literal, and the argument being built counts if it holds anything or if a quote was
/// opened or just closed for it.
pub open spec fn scan_finish(st: Scan) -> Seq<Seq<u16>> {
    let cur = st.cur + backslash_run(st.backslashes);
    if cur.len() > 0 || st.was_in_quotes || st.in_quotes {
        st.done.push(cur)
    } else {
        st.done
    }
}

/// The arguments in `s`, read with the quoting and escaping rules from its first unit on.
pub open spec fn arguments(s: Seq<u16>) -> Seq<Seq<u16>> {
    scan_finish(scan(s))
}

/// The executable name at the start of a non-empty command line.
pub open spec fn executable_name(line: Seq<u16>) -> Seq<u16> {
    if line[0] == QUOTE {
        line.skip(1).take(first_quote(line.skip(1)))
    } else if line[0] <= SPACE {
        Seq::empty()
    } else {
        line.take(first_blank(line))
    }
}

/// What follows the executable name and the one unit that ended it; `None` where the name
/// runs to the end of the line.
pub open spec fn after_executable_name(line: Seq<u16>) -> Option<Seq<u16>> {
    if line[0] == QUOTE {
        let close = first_quote(line.skip(1));
        if close < line.len() - 1 {
            Some(line.skip(close + 2))
        } else {
            None
        }
    } else if line[0] <= SPACE {
        Some(line.skip(1))
    } else {
        let blank = first_blank(line);
        if blank < line.len() {
            Some(line.skip(blank + 1))
        } else {
            None
        }
    }
}

/// The tokens of a non-empty command line: the executable name, then the arguments.
pub open spec fn tokenize_line(line: Seq<u16>) -> Seq<Seq<u16>> {
    match after_executable_name(line) {
        Some(rest) => seq![executable_name(line)] + arguments(rest),
        None => seq![executable_name(line)],
    }
}

/// The tokens of the command line held in `buffer`.
pub open spec fn tokenize(buffer: Seq<u16>) -> Seq<Seq<u16>> {
    let line = command_line(buffer);
    if line.len() == 0 {
        seq![placeholder()]
    } else {
        tokenize_line(line)
    }
}

/// `first_index` is within the sequence, no unit before it lies in the range, and the unit
/// at it does.
pub proof fn lemma_first_index(s: Seq<u16>, low: u16, high: u16)
    ensures
        0 <= first_index(s, low, high) <= s.len(),
        forall|j: int| 0 <= j < first_index(s, low, high) ==> !(low <= #[trigger] s[j] <= high),
        first_index(s, low, high) < s.len() ==> low <= s[first_index(s, low, high)] <= high,
    decreases s.len(),
{
    if s.len() > 0 && !(low <= s[0] <= high) {
        let t = s.skip(1);
        lemma_first_index(t, low, high);
        assert forall|j: int| 0 <= j < first_index(s, low, high) implies !(low <= #[trigger] s[j]
            <= high) by {
            if j > 0 {
                assert(t[j - 1] == s[j]);
            }
        }
    }
}

/// The first index at which a unit lies in the range, or the length where none does, is
/// `first_index`.
pub proof fn lemma_first_index_is(s: Seq<u16>, low: u16, high: u16, n: int)
    requires
        0 <= n <= s.len(),
        forall|j: int| 0 <= j < n ==> !(low <= #[trigger] s[j] <= high),
        n < s.len() ==> low <= s[n] <= high,
    ensures
        first_index(s, low, high) == n,
{
    lemma_first_index(s, low, high);
}

} // verus!
