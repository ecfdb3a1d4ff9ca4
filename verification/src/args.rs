//! The tokenizer, and the double-ended run of tokens that it fills.

use std::collections::VecDeque;
use vstd::prelude::*;
use vstd::slice::slice_subrange;
use crate::tokens::{
    backslash_run, first_index, lemma_first_index, lemma_first_index_is, scan, tokenize,
    BACKSLASH, QUOTE, SPACE, TAB,
};
use crate::wtf8like::{lemma_wide_tokens_push, wide_tokens, IsWtf8Buf, IsWtf8Slice};

verus! {

/// The tokens of a command line that are still to be handed out, first to last.
pub struct ArgsWtf8<S> {
    inner: VecDeque<S>,
}

impl<S> View for ArgsWtf8<S> {
    type V = Seq<S>;

    closed spec fn view(&self) -> Seq<S> {
        self.inner@
    }
}

impl<S: IsWtf8Buf> ArgsWtf8<S> {
    /// The code units of each token that is left.
    pub open spec fn wide(&self) -> Seq<Seq<u16>> {
        wide_tokens(self@)
    }

    /// Splits a complete command line, executable name first.
    pub fn parse_cmd<I: IsWtf8Slice + ?Sized>(input: &I) -> (args: Self)
        ensures
            args.wide() == tokenize(input.wide().push(0)),
            args@.len() >= 1,
    {
        let mut wide: Vec<u16> = input.encode_wide();
        wide.push(0);
        let tokens: Vec<S> = parse_lp_cmd_line(wide.as_slice());
        let ghost all = tokens@;
        let mut inner: VecDeque<S> = VecDeque::new();
        for token in it: tokens
            invariant
                it.seq() == all,
                inner@ == all.take(it.index() as int),
        {
            inner.push_back(token);
        }
        ArgsWtf8 { inner }
    }
}

impl<S> ArgsWtf8<S> {
    /// A run with no token in it.
    pub fn new() -> (args: Self)
        ensures
            args@ == Seq::<S>::empty(),
    {
        ArgsWtf8 { inner: VecDeque::new() }
    }

    /// The tokens that are left, to look at or to print.
    pub fn inner_debug(&self) -> (items: &VecDeque<S>)
        ensures
            items@ == self@,
    {
        &self.inner
    }

    /// Takes the first token that is left.
    pub fn next(&mut self) -> (item: Option<S>)
        ensures
            match item {
                Some(s) => {
                    &&& old(self)@.len() > 0
                    &&& s == old(self)@.first()
                    &&& final(self)@ == old(self)@.drop_first()
                },
                None => old(self)@.len() == 0 && final(self)@ == old(self)@,
            },
    {
        self.inner.pop_front()
    }

    /// The number of tokens that are left, as the lower and as the upper bound.
    pub fn size_hint(&self) -> (hint: (usize, Option<usize>))
        ensures
            hint.0 == self@.len(),
            hint.1 == Some(hint.0),
    {
        let n: usize = self.inner.len();
        (n, Some(n))
    }

    /// Takes the last token that is left.
    pub fn next_back(&mut self) -> (item: Option<S>)
        ensures
            match item {
                Some(s) => {
                    &&& old(self)@.len() > 0
                    &&& s == old(self)@.last()
                    &&& final(self)@ == old(self)@.drop_last()
                },
                None => old(self)@.len() == 0 && final(self)@ == old(self)@,
            },
    {
        self.inner.pop_back()
    }

    /// How many tokens are left.
    pub fn len(&self) -> (n: usize)
        ensures
            n == self@.len(),
    {
        self.inner.len()
    }
}

/// Finds the first unit among `units[from..to]` that lies between `low` and `high`.
fn find_unit(units: &[u16], from: usize, to: usize, low: u16, high: u16) -> (at: usize)
    requires
        from <= to <= units@.len(),
    ensures
        from <= at <= to,
        at - from == first_index(units@.subrange(from as int, to as int), low, high),
{
    let mut at: usize = from;
    while at < to && !(low <= units[at] && units[at] <= high)
        invariant
            from <= at <= to <= units@.len(),
            forall|j: int| from <= j < at ==> !(low <= #[trigger] units@[j] <= high),
        decreases to - at,
    {
        at += 1;
    }
    proof {
        lemma_first_index_is(units@.subrange(from as int, to as int), low, high, at - from);
    }
    at
}

/// Appends `count` backslashes to `cur`.
fn push_backslashes(cur: &mut Vec<u16>, count: usize)
    ensures
        final(cur)@ == old(cur)@ + backslash_run(count as nat),
{
    let mut pushed: usize = 0;
    while pushed < count
        invariant
            pushed <= count,
            cur@ == old(cur)@ + backslash_run(pushed as nat),
        decreases count - pushed,
    {
        cur.push(BACKSLASH);
        pushed += 1;
    }
}

/// Splits the command line held in `lp_cmd_line`, which ends in a zero unit, the way
/// `CommandLineToArgvW` does: the executable name by its own rule, then the arguments with
/// quotes and backslashes. An empty command line gives the one token `TEST.EXE`.
pub fn parse_lp_cmd_line<S: IsWtf8Buf>(lp_cmd_line: &[u16]) -> (ret_val: Vec<S>)
    requires
        lp_cmd_line@.len() > 0,
        lp_cmd_line@.last() == 0,
    ensures
        wide_tokens(ret_val@) == tokenize(lp_cmd_line@),
        ret_val@.len() >= 1,
{
    let ghost buffer = lp_cmd_line@;
    let mut ret_val: Vec<S> = Vec::new();
    let end: usize = find_unit(lp_cmd_line, 0, lp_cmd_line.len(), 0, 0);
    let ghost line = buffer.take(end as int);
    proof {
        // The search went over the whole buffer, and it stopped before the end.
        assert(buffer.subrange(0, buffer.len() as int) =~= buffer);
        lemma_first_index(buffer, 0, 0);
    }
    if end == 0 {
        ret_val.push(S::from_str("TEST.EXE"));
        return ret_val;
    }
    // The executable name at the beginning is special.
    let start: usize;
    if lp_cmd_line[0] == QUOTE {
        // It ends at the next quote mark, no matter what.
        let close: usize = find_unit(lp_cmd_line, 1, end, QUOTE, QUOTE);
        ret_val.push(S::from_wide(slice_subrange(lp_cmd_line, 1, close)));
        assert(buffer.subrange(1, end as int) =~= line.skip(1));
        assert(buffer.subrange(1, close as int) =~= line.skip(1).take(close - 1));
        if close == end {
            return ret_val;
        }
        start = close + 1;
    } else if lp_cmd_line[0] <= SPACE {
        // A line that starts with whitespace, which here is the whole range of control
        // units, has an empty executable name.
        ret_val.push(S::from_str(""));
        proof {
            reveal_strlit("");
        }
        start = 1;
    } else {
        // It ends at the next whitespace, no matter what.
        let blank: usize = find_unit(lp_cmd_line, 0, end, 1, SPACE);
        ret_val.push(S::from_wide(slice_subrange(lp_cmd_line, 0, blank)));
        assert(buffer.subrange(0, blank as int) =~= line.take(blank as int));
        if blank == end {
            return ret_val;
        }
        start = blank + 1;
    }
    // What is left is read one unit at a time.
    let ghost rest = buffer.subrange(start as int, end as int);
    let ghost name = wide_tokens(ret_val@)[0];
    assert(rest =~= line.skip(start as int));
    let mut cur: Vec<u16> = Vec::new();
    let mut in_quotes = false;
    let mut was_in_quotes = false;
    let mut backslash_count: usize = 0;
    let mut i: usize = start;
    while i < end
        invariant
            start <= i <= end <= buffer.len(),
            buffer == lp_cmd_line@,
            rest == buffer.subrange(start as int, end as int),
            backslash_count <= i - start,
            wide_tokens(ret_val@) == seq![name] + scan(rest.take(i - start)).done,
            cur@ == scan(rest.take(i - start)).cur,
            in_quotes == scan(rest.take(i - start)).in_quotes,
            was_in_quotes == scan(rest.take(i - start)).was_in_quotes,
            backslash_count == scan(rest.take(i - start)).backslashes,
        decreases end - i,
    {
        let c: u16 = lp_cmd_line[i];
        assert(rest.take(i + 1 - start).drop_last() =~= rest.take(i - start));
        if c == BACKSLASH {
            backslash_count += 1;
            was_in_quotes = false;
        } else if c == QUOTE && backslash_count % 2 == 0 {
            push_backslashes(&mut cur, backslash_count / 2);
            backslash_count = 0;
            if was_in_quotes {
                cur.push(QUOTE);
                was_in_quotes = false;
            } else {
                was_in_quotes = in_quotes;
                in_quotes = !in_quotes;
            }
        } else if c == QUOTE {
            push_backslashes(&mut cur, backslash_count / 2);
            backslash_count = 0;
            was_in_quotes = false;
            cur.push(QUOTE);
        } else if (c == SPACE || c == TAB) && !in_quotes {
            push_backslashes(&mut cur, backslash_count);
            if !cur.is_empty() || was_in_quotes {
                let token = S::from_wide(cur.as_slice());
                proof {
                    lemma_wide_tokens_push(ret_val@, token);
                }
                ret_val.push(token);
                cur.clear();
            }
            backslash_count = 0;
            was_in_quotes = false;
        } else {
            push_backslashes(&mut cur, backslash_count);
            backslash_count = 0;
            was_in_quotes = false;
            cur.push(c);
        }
        i += 1;
    }
    assert(rest.take(end - start) =~= rest);
    push_backslashes(&mut cur, backslash_count);
    // An empty quoted string at the end of the line is an argument too.
    if !cur.is_empty() || was_in_quotes || in_quotes {
        let token = S::from_wide(cur.as_slice());
        proof {
            lemma_wide_tokens_push(ret_val@, token);
        }
        ret_val.push(token);
    }
    ret_val
}

} // verus!
