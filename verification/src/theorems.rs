//! What holds of every command line, proved from the definition of its tokens.

use vstd::prelude::*;
use crate::tokens::{
    after_executable_name, arguments, backslash_run, command_line, executable_name, first_blank,
    first_quote, first_terminator, lemma_first_index, lemma_first_index_is, placeholder, scan,
    tokenize, tokenize_line, Scan, BACKSLASH, QUOTE, SPACE,
};
use crate::utf16::{
    encode_utf16, is_lead_surrogate, lemma_encode_concat, lemma_encode_well_formed,
    lemma_char_units, lemma_push_pair, lemma_push_plain, lemma_well_formed_concat,
    lemma_well_formed_iff_encoding, lemma_well_formed_subrange, paired_at, well_formed_utf16,
};
use crate::wtf8like::{wide_tokens, IsWtf8Buf};

verus! {

/// Every token of a sequence is well-formed UTF-16.
pub open spec fn all_well_formed(tokens: Seq<Seq<u16>>) -> bool {
    forall|k: int| 0 <= k < tokens.len() ==> well_formed_utf16(#[trigger] tokens[k])
}

/// No unit of `s` is the terminator.
pub open spec fn has_no_terminator(s: Seq<u16>) -> bool {
    forall|i: int| 0 <= i < s.len() ==> #[trigger] s[i] != 0
}

/// No token of a sequence holds the terminator.
pub open spec fn none_has_terminator(tokens: Seq<Seq<u16>>) -> bool {
    forall|k: int| 0 <= k < tokens.len() ==> has_no_terminator(#[trigger] tokens[k])
}

/// The text `a `: a command name and the space that ends it.
pub open spec fn stand_in_prefix() -> Seq<char> {
    seq!['a', ' ']
}

/// The two code units of the text `a `.
pub open spec fn stand_in_units() -> Seq<u16> {
    seq![0x61u16, SPACE]
}

/// Splitting is a function of the buffer: two runs over the same buffer, whatever buffers
/// they build, give tokens of the same code units in the same order.
pub proof fn lemma_tokenize_deterministic<S: IsWtf8Buf, T: IsWtf8Buf>(
    buffer: Seq<u16>,
    first: Seq<S>,
    second: Seq<T>,
)
    requires
        wide_tokens(first) == tokenize(buffer),
        wide_tokens(second) == tokenize(buffer),
    ensures
        wide_tokens(first) == wide_tokens(second),
        first.len() == second.len(),
        forall|k: int| 0 <= k < first.len() ==> first[k].wide() == second[k].wide(),
{
    assert(wide_tokens(first).len() == first.len());
    assert forall|k: int| 0 <= k < first.len() implies first[k].wide() == second[k].wide() by {
        assert(wide_tokens(first)[k] == first[k].wide());
    }
}

/// Only the command line counts: two buffers that agree up to their first terminator have
/// the same tokens.
pub proof fn lemma_tokenize_reads_command_line(a: Seq<u16>, b: Seq<u16>)
    requires
        command_line(a) == command_line(b),
    ensures
        tokenize(a) == tokenize(b),
{
}

/// A buffer that starts with the terminator holds the empty command line, whose only token
/// is the placeholder: the text `TEST.EXE`, one unit for each of its characters.
pub proof fn lemma_empty_line_gives_placeholder(buffer: Seq<u16>)
    requires
        buffer.len() > 0,
        buffer[0] == 0,
    ensures
        tokenize(buffer) == seq![placeholder()],
        placeholder() == seq![
            0x54u16,
            0x45u16,
            0x53u16,
            0x54u16,
            0x2Eu16,
            0x45u16,
            0x58u16,
            0x45u16,
        ],
{
    reveal_strlit("TEST.EXE");
    lemma_encode_concat(seq!['T', 'E', 'S', 'T'], seq!['.', 'E', 'X', 'E']);
    assert("TEST.EXE"@ =~= seq!['T', 'E', 'S', 'T'] + seq!['.', 'E', 'X', 'E']);
    reveal_with_fuel(encode_utf16, 5);
    assert(placeholder() =~= seq![
        0x54u16,
        0x45u16,
        0x53u16,
        0x54u16,
        0x2Eu16,
        0x45u16,
        0x58u16,
        0x45u16,
    ]);
}

/// A command line always has an executable name: there is at least one token.
pub proof fn lemma_tokenize_nonempty(buffer: Seq<u16>)
    ensures
        tokenize(buffer).len() >= 1,
{
}

/// How many backslashes stand at the end of `s` with nothing but backslashes after them.
pub open spec fn trailing_backslashes(s: Seq<u16>) -> nat
    decreases s.len(),
{
    if s.len() == 0 || s.last() != BACKSLASH {
        0
    } else {
        1 + trailing_backslashes(s.drop_last())
    }
}

/// The backslashes that the machine holds back are those that it read last, with nothing
/// else after them: whether a quote is escaped depends on the run right before it alone.
pub proof fn lemma_pending_backslashes(s: Seq<u16>)
    ensures
        scan(s).backslashes == trailing_backslashes(s),
    decreases s.len(),
{
    if s.len() > 0 {
        lemma_pending_backslashes(s.drop_last());
    }
}

/// A quote counts as the second of a doubled pair only right after the quote that closed a
/// quoted run: the mark for it is set by that quote and cleared by whatever comes next.
pub proof fn lemma_was_in_quotes(s: Seq<u16>)
    requires
        scan(s).was_in_quotes,
    ensures
        s.len() > 0,
        s.last() == QUOTE,
        trailing_backslashes(s.drop_last()) % 2 == 0,
        scan(s.drop_last()).in_quotes,
        !scan(s).in_quotes,
{
    if s.len() > 0 {
        lemma_pending_backslashes(s.drop_last());
    }
}

/// A run of backslashes is well formed and holds no terminator.
proof fn lemma_backslash_run(s: Seq<u16>, n: nat)
    ensures
        well_formed_utf16(s) ==> well_formed_utf16(s + backslash_run(n)),
        has_no_terminator(s) ==> has_no_terminator(s + backslash_run(n)),
{
    let run = backslash_run(n);
    assert forall|i: int| 0 <= i < run.len() implies #[trigger] paired_at(run, i) by {}
    if well_formed_utf16(s) {
        lemma_well_formed_concat(s, run);
    }
}

/// What holds of the machine's state after a prefix of a well-formed input: the complete
/// arguments are well formed, and so is the one being built, but for a lead surrogate at
/// its end when the unit just read was one.
spec fn scan_well_formed(st: Scan, after_lead: bool) -> bool {
    &&& all_well_formed(st.done)
    &&& if after_lead {
        &&& st.cur.len() > 0
        &&& is_lead_surrogate(st.cur.last())
        &&& well_formed_utf16(st.cur.drop_last())
        &&& st.backslashes == 0
    } else {
        well_formed_utf16(st.cur)
    }
}

proof fn lemma_scan_well_formed(s: Seq<u16>, n: int)
    requires
        well_formed_utf16(s),
        0 <= n <= s.len(),
    ensures
        scan_well_formed(scan(s.take(n)), n > 0 && is_lead_surrogate(s[n - 1])),
    decreases n,
{
    if n > 0 {
        lemma_scan_well_formed(s, n - 1);
        let before = scan(s.take(n - 1));
        let c = s[n - 1];
        let after = scan(s.take(n));
        assert(s.take(n).drop_last() =~= s.take(n - 1));
        assert(paired_at(s, n - 1));
        if n > 1 && is_lead_surrogate(s[n - 2]) {
            assert(paired_at(s, n - 2));
            let head = before.cur.drop_last();
            assert(after.cur =~= head.push(before.cur.last()).push(c));
            lemma_push_pair(head, before.cur.last(), c);
        } else {
            let half = before.cur + backslash_run(before.backslashes / 2);
            let full = before.cur + backslash_run(before.backslashes);
            lemma_backslash_run(before.cur, before.backslashes / 2);
            lemma_backslash_run(before.cur, before.backslashes);
            if is_lead_surrogate(c) {
                assert(after.cur.drop_last() =~= full);
            } else {
                lemma_push_plain(half, QUOTE);
                lemma_push_plain(full, c);
            }
        }
    }
}

/// The arguments read from well-formed units are well formed.
pub proof fn lemma_arguments_well_formed(s: Seq<u16>)
    requires
        well_formed_utf16(s),
    ensures
        all_well_formed(arguments(s)),
{
    lemma_scan_well_formed(s, s.len() as int);
    assert(s.take(s.len() as int) =~= s);
    let st = scan(s);
    if s.len() > 0 {
        assert(paired_at(s, s.len() - 1));
    }
    lemma_backslash_run(st.cur, st.backslashes);
}

/// The tokens of a well-formed command line are well formed.
pub proof fn lemma_tokenize_line_well_formed(line: Seq<u16>)
    requires
        line.len() > 0,
        well_formed_utf16(line),
    ensures
        all_well_formed(tokenize_line(line)),
{
    // The name and what follows it are pieces of the line, cut where no surrogate stands.
    let n = line.len() as int;
    if line[0] == QUOTE {
        let close = first_quote(line.skip(1));
        lemma_first_index(line.skip(1), QUOTE, QUOTE);
        assert(executable_name(line) =~= line.subrange(1, close + 1));
        lemma_well_formed_subrange(line, 1, close + 1);
        if close < n - 1 {
            lemma_well_formed_subrange(line, close + 2, n);
        }
    } else if line[0] <= SPACE {
        lemma_well_formed_subrange(line, 1, n);
    } else {
        let blank = first_blank(line);
        lemma_first_index(line, 1, SPACE);
        lemma_well_formed_subrange(line, 0, blank);
        if blank < n {
            lemma_well_formed_subrange(line, blank + 1, n);
        }
    }
    match after_executable_name(line) {
        Some(rest) => {
            lemma_arguments_well_formed(rest);
        },
        None => {},
    }
}

/// The tokens of a buffer whose units are well-formed UTF-16 are well formed: splitting
/// never parts a surrogate pair, nor brings together two surrogates that were apart.
pub proof fn lemma_tokens_well_formed(buffer: Seq<u16>)
    requires
        well_formed_utf16(buffer),
    ensures
        all_well_formed(tokenize(buffer)),
{
    let line = command_line(buffer);
    lemma_first_index(buffer, 0, 0);
    lemma_well_formed_subrange(buffer, 0, first_terminator(buffer));
    if line.len() == 0 {
        lemma_encode_well_formed("TEST.EXE"@);
    } else {
        lemma_tokenize_line_well_formed(line);
    }
}

/// Every token of a command line that is given as text is the encoding of a text again,
/// so that decoding it loses and replaces nothing.
pub proof fn lemma_text_tokens_well_formed(text: Seq<char>)
    ensures
        all_well_formed(tokenize(encode_utf16(text).push(0))),
        forall|k: int|
            0 <= k < tokenize(encode_utf16(text).push(0)).len() ==> exists|token: Seq<char>|
                encode_utf16(token) == #[trigger] tokenize(encode_utf16(text).push(0))[k],
{
    let tokens = tokenize(encode_utf16(text).push(0));
    lemma_encode_well_formed(text);
    lemma_push_plain(encode_utf16(text), 0);
    lemma_tokens_well_formed(encode_utf16(text).push(0));
    assert forall|k: int| 0 <= k < tokens.len() implies exists|token: Seq<char>|
        encode_utf16(token) == #[trigger] tokens[k] by {
        lemma_well_formed_iff_encoding(tokens[k]);
    }
}

/// The encoding of a text without the character U+0000 holds no terminator.
proof fn lemma_encode_has_no_terminator(text: Seq<char>)
    requires
        forall|i: int| 0 <= i < text.len() ==> #[trigger] text[i] != '\0',
    ensures
        has_no_terminator(encode_utf16(text)),
    decreases text.len(),
{
    if text.len() > 0 {
        lemma_encode_has_no_terminator(text.drop_last());
        lemma_char_units(text.last());
    }
}

/// What holds of the machine's state after any prefix of an input without terminator.
spec fn scan_has_no_terminator(st: Scan) -> bool {
    &&& none_has_terminator(st.done)
    &&& has_no_terminator(st.cur)
}

proof fn lemma_scan_has_no_terminator(s: Seq<u16>)
    requires
        has_no_terminator(s),
    ensures
        scan_has_no_terminator(scan(s)),
    decreases s.len(),
{
    if s.len() > 0 {
        lemma_scan_has_no_terminator(s.drop_last());
        let before = scan(s.drop_last());
        lemma_backslash_run(before.cur, before.backslashes / 2);
        lemma_backslash_run(before.cur, before.backslashes);
    }
}

/// No token holds the terminator: it marks the end of the command line and is part of
/// nothing, and the placeholder for an empty line has none either.
pub proof fn lemma_tokens_have_no_terminator(buffer: Seq<u16>)
    ensures
        none_has_terminator(tokenize(buffer)),
{
    let line = command_line(buffer);
    lemma_first_index(buffer, 0, 0);
    if line.len() == 0 {
        reveal_strlit("TEST.EXE");
        lemma_encode_has_no_terminator("TEST.EXE"@);
    } else {
        if line[0] == QUOTE {
            lemma_first_index(line.skip(1), QUOTE, QUOTE);
        } else if line[0] > SPACE {
            lemma_first_index(line, 1, SPACE);
        }
        match after_executable_name(line) {
            Some(rest) => {
                lemma_scan_has_no_terminator(rest);
                let st = scan(rest);
                lemma_backslash_run(st.cur, st.backslashes);
            },
            None => {},
        }
    }
}

/// A buffer that starts with the units of `a ` has the token `a` first, and after it the
/// arguments of what follows, read with the quoting rules from the first unit on: neither
/// the rule for the executable name nor the placeholder for an empty line reaches them.
pub proof fn lemma_stand_in_units(buffer: Seq<u16>)
    ensures
        tokenize(stand_in_units() + buffer) == seq![seq![0x61u16]] + arguments(
            command_line(buffer),
        ),
        tokenize(stand_in_units() + buffer).drop_first() == arguments(command_line(buffer)),
{
    let prefix = stand_in_units();
    let whole = prefix + buffer;
    let end = first_terminator(buffer);
    lemma_first_index(buffer, 0, 0);
    lemma_first_index_is(whole, 0, 0, end + 2);
    let line = command_line(whole);
    lemma_first_index_is(line, 1, SPACE, 1);
    assert(executable_name(line) =~= seq![0x61u16]);
    assert(line.skip(2) =~= command_line(buffer));
}

/// Splitting the text `a ` followed by `text` and leaving out the first token gives the
/// arguments of `text` alone.
pub proof fn lemma_stand_in_prefix(text: Seq<char>)
    ensures
        encode_utf16(stand_in_prefix() + text) == stand_in_units() + encode_utf16(text),
        tokenize(encode_utf16(stand_in_prefix() + text).push(0)).drop_first() == arguments(
            command_line(encode_utf16(text).push(0)),
        ),
{
    let buffer = encode_utf16(text).push(0);
    lemma_encode_concat(stand_in_prefix(), text);
    reveal_with_fuel(encode_utf16, 3);
    assert(stand_in_prefix().drop_last() =~= seq!['a']);
    lemma_stand_in_units(buffer);
}

/// The arguments of a text are texts again.
pub proof fn lemma_text_arguments_well_formed(text: Seq<char>)
    ensures
        all_well_formed(arguments(command_line(encode_utf16(text).push(0)))),
{
    let buffer = encode_utf16(text).push(0);
    lemma_encode_well_formed(text);
    lemma_push_plain(encode_utf16(text), 0);
    lemma_first_index(buffer, 0, 0);
    lemma_well_formed_subrange(buffer, 0, first_terminator(buffer));
    lemma_arguments_well_formed(command_line(buffer));
}

} // verus!
