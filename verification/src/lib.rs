//! A command-line argument parser for Windows command lines.
//!
//! It splits one command-line string into its arguments exactly as `CommandLineToArgvW`
//! of the Windows shell does, without calling it. There are two ways in:
//!
//! * [`Args::parse_cmd`] takes a complete command line, which begins with the executable
//!   name;
//! * [`Args::parse_args`] takes the arguments alone.
//!
//! They differ in how they read the first argument, and in what an empty input gives.
//!
//! ```text
//! let mut args = Args::parse_args(r#"foobar to "C:\Program Files\Hi.txt" now"#);
//! args.next()       // Some("foobar")
//! args.next_back()  // Some("now")
//! args.next()       // Some("to")
//! args.next()       // Some("C:\Program Files\Hi.txt")
//! args.next()       // None
//! ```
//!
//! The tokenizer itself, [`args::parse_lp_cmd_line`], works on 16-bit code units and keeps
//! unpaired surrogates as they are. What it computes is defined in [`tokens`], and
//! [`theorems`] holds what is proved of the definition.

pub mod args;
pub mod theorems;
pub mod tokens;
pub mod utf16;
pub mod wtf8like;

use std::collections::VecDeque;
use vstd::prelude::*;
use wtf8::Wtf8Buf;
use crate::args::ArgsWtf8;
use crate::theorems::{
    all_well_formed, lemma_stand_in_prefix, lemma_stand_in_units,
    lemma_text_arguments_well_formed, lemma_text_tokens_well_formed, stand_in_prefix,
    stand_in_units,
};
use crate::tokens::{arguments, command_line, tokenize};
use crate::utf16::{decode_utf16, encode_utf16, lemma_decode_encode, well_formed_utf16};
use crate::wtf8like::{wide_tokens, wtf8_into_string, IsWtf8Buf, IsWtf8Slice};

verus! {

/// The arguments of a command line that was given as text, handed out as `String`s from
/// either end.
pub struct Args {
    inner: ArgsWtf8<Wtf8Buf>,
}

impl View for Args {
    type V = Seq<Seq<u16>>;

    /// The UTF-16 code units of each argument that is left, first to last.
    closed spec fn view(&self) -> Seq<Seq<u16>> {
        self.inner.wide()
    }
}

impl Args {
    /// Every argument that is left encodes a text: the input was text, and splitting it
    /// left no surrogate without its partner.
    #[verifier::type_invariant]
    spec fn still_utf8(self) -> bool {
        all_well_formed(self.inner.wide())
    }

    /// Parse a string containing the complete command line.
    ///
    /// The output will always contain at least one argument (representing the executable
    /// name). If the input was empty, a placeholder name is given.
    pub fn parse_cmd(input: &str) -> (args: Args)
        ensures
            args@ == tokenize(encode_utf16(input@).push(0)),
            args@.len() >= 1,
    {
        let inner: ArgsWtf8<Wtf8Buf> = ArgsWtf8::parse_cmd(input);
        proof {
            lemma_text_tokens_well_formed(input@);
        }
        Args { inner }
    }

    /// Parse a string containing whitespace-separated arguments to an executable.
    ///
    /// This function is intended to be used for strings which do not begin with the
    /// executable name: the quoting rules hold from the first character on, and an empty
    /// input has no argument.
    pub fn parse_args(input: &str) -> (args: Args)
        ensures
            args@ == arguments(command_line(encode_utf16(input@).push(0))),
    {
        let inner: ArgsWtf8<Wtf8Buf> = parse_args_via_parse_cmd(input);
        proof {
            lemma_text_arguments_well_formed(input@);
        }
        Args { inner }
    }

    /// Takes the first argument that is left.
    pub fn next(&mut self) -> (arg: Option<String>)
        ensures
            match arg {
                Some(s) => {
                    &&& old(self)@.len() > 0
                    &&& encode_utf16(s@) == old(self)@.first()
                    &&& s@ == decode_utf16(old(self)@.first())
                    &&& final(self)@ == old(self)@.drop_first()
                },
                None => old(self)@.len() == 0 && final(self)@ == old(self)@,
            },
    {
        proof {
            use_type_invariant(&*self);
        }
        // The run is taken out while an argument leaves it, so that `self` is whole at
        // every step.
        let mut inner: ArgsWtf8<Wtf8Buf> = ArgsWtf8::new();
        std::mem::swap(&mut self.inner, &mut inner);
        let first = inner.next();
        proof {
            if first is Some {
                assert(inner.wide() =~= old(self)@.drop_first());
                assert(first.unwrap().wide() == old(self)@[0]);
            }
        }
        std::mem::swap(&mut self.inner, &mut inner);
        match first {
            Some(arg) => Some(expect_still_utf8(arg)),
            None => None,
        }
    }

    /// Takes the last argument that is left.
    pub fn next_back(&mut self) -> (arg: Option<String>)
        ensures
            match arg {
                Some(s) => {
                    &&& old(self)@.len() > 0
                    &&& encode_utf16(s@) == old(self)@.last()
                    &&& s@ == decode_utf16(old(self)@.last())
                    &&& final(self)@ == old(self)@.drop_last()
                },
                None => old(self)@.len() == 0 && final(self)@ == old(self)@,
            },
    {
        proof {
            use_type_invariant(&*self);
        }
        let mut inner: ArgsWtf8<Wtf8Buf> = ArgsWtf8::new();
        std::mem::swap(&mut self.inner, &mut inner);
        let last = inner.next_back();
        proof {
            if last is Some {
                assert(inner.wide() =~= old(self)@.drop_last());
                assert(last.unwrap().wide() == old(self)@[old(self)@.len() - 1]);
            }
        }
        std::mem::swap(&mut self.inner, &mut inner);
        match last {
            Some(arg) => Some(expect_still_utf8(arg)),
            None => None,
        }
    }

    /// The arguments that are left, to look at or to print.
    pub fn inner_debug(&self) -> (items: &VecDeque<Wtf8Buf>)
        ensures
            wide_tokens(items@) == self@,
    {
        self.inner.inner_debug()
    }

    /// How many arguments are left.
    pub fn len(&self) -> (n: usize)
        ensures
            n == self@.len(),
    {
        self.inner.len()
    }

    /// The number of arguments that are left, as the lower and the upper bound.
    pub fn size_hint(&self) -> (hint: (usize, Option<usize>))
        ensures
            hint.0 == self@.len(),
            hint.1 == Some(hint.0),
    {
        self.inner.size_hint()
    }
}

/// Turns an argument that is known to encode a text into that text.
pub(crate) fn expect_still_utf8(arg: Wtf8Buf) -> (s: String)
    requires
        well_formed_utf16(arg.wide()),
    ensures
        encode_utf16(s@) == arg.wide(),
        s@ == decode_utf16(arg.wide()),
{
    match wtf8_into_string(arg) {
        Ok(s) => {
            proof {
                lemma_decode_encode(s@);
            }
            s
        },
        Err(_) => vstd::pervasive::unreached(),
    }
}

/// Reads `input` as arguments alone by way of the parser for complete command lines: the
/// two units of a command name and a space are put in front, and the token that the name
/// becomes is left out of the result.
pub fn parse_args_via_parse_cmd<S: IsWtf8Buf, I: IsWtf8Slice + ?Sized>(
    input: &I,
) -> (out: ArgsWtf8<S>)
    ensures
        out.wide() == tokenize(stand_in_units() + input.wide().push(0)).drop_first(),
        out.wide() == arguments(command_line(input.wide().push(0))),
{
    // Prepend a command name
    let mut modified_input: Vec<u16> = "a ".encode_wide();
    let mut wide: Vec<u16> = input.encode_wide();
    modified_input.append(&mut wide);
    proof {
        reveal_strlit("a ");
        assert("a "@ =~= stand_in_prefix());
        lemma_stand_in_prefix(Seq::empty());
    }
    // Skip the command name in the output
    let mut out: ArgsWtf8<S> = ArgsWtf8::parse_cmd(modified_input.as_slice());
    out.next();
    proof {
        lemma_stand_in_units(input.wide().push(0));
    }
    out
}

} // verus!
