//! The mathematical model of UTF-16 that the contracts of this crate are stated over.
//!
//! Text is a `Seq<char>`; its encoding is a `Seq<u16>` of code units. A sequence of code
//! units need not encode any text: a surrogate that has no partner next to it is kept as it
//! is by everything in this crate, and [`well_formed_utf16`] says when there is none.

use vstd::prelude::*;

verus! {

/// `u` is a lead (high) surrogate.
pub open spec fn is_lead_surrogate(u: u16) -> bool {
    0xD800 <= u <= 0xDBFF
}

/// `u` is a trail (low) surrogate.
pub open spec fn is_trail_surrogate(u: u16) -> bool {
    0xDC00 <= u <= 0xDFFF
}

/// `u` is a surrogate of either kind.
pub open spec fn is_surrogate(u: u16) -> bool {
    0xD800 <= u <= 0xDFFF
}

/// The code units of one character: itself below U+10000, a surrogate pair above.
pub open spec fn char_units(c: char) -> Seq<u16> {
    let v = c as int;
    if v < 0x10000 {
        seq![v as u16]
    } else {
        seq![(0xD800 + (v - 0x10000) / 0x400) as u16, (0xDC00 + (v - 0x10000) % 0x400) as u16]
    }
}

/// The UTF-16 encoding of a text: the units of its characters, in order.
pub open spec fn encode_utf16(text: Seq<char>) -> Seq<u16>
    decreases text.len(),
{
    if text.len() == 0 {
        Seq::empty()
    } else {
        encode_utf16(text.drop_last()) + char_units(text.last())
    }
}

/// The surrogate at position `i`, if there is one, has its partner beside it.
pub open spec fn paired_at(s: Seq<u16>, i: int) -> bool {
    &&& is_lead_surrogate(s[i]) ==> i + 1 < s.len() && is_trail_surrogate(s[i + 1])
    &&& is_trail_surrogate(s[i]) ==> i > 0 && is_lead_surrogate(s[i - 1])
}

/// No surrogate in `s` is unpaired: every lead surrogate is followed by a trail surrogate
/// and every trail surrogate follows a lead surrogate.
pub open spec fn well_formed_utf16(s: Seq<u16>) -> bool {
    forall|i: int| 0 <= i < s.len() ==> #[trigger] paired_at(s, i)
}

/// The character that a surrogate pair stands for.
pub open spec fn pair_char(lead: u16, trail: u16) -> char {
    (0x10000 + (lead - 0xD800) * 0x400 + (trail - 0xDC00)) as char
}

/// The text that a well-formed sequence of code units encodes.
pub open spec fn decode_utf16(s: Seq<u16>) -> Seq<char>
    decreases s.len(),
{
    if s.len() == 0 {
        Seq::empty()
    } else if s.len() >= 2 && is_trail_surrogate(s.last()) {
        decode_utf16(s.take(s.len() - 2)).push(pair_char(s[s.len() - 2], s.last()))
    } else {
        decode_utf16(s.drop_last()).push(s.last() as char)
    }
}

/// A character encodes to one unit that is no surrogate, or to a lead and a trail surrogate.
pub proof fn lemma_char_units(c: char)
    ensures
        char_units(c).len() == 1 || char_units(c).len() == 2,
        char_units(c).len() == 1 ==> !is_surrogate(char_units(c)[0]) && char_units(c)[0] as char
            == c,
        char_units(c).len() == 2 ==> is_lead_surrogate(char_units(c)[0]) && is_trail_surrogate(
            char_units(c)[1],
        ) && pair_char(char_units(c)[0], char_units(c)[1]) == c,
{
}

/// Appending a unit that is no surrogate keeps a sequence well formed.
pub proof fn lemma_push_plain(s: Seq<u16>, u: u16)
    requires
        well_formed_utf16(s),
        !is_surrogate(u),
    ensures
        well_formed_utf16(s.push(u)),
{
    let t = s.push(u);
    assert forall|i: int| 0 <= i < t.len() implies #[trigger] paired_at(t, i) by {
        if i < s.len() {
            assert(paired_at(s, i));
        }
    }
}

/// Appending a surrogate pair keeps a sequence well formed.
pub proof fn lemma_push_pair(s: Seq<u16>, lead: u16, trail: u16)
    requires
        well_formed_utf16(s),
        is_lead_surrogate(lead),
        is_trail_surrogate(trail),
    ensures
        well_formed_utf16(s.push(lead).push(trail)),
{
    let t = s.push(lead).push(trail);
    assert forall|i: int| 0 <= i < t.len() implies #[trigger] paired_at(t, i) by {
        if i < s.len() {
            assert(paired_at(s, i));
        }
    }
}

/// Two well-formed sequences, one after the other, are well formed.
pub proof fn lemma_well_formed_concat(a: Seq<u16>, b: Seq<u16>)
    requires
        well_formed_utf16(a),
        well_formed_utf16(b),
    ensures
        well_formed_utf16(a + b),
{
    let t = a + b;
    assert forall|i: int| 0 <= i < t.len() implies #[trigger] paired_at(t, i) by {
        if i < a.len() {
            assert(paired_at(a, i));
        } else {
            assert(paired_at(b, i - a.len()));
        }
    }
}

/// A piece of a well-formed sequence that cuts no surrogate pair in two is well formed.
pub proof fn lemma_well_formed_subrange(s: Seq<u16>, from: int, to: int)
    requires
        well_formed_utf16(s),
        0 <= from <= to <= s.len(),
        from == 0 || !is_lead_surrogate(s[from - 1]),
        to == s.len() || !is_trail_surrogate(s[to]),
    ensures
        well_formed_utf16(s.subrange(from, to)),
{
    let t = s.subrange(from, to);
    assert forall|i: int| 0 <= i < t.len() implies #[trigger] paired_at(t, i) by {
        assert(paired_at(s, from + i));
    }
}

/// The encoding of a text followed by another is the two encodings, one after the other.
pub proof fn lemma_encode_concat(a: Seq<char>, b: Seq<char>)
    ensures
        encode_utf16(a + b) == encode_utf16(a) + encode_utf16(b),
    decreases b.len(),
{
    if b.len() > 0 {
        lemma_encode_concat(a, b.drop_last());
        assert((a + b).drop_last() =~= a + b.drop_last());
    }
}

/// The encoding of any text is well formed.
pub proof fn lemma_encode_well_formed(text: Seq<char>)
    ensures
        well_formed_utf16(encode_utf16(text)),
    decreases text.len(),
{
    if text.len() > 0 {
        let head = encode_utf16(text.drop_last());
        let units = char_units(text.last());
        lemma_encode_well_formed(text.drop_last());
        lemma_char_units(text.last());
        if units.len() == 1 {
            lemma_push_plain(head, units[0]);
            assert(head + units =~= head.push(units[0]));
        } else {
            lemma_push_pair(head, units[0], units[1]);
            assert(head + units =~= head.push(units[0]).push(units[1]));
        }
    }
}

/// Decoding undoes encoding: no two texts have the same encoding.
pub proof fn lemma_decode_encode(text: Seq<char>)
    ensures
        decode_utf16(encode_utf16(text)) == text,
    decreases text.len(),
{
    if text.len() > 0 {
        let head = encode_utf16(text.drop_last());
        let units = char_units(text.last());
        let s = encode_utf16(text);
        lemma_decode_encode(text.drop_last());
        lemma_char_units(text.last());
        if units.len() == 1 {
            assert(s.drop_last() =~= head);
        } else {
            assert(s.take(s.len() - 2) =~= head);
        }
    }
}

/// Encoding undoes decoding on every well-formed sequence: each is the encoding of a text.
pub proof fn lemma_encode_decode(s: Seq<u16>)
    requires
        well_formed_utf16(s),
    ensures
        encode_utf16(decode_utf16(s)) == s,
    decreases s.len(),
{
    if s.len() > 0 {
        let n = s.len() as int;
        assert(paired_at(s, n - 1));
        // What is left when the last character's units are taken off.
        let head = if is_trail_surrogate(s.last()) {
            s.take(n - 2)
        } else {
            s.drop_last()
        };
        lemma_well_formed_subrange(s, 0, head.len() as int);
        lemma_encode_decode(head);
        assert(decode_utf16(s).drop_last() =~= decode_utf16(head));
    }
}

/// A sequence of code units is well formed exactly when it is the encoding of some text.
pub proof fn lemma_well_formed_iff_encoding(s: Seq<u16>)
    ensures
        well_formed_utf16(s) <==> exists|text: Seq<char>| encode_utf16(text) == s,
{
    if well_formed_utf16(s) {
        lemma_encode_decode(s);
    }
    if exists|text: Seq<char>| encode_utf16(text) == s {
        let text = choose|text: Seq<char>| encode_utf16(text) == s;
        lemma_encode_well_formed(text);
    }
}

/// Two texts with the same encoding are the same text.
pub proof fn lemma_encode_injective(a: Seq<char>, b: Seq<char>)
    requires
        encode_utf16(a) == encode_utf16(b),
    ensures
        a == b,
{
    lemma_decode_encode(a);
    lemma_decode_encode(b);
}

} // verus!
