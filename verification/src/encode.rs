//! Text to escaped code points.

use vstd::prelude::*;
use crate::hex::{upper_digit, upper_digit_of};
use crate::text::{to_chars, from_chars};

verus! {

/// The hexadecimal digits of `code`, upper case, without leading zeros
/// beyond the fourth digit from the right: four digits up to `0xFFFF`, five
/// up to `0xFFFFF`, six above.
pub open spec fn padded_hex(code: int) -> Seq<char> {
    let low = seq![
        upper_digit(code / 0x1000 % 16),
        upper_digit(code / 0x100 % 16),
        upper_digit(code / 0x10 % 16),
        upper_digit(code % 16),
    ];
    if code >= 0x100000 {
        seq![upper_digit(code / 0x100000 % 16), upper_digit(code / 0x10000 % 16)] + low
    } else if code >= 0x10000 {
        seq![upper_digit(code / 0x10000 % 16)] + low
    } else {
        low
    }
}

/// The token that stands for `c`: a backslash, `u`, and the digits of its
/// code point.
pub open spec fn escape_of(c: char) -> Seq<char> {
    seq!['\\', 'u'] + padded_hex(c as int)
}

/// The tokens of the characters of `s`, in order, with nothing between them.
pub open spec fn encode_spec(s: Seq<char>) -> Seq<char>
    decreases s.len(),
{
    if s.len() == 0 {
        Seq::empty()
    } else {
        encode_spec(s.drop_last()) + escape_of(s.last())
    }
}

/// Appends the token of `c` to `out`.
pub fn push_escape(out: &mut Vec<char>, c: char)
    ensures
        final(out)@ == old(out)@ + escape_of(c),
{
    let code: u32 = c as u32;
    out.push('\\');
    out.push('u');
    if code >= 0x100000 {
        out.push(upper_digit_of(code / 0x100000 % 16));
    }
    if code >= 0x10000 {
        out.push(upper_digit_of(code / 0x10000 % 16));
    }
    out.push(upper_digit_of(code / 0x1000 % 16));
    out.push(upper_digit_of(code / 0x100 % 16));
    out.push(upper_digit_of(code / 0x10 % 16));
    out.push(upper_digit_of(code % 16));
    assert(out@ =~= old(out)@ + escape_of(c));
}

/// Writes every character of `text` as its token: `\u` and the code point
/// in upper-case hexadecimal, four digits wide, or five or six for a code
/// point above `0xFFFF`. The result is six characters per character of
/// `text` where none lies above `0xFFFF`.
pub fn text_to_unicode(text: &str) -> (encoded: String)
    ensures
        encoded@ == encode_spec(text@),
        6 * text@.len() <= encoded@.len() <= 8 * text@.len(),
        (forall|i: int| 0 <= i < text@.len() ==> (text@[i] as int) <= 0xFFFF) ==> encoded@.len() == 6
            * text@.len(),
{
    proof {
        lemma_encode_len(text@);
    }
    let chars = to_chars(text);
    let mut out: Vec<char> = Vec::new();
    let mut i: usize = 0;
    while i < chars.len()
        invariant
            i <= chars.len(),
            out@ == encode_spec(chars@.take(i as int)),
        decreases chars.len() - i,
    {
        assert(chars@.take(i + 1).drop_last() =~= chars@.take(i as int));
        push_escape(&mut out, chars[i]);
        i = i + 1;
    }
    assert(chars@.take(chars.len() as int) =~= chars@);
    from_chars(&out)
}

/// Whether no character of `s` is an opening brace.
pub open spec fn brace_free(s: Seq<char>) -> bool {
    forall|i: int| 0 <= i < s.len() ==> s[i] != '{'
}

/// A token is six characters long for a code point up to `0xFFFF`, seven up
/// to `0xFFFFF` and eight above, and holds no brace.
pub proof fn lemma_escape_shape(c: char)
    ensures
        (c as int) <= 0xFFFF ==> escape_of(c).len() == 6,
        0xFFFF < (c as int) <= 0xFFFFF ==> escape_of(c).len() == 7,
        0xFFFFF < (c as int) ==> escape_of(c).len() == 8,
        brace_free(escape_of(c)),
{
    let code = c as int;
    assert forall|v: int| upper_digit(v) != '{' by {}
    assert forall|i: int| 0 <= i < escape_of(c).len() implies escape_of(c)[i] != '{' by {
        if i >= 2 {
            assert(escape_of(c)[i] == padded_hex(code)[i - 2]);
        }
    }
}

/// Encoding gives one token per character. Where every character of `s` has
/// a code point of at most `0xFFFF`, the encoded text is exactly six times as
/// long as `s`; in any case it is at least six and at most eight times as
/// long.
pub proof fn lemma_encode_len(s: Seq<char>)
    ensures
        6 * s.len() <= encode_spec(s).len() <= 8 * s.len(),
        (forall|i: int| 0 <= i < s.len() ==> (s[i] as int) <= 0xFFFF) ==> encode_spec(s).len() == 6
            * s.len(),
    decreases s.len(),
{
    if s.len() > 0 {
        lemma_encode_len(s.drop_last());
        lemma_escape_shape(s.last());
        if forall|i: int| 0 <= i < s.len() ==> (s[i] as int) <= 0xFFFF {
            assert forall|i: int| 0 <= i < s.drop_last().len() implies (s.drop_last()[i] as int)
                <= 0xFFFF by {
                assert(s.drop_last()[i] == s[i]);
            }
        }
    }
}

/// Encoded text holds no opening brace.
pub proof fn lemma_encode_brace_free(s: Seq<char>)
    ensures
        brace_free(encode_spec(s)),
    decreases s.len(),
{
    if s.len() > 0 {
        lemma_encode_brace_free(s.drop_last());
        lemma_escape_shape(s.last());
    }
}

/// Encoding a text and then one more character is encoding the text and
/// appending that character's token; the empty text encodes to itself.
pub proof fn lemma_encode_push(s: Seq<char>, c: char)
    ensures
        encode_spec(s.push(c)) == encode_spec(s) + escape_of(c),
        encode_spec(Seq::empty()) == Seq::<char>::empty(),
{
    assert(s.push(c).drop_last() =~= s);
}

} // verus!
