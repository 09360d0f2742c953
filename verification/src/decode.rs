//! Escaped code points to text.

use vstd::prelude::*;
use crate::encode::{encode_spec, lemma_encode_brace_free, lemma_encode_len, padded_hex};
use crate::hex::{
    digit_value, digit_value_of, is_hex_digit, lemma_digit_case, lemma_upper_digit_value,
    to_upper_hex, upper_digit,
};
use crate::matcher::{find_starts, match_starts};
use crate::text::{from_chars, is_scalar_value, to_chars};

verus! {

/// Why a text could not be decoded.
#[derive(Clone, Copy, Debug, PartialEq, Eq, Structural)]
pub enum DecodeError {
    /// The token that starts at character `position` holds `code`, which is
    /// the code point of no character.
    InvalidCodepoint { position: usize, code: u32 },
    /// The matching engine did not accept the pattern it was given.
    PatternRejected,
}

/// Number of characters in a token: backslash, `u`, two braces, four digits.
pub const TOKEN_LEN: usize = 8;

/// Whether a token starts at character `i` of `s`: a backslash, a lower-case
/// `u`, an opening brace, exactly four hexadecimal digits of either case,
/// and a closing brace.
pub open spec fn token_at(s: Seq<char>, i: int) -> bool {
    &&& 0 <= i
    &&& i + 8 <= s.len()
    &&& s[i] == '\\'
    &&& s[i + 1] == 'u'
    &&& s[i + 2] == '{'
    &&& is_hex_digit(s[i + 3])
    &&& is_hex_digit(s[i + 4])
    &&& is_hex_digit(s[i + 5])
    &&& is_hex_digit(s[i + 6])
    &&& s[i + 7] == '}'
}

/// The number that the four digits of the token at `i` stand for.
pub open spec fn token_code(s: Seq<char>, i: int) -> int {
    0x1000 * digit_value(s[i + 3]).unwrap() + 0x100 * digit_value(s[i + 4]).unwrap() + 0x10
        * digit_value(s[i + 5]).unwrap() + digit_value(s[i + 6]).unwrap()
}

/// How many bytes `c` takes in UTF-8.
pub open spec fn utf8_width(c: char) -> int {
    if (c as int) < 0x80 {
        1
    } else if (c as int) < 0x800 {
        2
    } else if (c as int) < 0x10000 {
        3
    } else {
        4
    }
}

/// The byte offset in UTF-8 at which character `i` of `s` starts.
pub open spec fn byte_offset(s: Seq<char>, i: int) -> int
    decreases i,
{
    if i <= 0 {
        0
    } else {
        byte_offset(s, i - 1) + utf8_width(s[i - 1])
    }
}

/// Whether `offset` is among `starts`.
pub open spec fn proposed(starts: Seq<usize>, offset: int) -> bool {
    exists|k: int| 0 <= k < starts.len() && #[trigger] starts[k] as int == offset
}

/// Whether the characters from `i` on are replaced: a token starts there,
/// and `starts` holds the byte offset of that place.
pub open spec fn replaced_at(s: Seq<char>, starts: Seq<usize>, i: int) -> bool {
    token_at(s, i) && proposed(starts, byte_offset(s, i))
}

/// `prefix` put before a decoded remainder; an error stays as it is.
pub open spec fn prepend(prefix: Seq<char>, rest: Result<Seq<char>, DecodeError>) -> Result<
    Seq<char>,
    DecodeError,
> {
    match rest {
        Ok(tail) => Ok(prefix + tail),
        Err(e) => Err(e),
    }
}

/// The decoding of `s` from character `i` on. Going from left to right, a
/// replaced token gives the character with its code point, and any other
/// character gives itself. The first replaced token whose code point belongs
/// to no character makes the whole result that error.
pub open spec fn decode_from(s: Seq<char>, starts: Seq<usize>, i: int) -> Result<
    Seq<char>,
    DecodeError,
>
    decreases s.len() - i,
{
    if i < 0 || i >= s.len() {
        Ok(Seq::empty())
    } else if replaced_at(s, starts, i) {
        if is_scalar_value(token_code(s, i)) {
            prepend(seq![token_code(s, i) as char], decode_from(s, starts, i + 8))
        } else {
            Err(
                DecodeError::InvalidCodepoint {
                    position: i as usize,
                    code: token_code(s, i) as u32,
                },
            )
        }
    } else {
        prepend(seq![s[i]], decode_from(s, starts, i + 1))
    }
}

/// The decoding of the whole of `s`, given the byte offsets `starts` at which
/// tokens are to be looked for.
pub open spec fn decode_spec(s: Seq<char>, starts: Seq<usize>) -> Result<Seq<char>, DecodeError> {
    decode_from(s, starts, 0)
}

/// Whether a token starts at `chars[i]`.
pub fn is_token_at(chars: &Vec<char>, i: usize) -> (r: bool)
    ensures
        r == token_at(chars@, i as int),
{
    if i >= chars.len() || chars.len() - i < TOKEN_LEN {
        return false;
    }
    chars[i] == '\\' && chars[i + 1] == 'u' && chars[i + 2] == '{' && digit_value_of(
        chars[i + 3],
    ).is_some() && digit_value_of(chars[i + 4]).is_some() && digit_value_of(chars[i + 5]).is_some()
        && digit_value_of(chars[i + 6]).is_some() && chars[i + 7] == '}'
}

/// The number in the token that starts at `chars[i]`.
pub fn read_token_code(chars: &Vec<char>, i: usize) -> (code: u32)
    requires
        token_at(chars@, i as int),
    ensures
        code == token_code(chars@, i as int),
        code <= 0xFFFF,
{
    let n: usize = chars.len();
    assert(i + 8 <= n);
    let d3: u32 = digit_value_of(chars[i + 3]).unwrap();
    let d2: u32 = digit_value_of(chars[i + 4]).unwrap();
    let d1: u32 = digit_value_of(chars[i + 5]).unwrap();
    let d0: u32 = digit_value_of(chars[i + 6]).unwrap();
    0x1000 * d3 + 0x100 * d2 + 0x10 * d1 + d0
}

/// Whether `offset` is among `starts`.
pub fn is_proposed(starts: &Vec<usize>, offset: u128) -> (r: bool)
    ensures
        r == proposed(starts@, offset as int),
{
    let mut k: usize = 0;
    while k < starts.len()
        invariant
            k <= starts.len(),
            forall|j: int| 0 <= j < k ==> starts@[j] as int != offset as int,
        decreases starts.len() - k,
    {
        if starts[k] as u128 == offset {
            return true;
        }
        k = k + 1;
    }
    false
}

/// Whether `offset` is among `starts`, looking at `starts[first]` before the
/// others: offsets that come in rising order are found at once by a caller
/// that asks for them in that order.
pub fn is_proposed_from(starts: &Vec<usize>, first: usize, offset: u128) -> (r: bool)
    ensures
        r == proposed(starts@, offset as int),
{
    if first < starts.len() && starts[first] as u128 == offset {
        true
    } else {
        is_proposed(starts, offset)
    }
}

/// How many bytes `c` takes in UTF-8.
pub fn utf8_width_of(c: char) -> (w: u128)
    ensures
        w == utf8_width(c),
{
    let code: u32 = c as u32;
    if code < 0x80 {
        1
    } else if code < 0x800 {
        2
    } else if code < 0x10000 {
        3
    } else {
        4
    }
}

/// Replaces the tokens of `input` that start at one of the byte offsets
/// `starts`. An offset at which no token starts changes nothing.
pub fn replace_tokens(input: &str, starts: &Vec<usize>) -> (r: Result<String, DecodeError>)
    ensures
        decoded_as(r, decode_spec(input@, starts@)),
{
    let chars = to_chars(input);
    let mut out: Vec<char> = Vec::new();
    let mut i: usize = 0;
    let mut offset: u128 = 0;
    let mut next: usize = 0;
    while i < chars.len()
        invariant
            chars@ == input@,
            i <= chars.len(),
            offset == byte_offset(chars@, i as int),
            offset <= 4 * i,
            next <= starts.len(),
            decode_spec(chars@, starts@) == prepend(out@, decode_from(chars@, starts@, i as int)),
        decreases chars.len() - i,
    {
        if is_token_at(&chars, i) && is_proposed_from(starts, next, offset) {
            if next < starts.len() {
                next = next + 1;
            }
            let code = read_token_code(&chars, i);
            match char::from_u32(code) {
                Some(c) => {
                    proof {
                        lemma_prepend_push(out@, c, decode_from(chars@, starts@, i + 8));
                        lemma_token_bytes(chars@, i as int);
                    }
                    out.push(c);
                    i = i + TOKEN_LEN;
                    offset = offset + 8;
                },
                None => {
                    return Err(DecodeError::InvalidCodepoint { position: i, code });
                },
            }
        } else {
            proof {
                lemma_prepend_push(out@, chars@[i as int], decode_from(chars@, starts@, i + 1));
            }
            offset = offset + utf8_width_of(chars[i]);
            out.push(chars[i]);
            i = i + 1;
        }
    }
    proof {
        assert(out@ + Seq::<char>::empty() =~= out@);
    }
    Ok(from_chars(&out))
}

/// Putting `c` at the end of the prefix is putting it before the rest.
pub proof fn lemma_prepend_push(prefix: Seq<char>, c: char, rest: Result<Seq<char>, DecodeError>)
    ensures
        prepend(prefix, prepend(seq![c], rest)) == prepend(prefix.push(c), rest),
{
    match rest {
        Ok(tail) => {
            assert(prefix + (seq![c] + tail) =~= prefix.push(c) + tail);
        },
        Err(_) => {},
    }
}

/// A token takes eight bytes: each of its characters takes one.
pub proof fn lemma_token_bytes(s: Seq<char>, i: int)
    requires
        token_at(s, i),
    ensures
        byte_offset(s, i + 8) == byte_offset(s, i) + 8,
{
    reveal_with_fuel(byte_offset, 9);
}

/// The pattern handed to the matching engine: a backslash, `u`, and four
/// hexadecimal digits of either case between braces.
pub const TOKEN_PATTERN: &'static str = "\\\\u\\{[0-9a-fA-F]{4}\\}";

/// What decoding `input` gives where tokens are looked for at the matches of
/// `pattern`: the decoding at the offsets that the matching engine reports,
/// or `PatternRejected` where the engine does not accept the pattern.
pub open spec fn decode_outcome_matching(pattern: Seq<char>, input: Seq<char>) -> Result<
    Seq<char>,
    DecodeError,
> {
    match match_starts(pattern, input) {
        Some(starts) => decode_spec(input, starts),
        None => Err(DecodeError::PatternRejected),
    }
}

/// What decoding `input` gives: tokens are looked for at the matches of the
/// token pattern.
pub open spec fn decode_outcome(input: Seq<char>) -> Result<Seq<char>, DecodeError> {
    decode_outcome_matching(TOKEN_PATTERN@, input)
}

/// Whether `r` is `expected`, the text taken by its characters.
pub open spec fn decoded_as(r: Result<String, DecodeError>, expected: Result<Seq<char>, DecodeError>) -> bool {
    match r {
        Ok(text) => expected == Ok::<Seq<char>, DecodeError>(text@),
        Err(e) => expected == Err::<Seq<char>, DecodeError>(e),
    }
}

/// Replaces the tokens of `input` that start where the matching engine
/// finds `pattern`, and keeps the rest. A pattern can only narrow where
/// tokens are looked for: a match at which no token starts changes nothing,
/// and a text in which no token starts is never changed. The first replaced
/// token, from the left, whose code point belongs to no character fails the
/// whole call.
pub fn unicode_to_text_matching(pattern: &str, input: &str) -> (r: Result<String, DecodeError>)
    ensures
        decoded_as(r, decode_outcome_matching(pattern@, input@)),
        (forall|i: int| !token_at(input@, i)) ==> match r {
            Ok(text) => text@ == input@,
            Err(e) => e == DecodeError::PatternRejected,
        },
{
    proof {
        if forall|i: int| !token_at(input@, i) {
            assert forall|starts: Seq<usize>| #[trigger]
                decode_spec(input@, starts) == Ok::<Seq<char>, DecodeError>(input@) by {
                lemma_decode_without_tokens(input@, starts);
            }
        }
    }
    match find_starts(pattern, input) {
        Ok(starts) => replace_tokens(input, &starts),
        Err(_) => Err(DecodeError::PatternRejected),
    }
}

/// Replaces every token `\u{XXXX}` that the matching engine finds in `input`
/// by the character with code point `XXXX`, and keeps the rest. The first
/// token, from the left, whose code point belongs to no character fails the
/// whole call. A text in which no token starts is never changed.
pub fn unicode_to_text(input: &str) -> (r: Result<String, DecodeError>)
    ensures
        decoded_as(r, decode_outcome(input@)),
        (forall|i: int| !token_at(input@, i)) ==> match r {
            Ok(text) => text@ == input@,
            Err(e) => e == DecodeError::PatternRejected,
        },
{
    unicode_to_text_matching(TOKEN_PATTERN, input)
}

/// Two tokens do not overlap: a token holds one backslash, its first
/// character, so the next token starts after its closing brace.
pub proof fn lemma_tokens_apart(s: Seq<char>, i: int, j: int)
    requires
        token_at(s, i),
        token_at(s, j),
        i < j,
    ensures
        i + 8 <= j,
{
}

/// Where no place from `i` on is replaced, decoding from `i` gives the rest
/// of the text as it is.
pub proof fn lemma_decode_untouched(s: Seq<char>, starts: Seq<usize>, i: int)
    requires
        0 <= i <= s.len(),
        forall|j: int| i <= j < s.len() ==> !replaced_at(s, starts, j),
    ensures
        decode_from(s, starts, i) == Ok::<Seq<char>, DecodeError>(s.skip(i)),
    decreases s.len() - i,
{
    if i < s.len() {
        lemma_decode_untouched(s, starts, i + 1);
        assert(seq![s[i]] + s.skip(i + 1) =~= s.skip(i));
    } else {
        assert(s.skip(i) =~= Seq::<char>::empty());
    }
}

/// A text in which no token starts anywhere decodes to itself, whatever
/// offsets are proposed.
pub proof fn lemma_decode_without_tokens(s: Seq<char>, starts: Seq<usize>)
    requires
        forall|i: int| !token_at(s, i),
    ensures
        decode_spec(s, starts) == Ok::<Seq<char>, DecodeError>(s),
{
    lemma_decode_untouched(s, starts, 0);
    assert(s.skip(0) =~= s);
}

/// A text decodes to itself where no offset is proposed.
pub proof fn lemma_decode_without_matches(s: Seq<char>)
    ensures
        decode_spec(s, Seq::empty()) == Ok::<Seq<char>, DecodeError>(s),
{
    lemma_decode_untouched(s, Seq::empty(), 0);
    assert(s.skip(0) =~= s);
}

/// Encoded text writes its code points without braces, so no token starts
/// in it and decoding gives it back unchanged. Decoding therefore undoes
/// encoding for the empty text and for no other.
pub proof fn lemma_decode_encoded(s: Seq<char>, starts: Seq<usize>)
    ensures
        decode_spec(encode_spec(s), starts) == Ok::<Seq<char>, DecodeError>(encode_spec(s)),
        decode_spec(encode_spec(s), starts) == Ok::<Seq<char>, DecodeError>(s) <==> s.len() == 0,
{
    let e = encode_spec(s);
    lemma_encode_brace_free(s);
    assert forall|i: int| !token_at(e, i) by {
        if token_at(e, i) {
            assert(e[i + 2] == '{');
        }
    }
    lemma_decode_without_tokens(e, starts);
    lemma_encode_len(s);
    if s.len() == 0 {
        assert(e =~= s);
    } else {
        assert(e.len() != s.len());
    }
}

/// `s` with every lower-case hexadecimal letter in upper case.
pub open spec fn upper_hex_text(s: Seq<char>) -> Seq<char> {
    s.map_values(|c: char| to_upper_hex(c))
}

/// The case of its digits changes neither that a token is one nor the number
/// it holds.
pub proof fn lemma_token_ignores_case(s: Seq<char>, i: int)
    requires
        token_at(s, i),
    ensures
        token_at(upper_hex_text(s), i),
        token_code(upper_hex_text(s), i) == token_code(s, i),
{
    let t = upper_hex_text(s);
    assert forall|j: int| i <= j < i + 8 implies digit_value(#[trigger] t[j]) == digit_value(
        s[j],
    ) by {
        lemma_digit_case(s[j]);
    }
    assert(t[i] == s[i] && t[i + 1] == s[i + 1] && t[i + 2] == s[i + 2] && t[i + 7] == s[i + 7]);
    assert(digit_value(t[i + 3]) == digit_value(s[i + 3]));
    assert(digit_value(t[i + 4]) == digit_value(s[i + 4]));
    assert(digit_value(t[i + 5]) == digit_value(s[i + 5]));
    assert(digit_value(t[i + 6]) == digit_value(s[i + 6]));
}

/// A text that is one token, proposed at its start, decodes to the same
/// result in whichever case its digits are written.
pub proof fn lemma_decode_ignores_case(t: Seq<char>, starts: Seq<usize>)
    requires
        t.len() == 8,
        token_at(t, 0),
        proposed(starts, 0),
    ensures
        decode_spec(upper_hex_text(t), starts) == decode_spec(t, starts),
        is_scalar_value(token_code(t, 0)) ==> decode_spec(t, starts) == Ok::<
            Seq<char>,
            DecodeError,
        >(seq![token_code(t, 0) as char]),
{
    let u = upper_hex_text(t);
    lemma_token_ignores_case(t, 0);
    assert(byte_offset(t, 0) == 0 && byte_offset(u, 0) == 0);
    assert(replaced_at(t, starts, 0) && replaced_at(u, starts, 0));
    assert(decode_from(t, starts, 8) == Ok::<Seq<char>, DecodeError>(Seq::empty()));
    assert(decode_from(u, starts, 8) == Ok::<Seq<char>, DecodeError>(Seq::empty()));
    let c = token_code(t, 0) as char;
    assert(seq![c] + Seq::<char>::empty() =~= seq![c]);
}

/// The token that the decoder reads for `c`: the digits that encoding
/// writes for it, between braces.
pub open spec fn braced_token(c: char) -> Seq<char> {
    seq!['\\', 'u', '{'] + padded_hex(c as int) + seq!['}']
}

/// For a character up to `0xFFFF`, the digits that encoding writes, put
/// between braces, are a token that decodes to that character.
pub proof fn lemma_braced_token_decodes(c: char, starts: Seq<usize>)
    requires
        (c as int) <= 0xFFFF,
        proposed(starts, 0),
    ensures
        token_at(braced_token(c), 0),
        token_code(braced_token(c), 0) == c as int,
        decode_spec(braced_token(c), starts) == Ok::<Seq<char>, DecodeError>(seq![c]),
{
    let t = braced_token(c);
    let code = c as int;
    lemma_upper_digit_value(code / 0x1000 % 16);
    lemma_upper_digit_value(code / 0x100 % 16);
    lemma_upper_digit_value(code / 0x10 % 16);
    lemma_upper_digit_value(code % 16);
    assert(t.len() == 8);
    assert(t[3] == upper_digit(code / 0x1000 % 16));
    assert(t[4] == upper_digit(code / 0x100 % 16));
    assert(t[5] == upper_digit(code / 0x10 % 16));
    assert(t[6] == upper_digit(code % 16));
    assert(token_at(t, 0));
    assert(token_code(t, 0) == code);
    lemma_decode_ignores_case(t, starts);
    assert(code as char == c);
}

} // verus!
