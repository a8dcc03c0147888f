//! Laws of the escape sequences: each one, read, gives its character back.
use crate::combinators::{at_least_one, many, Rule};
use crate::error::done;
use crate::laws::combinators::{
    gives_way_unmoved, goes_onward, lemma_at_least_one_fails_fatally, lemma_literal_of_one,
    lemma_literal_onward, lemma_looking_at_each, lemma_many_fails_fatally, lemma_many_onward,
    onward,
};
use crate::primitives::{
    hex_digit_value, looking_at, spec_hex_digit, spec_literal, spec_try_literal, HexDigit,
};
use crate::reader::{lemma_step_fits, lemma_walk_add, lemma_walk_fits, ReaderState};
use crate::string::{
    clip, hex_number, scalar, simple_escape, spec_any_char, spec_escape_char, spec_hex_value,
    spec_unicode,
};
use vstd::prelude::*;

verus! {

/// The letter that stands after the backslash in the short escape
/// sequence of `c`, if `c` has one.
pub open spec fn escape_letter(c: char) -> Option<char> {
    if c == '#' || c == '"' || c == '`' || c == '\\' || c == '/' {
        Some(c)
    } else if c == '\x08' {
        Some('b')
    } else if c == '\n' {
        Some('n')
    } else if c == '\x0c' {
        Some('f')
    } else if c == '\r' {
        Some('r')
    } else if c == '\t' {
        Some('t')
    } else {
        None
    }
}

/// The short escape sequence of `c`: a backslash and a letter.
pub open spec fn short_escape(c: char) -> Seq<char> {
    seq!['\\', escape_letter(c)->Some_0]
}

/// The hexadecimal digit for `d`, in lower case.
pub open spec fn hex_char(d: nat) -> char {
    if d < 10 {
        ('0' as u32 + d) as char
    } else {
        ('a' as u32 + d - 10) as char
    }
}

/// `n` in base 16, without leading zeros.
pub open spec fn hex_digits(n: nat) -> Seq<char>
    decreases n,
{
    if n < 16 {
        seq![hex_char(n)]
    } else {
        hex_digits(n / 16).push(hex_char(n % 16))
    }
}

/// What follows `\u` in the escape sequence of a character by its number.
pub open spec fn braced(c: char) -> Seq<char> {
    seq!['{'] + hex_digits(c as nat) + seq!['}']
}

/// The escape sequence of `c` by its number: `\u{`, the number in base 16,
/// `}`.
pub open spec fn unicode_escape(c: char) -> Seq<char> {
    seq!['\\', 'u'] + braced(c)
}

/// The numbers that the hexadecimal digits `s` stand for.
pub open spec fn digit_values(s: Seq<char>) -> Seq<u32> {
    Seq::new(s.len(), |i: int| hex_digit_value(s[i])->Some_0)
}

/// A backslash that stands in the text is read as the opening of an escape
/// sequence.
pub proof fn lemma_backslash(input: Seq<char>, st: ReaderState)
    requires
        st.fits(input),
        st.index < input.len(),
        input[st.index as int] == '\\',
    ensures
        spec_try_literal("\\"@, input, st) == done((), st.walk(input, 1)),
{
    reveal_strlit("\\");
    assert(input.subrange(st.index as int, st.index + 1) =~= "\\"@);
}

/// After a backslash and the letter of a short escape sequence, the
/// escape sequence is the character that the letter stands for.
pub proof fn lemma_escape_by_letter(input: Seq<char>, st: ReaderState, open: ReaderState)
    requires
        spec_try_literal("\\"@, input, st) == done((), open),
        open.index < input.len(),
        simple_escape(input[open.index as int]) is Some,
    ensures
        spec_escape_char(input, st) == done(
            simple_escape(input[open.index as int])->Some_0,
            open.step(input[open.index as int]),
        ),
{
    reveal(spec_escape_char);
}

/// Reading the short escape sequence of a character gives the character
/// back, and exactly the sequence is read.
pub proof fn law_short_escape_round_trip(c: char, input: Seq<char>, st: ReaderState)
    requires
        st.fits(input),
        escape_letter(c) is Some,
        looking_at(input, st.index as int, short_escape(c)),
    ensures
        spec_escape_char(input, st) == done(c, st.walk(input, 2)),
        simple_escape(escape_letter(c)->Some_0) == Some(c),
{
    let from = st.index as int;
    let letter = escape_letter(c)->Some_0;
    assert(input[from] == '\\' && input[from + 1] == letter) by {
        lemma_looking_at_each(input, from, short_escape(c));
        assert(short_escape(c)[0] == '\\' && short_escape(c)[1] == letter);
    }
    let open = st.walk(input, 1);
    assert(open.index == from + 1 && open.step(letter) == st.walk(input, 2)) by {
        lemma_walk_fits(st, input, 1);
    }
    lemma_backslash(input, st);
    lemma_escape_by_letter(input, st, open);
}

/// The digits of a number in base 16 are hexadecimal digits, there is at
/// least one, and read as a number they give the number back.
pub proof fn lemma_hex_digits(n: nat)
    ensures
        hex_digits(n).len() >= 1,
        forall|i: int| 0 <= i < hex_digits(n).len() ==> hex_digit_value(#[trigger] hex_digits(n)[i]) is Some,
        hex_number(digit_values(hex_digits(n))) == n,
    decreases n,
{
    if n < 16 {
        assert(hex_digit_value(hex_char(n)) == Some(n as u32));
        assert(digit_values(hex_digits(n)).drop_last() =~= Seq::<u32>::empty());
        assert(hex_number(Seq::<u32>::empty()) == 0);
    } else {
        lemma_hex_digits(n / 16);
        let d = n % 16;
        assert(hex_digit_value(hex_char(d)) == Some(d as u32));
        let upper = hex_digits(n / 16);
        assert(digit_values(upper.push(hex_char(d))).drop_last() =~= digit_values(upper));
        assert(digit_values(upper.push(hex_char(d))).last() == d);
    }
}

/// A run of `n` hexadecimal digits that something else follows is read by
/// the repetition of the digit rule as its `n` numbers.
pub proof fn lemma_many_hex_digits(input: Seq<char>, st: ReaderState, n: nat)
    requires
        st.fits(input),
        st.index + n <= input.len(),
        forall|i: int| 0 <= i < n ==> hex_digit_value(#[trigger] input[st.index + i]) is Some,
        st.index + n < input.len() ==> hex_digit_value(input[st.index + n]) is None,
    ensures
        many(&HexDigit, input, st) == done(
            digit_values(input.subrange(st.index as int, st.index + n)),
            st.walk(input, n),
        ),
    decreases n,
{
    let here = st.index as int;
    if n == 0 {
        assert(digit_values(input.subrange(here, here + 0)) =~= Seq::<u32>::empty());
    } else {
        assert(hex_digit_value(input[st.index + 0]) is Some);
        let next = st.step(input[here]);
        lemma_step_fits(st, input);
        assert forall|i: int| 0 <= i < n - 1 implies hex_digit_value(
            #[trigger] input[next.index + i],
        ) is Some by {
            assert(hex_digit_value(input[st.index + (i + 1)]) is Some);
        }
        lemma_many_hex_digits(input, next, (n - 1) as nat);
        lemma_walk_add(st, input, 1, (n - 1) as nat);
        assert(seq![hex_digit_value(input[here])->Some_0] + digit_values(
            input.subrange(next.index as int, next.index + n - 1),
        ) =~= digit_values(input.subrange(here, here + n)));
    }
}

/// A run of one or more hexadecimal digits that something else follows is
/// read as the number that the digits write.
pub proof fn lemma_hex_value_of_digits(input: Seq<char>, st: ReaderState, n: nat)
    requires
        st.fits(input),
        n >= 1,
        st.index + n <= input.len(),
        forall|i: int| 0 <= i < n ==> hex_digit_value(#[trigger] input[st.index + i]) is Some,
        st.index + n < input.len() ==> hex_digit_value(input[st.index + n]) is None,
    ensures
        spec_hex_value(input, st) == done(
            clip(hex_number(digit_values(input.subrange(st.index as int, st.index + n)))),
            st.walk(input, n),
        ),
{
    let here = st.index as int;
    assert(hex_digit_value(input[st.index + 0]) is Some);
    let first = hex_digit_value(input[here])->Some_0;
    let after = st.step(input[here]);
    lemma_step_fits(st, input);
    assert forall|i: int| 0 <= i < n - 1 implies hex_digit_value(#[trigger] input[after.index + i]) is Some by {
        assert(hex_digit_value(input[st.index + (i + 1)]) is Some);
    }
    lemma_many_hex_digits(input, after, (n - 1) as nat);
    lemma_walk_add(st, input, 1, (n - 1) as nat);
    assert(seq![first] + digit_values(input.subrange(after.index as int, after.index + n - 1))
        =~= digit_values(input.subrange(here, here + n)));
    assert(at_least_one(&HexDigit, input, st) =~~= done(
        digit_values(input.subrange(here, here + n)),
        st.walk(input, n),
    ));
}

/// The hexadecimal digits of the number of `c`, read as a number, give the
/// number of `c`.
pub proof fn lemma_hex_value_of_char(c: char, input: Seq<char>, st: ReaderState)
    requires
        st.fits(input),
        looking_at(input, st.index as int, hex_digits(c as nat) + seq!['}']),
    ensures
        spec_hex_value(input, st) == done(c as u32, st.walk(input, hex_digits(c as nat).len())),
{
    let digits = hex_digits(c as nat);
    let n = digits.len();
    lemma_hex_digits(c as nat);
    lemma_looking_at_each(input, st.index as int, digits + seq!['}']);
    assert forall|i: int| 0 <= i < n implies hex_digit_value(#[trigger] input[st.index + i]) is Some by {
        assert((digits + seq!['}'])[i] == digits[i]);
    }
    assert(input[st.index + n] == '}') by {
        assert((digits + seq!['}'])[n as int] == '}');
    }
    assert(hex_digit_value('}') is None);
    lemma_hex_value_of_digits(input, st, n);
    assert(input.subrange(st.index as int, st.index + n) =~= digits) by {
        assert forall|i: int| 0 <= i < n implies input[st.index + i] == digits[i] by {
            assert((digits + seq!['}'])[i] == digits[i]);
        }
    }
}

/// `{`, a number and `}`, each read in turn, are read as what follows `\u`.
pub proof fn lemma_unicode_in_parts(
    input: Seq<char>,
    st: ReaderState,
    s1: ReaderState,
    s2: ReaderState,
    s3: ReaderState,
    c: char,
)
    requires
        spec_literal("{"@, input, st) == done((), s1),
        spec_hex_value(input, s1) == done(c as u32, s2),
        spec_literal("}"@, input, s2) == done((), s3),
    ensures
        spec_unicode(input, st) == done(c, s3),
{
    assert(scalar(c as u32) == Some(c));
}

/// Where the text holds `{`, the number of `c` in base 16 and `}`, it
/// holds each of the three in its place.
pub proof fn lemma_braced_in_parts(c: char, input: Seq<char>, from: int)
    requires
        looking_at(input, from, braced(c)),
    ensures
        hex_digits(c as nat).len() >= 1,
        braced(c).len() == hex_digits(c as nat).len() + 2,
        input[from] == '{',
        looking_at(input, from + 1, hex_digits(c as nat) + seq!['}']),
        input[from + 1 + hex_digits(c as nat).len()] == '}',
{
    let digits = hex_digits(c as nat);
    let n = digits.len();
    lemma_hex_digits(c as nat);
    lemma_looking_at_each(input, from, braced(c));
    assert(braced(c)[0] == '{');
    assert(braced(c)[1 + n as int] == '}');
    assert forall|k: int| 0 <= k < n + 1 implies input[from + 1 + k] == (digits + seq!['}'])[k] by {
        assert(braced(c)[1 + k] == (digits + seq!['}'])[k]);
    }
    assert(input.subrange(from + 1, from + 1 + n + 1) =~= digits + seq!['}']);
}

/// Reading `{`, the number of a character in base 16 and `}` gives the
/// character.
pub proof fn lemma_unicode_of_braced(c: char, input: Seq<char>, st: ReaderState)
    requires
        st.fits(input),
        looking_at(input, st.index as int, braced(c)),
    ensures
        spec_unicode(input, st) == done(c, st.walk(input, braced(c).len())),
{
    let from = st.index as int;
    let n = hex_digits(c as nat).len();
    let s1 = st.walk(input, 1);
    let s2 = s1.walk(input, n);
    let s3 = st.walk(input, n + 2);
    lemma_braced_in_parts(c, input, from);
    assert(s1.fits(input) && s1.index == from + 1 && s2.fits(input) && s2.index == from + 1 + n
        && s2.walk(input, 1) == s3) by {
        lemma_walk_fits(st, input, 1);
        lemma_walk_add(st, input, 1, n);
        lemma_walk_fits(st, input, 1 + n);
        lemma_walk_add(st, input, 1 + n, 1);
    }
    assert(spec_literal("{"@, input, st) == done((), s1)) by {
        reveal_strlit("{");
        lemma_literal_of_one("{"@, input, st);
    }
    assert(spec_hex_value(input, s1) == done(c as u32, s2)) by {
        lemma_hex_value_of_char(c, input, s1);
    }
    assert(spec_literal("}"@, input, s2) == done((), s3)) by {
        reveal_strlit("}");
        lemma_literal_of_one("}"@, input, s2);
    }
    lemma_unicode_in_parts(input, st, s1, s2, s3, c);
}

/// After a backslash and `u`, an escape sequence is what follows `\u`.
pub proof fn lemma_escape_by_number(input: Seq<char>, st: ReaderState, open: ReaderState)
    requires
        spec_try_literal("\\"@, input, st) == done((), open),
        open.index < input.len(),
        input[open.index as int] == 'u',
    ensures
        spec_escape_char(input, st) == spec_unicode(input, open.step('u')),
{
    reveal(spec_escape_char);
}

/// The escape sequence of a character by its number, where the text holds
/// it, holds a backslash, `u`, and the rest.
pub proof fn lemma_unicode_escape_in_parts(c: char, input: Seq<char>, from: int)
    requires
        looking_at(input, from, unicode_escape(c)),
    ensures
        unicode_escape(c).len() == 2 + braced(c).len(),
        input[from] == '\\',
        input[from + 1] == 'u',
        looking_at(input, from + 2, braced(c)),
{
    let text = unicode_escape(c);
    let rest = braced(c);
    lemma_looking_at_each(input, from, text);
    assert(text[0] == '\\' && text[1] == 'u');
    assert forall|k: int| 0 <= k < rest.len() implies input[from + 2 + k] == rest[k] by {
        assert(text[2 + k] == rest[k]);
    }
    assert(input.subrange(from + 2, from + 2 + rest.len()) =~= rest);
}

/// Reading the escape sequence of a character by its number gives the
/// character back, and exactly the sequence is read.
pub proof fn law_unicode_escape_round_trip(c: char, input: Seq<char>, st: ReaderState)
    requires
        st.fits(input),
        looking_at(input, st.index as int, unicode_escape(c)),
    ensures
        spec_escape_char(input, st) == done(c, st.walk(input, unicode_escape(c).len())),
{
    let from = st.index as int;
    let open = st.walk(input, 1);
    let after = open.step('u');
    lemma_unicode_escape_in_parts(c, input, from);
    lemma_backslash(input, st);
    assert(open.index == from + 1 && after == st.walk(input, 2) && after.fits(input) && after.index
        == from + 2) by {
        lemma_walk_fits(st, input, 1);
        lemma_walk_fits(st, input, 2);
    }
    lemma_escape_by_number(input, st, open);
    lemma_unicode_of_braced(c, input, after);
    lemma_walk_add(st, input, 2, braced(c).len());
}

/// After a backslash every failure is fatal: what follows is an escape
/// sequence or an error, never a character that stands for itself.
pub proof fn law_committed_after_backslash(input: Seq<char>, st: ReaderState)
    requires
        st.fits(input),
        st.index < input.len(),
        input[st.index as int] == '\\',
    ensures
        spec_escape_char(input, st).result is Err ==> !spec_escape_char(input, st).result->Err_0.recoverable,
{
    reveal(spec_escape_char);
    lemma_backslash(input, st);
    let open = st.walk(input, 1);
    if open.index < input.len() {
        let brace = spec_literal("{"@, input, open.step(input[open.index as int]));
        let first = spec_hex_digit(input, brace.state);
        lemma_many_fails_fatally(&HexDigit, input, first.state);
    }
}

/// What follows `\u`, read or not, leaves the reader onward.
pub proof fn lemma_unicode_onward(input: Seq<char>, st: ReaderState)
    requires
        st.fits(input),
    ensures
        onward(st, spec_unicode(input, st).state, input),
        onward(st, spec_hex_value(input, st).state, input),
{
    assert(goes_onward(&HexDigit, input)) by {
        assert forall|s: ReaderState| s.fits(input) implies onward(
            s,
            (#[trigger] HexDigit.parse(input, s)).state,
            input,
        ) by {
            if s.index < input.len() {
                lemma_step_fits(s, input);
            }
        }
    }
    lemma_many_onward(&HexDigit, input, st);
    let open = spec_literal("{"@, input, st);
    lemma_literal_onward("{"@, input, st);
    lemma_many_onward(&HexDigit, input, open.state);
    let number = spec_hex_value(input, open.state);
    lemma_literal_onward("}"@, input, number.state);
}

/// An escape sequence, read or not, leaves the reader onward.
pub proof fn lemma_escape_char_onward(input: Seq<char>, st: ReaderState)
    requires
        st.fits(input),
    ensures
        onward(st, spec_escape_char(input, st).state, input),
{
    reveal(spec_escape_char);
    let open = spec_try_literal("\\"@, input, st);
    lemma_literal_onward("\\"@, input, st);
    if open.result is Ok && open.state.index < input.len() {
        let next = open.state.step(input[open.state.index as int]);
        lemma_step_fits(open.state, input);
        lemma_unicode_onward(input, next);
    }
}

/// One character of a string, read or refused, leaves the reader onward,
/// and what it gives as the written text of a character is the text that
/// was read.
pub proof fn lemma_any_char_onward(except: Seq<char>, input: Seq<char>, st: ReaderState)
    requires
        st.fits(input),
    ensures
        onward(st, spec_any_char(except, input, st).state, input),
        spec_any_char(except, input, st).result is Ok ==> spec_any_char(except, input, st).result->Ok_0.1
            == input.subrange(st.index as int, spec_any_char(except, input, st).state.index as int),
{
    reveal(spec_any_char);
    lemma_escape_char_onward(input, st);
    if st.index < input.len() {
        lemma_step_fits(st, input);
        assert(seq![input[st.index as int]] =~= input.subrange(st.index as int, st.index + 1));
    }
}

/// The digits of an escape sequence and what follows `\u` fail fatally or
/// not at all.
pub proof fn lemma_unicode_fails_fatally(input: Seq<char>, st: ReaderState)
    ensures
        spec_hex_value(input, st).result is Err ==> !spec_hex_value(input, st).result->Err_0.recoverable,
        spec_unicode(input, st).result is Err ==> !spec_unicode(input, st).result->Err_0.recoverable,
{
    lemma_at_least_one_fails_fatally(&HexDigit, input, st);
    lemma_at_least_one_fails_fatally(&HexDigit, input, spec_literal("{"@, input, st).state);
}

/// An escape sequence and a character of a string leave the reader where it
/// was when they give way to another rule.
pub proof fn law_characters_give_way_unmoved(except: Seq<char>, input: Seq<char>, st: ReaderState)
    ensures
        gives_way_unmoved(spec_escape_char(input, st), st),
        gives_way_unmoved(spec_any_char(except, input, st), st),
{
    reveal(spec_escape_char);
    reveal(spec_any_char);
    let open = spec_try_literal("\\"@, input, st);
    if open.result is Ok && open.state.index < input.len() {
        lemma_unicode_fails_fatally(input, open.state.step(input[open.state.index as int]));
    }
}

} // verus!
