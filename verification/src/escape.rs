use vstd::prelude::*;
use vstd::string::StringExecFns;

verus! {

/// The character sets that the HTML encoders escape.
#[derive(PartialEq, Eq, Structural, Clone, Copy, Debug)]
pub enum EscapeSet {
    /// `&`, `<` and `>`: text between tags.
    Text,
    /// `&`, `<`, `>` and `"`: the value of a double-quoted attribute.
    DoubleQuotedAttribute,
    /// `&`, `<`, `>`, `"`, `'` and `/`.
    Safe,
}

/// What one character becomes under an escape set: its HTML entity when
/// the set escapes it, else the character itself.
pub open spec fn escape_char(c: char, set: EscapeSet) -> Seq<char> {
    if c == '&' {
        seq!['&', 'a', 'm', 'p', ';']
    } else if c == '<' {
        seq!['&', 'l', 't', ';']
    } else if c == '>' {
        seq!['&', 'g', 't', ';']
    } else if c == '"' && set != EscapeSet::Text {
        seq!['&', 'q', 'u', 'o', 't', ';']
    } else if c == '\'' && set == EscapeSet::Safe {
        seq!['&', '#', 'x', '2', '7', ';']
    } else if c == '/' && set == EscapeSet::Safe {
        seq!['&', '#', 'x', '2', 'F', ';']
    } else {
        seq![c]
    }
}

/// A text with every character replaced by its escape under `set`.
pub open spec fn escaped(s: Seq<char>, set: EscapeSet) -> Seq<char>
    decreases s.len(),
{
    if s.len() == 0 {
        Seq::empty()
    } else {
        escaped(s.drop_last(), set) + escape_char(s.last(), set)
    }
}

/// Calls `html_escape::encode_safe_to_string`, which appends `text` to
/// `buffer` with `&`, `<`, `>`, `"`, `'` and `/` replaced by their entities
/// and every other character kept.
#[verifier::external_body]
pub(crate) fn push_encoded_safe(text: &str, buffer: &mut String)
    ensures
        final(buffer)@ == old(buffer)@ + escaped(text@, EscapeSet::Safe),
{
    html_escape::encode_safe_to_string(text, buffer);
}

/// Calls `html_escape::encode_text`, which gives `text` with `&`, `<` and
/// `>` replaced by their entities and every other character kept.
#[verifier::external_body]
pub(crate) fn encode_text(text: &str) -> (r: String)
    ensures
        r@ == escaped(text@, EscapeSet::Text),
{
    html_escape::encode_text(text).into_owned()
}

/// Calls `html_escape::encode_double_quoted_attribute`, which gives `text`
/// with `&`, `<`, `>` and `"` replaced by their entities and every other
/// character kept.
#[verifier::external_body]
pub(crate) fn encode_double_quoted_attribute(text: &str) -> (r: String)
    ensures
        r@ == escaped(text@, EscapeSet::DoubleQuotedAttribute),
{
    html_escape::encode_double_quoted_attribute(text).into_owned()
}

/// Calls `String::push`, which appends one character.
#[verifier::external_body]
pub(crate) fn push_char(buffer: &mut String, c: char)
    ensures
        final(buffer)@ == old(buffer)@.push(c),
{
    buffer.push(c);
}

/// What `String::from_utf8_lossy` gives for `bytes`: the text they encode,
/// with each invalid sequence replaced by U+FFFD.
pub uninterp spec fn utf8_lossy(bytes: Seq<u8>) -> Seq<char>;

/// Calls `String::from_utf8_lossy`. Its result is a fixed function of the
/// bytes, named `utf8_lossy`; on valid UTF-8 it is the decoded text. How an
/// invalid sequence is cut up and replaced is left unsaid.
#[verifier::external_body]
pub(crate) fn from_utf8_lossy(bytes: &[u8]) -> (r: String)
    ensures
        r@ == utf8_lossy(bytes@),
        vstd::utf8::valid_utf8(bytes@) ==> r@ == vstd::utf8::decode_utf8(bytes@),
{
    String::from_utf8_lossy(bytes).into_owned()
}

/// The ASCII digit for `d < 10`.
pub open spec fn digit_char(d: nat) -> char {
    (48 + d) as char
}

/// The decimal digits of `n`, most significant first, without leading zeros.
pub open spec fn decimal(n: nat) -> Seq<char>
    decreases n,
{
    if n < 10 {
        seq![digit_char(n)]
    } else {
        decimal(n / 10).push(digit_char(n % 10))
    }
}

/// The decimal form of `n`: a `-` before the digits of its magnitude when
/// it is negative.
pub open spec fn signed_decimal(n: int) -> Seq<char> {
    if n < 0 {
        seq!['-'] + decimal((-n) as nat)
    } else {
        decimal(n as nat)
    }
}

/// Calls `itoa::Buffer::format`, which gives the decimal digits of `n`.
#[verifier::external_body]
fn format_decimal(n: u128) -> (r: String)
    ensures
        r@ == decimal(n as nat),
{
    itoa::Buffer::new().format(n).to_string()
}

/// Appends the decimal digits of `n`.
pub(crate) fn push_decimal(buffer: &mut String, n: u128)
    ensures
        final(buffer)@ == old(buffer)@ + decimal(n as nat),
{
    let digits = format_decimal(n);
    buffer.append(digits.as_str());
}

/// Appends the decimal form of a signed integer.
pub(crate) fn push_signed_decimal(buffer: &mut String, n: i128)
    ensures
        final(buffer)@ == old(buffer)@ + signed_decimal(n as int),
{
    if n < 0 {
        push_char(buffer, '-');
        let magnitude: u128 = ((-(n + 1)) as u128) + 1;
        push_decimal(buffer, magnitude);
        assert(final(buffer)@ =~= old(buffer)@ + signed_decimal(n as int));
    } else {
        push_decimal(buffer, n as u128);
    }
}

/// Escaping a concatenation escapes each part.
pub proof fn lemma_escaped_concat(a: Seq<char>, b: Seq<char>, set: EscapeSet)
    ensures
        escaped(a + b, set) == escaped(a, set) + escaped(b, set),
    decreases b.len(),
{
    if b.len() == 0 {
        assert(a + b =~= a);
    } else {
        lemma_escaped_concat(a, b.drop_last(), set);
        assert((a + b).drop_last() =~= a + b.drop_last());
        assert((a + b).last() == b.last());
        assert(escaped(a, set) + escaped(b.drop_last(), set) + escape_char(b.last(), set)
            =~= escaped(a, set) + (escaped(b.drop_last(), set) + escape_char(b.last(), set)));
    }
}

/// Escaping a text with none of the set's special characters leaves it unchanged.
pub proof fn lemma_escaped_plain(s: Seq<char>, set: EscapeSet)
    requires
        forall|i: int| 0 <= i < s.len() ==> #[trigger] escape_char(s[i], set) == seq![s[i]],
    ensures
        escaped(s, set) == s,
    decreases s.len(),
{
    if s.len() > 0 {
        lemma_escaped_plain(s.drop_last(), set);
        assert(escape_char(s[s.len() - 1], set) == seq![s[s.len() - 1]]);
        assert(s.drop_last().push(s.last()) =~= s);
    }
}

/// The characters that an escape set replaces by entities, besides `&`.
pub open spec fn is_special_for(c: char, set: EscapeSet) -> bool {
    ||| c == '<'
    ||| c == '>'
    ||| c == '"' && set != EscapeSet::Text
    ||| c == '\'' && set == EscapeSet::Safe
    ||| c == '/' && set == EscapeSet::Safe
}

/// Escaped text holds none of the characters its set escapes, other than
/// the `&` that starts each entity.
pub proof fn lemma_escaped_has_no_special(s: Seq<char>, set: EscapeSet)
    ensures
        forall|i: int|
            0 <= i < escaped(s, set).len() ==> !is_special_for(#[trigger] escaped(s, set)[i], set),
    decreases s.len(),
{
    if s.len() > 0 {
        lemma_escaped_has_no_special(s.drop_last(), set);
        let front = escaped(s.drop_last(), set);
        let tail = escape_char(s.last(), set);
        assert forall|i: int| 0 <= i < tail.len() implies !is_special_for(#[trigger] tail[i], set) by {
            let c = s.last();
            if c == '&' || c == '<' || c == '>' || (c == '"' && set != EscapeSet::Text) || (c
                == '\'' && set == EscapeSet::Safe) || (c == '/' && set == EscapeSet::Safe) {
                assert(0 <= i < 6);
            } else {
                assert(tail == seq![c]);
            }
        }
        assert forall|i: int| 0 <= i < escaped(s, set).len() implies !is_special_for(
            #[trigger] escaped(s, set)[i],
            set,
        ) by {
            if i < front.len() {
                assert(escaped(s, set)[i] == front[i]);
            } else {
                assert(escaped(s, set)[i] == tail[i - front.len()]);
            }
        }
    }
}

/// Reads entities back, left to right in one pass: each of `&amp;`,
/// `&lt;`, `&gt;`, `&quot;`, `&#x27;` and `&#x2F;` gives its character,
/// and any other character stands for itself.
pub open spec fn decode_entities(e: Seq<char>) -> Seq<char>
    decreases e.len(),
{
    if e.len() == 0 {
        Seq::empty()
    } else if e.len() >= 5 && e.take(5) == seq!['&', 'a', 'm', 'p', ';'] {
        seq!['&'] + decode_entities(e.skip(5))
    } else if e.len() >= 4 && e.take(4) == seq!['&', 'l', 't', ';'] {
        seq!['<'] + decode_entities(e.skip(4))
    } else if e.len() >= 4 && e.take(4) == seq!['&', 'g', 't', ';'] {
        seq!['>'] + decode_entities(e.skip(4))
    } else if e.len() >= 6 && e.take(6) == seq!['&', 'q', 'u', 'o', 't', ';'] {
        seq!['"'] + decode_entities(e.skip(6))
    } else if e.len() >= 6 && e.take(6) == seq!['&', '#', 'x', '2', '7', ';'] {
        seq!['\''] + decode_entities(e.skip(6))
    } else if e.len() >= 6 && e.take(6) == seq!['&', '#', 'x', '2', 'F', ';'] {
        seq!['/'] + decode_entities(e.skip(6))
    } else {
        seq![e[0]] + decode_entities(e.skip(1))
    }
}

proof fn lemma_decode_escaped_char(c: char, rest: Seq<char>)
    ensures
        decode_entities(escape_char(c, EscapeSet::Safe) + rest) == seq![c] + decode_entities(
            rest,
        ),
{
    let x = escape_char(c, EscapeSet::Safe);
    let e = x + rest;
    assert(e.take(x.len() as int) =~= x);
    assert(e.skip(x.len() as int) =~= rest);
    if c != '&' && c != '<' && c != '>' && c != '"' && c != '\'' && c != '/' {
        assert(e[0] == c);
        if e.len() >= 4 {
            assert(e.take(4)[0] == c);
        }
        if e.len() >= 5 {
            assert(e.take(5)[0] == c);
        }
        if e.len() >= 6 {
            assert(e.take(6)[0] == c);
        }
        assert(e.skip(1) =~= rest);
    } else if c == '<' || c == '>' {
        if e.len() >= 5 {
            assert(e.take(5)[1] != 'a');
        }
    } else if c == '"' || c == '\'' || c == '/' {
        assert(e.take(5)[1] != 'a');
        assert(e.take(4)[1] != 'l' && e.take(4)[1] != 'g');
        if c != '"' {
            assert(e.take(6)[1] != 'q');
        }
        if c == '/' {
            assert(e.take(6)[4] != '7');
        }
    }
}

/// Decoding the entities of safely escaped text gives the text back.
pub proof fn lemma_decode_escaped_safe(s: Seq<char>)
    ensures
        decode_entities(escaped(s, EscapeSet::Safe)) == s,
    decreases s.len(),
{
    if s.len() > 0 {
        let head = seq![s[0]];
        let tail = s.skip(1);
        assert(head + tail =~= s);
        lemma_escaped_concat(head, tail, EscapeSet::Safe);
        assert(head.drop_last() =~= Seq::<char>::empty());
        reveal_with_fuel(escaped, 2);
        assert(Seq::<char>::empty() + escape_char(s[0], EscapeSet::Safe) =~= escape_char(s[0], EscapeSet::Safe));
        assert(escaped(head, EscapeSet::Safe) =~= escape_char(s[0], EscapeSet::Safe));
        lemma_decode_escaped_char(s[0], escaped(tail, EscapeSet::Safe));
        lemma_decode_escaped_safe(tail);
    }
}

} // verus!
