use vstd::prelude::*;

verus! {

/// What `char::is_alphanumeric` returns for `c`: whether `c` has the Unicode
/// `Alphabetic` property or is `Numeric`.
pub uninterp spec fn is_alphanumeric_char(c: char) -> bool;

/// Calls `char::is_alphanumeric`; its result is a fixed function of `c`
/// (the Unicode tables of the standard library), named `is_alphanumeric_char`.
#[verifier::external_body]
fn char_is_alphanumeric(c: char) -> (r: bool)
    ensures
        r == is_alphanumeric_char(c),
{
    c.is_alphanumeric()
}

/// A character that may start an attribute key.
pub open spec fn is_key_start_char(c: char) -> bool {
    is_alphanumeric_char(c) || c == '_' || c == ':'
}

/// A character that may follow the first one in an attribute key.
pub open spec fn is_key_char(c: char) -> bool {
    is_key_start_char(c) || c == '-' || c == '.'
}

/// Whether the character at position `j` of a key fits there.
pub open spec fn key_char_fits(s: Seq<char>, j: int) -> bool {
    if j == 0 {
        is_key_start_char(s[j])
    } else {
        is_key_char(s[j])
    }
}

/// The index of the first `=` in `s` at or after `i`, or `s.len()` if none.
pub open spec fn first_eq_from(s: Seq<char>, i: int) -> int
    decreases s.len() - i,
{
    if i >= s.len() {
        s.len() as int
    } else if s[i] == '=' {
        i
    } else {
        first_eq_from(s, i + 1)
    }
}

/// The key part of an attribute: the text before the first `=`, or the
/// whole text when it has none.
pub open spec fn attr_key_name(s: Seq<char>) -> Seq<char> {
    s.take(first_eq_from(s, 0))
}

/// An attribute key is valid when it is not empty, starts with an
/// alphanumeric character, `_` or `:`, and goes on with those or `-` and `.`.
pub open spec fn valid_attr_key(s: Seq<char>) -> bool {
    let key = attr_key_name(s);
    &&& key.len() > 0
    &&& is_key_start_char(key[0])
    &&& forall|j: int| 1 <= j < key.len() ==> #[trigger] is_key_char(key[j])
}

proof fn lemma_first_eq_from_bounds(s: Seq<char>, i: int)
    requires
        0 <= i <= s.len(),
    ensures
        i <= first_eq_from(s, i) <= s.len(),
        forall|j: int| i <= j < first_eq_from(s, i) ==> s[j] != '=',
        first_eq_from(s, i) < s.len() ==> s[first_eq_from(s, i)] == '=',
    decreases s.len() - i,
{
    if i < s.len() && s[i] != '=' {
        lemma_first_eq_from_bounds(s, i + 1);
    }
}

/// Whether `attr` (or, if it holds a `=`, its part before the first `=`)
/// is a valid HTML attribute key.
pub fn is_valid_attr_key(attr: &str) -> (r: bool)
    ensures
        r == valid_attr_key(attr@),
{
    let len = attr.unicode_len();
    let ghost s = attr@;
    proof {
        lemma_first_eq_from_bounds(s, 0);
    }
    let mut i: usize = 0;
    let mut ok = true;
    while i < len && attr.get_char(i) != '='
        invariant
            len == s.len(),
            s == attr@,
            0 <= i <= first_eq_from(s, 0),
            first_eq_from(s, 0) <= s.len(),
            forall|j: int| 0 <= j < first_eq_from(s, 0) ==> s[j] != '=',
            first_eq_from(s, 0) < s.len() ==> s[first_eq_from(s, 0)] == '=',
            ok == (forall|j: int|
                0 <= j < i ==> #[trigger] key_char_fits(s, j)),
        decreases len - i,
    {
        let c = attr.get_char(i);
        let good = if i == 0 {
            char_is_alphanumeric(c) || c == '_' || c == ':'
        } else {
            char_is_alphanumeric(c) || c == '_' || c == ':' || c == '-' || c == '.'
        };
        assert(good == key_char_fits(s, i as int));
        proof {
            if !ok {
                let j = choose|j: int| 0 <= j < i && !#[trigger] key_char_fits(s, j);
                assert(0 <= j < i + 1 && !key_char_fits(s, j));
            }
        }
        ok = ok && good;
        i = i + 1;
    }
    let ghost key = attr_key_name(s);
    assert(i == first_eq_from(s, 0));
    assert(key.len() == i);
    assert forall|j: int| 0 <= j < i implies key[j] == s[j] by {}
    if i == 0 {
        false
    } else {
        assert(ok == (is_key_start_char(key[0]) && forall|j: int|
            1 <= j < key.len() ==> #[trigger] is_key_char(key[j]))) by {
            if ok {
                assert forall|j: int| 1 <= j < key.len() implies #[trigger] is_key_char(key[j]) by {
                    assert(key_char_fits(s, j));
                }
                assert(key_char_fits(s, 0));
            } else {
                let j = choose|j: int| 0 <= j < i && !#[trigger] key_char_fits(s, j);
                if j > 0 {
                    assert(!is_key_char(key[j]));
                }
            }
        }
        ok
    }
}

/// Whatever follows the first `=` has no bearing on validity: a key with
/// no `=` followed by `=` and any text is valid exactly when the key is.
pub proof fn lemma_valid_attr_key_ignores_value(key: Seq<char>, value: Seq<char>)
    requires
        !key.contains('='),
    ensures
        valid_attr_key(key + seq!['='] + value) == valid_attr_key(key),
{
    let s = key + seq!['='] + value;
    lemma_first_eq_prefix(s, key, 0);
    lemma_first_eq_prefix(key, key, 0);
    assert(s.take(key.len() as int) =~= key);
    assert(key.take(key.len() as int) =~= key);
}

/// In a text that starts with `prefix` followed by `=` or by nothing, where
/// `prefix` holds no `=`, the first `=` at or after `i` is at the end of
/// the prefix.
proof fn lemma_first_eq_prefix(s: Seq<char>, prefix: Seq<char>, i: int)
    requires
        0 <= i <= prefix.len() <= s.len(),
        forall|j: int| 0 <= j < prefix.len() ==> s[j] == prefix[j],
        !prefix.contains('='),
        prefix.len() == s.len() || s[prefix.len() as int] == '=',
    ensures
        first_eq_from(s, i) == prefix.len(),
    decreases prefix.len() - i,
{
    if i < prefix.len() {
        assert(s[i] == prefix[i]);
        if s[i] == '=' {
            assert(prefix.contains('='));
        }
        lemma_first_eq_prefix(s, prefix, i + 1);
    }
}

} // verus!
