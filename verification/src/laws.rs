use vstd::prelude::*;

use crate::escape::{decimal, signed_decimal};
use crate::key_check::{arms_error, key_expr_error, KeyErrorView, KeyExpr};
use crate::markup::{attr_lit_text, is_void_tag, lit_text, Lit};
use crate::parse::{
    is_punct_at, spec_parse_markup, AttrView, ElementView, MarkupErrorView, Token,
};
use crate::parts::{part_output, spec_writes_space, DynKind, Dynamic, PartView};
use crate::render::Render;

verus! {

/// The HTML void elements, named one by one.
pub open spec fn is_html_void_element(tag: Seq<char>) -> bool {
    ||| tag == "area"@ ||| tag == "base"@ ||| tag == "br"@ ||| tag == "col"@
    ||| tag == "embed"@ ||| tag == "hr"@ ||| tag == "img"@ ||| tag == "input"@
    ||| tag == "link"@ ||| tag == "meta"@ ||| tag == "source"@ ||| tag == "track"@
    ||| tag == "wbr"@
}

/// The void tags are exactly the thirteen HTML void elements.
pub proof fn lemma_void_tags_are_html_void_elements(tag: Seq<char>)
    ensures
        is_void_tag(tag) <==> is_html_void_element(tag),
{
}

/// A tag followed by `;` reads as a void element with no attributes
/// exactly when the tag is one of the thirteen HTML void elements (and not
/// `true` or `false`, which read as literals).
pub proof fn lemma_void_element_reads(ts: Seq<Token>)
    requires
        ts.len() == 2,
        ts[0] is Ident,
        is_punct_at(ts, 1, ';'),
        !(ts[0]->Ident_0@ == "true"@ || ts[0]->Ident_0@ == "false"@),
    ensures
        is_html_void_element(ts[0]->Ident_0@) <==> spec_parse_markup(ts) == Ok::<
            Seq<ElementView>,
            MarkupErrorView,
        >(seq![ElementView::Void(ts[0]->Ident_0@, Seq::<AttrView>::empty())]),
{
    let name = ts[0]->Ident_0@;
    assert(crate::parse::spec_attrs(ts, 1, Seq::empty()) == Ok::<(Seq<AttrView>, int), MarkupErrorView>(
        (Seq::<AttrView>::empty(), 1),
    ));
    if is_void_tag(name) {
        let e = crate::parse::spec_element(ts, 0);
        assert(e == Ok::<(ElementView, int), MarkupErrorView>(
            (ElementView::Void(name, Seq::empty()), 2),
        ));
        assert(crate::parse::spec_markup(ts, 2, seq![ElementView::Void(name, Seq::empty())])
            == Ok::<Seq<ElementView>, MarkupErrorView>(seq![ElementView::Void(name, Seq::empty())]));
        assert(Seq::<ElementView>::empty().push(ElementView::Void(name, Seq::empty())) =~= seq![
            ElementView::Void(name, Seq::empty()),
        ]);
    } else {
        assert(crate::parse::spec_element(ts, 0) is Err);
    }
}

/// The value of a text of decimal digits.
pub open spec fn digits_value(s: Seq<char>) -> int
    decreases s.len(),
{
    if s.len() == 0 {
        0
    } else {
        digits_value(s.drop_last()) * 10 + (s.last() as int - '0' as int)
    }
}

/// The decimal form of a number is made of digits, has no leading zero
/// unless it is `0`, and has that number as its value.
pub proof fn lemma_decimal_faithful(n: nat)
    ensures
        decimal(n).len() > 0,
        forall|i: int| 0 <= i < decimal(n).len() ==> '0' <= #[trigger] decimal(n)[i] <= '9',
        decimal(n)[0] == '0' ==> n == 0,
        digits_value(decimal(n)) == n,
    decreases n,
{
    let last = crate::escape::digit_char(n % 10);
    assert(last as int == 48 + n % 10);
    assert('0' as int == 48);
    if n < 10 {
        let d = decimal(n);
        assert(d.drop_last() =~= Seq::<char>::empty());
        assert(d.last() == last);
        assert(digits_value(d.drop_last()) == 0);
        assert(digits_value(d) == digits_value(d.drop_last()) * 10 + (d.last() as int - '0' as int));
    } else {
        lemma_decimal_faithful(n / 10);
        let d = decimal(n);
        assert(d.drop_last() =~= decimal(n / 10));
        assert(d.last() == last);
        assert(digits_value(d) == digits_value(decimal(n / 10)) * 10 + (n % 10));
        assert(d[0] == decimal(n / 10)[0]);
        assert forall|i: int| 0 <= i < d.len() implies '0' <= #[trigger] d[i] <= '9' by {
            if i < d.len() - 1 {
                assert(d[i] == decimal(n / 10)[i]);
            }
        }
    }
}

/// The signed decimal form of a number: a `-` exactly when it is negative,
/// followed by the decimal form of its magnitude.
pub proof fn lemma_signed_decimal_faithful(n: int)
    ensures
        signed_decimal(n).len() > 0,
        (signed_decimal(n)[0] == '-') <==> n < 0,
        n < 0 ==> digits_value(signed_decimal(n).skip(1)) == -n,
        n >= 0 ==> digits_value(signed_decimal(n)) == n,
{
    if n < 0 {
        lemma_decimal_faithful((-n) as nat);
        assert(signed_decimal(n).skip(1) =~= decimal((-n) as nat));
    } else {
        lemma_decimal_faithful(n as nat);
    }
}

/// Every integer renders as the signed decimal form of its own value.
pub proof fn lemma_integers_render_their_value()
    ensures
        forall|n: u8| #[trigger] n.rendered() == signed_decimal(n as int),
        forall|n: u16| #[trigger] n.rendered() == signed_decimal(n as int),
        forall|n: u32| #[trigger] n.rendered() == signed_decimal(n as int),
        forall|n: u64| #[trigger] n.rendered() == signed_decimal(n as int),
        forall|n: u128| #[trigger] n.rendered() == signed_decimal(n as int),
        forall|n: usize| #[trigger] n.rendered() == signed_decimal(n as int),
        forall|n: i8| #[trigger] n.rendered() == signed_decimal(n as int),
        forall|n: i16| #[trigger] n.rendered() == signed_decimal(n as int),
        forall|n: i32| #[trigger] n.rendered() == signed_decimal(n as int),
        forall|n: i64| #[trigger] n.rendered() == signed_decimal(n as int),
        forall|n: i128| #[trigger] n.rendered() == signed_decimal(n as int),
        forall|n: isize| #[trigger] n.rendered() == signed_decimal(n as int),
{
}

/// A hole for the expression numbered `n` writes `values[n]`: as it is in
/// text and value position, after a space in key position for a plain
/// expression; nothing when that expression rendered nothing.
pub proof fn lemma_hole_writes_its_value(d: Dynamic, attr: bool, values: Seq<Option<Seq<char>>>)
    requires
        d.expr < values.len(),
    ensures
        part_output(PartView::Dynamic(d, attr), values) == match values[d.expr as int] {
            Some(v) => if attr && (d.kind == DynKind::Other || d.kind == DynKind::IfWithoutElse) {
                seq![' '] + v
            } else {
                v
            },
            None => Seq::empty(),
        },
{
}

/// Literals between tags write the text of their own value: `true` or
/// `false` for booleans, the digits for numbers, the character as `Render`
/// writes it; and every literal but a string writes the same text as an
/// attribute value.
pub proof fn lemma_literal_text(l: Lit)
    ensures
        l matches Lit::Bool(b) ==> lit_text(l) == if b {
            "true"@
        } else {
            "false"@
        },
        l matches Lit::Char(c) ==> lit_text(l) == c.rendered(),
        l matches Lit::Int(d) ==> lit_text(l) == d@,
        l matches Lit::Float(d) ==> lit_text(l) == d@,
        !(l is Str || l is ByteStr) ==> attr_lit_text(l) == lit_text(l),
{
    reveal_strlit("true");
    reveal_strlit("false");
    if let Lit::Bool(b) = l {
        if b {
            assert(lit_text(l) =~= "true"@);
        } else {
            assert(lit_text(l) =~= "false"@);
        }
    }
}

/// A `match` key is accepted exactly when every arm is; when it is
/// refused, the refusal is that of the first refused arm.
pub proof fn lemma_match_key_checks_every_arm(arms: Seq<KeyExpr>)
    ensures
        arms_error(arms) is None <==> forall|i: int|
            0 <= i < arms.len() ==> #[trigger] key_expr_error(arms[i]) is None,
        arms_error(arms) is Some ==> exists|i: int|
            0 <= i < arms.len() && arms_error(arms) == key_expr_error(arms[i]) && forall|j: int|
                0 <= j < i ==> #[trigger] key_expr_error(arms[j]) is None,
    decreases arms.len(),
{
    if arms.len() > 0 {
        let front = arms.subrange(0, arms.len() - 1);
        lemma_match_key_checks_every_arm(front);
        assert forall|i: int| 0 <= i < front.len() implies front[i] == arms[i] by {}
        let last = arms.len() - 1;
        if arms_error(front) is Some {
            let i = choose|i: int|
                0 <= i < front.len() && arms_error(front) == key_expr_error(front[i]) && forall|j: int|
                    0 <= j < i ==> #[trigger] key_expr_error(front[j]) is None;
            assert(key_expr_error(arms[i]) == key_expr_error(front[i]));
            assert forall|j: int| 0 <= j < i implies #[trigger] key_expr_error(arms[j]) is None by {
                assert(key_expr_error(front[j]) is None);
            }
            assert(!(key_expr_error(arms[i]) is None));
        } else {
            assert forall|j: int| 0 <= j < last implies #[trigger] key_expr_error(arms[j]) is None by {
                assert(key_expr_error(front[j]) is None);
            }
            if arms_error(arms) is Some {
                assert(arms_error(arms) == key_expr_error(arms[last]));
            } else {
                assert(key_expr_error(arms[last]) is None);
            }
        }
    }
}

/// A key written as a `match` is refused when any arm is a string that is
/// not a valid attribute key, whatever its position.
pub proof fn lemma_match_key_refuses_invalid_arm(e: KeyExpr, i: int)
    requires
        e is Match,
        0 <= i < e->Match_0@.len(),
        e->Match_0@[i] matches KeyExpr::Str { value, at } && !crate::attr_key::valid_attr_key(
            value@,
        ),
    ensures
        key_expr_error(e) is Some,
        key_expr_error(e) is Some ==> forall|r: Result<(), crate::key_check::AttrKeyError>|
            crate::key_check::key_result_error(r) == key_expr_error(e) ==> r is Err,
{
    let arms = e->Match_0@;
    lemma_match_key_checks_every_arm(arms);
    assert(key_expr_error(arms[i]) is Some);
}

} // verus!
