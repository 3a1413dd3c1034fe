use vstd::prelude::*;

use crate::attr_key::valid_attr_key;
use crate::key_check::key_expr_error;
use crate::markup::{is_void_tag, Lit};
use crate::parse::{
    is_bool_ident, is_punct_at, lit_view, spec_attr, spec_attrs, spec_element, spec_ident_run,
    spec_key, spec_markup, spec_parse_markup, spec_val, AttrView, ElementView, KeyView, LitView,
    Token, ValView, lit_view_supported, lemma_lit_supported_view,
};
use crate::parts::Dynamic;

verus! {

/// The mathematical value of a token; of a parenthesised group, only its
/// expression and whether the attribute-key check accepts it.
pub ghost enum TokenView {
    Ident(Seq<char>),
    Lit(LitView),
    Punct(char),
    Braced(Seq<TokenView>),
    Paren(Dynamic, bool),
    Other,
}

pub open spec fn token_view(t: Token) -> TokenView
    decreases t,
{
    match t {
        Token::Ident(name, _) => TokenView::Ident(name@),
        Token::Lit(l, _) => TokenView::Lit(lit_view(l)),
        Token::Punct(c, _) => TokenView::Punct(c),
        Token::Braced(v, _) => TokenView::Braced(tokens_view(v@)),
        Token::Paren(d, ke, _) => TokenView::Paren(d, key_expr_error(ke) is None),
        Token::Other(_) => TokenView::Other,
    }
}

pub open spec fn tokens_view(ts: Seq<Token>) -> Seq<TokenView>
    decreases ts,
{
    if ts.len() == 0 {
        Seq::empty()
    } else {
        tokens_view(ts.subrange(0, ts.len() - 1)).push(token_view(ts[ts.len() - 1]))
    }
}

/// The tokens of identifier key parts joined by `-`.
pub open spec fn print_idents(ids: Seq<Seq<char>>) -> Seq<TokenView>
    decreases ids.len(),
{
    if ids.len() == 0 {
        Seq::empty()
    } else if ids.len() == 1 {
        seq![TokenView::Ident(ids[0])]
    } else {
        seq![TokenView::Ident(ids[0]), TokenView::Punct('-')] + print_idents(ids.skip(1))
    }
}

pub open spec fn print_key(k: KeyView) -> Seq<TokenView> {
    match k {
        KeyView::Idents(ids) => print_idents(ids),
        KeyView::Lit(s) => seq![TokenView::Lit(LitView::Str(s))],
        KeyView::Expr(d) => seq![TokenView::Paren(d, true)],
    }
}

pub open spec fn print_val(v: Option<ValView>) -> Seq<TokenView> {
    match v {
        Some(ValView::Lit(l)) => seq![TokenView::Punct('='), TokenView::Lit(l)],
        Some(ValView::Expr(d)) => seq![TokenView::Punct('='), TokenView::Paren(d, true)],
        None => Seq::empty(),
    }
}

pub open spec fn print_attrs(attrs: Seq<AttrView>) -> Seq<TokenView>
    decreases attrs.len(),
{
    if attrs.len() == 0 {
        Seq::empty()
    } else {
        print_key(attrs[0].key) + print_val(attrs[0].val) + print_attrs(attrs.skip(1))
    }
}

/// Markup written as tokens: braces after elements with content, `;`
/// after void elements, `=` before values, `-` between the parts of an
/// identifier key.
pub open spec fn print_element(e: ElementView) -> Seq<TokenView>
    decreases e,
{
    match e {
        ElementView::Container(tag, attrs, children) => seq![TokenView::Ident(tag)] + print_attrs(
            attrs,
        ) + seq![TokenView::Braced(print_elements(children))],
        ElementView::Void(tag, attrs) => seq![TokenView::Ident(tag)] + print_attrs(attrs) + seq![
            TokenView::Punct(';'),
        ],
        ElementView::Lit(l) => seq![TokenView::Lit(l)],
        ElementView::Expr(d) => seq![TokenView::Paren(d, true)],
        ElementView::Nothing => Seq::empty(),
    }
}

pub open spec fn print_elements(es: Seq<ElementView>) -> Seq<TokenView>
    decreases es,
{
    if es.len() == 0 {
        Seq::empty()
    } else {
        print_element(es[0]) + print_elements(es.subrange(1, es.len() as int))
    }
}

/// An attribute list that reads back as itself once written: identifier
/// keys are not empty, literal keys are valid, literal values accepted, and
/// an identifier key with no value is not followed by another identifier
/// key (the two would read as one key joined by `-`).
pub open spec fn readable_attrs(attrs: Seq<AttrView>) -> bool {
    &&& forall|i: int|
        0 <= i < attrs.len() ==> match #[trigger] attrs[i].key {
            KeyView::Idents(ids) => ids.len() > 0,
            KeyView::Lit(s) => valid_attr_key(s),
            KeyView::Expr(_) => true,
        }
    &&& forall|i: int|
        0 <= i < attrs.len() ==> match #[trigger] attrs[i].val {
            Some(ValView::Lit(l)) => lit_view_supported(l),
            _ => true,
        }
    &&& forall|i: int|
        0 <= i < attrs.len() - 1 ==> (#[trigger] attrs[i].key is Idents && attrs[i].val is None
            ==> !(attrs[i + 1].key is Idents))
}

/// Markup that reads back as itself once written: no empty nodes, tags
/// that are not `true` or `false`, void tags exactly on void elements,
/// readable attributes and accepted literals.
pub open spec fn readable_element(e: ElementView) -> bool
    decreases e,
{
    match e {
        ElementView::Container(tag, attrs, children) => !is_bool_ident(tag) && !is_void_tag(tag)
            && readable_attrs(attrs) && readable_elements(children),
        ElementView::Void(tag, attrs) => !is_bool_ident(tag) && is_void_tag(tag)
            && readable_attrs(attrs),
        ElementView::Lit(l) => lit_view_supported(l),
        ElementView::Expr(_) => true,
        ElementView::Nothing => false,
    }
}

pub open spec fn readable_elements(es: Seq<ElementView>) -> bool
    decreases es,
{
    if es.len() == 0 {
        true
    } else {
        readable_element(es[0]) && readable_elements(es.subrange(1, es.len() as int))
    }
}

/// The tokens of `ts` from `p` on start with tokens viewed as `tv`.
pub open spec fn tokens_at(ts: Seq<Token>, p: int, tv: Seq<TokenView>) -> bool {
    &&& 0 <= p
    &&& p + tv.len() <= ts.len()
    &&& forall|k: int| 0 <= k < tv.len() ==> token_view(ts[p + k]) == #[trigger] tv[k]
}

proof fn lemma_tokens_at_split(ts: Seq<Token>, p: int, a: Seq<TokenView>, b: Seq<TokenView>)
    requires
        tokens_at(ts, p, a + b),
    ensures
        tokens_at(ts, p, a),
        tokens_at(ts, p + a.len(), b),
{
    assert forall|k: int| 0 <= k < a.len() implies token_view(ts[p + k]) == #[trigger] a[k] by {
        assert((a + b)[k] == a[k]);
    }
    assert forall|k: int| 0 <= k < b.len() implies token_view(ts[p + a.len() + k]) == #[trigger] b[k] by {
        assert((a + b)[a.len() + k] == b[k]);
    }
}

proof fn lemma_tokens_view_index(ts: Seq<Token>)
    ensures
        tokens_view(ts).len() == ts.len(),
        forall|i: int| 0 <= i < ts.len() ==> #[trigger] tokens_view(ts)[i] == token_view(ts[i]),
    decreases ts.len(),
{
    if ts.len() > 0 {
        lemma_tokens_view_index(ts.subrange(0, ts.len() - 1));
    }
}

proof fn lemma_print_idents_len(ids: Seq<Seq<char>>)
    requires
        ids.len() > 0,
    ensures
        print_idents(ids).len() == 2 * ids.len() - 1,
    decreases ids.len(),
{
    if ids.len() > 1 {
        lemma_print_idents_len(ids.skip(1));
    }
}

proof fn lemma_ident_run(ts: Seq<Token>, p: int, ids: Seq<Seq<char>>, acc: Seq<Seq<char>>)
    requires
        ids.len() > 0,
        tokens_at(ts, p, print_idents(ids)),
        ({
            let q = p + print_idents(ids).len();
            !(q < ts.len() && ts[q] is Ident) && !is_punct_at(ts, q, '-')
        }),
    ensures
        spec_ident_run(ts, p, acc) == (acc + ids, p + print_idents(ids).len()),
    decreases ids.len(),
{
    lemma_print_idents_len(ids);
    let pi = print_idents(ids);
    assert(token_view(ts[p + 0]) == pi[0]);
    assert(ts[p] is Ident);
    assert(ts[p]->Ident_0@ == ids[0]);
    if ids.len() == 1 {
        assert(pi.len() == 1);
        assert(acc.push(ids[0]) =~= acc + ids);
        assert(!is_punct_at(ts, p + 1, '-'));
        assert(spec_ident_run(ts, p + 1, acc.push(ids[0])) == (acc.push(ids[0]), p + 1));
        assert(spec_ident_run(ts, p, acc) == spec_ident_run(ts, p + 1, acc.push(ids[0])));
    } else {
        let rest = ids.skip(1);
        assert(pi == seq![TokenView::Ident(ids[0]), TokenView::Punct('-')] + print_idents(rest));
        lemma_tokens_at_split(ts, p, seq![TokenView::Ident(ids[0]), TokenView::Punct('-')], print_idents(rest));
        assert(token_view(ts[p + 1]) == pi[1]);
        assert(is_punct_at(ts, p + 1, '-'));
        lemma_print_idents_len(rest);
        lemma_ident_run(ts, p + 2, rest, acc.push(ids[0]));
        assert(spec_ident_run(ts, p, acc) == spec_ident_run(ts, p + 2, acc.push(ids[0])));
        assert(acc.push(ids[0]) + rest =~= acc + ids);
    }
}

/// Whether a key's tokens leave the identifier run to end at `q`.
pub open spec fn run_ends_at(ts: Seq<Token>, q: int) -> bool {
    !(0 <= q < ts.len() && ts[q] is Ident) && !is_punct_at(ts, q, '-')
}

proof fn lemma_key(ts: Seq<Token>, p: int, k: KeyView)
    requires
        match k {
            KeyView::Idents(ids) => ids.len() > 0,
            KeyView::Lit(s) => valid_attr_key(s),
            KeyView::Expr(_) => true,
        },
        tokens_at(ts, p, print_key(k)),
        k is Idents ==> run_ends_at(ts, p + print_key(k).len()),
    ensures
        spec_key(ts, p) == Ok::<(KeyView, int), crate::parse::MarkupErrorView>(
            (k, p + print_key(k).len()),
        ),
        print_key(k).len() > 0,
{
    let pk = print_key(k);
    match k {
        KeyView::Idents(ids) => {
            lemma_print_idents_len(ids);
            assert(token_view(ts[p + 0]) == pk[0]);
            lemma_ident_run(ts, p, ids, Seq::empty());
            assert(Seq::<Seq<char>>::empty() + ids =~= ids);
        },
        KeyView::Lit(s) => {
            assert(token_view(ts[p + 0]) == pk[0]);
        },
        KeyView::Expr(d) => {
            assert(token_view(ts[p + 0]) == pk[0]);
        },
    }
}

proof fn lemma_val(ts: Seq<Token>, j: int, v: Option<ValView>)
    requires
        match v {
            Some(ValView::Lit(l)) => lit_view_supported(l),
            _ => true,
        },
        tokens_at(ts, j, print_val(v)),
        v is None ==> !is_punct_at(ts, j, '='),
    ensures
        spec_val(ts, j) == Ok::<(Option<ValView>, int), crate::parse::MarkupErrorView>(
            (v, j + print_val(v).len()),
        ),
{
    let pv = print_val(v);
    if v is Some {
        assert(token_view(ts[j + 0]) == pv[0]);
        assert(token_view(ts[j + 1]) == pv[1]);
        assert(is_punct_at(ts, j, '='));
        match ts[j + 1] {
            Token::Lit(l, _) => {
                lemma_lit_supported_view(l);
            },
            _ => {},
        }
    }
}

proof fn lemma_attrs_first(attrs: Seq<AttrView>)
    requires
        attrs.len() > 0,
        match attrs[0].key {
            KeyView::Idents(ids) => ids.len() > 0,
            _ => true,
        },
    ensures
        print_attrs(attrs) == print_key(attrs[0].key) + print_val(attrs[0].val) + print_attrs(
            attrs.skip(1),
        ),
        print_attrs(attrs)[0] == print_key(attrs[0].key)[0],
        print_key(attrs[0].key).len() > 0,
{
    match attrs[0].key {
        KeyView::Idents(ids) => lemma_print_idents_len(ids),
        _ => {},
    }
}

proof fn lemma_attrs(ts: Seq<Token>, p: int, attrs: Seq<AttrView>, acc: Seq<AttrView>)
    requires
        readable_attrs(attrs),
        tokens_at(ts, p, print_attrs(attrs)),
        ({
            let q = p + print_attrs(attrs).len();
            q < ts.len() && (ts[q] is Braced || is_punct_at(ts, q, ';'))
        }),
    ensures
        spec_attrs(ts, p, acc) == Ok::<(Seq<AttrView>, int), crate::parse::MarkupErrorView>(
            (acc + attrs, p + print_attrs(attrs).len()),
        ),
    decreases attrs.len(),
{
    let q = p + print_attrs(attrs).len();
    if attrs.len() == 0 {
        assert(acc + attrs =~= acc);
    } else {
        let a0 = attrs[0];
        let rest = attrs.skip(1);
        assert(match attrs[0].key {
            KeyView::Idents(ids) => ids.len() > 0,
            KeyView::Lit(s) => valid_attr_key(s),
            KeyView::Expr(_) => true,
        });
        assert(match attrs[0].val {
            Some(ValView::Lit(l)) => lit_view_supported(l),
            _ => true,
        });
        lemma_attrs_first(attrs);
        let pk = print_key(a0.key);
        let pv = print_val(a0.val);
        let pr = print_attrs(rest);
        lemma_tokens_at_split(ts, p, pk + pv, pr);
        lemma_tokens_at_split(ts, p, pk, pv);
        let k = p + pk.len();
        let j = k + pv.len();
        assert(readable_attrs(rest)) by {
            assert forall|i: int| 0 <= i < rest.len() implies match #[trigger] rest[i].key {
                KeyView::Idents(ids) => ids.len() > 0,
                KeyView::Lit(s) => valid_attr_key(s),
                KeyView::Expr(_) => true,
            } by {
                assert(rest[i] == attrs[i + 1]);
            }
            assert forall|i: int| 0 <= i < rest.len() implies match #[trigger] rest[i].val {
                Some(ValView::Lit(l)) => lit_view_supported(l),
                _ => true,
            } by {
                assert(rest[i] == attrs[i + 1]);
            }
            assert forall|i: int| 0 <= i < rest.len() - 1 implies (#[trigger] rest[i].key is Idents
                && rest[i].val is None ==> !(rest[i + 1].key is Idents)) by {
                assert(rest[i] == attrs[i + 1]);
                assert(rest[i + 1] == attrs[i + 2]);
            }
        }
        // What follows the first attribute's tokens.
        if rest.len() > 0 {
            assert(match rest[0].key {
                KeyView::Idents(ids) => ids.len() > 0,
                KeyView::Lit(s) => valid_attr_key(s),
                KeyView::Expr(_) => true,
            });
            lemma_attrs_first(rest);
            assert(token_view(ts[j + 0]) == pr[0]);
            if a0.key is Idents && a0.val is None {
                assert(rest[0] == attrs[1]);
                assert(!(rest[0].key is Idents));
            }
        }
        if a0.val is Some {
            assert(token_view(ts[k + 0]) == pv[0]);
        }
        assert(token_view(ts[p + 0]) == pk[0]);
        lemma_key(ts, p, a0.key);
        lemma_val(ts, k, a0.val);
        assert(spec_attr(ts, p) == Ok::<(AttrView, int), crate::parse::MarkupErrorView>((a0, j)));
        lemma_attrs(ts, j, rest, acc.push(a0));
        assert(acc.push(a0) + rest =~= acc + attrs);
    }
}

proof fn lemma_element(ts: Seq<Token>, p: int, e: ElementView)
    requires
        readable_element(e),
        tokens_at(ts, p, print_element(e)),
    ensures
        spec_element(ts, p) == Ok::<(ElementView, int), crate::parse::MarkupErrorView>(
            (e, p + print_element(e).len()),
        ),
        print_element(e).len() > 0,
    decreases e,
{
    let pe = print_element(e);
    assert(token_view(ts[p + 0]) == pe[0]);
    match e {
        ElementView::Container(tag, attrs, children) => {
            let head = seq![TokenView::Ident(tag)];
            let pa = print_attrs(attrs);
            let tail = seq![TokenView::Braced(print_elements(children))];
            lemma_tokens_at_split(ts, p, head + pa, tail);
            lemma_tokens_at_split(ts, p, head, pa);
            let q = p + 1 + pa.len();
            assert(token_view(ts[q + 0]) == tail[0]);
            assert(ts[q] is Braced);
            lemma_attrs(ts, p + 1, attrs, Seq::empty());
            assert(Seq::<AttrView>::empty() + attrs =~= attrs);
            let inner = ts[q]->Braced_0@;
            assert(tokens_view(inner) == print_elements(children));
            lemma_tokens_view_index(inner);
            assert(tokens_at(inner, 0, print_elements(children))) by {
                assert forall|k: int| 0 <= k < print_elements(children).len() implies token_view(
                    inner[0 + k],
                ) == #[trigger] print_elements(children)[k] by {
                    assert(tokens_view(inner)[k] == token_view(inner[k]));
                }
            }
            lemma_markup(inner, 0, children, Seq::empty());
            assert(Seq::<ElementView>::empty() + children =~= children);
        },
        ElementView::Void(tag, attrs) => {
            let head = seq![TokenView::Ident(tag)];
            let pa = print_attrs(attrs);
            let tail = seq![TokenView::Punct(';')];
            lemma_tokens_at_split(ts, p, head + pa, tail);
            lemma_tokens_at_split(ts, p, head, pa);
            let q = p + 1 + pa.len();
            assert(token_view(ts[q + 0]) == tail[0]);
            assert(is_punct_at(ts, q, ';'));
            lemma_attrs(ts, p + 1, attrs, Seq::empty());
            assert(Seq::<AttrView>::empty() + attrs =~= attrs);
        },
        ElementView::Lit(l) => {
            match ts[p] {
                Token::Lit(tl, _) => lemma_lit_supported_view(tl),
                _ => {},
            }
        },
        ElementView::Expr(d) => {},
        ElementView::Nothing => {},
    }
}

proof fn lemma_markup(ts: Seq<Token>, p: int, es: Seq<ElementView>, acc: Seq<ElementView>)
    requires
        readable_elements(es),
        tokens_at(ts, p, print_elements(es)),
        p + print_elements(es).len() == ts.len(),
    ensures
        spec_markup(ts, p, acc) == Ok::<Seq<ElementView>, crate::parse::MarkupErrorView>(acc + es),
    decreases es,
{
    if es.len() == 0 {
        assert(acc + es =~= acc);
    } else {
        let e0 = es[0];
        let rest = es.subrange(1, es.len() as int);
        lemma_tokens_at_split(ts, p, print_element(e0), print_elements(rest));
        lemma_element(ts, p, e0);
        let j = p + print_element(e0).len();
        lemma_markup(ts, j, rest, acc.push(e0));
        assert(acc.push(e0) + rest =~= acc + es);
    }
}

/// Written markup reads back as itself: tokens that are the writing of a
/// readable element sequence parse to exactly that sequence.
pub proof fn lemma_read_written(ts: Seq<Token>, es: Seq<ElementView>)
    requires
        readable_elements(es),
        tokens_view(ts) == print_elements(es),
    ensures
        spec_parse_markup(ts) == Ok::<Seq<ElementView>, crate::parse::MarkupErrorView>(es),
{
    lemma_tokens_view_index(ts);
    assert forall|k: int| 0 <= k < print_elements(es).len() implies token_view(ts[0 + k])
        == #[trigger] print_elements(es)[k] by {
        assert(tokens_view(ts)[k] == token_view(ts[k]));
    }
    lemma_markup(ts, 0, es, Seq::empty());
    assert(Seq::<ElementView>::empty() + es =~= es);
}

} // verus!
