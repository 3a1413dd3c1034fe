use vstd::prelude::*;
use vstd::string::StringExecFns;

use crate::attr_key::valid_attr_key;
use crate::key_check::{check_key_expr, key_expr_error, KeyErrorView, KeyExpr};
use crate::markup::{
    attribute_wf, attributes_wf, element_wf, elements_wf, is_void, is_void_tag, lit_supported,
    str_eq, string_views, Attribute, AttributeKey, AttributeVal, Attributes, Element, Lit,
    Markup,
};
use crate::parts::Dynamic;

verus! {

/// A token of a `markup!` invocation. The `usize` of each token numbers its
/// place in the source, for error reporting.
pub enum Token {
    /// An identifier or keyword.
    Ident(String, usize),
    /// A literal.
    Lit(Lit, usize),
    /// A punctuation character.
    Punct(char, usize),
    /// A group in curly braces, with its tokens.
    Braced(Vec<Token>, usize),
    /// A group in parentheses: the Rust expression it holds, numbered, and
    /// what the attribute-key check reads of it.
    Paren(Dynamic, KeyExpr, usize),
    /// Any other group.
    Other(usize),
}

/// Why markup tokens were refused. `None` as a place stands for the end of
/// the enclosing group.
pub enum MarkupError {
    /// A token that starts no element.
    UnexpectedToken { at: usize },
    /// A void element not closed by `;`.
    ExpectedSemicolon { at: Option<usize> },
    /// An element with content not followed by its `{ ... }`.
    ExpectedBraces { at: Option<usize> },
    /// A literal that markup does not accept.
    UnsupportedLit { at: usize },
    /// An attribute key refused by the key check.
    Key(crate::key_check::AttrKeyError),
}

/// The mathematical value of a [`MarkupError`].
pub ghost enum MarkupErrorView {
    UnexpectedToken(usize),
    ExpectedSemicolon(Option<usize>),
    ExpectedBraces(Option<usize>),
    UnsupportedLit(usize),
    Key(KeyErrorView),
}

impl View for MarkupError {
    type V = MarkupErrorView;

    open spec fn view(&self) -> MarkupErrorView {
        match self {
            MarkupError::UnexpectedToken { at } => MarkupErrorView::UnexpectedToken(*at),
            MarkupError::ExpectedSemicolon { at } => MarkupErrorView::ExpectedSemicolon(*at),
            MarkupError::ExpectedBraces { at } => MarkupErrorView::ExpectedBraces(*at),
            MarkupError::UnsupportedLit { at } => MarkupErrorView::UnsupportedLit(*at),
            MarkupError::Key(e) => MarkupErrorView::Key(e@),
        }
    }
}

/// The mathematical value of a literal.
pub ghost enum LitView {
    Str(Seq<char>),
    ByteStr(Seq<u8>),
    CStr(Seq<u8>),
    Byte(u8),
    Char(char),
    Int(Seq<char>),
    Float(Seq<char>),
    Bool(bool),
    Verbatim(Seq<char>),
}

/// The mathematical value of an attribute key.
pub ghost enum KeyView {
    Idents(Seq<Seq<char>>),
    Lit(Seq<char>),
    Expr(Dynamic),
}

/// The mathematical value of an attribute value.
pub ghost enum ValView {
    Lit(LitView),
    Expr(Dynamic),
}

/// The mathematical value of an attribute.
pub ghost struct AttrView {
    pub key: KeyView,
    pub val: Option<ValView>,
}

/// The mathematical value of a markup node.
pub ghost enum ElementView {
    Container(Seq<char>, Seq<AttrView>, Seq<ElementView>),
    Void(Seq<char>, Seq<AttrView>),
    Lit(LitView),
    Expr(Dynamic),
    Nothing,
}

pub open spec fn lit_view(l: Lit) -> LitView {
    match l {
        Lit::Str(s) => LitView::Str(s@),
        Lit::ByteStr(b) => LitView::ByteStr(b@),
        Lit::CStr(b) => LitView::CStr(b@),
        Lit::Byte(b) => LitView::Byte(b),
        Lit::Char(c) => LitView::Char(c),
        Lit::Int(d) => LitView::Int(d@),
        Lit::Float(d) => LitView::Float(d@),
        Lit::Bool(b) => LitView::Bool(b),
        Lit::Verbatim(s) => LitView::Verbatim(s@),
    }
}

pub open spec fn key_view(k: AttributeKey) -> KeyView {
    match k {
        AttributeKey::Idents(ids) => KeyView::Idents(string_views(ids@)),
        AttributeKey::Lit(s) => KeyView::Lit(s@),
        AttributeKey::Expr(d) => KeyView::Expr(d),
    }
}

pub open spec fn val_view(v: AttributeVal) -> ValView {
    match v {
        AttributeVal::Lit(l) => ValView::Lit(lit_view(l)),
        AttributeVal::Expr(d) => ValView::Expr(d),
    }
}

pub open spec fn attr_view(a: Attribute) -> AttrView {
    AttrView {
        key: key_view(a.key),
        val: match a.val {
            Some(v) => Some(val_view(v)),
            None => None,
        },
    }
}

pub open spec fn attrs_view(attrs: Seq<Attribute>) -> Seq<AttrView> {
    attrs.map_values(|a: Attribute| attr_view(a))
}

pub open spec fn element_view(e: Element) -> ElementView
    decreases e,
{
    match e {
        Element::Container { tag, attr, m } => ElementView::Container(
            tag@,
            attrs_view(attr.0@),
            elements_view(m.0@),
        ),
        Element::Void { tag, attr } => ElementView::Void(tag@, attrs_view(attr.0@)),
        Element::Lit(l) => ElementView::Lit(lit_view(l)),
        Element::Expr(d) => ElementView::Expr(d),
        Element::Nothing => ElementView::Nothing,
    }
}

pub open spec fn elements_view(es: Seq<Element>) -> Seq<ElementView>
    decreases es,
{
    if es.len() == 0 {
        Seq::empty()
    } else {
        elements_view(es.subrange(0, es.len() - 1)).push(element_view(es[es.len() - 1]))
    }
}


/// A literal that markup accepts, on its mathematical value.
pub open spec fn lit_view_supported(l: LitView) -> bool {
    match l {
        LitView::CStr(_) => false,
        LitView::Byte(_) => false,
        LitView::Verbatim(_) => false,
        LitView::Int(d) => crate::markup::int_digits(d),
        LitView::Float(d) => crate::markup::float_digits(d),
        _ => true,
    }
}

pub proof fn lemma_lit_supported_view(l: Lit)
    ensures
        lit_supported(l) == lit_view_supported(lit_view(l)),
{
}

/// A number literal with a `-` written before it: the literal with `-`
/// before its digits. Other literals cannot be negated.
pub open spec fn neg_lit_view(l: Lit) -> Option<LitView> {
    match l {
        Lit::Int(d) => Some(LitView::Int(seq!['-'] + d@)),
        Lit::Float(d) => Some(LitView::Float(seq!['-'] + d@)),
        _ => None,
    }
}

/// Whether the tokens at `j` are `-` followed by a number literal.
pub open spec fn is_negative_lit_at(ts: Seq<Token>, j: int) -> bool {
    &&& is_punct_at(ts, j, '-')
    &&& j + 1 < ts.len()
    &&& ts[j + 1] is Lit
    &&& neg_lit_view(ts[j + 1]->Lit_0) is Some
}

/// The literal read from `-` and a number literal at `j`, and the position
/// after them.
pub open spec fn spec_negative_lit(ts: Seq<Token>, j: int) -> Result<(LitView, int), MarkupErrorView> {
    let lv = neg_lit_view(ts[j + 1]->Lit_0)->Some_0;
    if lit_view_supported(lv) {
        Ok((lv, j + 2))
    } else {
        Err(MarkupErrorView::UnsupportedLit(ts[j + 1]->Lit_1))
    }
}

/// `true` and `false`, which markup reads as boolean literals.
pub open spec fn is_bool_ident(name: Seq<char>) -> bool {
    name == "true"@ || name == "false"@
}

/// The place of the token at `j`, or `None` past the end.
pub open spec fn place_at(ts: Seq<Token>, j: int) -> Option<usize> {
    if 0 <= j < ts.len() {
        Some(
            match ts[j] {
                Token::Ident(_, at) => at,
                Token::Lit(_, at) => at,
                Token::Punct(_, at) => at,
                Token::Braced(_, at) => at,
                Token::Paren(_, _, at) => at,
                Token::Other(at) => at,
            },
        )
    } else {
        None
    }
}

/// Whether the token at `j` is the punctuation `c`.
pub open spec fn is_punct_at(ts: Seq<Token>, j: int, c: char) -> bool {
    0 <= j < ts.len() && (ts[j] matches Token::Punct(p, _) && p == c)
}

/// Whether a token can start an attribute: a string literal, an
/// identifier or keyword, or a parenthesised expression.
pub open spec fn is_key_start(t: Token) -> bool {
    match t {
        Token::Lit(Lit::Str(_), _) => true,
        Token::Ident(_, _) => true,
        Token::Paren(_, _, _) => true,
        _ => false,
    }
}

/// The identifiers of an identifier key from `i` on, each optionally
/// followed by `-`, appended to `acc`; and the position after them.
pub open spec fn spec_ident_run(ts: Seq<Token>, i: int, acc: Seq<Seq<char>>) -> (Seq<Seq<char>>, int)
    decreases ts.len() - i,
{
    if 0 <= i < ts.len() && ts[i] is Ident {
        let next = if is_punct_at(ts, i + 1, '-') {
            i + 2
        } else {
            i + 1
        };
        spec_ident_run(ts, next, acc.push(ts[i]->Ident_0@))
    } else {
        (acc, i)
    }
}

/// The attribute key at `i`, and the position after it.
pub open spec fn spec_key(ts: Seq<Token>, i: int) -> Result<(KeyView, int), MarkupErrorView> {
    match ts[i] {
        Token::Lit(Lit::Str(s), at) => if valid_attr_key(s@) {
            Ok((KeyView::Lit(s@), i + 1))
        } else {
            Err(MarkupErrorView::Key(KeyErrorView::Invalid(s@, at)))
        },
        Token::Paren(d, ke, _) => match key_expr_error(ke) {
            None => Ok((KeyView::Expr(d), i + 1)),
            Some(e) => Err(MarkupErrorView::Key(e)),
        },
        _ => {
            let (ids, j) = spec_ident_run(ts, i, Seq::empty());
            Ok((KeyView::Idents(ids), j))
        },
    }
}

/// The optional `= value` at `i` after a key, and the position after it.
/// A `=` followed by neither a literal nor a parenthesised expression is
/// taken with no value.
pub open spec fn spec_val(ts: Seq<Token>, i: int) -> Result<(Option<ValView>, int), MarkupErrorView> {
    if is_punct_at(ts, i, '=') {
        let k = i + 1;
        if k < ts.len() {
            match ts[k] {
                Token::Lit(l, at) => if lit_supported(l) {
                    Ok((Some(ValView::Lit(lit_view(l))), k + 1))
                } else {
                    Err(MarkupErrorView::UnsupportedLit(at))
                },
                Token::Ident(name, _) => if is_bool_ident(name@) {
                    Ok((Some(ValView::Lit(LitView::Bool(name@ == "true"@))), k + 1))
                } else {
                    Ok((None, k))
                },
                Token::Paren(d, _, _) => Ok((Some(ValView::Expr(d)), k + 1)),
                _ => if is_negative_lit_at(ts, k) {
                    match spec_negative_lit(ts, k) {
                        Ok((lv, m)) => Ok((Some(ValView::Lit(lv)), m)),
                        Err(e) => Err(e),
                    }
                } else {
                    Ok((None, k))
                },
            }
        } else {
            Ok((None, k))
        }
    } else {
        Ok((None, i))
    }
}

/// The attribute at `i`: its key and optional value.
pub open spec fn spec_attr(ts: Seq<Token>, i: int) -> Result<(AttrView, int), MarkupErrorView> {
    match spec_key(ts, i) {
        Err(e) => Err(e),
        Ok((key, j)) => match spec_val(ts, j) {
            Err(e) => Err(e),
            Ok((val, k)) => Ok((AttrView { key, val }, k)),
        },
    }
}

/// The attributes from `i` on, appended to `acc`, up to the first token
/// that starts none; and the position after them.
pub open spec fn spec_attrs(ts: Seq<Token>, i: int, acc: Seq<AttrView>) -> Result<
    (Seq<AttrView>, int),
    MarkupErrorView,
>
    decreases ts.len() - i,
{
    if 0 <= i < ts.len() && is_key_start(ts[i]) {
        match spec_attr(ts, i) {
            Err(e) => Err(e),
            Ok((a, j)) => if i < j <= ts.len() {
                spec_attrs(ts, j, acc.push(a))
            } else {
                Ok((acc, i))
            },
        }
    } else {
        Ok((acc, i))
    }
}

/// The element at `i`, and the position after it.
pub open spec fn spec_element(ts: Seq<Token>, i: int) -> Result<(ElementView, int), MarkupErrorView>
    decreases ts, ts.len() - i, 0int,
{
    if !(0 <= i < ts.len()) {
        Err(MarkupErrorView::ExpectedBraces(None))
    } else {
        match ts[i] {
            Token::Ident(name, _) => if is_bool_ident(name@) {
                Ok((ElementView::Lit(LitView::Bool(name@ == "true"@)), i + 1))
            } else {
                match spec_attrs(ts, i + 1, Seq::empty()) {
                    Err(e) => Err(e),
                    Ok((attrs, j)) => if is_void_tag(name@) {
                        if is_punct_at(ts, j, ';') {
                            Ok((ElementView::Void(name@, attrs), j + 1))
                        } else {
                            Err(MarkupErrorView::ExpectedSemicolon(place_at(ts, j)))
                        }
                    } else if 0 <= j < ts.len() && ts[j] is Braced {
                        match spec_markup(ts[j]->Braced_0@, 0, Seq::empty()) {
                            Ok(children) => Ok((ElementView::Container(name@, attrs, children), j + 1)),
                            Err(e) => Err(e),
                        }
                    } else {
                        Err(MarkupErrorView::ExpectedBraces(place_at(ts, j)))
                    },
                }
            },
            Token::Lit(l, at) => if lit_supported(l) {
                Ok((ElementView::Lit(lit_view(l)), i + 1))
            } else {
                Err(MarkupErrorView::UnsupportedLit(at))
            },
            Token::Paren(d, _, _) => Ok((ElementView::Expr(d), i + 1)),
            Token::Punct(_, at) => if is_negative_lit_at(ts, i) {
                match spec_negative_lit(ts, i) {
                    Ok((lv, m)) => Ok((ElementView::Lit(lv), m)),
                    Err(e) => Err(e),
                }
            } else {
                Err(MarkupErrorView::UnexpectedToken(at))
            },
            Token::Braced(_, at) => Err(MarkupErrorView::UnexpectedToken(at)),
            Token::Other(at) => Err(MarkupErrorView::UnexpectedToken(at)),
        }
    }
}

/// The elements from `i` to the end, appended to `acc`.
pub open spec fn spec_markup(ts: Seq<Token>, i: int, acc: Seq<ElementView>) -> Result<
    Seq<ElementView>,
    MarkupErrorView,
>
    decreases ts, ts.len() - i, 1int,
{
    if i < 0 || i >= ts.len() {
        Ok(acc)
    } else {
        match spec_element(ts, i) {
            Err(e) => Err(e),
            Ok((e, j)) => if i < j <= ts.len() {
                spec_markup(ts, j, acc.push(e))
            } else {
                Ok(acc)
            },
        }
    }
}

/// What markup tokens read as: the whole sequence as elements.
pub open spec fn spec_parse_markup(ts: Seq<Token>) -> Result<Seq<ElementView>, MarkupErrorView> {
    spec_markup(ts, 0, Seq::empty())
}

pub open spec fn key_result_view(r: Result<(AttributeKey, usize), MarkupError>) -> Result<
    (KeyView, int),
    MarkupErrorView,
> {
    match r {
        Ok((k, j)) => Ok((key_view(k), j as int)),
        Err(e) => Err(e@),
    }
}

pub open spec fn val_result_view(r: Result<(Option<AttributeVal>, usize), MarkupError>) -> Result<
    (Option<ValView>, int),
    MarkupErrorView,
> {
    match r {
        Ok((v, j)) => Ok(
            (
                match v {
                    Some(v) => Some(val_view(v)),
                    None => None,
                },
                j as int,
            ),
        ),
        Err(e) => Err(e@),
    }
}

pub open spec fn attr_result_view(r: Result<(Attribute, usize), MarkupError>) -> Result<
    (AttrView, int),
    MarkupErrorView,
> {
    match r {
        Ok((a, j)) => Ok((attr_view(a), j as int)),
        Err(e) => Err(e@),
    }
}

pub open spec fn attrs_result_view(r: Result<(Attributes, usize), MarkupError>) -> Result<
    (Seq<AttrView>, int),
    MarkupErrorView,
> {
    match r {
        Ok((a, j)) => Ok((attrs_view(a.0@), j as int)),
        Err(e) => Err(e@),
    }
}

pub open spec fn element_result_view(r: Result<(Element, usize), MarkupError>) -> Result<
    (ElementView, int),
    MarkupErrorView,
> {
    match r {
        Ok((e, j)) => Ok((element_view(e), j as int)),
        Err(e) => Err(e@),
    }
}

pub open spec fn markup_result_view(r: Result<Markup, MarkupError>) -> Result<
    Seq<ElementView>,
    MarkupErrorView,
> {
    match r {
        Ok(m) => Ok(elements_view(m.0@)),
        Err(e) => Err(e@),
    }
}

fn clone_lit(l: &Lit) -> (r: Lit)
    ensures
        lit_view(r) == lit_view(*l),
        lit_supported(r) == lit_supported(*l),
{
    match l {
        Lit::Str(s) => Lit::Str(s.clone()),
        Lit::ByteStr(b) => {
            let c = b.clone();
            assert(c@ =~= b@);
            Lit::ByteStr(c)
        },
        Lit::CStr(b) => {
            let c = b.clone();
            assert(c@ =~= b@);
            Lit::CStr(c)
        },
        Lit::Byte(b) => Lit::Byte(*b),
        Lit::Char(c) => Lit::Char(*c),
        Lit::Int(d) => Lit::Int(d.clone()),
        Lit::Float(d) => Lit::Float(d.clone()),
        Lit::Bool(b) => Lit::Bool(*b),
        Lit::Verbatim(s) => Lit::Verbatim(s.clone()),
    }
}

fn is_punct(t: &Token, c: char) -> (r: bool)
    ensures
        r == (*t matches Token::Punct(p, _) && p == c),
{
    match t {
        Token::Punct(p, _) => *p == c,
        _ => false,
    }
}

fn is_ident(t: &Token) -> (r: bool)
    ensures
        r == (*t is Ident),
{
    match t {
        Token::Ident(_, _) => true,
        _ => false,
    }
}

fn key_start(t: &Token) -> (r: bool)
    ensures
        r == is_key_start(*t),
{
    match t {
        Token::Lit(Lit::Str(_), _) => true,
        Token::Ident(_, _) => true,
        Token::Paren(_, _, _) => true,
        _ => false,
    }
}

fn token_place(tokens: &Vec<Token>, j: usize) -> (r: Option<usize>)
    ensures
        r == place_at(tokens@, j as int),
{
    if j < tokens.len() {
        Some(
            match &tokens[j] {
                Token::Ident(_, at) => *at,
                Token::Lit(_, at) => *at,
                Token::Punct(_, at) => *at,
                Token::Braced(_, at) => *at,
                Token::Paren(_, _, at) => *at,
                Token::Other(at) => *at,
            },
        )
    } else {
        None
    }
}


/// Reads `-` and a number literal at `j`, when they are there.
fn negative_lit(tokens: &Vec<Token>, j: usize) -> (r: Option<Result<(Lit, usize), MarkupError>>)
    requires
        j < tokens.len(),
    ensures
        is_negative_lit_at(tokens@, j as int) <==> r is Some,
        r matches Some(res) ==> match res {
            Ok((l, m)) => spec_negative_lit(tokens@, j as int) == Ok::<(LitView, int), MarkupErrorView>((lit_view(l), m as int))
                && lit_supported(l) && m <= tokens.len(),
            Err(e) => spec_negative_lit(tokens@, j as int) == Err::<(LitView, int), MarkupErrorView>(e@),
        },
{
    if !(is_punct(&tokens[j], '-') && j + 1 < tokens.len()) {
        return None;
    }
    match &tokens[j + 1] {
        Token::Lit(l, at) => {
            let (digits, float) = match l {
                Lit::Int(d) => (d, false),
                Lit::Float(d) => (d, true),
                _ => return None,
            };
            let mut text = String::from_str("-");
            text.append(digits.as_str());
            proof {
                reveal_strlit("-");
            }
            assert(text@ =~= seq!['-'] + digits@);
            let n = if float { Lit::Float(text) } else { Lit::Int(text) };
            proof {
                lemma_lit_supported_view(n);
            }
            if n.is_supported() {
                Some(Ok((n, j + 2)))
            } else {
                Some(Err(MarkupError::UnsupportedLit { at: *at }))
            }
        },
        _ => None,
    }
}

fn ident_run(tokens: &Vec<Token>, start: usize) -> (r: (Vec<String>, usize))
    requires
        start <= tokens.len(),
    ensures
        (string_views(r.0@), r.1 as int) == spec_ident_run(tokens@, start as int, Seq::empty()),
        start <= r.1 <= tokens.len(),
        start < tokens.len() && tokens@[start as int] is Ident ==> r.1 > start,
{
    let ghost ts = tokens@;
    let mut ids: Vec<String> = Vec::new();
    let mut i = start;
    assert(string_views(ids@) =~= Seq::<Seq<char>>::empty());
    while i < tokens.len() && is_ident(&tokens[i])
        invariant
            ts == tokens@,
            start <= i <= tokens.len(),
            spec_ident_run(ts, start as int, Seq::empty()) == spec_ident_run(
                ts,
                i as int,
                string_views(ids@),
            ),
        decreases tokens.len() - i,
    {
        if let Token::Ident(name, _) = &tokens[i] {
            let ghost before = string_views(ids@);
            ids.push(name.clone());
            assert(string_views(ids@) =~= before.push(name@));
            if i + 1 < tokens.len() && is_punct(&tokens[i + 1], '-') {
                i = i + 2;
            } else {
                i = i + 1;
            }
        }
    }
    (ids, i)
}

fn parse_key(tokens: &Vec<Token>, i: usize) -> (r: Result<(AttributeKey, usize), MarkupError>)
    requires
        i < tokens.len(),
        is_key_start(tokens@[i as int]),
    ensures
        key_result_view(r) == spec_key(tokens@, i as int),
        r matches Ok((_, j)) ==> i < j <= tokens.len(),
{
    match &tokens[i] {
        Token::Lit(Lit::Str(s), at) => match AttributeKey::from_lit(s.clone(), *at) {
            Ok(k) => Ok((k, i + 1)),
            Err(e) => Err(MarkupError::Key(e)),
        },
        Token::Paren(d, ke, _) => match check_key_expr(ke) {
            Ok(()) => Ok((AttributeKey::Expr(*d), i + 1)),
            Err(e) => Err(MarkupError::Key(e)),
        },
        _ => {
            let (ids, j) = ident_run(tokens, i);
            Ok((AttributeKey::Idents(ids), j))
        },
    }
}

fn parse_val(tokens: &Vec<Token>, i: usize) -> (r: Result<(Option<AttributeVal>, usize), MarkupError>)
    requires
        i <= tokens.len(),
    ensures
        val_result_view(r) == spec_val(tokens@, i as int),
        r matches Ok((v, j)) ==> i <= j <= tokens.len() && (v matches Some(AttributeVal::Lit(l))
            ==> lit_supported(l)),
{
    if i < tokens.len() && is_punct(&tokens[i], '=') {
        let k = i + 1;
        if k < tokens.len() {
            match &tokens[k] {
                Token::Lit(l, at) => {
                    if l.is_supported() {
                        Ok((Some(AttributeVal::Lit(clone_lit(l))), k + 1))
                    } else {
                        Err(MarkupError::UnsupportedLit { at: *at })
                    }
                },
                Token::Ident(name, _) => {
                    if str_eq(name.as_str(), "true") {
                        Ok((Some(AttributeVal::Lit(Lit::Bool(true))), k + 1))
                    } else if str_eq(name.as_str(), "false") {
                        Ok((Some(AttributeVal::Lit(Lit::Bool(false))), k + 1))
                    } else {
                        Ok((None, k))
                    }
                },
                Token::Paren(d, _, _) => Ok((Some(AttributeVal::Expr(*d)), k + 1)),
                _ => match negative_lit(tokens, k) {
                    Some(Ok((l, m))) => Ok((Some(AttributeVal::Lit(l)), m)),
                    Some(Err(e)) => Err(e),
                    None => Ok((None, k)),
                },
            }
        } else {
            Ok((None, k))
        }
    } else {
        Ok((None, i))
    }
}

fn parse_attribute(tokens: &Vec<Token>, i: usize) -> (r: Result<(Attribute, usize), MarkupError>)
    requires
        i < tokens.len(),
        is_key_start(tokens@[i as int]),
    ensures
        attr_result_view(r) == spec_attr(tokens@, i as int),
        r matches Ok((a, j)) ==> i < j <= tokens.len() && attribute_wf(a),
{
    let (key, j) = match parse_key(tokens, i) {
        Ok(kj) => kj,
        Err(e) => return Err(e),
    };
    let (val, k) = match parse_val(tokens, j) {
        Ok(vk) => vk,
        Err(e) => return Err(e),
    };
    Ok((Attribute { key, val }, k))
}

fn parse_attributes(tokens: &Vec<Token>, start: usize) -> (r: Result<(Attributes, usize), MarkupError>)
    requires
        start <= tokens.len(),
    ensures
        attrs_result_view(r) == spec_attrs(tokens@, start as int, Seq::empty()),
        r matches Ok((a, j)) ==> start <= j <= tokens.len() && attributes_wf(a.0@),
{
    let ghost ts = tokens@;
    let mut attrs: Vec<Attribute> = Vec::new();
    let mut i = start;
    assert(attrs_view(attrs@) =~= Seq::<AttrView>::empty());
    while i < tokens.len() && key_start(&tokens[i])
        invariant
            ts == tokens@,
            start <= i <= tokens.len(),
            spec_attrs(ts, start as int, Seq::empty()) == spec_attrs(
                ts,
                i as int,
                attrs_view(attrs@),
            ),
            attributes_wf(attrs@),
        decreases tokens.len() - i,
    {
        match parse_attribute(tokens, i) {
            Err(e) => return Err(e),
            Ok((a, j)) => {
                let ghost before = attrs_view(attrs@);
                let ghost av = attr_view(a);
                attrs.push(a);
                assert(attrs_view(attrs@) =~= before.push(av));
                i = j;
            },
        }
    }
    Ok((Attributes(attrs), i))
}

fn parse_element(tokens: &Vec<Token>, i: usize) -> (r: Result<(Element, usize), MarkupError>)
    requires
        i < tokens.len(),
    ensures
        element_result_view(r) == spec_element(tokens@, i as int),
        r matches Ok((e, j)) ==> i < j <= tokens.len() && element_wf(e),
    decreases tokens@, tokens@.len() - i, 0int,
{
    match &tokens[i] {
        Token::Ident(name, _) => {
            if str_eq(name.as_str(), "true") {
                return Ok((Element::Lit(Lit::Bool(true)), i + 1));
            }
            if str_eq(name.as_str(), "false") {
                return Ok((Element::Lit(Lit::Bool(false)), i + 1));
            }
            let (attr, j) = match parse_attributes(tokens, i + 1) {
                Ok(aj) => aj,
                Err(e) => return Err(e),
            };
            if is_void(name.as_str()) {
                if j < tokens.len() && is_punct(&tokens[j], ';') {
                    Ok((Element::Void { tag: name.clone(), attr }, j + 1))
                } else {
                    Err(MarkupError::ExpectedSemicolon { at: token_place(tokens, j) })
                }
            } else if j < tokens.len() {
                match &tokens[j] {
                    Token::Braced(inner, _) => {
                        assert(decreases_to!(tokens@ => tokens@[j as int]));
                        match parse_markup(inner) {
                            Ok(m) => Ok((Element::Container { tag: name.clone(), attr, m }, j + 1)),
                            Err(e) => Err(e),
                        }
                    },
                    _ => Err(MarkupError::ExpectedBraces { at: token_place(tokens, j) }),
                }
            } else {
                Err(MarkupError::ExpectedBraces { at: token_place(tokens, j) })
            }
        },
        Token::Lit(l, at) => {
            if l.is_supported() {
                Ok((Element::Lit(clone_lit(l)), i + 1))
            } else {
                Err(MarkupError::UnsupportedLit { at: *at })
            }
        },
        Token::Paren(d, _, _) => Ok((Element::Expr(*d), i + 1)),
        Token::Punct(_, at) => match negative_lit(tokens, i) {
            Some(Ok((l, m))) => Ok((Element::Lit(l), m)),
            Some(Err(e)) => Err(e),
            None => Err(MarkupError::UnexpectedToken { at: *at }),
        },
        Token::Braced(_, at) => Err(MarkupError::UnexpectedToken { at: *at }),
        Token::Other(at) => Err(MarkupError::UnexpectedToken { at: *at }),
    }
}

/// Reads markup tokens as a sequence of elements: elements with content
/// are a tag, attributes and a `{ ... }` group; void elements a tag,
/// attributes and `;`; literals and parenthesised expressions stand for
/// themselves. A token that starts no element is refused.
pub fn parse_markup(tokens: &Vec<Token>) -> (r: Result<Markup, MarkupError>)
    ensures
        markup_result_view(r) == spec_parse_markup(tokens@),
        r matches Ok(m) ==> elements_wf(m.0@),
    decreases tokens@, tokens@.len() as int, 1int,
{
    let ghost ts = tokens@;
    let mut elements: Vec<Element> = Vec::new();
    let mut i: usize = 0;
    assert(elements_view(elements@) =~= Seq::<ElementView>::empty());
    while i < tokens.len()
        invariant
            ts == tokens@,
            0 <= i <= tokens.len(),
            spec_markup(ts, 0, Seq::empty()) == spec_markup(ts, i as int, elements_view(elements@)),
            elements_wf(elements@),
        decreases tokens.len() - i,
    {
        match parse_element(tokens, i) {
            Err(e) => return Err(e),
            Ok((e, j)) => {
                let ghost before = elements@;
                elements.push(e);
                assert(elements@.subrange(0, elements@.len() - 1) =~= before);
                i = j;
            },
        }
    }
    Ok(Markup(elements))
}

impl MarkupError {
    /// The message reported for this refusal.
    pub fn message(&self) -> (r: &'static str)
        ensures
            r@ == match self@ {
                MarkupErrorView::UnexpectedToken(_) => "unexpected token"@,
                MarkupErrorView::ExpectedSemicolon(_) => "expected `;`"@,
                MarkupErrorView::ExpectedBraces(_) => "expected curly braces"@,
                MarkupErrorView::UnsupportedLit(_) => "CStr, Byte, and Verbatim literals are not supported"@,
                MarkupErrorView::Key(KeyErrorView::Invalid(_, _)) => "attribute keys must start with alphanumeric, `_`, or `:` and only contain those tokens; `-` or `.`"@,
                MarkupErrorView::Key(KeyErrorView::Unsupported(_)) => "unsupported attribute key expression"@,
            },
    {
        match self {
            MarkupError::UnexpectedToken { .. } => "unexpected token",
            MarkupError::ExpectedSemicolon { .. } => "expected `;`",
            MarkupError::ExpectedBraces { .. } => "expected curly braces",
            MarkupError::UnsupportedLit { .. } => "CStr, Byte, and Verbatim literals are not supported",
            MarkupError::Key(e) => e.message(),
        }
    }
}

} // verus!
