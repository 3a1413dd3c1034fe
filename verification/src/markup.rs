use vstd::prelude::*;
use vstd::string::StringExecFns;
use itertools::Itertools;

use crate::escape::{
    encode_double_quoted_attribute, encode_text, escape_char, escaped, from_utf8_lossy,
    utf8_lossy, EscapeSet,
};
use crate::parts::{
    lemma_push_all_concat, lemma_push_all_output, part_output, parts_output, push_all, Dynamic,
    Part, PartView, Parts,
};
use crate::render::{bool_text, push_bool, push_escaped_char};

verus! {

/// A Rust literal written in markup. Its integer and float forms hold the
/// literal's base-10 digits, without suffix or separators.
pub enum Lit {
    Str(String),
    ByteStr(Vec<u8>),
    CStr(Vec<u8>),
    Byte(u8),
    Char(char),
    Int(String),
    Float(String),
    Bool(bool),
    Verbatim(String),
}

/// A node of the markup tree.
pub enum Element {
    /// `tag attrs { children }`: an element with content and a closing tag.
    Container { tag: String, attr: Attributes, m: Markup },
    /// `tag attrs;`: a void element.
    Void { tag: String, attr: Attributes },
    /// A literal written as text.
    Lit(Lit),
    /// A parenthesised Rust expression.
    Expr(Dynamic),
    /// Anything else, which writes nothing.
    Nothing,
}

/// A sequence of markup nodes.
pub struct Markup(pub Vec<Element>);

/// The attributes of an element, in source order.
pub struct Attributes(pub Vec<Attribute>);

/// One attribute: a key and an optional value.
pub struct Attribute {
    pub key: AttributeKey,
    pub val: Option<AttributeVal>,
}

/// The key of an attribute.
pub enum AttributeKey {
    /// Identifiers, written joined by `-`.
    Idents(Vec<String>),
    /// A string literal.
    Lit(String),
    /// A parenthesised Rust expression.
    Expr(Dynamic),
}

/// The value of an attribute.
pub enum AttributeVal {
    Lit(Lit),
    Expr(Dynamic),
}

/// The names of the HTML void elements, which have no content and no
/// closing tag.
pub open spec fn is_void_tag(tag: Seq<char>) -> bool {
    ||| tag == "area"@
    ||| tag == "base"@
    ||| tag == "br"@
    ||| tag == "col"@
    ||| tag == "embed"@
    ||| tag == "hr"@
    ||| tag == "img"@
    ||| tag == "input"@
    ||| tag == "link"@
    ||| tag == "meta"@
    ||| tag == "source"@
    ||| tag == "track"@
    ||| tag == "wbr"@
}

/// Whether two strings hold the same characters.
pub(crate) fn str_eq(a: &str, b: &str) -> (r: bool)
    ensures
        r == (a@ == b@),
{
    let n = a.unicode_len();
    let m = b.unicode_len();
    if n != m {
        return false;
    }
    let mut i: usize = 0;
    while i < n
        invariant
            n == a@.len(),
            m == b@.len(),
            n == m,
            0 <= i <= n,
            forall|j: int| 0 <= j < i ==> a@[j] == b@[j],
        decreases n - i,
    {
        if a.get_char(i) != b.get_char(i) {
            return false;
        }
        i = i + 1;
    }
    assert(a@ =~= b@);
    true
}

/// Whether `tag` names an HTML void element.
pub fn is_void(tag: &str) -> (r: bool)
    ensures
        r == is_void_tag(tag@),
{
    str_eq(tag, "area") || str_eq(tag, "base") || str_eq(tag, "br") || str_eq(tag, "col")
        || str_eq(tag, "embed") || str_eq(tag, "hr") || str_eq(tag, "img") || str_eq(
        tag,
        "input",
    ) || str_eq(tag, "link") || str_eq(tag, "meta") || str_eq(tag, "source") || str_eq(
        tag,
        "track",
    ) || str_eq(tag, "wbr")
}

/// Literals that markup accepts: all but C strings, bytes and verbatim
/// tokens, with numbers written in digits and number characters only.
pub open spec fn lit_supported(l: Lit) -> bool {
    match l {
        Lit::CStr(_) => false,
        Lit::Byte(_) => false,
        Lit::Verbatim(_) => false,
        Lit::Int(d) => int_digits(d@),
        Lit::Float(d) => float_digits(d@),
        _ => true,
    }
}

/// A character of the base-10 form of an integer literal at position `i`:
/// a digit, or a leading `-`.
pub open spec fn is_int_char_at(d: Seq<char>, i: int) -> bool {
    ('0' <= d[i] <= '9') || (i == 0 && d[i] == '-')
}

/// The base-10 form of an integer literal: one or more of `0`-`9`, after an
/// optional `-`.
pub open spec fn int_digits(d: Seq<char>) -> bool {
    &&& d.len() > 0
    &&& !(d.len() == 1 && d[0] == '-')
    &&& forall|i: int| 0 <= i < d.len() ==> #[trigger] is_int_char_at(d, i)
}

/// A character of the base-10 form of a float literal.
pub open spec fn is_float_char(c: char) -> bool {
    ('0' <= c <= '9') || c == '.' || c == 'e' || c == 'E' || c == '+' || c == '-'
}

/// The base-10 form of a float literal: one or more digits, `.`, exponent
/// marks and signs (a leading `-` included).
pub open spec fn float_digits(d: Seq<char>) -> bool {
    d.len() > 0 && forall|i: int| 0 <= i < d.len() ==> is_float_char(#[trigger] d[i])
}

/// Whether every character of `s` satisfies the number rule: only digits
/// when `float` is false, float characters otherwise.
fn number_text_ok(s: &String, float: bool) -> (r: bool)
    ensures
        r == if float {
            float_digits(s@)
        } else {
            int_digits(s@)
        },
{
    let text = s.as_str();
    let n = text.unicode_len();
    if n == 0 {
        return false;
    }
    if !float && n == 1 && text.get_char(0) == '-' {
        return false;
    }
    let mut i: usize = 0;
    while i < n
        invariant
            n == s@.len(),
            text@ == s@,
            !float ==> !(n == 1 && s@[0] == '-'),
            0 <= i <= n,
            forall|j: int|
                0 <= j < i ==> if float {
                    is_float_char(#[trigger] s@[j])
                } else {
                    is_int_char_at(s@, j)
                },
        decreases n - i,
    {
        let c = text.get_char(i);
        let ok = if float {
            ('0' <= c && c <= '9') || c == '.' || c == 'e' || c == 'E' || c == '+' || c == '-'
        } else {
            ('0' <= c && c <= '9') || (i == 0 && c == '-')
        };
        if !ok {
            assert(!(if float { is_float_char(s@[i as int]) } else { is_int_char_at(s@, i as int) }));
            return false;
        }
        i = i + 1;
    }
    true
}

impl Lit {
    /// Whether markup accepts this literal.
    pub fn is_supported(&self) -> (r: bool)
        ensures
            r == lit_supported(*self),
    {
        match self {
            Lit::CStr(_) => false,
            Lit::Byte(_) => false,
            Lit::Verbatim(_) => false,
            Lit::Int(d) => number_text_ok(d, false),
            Lit::Float(d) => number_text_ok(d, true),
            _ => true,
        }
    }
}

/// The text a literal writes between tags: strings escaped for text,
/// characters escaped as by `encode_safe`, numbers as their digits.
pub open spec fn lit_text(l: Lit) -> Seq<char> {
    match l {
        Lit::Str(s) => escaped(s@, EscapeSet::Text),
        Lit::ByteStr(b) => escaped(utf8_lossy(b@), EscapeSet::Text),
        Lit::Char(c) => escape_char(c, EscapeSet::Safe),
        Lit::Int(d) => d@,
        Lit::Float(d) => d@,
        Lit::Bool(b) => bool_text(b),
        _ => Seq::empty(),
    }
}

/// The text a literal writes inside a double-quoted attribute value.
pub open spec fn attr_lit_text(l: Lit) -> Seq<char> {
    match l {
        Lit::Str(s) => escaped(s@, EscapeSet::DoubleQuotedAttribute),
        Lit::ByteStr(b) => escaped(utf8_lossy(b@), EscapeSet::DoubleQuotedAttribute),
        _ => lit_text(l),
    }
}

/// A character escaped as by `encode_safe`, as a new string.
fn escaped_char_string(c: char) -> (r: String)
    ensures
        r@ == escape_char(c, EscapeSet::Safe),
{
    let mut s = String::new();
    push_escaped_char(&mut s, c);
    s
}

/// `true` or `false` as a new string.
fn bool_string(b: bool) -> (r: String)
    ensures
        r@ == bool_text(b),
{
    let mut s = String::new();
    push_bool(&mut s, b);
    s
}

/// The text of a literal written between tags.
fn lit_text_string(l: &Lit) -> (r: String)
    requires
        lit_supported(*l),
    ensures
        r@ == lit_text(*l),
{
    match l {
        Lit::Str(s) => encode_text(s.as_str()),
        Lit::ByteStr(b) => {
            let text = from_utf8_lossy(b.as_slice());
            encode_text(text.as_str())
        },
        Lit::Char(c) => escaped_char_string(*c),
        Lit::Int(d) => d.clone(),
        Lit::Float(d) => d.clone(),
        Lit::Bool(b) => bool_string(*b),
        _ => {
            assert(false);
            String::new()
        },
    }
}

/// The text of a literal written as a double-quoted attribute value.
fn attr_lit_text_string(l: &Lit) -> (r: String)
    requires
        lit_supported(*l),
    ensures
        r@ == attr_lit_text(*l),
{
    match l {
        Lit::Str(s) => encode_double_quoted_attribute(s.as_str()),
        Lit::ByteStr(b) => {
            let text = from_utf8_lossy(b.as_slice());
            encode_double_quoted_attribute(text.as_str())
        },
        _ => lit_text_string(l),
    }
}

/// Texts joined with `sep` between neighbours.
pub open spec fn join_sep(ids: Seq<Seq<char>>, sep: Seq<char>) -> Seq<char>
    decreases ids.len(),
{
    if ids.len() == 0 {
        Seq::empty()
    } else if ids.len() == 1 {
        ids[0]
    } else {
        join_sep(ids.drop_last(), sep) + sep + ids.last()
    }
}

/// The views of a vector of strings.
pub open spec fn string_views(v: Seq<String>) -> Seq<Seq<char>> {
    v.map_values(|s: String| s@)
}

/// Calls `Itertools::join`, which gives the texts of `idents`, in order,
/// with `sep` between neighbours.
#[verifier::external_body]
fn join_with(idents: &Vec<String>, sep: &str) -> (r: String)
    ensures
        r@ == join_sep(string_views(idents@), sep@),
{
    idents.iter().join(sep)
}

/// A static part holding `s`.
fn static_part(s: &str) -> (r: Part)
    ensures
        r@ == PartView::Static(s@),
{
    Part::Static(String::from_str(s))
}

/// The parts an attribute key pushes.
pub open spec fn key_pushes(k: AttributeKey) -> Seq<PartView> {
    match k {
        AttributeKey::Idents(ids) => seq![
            PartView::Static(" "@),
            PartView::Static(join_sep(string_views(ids@), "-"@)),
        ],
        AttributeKey::Lit(s) => seq![PartView::Static(" "@), PartView::Static(s@)],
        AttributeKey::Expr(d) => seq![PartView::Dynamic(d, true)],
    }
}

/// The parts an attribute value pushes: the value between double quotes.
pub open spec fn val_pushes(v: AttributeVal) -> Seq<PartView> {
    seq![
        PartView::Static("\""@),
        match v {
            AttributeVal::Lit(l) => PartView::Static(attr_lit_text(l)),
            AttributeVal::Expr(d) => PartView::Dynamic(d, false),
        },
        PartView::Static("\""@),
    ]
}

/// The parts an attribute pushes: its key, then `=` and its value if it has one.
pub open spec fn attribute_pushes(a: Attribute) -> Seq<PartView> {
    key_pushes(a.key) + match a.val {
        Some(v) => seq![PartView::Static("="@)] + val_pushes(v),
        None => Seq::empty(),
    }
}

/// The parts a sequence of attributes pushes, one attribute after another.
pub open spec fn attributes_pushes(attrs: Seq<Attribute>) -> Seq<PartView>
    decreases attrs.len(),
{
    if attrs.len() == 0 {
        Seq::empty()
    } else {
        attributes_pushes(attrs.drop_last()) + attribute_pushes(attrs.last())
    }
}

/// The parts an element pushes: for a container `<tag`, its attributes,
/// `>`, its children and `</tag>`; for a void element the same without
/// children and closing tag; for a literal its text; for an expression a
/// hole.
pub open spec fn element_pushes(e: Element) -> Seq<PartView>
    decreases e,
{
    match e {
        Element::Container { tag, attr, m } => seq![PartView::Static("<"@ + tag@)]
            + attributes_pushes(attr.0@) + seq![PartView::Static(">"@)] + elements_pushes(m.0@)
            + seq![PartView::Static("</"@ + tag@ + ">"@)],
        Element::Void { tag, attr } => seq![PartView::Static("<"@ + tag@)] + attributes_pushes(
            attr.0@,
        ) + seq![PartView::Static(">"@)],
        Element::Lit(l) => seq![PartView::Static(lit_text(l))],
        Element::Expr(d) => seq![PartView::Dynamic(d, false)],
        Element::Nothing => Seq::empty(),
    }
}

/// The parts a sequence of elements pushes, one element after another.
pub open spec fn elements_pushes(es: Seq<Element>) -> Seq<PartView>
    decreases es,
{
    if es.len() == 0 {
        Seq::empty()
    } else {
        elements_pushes(es.subrange(0, es.len() - 1)) + element_pushes(es[es.len() - 1])
    }
}

/// An attribute is well formed when its value, if a literal, is one that
/// markup accepts.
pub open spec fn attribute_wf(a: Attribute) -> bool {
    match a.val {
        Some(AttributeVal::Lit(l)) => lit_supported(l),
        _ => true,
    }
}

/// Every attribute is well formed.
pub open spec fn attributes_wf(attrs: Seq<Attribute>) -> bool {
    forall|i: int| 0 <= i < attrs.len() ==> #[trigger] attribute_wf(attrs[i])
}

/// Every literal in the tree is one that markup accepts.
pub open spec fn element_wf(e: Element) -> bool
    decreases e,
{
    match e {
        Element::Container { tag, attr, m } => attributes_wf(attr.0@) && elements_wf(m.0@),
        Element::Void { tag, attr } => attributes_wf(attr.0@),
        Element::Lit(l) => lit_supported(l),
        _ => true,
    }
}

/// Every element of the sequence is well formed.
pub open spec fn elements_wf(es: Seq<Element>) -> bool
    decreases es,
{
    if es.len() == 0 {
        true
    } else {
        elements_wf(es.subrange(0, es.len() - 1)) && element_wf(es[es.len() - 1])
    }
}

impl AttributeKey {
    /// Appends the parts of this key: a space and the key text, or a hole
    /// in key position.
    pub fn append(&self, parts: &mut Parts)
        ensures
            final(parts)@ == push_all(old(parts)@, key_pushes(*self)),
    {
        match self {
            AttributeKey::Idents(idents) => {
                parts.push(static_part(" "));
                parts.push(Part::Static(join_with(idents, "-")));
            },
            AttributeKey::Lit(lit) => {
                parts.push(static_part(" "));
                parts.push(Part::Static(lit.clone()));
            },
            AttributeKey::Expr(expr) => {
                parts.push(Part::Dynamic(*expr, true));
            },
        }
        proof {
            let ks = key_pushes(*self);
            reveal_with_fuel(push_all, 3);
            if ks.len() == 2 {
                assert(ks.drop_last().drop_last() =~= Seq::<PartView>::empty());
                assert(ks.drop_last() =~= seq![ks[0]]);
            } else {
                assert(ks.drop_last() =~= Seq::<PartView>::empty());
            }
        }
    }
}

impl AttributeVal {
    /// Appends the parts of this value: the value between double quotes.
    pub fn append(&self, parts: &mut Parts)
        requires
            match *self {
                AttributeVal::Lit(l) => lit_supported(l),
                _ => true,
            },
        ensures
            final(parts)@ == push_all(old(parts)@, val_pushes(*self)),
    {
        parts.push(static_part("\""));
        match self {
            AttributeVal::Lit(lit) => parts.push(Part::Static(attr_lit_text_string(lit))),
            AttributeVal::Expr(expr) => parts.push(Part::Dynamic(*expr, false)),
        }
        parts.push(static_part("\""));
        proof {
            let vs = val_pushes(*self);
            reveal_with_fuel(push_all, 4);
            assert(vs.drop_last().drop_last().drop_last() =~= Seq::<PartView>::empty());
            assert(vs.drop_last().drop_last() =~= seq![vs[0]]);
            assert(vs.drop_last() =~= seq![vs[0], vs[1]]);
        }
    }
}

impl Attribute {
    /// Appends the parts of this attribute: its key, then `=` and its value
    /// if it has one.
    pub fn append(&self, parts: &mut Parts)
        requires
            attribute_wf(*self),
        ensures
            final(parts)@ == push_all(old(parts)@, attribute_pushes(*self)),
    {
        let ghost start = parts@;
        self.key.append(parts);
        if let Some(val) = &self.val {
            parts.push(static_part("="));
            proof {
                reveal_with_fuel(push_all, 2);
                assert(seq![PartView::Static("="@)].drop_last() =~= Seq::<PartView>::empty());
                lemma_push_all_concat(start, key_pushes(self.key), seq![PartView::Static("="@)]);
            }
            val.append(parts);
            proof {
                lemma_push_all_concat(
                    start,
                    key_pushes(self.key) + seq![PartView::Static("="@)],
                    val_pushes(*val),
                );
                assert(key_pushes(self.key) + seq![PartView::Static("="@)] + val_pushes(*val)
                    =~= attribute_pushes(*self));
            }
        } else {
            assert(attribute_pushes(*self) =~= key_pushes(self.key));
        }
    }
}

impl Attributes {
    /// Appends the parts of each attribute in turn.
    pub fn append(&self, parts: &mut Parts)
        requires
            attributes_wf(self.0@),
        ensures
            final(parts)@ == push_all(old(parts)@, attributes_pushes(self.0@)),
    {
        let ghost start = parts@;
        let mut i: usize = 0;
        while i < self.0.len()
            invariant
                0 <= i <= self.0.len(),
                attributes_wf(self.0@),
                parts@ == push_all(start, attributes_pushes(self.0@.take(i as int))),
            decreases self.0.len() - i,
        {
            assert(self.0@.take(i + 1).drop_last() =~= self.0@.take(i as int));
            assert(attribute_wf(self.0@[i as int]));
            self.0[i].append(parts);
            proof {
                lemma_push_all_concat(
                    start,
                    attributes_pushes(self.0@.take(i as int)),
                    attribute_pushes(self.0@[i as int]),
                );
            }
            i = i + 1;
        }
        assert(self.0@.take(i as int) =~= self.0@);
    }
}

/// The text that opens a tag: `<` and the tag name.
fn open_tag(tag: &String) -> (r: Part)
    ensures
        r@ == PartView::Static("<"@ + tag@),
{
    let mut s = String::from_str("<");
    s.append(tag.as_str());
    Part::Static(s)
}

/// The closing tag: `</`, the tag name and `>`.
fn close_tag(tag: &String) -> (r: Part)
    ensures
        r@ == PartView::Static("</"@ + tag@ + ">"@),
{
    let mut s = String::from_str("</");
    s.append(tag.as_str());
    s.append(">");
    Part::Static(s)
}

/// Pushing a single part is pushing a one-part sequence.
proof fn lemma_push_one(ps: Seq<PartView>, p: PartView)
    ensures
        push_all(ps, seq![p]) == crate::parts::push_merged(ps, p),
{
    reveal_with_fuel(push_all, 2);
    assert(seq![p].drop_last() =~= Seq::<PartView>::empty());
}

impl Element {
    /// Appends the parts of this element.
    pub fn append(&self, parts: &mut Parts)
        requires
            element_wf(*self),
        ensures
            final(parts)@ == push_all(old(parts)@, element_pushes(*self)),
        decreases self,
    {
        let ghost start = parts@;
        match self {
            Element::Container { tag, attr, m } => {
                let p0 = open_tag(tag);
                let ghost v0 = p0@;
                parts.push(p0);
                proof {
                    lemma_push_one(start, v0);
                }
                attr.append(parts);
                proof {
                    lemma_push_all_concat(start, seq![v0], attributes_pushes(attr.0@));
                }
                let ghost a = seq![v0] + attributes_pushes(attr.0@);
                let ghost before_gt = parts@;
                parts.push(static_part(">"));
                proof {
                    lemma_push_one(before_gt, PartView::Static(">"@));
                    lemma_push_all_concat(start, a, seq![PartView::Static(">"@)]);
                }
                let ghost b = a + seq![PartView::Static(">"@)];
                m.append(parts);
                proof {
                    lemma_push_all_concat(start, b, elements_pushes(m.0@));
                }
                let ghost c = b + elements_pushes(m.0@);
                let p1 = close_tag(tag);
                let ghost v1 = p1@;
                let ghost before_close = parts@;
                parts.push(p1);
                proof {
                    lemma_push_one(before_close, v1);
                    lemma_push_all_concat(start, c, seq![v1]);
                    assert(c + seq![v1] =~= element_pushes(*self));
                }
            },
            Element::Void { tag, attr } => {
                let p0 = open_tag(tag);
                let ghost v0 = p0@;
                parts.push(p0);
                proof {
                    lemma_push_one(start, v0);
                }
                attr.append(parts);
                proof {
                    lemma_push_all_concat(start, seq![v0], attributes_pushes(attr.0@));
                }
                let ghost a = seq![v0] + attributes_pushes(attr.0@);
                let ghost before_gt = parts@;
                parts.push(static_part(">"));
                proof {
                    lemma_push_one(before_gt, PartView::Static(">"@));
                    lemma_push_all_concat(start, a, seq![PartView::Static(">"@)]);
                    assert(a + seq![PartView::Static(">"@)] =~= element_pushes(*self));
                }
            },
            Element::Lit(lit) => {
                let p = Part::Static(lit_text_string(lit));
                let ghost v = p@;
                parts.push(p);
                proof {
                    lemma_push_one(start, v);
                }
            },
            Element::Expr(expr) => {
                parts.push(Part::Dynamic(*expr, false));
                proof {
                    lemma_push_one(start, PartView::Dynamic(*expr, false));
                }
            },
            Element::Nothing => {},
        }
    }
}

impl Markup {
    /// Appends the parts of each element in turn.
    pub fn append(&self, parts: &mut Parts)
        requires
            elements_wf(self.0@),
        ensures
            final(parts)@ == push_all(old(parts)@, elements_pushes(self.0@)),
        decreases self,
    {
        let ghost start = parts@;
        let mut i: usize = 0;
        while i < self.0.len()
            invariant
                0 <= i <= self.0.len(),
                elements_wf(self.0@),
                parts@ == push_all(start, elements_pushes(self.0@.take(i as int))),
            decreases self.0.len() - i,
        {
            let ghost es = self.0@.take(i + 1);
            assert(es.subrange(0, es.len() - 1) =~= self.0@.take(i as int));
            proof {
                lemma_elements_wf_index(self.0@, i as int);
            }
            assert(decreases_to!(self => self.0@[i as int]));
            self.0[i].append(parts);
            proof {
                lemma_push_all_concat(
                    start,
                    elements_pushes(self.0@.take(i as int)),
                    element_pushes(self.0@[i as int]),
                );
            }
            i = i + 1;
        }
        assert(self.0@.take(i as int) =~= self.0@);
    }

    /// Lowers the markup into parts: the parts of each element in turn,
    /// with neighbouring static texts glued together.
    pub fn to_parts(&self) -> (r: Parts)
        requires
            elements_wf(self.0@),
        ensures
            r@ == push_all(Seq::empty(), elements_pushes(self.0@)),
            crate::parts::no_adjacent_statics(r@),
    {
        let mut parts = Parts::new();
        self.append(&mut parts);
        proof {
            crate::parts::lemma_push_all_no_adjacent(Seq::empty(), elements_pushes(self.0@));
        }
        parts
    }
}

/// Each element of a well-formed sequence is well formed.
pub proof fn lemma_elements_wf_index(es: Seq<Element>, i: int)
    requires
        elements_wf(es),
        0 <= i < es.len(),
    ensures
        element_wf(es[i]),
    decreases es.len(),
{
    if i < es.len() - 1 {
        let front = es.subrange(0, es.len() - 1);
        lemma_elements_wf_index(front, i);
        assert(front[i] == es[i]);
    }
}

/// The output of a concatenation of parts is the concatenation of their
/// outputs.
pub proof fn lemma_parts_output_concat(
    a: Seq<PartView>,
    b: Seq<PartView>,
    values: Seq<Option<Seq<char>>>,
)
    ensures
        parts_output(a + b, values) == parts_output(a, values) + parts_output(b, values),
    decreases b.len(),
{
    if b.len() == 0 {
        assert(a + b =~= a);
        assert(parts_output(a, values) + Seq::<char>::empty() =~= parts_output(a, values));
    } else {
        lemma_parts_output_concat(a, b.drop_last(), values);
        assert((a + b).drop_last() =~= a + b.drop_last());
        assert(parts_output(a, values) + parts_output(b.drop_last(), values) + part_output(
            b.last(),
            values,
        ) =~= parts_output(a, values) + (parts_output(b.drop_last(), values) + part_output(
            b.last(),
            values,
        )));
    }
}

proof fn lemma_parts_output_one(p: PartView, values: Seq<Option<Seq<char>>>)
    ensures
        parts_output(seq![p], values) == part_output(p, values),
{
    reveal_with_fuel(parts_output, 2);
    assert(seq![p].drop_last() =~= Seq::<PartView>::empty());
    assert(Seq::<char>::empty() + part_output(p, values) =~= part_output(p, values));
}

/// Lowered markup writes what its elements write, one after the other,
/// whatever the holes' expressions render to.
pub proof fn lemma_markup_output(m: Markup, values: Seq<Option<Seq<char>>>)
    ensures
        parts_output(push_all(Seq::empty(), elements_pushes(m.0@)), values) == parts_output(
            elements_pushes(m.0@),
            values,
        ),
{
    lemma_push_all_output(Seq::empty(), elements_pushes(m.0@), values);
    assert(Seq::<char>::empty() + parts_output(elements_pushes(m.0@), values) =~= parts_output(
        elements_pushes(m.0@),
        values,
    ));
}

/// An element with content writes `<tag`, its attributes, `>`, its
/// children and `</tag>`.
pub proof fn lemma_container_output(
    tag: String,
    attr: Attributes,
    m: Markup,
    values: Seq<Option<Seq<char>>>,
)
    ensures
        parts_output(element_pushes(Element::Container { tag, attr, m }), values) == "<"@ + tag@
            + parts_output(attributes_pushes(attr.0@), values) + ">"@ + parts_output(
            elements_pushes(m.0@),
            values,
        ) + "</"@ + tag@ + ">"@,
{
    let o = seq![PartView::Static("<"@ + tag@)];
    let a = attributes_pushes(attr.0@);
    let g = seq![PartView::Static(">"@)];
    let c = elements_pushes(m.0@);
    let cl = seq![PartView::Static("</"@ + tag@ + ">"@)];
    lemma_parts_output_concat(o + a + g + c, cl, values);
    lemma_parts_output_concat(o + a + g, c, values);
    lemma_parts_output_concat(o + a, g, values);
    lemma_parts_output_concat(o, a, values);
    lemma_parts_output_one(o[0], values);
    lemma_parts_output_one(g[0], values);
    lemma_parts_output_one(cl[0], values);
    assert(parts_output(element_pushes(Element::Container { tag, attr, m }), values) =~= "<"@
        + tag@ + parts_output(a, values) + ">"@ + parts_output(c, values) + "</"@ + tag@ + ">"@);
}

/// A void element writes `<tag`, its attributes and `>`, and nothing else.
pub proof fn lemma_void_output(tag: String, attr: Attributes, values: Seq<Option<Seq<char>>>)
    ensures
        parts_output(element_pushes(Element::Void { tag, attr }), values) == "<"@ + tag@
            + parts_output(attributes_pushes(attr.0@), values) + ">"@,
{
    let o = seq![PartView::Static("<"@ + tag@)];
    let a = attributes_pushes(attr.0@);
    let g = seq![PartView::Static(">"@)];
    lemma_parts_output_concat(o + a, g, values);
    lemma_parts_output_concat(o, a, values);
    lemma_parts_output_one(o[0], values);
    lemma_parts_output_one(g[0], values);
    assert(parts_output(element_pushes(Element::Void { tag, attr }), values) =~= "<"@ + tag@
        + parts_output(a, values) + ">"@);
}

impl Attributes {
    /// Whether every attribute value that is a literal is one markup accepts.
    pub fn is_wf(&self) -> (r: bool)
        ensures
            r == attributes_wf(self.0@),
    {
        let mut i: usize = 0;
        while i < self.0.len()
            invariant
                0 <= i <= self.0.len(),
                forall|j: int| 0 <= j < i ==> #[trigger] attribute_wf(self.0@[j]),
            decreases self.0.len() - i,
        {
            let ok = match &self.0[i].val {
                Some(AttributeVal::Lit(l)) => l.is_supported(),
                _ => true,
            };
            if !ok {
                assert(!attribute_wf(self.0@[i as int]));
                return false;
            }
            i = i + 1;
        }
        true
    }
}

impl Element {
    /// Whether every literal in this element is one markup accepts.
    pub fn is_wf(&self) -> (r: bool)
        ensures
            r == element_wf(*self),
        decreases self,
    {
        match self {
            Element::Container { tag: _, attr, m } => attr.is_wf() && m.is_wf(),
            Element::Void { tag: _, attr } => attr.is_wf(),
            Element::Lit(l) => l.is_supported(),
            _ => true,
        }
    }
}

impl Markup {
    /// Whether every literal in the markup is one markup accepts.
    pub fn is_wf(&self) -> (r: bool)
        ensures
            r == elements_wf(self.0@),
        decreases self,
    {
        let mut i: usize = 0;
        while i < self.0.len()
            invariant
                0 <= i <= self.0.len(),
                elements_wf(self.0@.take(i as int)),
            decreases self.0.len() - i,
        {
            let ghost es = self.0@.take(i + 1);
            assert(es.subrange(0, es.len() - 1) =~= self.0@.take(i as int));
            assert(decreases_to!(self => self.0@[i as int]));
            if !self.0[i].is_wf() {
                proof {
                    if elements_wf(self.0@) {
                        lemma_elements_wf_index(self.0@, i as int);
                    }
                }
                return false;
            }
            i = i + 1;
        }
        assert(self.0@.take(i as int) =~= self.0@);
        true
    }
}

/// The text of an accepted literal, written as an attribute value, can
/// neither end the double-quoted value nor open or close a tag: it holds no
/// `"`, `<` or `>`.
pub proof fn lemma_attr_lit_text_safe(l: Lit)
    requires
        lit_supported(l),
    ensures
        forall|i: int|
            0 <= i < attr_lit_text(l).len() ==> {
                let c = #[trigger] attr_lit_text(l)[i];
                c != '"' && c != '<' && c != '>'
            },
{
    let s = attr_lit_text(l);
    match l {
        Lit::Str(v) => {
            crate::escape::lemma_escaped_has_no_special(v@, EscapeSet::DoubleQuotedAttribute);
            assert forall|i: int| 0 <= i < s.len() implies s[i] != '"' && s[i] != '<' && s[i] != '>' by {
                assert(!crate::escape::is_special_for(s[i], EscapeSet::DoubleQuotedAttribute));
            }
        },
        Lit::ByteStr(b) => {
            crate::escape::lemma_escaped_has_no_special(utf8_lossy(b@), EscapeSet::DoubleQuotedAttribute);
            assert forall|i: int| 0 <= i < s.len() implies s[i] != '"' && s[i] != '<' && s[i] != '>' by {
                assert(!crate::escape::is_special_for(s[i], EscapeSet::DoubleQuotedAttribute));
            }
        },
        Lit::Char(c) => {
            assert forall|i: int| 0 <= i < s.len() implies s[i] != '"' && s[i] != '<' && s[i] != '>' by {
                if c == '&' || c == '<' || c == '>' || c == '"' || c == '\'' || c == '/' {
                    assert(0 <= i < 6);
                } else {
                    assert(s == seq![c]);
                }
            }
        },
        Lit::Int(d) => {
            assert forall|i: int| 0 <= i < s.len() implies s[i] != '"' && s[i] != '<' && s[i] != '>' by {
                assert(is_int_char_at(d@, i));
            }
        },
        Lit::Float(d) => {
            assert forall|i: int| 0 <= i < s.len() implies s[i] != '"' && s[i] != '<' && s[i] != '>' by {
                assert(is_float_char(d@[i]));
            }
        },
        Lit::Bool(b) => {
            assert forall|i: int| 0 <= i < s.len() implies s[i] != '"' && s[i] != '<' && s[i] != '>' by {
                if b {
                    assert(0 <= i < 4);
                } else {
                    assert(0 <= i < 5);
                }
            }
        },
        _ => {},
    }
}

} // verus!
