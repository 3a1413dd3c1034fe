use std::borrow::Cow;
use std::rc::Rc;
use std::sync::Arc;
use vstd::prelude::*;
use vstd::string::StringExecFns;

use crate::escape::{
    decimal, escape_char, escaped, push_char, push_decimal, push_encoded_safe,
    push_signed_decimal, signed_decimal, EscapeSet,
};

verus! {

/// A value that can be written into markup.
///
/// The `markup!` front end writes each interpolated value with
/// [`Render::render_to`]. Implementing the trait for a type lets its values
/// be interpolated.
pub trait Render {
    /// The text that rendering `self` writes.
    spec fn rendered(&self) -> Seq<char>;

    /// Appends the rendering of `self` to `buffer`, leaving what the buffer
    /// held before untouched.
    fn render_to(&self, buffer: &mut String)
        ensures
            final(buffer)@ == old(buffer)@ + self.rendered(),
    ;

    /// Renders `self` into a new string: the same text that `render_to`
    /// appends.
    fn render(&self) -> (r: String)
        ensures
            r@ == self.rendered(),
    {
        let mut buffer = String::new();
        self.render_to(&mut buffer);
        assert(buffer@ =~= self.rendered());
        buffer
    }
}

/// The literal `true` or `false`.
pub open spec fn bool_text(b: bool) -> Seq<char> {
    if b {
        seq!['t', 'r', 'u', 'e']
    } else {
        seq!['f', 'a', 'l', 's', 'e']
    }
}

/// Appends `true` or `false`.
pub(crate) fn push_bool(buffer: &mut String, b: bool)
    ensures
        final(buffer)@ == old(buffer)@ + bool_text(b),
{
    if b {
        buffer.append("true");
        proof {
            reveal_strlit("true");
        }
    } else {
        buffer.append("false");
        proof {
            reveal_strlit("false");
        }
    }
    assert(final(buffer)@ =~= old(buffer)@ + bool_text(b));
}

/// Appends one character escaped as by `html_escape::encode_safe`: the six
/// characters `&<>"'/` as entities, any other as itself.
pub(crate) fn push_escaped_char(buffer: &mut String, c: char)
    ensures
        final(buffer)@ == old(buffer)@ + escape_char(c, EscapeSet::Safe),
{
    if c == '&' {
        buffer.append("&amp;");
        proof {
            reveal_strlit("&amp;");
        }
    } else if c == '<' {
        buffer.append("&lt;");
        proof {
            reveal_strlit("&lt;");
        }
    } else if c == '>' {
        buffer.append("&gt;");
        proof {
            reveal_strlit("&gt;");
        }
    } else if c == '"' {
        buffer.append("&quot;");
        proof {
            reveal_strlit("&quot;");
        }
    } else if c == '\'' {
        buffer.append("&#x27;");
        proof {
            reveal_strlit("&#x27;");
        }
    } else if c == '/' {
        buffer.append("&#x2F;");
        proof {
            reveal_strlit("&#x2F;");
        }
    } else {
        push_char(buffer, c);
    }
    assert(final(buffer)@ =~= old(buffer)@ + escape_char(c, EscapeSet::Safe));
}

impl Render for bool {
    open spec fn rendered(&self) -> Seq<char> {
        bool_text(*self)
    }

    fn render_to(&self, buffer: &mut String) {
        push_bool(buffer, *self);
    }
}

impl Render for char {
    open spec fn rendered(&self) -> Seq<char> {
        escape_char(*self, EscapeSet::Safe)
    }

    fn render_to(&self, buffer: &mut String) {
        push_escaped_char(buffer, *self);
    }
}

impl Render for str {
    open spec fn rendered(&self) -> Seq<char> {
        escaped(self@, EscapeSet::Safe)
    }

    fn render_to(&self, buffer: &mut String) {
        push_encoded_safe(self, buffer);
    }
}

impl<'a> Render for &'a str {
    open spec fn rendered(&self) -> Seq<char> {
        escaped((*self)@, EscapeSet::Safe)
    }

    fn render_to(&self, buffer: &mut String) {
        str::render_to(*self, buffer);
    }
}

impl Render for String {
    open spec fn rendered(&self) -> Seq<char> {
        escaped(self@, EscapeSet::Safe)
    }

    fn render_to(&self, buffer: &mut String) {
        self.as_str().render_to(buffer);
    }
}

impl<'a> Render for Cow<'a, str> {
    open spec fn rendered(&self) -> Seq<char> {
        escaped(self@, EscapeSet::Safe)
    }

    fn render_to(&self, buffer: &mut String) {
        match self {
            Cow::Borrowed(s) => s.render_to(buffer),
            Cow::Owned(s) => s.render_to(buffer),
        }
    }
}

impl<T: Render> Render for Option<T> {
    open spec fn rendered(&self) -> Seq<char> {
        match self {
            Some(t) => t.rendered(),
            None => Seq::empty(),
        }
    }

    fn render_to(&self, buffer: &mut String) {
        if let Some(t) = self {
            t.render_to(buffer);
        } else {
            assert(final(buffer)@ =~= old(buffer)@ + self.rendered());
        }
    }
}

impl<T: Render> Render for Arc<T> {
    open spec fn rendered(&self) -> Seq<char> {
        (**self).rendered()
    }

    fn render_to(&self, buffer: &mut String) {
        T::render_to(self, buffer);
    }
}

impl<T: Render> Render for Rc<T> {
    open spec fn rendered(&self) -> Seq<char> {
        (**self).rendered()
    }

    fn render_to(&self, buffer: &mut String) {
        T::render_to(self, buffer);
    }
}

impl Render for u8 {
    open spec fn rendered(&self) -> Seq<char> {
        decimal(*self as nat)
    }

    fn render_to(&self, buffer: &mut String) {
        push_decimal(buffer, *self as u128);
    }
}

impl Render for i8 {
    open spec fn rendered(&self) -> Seq<char> {
        signed_decimal(*self as int)
    }

    fn render_to(&self, buffer: &mut String) {
        push_signed_decimal(buffer, *self as i128);
    }
}

impl Render for u16 {
    open spec fn rendered(&self) -> Seq<char> {
        decimal(*self as nat)
    }

    fn render_to(&self, buffer: &mut String) {
        push_decimal(buffer, *self as u128);
    }
}

impl Render for u32 {
    open spec fn rendered(&self) -> Seq<char> {
        decimal(*self as nat)
    }

    fn render_to(&self, buffer: &mut String) {
        push_decimal(buffer, *self as u128);
    }
}

impl Render for u64 {
    open spec fn rendered(&self) -> Seq<char> {
        decimal(*self as nat)
    }

    fn render_to(&self, buffer: &mut String) {
        push_decimal(buffer, *self as u128);
    }
}

impl Render for u128 {
    open spec fn rendered(&self) -> Seq<char> {
        decimal(*self as nat)
    }

    fn render_to(&self, buffer: &mut String) {
        push_decimal(buffer, *self as u128);
    }
}

impl Render for usize {
    open spec fn rendered(&self) -> Seq<char> {
        decimal(*self as nat)
    }

    fn render_to(&self, buffer: &mut String) {
        push_decimal(buffer, *self as u128);
    }
}

impl Render for i16 {
    open spec fn rendered(&self) -> Seq<char> {
        signed_decimal(*self as int)
    }

    fn render_to(&self, buffer: &mut String) {
        push_signed_decimal(buffer, *self as i128);
    }
}

impl Render for i32 {
    open spec fn rendered(&self) -> Seq<char> {
        signed_decimal(*self as int)
    }

    fn render_to(&self, buffer: &mut String) {
        push_signed_decimal(buffer, *self as i128);
    }
}

impl Render for i64 {
    open spec fn rendered(&self) -> Seq<char> {
        signed_decimal(*self as int)
    }

    fn render_to(&self, buffer: &mut String) {
        push_signed_decimal(buffer, *self as i128);
    }
}

impl Render for i128 {
    open spec fn rendered(&self) -> Seq<char> {
        signed_decimal(*self as int)
    }

    fn render_to(&self, buffer: &mut String) {
        push_signed_decimal(buffer, *self as i128);
    }
}

impl Render for isize {
    open spec fn rendered(&self) -> Seq<char> {
        signed_decimal(*self as int)
    }

    fn render_to(&self, buffer: &mut String) {
        push_signed_decimal(buffer, *self as i128);
    }
}


/// Markup written out as HTML. Rendering it writes its text as it is,
/// without escaping, so a stored piece of markup can be rendered on its own
/// or interpolated into other markup.
pub struct Html(pub String);

impl Render for Html {
    open spec fn rendered(&self) -> Seq<char> {
        self.0@
    }

    fn render_to(&self, buffer: &mut String) {
        buffer.append(self.0.as_str());
    }
}

/// The literal `<!DOCTYPE html>` element.
pub open spec fn doctype_text() -> Seq<char> {
    seq!['<', '!', 'D', 'O', 'C', 'T', 'Y', 'P', 'E', ' ', 'h', 't', 'm', 'l', '>']
}

/// Appends the literal `<!DOCTYPE html>` element.
pub fn doctype(buffer: &mut String)
    ensures
        final(buffer)@ == old(buffer)@ + doctype_text(),
{
    buffer.append("<!DOCTYPE html>");
    proof {
        reveal_strlit("<!DOCTYPE html>");
    }
    assert(final(buffer)@ =~= old(buffer)@ + doctype_text());
}

} // verus!
