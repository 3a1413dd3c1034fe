use vstd::prelude::*;
use vstd::string::StringExecFns;

use crate::escape::push_char;
use crate::render::{Html, Render};

verus! {

/// The shape of a Rust expression interpolated into markup, as far as the
/// code generated for it depends on it.
#[derive(PartialEq, Eq, Structural, Clone, Copy, Debug)]
pub enum DynKind {
    /// An `if` without an `else`: renders only when its condition holds.
    IfWithoutElse,
    /// A `match`: renders the matching arm, or nothing.
    Match,
    /// A `for` loop: renders its body once per item.
    ForLoop,
    /// A nested `markup!` invocation.
    MarkupMacro,
    /// A nested `markup_part!` invocation.
    MarkupPartMacro,
    /// Any other expression: rendered through `Render`.
    Other,
}

/// A hole in the markup: the interpolated expression numbered `expr`, in
/// source order, and its shape.
#[derive(PartialEq, Eq, Structural, Clone, Copy, Debug)]
pub struct Dynamic {
    pub expr: usize,
    pub kind: DynKind,
}

/// A piece of lowered markup: static text or a hole. The flag of a hole
/// tells whether it stands in attribute-key position.
pub enum Part {
    Static(String),
    Dynamic(Dynamic, bool),
}

/// The mathematical value of a [`Part`].
pub ghost enum PartView {
    Static(Seq<char>),
    Dynamic(Dynamic, bool),
}

impl View for Part {
    type V = PartView;

    open spec fn view(&self) -> PartView {
        match self {
            Part::Static(s) => PartView::Static(s@),
            Part::Dynamic(d, attr) => PartView::Dynamic(*d, *attr),
        }
    }
}

/// Lowered markup: parts in output order.
pub struct Parts(pub Vec<Part>);

impl View for Parts {
    type V = Seq<PartView>;

    open spec fn view(&self) -> Seq<PartView> {
        self.0@.map_values(|p: Part| p@)
    }
}

/// Appends `p` to `ps`, gluing it onto the last part when both are static.
pub open spec fn push_merged(ps: Seq<PartView>, p: PartView) -> Seq<PartView> {
    if ps.len() > 0 && ps.last() is Static && p is Static {
        ps.drop_last().push(PartView::Static(ps.last()->Static_0 + p->Static_0))
    } else {
        ps.push(p)
    }
}

/// Pushes each of `qs`, in order, onto `ps` with [`push_merged`].
pub open spec fn push_all(ps: Seq<PartView>, qs: Seq<PartView>) -> Seq<PartView>
    decreases qs.len(),
{
    if qs.len() == 0 {
        ps
    } else {
        push_merged(push_all(ps, qs.drop_last()), qs.last())
    }
}

/// No two neighbouring parts are both static.
pub open spec fn no_adjacent_statics(ps: Seq<PartView>) -> bool {
    forall|i: int| 0 <= i < ps.len() - 1 ==> !(#[trigger] ps[i] is Static && ps[i + 1] is Static)
}

/// Whether the code generated for a hole writes a space before the value:
/// in attribute-key position, for an `if` without `else` and for a plain
/// expression.
pub open spec fn spec_writes_space(d: Dynamic, attr: bool) -> bool {
    attr && (d.kind == DynKind::IfWithoutElse || d.kind == DynKind::Other)
}

/// What a hole's expression rendered to, if anything: `values[expr]` when
/// there is such an entry.
pub open spec fn value_of(values: Seq<Option<Seq<char>>>, d: Dynamic) -> Option<Seq<char>> {
    if d.expr < values.len() {
        values[d.expr as int]
    } else {
        None
    }
}

/// The text one part writes, given what each hole's expression rendered to.
pub open spec fn part_output(p: PartView, values: Seq<Option<Seq<char>>>) -> Seq<char> {
    match p {
        PartView::Static(s) => s,
        PartView::Dynamic(d, attr) => match value_of(values, d) {
            Some(v) => if spec_writes_space(d, attr) {
                seq![' '] + v
            } else {
                v
            },
            None => Seq::empty(),
        },
    }
}

/// The text a sequence of parts writes.
pub open spec fn parts_output(ps: Seq<PartView>, values: Seq<Option<Seq<char>>>) -> Seq<char>
    decreases ps.len(),
{
    if ps.len() == 0 {
        Seq::empty()
    } else {
        parts_output(ps.drop_last(), values) + part_output(ps.last(), values)
    }
}

/// The views of the values handed to [`Parts::render_with`].
pub open spec fn values_view(values: Seq<Option<String>>) -> Seq<Option<Seq<char>>> {
    values.map_values(
        |o: Option<String>|
            match o {
                Some(s) => Some(s@),
                None => None,
            },
    )
}

impl Part {
    /// Whether the code generated for this part writes a space before the
    /// value of its expression.
    pub fn writes_space(&self) -> (r: bool)
        ensures
            r == match self@ {
                PartView::Dynamic(d, attr) => spec_writes_space(d, attr),
                PartView::Static(_) => false,
            },
    {
        match self {
            Part::Static(_) => false,
            Part::Dynamic(d, attr) => *attr && (match d.kind {
                DynKind::IfWithoutElse => true,
                DynKind::Other => true,
                _ => false,
            }),
        }
    }
}

impl Parts {
    /// No parts.
    pub fn new() -> (r: Parts)
        ensures
            r@ == Seq::<PartView>::empty(),
    {
        let r = Parts(Vec::new());
        assert(r@ =~= Seq::<PartView>::empty());
        r
    }

    /// Appends `part`, gluing it onto the last part when both are static
    /// text.
    pub fn push(&mut self, part: Part)
        ensures
            final(self)@ == push_merged(old(self)@, part@),
    {
        let ghost old_view = self@;
        let ghost part_view = part@;
        if let Some(prev) = self.0.pop() {
            assert(self.0@ =~= old(self).0@.drop_last());
            assert(self@ =~= old_view.drop_last());
            match (prev, part) {
                (Part::Static(prev), Part::Static(part)) => {
                    let mut merged = prev;
                    merged.append(part.as_str());
                    self.0.push(Part::Static(merged));
                    assert(self@ =~= push_merged(old_view, part_view));
                },
                (prev, part) => {
                    self.0.push(prev);
                    self.0.push(part);
                    assert(self@ =~= push_merged(old_view, part_view));
                },
            }
        } else {
            self.0.push(part);
            assert(self@ =~= push_merged(old_view, part_view));
        }
    }

    /// Writes what the code generated from these parts writes, given what
    /// the expression of each hole rendered to (`values[i]` for the
    /// expression numbered `i`; `None`, or no entry, when it rendered
    /// nothing, as an `if` whose condition failed).
    pub fn render_with(&self, values: &Vec<Option<String>>, buffer: &mut String)
        ensures
            final(buffer)@ == old(buffer)@ + parts_output(self@, values_view(values@)),
    {
        let ghost vals = values_view(values@);
        let mut i: usize = 0;
        while i < self.0.len()
            invariant
                0 <= i <= self.0.len(),
                vals == values_view(values@),
                buffer@ == old(buffer)@ + parts_output(self@.take(i as int), vals),
            decreases self.0.len() - i,
        {
            assert(self@.take(i + 1).drop_last() =~= self@.take(i as int));
            let ghost before = buffer@;
            match &self.0[i] {
                Part::Static(s) => {
                    buffer.append(s.as_str());
                },
                Part::Dynamic(d, attr) => {
                    if d.expr < values.len() {
                        match &values[d.expr] {
                            Some(v) => {
                                if self.0[i].writes_space() {
                                    push_char(buffer, ' ');
                                }
                                buffer.append(v.as_str());
                            },
                            None => {},
                        }
                    }
                },
            }
            assert(buffer@ =~= before + part_output(self@[i as int], vals));
            i = i + 1;
        }
        assert(self@.take(i as int) =~= self@);
    }
}

/// Pushing one part onto a sequence of parts adds exactly that part's
/// output: gluing static text never changes what is written.
pub proof fn lemma_push_merged_output(
    ps: Seq<PartView>,
    p: PartView,
    values: Seq<Option<Seq<char>>>,
)
    ensures
        parts_output(push_merged(ps, p), values) == parts_output(ps, values) + part_output(
            p,
            values,
        ),
{
    if ps.len() > 0 && ps.last() is Static && p is Static {
        let q = push_merged(ps, p);
        assert(q.drop_last() =~= ps.drop_last());
        assert(ps.drop_last().push(ps.last()) =~= ps);
        assert(parts_output(ps, values) == parts_output(ps.drop_last(), values) + ps.last()->Static_0);
    } else {
        assert(ps.push(p).drop_last() =~= ps);
    }
}

/// Pushing a sequence of parts writes the same text as writing them one
/// after the other: the lowering's gluing of static text is invisible.
pub proof fn lemma_push_all_output(
    ps: Seq<PartView>,
    qs: Seq<PartView>,
    values: Seq<Option<Seq<char>>>,
)
    ensures
        parts_output(push_all(ps, qs), values) == parts_output(ps, values) + parts_output(
            qs,
            values,
        ),
    decreases qs.len(),
{
    if qs.len() == 0 {
        assert(parts_output(ps, values) + Seq::<char>::empty() =~= parts_output(ps, values));
    } else {
        lemma_push_all_output(ps, qs.drop_last(), values);
        lemma_push_merged_output(push_all(ps, qs.drop_last()), qs.last(), values);
        assert(parts_output(ps, values) + parts_output(qs.drop_last(), values) + part_output(
            qs.last(),
            values,
        ) =~= parts_output(ps, values) + (parts_output(qs.drop_last(), values) + part_output(
            qs.last(),
            values,
        )));
    }
}

/// Pushing keeps the parts free of neighbouring static texts.
pub proof fn lemma_push_merged_no_adjacent(ps: Seq<PartView>, p: PartView)
    requires
        no_adjacent_statics(ps),
    ensures
        no_adjacent_statics(push_merged(ps, p)),
{
    let q = push_merged(ps, p);
    assert forall|i: int| 0 <= i < q.len() - 1 implies !(#[trigger] q[i] is Static
        && q[i + 1] is Static) by {
        if ps.len() > 0 && ps.last() is Static && p is Static {
            assert(q[i] == ps[i]);
            assert(q[i + 1] == ps[i + 1] || i + 1 == ps.len() - 1);
            if i + 1 == ps.len() - 1 {
                assert(!(ps[i] is Static && ps[i + 1] is Static));
            }
        } else {
            assert(q[i] == ps[i]);
            if i + 1 < ps.len() {
                assert(q[i + 1] == ps[i + 1]);
            }
        }
    }
}

/// Pushing a sequence of parts keeps them free of neighbouring static
/// texts.
pub proof fn lemma_push_all_no_adjacent(ps: Seq<PartView>, qs: Seq<PartView>)
    requires
        no_adjacent_statics(ps),
    ensures
        no_adjacent_statics(push_all(ps, qs)),
    decreases qs.len(),
{
    if qs.len() > 0 {
        lemma_push_all_no_adjacent(ps, qs.drop_last());
        lemma_push_merged_no_adjacent(push_all(ps, qs.drop_last()), qs.last());
    }
}

/// Pushing `qs` and then `rs` is pushing `qs + rs`.
pub proof fn lemma_push_all_concat(ps: Seq<PartView>, qs: Seq<PartView>, rs: Seq<PartView>)
    ensures
        push_all(ps, qs + rs) == push_all(push_all(ps, qs), rs),
    decreases rs.len(),
{
    if rs.len() == 0 {
        assert(qs + rs =~= qs);
    } else {
        lemma_push_all_concat(ps, qs, rs.drop_last());
        assert((qs + rs).drop_last() =~= qs + rs.drop_last());
        assert((qs + rs).last() == rs.last());
    }
}

impl Parts {
    /// The HTML that the code generated from these parts writes, given what
    /// the expression of each hole rendered to.
    pub fn to_html(&self, values: &Vec<Option<String>>) -> (r: Html)
        ensures
            r.0@ == parts_output(self@, values_view(values@)),
    {
        let mut buffer = String::new();
        self.render_with(values, &mut buffer);
        assert(buffer@ =~= parts_output(self@, values_view(values@)));
        Html(buffer)
    }
}

/// A piece of markup interpolated into other markup writes its HTML there:
/// a hole whose expression rendered a stored `Html` writes that HTML, as
/// is.
pub proof fn lemma_nested_markup_output(
    d: Dynamic,
    inner: Html,
    values: Seq<Option<Seq<char>>>,
)
    requires
        value_of(values, d) == Some(inner.rendered()),
    ensures
        part_output(PartView::Dynamic(d, false), values) == inner.0@,
{
}

} // verus!
