//! A template engine for HTML and similar markup languages.
//!
//! The crate holds the checked core of the engine: HTML escaping, the
//! `Render` trait and its impls for the standard value types and for
//! written-out markup (`Html`), the reading of `markup!` tokens into a
//! markup tree, and the lowering of that tree into a sequence of static
//! text and dynamic holes.
pub use html_escape;

mod attr_key;

pub use attr_key::{
    attr_key_name, first_eq_from, key_char_fits, is_alphanumeric_char, is_key_char, is_key_start_char,
    is_valid_attr_key, lemma_valid_attr_key_ignores_value, valid_attr_key,
};
mod escape;

pub use escape::{
    decimal, digit_char, escape_char, escaped, lemma_escaped_concat, lemma_escaped_plain,
    signed_decimal, utf8_lossy, EscapeSet, is_special_for, lemma_escaped_has_no_special,
    decode_entities, lemma_decode_escaped_safe,
};
mod render;

pub use render::{bool_text, doctype, doctype_text, Html, Render};
mod parts;

pub use parts::{
    lemma_push_all_concat, lemma_push_all_no_adjacent, lemma_push_all_output,
    lemma_nested_markup_output, lemma_push_merged_no_adjacent, lemma_push_merged_output, no_adjacent_statics, part_output,
    parts_output, push_all, push_merged, spec_writes_space, value_of, values_view, DynKind,
    Dynamic, Part, PartView, Parts,
};
mod markup;

pub use markup::{
    attr_lit_text, attribute_pushes, attribute_wf, attributes_pushes, attributes_wf,
    element_pushes, element_wf, elements_pushes, elements_wf, is_void, is_void_tag, join_sep,
    key_pushes, lemma_attr_lit_text_safe, int_digits, is_int_char_at, float_digits, is_float_char, lemma_container_output, lemma_elements_wf_index, lemma_markup_output,
    lemma_parts_output_concat, lemma_void_output, lit_supported, lit_text, string_views,
    val_pushes, Attribute, AttributeKey,
    AttributeVal, Attributes, Element, Lit, Markup,
};
mod key_check;

pub use key_check::{
    arms_error, check_key_expr, key_expr_error, key_result_error, AttrKeyError, KeyErrorView,
    KeyExpr,
};
mod macro_path;

pub use macro_path::{is_markup, is_markup_part, names_macro, needs_fallback_arm, MacroPath};
mod parse;

pub use parse::{
    attr_view, attrs_view, element_view, elements_view, is_bool_ident, is_key_start,
    is_punct_at, key_view, lit_view, place_at, spec_attr, spec_attrs, spec_element,
    spec_ident_run, spec_key, spec_markup, spec_parse_markup, spec_val, val_view, AttrView,
    ElementView, KeyView, LitView, MarkupError, MarkupErrorView, Token, ValView, parse_markup,
    key_result_view, val_result_view, attr_result_view, attrs_result_view,
    element_result_view, markup_result_view, is_negative_lit_at, lemma_lit_supported_view,
    lit_view_supported, neg_lit_view, spec_negative_lit,
};
mod print;

pub use print::{
    lemma_read_written, print_attrs, print_element, print_elements,
    print_idents, print_key, print_val, readable_attrs, readable_element, readable_elements,
    run_ends_at, token_view, tokens_at, tokens_view, TokenView,
};
mod laws;

pub use laws::{
    digits_value, is_html_void_element, lemma_decimal_faithful, lemma_hole_writes_its_value,
    lemma_integers_render_their_value, lemma_literal_text, lemma_match_key_checks_every_arm,
    lemma_match_key_refuses_invalid_arm, lemma_signed_decimal_faithful,
    lemma_void_element_reads, lemma_void_tags_are_html_void_elements,
};
