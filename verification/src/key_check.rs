use vstd::prelude::*;

use crate::attr_key::{is_valid_attr_key, valid_attr_key};
use crate::markup::AttributeKey;

verus! {

/// The parts of a parenthesised attribute-key expression that the key
/// check reads. `at` numbers a source location, for error reporting.
pub enum KeyExpr {
    /// A string literal.
    Str { value: String, at: usize },
    /// A block, with its trailing expression statement if it has one.
    Block(Option<Box<KeyExpr>>),
    /// An `if`: the trailing expression of its then-branch, if any, and
    /// its `else` branch, if any.
    If(Option<Box<KeyExpr>>, Option<Box<KeyExpr>>),
    /// A `match`: the body of each arm.
    Match(Vec<KeyExpr>),
    /// Any other expression.
    Unsupported { at: usize },
}

/// Why an attribute key was refused.
pub enum AttrKeyError {
    /// A string literal that is not a valid attribute key.
    Invalid { value: String, at: usize },
    /// An expression of a kind that cannot be checked.
    Unsupported { at: usize },
}

/// The mathematical value of an [`AttrKeyError`].
pub ghost enum KeyErrorView {
    Invalid(Seq<char>, usize),
    Unsupported(usize),
}

impl View for AttrKeyError {
    type V = KeyErrorView;

    open spec fn view(&self) -> KeyErrorView {
        match self {
            AttrKeyError::Invalid { value, at } => KeyErrorView::Invalid(value@, *at),
            AttrKeyError::Unsupported { at } => KeyErrorView::Unsupported(*at),
        }
    }
}

/// The error a result carries, if any.
pub open spec fn key_result_error(r: Result<(), AttrKeyError>) -> Option<KeyErrorView> {
    match r {
        Ok(_) => None,
        Err(e) => Some(e@),
    }
}

/// The first refusal met when walking a key expression: string literals
/// that are not valid keys, and expressions of any kind but string
/// literals, blocks, `if` and `match`; blocks and branches are checked
/// through their trailing expression, `if` then-branch first, `match` arms
/// in order.
pub open spec fn key_expr_error(e: KeyExpr) -> Option<KeyErrorView>
    decreases e,
{
    match e {
        KeyExpr::Str { value, at } => if valid_attr_key(value@) {
            None
        } else {
            Some(KeyErrorView::Invalid(value@, at))
        },
        KeyExpr::Block(last) => match last {
            Some(b) => key_expr_error(*b),
            None => None,
        },
        KeyExpr::If(then, otherwise) => {
            let first = match then {
                Some(b) => key_expr_error(*b),
                None => None,
            };
            match first {
                Some(err) => Some(err),
                None => match otherwise {
                    Some(b) => key_expr_error(*b),
                    None => None,
                },
            }
        },
        KeyExpr::Match(arms) => arms_error(arms@),
        KeyExpr::Unsupported { at } => Some(KeyErrorView::Unsupported(at)),
    }
}

/// The first refusal among `match` arms, in order.
pub open spec fn arms_error(arms: Seq<KeyExpr>) -> Option<KeyErrorView>
    decreases arms,
{
    if arms.len() == 0 {
        None
    } else {
        match arms_error(arms.subrange(0, arms.len() - 1)) {
            Some(err) => Some(err),
            None => key_expr_error(arms[arms.len() - 1]),
        }
    }
}

/// Checks an optional boxed key expression.
fn check_opt_key_expr(e: &Option<Box<KeyExpr>>) -> (r: Result<(), AttrKeyError>)
    ensures
        key_result_error(r) == match *e {
            Some(b) => key_expr_error(*b),
            None => None,
        },
    decreases e,
{
    match e {
        Some(b) => check_key_expr(b),
        None => Ok(()),
    }
}

/// Checks a parenthesised attribute-key expression: every string literal
/// that it can evaluate to must be a valid key, and it must be built only
/// of string literals, blocks, `if` and `match`. Gives the first refusal.
pub fn check_key_expr(e: &KeyExpr) -> (r: Result<(), AttrKeyError>)
    ensures
        key_result_error(r) == key_expr_error(*e),
    decreases e,
{
    match e {
        KeyExpr::Str { value, at } => {
            if is_valid_attr_key(value.as_str()) {
                Ok(())
            } else {
                Err(AttrKeyError::Invalid { value: value.clone(), at: *at })
            }
        },
        KeyExpr::Block(last) => check_opt_key_expr(last),
        KeyExpr::If(then, otherwise) => {
            match check_opt_key_expr(then) {
                Err(err) => Err(err),
                Ok(()) => check_opt_key_expr(otherwise),
            }
        },
        KeyExpr::Match(arms) => {
            let mut i: usize = 0;
            while i < arms.len()
                invariant
                    0 <= i <= arms.len(),
                arms_error(arms@.take(i as int)) == None::<KeyErrorView>,
                    *e == KeyExpr::Match(*arms),
                decreases arms.len() - i,
            {
                let ghost front = arms@.take(i + 1);
                assert(front.subrange(0, front.len() - 1) =~= arms@.take(i as int));
                assert(decreases_to!(e => arms@[i as int]));
                match check_key_expr(&arms[i]) {
                    Err(err) => {
                        assert(arms_error(front) == key_expr_error(arms@[i as int]));
                        proof {
                            lemma_arms_error_prefix(arms@, (i + 1) as int);
                        }
                        return Err(err);
                    },
                    Ok(()) => {},
                }
                i = i + 1;
            }
            assert(arms@.take(i as int) =~= arms@);
            Ok(())
        },
        KeyExpr::Unsupported { at } => Err(AttrKeyError::Unsupported { at: *at }),
    }
}

/// A refusal in a prefix of the arms is the refusal of all of them.
proof fn lemma_arms_error_prefix(arms: Seq<KeyExpr>, n: int)
    requires
        0 <= n <= arms.len(),
        arms_error(arms.take(n)) is Some,
    ensures
        arms_error(arms) == arms_error(arms.take(n)),
    decreases arms.len() - n,
{
    if n < arms.len() {
        let next = arms.take(n + 1);
        assert(next.subrange(0, next.len() - 1) =~= arms.take(n));
        lemma_arms_error_prefix(arms, n + 1);
    } else {
        assert(arms.take(n) =~= arms);
    }
}

impl AttributeKey {
    /// A key written as a string literal: refused when it is not a valid
    /// attribute key.
    pub fn from_lit(value: String, at: usize) -> (r: Result<AttributeKey, AttrKeyError>)
        ensures
            match r {
                Ok(AttributeKey::Lit(s)) => valid_attr_key(value@) && s@ == value@,
                Ok(_) => false,
                Err(e) => !valid_attr_key(value@) && e@ == KeyErrorView::Invalid(value@, at),
            },
    {
        if is_valid_attr_key(value.as_str()) {
            Ok(AttributeKey::Lit(value))
        } else {
            Err(AttrKeyError::Invalid { value, at })
        }
    }
}

impl AttrKeyError {
    /// The message reported for this refusal.
    pub fn message(&self) -> (r: &'static str)
        ensures
            r@ == match self@ {
                KeyErrorView::Invalid(_, _) => "attribute keys must start with alphanumeric, `_`, or `:` and only contain those tokens; `-` or `.`"@,
                KeyErrorView::Unsupported(_) => "unsupported attribute key expression"@,
            },
    {
        match self {
            AttrKeyError::Invalid { .. } => "attribute keys must start with alphanumeric, `_`, or `:` and only contain those tokens; `-` or `.`",
            AttrKeyError::Unsupported { .. } => "unsupported attribute key expression",
        }
    }
}

} // verus!
