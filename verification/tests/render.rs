use collage::{doctype, Render};
use std::borrow::Cow;
use std::rc::Rc;
use std::sync::Arc;

#[test]
fn render_bool() {
    assert_eq!(true.render(), "true");
    assert_eq!(false.render(), "false");
}

#[test]
fn render_char() {
    assert_eq!('&'.render(), "&amp;");
    assert_eq!('<'.render(), "&lt;");
    assert_eq!('>'.render(), "&gt;");
    assert_eq!('"'.render(), "&quot;");
    assert_eq!('\''.render(), "&#x27;");
    assert_eq!('/'.render(), "&#x2F;");
    assert_eq!('c'.render(), "c");
    assert_eq!('é'.render(), "é");
}

#[test]
fn render_strings() {
    let s = r#"&<>"'/ ok"#;
    let expected = "&amp;&lt;&gt;&quot;&#x27;&#x2F; ok";
    assert_eq!(s.render(), expected);
    assert_eq!(String::from(s).render(), expected);
    assert_eq!(Cow::Borrowed(s).render(), expected);
    let owned: Cow<str> = Cow::Owned(String::from(s));
    assert_eq!(owned.render(), expected);
    assert_eq!("plain".render(), "plain");
}

#[test]
fn render_to_appends() {
    let mut buffer = String::from("<p>");
    "a<b".render_to(&mut buffer);
    42u8.render_to(&mut buffer);
    assert_eq!(buffer, "<p>a&lt;b42");
}

#[test]
fn render_integers() {
    assert_eq!(0u8.render(), "0");
    assert_eq!(255u8.render(), "255");
    assert_eq!(u128::MAX.render(), "340282366920938463463374607431768211455");
    assert_eq!((-1i8).render(), "-1");
    assert_eq!(i8::MIN.render(), "-128");
    assert_eq!(i128::MIN.render(), "-170141183460469231731687303715884105728");
    assert_eq!(1234567usize.render(), "1234567");
    assert_eq!((-42isize).render(), "-42");
    assert_eq!(65535u16.render(), "65535");
    assert_eq!((-7i16).render(), "-7");
    assert_eq!(4000000000u32.render(), "4000000000");
    assert_eq!(i32::MIN.render(), "-2147483648");
    assert_eq!(u64::MAX.render(), "18446744073709551615");
    assert_eq!(i64::MIN.render(), "-9223372036854775808");
}

#[test]
fn render_option_and_pointers() {
    assert_eq!(Some("<").render(), "&lt;");
    assert_eq!(None::<&str>.render(), "");
    assert_eq!(Arc::new(5u32).render(), "5");
    assert_eq!(Rc::new('>').render(), "&gt;");
}

#[test]
fn doctype_literal() {
    let mut buffer = String::from("x");
    doctype(&mut buffer);
    assert_eq!(buffer, "x<!DOCTYPE html>");
}
