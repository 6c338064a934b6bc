use iced_web::css::{alignment, length, max_length, padding, write_decimal};
use iced_web::{Alignment, Css, Length, Padding, Rule};

#[test]
fn repeated_insert_keeps_one_identifier() {
    let mut sheet = Css::new();
    let a = sheet.insert(Rule::Spacing(8));
    let b = sheet.insert(Rule::Spacing(8));
    let c = sheet.insert(Rule::Spacing(8));
    assert_eq!(a, "c0");
    assert_eq!(a, b);
    assert_eq!(b, c);
    assert_eq!(sheet.len(), 1);
    assert_eq!(sheet.rules(), &vec![Rule::Spacing(8)]);
}

#[test]
fn distinct_rules_get_distinct_identifiers() {
    let mut sheet = Css::new();
    let row = sheet.insert(Rule::Row);
    let s8 = sheet.insert(Rule::Spacing(8));
    let s0 = sheet.insert(Rule::Spacing(0));
    assert_eq!(row, "c0");
    assert_eq!(s8, "c1");
    assert_eq!(s0, "c2");
    assert_ne!(row, s8);
    assert_ne!(s8, s0);
    assert_eq!(sheet.insert(Rule::Row), "c0");
    assert_eq!(sheet.len(), 3);
}

#[test]
fn identifiers_count_past_nine() {
    let mut sheet = Css::new();
    let mut last = String::new();
    for n in 0..12u16 {
        last = sheet.insert(Rule::Spacing(n));
    }
    assert_eq!(last, "c11");
    assert_eq!(Css::class(10), "c10");
    assert_eq!(sheet.insert(Rule::Spacing(10)), "c10");
}

#[test]
fn decimal_text() {
    let mut s = String::from("x");
    write_decimal(&mut s, 0);
    assert_eq!(s, "x0");
    let mut s = String::new();
    write_decimal(&mut s, 1234567890);
    assert_eq!(s, "1234567890");
    let mut s = String::new();
    write_decimal(&mut s, u64::MAX);
    assert_eq!(s, "18446744073709551615");
}

#[test]
fn length_text() {
    assert_eq!(length(Length::Fill), "100%");
    assert_eq!(length(Length::Shrink), "auto");
    assert_eq!(length(Length::Units(12)), "12px");
    assert_eq!(length(Length::Units(0)), "0px");
}

#[test]
fn max_length_text() {
    assert_eq!(max_length(u32::MAX), "none");
    assert_eq!(max_length(300), "300px");
    assert_eq!(max_length(u32::MAX - 1), "4294967294px");
}

#[test]
fn padding_text() {
    let p = Padding { top: 1, right: 2, bottom: 3, left: 40 };
    assert_eq!(padding(p), "1px 2px 3px 40px");
    assert_eq!(padding(Padding::zero()), "0px 0px 0px 0px");
}

#[test]
fn alignment_text() {
    assert_eq!(alignment(Alignment::Start), "flex-start");
    assert_eq!(alignment(Alignment::Center), "center");
    assert_eq!(alignment(Alignment::End), "flex-end");
}

#[test]
fn padding_shorthands() {
    assert_eq!(Padding::new(5), Padding { top: 5, right: 5, bottom: 5, left: 5 });
    assert_eq!(Padding::from(7), Padding { top: 7, right: 7, bottom: 7, left: 7 });
    assert_eq!(Padding::from([1, 2]), Padding { top: 1, right: 2, bottom: 1, left: 2 });
    assert_eq!(Padding::from([1, 2, 3, 4]), Padding { top: 1, right: 2, bottom: 3, left: 4 });
}
