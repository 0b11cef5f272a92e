use ra_hir::add_derive::add_derive;
use ra_hir::auto_import::auto_import;
use ra_hir::flip_comma::flip_comma;
use ra_hir::text_edit::{AssistAction, AtomEdit, TextEdit};

const CURSOR: &str = "<|>";

fn extract_offset(text: &str) -> (usize, String) {
    let offset = text.find(CURSOR).expect("the text holds a cursor");
    let mut rest = String::new();
    rest.push_str(&text[..offset]);
    rest.push_str(&text[offset + CURSOR.len()..]);
    (offset, rest)
}

fn add_cursor(text: &str, offset: usize) -> String {
    let mut res = String::new();
    res.push_str(&text[..offset]);
    res.push_str(CURSOR);
    res.push_str(&text[offset..]);
    res
}

fn check_assist(assist: fn(&str, usize) -> Option<AssistAction>, before: &str, after: &str) {
    let (before_cursor_pos, before) = extract_offset(before);
    let action = assist(&before, before_cursor_pos).expect("code action is not applicable");
    let chars: Vec<char> = before.chars().collect();
    let actual: String = action.edit.apply(&chars).into_iter().collect();
    let actual_cursor_pos = match action.cursor_position {
        None => action.edit.apply_to_offset(before_cursor_pos).expect("cursor position is affected by the edit"),
        Some(off) => off,
    };
    let actual = add_cursor(&actual, actual_cursor_pos);
    assert_eq!(after, actual);
}

fn check_assist_not_applicable(assist: fn(&str, usize) -> Option<AssistAction>, before: &str) {
    let (before_cursor_pos, before) = extract_offset(before);
    assert!(assist(&before, before_cursor_pos).is_none());
}

fn check_assist_target(assist: fn(&str, usize) -> Option<AssistAction>, before: &str, target: &str) {
    let (before_cursor_pos, before) = extract_offset(before);
    let action = assist(&before, before_cursor_pos).expect("code action is not applicable");
    let (start, end) = action.target.expect("expected target on action");
    let chars: Vec<char> = before.chars().collect();
    let actual: String = chars[start..end].iter().collect();
    assert_eq!(actual, target);
}

    #[test]
    fn add_derive_new() {
        check_assist(
            add_derive,
            "struct Foo { a: i32, <|>}",
            "#[derive(<|>)]\nstruct Foo { a: i32, }",
        );
        check_assist(
            add_derive,
            "struct Foo { <|> a: i32, }",
            "#[derive(<|>)]\nstruct Foo {  a: i32, }",
        );
    }

    #[test]
    fn add_derive_existing() {
        check_assist(
            add_derive,
            "#[derive(Clone)]\nstruct Foo { a: i32<|>, }",
            "#[derive(Clone<|>)]\nstruct Foo { a: i32, }",
        );
    }

    #[test]
    fn add_derive_new_with_doc_comment() {
        check_assist(
            add_derive,
            "
/// `Foo` is a pretty important struct.
/// It does stuff.
struct Foo { a: i32<|>, }
            ",
            "
/// `Foo` is a pretty important struct.
/// It does stuff.
#[derive(<|>)]
struct Foo { a: i32, }
            ",
        );
    }

    #[test]
    fn add_derive_target() {
        check_assist_target(
            add_derive,
            "
struct SomeThingIrrelevant;
/// `Foo` is a pretty important struct.
/// It does stuff.
struct Foo { a: i32<|>, }
struct EvenMoreIrrelevant;
            ",
            "/// `Foo` is a pretty important struct.
/// It does stuff.
struct Foo { a: i32, }",
        );
    }

    #[test]
    fn test_auto_import_file_add_use_no_anchor() {
        check_assist(
            auto_import,
            "
std::fmt::Debug<|>
    ",
            "
use std::fmt::Debug;

Debug<|>
    ",
        );
    }

    #[test]
    fn test_auto_import_file_add_use() {
        check_assist(
            auto_import,
            "
use stdx;

impl std::fmt::Debug<|> for Foo {
}
    ",
            "
use stdx;
use std::fmt::Debug;

impl Debug<|> for Foo {
}
    ",
        );
    }

    #[test]
    fn test_auto_import_file_add_use_other_anchor() {
        check_assist(
            auto_import,
            "
impl std::fmt::Debug<|> for Foo {
}
    ",
            "
use std::fmt::Debug;

impl Debug<|> for Foo {
}
    ",
        );
    }

    #[test]
    fn test_auto_import_file_add_use_other_anchor_indent() {
        check_assist(
            auto_import,
            "
    impl std::fmt::Debug<|> for Foo {
    }
    ",
            "
    use std::fmt::Debug;

    impl Debug<|> for Foo {
    }
    ",
        );
    }

    #[test]
    fn test_auto_import_file_split_different() {
        check_assist(
            auto_import,
            "
use std::fmt;

impl std::io<|> for Foo {
}
    ",
            "
use std::{ io, fmt};

impl io<|> for Foo {
}
    ",
        );
    }

    #[test]
    fn test_auto_import_file_split_self_for_use() {
        check_assist(
            auto_import,
            "
use std::fmt;

impl std::fmt::Debug<|> for Foo {
}
    ",
            "
use std::fmt::{ self, Debug, };

impl Debug<|> for Foo {
}
    ",
        );
    }

    #[test]
    fn test_auto_import_file_split_self_for_target() {
        check_assist(
            auto_import,
            "
use std::fmt::Debug;

impl std::fmt<|> for Foo {
}
    ",
            "
use std::fmt::{ self, Debug};

impl fmt<|> for Foo {
}
    ",
        );
    }

    #[test]
    fn test_auto_import_file_add_to_nested_self_nested() {
        check_assist(
            auto_import,
            "
use std::fmt::{Debug, nested::{Display}};

impl std::fmt::nested<|> for Foo {
}
",
            "
use std::fmt::{Debug, nested::{Display, self}};

impl nested<|> for Foo {
}
",
        );
    }

    #[test]
    fn test_auto_import_file_add_to_nested_self_already_included() {
        check_assist(
            auto_import,
            "
use std::fmt::{Debug, nested::{self, Display}};

impl std::fmt::nested<|> for Foo {
}
",
            "
use std::fmt::{Debug, nested::{self, Display}};

impl nested<|> for Foo {
}
",
        );
    }

    #[test]
    fn test_auto_import_file_add_to_nested_nested() {
        check_assist(
            auto_import,
            "
use std::fmt::{Debug, nested::{Display}};

impl std::fmt::nested::Debug<|> for Foo {
}
",
            "
use std::fmt::{Debug, nested::{Display, Debug}};

impl Debug<|> for Foo {
}
",
        );
    }

    #[test]
    fn test_auto_import_file_alias() {
        check_assist(
            auto_import,
            "
use std::fmt as foo;

impl foo::Debug<|> for Foo {
}
",
            "
use std::fmt as foo;

impl Debug<|> for Foo {
}
",
        );
    }

    #[test]
    fn test_auto_import_not_applicable_one_segment() {
        check_assist_not_applicable(
            auto_import,
            "
impl foo<|> for Foo {
}
",
        );
    }

    #[test]
    fn flip_comma_works_for_function_parameters() {
        check_assist(
            flip_comma,
            "fn foo(x: i32,<|> y: Result<(), ()>) {}",
            "fn foo(y: Result<(), ()>,<|> x: i32) {}",
        )
    }

    #[test]
    fn flip_comma_target() {
        check_assist_target(flip_comma, "fn foo(x: i32,<|> y: Result<(), ()>) {}", ",")
    }

#[test]
fn text_edit_applies_in_order_and_moves_offsets() {
    let text: Vec<char> = "abcdef".chars().collect();
    let edit = TextEdit::from_atoms(
        vec![AtomEdit::delete(4, 6), AtomEdit::insert(1, "XY".chars().collect()), AtomEdit::delete(2, 3)],
        text.len(),
    );
    let starts: Vec<usize> = edit.atoms.iter().map(|a| a.delete_start).collect();
    assert_eq!(starts, vec![1, 2, 4]);
    let out: String = edit.apply(&text).into_iter().collect();
    assert_eq!(out, "aXYbd");
    assert_eq!(edit.apply_to_offset(0), Some(0));
    assert_eq!(edit.apply_to_offset(1), Some(1));
    assert_eq!(edit.apply_to_offset(2), Some(4));
    assert_eq!(edit.apply_to_offset(4), Some(5));
    assert_eq!(edit.apply_to_offset(5), None);
    assert_eq!(edit.apply_to_offset(6), Some(5));
}

#[test]
fn flip_comma_needs_an_element_on_each_side() {
    check_assist_not_applicable(flip_comma, "fn foo(x: i32,<|>) {}");
    check_assist_not_applicable(flip_comma, "fn foo(<|>x: i32) {}");
}

#[test]
fn flip_comma_swaps_tuple_elements() {
    check_assist(flip_comma, "let t = (a, [1, 2],<|> f(x, y));", "let t = (a, f(x, y),<|> [1, 2]);");
}

#[test]
fn add_derive_on_enum_after_attribute() {
    check_assist(
        add_derive,
        "#[repr(u8)]\nenum E { A<|>, B }",
        "#[derive(<|>)]\n#[repr(u8)]\nenum E { A, B }",
    );
    check_assist_not_applicable(add_derive, "fn f() {<|>}");
}

#[test]
fn auto_import_ignores_paths_inside_use_items() {
    check_assist_not_applicable(auto_import, "use std::fmt::Debug<|>;\n");
}

#[test]
fn auto_import_splits_at_the_first_differing_segment() {
    check_assist(
        auto_import,
        "use a::b::c;\n\nfn f() { a::x::Y<|> }\n",
        "use a::{ x::Y, b::c};\n\nfn f() { Y<|> }\n",
    );
}

#[test]
fn auto_import_adds_after_the_last_use() {
    check_assist(
        auto_import,
        "use foo;\nuse bar;\n\nfn f() { std::mem::swap<|> }\n",
        "use foo;\nuse bar;\nuse std::mem::swap;\n\nfn f() { swap<|> }\n",
    );
}
