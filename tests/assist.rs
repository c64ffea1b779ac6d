use hl_inject::assist::replace_impl_trait_with_generic;

fn check_assist(before: &str, after: &str) {
    let out = replace_impl_trait_with_generic(before.as_bytes()).expect("the assist applies");
    assert_eq!(String::from_utf8(out).unwrap(), after);
}

#[test]
fn replace_impl_trait_with_generic_params() {
    check_assist(r#"fn foo<G>(bar: $0impl Bar) {}"#, r#"fn foo<G, B: Bar>(bar: B) {}"#);
}

#[test]
fn replace_impl_trait_without_generic_params() {
    check_assist(r#"fn foo(bar: $0impl Bar) {}"#, r#"fn foo<B: Bar>(bar: B) {}"#);
}

#[test]
fn replace_two_impl_trait_with_generic_params() {
    check_assist(
        r#"fn foo<G>(foo: impl Foo, bar: $0impl Bar) {}"#,
        r#"fn foo<G, B: Bar>(foo: impl Foo, bar: B) {}"#,
    );
}

#[test]
fn replace_impl_trait_with_empty_generic_params() {
    check_assist(r#"fn foo<>(bar: $0impl Bar) {}"#, r#"fn foo<B: Bar>(bar: B) {}"#);
}

#[test]
fn replace_impl_trait_with_empty_multiline_generic_params() {
    check_assist(
        r#"
fn foo<
>(bar: $0impl Bar) {}
"#,
        r#"
fn foo<B: Bar
>(bar: B) {}
"#,
    );
}

#[test]
fn replace_impl_trait_with_multiline_generic_params() {
    check_assist(
        r#"
fn foo<
    G: Foo,
    F,
    H,
>(bar: $0impl Bar) {}
"#,
        r#"
fn foo<
    G: Foo,
    F,
    H, B: Bar,
>(bar: B) {}
"#,
    );
}

#[test]
fn replace_impl_trait_multiple() {
    check_assist(r#"fn foo(bar: $0impl Foo + Bar) {}"#, r#"fn foo<F: Foo + Bar>(bar: F) {}"#);
}

#[test]
fn assist_declines_without_cursor() {
    assert_eq!(replace_impl_trait_with_generic(b"fn foo(bar: impl Bar) {}"), None);
}

#[test]
fn assist_declines_off_impl() {
    assert_eq!(replace_impl_trait_with_generic(b"fn foo($0bar: impl Bar) {}"), None);
}

#[test]
fn assist_lowercase_bound_gives_uppercase_name() {
    let out = replace_impl_trait_with_generic(b"fn f(x: $0impl io::Read) {}").unwrap();
    assert_eq!(String::from_utf8(out).unwrap(), "fn f<I: io::Read>(x: I) {}");
}

#[test]
fn assist_declines_in_return_position() {
    assert_eq!(replace_impl_trait_with_generic(b"fn f()->$0impl B"), None);
    assert_eq!(replace_impl_trait_with_generic(b"fn f() -> $0impl B {}"), None);
}

#[test]
fn assist_keeps_bracketed_bounds_whole() {
    let out = replace_impl_trait_with_generic(b"fn f(x: $0impl Fn(u8)) {}").unwrap();
    assert_eq!(String::from_utf8(out).unwrap(), "fn f<F: Fn(u8)>(x: F) {}");
    let out = replace_impl_trait_with_generic(b"fn f(x: $0impl Into<(u8, u16)>, y: u8) {}").unwrap();
    assert_eq!(String::from_utf8(out).unwrap(), "fn f<I: Into<(u8, u16)>>(x: I, y: u8) {}");
}

#[test]
fn assist_finds_end_of_nested_generic_list() {
    let out = replace_impl_trait_with_generic(b"fn foo<G: Into<u8>>(bar: $0impl Bar) {}").unwrap();
    assert_eq!(String::from_utf8(out).unwrap(), "fn foo<G: Into<u8>, B: Bar>(bar: B) {}");
    let out =
        replace_impl_trait_with_generic(b"fn foo<F: Fn() -> u8>(f: F, bar: $0impl Bar) {}").unwrap();
    assert_eq!(String::from_utf8(out).unwrap(), "fn foo<F: Fn() -> u8, B: Bar>(f: F, bar: B) {}");
}

#[test]
fn assist_declines_inside_nested_type() {
    assert_eq!(replace_impl_trait_with_generic(b"fn f(x: Vec<y: $0impl B>) {}"), None);
}
