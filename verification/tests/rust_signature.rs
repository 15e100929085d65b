use graph_specs::rust_reader::{cfg_metas, present, rust_items};
use graph_specs::rust_signature::{normalize_rust, print_stream, strip_item, Delim, Token};

fn normalize(s: &str) -> String {
    normalize_rust(s).expect("test input must parse")
}

#[test]
fn identical_items_normalize_identical() {
    let a = normalize("pub struct Foo(pub u32);");
    let b = normalize("pub struct Foo(pub u32);");
    assert_eq!(a, b);
}

#[test]
fn differing_whitespace_normalizes_identical() {
    let a = normalize("pub struct Foo(pub u32);");
    let b = normalize("pub  struct   Foo  (  pub u32  )  ;");
    assert_eq!(a, b);
}

#[test]
fn doc_comments_are_stripped() {
    let a = normalize("pub struct Foo;");
    let b = normalize("/// lots of doc\npub struct Foo;");
    assert_eq!(a, b);
}

#[test]
fn cfg_attributes_are_stripped() {
    let a = normalize("pub struct Foo;");
    let b = normalize("#[cfg(feature = \"x\")] pub struct Foo;");
    assert_eq!(a, b);
}

#[test]
fn derives_are_stripped() {
    let a = normalize("pub struct Foo;");
    let b = normalize("#[derive(Debug, Clone)] pub struct Foo;");
    assert_eq!(a, b);
}

#[test]
fn must_use_and_inline_are_stripped() {
    let a = normalize("pub struct Foo;");
    let b = normalize("#[must_use] #[inline] pub struct Foo;");
    assert_eq!(a, b);
}

#[test]
fn pub_crate_collapses_to_non_pub() {
    let pub_crate = normalize("pub(crate) struct Foo;");
    let inherited = normalize("struct Foo;");
    assert_eq!(pub_crate, inherited);
}

#[test]
fn pub_stays_pub() {
    let a = normalize("pub struct Foo;");
    assert!(a.contains("pub"));
}

#[test]
fn field_doc_comments_are_stripped() {
    let a = normalize("pub struct Foo { pub bar: u32 }");
    let b = normalize("pub struct Foo {\n    /// a field\n    pub bar: u32,\n}");
    assert_eq!(a, b);
}

#[test]
fn differing_field_types_drift() {
    let a = normalize("pub struct Foo { pub bar: u32 }");
    let b = normalize("pub struct Foo { pub bar: u64 }");
    assert_ne!(a, b);
}

#[test]
fn enum_variant_docs_are_stripped() {
    let a = normalize("pub enum E { A, B }");
    let b = normalize("pub enum E { /// doc\n A, /// other\n B }");
    assert_eq!(a, b);
}

#[test]
fn added_enum_variant_drifts() {
    let a = normalize("pub enum E { A }");
    let b = normalize("pub enum E { A, B }");
    assert_ne!(a, b);
}

#[test]
fn trait_method_doc_comments_are_stripped() {
    let a = normalize("pub trait T { fn f(&self) -> u32; }");
    let b = normalize("pub trait T {\n    /// method doc\n    fn f(&self) -> u32;\n}");
    assert_eq!(a, b);
}

#[test]
fn generic_bound_change_drifts() {
    let a = normalize("pub struct Foo<T: Clone>(T);");
    let b = normalize("pub struct Foo<T: Copy>(T);");
    assert_ne!(a, b);
}

#[test]
fn normalized_text_is_printed_as_token_stream() {
    assert_eq!(normalize("pub struct Foo { pub bar: u32, }"), "pub struct Foo { pub bar : u32 }");
    assert_eq!(normalize("pub struct Foo(pub u32);"), "pub struct Foo (pub u32) ;");
    assert_eq!(normalize("pub fn f(x: u8) -> Vec<u8> {}"), "pub fn f (x : u8) -> Vec < u8 > { }");
}

#[test]
fn restricted_field_visibility_becomes_private_and_other_attributes_stay() {
    assert_eq!(
        normalize("#[repr(C)] pub(crate) struct S { #[serde(skip)] pub(super) a: u8, pub b: u8 }"),
        "# [repr (C)] struct S { # [serde (skip)] a : u8 , pub b : u8 }"
    );
    assert_eq!(normalize("pub struct T(pub (u8, u16));"), "pub struct T (pub (u8 , u16)) ;");
}

#[test]
fn tuple_struct_body_is_found_past_generic_bounds() {
    assert_eq!(
        normalize("pub struct H<F: Fn(u8) -> u8>(#[doc = \"x\"] pub(crate) F);"),
        "pub struct H < F : Fn (u8) -> u8 > (F) ;"
    );
}

#[test]
fn enum_variant_fields_and_trait_items_are_stripped() {
    assert_eq!(
        normalize("pub enum E { /// a\n A { /// f\n pub(crate) x: u8 }, B(#[doc = \"y\"] u8) }"),
        "pub enum E { A { x : u8 } , B (u8) }"
    );
    assert_eq!(
        normalize("pub unsafe trait T: Fn() { #[inline] fn f() {} }"),
        "pub unsafe trait T : Fn () { fn f () { } }"
    );
}

#[test]
fn other_items_keep_their_attributes() {
    assert_eq!(normalize("/// d\npub fn f() {}"), "# [doc = \" d\"] pub fn f () { }");
}

#[test]
fn a_block_that_is_no_item_is_refused() {
    assert!(normalize_rust("let x = 1;").is_err());
}

#[test]
fn printing_joins_a_joint_punctuation_to_the_next_token() {
    let ts = vec![
        Token::Ident("a".to_owned()),
        Token::Punct(':', true),
        Token::Punct(':', false),
        Token::Ident("b".to_owned()),
        Token::Group(Delim::Brace, Vec::new()),
        Token::Group(Delim::Brace, vec![Token::Literal("1".to_owned())]),
    ];
    assert_eq!(print_stream(&ts), "a :: b { } { 1 }");
}

#[test]
fn stripping_removes_a_leading_noise_attribute() {
    let ts = vec![
        Token::Punct('#', false),
        Token::Group(Delim::Bracket, vec![Token::Ident("inline".to_owned())]),
        Token::Ident("type".to_owned()),
        Token::Ident("A".to_owned()),
    ];
    assert_eq!(print_stream(&strip_item(&ts)), "type A");
}

#[test]
fn file_items_carry_their_normalized_signatures() {
    let items = rust_items("/// doc\npub struct A { pub(crate) x: u8 }\nfn g() {}\n").expect("parses");
    assert_eq!(items.len(), 2);
    assert_eq!(items[0].signature, "pub struct A { x : u8 }");
    assert_eq!(items[0].ident, "A");
    assert_eq!(items[0].line, 2);
    assert_eq!(items[1].ident, "g");
}

#[test]
fn a_source_syn_cannot_read_gives_its_line() {
    let err = rust_items("pub struct A;\n\npub struct {").expect_err("refused");
    assert_eq!(err.0, 3);
}

#[test]
fn only_cfg_attributes_give_cfg_metas() {
    let attrs = vec![
        ("derive".to_owned(), vec![("Debug".to_owned(), None)]),
        ("cfg".to_owned(), vec![("feature".to_owned(), Some("test-utils".to_owned()))]),
        ("cfg".to_owned(), vec![("test".to_owned(), None)]),
    ];
    assert_eq!(
        cfg_metas(attrs),
        vec![("feature".to_owned(), Some("test-utils".to_owned())), ("test".to_owned(), None)]
    );
}

#[test]
fn a_cfg_test_item_is_read_with_its_meta() {
    let items = rust_items("#[cfg(test)]\n#[derive(Debug)]\npub struct A;\n").expect("parses");
    assert_eq!(items[0].cfg_metas, vec![("test".to_owned(), None)]);
    assert_eq!(items[0].signature, "pub struct A ;");
}

#[test]
fn present_keeps_the_values_in_order() {
    assert_eq!(present(vec![Some(1u8), None, Some(3), None]), vec![1, 3]);
    assert!(present::<u8>(vec![None]).is_empty());
}

#[test]
fn receivers_are_not_read_as_parameters() {
    let items = rust_items("impl A { pub fn f(&self, x: u8) {} }").expect("parses");
    assert_eq!(items[0].fns.len(), 1);
    assert_eq!(items[0].fns[0].inputs.len(), 1);
    assert_eq!(items[0].fns[0].inputs[0].text, "u8");
}
