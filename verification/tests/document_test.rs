use bmw::document::{document, DocState, DocTree};
use bmw::error::{CoreErrorKind, ErrKind, Error};

fn is_parse(e: &Error) -> bool {
    matches!(e.kind(), ErrKind::Core(CoreErrorKind::Parse(_)))
}

fn fresh() -> DocState {
    DocState::new(vec![]).unwrap()
}

#[test]
fn new_state_starts_with_an_empty_add_doc() {
    let st = fresh();
    assert_eq!(st.ret, "#[add_doc(empty)]\n");
    assert_eq!(st.doc_point, 0);
    assert!(st.inputs.is_empty());
    match DocState::new(vec![("".to_string(), "x".to_string())]) {
        Ok(_) => panic!("an empty pattern must be refused"),
        Err(e) => assert!(is_parse(&e)),
    }
}

#[test]
fn add_doc_doc_point_marks_the_end() {
    let mut st = fresh();
    st.process_add_doc("doc_point").unwrap();
    assert_eq!(st.doc_point, 18);
    // a place already set stays
    st.ret.push_str("more");
    st.process_add_doc("doc_point").unwrap();
    assert_eq!(st.doc_point, 18);
}

#[test]
fn add_doc_errors() {
    let mut st = fresh();
    assert!(is_parse(&st.process_add_doc("x").unwrap_err()));
    assert!(is_parse(&st.process_add_doc("input: a").unwrap_err()));
    assert!(is_parse(&st.process_add_doc("unknown: \"a\" - \"b\"").unwrap_err()));
    assert!(is_parse(&st.process_add_doc("error: Parse - \"b\"").unwrap_err()));
    assert!(is_parse(&st.process_add_doc("see: \"\"").unwrap_err()));
    assert!(is_parse(&st.process_add_doc("input: a - \"\"").unwrap_err()));
}

#[test]
fn add_doc_input_text_accumulates() {
    let mut st = fresh();
    st.process_add_doc("input: a - \"the a\"").unwrap();
    assert_eq!(st.inputs.len(), 1);
    assert_eq!(st.inputs[0].name, "a");
    assert_eq!(st.inputs[0].text, "the a");
    assert_eq!(st.inputs[0].type_str, "");
    st.process_add_doc("input: a - \"again\"").unwrap();
    assert_eq!(st.inputs.len(), 1);
    assert_eq!(st.inputs[0].text, "the a again");
    st.process_add_doc("input: b - \"the b\" - \"u64\"").unwrap();
    assert_eq!(st.inputs.len(), 2);
    assert_eq!(st.inputs[1].name, "b");
    assert_eq!(st.inputs[1].type_str, "u64");
}

#[test]
fn add_doc_error_return_and_see() {
    let mut st = fresh();
    st.process_add_doc("error: \"Parse\" - \"when bad\"").unwrap();
    assert_eq!(st.error_str, "\n///\n/// * [`Parse`]  - when bad");
    st.process_add_doc("return: \"the count\" - \"usize\"").unwrap();
    assert_eq!(st.return_str, "the count ");
    assert_eq!(st.return_type_str, "usize");
    st.process_add_doc("see: \"other\"").unwrap();
    assert_eq!(st.see_str, "\n///\n/// * [`other`] ");
}

#[test]
fn parameters_of_a_method() {
    let mut st = fresh();
    st.process_parameters("(&mut self, x: u32, y: &str)").unwrap();
    assert_eq!(st.inputs.len(), 3);
    assert_eq!(st.inputs[0].name, "self");
    assert!(st.inputs[0].is_ref);
    assert!(st.inputs[0].is_mut);
    assert_eq!(st.inputs[0].seqno, 0);
    assert_eq!(st.inputs[1].name, "x");
    assert_eq!(st.inputs[1].type_str, " u32");
    assert!(!st.inputs[1].is_ref);
    assert_eq!(st.inputs[1].seqno, 1);
    assert_eq!(st.inputs[2].name, "y");
    assert_eq!(st.inputs[2].type_str, " str");
    assert!(st.inputs[2].is_ref);
    assert_eq!(st.inputs[2].seqno, 2);

    // an empty list changes nothing
    let mut st = fresh();
    st.process_parameters("()").unwrap();
    assert!(st.inputs.is_empty());

    // brackets holding no token are refused
    let mut st = fresh();
    assert!(is_parse(&st.process_parameters("( )").unwrap_err()));
    assert!(st.inputs.is_empty());
}

#[test]
fn document_a_trait_method() {
    let trees = vec![
        DocTree::Ident("pub".to_string()),
        DocTree::Ident("trait".to_string()),
        DocTree::Ident("Foo".to_string()),
        DocTree::Group(vec![
            "fn".to_string(),
            "bar".to_string(),
            "(&self, x: u32)".to_string(),
            "-".to_string(),
            ">".to_string(),
            "usize".to_string(),
            ";".to_string(),
        ]),
    ];
    let out = document(&trees, vec![]).unwrap();
    let expected: String = [
        "#[add_doc(empty)]\n\npub \ntrait \nFoo \n{",
        "\n/// # Input Parameters\n///",
        "\n/// * `self` - [&[`Foo`]]  ",
        "\n/// * `x` - [[` u32`]]  ",
        "\n///\n/// # Return\n/// ` usize ` ",
        "\nfn \nbar \n(&self, x: u32) -> \nusize \n; \n}"
    ]
    .concat();
    assert_eq!(out, expected);
}

#[test]
fn document_with_docs_and_replacements() {
    let trees = vec![
        DocTree::Ident("pub".to_string()),
        DocTree::Ident("trait".to_string()),
        DocTree::Ident("Foo".to_string()),
        DocTree::Group(vec![
            "#".to_string(),
            "[doc = \" hi\"]".to_string(),
            "#".to_string(),
            "[add_doc(see: \"other\")]".to_string(),
            "fn".to_string(),
            "bar".to_string(),
            "()".to_string(),
            "-".to_string(),
            ">".to_string(),
            "Result".to_string(),
            ";".to_string(),
        ]),
    ];
    let out =
        document(&trees, vec![("Result".to_string(), "Res".to_string())]).unwrap();
    let expected: String = [
        "#[add_doc(empty)]\n\npub \ntrait \nFoo \n{",
        "\n/// hi",
        "\n///\n/// # Return\n/// ` Res ` ",
        "\n///\n/// # Also See\n///\n///\n/// * [`other`] ",
        "\nfn \nbar \n() -> \nResult \n\n; \n}"
    ]
    .concat();
    assert_eq!(out, expected);
}

#[test]
fn document_refuses_a_bad_doc_line() {
    let trees = vec![DocTree::Group(vec!["doc".to_string(), "x".to_string()])];
    assert!(is_parse(&document(&trees, vec![]).unwrap_err()));
}
