use jlox::generate_ast::{define_ast, define_type};

fn expected_type(base_name: &str, typename: &str, fields: &str) -> Vec<String> {
    let mut lines = vec!["#[derive(Debug, Clone)]".to_string(), format!("pub struct {} {{", typename)];
    for field in fields.split(',') {
        lines.push(format!("\tpub {},", field.trim()));
    }
    lines.push("}".to_string());
    lines.push(format!("impl {} for {} {{}}", base_name, typename));
    lines
}

fn expected_ast(base_name: &str, types: &[&str]) -> Vec<String> {
    let mut lines = vec![
        "// Node definitions.".to_string(),
        String::new(),
        "use crate::token::Token;".to_string(),
        format!("pub trait {} {{}}", base_name),
        String::new(),
    ];
    for type_ in types {
        let parts: Vec<&str> = type_.split('-').collect();
        lines.extend(expected_type(base_name, parts[0].trim(), parts[1].trim()));
    }
    lines
}

#[test]
fn one_kind_of_node() {
    assert_eq!(
        define_type("Expr", "Unary", "operator: Token, right: <T: Expr>"),
        vec![
            "#[derive(Debug, Clone)]",
            "pub struct Unary {",
            "\tpub operator: Token,",
            "\tpub right: <T: Expr>,",
            "}",
            "impl Expr for Unary {}",
        ]
    );
}

#[test]
fn fields_are_split_at_commas_and_trimmed() {
    for fields in [
        "",
        " ",
        ",",
        "a: A",
        "  a: A  ,b: B,\t c: C \n",
        "a,,b",
        ",a,",
        "\u{a0}a\u{2003},\u{3000}b\u{85}",
        "left: <T: Expr>, operator: Token, right: <S: Expr>",
    ] {
        assert_eq!(define_type("Base", "Kind", fields), expected_type("Base", "Kind", fields));
    }
}

#[test]
fn the_source_file_of_the_expression_nodes() {
    let types = vec![
        "Binary   - left: <T: Expr>, operator: Token, right: <S: Expr>",
        "Ternary  - first: <T: Expr>, second: <U: Expr>, third: <V: Expr>",
        "Grouping - expression: <T: Expr>",
        "Literal  - value: String",
        "Unary    - operator: Token, right: <T: Expr>",
    ];
    let lines = define_ast("Expr", types.clone());
    assert_eq!(lines, expected_ast("Expr", &types));
    assert_eq!(lines.len(), 5 + (2 + 3 + 2) + (2 + 3 + 2) + (2 + 1 + 2) + (2 + 1 + 2) + (2 + 2 + 2));
    assert_eq!(lines[3], "pub trait Expr {}");
    assert_eq!(lines[5], "#[derive(Debug, Clone)]");
    assert_eq!(lines[6], "pub struct Binary {");
    assert_eq!(lines[7], "\tpub left: <T: Expr>,");
    assert_eq!(lines[lines.len() - 1], "impl Expr for Unary {}");
}

#[test]
fn only_the_first_two_pieces_of_a_description_count() {
    let types = vec!["A-b: B-c: C", " - ", "Name-", "-x"];
    assert_eq!(define_ast("T", types.clone()), expected_ast("T", &types));
}

#[test]
fn no_kinds_give_the_heading_alone() {
    assert_eq!(define_ast("Stmt", vec![]), expected_ast("Stmt", &[]));
}
