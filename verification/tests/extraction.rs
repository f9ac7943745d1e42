use docparse::classify::{classify, ValueClass};
use docparse::comment::find_comment;
use docparse::error::{ExtractError, StructureFault};
use docparse::extract::{extract, RenderRecord};
use docparse::render::{extract_docs, render, RenderMode};
use docparse::tree::{Elem, NodeKind, TokenKind};

fn node(kind: NodeKind, children: Vec<Elem>) -> Elem {
    Elem::Node { kind, children }
}

fn tok(kind: TokenKind, text: &str) -> Elem {
    Elem::Token { kind, text: text.to_string() }
}

fn ws() -> Elem {
    tok(TokenKind::Whitespace, " ")
}

fn nl() -> Elem {
    tok(TokenKind::Whitespace, "\n")
}

fn comment(text: &str) -> Elem {
    tok(TokenKind::Comment, text)
}

fn sig(text: &str) -> Elem {
    tok(TokenKind::Other, text)
}

fn ident(name: &str) -> Elem {
    node(NodeKind::Ident, vec![sig(name)])
}

fn lit(text: &str) -> Elem {
    node(NodeKind::Other, vec![sig(text)])
}

fn key(name: &str) -> Elem {
    node(NodeKind::Key, vec![ident(name)])
}

fn kv(name: &str, value: Elem) -> Elem {
    node(
        NodeKind::KeyValue,
        vec![key(name), ws(), sig("="), ws(), value, sig(";")],
    )
}

fn apply(f: Elem, arg: Elem) -> Elem {
    node(NodeKind::Apply, vec![f, ws(), arg])
}

/// `value or default`-shaped node: the default expression is the second node
/// child.
fn or_default(first: &str, default: &str) -> Elem {
    node(
        NodeKind::OrDefault,
        vec![ident(first), ws(), lit(default), ws(), lit("null")],
    )
}

/// A whole input: a function whose body is a let holding the marker binding,
/// whose value is a function of one argument returning the given record.
fn input(attrset_children: Vec<Elem>) -> Elem {
    let attrset = node(NodeKind::AttrSet, attrset_children);
    let mk_lambda = node(NodeKind::Lambda, vec![ident("x"), sig(":"), ws(), attrset]);
    let kv_mk = node(
        NodeKind::KeyValue,
        vec![key("mkAttrs"), ws(), sig("="), ws(), mk_lambda, sig(";")],
    );
    let letin = node(
        NodeKind::LetIn,
        vec![sig("let"), ws(), kv_mk, ws(), sig("in"), ws(), ident("x")],
    );
    let lambda = node(NodeKind::Lambda, vec![ident("args"), sig(":"), ws(), letin]);
    node(NodeKind::Root, vec![lambda])
}

fn run(root: &Elem) -> Result<Vec<RenderRecord>, ExtractError> {
    extract(root, "mkAttrs", "allowFun", "null")
}

#[test]
fn test() {
    // The whole pipeline, end to end, on the canonical input.
    let root = input(vec![
        sig("{"),
        nl(),
        comment("# a comment"),
        nl(),
        kv("port", or_default("port", "8080")),
        nl(),
        sig("}"),
    ]);
    let out = extract_docs(&root, "mkAttrs", "allowFun", "null", RenderMode::TableSplit).unwrap();
    assert_eq!(
        out,
        "| Attribute | Description |\n| - | - |\n| `port` | a comment Default: `8080` |\n"
    );
}

#[test]
fn plain_default_entry() {
    // A record with one field carrying a comment and a defaulted value.
    let root = input(vec![
        sig("{"),
        nl(),
        comment("# a comment"),
        nl(),
        kv("port", or_default("port", "8080")),
        nl(),
        sig("}"),
    ]);
    let records = run(&root).unwrap();
    assert_eq!(records.len(), 1);
    assert_eq!(records[0].name, "port");
    assert_eq!(records[0].description_lines, vec!["a comment".to_string()]);
    assert_eq!(
        records[0].classification,
        ValueClass::PlainDefault("8080".to_string())
    );
}

#[test]
fn wrapped_default_entry_and_no_code_block() {
    // The value is a three-level application of the wrap marker; sections
    // mode must not emit a code block for it.
    let value = apply(
        apply(apply(ident("allowFun"), lit("dfl")), lit("cfg")),
        lit("mod"),
    );
    let root = input(vec![
        sig("{"),
        nl(),
        comment("# wrapped"),
        nl(),
        kv("hook", value),
        nl(),
        sig("}"),
    ]);
    let records = run(&root).unwrap();
    assert_eq!(records.len(), 1);
    assert_eq!(
        records[0].classification,
        ValueClass::WrappedDefault("mod".to_string())
    );
    let out = render(&records, RenderMode::Sections);
    assert_eq!(out, "# `hook`\nwrapped\n\n");
    assert!(!out.contains("```"));
}

#[test]
fn wrong_inner_marker_gives_no_annotation() {
    let value = apply(
        apply(apply(ident("someFun"), lit("dfl")), lit("cfg")),
        lit("mod"),
    );
    let root = input(vec![
        sig("{"),
        nl(),
        comment("# plain application"),
        nl(),
        kv("hook", value),
        nl(),
        sig("}"),
    ]);
    let records = run(&root).unwrap();
    assert_eq!(records[0].classification, ValueClass::NoDefault);
}

#[test]
fn shallow_application_falls_through() {
    // Only two application levels: the shape must not match, and the run must
    // not fail on it.
    let value = apply(apply(ident("allowFun"), lit("dfl")), lit("mod"));
    let root = input(vec![
        sig("{"),
        nl(),
        comment("# shallow"),
        nl(),
        kv("hook", value),
        nl(),
        sig("}"),
    ]);
    let records = run(&root).unwrap();
    assert_eq!(records[0].classification, ValueClass::NoDefault);
}

#[test]
fn bare_lambda_entry() {
    let value = node(NodeKind::Lambda, vec![ident("y"), sig(":"), ws(), ident("y")]);
    let root = input(vec![
        sig("{"),
        nl(),
        comment("# a function"),
        nl(),
        kv("hook", value),
        nl(),
        sig("}"),
    ]);
    let records = run(&root).unwrap();
    assert_eq!(records[0].classification, ValueClass::BareLambda);
}

#[test]
fn absent_default_has_no_annotation_in_any_mode() {
    let root = input(vec![
        sig("{"),
        nl(),
        comment("# nothing by default"),
        nl(),
        kv("opt", or_default("opt", "null")),
        nl(),
        sig("}"),
    ]);
    let records = run(&root).unwrap();
    assert_eq!(
        records[0].classification,
        ValueClass::AbsentDefault("null".to_string())
    );
    let split = render(&records, RenderMode::TableSplit);
    let inline = render(&records, RenderMode::TableInline);
    assert!(!split.contains("Default:"));
    assert!(!inline.contains("Default:"));
    // The sections mode still shows the rendered default text.
    let sections = render(&records, RenderMode::Sections);
    assert_eq!(sections, "# `opt`\nnothing by default\n```\nnull\n```\n\n");
}

#[test]
fn plain_and_wrapped_always_annotate() {
    let root = input(vec![
        sig("{"),
        nl(),
        comment("# one"),
        nl(),
        kv("a", or_default("a", "1")),
        nl(),
        comment("# two"),
        nl(),
        kv(
            "b",
            apply(
                apply(apply(ident("allowFun"), lit("d")), lit("c")),
                lit("m"),
            ),
        ),
        nl(),
        sig("}"),
    ]);
    let records = run(&root).unwrap();
    for mode in [RenderMode::TableSplit, RenderMode::TableInline] {
        let out = render(&records, mode);
        let first = out.find("Default:").unwrap();
        let last = out.rfind("Default:").unwrap();
        assert!(first < last, "both rows carry an annotation");
    }
}

#[test]
fn table_split_exact_output() {
    let root = input(vec![
        sig("{"),
        nl(),
        comment("# a comment"),
        nl(),
        kv("port", or_default("port", "8080")),
        nl(),
        sig("}"),
    ]);
    let records = run(&root).unwrap();
    let out = render(&records, RenderMode::TableSplit);
    assert_eq!(
        out,
        "| Attribute | Description |\n| - | - |\n| `port` | a comment Default: `8080` |\n"
    );
}

#[test]
fn table_inline_exact_output() {
    let root = input(vec![
        sig("{"),
        nl(),
        comment("# a comment"),
        nl(),
        kv("port", or_default("port", "8080")),
        nl(),
        sig("}"),
    ]);
    let records = run(&root).unwrap();
    let out = render(&records, RenderMode::TableInline);
    assert_eq!(
        out,
        "| Attribute | Description |\n| - | - |\n| `port` | a comment Default: `8080` |\n"
    );
}

#[test]
fn records_keep_source_order() {
    let root = input(vec![
        sig("{"),
        nl(),
        comment("# first"),
        nl(),
        kv("alpha", lit("1")),
        nl(),
        comment("# second"),
        nl(),
        kv("beta", lit("2")),
        nl(),
        comment("# third"),
        nl(),
        kv("gamma", lit("3")),
        nl(),
        sig("}"),
    ]);
    let records = run(&root).unwrap();
    assert_eq!(records.len(), 3);
    assert_eq!(records[0].name, "alpha");
    assert_eq!(records[1].name, "beta");
    assert_eq!(records[2].name, "gamma");
    assert_eq!(records[0].description_lines, vec!["first".to_string()]);
    assert_eq!(records[2].description_lines, vec!["third".to_string()]);
}

#[test]
fn multiple_comment_lines_in_order() {
    let root = input(vec![
        sig("{"),
        nl(),
        comment("# one"),
        nl(),
        comment("# two"),
        nl(),
        kv("a", lit("1")),
        nl(),
        sig("}"),
    ]);
    let records = run(&root).unwrap();
    assert_eq!(
        records[0].description_lines,
        vec!["one".to_string(), "two".to_string()]
    );
}

#[test]
fn comment_found_across_parent_boundary() {
    // The declaration is the first child of its enclosing node; the comment
    // sits before that node, so the walk must step up to the parent.
    let inner = node(NodeKind::Other, vec![kv("a", lit("1"))]);
    let root = node(
        NodeKind::Root,
        vec![sig("let"), ws(), comment("# above"), nl(), inner, nl(), sig("x")],
    );
    let lines = find_comment(&root, &vec![4usize, 0usize]).unwrap();
    assert_eq!(lines, vec!["above".to_string()]);
}

#[test]
fn comment_association_is_idempotent() {
    let root = node(
        NodeKind::Root,
        vec![sig("x"), ws(), comment("#doc"), nl(), kv("a", lit("1"))],
    );
    let first = find_comment(&root, &vec![4usize]).unwrap();
    let second = find_comment(&root, &vec![4usize]).unwrap();
    assert_eq!(first, second);
    assert_eq!(first, vec!["doc".to_string()]);
}

#[test]
fn missing_comment_fails_with_no_comment() {
    let root = input(vec![
        sig("{"),
        nl(),
        kv("port", or_default("port", "8080")),
        nl(),
        sig("}"),
    ]);
    assert_eq!(run(&root), Err(ExtractError::NoComment));
    // No partial output is produced in any mode.
    assert_eq!(
        extract_docs(&root, "mkAttrs", "allowFun", "null", RenderMode::TableSplit),
        Err(ExtractError::NoComment)
    );
}

#[test]
fn empty_comment_fails_with_no_comment() {
    let root = input(vec![
        sig("{"),
        nl(),
        comment("#   "),
        nl(),
        kv("port", lit("1")),
        nl(),
        sig("}"),
    ]);
    assert_eq!(run(&root), Err(ExtractError::NoComment));
}

#[test]
fn root_not_function_fails_with_structure_error() {
    let root = node(NodeKind::Root, vec![lit("42")]);
    let got = run(&root);
    assert_eq!(
        got,
        Err(ExtractError::StructureError(StructureFault::RootNotFunction))
    );
    assert_eq!(
        got.unwrap_err().message(),
        "root is not a function".to_string()
    );
}

#[test]
fn body_not_let_fails_with_structure_error() {
    let lambda = node(NodeKind::Lambda, vec![ident("args"), sig(":"), ws(), lit("1")]);
    let root = node(NodeKind::Root, vec![lambda]);
    assert_eq!(
        run(&root),
        Err(ExtractError::StructureError(StructureFault::BodyNotLetBinding))
    );
}

#[test]
fn marker_binding_missing_fails_with_not_found() {
    let kv_other = node(
        NodeKind::KeyValue,
        vec![key("other"), ws(), sig("="), ws(), lit("1"), sig(";")],
    );
    let letin = node(
        NodeKind::LetIn,
        vec![sig("let"), ws(), kv_other, ws(), sig("in"), ws(), ident("x")],
    );
    let lambda = node(NodeKind::Lambda, vec![ident("args"), sig(":"), ws(), letin]);
    let root = node(NodeKind::Root, vec![lambda]);
    assert_eq!(run(&root), Err(ExtractError::NotFound));
}

#[test]
fn marker_value_not_record_fails_with_structure_error() {
    let kv_mk = node(
        NodeKind::KeyValue,
        vec![key("mkAttrs"), ws(), sig("="), ws(), lit("1"), sig(";")],
    );
    let letin = node(
        NodeKind::LetIn,
        vec![sig("let"), ws(), kv_mk, ws(), sig("in"), ws(), ident("x")],
    );
    let lambda = node(NodeKind::Lambda, vec![ident("args"), sig(":"), ws(), letin]);
    let root = node(NodeKind::Root, vec![lambda]);
    assert_eq!(
        run(&root),
        Err(ExtractError::StructureError(StructureFault::NotRecordPattern))
    );
}

#[test]
fn field_without_key_fails_with_missing_key() {
    let bad = node(NodeKind::KeyValue, vec![sig("="), ws(), lit("1"), sig(";")]);
    let root = input(vec![sig("{"), nl(), comment("# doc"), nl(), bad, nl(), sig("}")]);
    assert_eq!(run(&root), Err(ExtractError::MissingKey));
}

#[test]
fn classification_ignores_whitespace_tokens() {
    // The same expression with and without interior whitespace tokens.
    let dense = node(NodeKind::OrDefault, vec![ident("a"), lit("8080"), lit("null")]);
    let spaced = node(
        NodeKind::OrDefault,
        vec![ident("a"), ws(), ws(), lit("8080"), ws(), lit("null")],
    );
    let c1 = classify(&dense, "allowFun", "null");
    let c2 = classify(&spaced, "allowFun", "null");
    assert_eq!(c1, c2);
    assert_eq!(c1, ValueClass::PlainDefault("8080".to_string()));
}

#[test]
fn payload_is_source_text_of_expression() {
    // Round trip: the shown payload is the expression's significant tokens in
    // source order, single-spaced.
    let default_expr = node(NodeKind::Other, vec![sig("["), ws(), sig("1"), ws(), sig("]")]);
    let value = node(
        NodeKind::OrDefault,
        vec![ident("a"), ws(), default_expr, ws(), lit("null")],
    );
    let c = classify(&value, "allowFun", "null");
    assert_eq!(c, ValueClass::PlainDefault("[ 1 ]".to_string()));
}
