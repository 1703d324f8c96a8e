use nefor_mag::authored::{BlockItem, Expr, Form, TypeDeclarationBody};
use nefor_mag::error::MagError;
use nefor_mag::lisp::compile_source;
use nefor_mag::reader::parse;
use nefor_mag::surface::Expr as Surface;

#[test]
fn lowers_lisp_conventions_to_semantic_authored_forms() {
    let module = compile_source(
        r#"
                (require "support")
                (type Choice [T] (adt [Selected T] [Empty Unit]))
                (let choose (fn [T] [[value T]] -> (Choice T)
                  (construct (Choice T) Selected value)))
                (artifact {:answer (type-tag (Map String (Fn Int String)))})
            "#,
    )
    .unwrap();

    assert!(matches!(module.forms[0], Form::Require(_)));
    let Form::Type(declaration) = &module.forms[1] else {
        panic!("type declaration")
    };
    assert_eq!(declaration.params, ["T"]);
    assert!(matches!(declaration.body, TypeDeclarationBody::Adt(_)));

    let Form::Block(BlockItem::Let { value, .. }) = &module.forms[2] else {
        panic!("let declaration")
    };
    let Expr::Function(function) = value else {
        panic!("semantic function")
    };
    assert!(matches!(function.body[0], BlockItem::Expr(Expr::Construct { .. })));

    let Form::Block(BlockItem::Expr(Expr::Call { args, .. })) = &module.forms[3] else {
        panic!("artifact call")
    };
    let Expr::Fields(fields) = &args[0] else {
        panic!("record")
    };
    assert!(matches!(fields[0].1, Expr::TypeTag(_)));
}

#[test]
fn source_text_is_read_form_by_form() {
    let forms = parse("; note\n(f 1 -2 \"a\\nb\" :key true nil [x] {:a 1})").unwrap();
    assert_eq!(forms.len(), 1);
    let items = forms[0].as_list().unwrap();
    assert_eq!(items.len(), 9);
    assert_eq!(items[0].as_symbol(), Some("f"));
    assert!(matches!(items[1], Surface::Int(1)));
    assert!(matches!(items[2], Surface::Int(-2)));
    assert_eq!(items[3].as_str(), Some("a\nb"));
    assert_eq!(items[4].as_keyword(), Some("key"));
    assert!(matches!(items[5], Surface::Bool(true)));
    assert!(matches!(items[6], Surface::Nil));
    assert!(matches!(items[7], Surface::Vector(_)));
    assert!(matches!(items[8], Surface::Braces(_)));
}

#[test]
fn unbalanced_and_unfinished_text_is_reported() {
    for text in ["(", ")", "\"open", "[1", "{:a"] {
        match parse(text) {
            Err(MagError::Syntax(d)) => assert!(d.code.starts_with("syntax_"), "{text}"),
            other => panic!("{text}: {other:?}"),
        }
    }
}
