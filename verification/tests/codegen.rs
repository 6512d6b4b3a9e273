use stakit::codegen::ir;
use stakit::codegen::ir::wire_name;
use stakit::codegen::model_macro::{derive_json_schema, derive_model, derive_model_from, model};
use stakit::codegen::syntax::{
    write_literal, AttrArg, AttrSyntax, DataSyntax, FieldSyntax, FieldsSyntax, FnInput, FnSyntax, ItemSyntax,
    RuleArg, RuleSyntax, SegmentSyntax, TypeArg, TypeForm, TypeSyntax,
};
use stakit::codegen::tool_macro::{expand_read, parse_attr, tool};

/// The tokens of a source text, so that spacing does not matter.
fn tokens(text: &str) -> String {
    text.parse::<proc_macro2::TokenStream>()
        .expect("valid tokens")
        .to_string()
        .split_whitespace()
        .collect()
}

fn holds(code: &str, part: &str) -> bool {
    tokens(code).contains(&tokens(part))
}

fn parses(code: &str) {
    syn::parse_str::<syn::File>(code).expect("valid items");
}

#[test]
fn args_only_tool_uses_fn_name_and_doc() {
    let code = tool(
        "",
        "/// Add two integers\nasync fn add(args: AddArgs) -> Result<i64, ToolError> { Ok(args.a + args.b) }",
    )
    .unwrap();
    parses(&code);
    assert!(holds(&code, "fn name(&self) -> &'static str { \"add\" }"));
    assert!(holds(
        &code,
        "fn description(&self) -> &'static str { \"Add two integers\" }"
    ));
    assert!(holds(
        &code,
        "impl<Ctx: ::core::marker::Send + ::core::marker::Sync + 'static> ::stakit_ai_sdk::Tool<Ctx> for add"
    ));
    assert!(holds(&code, "type Args = AddArgs; type Output = i64;"));
}

#[test]
fn cx_tool_reads_context() {
    let code = tool(
        "",
        "async fn echo(cx: &ToolCx<Db>, args: EchoArgs) -> Result<String, ToolError> { Ok(args.text) }",
    )
    .unwrap();
    parses(&code);
    assert!(holds(&code, "impl ::stakit_ai_sdk::Tool<Db> for echo"));
    assert!(holds(
        &code,
        "cx: &'a ::stakit_ai_sdk::ToolCx<Db>, args: Self::Args"
    ));
    assert!(holds(&code, "fn description(&self) -> &'static str { \"\" }"));
}

#[test]
fn no_arg_tool_with_overridden_name_and_description() {
    let code = tool(
        "name = \"pong\", description = \"returns pong\"",
        "pub fn ping() -> Result<&'static str, ToolError> { Ok(\"pong\") }",
    )
    .unwrap();
    parses(&code);
    assert!(holds(&code, "pub struct ping;"));
    assert!(holds(&code, "fn name(&self) -> &'static str { \"pong\" }"));
    assert!(holds(
        &code,
        "fn description(&self) -> &'static str { \"returns pong\" }"
    ));
    assert!(holds(&code, "type Args = (); type Output = &'static str;"));
    assert!(holds(&code, "_args: Self::Args"));
}

#[test]
fn bad_tools_are_refused() {
    let f = "fn f() -> Result<(), ToolError> { Ok(()) }";
    assert!(tool("name", f).unwrap_err().contains("expects"));
    assert_eq!(tool("name = 3", f).unwrap_err(), "expected a string literal");
    assert_eq!(tool("label = \"x\"", f).unwrap_err(), "unknown `#[tool]` key");
    assert_eq!(
        tool("", "fn f(&self) -> Result<(), ToolError> { Ok(()) }").unwrap_err(),
        "`#[tool]` does not take `self`"
    );
    assert_eq!(
        tool("", "fn f() -> i64 { 1 }").unwrap_err(),
        "`#[tool]` return type must be `Result<Output, ToolError>`"
    );
    assert_eq!(
        tool("", "fn f() { }").unwrap_err(),
        "`#[tool]` return type must be `Result<Output, ToolError>`"
    );
    assert!(tool("", "struct S;").is_err());
}

#[test]
fn wire_names() {
    assert_eq!(wire_name("user_name", true), "userName");
    assert_eq!(wire_name("user_name", false), "user_name");
    assert_eq!(wire_name("_private__x", true), "privateX");
    assert_eq!(wire_name("A_b", true), "aB");
    assert_eq!(wire_name("0", true), "0");
}

#[test]
fn a_struct_becomes_an_interface() {
    let code = derive_model(
        "struct User { /// name\n user_name: String, age: Option<u32> }",
        true,
    )
    .unwrap();
    parses(&code);
    assert!(holds(&code, "impl ::stakit_model::Validate for User"));
    assert!(holds(&code, "let Self { .. } = self;"));
    assert!(holds(&code, "__ts.push_str(\"  userName: \");"));
    assert!(holds(&code, "__ts.push_str(\"  age?: \");"));
    assert!(holds(
        &code,
        "__ts.push_str(&<u32 as ::stakit_model::TSType>::ts_ref());"
    ));
    assert!(holds(
        &code,
        "<String as ::stakit_model::TSType>::ts_declarations(out); <u32 as ::stakit_model::TSType>::ts_declarations(out);"
    ));
}

#[test]
fn enums_become_unions() {
    let code = derive_model(
        "enum E { A, B(u8), C(u8, Option<u16>), D { some_field: String } }",
        false,
    )
    .unwrap();
    parses(&code);
    assert!(holds(&code, "String::from(\"\\\"A\\\"\")"));
    assert!(holds(&code, "String::from(\"some_field: \")"));
    assert!(holds(&code, "__parts.join(\" | \")"));
    assert!(holds(&code, "Self::A => {}"));
    assert!(holds(&code, "Self::C(_, _) => {}"));
    let never = derive_model("enum N {}", false).unwrap();
    assert!(holds(
        &never,
        "format!(\"export type {} = never;\", <Self as ::stakit_model::TSType>::ts_ref())"
    ));
    let unit = derive_model("struct U;", false).unwrap();
    parses(&unit);
    assert!(unit.contains("= null;"));
    let tuple = derive_model("struct T(u8, Vec<u8>);", false).unwrap();
    parses(&tuple);
    assert!(holds(
        &tuple,
        "&[<u8 as ::stakit_model::TSType>::ts_ref(), <Vec<u8> as ::stakit_model::TSType>::ts_ref()]"
    ));
}

#[test]
fn generics_are_carried_over() {
    let code = derive_model(
        "struct Message<'a, T: Clone, const N: usize> where T: Copy { data: &'a [T; N] }",
        false,
    )
    .unwrap();
    parses(&code);
    assert!(holds(
        &code,
        "impl<'a, T: Clone + ::stakit_model::TSType, const N: usize> ::stakit_model::TSType for Message<'a, T, N> where T: Copy"
    ));
    assert!(holds(
        &code,
        "impl<'a, T: Clone, const N: usize> ::stakit_model::Validate for Message<'a, T, N> where T: Copy"
    ));
    assert!(holds(
        &code,
        "__r.extend(<T as ::stakit_model::TSType>::ts_ref().chars().filter(|c| c.is_alphanumeric()));"
    ));
}

#[test]
fn rules_become_calls() {
    let code = derive_model(
        r#"struct S {
            #[validate(min_len = 3, max_len = 9)] user_name: String,
            #[validate(email, prefix("a"), custom(check))] mail: String,
            #[validate(range(min = 1, max = 5))] n: u8,
            #[validate(length(equal = 4))] code: String,
            #[validate(pattern = "^x\\d$")] p: String,
            #[validate(dive)] inner: Other,
            #[validate(skip, url)] skipped: String,
            plain: String
        }"#,
        true,
    )
    .unwrap();
    parses(&code);
    assert!(holds(&code, "let Self { user_name, mail, n, code, p, inner, .. } = self;"));
    assert!(holds(
        &code,
        "::stakit_model::validate::length(user_name, ::core::option::Option::Some(3), ::core::option::Option::None)"
    ));
    assert!(holds(
        &code,
        "::stakit_model::validate::length(user_name, ::core::option::Option::None, ::core::option::Option::Some(9))"
    ));
    assert!(holds(&code, "__errors.push(__e.at_field(\"userName\"));"));
    assert!(holds(&code, "::stakit_model::validate::email(mail)"));
    assert!(holds(&code, "::stakit_model::validate::prefix(mail, \"a\")"));
    assert!(holds(&code, "(check)(mail)"));
    assert!(holds(
        &code,
        "::stakit_model::validate::range(n, ::core::option::Option::Some(1), ::core::option::Option::Some(5))"
    ));
    assert!(holds(
        &code,
        "::stakit_model::validate::length(code, ::core::option::Option::Some(4), ::core::option::Option::Some(4))"
    ));
    assert!(holds(&code, "::stakit_model::validate::Regex::new(\"^x\\\\d$\")"));
    assert!(holds(&code, "::stakit_model::Validate::validate(inner)"));
    assert!(!holds(&code, "::stakit_model::validate::url"));
}

#[test]
fn bad_rules_are_refused() {
    let with = |rule: &str| derive_model(&format!("struct S {{ #[validate({rule})] f: String }}"), false);
    assert_eq!(
        with("shiny").unwrap_err(),
        "unsupported garde rule `shiny` in stakit-model v1"
    );
    assert_eq!(with("email = 1").unwrap_err(), "expected `,`");
    assert_eq!(with("length").unwrap_err(), "expected parentheses");
    assert_eq!(with("length()").unwrap_err(), "expected nested attribute");
    assert_eq!(
        with("range(least = 1)").unwrap_err(),
        "expected `min`, `max`, or `equal`"
    );
    assert_eq!(with("min_len").unwrap_err(), "expected `=`");
    assert_eq!(with("pattern(7)").unwrap_err(), "expected string literal");
    assert!(with("contains()").is_err());
    assert!(with("skip").is_ok());
    assert_eq!(
        derive_model("struct S { #[validate = \"x\"] f: String }", false).unwrap_err(),
        "expected parentheses: #[validate(...)]"
    );
    assert!(derive_model("struct S { #[validate] f: String }", false).is_err());
    assert!(derive_model("struct S { #[other(thing)] f: String }", false).is_ok());
    assert_eq!(
        derive_model("union U { a: u8 }", false).unwrap_err(),
        "`#[derive(Model)]` does not support unions"
    );
    assert!(derive_model("fn f() {}", false).is_err());
}

#[test]
fn schemas_carry_keywords_and_descriptions() {
    let code = derive_json_schema(
        r#"struct EchoArgs {
            /// Text to echo back
            #[validate(min_len = 1)] text: String,
            #[arg(description = "how often")] #[validate(max = 9, email)] times_over: Option<u32>
        }"#,
        true,
    )
    .unwrap();
    parses(&code);
    assert!(holds(&code, "impl ::stakit_model::JsonSchema for EchoArgs"));
    assert!(holds(&code, "let mut __s = <u32 as ::stakit_model::JsonSchema>::schema();"));
    assert!(holds(&code, "\"Text to echo back\""));
    assert!(holds(&code, "\"how often\""));
    assert!(holds(&code, "if __arr { \"minItems\" } else { \"minLength\" }"));
    assert!(holds(&code, "::std::string::String::from(\"maximum\")"));
    assert!(holds(
        &code,
        "__required.push(::stakit_model::__serde_json::Value::String(::std::string::String::from(\"text\")));"
    ));
    assert!(!holds(
        &code,
        "__required.push(::stakit_model::__serde_json::Value::String(::std::string::String::from(\"timesOver\")));"
    ));
}

#[test]
fn schemas_of_enums() {
    let names = derive_json_schema("enum Color { Red, Green }", false).unwrap();
    parses(&names);
    assert!(holds(
        &names,
        "json!({ \"type\": \"string\", \"enum\": [ \"Red\", \"Green\" ] })"
    ));
    let mixed = derive_json_schema("enum M { A, B(u8), C(u8, u16), D { x: u8 } }", false).unwrap();
    parses(&mixed);
    assert!(holds(&mixed, "json!({ \"oneOf\": __variants })"));
    assert!(holds(&mixed, "json!({ \"type\": \"string\", \"const\": \"A\" })"));
    assert!(holds(&mixed, "\"minItems\": 2usize, \"maxItems\": 2usize"));
    assert!(holds(
        &derive_json_schema("enum N {}", false).unwrap(),
        "json!({ \"not\": {} })"
    ));
    assert!(holds(
        &derive_json_schema("struct U;", false).unwrap(),
        "json!({ \"type\": \"null\" })"
    ));
}

#[test]
fn the_model_attribute_renames_what_the_export_renames() {
    let s = model("struct S { a_b: u8 }", true).unwrap();
    parses(&s);
    assert!(holds(&s, "#[serde(rename_all = \"camelCase\")]"));
    let e = model("enum E { A { b_c: u8 } }", true).unwrap();
    parses(&e);
    assert!(holds(&e, "#[serde(rename_all_fields = \"camelCase\")]"));
    let plain = model("struct S { a_b: u8 }", false).unwrap();
    assert!(!plain.contains("serde(rename"));
    assert!(holds(
        &plain,
        "#[derive(::stakit_model::Model, ::serde::Serialize, ::serde::Deserialize)]"
    ));
    assert!(model("fn f() {}", true).is_err());
}

#[test]
fn fields_keep_their_order_and_positions() {
    let m = ir::parse("struct P(#[validate(ascii)] String, u8);", false).unwrap();
    let ir::Ir::Struct {
        body: ir::Body::Tuple(fields),
    } = m.ir
    else {
        panic!("expected a tuple struct");
    };
    assert_eq!(fields[0].binding, "__field_0");
    assert_eq!(fields[1].label, "1");
    assert_eq!(fields[0].rules.len(), 1);
}

#[test]
fn a_literal_is_read_as_what_was_written() {
    for text in ["", "plain", "a \"quoted\" \\ back", "line\nbreak\r\ttab\0", "umlaut \u{e4} \u{1f600}"] {
        let literal = write_literal(text);
        let read: syn::LitStr = syn::parse_str(&literal).expect("a literal");
        assert_eq!(read.value(), text);
    }
}

fn type_path(text: &str, ident: &str, args: Option<Vec<TypeArg>>) -> TypeSyntax {
    TypeSyntax {
        text: text.to_owned(),
        form: TypeForm::Path(vec![SegmentSyntax {
            ident: ident.to_owned(),
            args,
        }]),
    }
}

#[test]
fn a_tree_gives_the_code_of_its_text() {
    let item = ItemSyntax {
        ident: "User".to_owned(),
        params: Vec::new(),
        where_clause: String::new(),
        data: DataSyntax::Struct(FieldsSyntax::Named(vec![
            FieldSyntax {
                name: Some("user_name".to_owned()),
                ty: type_path("String", "String", None),
                attrs: vec![AttrSyntax {
                    name: Some("validate".to_owned()),
                    arg: AttrArg::List(Ok(vec![RuleSyntax {
                        name: Some("ascii".to_owned()),
                        arg: RuleArg::Word,
                    }])),
                }],
            },
            FieldSyntax {
                name: Some("age".to_owned()),
                ty: type_path(
                    "Option<u32>",
                    "Option",
                    Some(vec![TypeArg::Type("u32".to_owned())]),
                ),
                attrs: Vec::new(),
            },
        ])),
    };
    let from_tree = derive_model_from(item, true).unwrap();
    let from_text = derive_model(
        "struct User { #[validate(ascii)] user_name: String, age: Option<u32> }",
        true,
    )
    .unwrap();
    assert_eq!(tokens(&from_tree), tokens(&from_text));
}

#[test]
fn a_tree_of_a_function_gives_the_code_of_its_text() {
    let function = |inputs| FnSyntax {
        vis: "pub".to_owned(),
        name: "ping".to_owned(),
        inputs,
        output: Some(type_path(
            "Result<u8, ToolError>",
            "Result",
            Some(vec![
                TypeArg::Type("u8".to_owned()),
                TypeArg::Type("ToolError".to_owned()),
            ]),
        )),
        block: "{ Ok(1) }".to_owned(),
        attrs: Vec::new(),
    };
    let from_tree = expand_read(&function(Vec::new()), &Vec::new()).unwrap();
    let from_text = tool("", "pub fn ping() -> Result<u8, ToolError> { Ok(1) }").unwrap();
    assert_eq!(tokens(&from_tree), tokens(&from_text));
    assert_eq!(
        expand_read(&function(vec![FnInput::Receiver]), &Vec::new()).unwrap_err(),
        "`#[tool]` does not take `self`"
    );
}

#[test]
fn the_items_of_a_tool_attribute() {
    let args = parse_attr("description = \"does it\", name = \"first\", name = \"last\"").unwrap();
    assert_eq!(args.name.as_deref(), Some("last"));
    assert_eq!(args.description.as_deref(), Some("does it"));
    let none = parse_attr("").unwrap();
    let blank = parse_attr("  ").unwrap();
    assert!(blank.name.is_none() && blank.description.is_none());
    assert!(none.name.is_none() && none.description.is_none());
    assert!(parse_attr("= 3").is_err());
}

#[test]
fn bounds_that_end_in_a_plus_take_no_other() {
    let code = derive_model("struct S<T: Clone +> { f: T }", false).unwrap();
    parses(&code);
    assert!(holds(&code, "impl<T: Clone + ::stakit_model::TSType>"));
}
