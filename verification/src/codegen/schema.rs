//! JSON Schema: the implementation of `JsonSchema` for a model.
//!
//! Rules become keywords where there are any for them; an optional field is not
//! required.

use crate::codegen::ir::{
    Body, BodyView, Field, FieldView, Ir, IrView, Model, ModelView, Rule, RuleView, Variant,
    VariantView,
};
use crate::codegen::syntax;
use crate::codegen::syntax::write_literal;
use crate::text;
use crate::text::{decimal_text, join};
use crate::views;
use vstd::prelude::*;

verus! {

/// The JSON value of an expression.
pub open spec fn json_number(expr: Seq<char>) -> Seq<char> {
    "::stakit_model::__serde_json::json!("@ + expr + ")"@
}

/// The statements that set a bound of a length: an array has its own keyword.
pub open spec fn length_bound(
    key_len: Seq<char>,
    key_items: Seq<char>,
    expr: Option<Seq<char>>,
) -> Seq<char> {
    match expr {
        None => Seq::empty(),
        Some(e) => "{ let __v = "@
            + json_number(e)
            + "; let __arr = __o.get(\"type\").and_then(|__t| __t.as_str()) == \
                ::core::option::Option::Some(\"array\"); let __key = if __arr { "@
            + syntax::string_literal(key_items) + " } else { "@ + syntax::string_literal(key_len)
            + " }; __o.insert(::std::string::String::from(__key), __v); }"@,
    }
}

/// The statement that sets a bound of a value.
pub open spec fn value_bound(key: Seq<char>, expr: Option<Seq<char>>) -> Seq<char> {
    match expr {
        None => Seq::empty(),
        Some(e) => "__o.insert(::std::string::String::from("@
            + syntax::string_literal(key) + "), "@ + json_number(e) + ");"@,
    }
}

/// The statement that sets a keyword to a text.
pub open spec fn text_keyword(key: Seq<char>, value: Seq<char>) -> Seq<char> {
    "__o.insert(::std::string::String::from("@
        + syntax::string_literal(key)
        + "), ::stakit_model::__serde_json::Value::String(::std::string::String::from("@
        + syntax::string_literal(value) + ")));"@
}

/// The keywords of a rule. A rule that no keyword describes has none.
pub open spec fn rule_keywords(rule: RuleView) -> Seq<char> {
    match rule {
        RuleView::Length { min, max } => length_bound("minLength"@, "minItems"@, min) + " "@
            + length_bound("maxLength"@, "maxItems"@, max),
        RuleView::Range { min, max } => value_bound("minimum"@, min) + " "@ + value_bound(
            "maximum"@,
            max,
        ),
        RuleView::Pattern(pattern) => text_keyword("pattern"@, pattern),
        RuleView::Email => text_keyword("format"@, "email"@),
        RuleView::Url => text_keyword("format"@, "uri"@),
        _ => Seq::empty(),
    }
}

/// The expression for the schema of a field's type.
pub open spec fn type_schema(field: FieldView) -> Seq<char> {
    "<"@ + crate::codegen::ts::shown_type(field) + " as ::stakit_model::JsonSchema>::schema()"@
}

/// The statement that sets the description of a field.
pub open spec fn description_keyword(field: FieldView) -> Seq<char> {
    match field.description {
        Some(description) => text_keyword("description"@, description),
        None => Seq::empty(),
    }
}

/// The statements that add the property of a field.
pub open spec fn property_code(field: FieldView) -> Seq<char> {
    "{ let mut __s = "@
        + type_schema(field)
        + "; if let ::core::option::Option::Some(__o) = __s.as_object_mut() { "@
        + text::joined(field.rules.map_values(|x: RuleView| rule_keywords(x)), " "@) + " "@
        + description_keyword(field) + " } __props.insert(::std::string::String::from("@
        + syntax::string_literal(field.wire) + "), __s); }"@
}

/// Whether a field must be there.
pub open spec fn is_required(field: FieldView) -> bool {
    field.inner is None
}

/// The statement that lists a field as required.
pub open spec fn required_code(field: FieldView) -> Seq<char> {
    "__required.push(::stakit_model::__serde_json::Value::String(::std::string::String::from("@
        + syntax::string_literal(field.wire) + ")));"@
}

/// The expression for the schema of named fields.
pub open spec fn object_code(fields: Seq<FieldView>) -> Seq<char> {
    "{ let mut __props = ::stakit_model::__serde_json::Map::new(); let mut __required: \
        ::std::vec::Vec<::stakit_model::__serde_json::Value> = ::std::vec::Vec::new(); "@
        + text::joined(fields.map_values(|x: FieldView| property_code(x)), " "@) + " "@
        + text::joined(required_codes(fields), " "@)
        + " let mut __root = ::stakit_model::__serde_json::Map::new(); \
            __root.insert(::std::string::String::from(\"type\"), \
            ::stakit_model::__serde_json::Value::String(::std::string::String::from(\"object\"))); \
            __root.insert(::std::string::String::from(\"properties\"), \
            ::stakit_model::__serde_json::Value::Object(__props)); if !__required.is_empty() { \
            __root.insert(::std::string::String::from(\"required\"), \
            ::stakit_model::__serde_json::Value::Array(__required)); } \
            ::stakit_model::__serde_json::Value::Object(__root) }"@
}

/// The statement that adds the schema of a field by position.
pub open spec fn item_code(field: FieldView) -> Seq<char> {
    "__items.push("@ + type_schema(field) + ");"@
}

/// The expression for the schema of fields by position.
pub open spec fn tuple_code(fields: Seq<FieldView>) -> Seq<char> {
    let count = text::decimal(fields.len()) + "usize"@;
    "{ let mut __items: ::std::vec::Vec<::stakit_model::__serde_json::Value> = \
        ::std::vec::Vec::new(); "@
        + text::joined(fields.map_values(|x: FieldView| item_code(x)), " "@)
        + " ::stakit_model::__serde_json::json!({ \"type\": \"array\", \"prefixItems\": __items, \
            \"minItems\": "@
        + count + ", \"maxItems\": "@ + count + " }) }"@
}

/// The expression for the schema of a struct.
pub open spec fn struct_code(body: BodyView) -> Seq<char> {
    match body {
        BodyView::Named(fields) => object_code(fields),
        BodyView::Tuple(fields) => tuple_code(fields),
        BodyView::Unit => "::stakit_model::__serde_json::json!({ \"type\": \"null\" })"@,
    }
}

/// The statement that adds the schema of a variant with a payload, tagged by the
/// variant's name.
pub open spec fn tagged_code(name: Seq<char>, inner: Seq<char>) -> Seq<char> {
    let tag = syntax::string_literal(name);
    "{ let __inner = "@
        + inner
        + "; __variants.push(::stakit_model::__serde_json::json!({ \"type\": \"object\", \
            \"properties\": { "@
        + tag + ": __inner }, \"required\": [ "@ + tag + " ] })); }"@
}

/// The statement that adds the schema of a variant.
pub open spec fn variant_code(variant: VariantView) -> Seq<char> {
    match variant.body {
        BodyView::Unit => "__variants.push(::stakit_model::__serde_json::json!({ \"type\": \
            \"string\", \"const\": "@
            + syntax::string_literal(variant.ident) + " }));"@,
        BodyView::Named(fields) => tagged_code(variant.ident, object_code(fields)),
        BodyView::Tuple(fields) => if fields.len() == 1 {
            tagged_code(variant.ident, type_schema(fields[0]))
        } else {
            tagged_code(variant.ident, tuple_code(fields))
        },
    }
}

/// The name of a variant as a literal.
pub open spec fn name_literal(variant: VariantView) -> Seq<char> {
    syntax::string_literal(variant.ident)
}

/// Whether every variant is without fields.
pub open spec fn all_unit(variants: Seq<VariantView>) -> bool {
    forall|i: int| 0 <= i < variants.len() ==> (#[trigger] variants[i]).body is Unit
}

/// The expression for the schema of an enum: nothing, a choice of names, or one
/// of its variants.
pub open spec fn enum_code(variants: Seq<VariantView>) -> Seq<char> {
    if variants.len() == 0 {
        "::stakit_model::__serde_json::json!({ \"not\": {} })"@
    } else if all_unit(variants) {
        "::stakit_model::__serde_json::json!({ \"type\": \"string\", \"enum\": [ "@
            + text::joined(variants.map_values(|x: VariantView| name_literal(x)), ", "@)
            + " ] })"@
    } else {
        "{ let mut __variants: ::std::vec::Vec<::stakit_model::__serde_json::Value> = \
            ::std::vec::Vec::new(); "@
            + text::joined(variants.map_values(|x: VariantView| variant_code(x)), " "@)
            + " ::stakit_model::__serde_json::json!({ \"oneOf\": __variants }) }"@
    }
}

/// The implementation of `JsonSchema` for a model.
pub open spec fn schema_impl(model: ModelView) -> Seq<char> {
    let body = match model.ir {
        IrView::Struct { body } => struct_code(body),
        IrView::Enum { variants } => enum_code(variants),
    };
    "impl ::stakit_model::JsonSchema for "@
        + model.ident + " { fn schema() -> ::stakit_model::__serde_json::Value { "@ + body
        + " } }"@
}

fn write_number(expr: &str) -> (code: String)
    ensures
        code@ == json_number(expr@),
{
    "::stakit_model::__serde_json::json!(".to_owned().concat(expr).concat(")")
}

fn write_length_bound(key_len: &str, key_items: &str, expr: &Option<String>) -> (code: String)
    ensures
        code@ == length_bound(key_len@, key_items@, views::optional(*expr)),
{
    match expr {
        None => String::new(),
        Some(e) => {
            "{ let __v = ".to_owned()
                .concat(write_number(e.as_str()).as_str())
                .concat("; let __arr = __o.get(\"type\").and_then(|__t| __t.as_str()) == \
                    ::core::option::Option::Some(\"array\"); let __key = if __arr { ")
                .concat(write_literal(key_items).as_str()).concat(" } else { ")
                .concat(write_literal(key_len).as_str())
                .concat(" }; __o.insert(::std::string::String::from(__key), __v); }")
        },
    }
}

fn write_value_bound(key: &str, expr: &Option<String>) -> (code: String)
    ensures
        code@ == value_bound(key@, views::optional(*expr)),
{
    match expr {
        None => String::new(),
        Some(e) => {
            "__o.insert(::std::string::String::from(".to_owned()
                .concat(write_literal(key).as_str()).concat("), ")
                .concat(write_number(e.as_str()).as_str()).concat(");")
        },
    }
}

fn write_text_keyword(key: &str, value: &str) -> (code: String)
    ensures
        code@ == text_keyword(key@, value@),
{
    "__o.insert(::std::string::String::from(".to_owned()
        .concat(write_literal(key).as_str())
        .concat("), ::stakit_model::__serde_json::Value::String(::std::string::String::from(")
        .concat(write_literal(value).as_str()).concat(")));")
}

/// Writes the keywords of a rule.
pub fn rule_tokens(rule: &Rule) -> (code: String)
    ensures
        code@ == rule_keywords(rule@),
{
    match rule {
        Rule::Length { min, max } => write_length_bound("minLength", "minItems", min).concat(
            " ",
        ).concat(write_length_bound("maxLength", "maxItems", max).as_str()),
        Rule::Range { min, max } => write_value_bound("minimum", min).concat(" ").concat(
            write_value_bound("maximum", max).as_str(),
        ),
        Rule::Pattern(pattern) => write_text_keyword("pattern", pattern.as_str()),
        Rule::Email => write_text_keyword("format", "email"),
        Rule::Url => write_text_keyword("format", "uri"),
        _ => String::new(),
    }
}

/// The keywords of the rules.
fn keyword_texts(items: &Vec<Rule>) -> (texts: Vec<String>)
    ensures
        views::each(texts@) == views::each(items@).map_values(|x: RuleView| rule_keywords(x)),
{
    let mut texts: Vec<String> = Vec::new();
    let mut i: usize = 0;
    while i < items.len()
        invariant
            i <= items@.len(),
            texts@.len() == i,
            forall|j: int| 0 <= j < i ==> (#[trigger] texts@[j])@ == rule_keywords(items@[j]@),
        decreases items@.len() - i,
    {
        texts.push(rule_tokens(&items[i]));
        i = i + 1;
    }
    assert(views::each(texts@) =~= views::each(items@).map_values(|x: RuleView| rule_keywords(x)));
    texts
}

fn write_type_schema(field: &Field) -> (code: String)
    ensures
        code@ == type_schema(field@),
{
    let ty = match &field.inner {
        Some(inner) => inner,
        None => &field.ty,
    };
    "<".to_owned().concat(ty.as_str()).concat(" as ::stakit_model::JsonSchema>::schema()")
}

fn write_description(field: &Field) -> (code: String)
    ensures
        code@ == description_keyword(field@),
{
    match &field.description {
        Some(description) => write_text_keyword("description", description.as_str()),
        None => String::new(),
    }
}

/// Writes the statements that add the property of a field.
pub fn named_property(field: &Field) -> (code: String)
    ensures
        code@ == property_code(field@),
{
    "{ let mut __s = ".to_owned()
        .concat(write_type_schema(field).as_str())
        .concat("; if let ::core::option::Option::Some(__o) = __s.as_object_mut() { ")
        .concat(join(&keyword_texts(&field.rules), " ").as_str()).concat(" ")
        .concat(write_description(field).as_str())
        .concat(" } __props.insert(::std::string::String::from(")
        .concat(write_literal(field.wire.as_str()).as_str()).concat("), __s); }")
}

fn required(field: &Field) -> (yes: bool)
    ensures
        yes == is_required(field@),
{
    field.inner.is_none()
}

fn write_required(field: &Field) -> (code: String)
    ensures
        code@ == required_code(field@),
{
    "__required.push(::stakit_model::__serde_json::Value::String(::std::string::String::from(".to_owned()
        .concat(write_literal(field.wire.as_str()).as_str()).concat(")));")
}

/// The statements that list the required fields, in order.
pub open spec fn required_codes(items: Seq<FieldView>) -> Seq<Seq<char>>
    decreases items.len(),
{
    if items.len() == 0 {
        Seq::empty()
    } else {
        let before = required_codes(items.drop_last());
        if is_required(items.last()) {
            before.push(required_code(items.last()))
        } else {
            before
        }
    }
}

/// The statements that list the required fields.
fn required_texts(items: &Vec<Field>) -> (texts: Vec<String>)
    ensures
        views::each(texts@) == required_codes(views::each(items@)),
{
    let ghost all = views::each(items@);
    let mut texts: Vec<String> = Vec::new();
    let mut i: usize = 0;
    assert(views::each(texts@) =~= required_codes(all.take(0)));
    while i < items.len()
        invariant
            i <= items@.len(),
            all == views::each(items@),
            views::each(texts@) == required_codes(all.take(i as int)),
        decreases items@.len() - i,
    {
        assert(all.take(i + 1).drop_last() =~= all.take(i as int));
        assert(all.take(i + 1).last() == items@[i as int]@);
        if required(&items[i]) {
            let ghost before = views::each(texts@);
            let text = write_required(&items[i]);
            texts.push(text);
            assert(views::each(texts@) =~= before.push(text@));
        }
        i = i + 1;
    }
    assert(all.take(i as int) =~= all);
    texts
}

/// The statements that add the properties.
fn property_texts(items: &Vec<Field>) -> (texts: Vec<String>)
    ensures
        views::each(texts@) == views::each(items@).map_values(|x: FieldView| property_code(x)),
{
    let mut texts: Vec<String> = Vec::new();
    let mut i: usize = 0;
    while i < items.len()
        invariant
            i <= items@.len(),
            texts@.len() == i,
            forall|j: int| 0 <= j < i ==> (#[trigger] texts@[j])@ == property_code(items@[j]@),
        decreases items@.len() - i,
    {
        texts.push(named_property(&items[i]));
        i = i + 1;
    }
    assert(views::each(texts@) =~= views::each(items@).map_values(|x: FieldView| property_code(x)));
    texts
}

/// Writes the expression for the schema of named fields.
pub fn object_schema(fields: &Vec<Field>) -> (code: String)
    ensures
        code@ == object_code(views::each(fields@)),
{
    "{ let mut __props = ::stakit_model::__serde_json::Map::new(); let mut __required: \
        ::std::vec::Vec<::stakit_model::__serde_json::Value> = ::std::vec::Vec::new(); ".to_owned()
        .concat(join(&property_texts(fields), " ").as_str()).concat(" ")
        .concat(join(&required_texts(fields), " ").as_str())
        .concat(" let mut __root = ::stakit_model::__serde_json::Map::new(); \
            __root.insert(::std::string::String::from(\"type\"), \
            ::stakit_model::__serde_json::Value::String(::std::string::String::from(\"object\"))); \
            __root.insert(::std::string::String::from(\"properties\"), \
            ::stakit_model::__serde_json::Value::Object(__props)); if !__required.is_empty() { \
            __root.insert(::std::string::String::from(\"required\"), \
            ::stakit_model::__serde_json::Value::Array(__required)); } \
            ::stakit_model::__serde_json::Value::Object(__root) }")
}

fn write_item(field: &Field) -> (code: String)
    ensures
        code@ == item_code(field@),
{
    "__items.push(".to_owned().concat(write_type_schema(field).as_str()).concat(");")
}

/// The statements that add the schemas by position.
fn item_texts(items: &Vec<Field>) -> (texts: Vec<String>)
    ensures
        views::each(texts@) == views::each(items@).map_values(|x: FieldView| item_code(x)),
{
    let mut texts: Vec<String> = Vec::new();
    let mut i: usize = 0;
    while i < items.len()
        invariant
            i <= items@.len(),
            texts@.len() == i,
            forall|j: int| 0 <= j < i ==> (#[trigger] texts@[j])@ == item_code(items@[j]@),
        decreases items@.len() - i,
    {
        texts.push(write_item(&items[i]));
        i = i + 1;
    }
    assert(views::each(texts@) =~= views::each(items@).map_values(|x: FieldView| item_code(x)));
    texts
}

/// Writes the expression for the schema of fields by position.
pub fn tuple_schema(fields: &Vec<Field>) -> (code: String)
    ensures
        code@ == tuple_code(views::each(fields@)),
{
    let count = decimal_text(fields.len() as u64).concat("usize");
    "{ let mut __items: ::std::vec::Vec<::stakit_model::__serde_json::Value> = \
        ::std::vec::Vec::new(); ".to_owned()
        .concat(join(&item_texts(fields), " ").as_str())
        .concat(" ::stakit_model::__serde_json::json!({ \"type\": \"array\", \"prefixItems\": \
            __items, \"minItems\": ")
        .concat(count.as_str()).concat(", \"maxItems\": ").concat(count.as_str()).concat(" }) }")
}

/// Writes the expression for the schema of a struct.
pub fn struct_schema(body: &Body) -> (code: String)
    ensures
        code@ == struct_code(body@),
{
    match body {
        Body::Named(fields) => object_schema(fields),
        Body::Tuple(fields) => tuple_schema(fields),
        Body::Unit => "::stakit_model::__serde_json::json!({ \"type\": \"null\" })".to_owned(),
    }
}

fn write_tagged(name: &str, inner: &str) -> (code: String)
    ensures
        code@ == tagged_code(name@, inner@),
{
    let tag = write_literal(name);
    "{ let __inner = ".to_owned()
        .concat(inner)
        .concat("; __variants.push(::stakit_model::__serde_json::json!({ \"type\": \"object\", \
            \"properties\": { ")
        .concat(tag.as_str()).concat(": __inner }, \"required\": [ ").concat(tag.as_str())
        .concat(" ] })); }")
}

/// Writes the statement that adds the schema of a variant.
pub fn variant_schema(variant: &Variant) -> (code: String)
    ensures
        code@ == variant_code(variant@),
{
    match &variant.body {
        Body::Unit => {
            "__variants.push(::stakit_model::__serde_json::json!({ \"type\": \"string\", \
                \"const\": ".to_owned()
                .concat(write_literal(variant.ident.as_str()).as_str()).concat(" }));")
        },
        Body::Named(fields) => {
            write_tagged(variant.ident.as_str(), object_schema(fields).as_str())
        },
        Body::Tuple(fields) => if fields.len() == 1 {
            assert(views::each(fields@)[0] == fields@[0]@);
            write_tagged(variant.ident.as_str(), write_type_schema(&fields[0]).as_str())
        } else {
            write_tagged(variant.ident.as_str(), tuple_schema(fields).as_str())
        },
    }
}

fn write_name(variant: &Variant) -> (code: String)
    ensures
        code@ == name_literal(variant@),
{
    write_literal(variant.ident.as_str())
}

/// The statements that add the schemas of the variants.
fn variant_texts(items: &Vec<Variant>) -> (texts: Vec<String>)
    ensures
        views::each(texts@) == views::each(items@).map_values(|x: VariantView| variant_code(x)),
{
    let mut texts: Vec<String> = Vec::new();
    let mut i: usize = 0;
    while i < items.len()
        invariant
            i <= items@.len(),
            texts@.len() == i,
            forall|j: int| 0 <= j < i ==> (#[trigger] texts@[j])@ == variant_code(items@[j]@),
        decreases items@.len() - i,
    {
        texts.push(variant_schema(&items[i]));
        i = i + 1;
    }
    assert(views::each(texts@) =~= views::each(items@).map_values(|x: VariantView| variant_code(x)));
    texts
}

/// The names of the variants.
fn name_texts(items: &Vec<Variant>) -> (texts: Vec<String>)
    ensures
        views::each(texts@) == views::each(items@).map_values(|x: VariantView| name_literal(x)),
{
    let mut texts: Vec<String> = Vec::new();
    let mut i: usize = 0;
    while i < items.len()
        invariant
            i <= items@.len(),
            texts@.len() == i,
            forall|j: int| 0 <= j < i ==> (#[trigger] texts@[j])@ == name_literal(items@[j]@),
        decreases items@.len() - i,
    {
        texts.push(write_name(&items[i]));
        i = i + 1;
    }
    assert(views::each(texts@) =~= views::each(items@).map_values(|x: VariantView| name_literal(x)));
    texts
}

fn only_units(variants: &Vec<Variant>) -> (yes: bool)
    ensures
        yes == all_unit(views::each(variants@)),
{
    let ghost all = views::each(variants@);
    let mut i: usize = 0;
    while i < variants.len()
        invariant
            i <= variants@.len(),
            all == views::each(variants@),
            forall|j: int| 0 <= j < i ==> (#[trigger] all[j]).body is Unit,
        decreases variants@.len() - i,
    {
        assert(all[i as int] == variants@[i as int]@);
        match &variants[i].body {
            Body::Unit => {},
            _ => {
                assert(!(all[i as int].body is Unit));
                return false;
            },
        }
        i = i + 1;
    }
    true
}

/// Writes the expression for the schema of an enum.
pub fn enum_schema(variants: &Vec<Variant>) -> (code: String)
    ensures
        code@ == enum_code(views::each(variants@)),
{
    if variants.len() == 0 {
        "::stakit_model::__serde_json::json!({ \"not\": {} })".to_owned()
    } else if only_units(variants) {
        "::stakit_model::__serde_json::json!({ \"type\": \"string\", \"enum\": [ ".to_owned()
            .concat(join(&name_texts(variants), ", ").as_str()).concat(" ] })")
    } else {
        "{ let mut __variants: ::std::vec::Vec<::stakit_model::__serde_json::Value> = \
            ::std::vec::Vec::new(); ".to_owned()
            .concat(join(&variant_texts(variants), " ").as_str())
            .concat(" ::stakit_model::__serde_json::json!({ \"oneOf\": __variants }) }")
    }
}

/// Writes the implementation of `JsonSchema` for a model.
pub fn expand(model: &Model) -> (code: String)
    ensures
        code@ == schema_impl(model@),
{
    let body = match &model.ir {
        Ir::Struct { body } => struct_schema(body),
        Ir::Enum { variants } => enum_schema(variants),
    };
    "impl ::stakit_model::JsonSchema for ".to_owned()
        .concat(model.ident.as_str())
        .concat(" { fn schema() -> ::stakit_model::__serde_json::Value { ").concat(body.as_str())
        .concat(" } }")
}

/// An optional field is never listed as required, any other always is, in
/// order.
pub proof fn only_optional_fields_may_be_missing(fields: Seq<FieldView>, field: FieldView)
    ensures
        field.inner is Some ==> required_codes(fields.push(field)) == required_codes(fields),
        field.inner is None ==> required_codes(fields.push(field)) == required_codes(fields).push(
            required_code(field),
        ),
{
    assert(fields.push(field).drop_last() =~= fields);
}

/// Nothing but blanks.
pub open spec fn is_blank(code: Seq<char>) -> bool {
    forall|i: int| 0 <= i < code.len() ==> #[trigger] code[i] == ' '
}

/// The statement sets the keyword to the value, whatever the type of the schema.
pub open spec fn sets_keyword(code: Seq<char>, key: Seq<char>, value: Seq<char>) -> bool {
    exists|literal: Seq<char>| #[trigger]
        syntax::is_literal_of(literal, key) && code
            == "__o.insert(::std::string::String::from("@ + literal + "), "@ + value + ");"@
}

/// The statement sets one keyword in the schema of an array, and another in any
/// other schema, to the value.
pub open spec fn sets_by_type(
    code: Seq<char>,
    array_key: Seq<char>,
    other_key: Seq<char>,
    value: Seq<char>,
) -> bool {
    exists|first: Seq<char>, second: Seq<char>| #[trigger]
        syntax::is_literal_of(first, array_key) && #[trigger] syntax::is_literal_of(
            second,
            other_key,
        ) && code == "{ let __v = "@
            + value
            + "; let __arr = __o.get(\"type\").and_then(|__t| __t.as_str()) == \
                ::core::option::Option::Some(\"array\"); let __key = if __arr { "@
            + first + " } else { "@ + second
            + " }; __o.insert(::std::string::String::from(__key), __v); }"@
}

/// Running the statement on the schema of an array, or on another, sets this keyword
/// to this value.
pub open spec fn sets(code: Seq<char>, array: bool, setting: (Seq<char>, Seq<char>)) -> bool {
    ||| sets_keyword(code, setting.0, setting.1)
    ||| exists|array_key: Seq<char>, other_key: Seq<char>| #[trigger]
        sets_by_type(code, array_key, other_key, setting.1) && setting.0 == (if array {
            array_key
        } else {
            other_key
        })
}

/// The code falls into what comes before a statement, the statement, and what
/// comes after it.
pub open spec fn falls_into(
    code: Seq<char>,
    before: Seq<char>,
    statement: Seq<char>,
    after: Seq<char>,
) -> bool {
    code == before + statement + after
}

/// Running the statements on the schema of an array, or on another, sets these
/// keywords to these values, in this order, and no others.
pub open spec fn runs_to(
    code: Seq<char>,
    array: bool,
    settings: Seq<(Seq<char>, Seq<char>)>,
) -> bool
    decreases settings.len(),
{
    if settings.len() == 0 {
        is_blank(code)
    } else {
        exists|before: Seq<char>, statement: Seq<char>, after: Seq<char>| #[trigger]
            falls_into(code, before, statement, after) && runs_to(
                before,
                array,
                settings.drop_last(),
            ) && sets(statement, array, settings.last()) && is_blank(after)
    }
}

/// The code of the number that an expression gives.
pub open spec fn number_code(expr: Seq<char>) -> Seq<char> {
    "::stakit_model::__serde_json::json!("@ + expr + ")"@
}

/// The code is that of a JSON string with this text.
pub open spec fn is_text_code(code: Seq<char>, text: Seq<char>) -> bool {
    exists|literal: Seq<char>| #[trigger]
        syntax::is_literal_of(literal, text) && code
            == "::stakit_model::__serde_json::Value::String(::std::string::String::from("@ + literal
            + "))"@
}

/// The settings of a bound, where it is given.
pub open spec fn bound_setting(key: Seq<char>, bound: Option<Seq<char>>) -> Seq<
    (Seq<char>, Seq<char>),
> {
    match bound {
        Some(expr) => seq![(key, number_code(expr))],
        None => Seq::empty(),
    }
}

/// The statement sets a keyword to a text.
pub open spec fn sets_text(code: Seq<char>, key: Seq<char>, text: Seq<char>) -> bool {
    exists|value: Seq<char>| #[trigger]
        is_text_code(value, text) && (forall|array: bool| #[trigger]
            runs_to(code, array, seq![(key, value)]))
}

proof fn lemma_runs_nothing(code: Seq<char>, array: bool)
    requires
        is_blank(code),
    ensures
        runs_to(code, array, Seq::empty()),
{
}

proof fn lemma_runs_one(code: Seq<char>, array: bool, setting: (Seq<char>, Seq<char>))
    requires
        sets(code, array, setting),
    ensures
        runs_to(code, array, seq![setting]),
{
    let nothing = Seq::<char>::empty();
    let settings = seq![setting];
    assert(settings.drop_last() =~= Seq::empty());
    lemma_runs_nothing(nothing, array);
    assert(runs_to(nothing, array, settings.drop_last()));
    assert(code =~= nothing + code + nothing);
    assert(falls_into(code, nothing, code, nothing));
}

/// Statements one after the other set what each of them sets.
proof fn lemma_runs_join(
    a: Seq<char>,
    b: Seq<char>,
    array: bool,
    first: Seq<(Seq<char>, Seq<char>)>,
    second: Seq<(Seq<char>, Seq<char>)>,
)
    requires
        runs_to(a, array, first),
        runs_to(b, array, second),
    ensures
        runs_to(a + b, array, first + second),
    decreases second.len(),
{
    if second.len() == 0 {
        assert(first + second =~= first);
        lemma_runs_pad(a, b, array, first);
    } else {
        let (before, statement, after) = choose|
            before: Seq<char>,
            statement: Seq<char>,
            after: Seq<char>,
        | #[trigger]
            falls_into(b, before, statement, after) && runs_to(before, array, second.drop_last())
                && sets(statement, array, second.last()) && is_blank(after);
        lemma_runs_join(a, before, array, first, second.drop_last());
        let all = first + second;
        assert(all.drop_last() =~= first + second.drop_last());
        assert(all.last() == second.last());
        assert(a + b =~= (a + before) + statement + after);
        assert(falls_into(a + b, a + before, statement, after));
    }
}

/// Blanks behind statements change nothing.
proof fn lemma_runs_pad(
    a: Seq<char>,
    blanks: Seq<char>,
    array: bool,
    settings: Seq<(Seq<char>, Seq<char>)>,
)
    requires
        runs_to(a, array, settings),
        is_blank(blanks),
    ensures
        runs_to(a + blanks, array, settings),
{
    if settings.len() == 0 {
        assert forall|i: int| 0 <= i < (a + blanks).len() implies #[trigger] (a + blanks)[i]
            == ' ' by {
            if i < a.len() {
                assert(a[i] == ' ');
            } else {
                assert(blanks[i - a.len()] == ' ');
            }
        }
    } else {
        let (before, statement, after) = choose|
            before: Seq<char>,
            statement: Seq<char>,
            after: Seq<char>,
        | #[trigger]
            falls_into(a, before, statement, after) && runs_to(before, array, settings.drop_last())
                && sets(statement, array, settings.last()) && is_blank(after);
        let more = after + blanks;
        assert forall|i: int| 0 <= i < more.len() implies #[trigger] more[i] == ' ' by {
            if i < after.len() {
                assert(after[i] == ' ');
            } else {
                assert(blanks[i - after.len()] == ' ');
            }
        }
        assert(a + blanks =~= before + statement + more);
        assert(falls_into(a + blanks, before, statement, more));
    }
}

proof fn lemma_one_blank()
    ensures
        is_blank(" "@),
{
    reveal_strlit(" ");
    assert(" "@ =~= seq![' ']);
}

proof fn lemma_length_bound(
    key_len: Seq<char>,
    key_items: Seq<char>,
    bound: Option<Seq<char>>,
    array: bool,
)
    ensures
        runs_to(
            length_bound(key_len, key_items, bound),
            array,
            bound_setting(
                if array {
                    key_items
                } else {
                    key_len
                },
                bound,
            ),
        ),
{
    let code = length_bound(key_len, key_items, bound);
    match bound {
        None => {
            lemma_runs_nothing(code, array);
        },
        Some(expr) => {
            let key = if array {
                key_items
            } else {
                key_len
            };
            syntax::a_literal_stands_for_its_text(key_items);
            syntax::a_literal_stands_for_its_text(key_len);
            assert(sets_by_type(code, key_items, key_len, number_code(expr)));
            assert(sets(code, array, (key, number_code(expr))));
            lemma_runs_one(code, array, (key, number_code(expr)));
        },
    }
}

proof fn lemma_value_bound(key: Seq<char>, bound: Option<Seq<char>>, array: bool)
    ensures
        runs_to(value_bound(key, bound), array, bound_setting(key, bound)),
{
    let code = value_bound(key, bound);
    match bound {
        None => {
            lemma_runs_nothing(code, array);
        },
        Some(expr) => {
            syntax::a_literal_stands_for_its_text(key);
            assert(sets_keyword(code, key, number_code(expr)));
            lemma_runs_one(code, array, (key, number_code(expr)));
        },
    }
}

/// The length of a text or a list is bounded as the rule says: the statements set the
/// smallest length where one is given, then the largest where one is given, under the
/// names for items in the schema of an array and for characters in any other, and set
/// nothing else.
pub proof fn a_length_is_bounded_on_the_right_side(
    min: Option<Seq<char>>,
    max: Option<Seq<char>>,
)
    ensures
        runs_to(
            rule_keywords(RuleView::Length { min, max }),
            false,
            bound_setting("minLength"@, min) + bound_setting("maxLength"@, max),
        ),
        runs_to(
            rule_keywords(RuleView::Length { min, max }),
            true,
            bound_setting("minItems"@, min) + bound_setting("maxItems"@, max),
        ),
{
    let low = length_bound("minLength"@, "minItems"@, min);
    let high = length_bound("maxLength"@, "maxItems"@, max);
    lemma_one_blank();
    lemma_length_bound("minLength"@, "minItems"@, min, false);
    lemma_length_bound("minLength"@, "minItems"@, min, true);
    lemma_length_bound("maxLength"@, "maxItems"@, max, false);
    lemma_length_bound("maxLength"@, "maxItems"@, max, true);
    lemma_runs_pad(low, " "@, false, bound_setting("minLength"@, min));
    lemma_runs_pad(low, " "@, true, bound_setting("minItems"@, min));
    lemma_runs_join(
        low + " "@,
        high,
        false,
        bound_setting("minLength"@, min),
        bound_setting("maxLength"@, max),
    );
    lemma_runs_join(
        low + " "@,
        high,
        true,
        bound_setting("minItems"@, min),
        bound_setting("maxItems"@, max),
    );
}

/// A number is bounded as the rule says: from below by `minimum` and from above by
/// `maximum`, each exactly where it is given.
pub proof fn a_value_is_bounded_on_the_right_side(
    min: Option<Seq<char>>,
    max: Option<Seq<char>>,
    array: bool,
)
    ensures
        runs_to(
            rule_keywords(RuleView::Range { min, max }),
            array,
            bound_setting("minimum"@, min) + bound_setting("maximum"@, max),
        ),
{
    let low = value_bound("minimum"@, min);
    lemma_one_blank();
    lemma_value_bound("minimum"@, min, array);
    lemma_value_bound("maximum"@, max, array);
    lemma_runs_pad(low, " "@, array, bound_setting("minimum"@, min));
    lemma_runs_join(
        low + " "@,
        value_bound("maximum"@, max),
        array,
        bound_setting("minimum"@, min),
        bound_setting("maximum"@, max),
    );
}

proof fn lemma_text_keyword(key: Seq<char>, text: Seq<char>)
    ensures
        sets_text(text_keyword(key, text), key, text),
{
    let code = text_keyword(key, text);
    let value = "::stakit_model::__serde_json::Value::String(::std::string::String::from("@
        + syntax::string_literal(text) + "))"@;
    syntax::a_literal_stands_for_its_text(key);
    syntax::a_literal_stands_for_its_text(text);
    assert(is_text_code(value, text));
    reveal_strlit("), ::stakit_model::__serde_json::Value::String(::std::string::String::from(");
    reveal_strlit("), ");
    reveal_strlit("::stakit_model::__serde_json::Value::String(::std::string::String::from(");
    reveal_strlit(")));");
    reveal_strlit("))");
    reveal_strlit(");");
    assert("), ::stakit_model::__serde_json::Value::String(::std::string::String::from("@
        =~= "), "@
        + "::stakit_model::__serde_json::Value::String(::std::string::String::from("@);
    assert(")));"@ =~= "))"@ + ");"@);
    assert(code =~= "__o.insert(::std::string::String::from("@ + syntax::string_literal(key)
        + "), "@ + value + ");"@);
    assert(sets_keyword(code, key, value));
    assert forall|array: bool| #[trigger] runs_to(code, array, seq![(key, value)]) by {
        assert(sets(code, array, (key, value)));
        lemma_runs_one(code, array, (key, value));
    }
}

/// A rule on the form of a text becomes the keyword for it: a pattern as it is, an
/// address and a link as their formats. A description is set as written. Rules that
/// no keyword describes, set none.
pub proof fn a_rule_on_texts_becomes_its_keyword(rule: RuleView, field: FieldView)
    ensures
        match rule {
            RuleView::Pattern(pattern) => sets_text(rule_keywords(rule), "pattern"@, pattern),
            RuleView::Email => sets_text(rule_keywords(rule), "format"@, "email"@),
            RuleView::Url => sets_text(rule_keywords(rule), "format"@, "uri"@),
            RuleView::Length { .. } => true,
            RuleView::Range { .. } => true,
            _ => rule_keywords(rule).len() == 0,
        },
        match field.description {
            Some(text) => sets_text(description_keyword(field), "description"@, text),
            None => description_keyword(field).len() == 0,
        },
{
    match rule {
        RuleView::Pattern(pattern) => lemma_text_keyword("pattern"@, pattern),
        RuleView::Email => lemma_text_keyword("format"@, "email"@),
        RuleView::Url => lemma_text_keyword("format"@, "uri"@),
        _ => {},
    }
    if let Some(text) = field.description {
        lemma_text_keyword("description"@, text);
    }
}

/// The property of a field stands under its name on the wire, and is the schema of
/// its type, of the inner one where it is optional, with the keywords of all its
/// rules in order and of its description.
pub proof fn a_property_describes_its_field(field: FieldView)
    ensures
        exists|name: Seq<char>, keywords: Seq<char>| #[trigger]
            syntax::is_literal_of(name, field.wire) && #[trigger] describes(keywords, field)
                && property_code(field) == "{ let mut __s = <"@ + (match field.inner {
                Some(inner) => inner,
                None => field.ty,
            }) + " as ::stakit_model::JsonSchema>::schema()"@
                + "; if let ::core::option::Option::Some(__o) = __s.as_object_mut() { "@ + keywords
                + " } __props.insert(::std::string::String::from("@ + name + "), __s); }"@,
{
    let keywords = text::joined(field.rules.map_values(|x: RuleView| rule_keywords(x)), " "@)
        + " "@ + description_keyword(field);
    let name = syntax::string_literal(field.wire);
    syntax::a_literal_stands_for_its_text(field.wire);
    assert(field.rules.map_values(|x: RuleView| rule_keywords(x)) =~= Seq::new(
        field.rules.len(),
        |i: int| rule_keywords(field.rules[i]),
    ));
    assert(describes(keywords, field));
    reveal_strlit("{ let mut __s = ");
    reveal_strlit("{ let mut __s = <");
    reveal_strlit("<");
    assert("{ let mut __s = <"@ =~= "{ let mut __s = "@ + "<"@);
    assert(property_code(field) =~= "{ let mut __s = <"@ + (match field.inner {
        Some(inner) => inner,
        None => field.ty,
    }) + " as ::stakit_model::JsonSchema>::schema()"@
        + "; if let ::core::option::Option::Some(__o) = __s.as_object_mut() { "@ + keywords
        + " } __props.insert(::std::string::String::from("@ + name + "), __s); }"@);
}

/// The keywords of a field: those of each rule, in order, then the description.
pub open spec fn describes(keywords: Seq<char>, field: FieldView) -> bool {
    keywords == text::joined(
        Seq::new(field.rules.len(), |i: int| rule_keywords(field.rules[i])),
        " "@,
    ) + " "@ + description_keyword(field)
}

proof fn lemma_required_stands(fields: Seq<FieldView>, i: int) -> (at: int)
    requires
        0 <= i < fields.len(),
        fields[i].inner is None,
    ensures
        0 <= at < required_codes(fields).len(),
        required_codes(fields)[at] == required_code(fields[i]),
    decreases fields.len(),
{
    if i == fields.len() - 1 {
        required_codes(fields.drop_last()).len() as int
    } else {
        lemma_required_stands(fields.drop_last(), i)
    }
}

/// The statements that list the required fields are those of the fields that are not
/// optional, in order.
pub proof fn the_fields_that_are_not_optional_are_required(fields: Seq<FieldView>)
    ensures
        required_codes(fields) == fields.filter(|f: FieldView| f.inner is None).map_values(
            |f: FieldView|
                "__required.push(::stakit_model::__serde_json::Value::String(::std::string::String::from("@
                    + syntax::string_literal(f.wire) + ")));"@,
        ),
    decreases fields.len(),
{
    reveal(Seq::filter);
    if fields.len() > 0 {
        the_fields_that_are_not_optional_are_required(fields.drop_last());
    }
    assert(required_codes(fields) =~= fields.filter(|f: FieldView| f.inner is None).map_values(
        |f: FieldView|
            "__required.push(::stakit_model::__serde_json::Value::String(::std::string::String::from("@
                + syntax::string_literal(f.wire) + ")));"@,
    ));
}

/// An object schema has every field as a property, lists every one that is not
/// optional as required, and says that it is an object.
pub proof fn an_object_has_every_field(fields: Seq<FieldView>, i: int)
    ensures
        0 <= i < fields.len() ==> text::holds_text(object_code(fields), property_code(fields[i])),
        0 <= i < fields.len() && fields[i].inner is None ==> text::holds_text(
            object_code(fields),
            "__required.push(::stakit_model::__serde_json::Value::String(::std::string::String::from("@
                + syntax::string_literal(fields[i].wire) + ")));"@,
        ),
        text::holds_text(
            object_code(fields),
            " let mut __root = ::stakit_model::__serde_json::Map::new(); \
            __root.insert(::std::string::String::from(\"type\"), \
            ::stakit_model::__serde_json::Value::String(::std::string::String::from(\"object\"))); \
            __root.insert(::std::string::String::from(\"properties\"), \
            ::stakit_model::__serde_json::Value::Object(__props)); if !__required.is_empty() { \
            __root.insert(::std::string::String::from(\"required\"), \
            ::stakit_model::__serde_json::Value::Array(__required)); } \
            ::stakit_model::__serde_json::Value::Object(__root) }"@,
        ),
{
    let parts = seq![
        "{ let mut __props = ::stakit_model::__serde_json::Map::new(); let mut __required: \
            ::std::vec::Vec<::stakit_model::__serde_json::Value> = ::std::vec::Vec::new(); "@,
        text::joined(fields.map_values(|x: FieldView| property_code(x)), " "@),
        " "@,
        text::joined(required_codes(fields), " "@),
        " let mut __root = ::stakit_model::__serde_json::Map::new(); \
            __root.insert(::std::string::String::from(\"type\"), \
            ::stakit_model::__serde_json::Value::String(::std::string::String::from(\"object\"))); \
            __root.insert(::std::string::String::from(\"properties\"), \
            ::stakit_model::__serde_json::Value::Object(__props)); if !__required.is_empty() { \
            __root.insert(::std::string::String::from(\"required\"), \
            ::stakit_model::__serde_json::Value::Array(__required)); } \
            ::stakit_model::__serde_json::Value::Object(__root) }"@,
    ];
    reveal_with_fuel(text::first_parts, 5);
    assert(text::first_parts(parts, 5) == object_code(fields));
    text::a_run_of_parts_stands(parts, 1, 2, 5);
    text::a_run_of_parts_stands(parts, 3, 4, 5);
    text::a_run_of_parts_stands(parts, 4, 5, 5);
    if 0 <= i < fields.len() {
        let properties = fields.map_values(|x: FieldView| property_code(x));
        text::a_joined_text_holds_every_part(properties, " "@, i);
        text::holding_goes_through(
            object_code(fields),
            text::joined(properties, " "@),
            properties[i],
        );
        if fields[i].inner is None {
            let at = lemma_required_stands(fields, i);
            text::a_joined_text_holds_every_part(required_codes(fields), " "@, at);
            text::holding_goes_through(
                object_code(fields),
                text::joined(required_codes(fields), " "@),
                required_code(fields[i]),
            );
        }
    }
}

/// A schema of fields by position has the schema of each type, and asks for exactly
/// as many items as there are fields.
pub proof fn a_tuple_has_every_field(fields: Seq<FieldView>, i: int)
    ensures
        0 <= i < fields.len() ==> text::holds_text(
            tuple_code(fields),
            "__items.push("@ + ("<"@ + (match fields[i].inner {
                Some(inner) => inner,
                None => fields[i].ty,
            }) + " as ::stakit_model::JsonSchema>::schema()"@) + ");"@,
        ),
        text::holds_text(
            tuple_code(fields),
            " ::stakit_model::__serde_json::json!({ \"type\": \"array\", \"prefixItems\": __items, \
                \"minItems\": "@ + (text::decimal(fields.len()) + "usize"@) + ", \"maxItems\": "@ + (
            text::decimal(fields.len()) + "usize"@) + " }) }"@,
        ),
{
    let count = text::decimal(fields.len()) + "usize"@;
    let parts = seq![
        "{ let mut __items: ::std::vec::Vec<::stakit_model::__serde_json::Value> = \
            ::std::vec::Vec::new(); "@,
        text::joined(fields.map_values(|x: FieldView| item_code(x)), " "@),
        " ::stakit_model::__serde_json::json!({ \"type\": \"array\", \"prefixItems\": __items, \
            \"minItems\": "@,
        count,
        ", \"maxItems\": "@,
        count,
        " }) }"@,
    ];
    reveal_with_fuel(text::first_parts, 7);
    assert(text::first_parts(parts, 7) == tuple_code(fields));
    text::a_run_of_parts_stands(parts, 1, 2, 7);
    text::a_run_of_parts_stands(parts, 2, 7, 7);
    if 0 <= i < fields.len() {
        let items = fields.map_values(|x: FieldView| item_code(x));
        text::a_joined_text_holds_every_part(items, " "@, i);
        text::holding_goes_through(tuple_code(fields), text::joined(items, " "@), items[i]);
    }
}

/// The schema of an enum: nothing fits one without variants; one whose variants are
/// all without fields is a choice of their names; and any other is one of its
/// variants, a bare one by its name and any other as an object with the one property
/// of its name.
pub proof fn an_enum_has_every_variant(variants: Seq<VariantView>, v: int)
    ensures
        variants.len() == 0 ==> enum_code(variants)
            == "::stakit_model::__serde_json::json!({ \"not\": {} })"@,
        variants.len() > 0 && (forall|i: int|
            0 <= i < variants.len() ==> (#[trigger] variants[i]).body is Unit) ==> {
            &&& "::stakit_model::__serde_json::json!({ \"type\": \"string\", \"enum\": [ "@.is_prefix_of(
                enum_code(variants),
            )
            &&& 0 <= v < variants.len() ==> text::holds_text(
                enum_code(variants),
                syntax::string_literal(variants[v].ident),
            )
        },
        (exists|i: int| 0 <= i < variants.len() && !((#[trigger] variants[i]).body is Unit)) ==> {
            &&& text::holds_text(
                enum_code(variants),
                " ::stakit_model::__serde_json::json!({ \"oneOf\": __variants }) }"@,
            )
            &&& 0 <= v < variants.len() ==> text::holds_text(
                enum_code(variants),
                variant_code(variants[v]),
            )
        },
{
    let none = Seq::<char>::empty();
    if variants.len() > 0 {
        if all_unit(variants) {
            let head = "::stakit_model::__serde_json::json!({ \"type\": \"string\", \"enum\": [ "@;
            let names = variants.map_values(|x: VariantView| name_literal(x));
            assert(enum_code(variants).take(head.len() as int) =~= head);
            if 0 <= v < variants.len() {
                text::a_joined_text_holds_every_part(names, ", "@, v);
                text::what_a_part_holds_the_text_holds(
                    head,
                    text::joined(names, ", "@),
                    " ] })"@,
                    names[v],
                );
            }
        } else {
            let head = "{ let mut __variants: ::std::vec::Vec<::stakit_model::__serde_json::Value> = \
                ::std::vec::Vec::new(); "@;
            let codes = variants.map_values(|x: VariantView| variant_code(x));
            let tail = " ::stakit_model::__serde_json::json!({ \"oneOf\": __variants }) }"@;
            text::a_text_holds_its_parts(head + text::joined(codes, " "@), tail, none);
            if 0 <= v < variants.len() {
                text::a_joined_text_holds_every_part(codes, " "@, v);
                text::what_a_part_holds_the_text_holds(
                    head,
                    text::joined(codes, " "@),
                    tail,
                    codes[v],
                );
            }
        }
    }
}

/// The schema of a variant with a payload: an object with one property, required,
/// under the variant's name.
pub open spec fn tags(code: Seq<char>, name: Seq<char>, inner: Seq<char>) -> bool {
    exists|tag: Seq<char>| #[trigger]
        syntax::is_literal_of(tag, name) && code == "{ let __inner = "@ + inner
            + "; __variants.push(::stakit_model::__serde_json::json!({ \"type\": \"object\", \
                \"properties\": { "@ + tag + ": __inner }, \"required\": [ "@ + tag
            + " ] })); }"@
}

/// A variant is tagged by its own name: a bare one is that name, one with named
/// fields holds their object, one with a single field by position holds the schema
/// of its type, and one with several holds them in order.
pub proof fn a_variant_is_tagged_by_its_name(variant: VariantView)
    ensures
        match variant.body {
            BodyView::Unit => exists|name: Seq<char>| #[trigger]
                syntax::is_literal_of(name, variant.ident) && variant_code(variant)
                    == "__variants.push(::stakit_model::__serde_json::json!({ \"type\": \
                    \"string\", \"const\": "@ + name + " }));"@,
            BodyView::Named(fields) => tags(
                variant_code(variant),
                variant.ident,
                object_code(fields),
            ),
            BodyView::Tuple(fields) => {
                &&& fields.len() == 1 ==> tags(
                    variant_code(variant),
                    variant.ident,
                    "<"@ + (match fields[0].inner {
                        Some(inner) => inner,
                        None => fields[0].ty,
                    }) + " as ::stakit_model::JsonSchema>::schema()"@,
                )
                &&& fields.len() != 1 ==> tags(
                    variant_code(variant),
                    variant.ident,
                    tuple_code(fields),
                )
            },
        },
{
    let name = syntax::string_literal(variant.ident);
    syntax::a_literal_stands_for_its_text(variant.ident);
    assert(syntax::is_literal_of(name, variant.ident));
}

/// The code is the implementation of `JsonSchema` for the model's own type, and its
/// schema is that of the model's shape: an object for named fields, an array for
/// fields by position, `null` for none, and a choice for an enum.
pub proof fn the_schema_is_that_of_the_model(model: ModelView)
    ensures
        ("impl ::stakit_model::JsonSchema for "@ + model.ident).is_prefix_of(schema_impl(model)),
        match model.ir {
            IrView::Struct { body: BodyView::Named(fields) } => text::holds_text(
                schema_impl(model),
                object_code(fields),
            ),
            IrView::Struct { body: BodyView::Tuple(fields) } => text::holds_text(
                schema_impl(model),
                tuple_code(fields),
            ),
            IrView::Struct { body: BodyView::Unit } => text::holds_text(
                schema_impl(model),
                "::stakit_model::__serde_json::json!({ \"type\": \"null\" })"@,
            ),
            IrView::Enum { variants } => text::holds_text(schema_impl(model), enum_code(variants)),
        },
{
    let head = "impl ::stakit_model::JsonSchema for "@ + model.ident;
    let body = match model.ir {
        IrView::Struct { body } => struct_code(body),
        IrView::Enum { variants } => enum_code(variants),
    };
    assert(schema_impl(model).take(head.len() as int) =~= head);
    text::a_text_holds_its_parts(
        head + " { fn schema() -> ::stakit_model::__serde_json::Value { "@,
        body,
        " } }"@,
    );
}

} // verus!
