//! TypeScript export: the implementation of `TSType` for a model.
//!
//! A struct becomes an interface, a tuple or null, an enum a union. What the types
//! of its fields declare is registered along with it.

use crate::codegen::generics;
use crate::codegen::generics::{list_type_params, write_impl_generics, write_type_generics};
use crate::codegen::ir::{
    Body, BodyView, Field, FieldView, Ir, IrView, Model, ModelView, Variant, VariantView,
};
use crate::codegen::syntax;
use crate::codegen::syntax::write_literal;
use crate::text;
use crate::text::join;
use crate::views;
use vstd::prelude::*;

verus! {

/// The type that a field shows: that inside an `Option`, else its own.
pub open spec fn shown_type(field: FieldView) -> Seq<char> {
    match field.inner {
        Some(inner) => inner,
        None => field.ty,
    }
}

/// The expression for the reference of a field's type.
pub open spec fn field_ref(field: FieldView) -> Seq<char> {
    "<"@ + shown_type(field) + " as ::stakit_model::TSType>::ts_ref()"@
}

/// The statement that registers what a field's type declares.
pub open spec fn field_declaration(field: FieldView) -> Seq<char> {
    "<"@ + shown_type(field) + " as ::stakit_model::TSType>::ts_declarations(out);"@
}

/// The statement that registers what a type parameter declares.
pub open spec fn param_declaration(param: Seq<char>) -> Seq<char> {
    "<"@ + param + " as ::stakit_model::TSType>::ts_declarations(out);"@
}

/// The fields of a shape, in order.
pub open spec fn body_fields(body: BodyView) -> Seq<FieldView> {
    match body {
        BodyView::Unit => Seq::empty(),
        BodyView::Named(fields) => fields,
        BodyView::Tuple(fields) => fields,
    }
}

/// The fields of the variants, in order.
pub open spec fn variant_fields(variants: Seq<VariantView>) -> Seq<FieldView>
    decreases variants.len(),
{
    if variants.len() == 0 {
        Seq::empty()
    } else {
        variant_fields(variants.drop_last()) + body_fields(variants.last().body)
    }
}

/// All fields of a model, in order.
pub open spec fn all_fields(ir: IrView) -> Seq<FieldView> {
    match ir {
        IrView::Struct { body } => body_fields(body),
        IrView::Enum { variants } => variant_fields(variants),
    }
}

/// A name and its mark: optional fields have a question mark.
pub open spec fn marked(field: FieldView) -> Seq<char> {
    if field.inner is Some {
        field.wire + "?: "@
    } else {
        field.wire + ": "@
    }
}

/// The statements that write the line of a named field.
pub open spec fn named_field_line(field: FieldView) -> Seq<char> {
    "__ts.push_str("@
        + syntax::string_literal("  "@ + marked(field)) + "); __ts.push_str(&"@ + field_ref(field)
        + "); __ts.push_str(\";\\n\");"@
}

/// The expression for the entry of a named field of a variant.
pub open spec fn named_entry(field: FieldView) -> Seq<char> {
    "{ let mut __e = String::from("@
        + syntax::string_literal(marked(field)) + "); __e.push_str(&"@ + field_ref(field)
        + "); __e }"@
}

/// The references of the fields' types, separated by commas.
pub open spec fn ref_list(fields: Seq<FieldView>) -> Seq<char> {
    text::joined(fields.map_values(|x: FieldView| field_ref(x)), ", "@)
}

/// The expression for the declaration of a struct.
pub open spec fn struct_declaration(body: BodyView) -> Seq<char> {
    match body {
        BodyView::Named(fields) => "{ let mut __ts = format!(\"export interface {} {{\\n\", \
            <Self as ::stakit_model::TSType>::ts_ref()); "@
            + text::joined(fields.map_values(|x: FieldView| named_field_line(x)), " "@)
            + " __ts.push('}'); __ts }"@,
        BodyView::Tuple(fields) => "{ let __items: &[String] = &["@
            + ref_list(fields)
            + "]; format!(\"export type {} = [{}];\", <Self as \
                ::stakit_model::TSType>::ts_ref(), __items.join(\", \")) }"@,
        BodyView::Unit => "format!(\"export type {} = null;\", <Self as \
            ::stakit_model::TSType>::ts_ref())"@,
    }
}

/// The expression for the part of a variant in its union.
pub open spec fn variant_part(variant: VariantView) -> Seq<char> {
    match variant.body {
        BodyView::Unit => "String::from("@
            + syntax::string_literal("\""@ + variant.ident + "\""@) + ")"@,
        BodyView::Named(fields) => "{ let __fields: ::std::vec::Vec<String> = ::std::vec!["@
            + text::joined(fields.map_values(|x: FieldView| named_entry(x)), ", "@)
            + "]; format!(\"{{ {} }}\", __fields.join(\"; \")) }"@,
        BodyView::Tuple(fields) => if fields.len() == 1 {
            field_ref(fields[0])
        } else {
            "{ let __items: ::std::vec::Vec<String> = ::std::vec!["@
                + ref_list(fields) + "]; format!(\"[{}]\", __items.join(\", \")) }"@
        },
    }
}

/// The expression for the declaration of an enum.
pub open spec fn enum_declaration(variants: Seq<VariantView>) -> Seq<char> {
    if variants.len() == 0 {
        "format!(\"export type {} = never;\", <Self as ::stakit_model::TSType>::ts_ref())"@
    } else {
        "{ let __parts: ::std::vec::Vec<String> = ::std::vec!["@
            + text::joined(variants.map_values(|x: VariantView| variant_part(x)), ", "@)
            + "]; format!(\"export type {} = {};\", <Self as ::stakit_model::TSType>::ts_ref(), \
                __parts.join(\" | \")) }"@
    }
}

/// The expression for the declaration of a model.
pub open spec fn declaration(ir: IrView) -> Seq<char> {
    match ir {
        IrView::Struct { body } => struct_declaration(body),
        IrView::Enum { variants } => enum_declaration(variants),
    }
}

/// The statement that appends the letters and digits of a type argument's
/// reference.
pub open spec fn appended(param: Seq<char>) -> Seq<char> {
    "__r.extend(<"@
        + param
        + " as ::stakit_model::TSType>::ts_ref().chars().filter(|c| c.is_alphanumeric()));"@
}

/// The function for the reference of the type: its name, with that of each type
/// argument appended.
pub open spec fn reference_fn(name: Seq<char>, type_params: Seq<Seq<char>>) -> Seq<char> {
    if type_params.len() == 0 {
        "fn ts_ref() -> String { String::from("@ + syntax::string_literal(name) + ") }"@
    } else {
        "fn ts_ref() -> String { let mut __r = String::from("@
            + syntax::string_literal(name) + "); "@
            + text::joined(type_params.map_values(|x: Seq<char>| appended(x)), " "@) + " __r }"@
    }
}

/// The implementation of `TSType` for a model.
pub open spec fn ts_impl(model: ModelView) -> Seq<char> {
    let type_params = generics::type_param_names(model.params);
    "impl"@
        + generics::impl_generics(model.params, Some("::stakit_model::TSType"@))
        + " ::stakit_model::TSType for "@ + model.ident + generics::type_generics(model.params)
        + " "@ + model.where_clause + " { "@ + reference_fn(model.ident, type_params)
        + " fn ts_declarations(out: &mut ::std::collections::BTreeMap<String, String>) { let \
            __name = <Self as ::stakit_model::TSType>::ts_ref(); if out.contains_key(&__name) { \
            return; } let __decl = "@
        + declaration(model.ir) + "; out.insert(__name, __decl); "@
        + text::joined(all_fields(model.ir).map_values(|x: FieldView| field_declaration(x)), " "@)
        + " "@ + text::joined(type_params.map_values(|x: Seq<char>| param_declaration(x)), " "@)
        + " } }"@
}

fn write_shown_type(field: &Field) -> (ty: String)
    ensures
        ty@ == shown_type(field@),
{
    match &field.inner {
        Some(inner) => inner.clone(),
        None => field.ty.clone(),
    }
}

fn write_field_ref(field: &Field) -> (code: String)
    ensures
        code@ == field_ref(field@),
{
    "<".to_owned()
        .concat(write_shown_type(field).as_str()).concat(" as ::stakit_model::TSType>::ts_ref()")
}

fn write_marked(field: &Field) -> (code: String)
    ensures
        code@ == marked(field@),
{
    if field.inner.is_some() {
        field.wire.clone().concat("?: ")
    } else {
        field.wire.clone().concat(": ")
    }
}

fn write_named_field_line(field: &Field) -> (code: String)
    ensures
        code@ == named_field_line(field@),
{
    let head = "  ".to_owned().concat(write_marked(field).as_str());
    "__ts.push_str(".to_owned()
        .concat(write_literal(head.as_str()).as_str()).concat("); __ts.push_str(&")
        .concat(write_field_ref(field).as_str()).concat("); __ts.push_str(\";\\n\");")
}

fn write_named_entry(field: &Field) -> (code: String)
    ensures
        code@ == named_entry(field@),
{
    "{ let mut __e = String::from(".to_owned()
        .concat(write_literal(write_marked(field).as_str()).as_str()).concat("); __e.push_str(&")
        .concat(write_field_ref(field).as_str()).concat("); __e }")
}

/// The references of the fields' types.
fn ref_texts(items: &Vec<Field>) -> (texts: Vec<String>)
    ensures
        views::each(texts@) == views::each(items@).map_values(|x: FieldView| field_ref(x)),
{
    let mut texts: Vec<String> = Vec::new();
    let mut i: usize = 0;
    while i < items.len()
        invariant
            i <= items@.len(),
            texts@.len() == i,
            forall|j: int| 0 <= j < i ==> (#[trigger] texts@[j])@ == field_ref(items@[j]@),
        decreases items@.len() - i,
    {
        texts.push(write_field_ref(&items[i]));
        i = i + 1;
    }
    assert(views::each(texts@) =~= views::each(items@).map_values(|x: FieldView| field_ref(x)));
    texts
}

/// The statements for the lines of named fields.
fn line_texts(items: &Vec<Field>) -> (texts: Vec<String>)
    ensures
        views::each(texts@) == views::each(items@).map_values(|x: FieldView| named_field_line(x)),
{
    let mut texts: Vec<String> = Vec::new();
    let mut i: usize = 0;
    while i < items.len()
        invariant
            i <= items@.len(),
            texts@.len() == i,
            forall|j: int| 0 <= j < i ==> (#[trigger] texts@[j])@ == named_field_line(items@[j]@),
        decreases items@.len() - i,
    {
        texts.push(write_named_field_line(&items[i]));
        i = i + 1;
    }
    assert(views::each(texts@) =~= views::each(items@).map_values(|x: FieldView| named_field_line(x)));
    texts
}

/// The expressions for the entries of named fields.
fn entry_texts(items: &Vec<Field>) -> (texts: Vec<String>)
    ensures
        views::each(texts@) == views::each(items@).map_values(|x: FieldView| named_entry(x)),
{
    let mut texts: Vec<String> = Vec::new();
    let mut i: usize = 0;
    while i < items.len()
        invariant
            i <= items@.len(),
            texts@.len() == i,
            forall|j: int| 0 <= j < i ==> (#[trigger] texts@[j])@ == named_entry(items@[j]@),
        decreases items@.len() - i,
    {
        texts.push(write_named_entry(&items[i]));
        i = i + 1;
    }
    assert(views::each(texts@) =~= views::each(items@).map_values(|x: FieldView| named_entry(x)));
    texts
}

/// Writes the expression for the declaration of a struct.
pub fn struct_decl(body: &Body) -> (code: String)
    ensures
        code@ == struct_declaration(body@),
{
    match body {
        Body::Named(fields) => {
            "{ let mut __ts = format!(\"export interface {} {{\\n\", <Self as \
                ::stakit_model::TSType>::ts_ref()); ".to_owned()
                .concat(join(&line_texts(fields), " ").as_str()).concat(" __ts.push('}'); __ts }")
        },
        Body::Tuple(fields) => {
            "{ let __items: &[String] = &[".to_owned()
                .concat(join(&ref_texts(fields), ", ").as_str())
                .concat("]; format!(\"export type {} = [{}];\", <Self as \
                    ::stakit_model::TSType>::ts_ref(), __items.join(\", \")) }")
        },
        Body::Unit => "format!(\"export type {} = null;\", <Self as \
            ::stakit_model::TSType>::ts_ref())".to_owned(),
    }
}

/// Writes the expression for the part of a variant in its union.
pub fn write_variant_part(variant: &Variant) -> (code: String)
    ensures
        code@ == variant_part(variant@),
{
    match &variant.body {
        Body::Unit => {
            let quoted = "\"".to_owned().concat(variant.ident.as_str()).concat("\"");
            "String::from(".to_owned().concat(write_literal(quoted.as_str()).as_str()).concat(")")
        },
        Body::Named(fields) => {
            "{ let __fields: ::std::vec::Vec<String> = ::std::vec![".to_owned()
                .concat(join(&entry_texts(fields), ", ").as_str())
                .concat("]; format!(\"{{ {} }}\", __fields.join(\"; \")) }")
        },
        Body::Tuple(fields) => if fields.len() == 1 {
            assert(views::each(fields@)[0] == fields@[0]@);
            write_field_ref(&fields[0])
        } else {
            "{ let __items: ::std::vec::Vec<String> = ::std::vec![".to_owned()
                .concat(join(&ref_texts(fields), ", ").as_str())
                .concat("]; format!(\"[{}]\", __items.join(\", \")) }")
        },
    }
}

/// The parts of the variants.
fn part_texts(items: &Vec<Variant>) -> (texts: Vec<String>)
    ensures
        views::each(texts@) == views::each(items@).map_values(|x: VariantView| variant_part(x)),
{
    let mut texts: Vec<String> = Vec::new();
    let mut i: usize = 0;
    while i < items.len()
        invariant
            i <= items@.len(),
            texts@.len() == i,
            forall|j: int| 0 <= j < i ==> (#[trigger] texts@[j])@ == variant_part(items@[j]@),
        decreases items@.len() - i,
    {
        texts.push(write_variant_part(&items[i]));
        i = i + 1;
    }
    assert(views::each(texts@) =~= views::each(items@).map_values(|x: VariantView| variant_part(x)));
    texts
}

/// Writes the expression for the declaration of an enum.
pub fn enum_decl(variants: &Vec<Variant>) -> (code: String)
    ensures
        code@ == enum_declaration(views::each(variants@)),
{
    if variants.len() == 0 {
        return "format!(\"export type {} = never;\", <Self as \
            ::stakit_model::TSType>::ts_ref())".to_owned();
    }
    "{ let __parts: ::std::vec::Vec<String> = ::std::vec![".to_owned()
        .concat(join(&part_texts(variants), ", ").as_str())
        .concat("]; format!(\"export type {} = {};\", <Self as \
            ::stakit_model::TSType>::ts_ref(), __parts.join(\" | \")) }")
}

/// Writes the expression for the declaration of a model.
pub fn decl_expr(ir: &Ir) -> (code: String)
    ensures
        code@ == declaration(ir@),
{
    match ir {
        Ir::Struct { body } => struct_decl(body),
        Ir::Enum { variants } => enum_decl(variants),
    }
}

/// Writes the function for the reference of the type.
pub fn ts_ref_fn(name: &str, type_params: &Vec<String>) -> (code: String)
    ensures
        code@ == reference_fn(name@, views::each(type_params@)),
{
    if type_params.len() == 0 {
        return "fn ts_ref() -> String { String::from(".to_owned()
            .concat(write_literal(name).as_str()).concat(") }");
    }
    "fn ts_ref() -> String { let mut __r = String::from(".to_owned()
        .concat(write_literal(name).as_str()).concat("); ")
        .concat(join(&append_texts(type_params), " ").as_str()).concat(" __r }")
}

fn write_appended(param: &String) -> (code: String)
    ensures
        code@ == appended(param@),
{
    "__r.extend(<".to_owned()
        .concat(param.as_str())
        .concat(" as ::stakit_model::TSType>::ts_ref().chars().filter(|c| c.is_alphanumeric()));")
}

fn write_param_declaration(param: &String) -> (code: String)
    ensures
        code@ == param_declaration(param@),
{
    "<".to_owned()
        .concat(param.as_str()).concat(" as ::stakit_model::TSType>::ts_declarations(out);")
}

fn write_field_declaration(field: &Field) -> (code: String)
    ensures
        code@ == field_declaration(field@),
{
    "<".to_owned()
        .concat(write_shown_type(field).as_str())
        .concat(" as ::stakit_model::TSType>::ts_declarations(out);")
}

/// The statements that append the type arguments.
fn append_texts(items: &Vec<String>) -> (texts: Vec<String>)
    ensures
        views::each(texts@) == views::each(items@).map_values(|x: Seq<char>| appended(x)),
{
    let mut texts: Vec<String> = Vec::new();
    let mut i: usize = 0;
    while i < items.len()
        invariant
            i <= items@.len(),
            texts@.len() == i,
            forall|j: int| 0 <= j < i ==> (#[trigger] texts@[j])@ == appended(items@[j]@),
        decreases items@.len() - i,
    {
        texts.push(write_appended(&items[i]));
        i = i + 1;
    }
    assert(views::each(texts@) =~= views::each(items@).map_values(|x: Seq<char>| appended(x)));
    texts
}

/// The statements that register the type parameters.
fn param_decls(items: &Vec<String>) -> (texts: Vec<String>)
    ensures
        views::each(texts@) == views::each(items@).map_values(|x: Seq<char>| param_declaration(x)),
{
    let mut texts: Vec<String> = Vec::new();
    let mut i: usize = 0;
    while i < items.len()
        invariant
            i <= items@.len(),
            texts@.len() == i,
            forall|j: int| 0 <= j < i ==> (#[trigger] texts@[j])@ == param_declaration(items@[j]@),
        decreases items@.len() - i,
    {
        texts.push(write_param_declaration(&items[i]));
        i = i + 1;
    }
    assert(views::each(texts@) =~= views::each(items@).map_values(|x: Seq<char>| param_declaration(x)));
    texts
}

/// The statements that register the fields' types.
fn field_decl_texts(items: &Vec<Field>) -> (texts: Vec<String>)
    ensures
        views::each(texts@) == views::each(items@).map_values(|x: FieldView| field_declaration(x)),
{
    let mut texts: Vec<String> = Vec::new();
    let mut i: usize = 0;
    while i < items.len()
        invariant
            i <= items@.len(),
            texts@.len() == i,
            forall|j: int| 0 <= j < i ==> (#[trigger] texts@[j])@ == field_declaration(items@[j]@),
        decreases items@.len() - i,
    {
        texts.push(write_field_declaration(&items[i]));
        i = i + 1;
    }
    assert(views::each(texts@) =~= views::each(items@).map_values(|x: FieldView| field_declaration(x)));
    texts
}

fn body_decls(body: &Body) -> (texts: Vec<String>)
    ensures
        views::each(texts@) == body_fields(body@).map_values(|x: FieldView| field_declaration(x)),
{
    match body {
        Body::Unit => {
            let texts: Vec<String> = Vec::new();
            assert(views::each(texts@) =~= body_fields(body@).map_values(
                |x: FieldView| field_declaration(x),
            ));
            texts
        },
        Body::Named(fields) => field_decl_texts(fields),
        Body::Tuple(fields) => field_decl_texts(fields),
    }
}

/// Writes the statements that register the types of all fields, in order.
pub fn field_decls(ir: &Ir) -> (texts: Vec<String>)
    ensures
        views::each(texts@) == all_fields(ir@).map_values(|x: FieldView| field_declaration(x)),
{
    match ir {
        Ir::Struct { body } => body_decls(body),
        Ir::Enum { variants } => {
            let ghost all = views::each(variants@);
            let mut texts: Vec<String> = Vec::new();
            let mut i: usize = 0;
            assert(views::each(texts@) =~= variant_fields(all.take(0)).map_values(
                |x: FieldView| field_declaration(x),
            ));
            while i < variants.len()
                invariant
                    i <= variants@.len(),
                    all == views::each(variants@),
                    views::each(texts@) == variant_fields(all.take(i as int)).map_values(
                        |x: FieldView| field_declaration(x),
                    ),
                decreases variants@.len() - i,
            {
                assert(all.take(i + 1).drop_last() =~= all.take(i as int));
                assert(all.take(i + 1).last() == variants@[i as int]@);
                let ghost before = views::each(texts@);
                let mut more = body_decls(&variants[i].body);
                let ghost added = views::each(more@);
                texts.append(&mut more);
                assert(views::each(texts@) =~= before + added);
                i = i + 1;
                assert(views::each(texts@) =~= variant_fields(all.take(i as int)).map_values(
                    |x: FieldView| field_declaration(x),
                ));
            }
            assert(all.take(i as int) =~= all);
            texts
        },
    }
}

/// Writes the implementation of `TSType` for a model.
pub fn expand(model: &Model) -> (code: String)
    ensures
        code@ == ts_impl(model@),
{
    let type_params = list_type_params(&model.params);
    "impl".to_owned()
        .concat(write_impl_generics(&model.params, Some("::stakit_model::TSType")).as_str())
        .concat(" ::stakit_model::TSType for ").concat(model.ident.as_str())
        .concat(write_type_generics(&model.params).as_str()).concat(" ")
        .concat(model.where_clause.as_str()).concat(" { ")
        .concat(ts_ref_fn(model.ident.as_str(), &type_params).as_str())
        .concat(" fn ts_declarations(out: &mut ::std::collections::BTreeMap<String, String>) { \
            let __name = <Self as ::stakit_model::TSType>::ts_ref(); if \
            out.contains_key(&__name) { return; } let __decl = ")
        .concat(decl_expr(&model.ir).as_str()).concat("; out.insert(__name, __decl); ")
        .concat(join(&field_decls(&model.ir), " ").as_str()).concat(" ")
        .concat(join(&param_decls(&type_params), " ").as_str()).concat(" } }")
}

/// The type that a field shows in TypeScript: the inner one of an optional field.
pub open spec fn exported_type(field: FieldView) -> Seq<char> {
    match field.inner {
        Some(inner) => inner,
        None => field.ty,
    }
}

/// What stands behind the name of a field: a question mark too where it may be missing.
pub open spec fn separator_of(inner: Option<Seq<char>>) -> Seq<char> {
    match inner {
        Some(_) => "?: "@,
        None => ": "@,
    }
}

/// The statements that register what the types of the fields declare.
pub open spec fn field_declarations(model: ModelView) -> Seq<char> {
    text::joined(all_fields(model.ir).map_values(|x: FieldView| field_declaration(x)), " "@)
}

/// The statements that register what the type parameters declare.
pub open spec fn param_declarations(model: ModelView) -> Seq<char> {
    text::joined(
        generics::type_param_names(model.params).map_values(|x: Seq<char>| param_declaration(x)),
        " "@,
    )
}

/// The parts of the implementation, in order.
pub open spec fn export_parts(model: ModelView) -> Seq<Seq<char>> {
    seq![
        "impl"@,
        generics::impl_generics(model.params, Some("::stakit_model::TSType"@)),
        " ::stakit_model::TSType for "@,
        model.ident,
        generics::type_generics(model.params),
        " "@,
        model.where_clause,
        " { "@,
        reference_fn(model.ident, generics::type_param_names(model.params)),
        " fn ts_declarations(out: &mut ::std::collections::BTreeMap<String, String>) { let \
            __name = <Self as ::stakit_model::TSType>::ts_ref(); if out.contains_key(&__name) { \
            return; } let __decl = "@,
        declaration(model.ir),
        "; out.insert(__name, __decl); "@,
        field_declarations(model),
        " "@,
        param_declarations(model),
        " } }"@,
    ]
}

proof fn lemma_export_stands(model: ModelView, lo: int, hi: int)
    requires
        0 <= lo < hi <= 16,
    ensures
        text::holds_text(
            ts_impl(model),
            text::first_parts(export_parts(model).subrange(lo, hi), hi - lo),
        ),
{
    reveal_with_fuel(text::first_parts, 16);
    assert(text::first_parts(export_parts(model), 16) == ts_impl(model));
    text::a_run_of_parts_stands(export_parts(model), lo, hi, 16);
}

proof fn lemma_export_holds(model: ModelView, part: int, needle: Seq<char>)
    requires
        0 <= part < 16,
        text::holds_text(export_parts(model)[part], needle),
    ensures
        text::holds_text(ts_impl(model), needle),
{
    lemma_export_stands(model, part, part + 1);
    text::holding_goes_through(ts_impl(model), export_parts(model)[part], needle);
}

/// The line of a named field shows its name on the wire, with a question mark exactly
/// where the field is optional, and the reference of the type it shows.
pub proof fn a_line_shows_its_field(field: FieldView)
    ensures
        exists|name: Seq<char>| #[trigger]
            syntax::is_literal_of(
                name,
                "  "@ + field.wire + separator_of(field.inner),
            ) && named_field_line(field) == "__ts.push_str("@ + name + "); __ts.push_str(&"@ + (
            "<"@ + exported_type(field) + " as ::stakit_model::TSType>::ts_ref()"@)
                + "); __ts.push_str(\";\\n\");"@,
        exists|name: Seq<char>| #[trigger]
            syntax::is_literal_of(
                name,
                field.wire + separator_of(field.inner),
            ) && named_entry(field) == "{ let mut __e = String::from("@ + name
                + "); __e.push_str(&"@ + ("<"@ + exported_type(field)
                + " as ::stakit_model::TSType>::ts_ref()"@) + "); __e }"@,
        field_ref(field) == "<"@ + exported_type(field) + " as ::stakit_model::TSType>::ts_ref()"@,
{
    let line = syntax::string_literal("  "@ + marked(field));
    let entry = syntax::string_literal(marked(field));
    syntax::a_literal_stands_for_its_text("  "@ + marked(field));
    syntax::a_literal_stands_for_its_text(marked(field));
    assert("  "@ + field.wire + separator_of(field.inner) =~= "  "@ + marked(field));
    assert(syntax::is_literal_of(line, "  "@ + field.wire + separator_of(field.inner)));
    assert(syntax::is_literal_of(entry, field.wire + separator_of(field.inner)));
}

/// A struct is exported with all its fields: a line for each named one, or the
/// reference of each type by position. One without fields is exported as `null`.
pub proof fn a_struct_is_exported_with_all_its_fields(
    model: ModelView,
    body: BodyView,
    i: int,
)
    requires
        model.ir == (IrView::Struct { body }),
    ensures
        body matches BodyView::Named(fields) ==> (0 <= i < fields.len() ==> text::holds_text(
            ts_impl(model),
            named_field_line(fields[i]),
        )),
        body matches BodyView::Named(_) ==> text::holds_text(
            ts_impl(model),
            "{ let mut __ts = format!(\"export interface {} {{\\n\", \
                <Self as ::stakit_model::TSType>::ts_ref()); "@,
        ),
        body matches BodyView::Tuple(fields) ==> (0 <= i < fields.len() ==> text::holds_text(
            ts_impl(model),
            field_ref(fields[i]),
        )),
        body matches BodyView::Tuple(_) ==> text::holds_text(
            ts_impl(model),
            "]; format!(\"export type {} = [{}];\", <Self as \
                ::stakit_model::TSType>::ts_ref(), __items.join(\", \")) }"@,
        ),
        body is Unit ==> text::holds_text(
            ts_impl(model),
            "format!(\"export type {} = null;\", <Self as \
                ::stakit_model::TSType>::ts_ref())"@,
        ),
{
    let none = Seq::<char>::empty();
    match body {
        BodyView::Named(fields) => {
            let head = "{ let mut __ts = format!(\"export interface {} {{\\n\", \
                <Self as ::stakit_model::TSType>::ts_ref()); "@;
            let lines = fields.map_values(|x: FieldView| named_field_line(x));
            let shown = text::joined(lines, " "@);
            let tail = " __ts.push('}'); __ts }"@;
            text::a_text_holds_its_parts(none, head, shown);
            text::what_a_part_holds_the_text_holds(none, head + shown, tail, head);
            lemma_export_holds(model, 10, head);
            if 0 <= i < fields.len() {
                text::a_joined_text_holds_every_part(lines, " "@, i);
                text::what_a_part_holds_the_text_holds(head, shown, tail, lines[i]);
                lemma_export_holds(model, 10, named_field_line(fields[i]));
            }
        },
        BodyView::Tuple(fields) => {
            let head = "{ let __items: &[String] = &["@;
            let refs = fields.map_values(|x: FieldView| field_ref(x));
            let shown = text::joined(refs, ", "@);
            let tail = "]; format!(\"export type {} = [{}];\", <Self as \
                ::stakit_model::TSType>::ts_ref(), __items.join(\", \")) }"@;
            text::a_text_holds_its_parts(head + shown, tail, none);
            lemma_export_holds(model, 10, tail);
            if 0 <= i < fields.len() {
                text::a_joined_text_holds_every_part(refs, ", "@, i);
                text::what_a_part_holds_the_text_holds(head, shown, tail, refs[i]);
                lemma_export_holds(model, 10, field_ref(fields[i]));
            }
        },
        BodyView::Unit => {
            let whole = "format!(\"export type {} = null;\", <Self as \
                ::stakit_model::TSType>::ts_ref())"@;
            text::a_text_holds_its_parts(none, whole, none);
            assert(none + whole =~= whole);
            lemma_export_holds(model, 10, whole);
        },
    }
}

/// An enum is exported as the union of all its variants, each by its name, by its
/// named fields or by the types of its fields. One without variants is `never`.
pub proof fn an_enum_is_exported_with_all_its_variants(
    model: ModelView,
    variants: Seq<VariantView>,
    v: int,
    i: int,
)
    requires
        model.ir == (IrView::Enum { variants }),
    ensures
        variants.len() == 0 ==> text::holds_text(
            ts_impl(model),
            "format!(\"export type {} = never;\", <Self as ::stakit_model::TSType>::ts_ref())"@,
        ),
        0 <= v < variants.len() ==> text::holds_text(ts_impl(model), variant_part(variants[v])),
        0 <= v < variants.len() ==> match variants[v].body {
            BodyView::Unit => exists|name: Seq<char>| #[trigger]
                syntax::is_literal_of(name, "\""@ + variants[v].ident + "\""@) && variant_part(
                    variants[v],
                ) == "String::from("@ + name + ")"@,
            BodyView::Named(fields) => 0 <= i < fields.len() ==> text::holds_text(
                variant_part(variants[v]),
                named_entry(fields[i]),
            ),
            BodyView::Tuple(fields) => 0 <= i < fields.len() ==> text::holds_text(
                variant_part(variants[v]),
                field_ref(fields[i]),
            ),
        },
{
    let none = Seq::<char>::empty();
    if variants.len() == 0 {
        let whole = declaration(model.ir);
        text::a_text_holds_its_parts(none, whole, none);
        assert(none + whole =~= whole);
        lemma_export_holds(model, 10, whole);
    } else if 0 <= v < variants.len() {
        let parts = variants.map_values(|x: VariantView| variant_part(x));
        text::a_joined_text_holds_every_part(parts, ", "@, v);
        text::what_a_part_holds_the_text_holds(
            "{ let __parts: ::std::vec::Vec<String> = ::std::vec!["@,
            text::joined(parts, ", "@),
            "]; format!(\"export type {} = {};\", <Self as ::stakit_model::TSType>::ts_ref(), \
                __parts.join(\" | \")) }"@,
            parts[v],
        );
        lemma_export_holds(model, 10, variant_part(variants[v]));
        match variants[v].body {
            BodyView::Unit => {
                let name = "\""@ + variants[v].ident + "\""@;
                syntax::a_literal_stands_for_its_text(name);
                assert(syntax::is_literal_of(syntax::string_literal(name), name));
            },
            BodyView::Named(fields) => {
                if 0 <= i < fields.len() {
                    let entries = fields.map_values(|x: FieldView| named_entry(x));
                    text::a_joined_text_holds_every_part(entries, ", "@, i);
                    text::what_a_part_holds_the_text_holds(
                        "{ let __fields: ::std::vec::Vec<String> = ::std::vec!["@,
                        text::joined(entries, ", "@),
                        "]; format!(\"{{ {} }}\", __fields.join(\"; \")) }"@,
                        entries[i],
                    );
                }
            },
            BodyView::Tuple(fields) => {
                if 0 <= i < fields.len() {
                    let refs = fields.map_values(|x: FieldView| field_ref(x));
                    text::a_joined_text_holds_every_part(refs, ", "@, i);
                    text::what_a_part_holds_the_text_holds(
                        "{ let __items: ::std::vec::Vec<String> = ::std::vec!["@,
                        text::joined(refs, ", "@),
                        "]; format!(\"[{}]\", __items.join(\", \")) }"@,
                        refs[i],
                    );
                    if fields.len() == 1 {
                        text::a_text_holds_its_parts(none, refs[0], none);
                        assert(none + refs[0] =~= refs[0]);
                    }
                }
            },
        }
    }
}

/// The fields of a model are those of its one shape, or those of all its variants.
pub proof fn the_fields_of_a_model_are_all_its_fields(
    model: ModelView,
    variants: Seq<VariantView>,
    v: int,
    fields: Seq<FieldView>,
    i: int,
)
    requires
        0 <= i < fields.len(),
        model.ir == (IrView::Struct { body: BodyView::Named(fields) }) || model.ir == (
        IrView::Struct { body: BodyView::Tuple(fields) }) || (model.ir == (IrView::Enum {
            variants,
        }) && 0 <= v < variants.len() && (variants[v].body == BodyView::Named(fields)
            || variants[v].body == BodyView::Tuple(fields))),
    ensures
        all_fields(model.ir).contains(fields[i]),
        text::holds_text(
            ts_impl(model),
            "<"@ + exported_type(fields[i]) + " as ::stakit_model::TSType>::ts_declarations(out);"@,
        ),
{
    let all = all_fields(model.ir);
    if model.ir is Enum {
        lemma_variant_fields(variants, v, i);
    } else {
        assert(all[i] == fields[i]);
    }
    let at = choose|at: int| 0 <= at < all.len() && all[at] == fields[i];
    let codes = all.map_values(|x: FieldView| field_declaration(x));
    text::a_joined_text_holds_every_part(codes, " "@, at);
    assert(codes[at] == field_declaration(fields[i]));
    lemma_export_holds(model, 12, codes[at]);
}

proof fn lemma_variant_fields(variants: Seq<VariantView>, v: int, i: int)
    requires
        0 <= v < variants.len(),
        0 <= i < body_fields(variants[v].body).len(),
    ensures
        variant_fields(variants).contains(body_fields(variants[v].body)[i]),
    decreases variants.len(),
{
    let before = variant_fields(variants.drop_last());
    let field = body_fields(variants[v].body)[i];
    if v == variants.len() - 1 {
        assert(variant_fields(variants)[before.len() + i] == field);
    } else {
        lemma_variant_fields(variants.drop_last(), v, i);
        let at = choose|at: int| 0 <= at < before.len() && before[at] == field;
        assert(variant_fields(variants)[at] == field);
    }
}

/// The code is the implementation of `TSType` for the model's own type, and its
/// reference starts with the type's name, which is all of it without type parameters.
pub proof fn a_reference_starts_with_the_name(model: ModelView)
    ensures
        text::holds_text(
            ts_impl(model),
            " ::stakit_model::TSType for "@ + model.ident + generics::type_generics(model.params),
        ),
        generics::type_param_names(model.params).len() == 0 ==> text::holds_text(
            ts_impl(model),
            "fn ts_ref() -> String { String::from("@ + syntax::string_literal(model.ident) + ") }"@,
        ),
        generics::type_param_names(model.params).len() > 0 ==> text::holds_text(
            ts_impl(model),
            "fn ts_ref() -> String { let mut __r = String::from("@ + syntax::string_literal(
                model.ident,
            ) + "); "@,
        ),
{
    let none = Seq::<char>::empty();
    let names = generics::type_param_names(model.params);
    let reference = reference_fn(model.ident, names);
    let literal = syntax::string_literal(model.ident);
    if names.len() == 0 {
        text::a_text_holds_its_parts(none, reference, none);
        assert(none + reference =~= reference);
        lemma_export_holds(model, 8, reference);
    } else {
        let head = "fn ts_ref() -> String { let mut __r = String::from("@ + literal + "); "@;
        let shown = text::joined(names.map_values(|x: Seq<char>| appended(x)), " "@);
        text::a_text_holds_its_parts(none, head, shown);
        text::what_a_part_holds_the_text_holds(none, head + shown, " __r }"@, head);
        lemma_export_holds(model, 8, head);
    }
    reveal_with_fuel(text::first_parts, 3);
    lemma_export_stands(model, 2, 5);
}

/// Every type parameter takes part in the reference of the type, and what it declares
/// is registered.
pub proof fn every_type_parameter_takes_part(model: ModelView, i: int)
    requires
        0 <= i < generics::type_param_names(model.params).len(),
    ensures
        ({
            let param = generics::type_param_names(model.params)[i];
            &&& text::holds_text(
                ts_impl(model),
                "<"@ + param + " as ::stakit_model::TSType>::ts_declarations(out);"@,
            )
            &&& text::holds_text(
                ts_impl(model),
                "__r.extend(<"@ + param
                    + " as ::stakit_model::TSType>::ts_ref().chars().filter(|c| \
                    c.is_alphanumeric()));"@,
            )
        }),
{
    let names = generics::type_param_names(model.params);
    let literal = syntax::string_literal(model.ident);
    let appends = names.map_values(|x: Seq<char>| appended(x));
    text::a_joined_text_holds_every_part(appends, " "@, i);
    text::what_a_part_holds_the_text_holds(
        "fn ts_ref() -> String { let mut __r = String::from("@ + literal + "); "@,
        text::joined(appends, " "@),
        " __r }"@,
        appends[i],
    );
    lemma_export_holds(model, 8, appends[i]);
    let declared = names.map_values(|x: Seq<char>| param_declaration(x));
    text::a_joined_text_holds_every_part(declared, " "@, i);
    lemma_export_holds(model, 14, declared[i]);
}

} // verus!
