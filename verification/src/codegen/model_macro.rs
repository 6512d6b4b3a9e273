//! The model macros: validation, TypeScript export and JSON Schema from one type
//! definition.

use crate::codegen::ir;
use crate::codegen::ir::{Model, ModelView};
use crate::codegen::schema;
use crate::codegen::syntax;
use crate::codegen::syntax::{read_item, DataSyntax, DataSyntaxView, ItemSyntax, ItemSyntaxView};
use crate::codegen::ts;
use crate::codegen::validate;
use crate::text;
use vstd::prelude::*;

verus! {

/// The attribute that renames the fields on the wire. An enum's variants keep
/// their names; only the fields of their payloads are renamed.
pub open spec fn rename_attribute(data: DataSyntaxView, camel: bool) -> Seq<char> {
    if !camel {
        Seq::empty()
    } else if data is Enum {
        "#[serde(rename_all_fields = \"camelCase\")]"@
    } else {
        "#[serde(rename_all = \"camelCase\")]"@
    }
}

/// What `#[derive(Model)]` writes for a model.
pub open spec fn model_impls(model: ModelView) -> Seq<char> {
    validate::validate_impl(model) + " "@ + ts::ts_impl(model)
}

/// What `#[derive(Model)]` expands to, once the type definition was read.
pub open spec fn derive_read(
    read: Result<ItemSyntaxView, Seq<char>>,
    camel: bool,
) -> Result<Seq<char>, Seq<char>> {
    match ir::model_read(read, camel) {
        Ok(model) => Ok(model_impls(model)),
        Err(message) => Err(message),
    }
}

/// Expands `#[derive(Model)]` on a type definition.
pub fn derive_model_from(item: ItemSyntax, camel: bool) -> (outcome: Result<String, String>)
    ensures
        syntax::outcome(outcome) == derive_read(Ok(item@), camel),
{
    match ir::model_from(item, camel) {
        Ok(model) => Ok(expand(&model)),
        Err(message) => Err(message),
    }
}

/// Expands `#[derive(Model)]`: validation and TypeScript export. The code is that of
/// a tree that `syn` may read the type definition as, and an error of `syn` is
/// passed on.
pub fn derive_model(item: &str, camel: bool) -> (outcome: Result<String, String>)
    ensures
        exists|read: Result<ItemSyntaxView, Seq<char>>| #[trigger]
            syntax::item_read(item@, read) && syntax::outcome(outcome) == derive_read(read, camel),
{
    let read = read_item(item);
    let ghost tree = syntax::outcome(read);
    assert(syntax::item_read(item@, tree));
    let outcome = match read {
        Ok(item) => derive_model_from(item, camel),
        Err(message) => Err(message),
    };
    assert(syntax::outcome(outcome) == derive_read(tree, camel));
    outcome
}

/// Writes what `#[derive(Model)]` writes for a model.
pub fn expand(model: &Model) -> (code: String)
    ensures
        code@ == model_impls(model@),
{
    validate::expand(model).concat(" ").concat(ts::expand(model).as_str())
}

/// What `#[derive(JsonSchema)]` expands to, once the type definition was read.
pub open spec fn schema_read(
    read: Result<ItemSyntaxView, Seq<char>>,
    camel: bool,
) -> Result<Seq<char>, Seq<char>> {
    match ir::model_read(read, camel) {
        Ok(model) => Ok(schema::schema_impl(model)),
        Err(message) => Err(message),
    }
}

/// Expands `#[derive(JsonSchema)]` on a type definition.
pub fn derive_json_schema_from(item: ItemSyntax, camel: bool) -> (outcome: Result<String, String>)
    ensures
        syntax::outcome(outcome) == schema_read(Ok(item@), camel),
{
    match ir::model_from(item, camel) {
        Ok(model) => Ok(schema::expand(&model)),
        Err(message) => Err(message),
    }
}

/// Expands `#[derive(JsonSchema)]`. The code is that of a tree that `syn` may read
/// the type definition as, and an error of `syn` is passed on.
pub fn derive_json_schema(item: &str, camel: bool) -> (outcome: Result<String, String>)
    ensures
        exists|read: Result<ItemSyntaxView, Seq<char>>| #[trigger]
            syntax::item_read(item@, read) && syntax::outcome(outcome) == schema_read(read, camel),
{
    let read = read_item(item);
    let ghost tree = syntax::outcome(read);
    assert(syntax::item_read(item@, tree));
    let outcome = match read {
        Ok(item) => derive_json_schema_from(item, camel),
        Err(message) => Err(message),
    };
    assert(syntax::outcome(outcome) == schema_read(tree, camel));
    outcome
}

/// Writes the attribute that renames the fields on the wire.
pub fn write_rename(data: &DataSyntax, camel: bool) -> (code: String)
    ensures
        code@ == rename_attribute(data@, camel),
{
    if !camel {
        return String::new();
    }
    match data {
        DataSyntax::Enum(_) => "#[serde(rename_all_fields = \"camelCase\")]".to_owned(),
        _ => "#[serde(rename_all = \"camelCase\")]".to_owned(),
    }
}

/// What `#[model]` expands to, once the type definition was read.
pub open spec fn model_attr_read(
    read: Result<ItemSyntaxView, Seq<char>>,
    item: Seq<char>,
    camel: bool,
) -> Result<Seq<char>, Seq<char>> {
    match read {
        Err(message) => Err(message),
        Ok(parsed) => Ok(
            "#[derive(::stakit_model::Model, ::serde::Serialize, ::serde::Deserialize)] "@
                + rename_attribute(parsed.data, camel) + " "@ + item,
        ),
    }
}

/// Writes the derives and the renaming before the type definition `item`, whose
/// data was read as `data`.
pub fn model_from(data: &DataSyntax, item: &str, camel: bool) -> (code: String)
    ensures
        code@ == "#[derive(::stakit_model::Model, ::serde::Serialize, ::serde::Deserialize)] "@
            + rename_attribute(data@, camel) + " "@ + item@,
{
    "#[derive(::stakit_model::Model, ::serde::Serialize, ::serde::Deserialize)] ".to_owned().concat(
        write_rename(data, camel).as_str(),
    ).concat(" ").concat(item)
}

/// Expands `#[model]`: the derives, and the renaming that keeps the wire in step
/// with the exported types. The renaming is that of a tree that `syn` may read the
/// type definition as, and an error of `syn` is passed on.
pub fn model(item: &str, camel: bool) -> (outcome: Result<String, String>)
    ensures
        exists|read: Result<ItemSyntaxView, Seq<char>>| #[trigger]
            syntax::item_read(item@, read) && syntax::outcome(outcome) == model_attr_read(
                read,
                item@,
                camel,
            ),
{
    let read = read_item(item);
    let ghost tree = syntax::outcome(read);
    assert(syntax::item_read(item@, tree));
    let outcome = match read {
        Err(message) => Err(message),
        Ok(parsed) => Ok(model_from(&parsed.data, item, camel)),
    };
    assert(syntax::outcome(outcome) == model_attr_read(tree, item@, camel));
    outcome
}

/// A derived model is validated and exported, both of them for the one model that the
/// definition stands for; a derived schema is that of the same model. What cannot be
/// read is an error for all of them.
pub proof fn a_derive_covers_the_model(
    read: Result<ItemSyntaxView, Seq<char>>,
    item: ItemSyntaxView,
    message: Seq<char>,
    camel: bool,
)
    ensures
        read == Ok::<ItemSyntaxView, Seq<char>>(item) ==> match ir::model_of(item, camel) {
            Ok(model) => {
                &&& derive_read(read, camel) is Ok
                &&& text::holds_text(
                    derive_read(read, camel)->Ok_0,
                    validate::validate_impl(model),
                )
                &&& text::holds_text(derive_read(read, camel)->Ok_0, ts::ts_impl(model))
                &&& schema_read(read, camel) == Ok::<Seq<char>, Seq<char>>(
                    schema::schema_impl(model),
                )
            },
            Err(bad) => derive_read(read, camel) == Err::<Seq<char>, Seq<char>>(bad)
                && schema_read(read, camel) == Err::<Seq<char>, Seq<char>>(bad),
        },
        read == Err::<ItemSyntaxView, Seq<char>>(message) ==> {
            &&& derive_read(read, camel) == Err::<Seq<char>, Seq<char>>(message)
            &&& schema_read(read, camel) == Err::<Seq<char>, Seq<char>>(message)
        },
{
    if let Ok(model) = ir::model_of(item, camel) {
        let none = Seq::<char>::empty();
        let checks = validate::validate_impl(model);
        let export = ts::ts_impl(model);
        text::a_text_holds_its_parts(checks + " "@, export, none);
        text::a_text_holds_its_parts(none, checks, " "@ + export);
        assert(checks + (" "@ + export) =~= checks + " "@ + export);
    }
}

/// The attribute keeps the definition as it stands, puts the derives before it, and
/// renames the fields where the models are in camel case: those of the struct, or
/// those inside the variants of an enum, whose names stay.
pub proof fn the_attribute_keeps_the_definition(
    parsed: ItemSyntaxView,
    item: Seq<char>,
    camel: bool,
)
    ensures
        model_attr_read(Ok(parsed), item, camel) matches Ok(code) && {
            &&& code.len() >= item.len()
            &&& code.skip(code.len() - item.len()) == item
            &&& "#[derive(::stakit_model::Model, ::serde::Serialize, ::serde::Deserialize)] "@.is_prefix_of(
                code,
            )
            &&& camel && parsed.data is Enum ==> text::holds_text(
                code,
                "#[serde(rename_all_fields = \"camelCase\")]"@,
            )
            &&& camel && !(parsed.data is Enum) ==> text::holds_text(
                code,
                "#[serde(rename_all = \"camelCase\")]"@,
            )
            &&& !camel ==> code
                == "#[derive(::stakit_model::Model, ::serde::Serialize, ::serde::Deserialize)] "@
                + Seq::<char>::empty() + " "@ + item
        },
{
    let derives = "#[derive(::stakit_model::Model, ::serde::Serialize, ::serde::Deserialize)] "@;
    let rename = rename_attribute(parsed.data, camel);
    let code = derives + rename + " "@ + item;
    assert(code.skip(code.len() - item.len()) =~= item);
    assert(code.take(derives.len() as int) =~= derives);
    text::a_text_holds_its_parts(derives, rename, " "@ + item);
    assert(derives + rename + (" "@ + item) =~= code);
}

} // verus!
