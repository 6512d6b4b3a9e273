//! Validation: the implementation of `Validate` for a model.
//!
//! Every rule of a field becomes a call; its error is pushed with the path of the
//! field. A field that is skipped, or has no rules, is not bound.

use crate::codegen::generics;
use crate::codegen::generics::{write_impl_generics, write_type_generics};
use crate::codegen::ir::{
    Body, BodyView, Field, FieldView, Ir, IrView, Model, ModelView, Rule, RuleView, Variant,
    VariantView,
};
use crate::codegen::syntax;
use crate::codegen::syntax::write_literal;
use crate::text;
use crate::text::join;
use crate::views;
use vstd::prelude::*;

verus! {

/// Whether a field is validated at all.
pub open spec fn is_validated(field: FieldView) -> bool {
    !field.skip && field.rules.len() > 0
}

/// An optional bound, as an expression.
pub open spec fn bound(expr: Option<Seq<char>>) -> Seq<char> {
    match expr {
        Some(e) => "::core::option::Option::Some("@ + e + ")"@,
        None => "::core::option::Option::None"@,
    }
}

/// The statement that makes a call, and pushes its error with the field's path.
pub open spec fn pushing(call: Seq<char>, label: Seq<char>) -> Seq<char> {
    "if let ::core::result::Result::Err(__e) = "@
        + call + " { __errors.push(__e.at_field("@ + syntax::string_literal(label) + ")); }"@
}

/// The call of a rule that only takes the field.
pub open spec fn unary_call(function: Seq<char>, binding: Seq<char>) -> Seq<char> {
    "::stakit_model::validate::"@ + function + "("@ + binding + ")"@
}

/// The call of a rule with an operand.
pub open spec fn binary_call(
    function: Seq<char>,
    binding: Seq<char>,
    operand: Seq<char>,
) -> Seq<char> {
    "::stakit_model::validate::"@ + function + "("@ + binding + ", "@ + operand + ")"@
}

/// The call of a rule with two bounds.
pub open spec fn bounds_call(
    function: Seq<char>,
    binding: Seq<char>,
    min: Option<Seq<char>>,
    max: Option<Seq<char>>,
) -> Seq<char> {
    "::stakit_model::validate::"@
        + function + "("@ + binding + ", "@ + bound(min) + ", "@ + bound(max) + ")"@
}

/// The statements of a rule.
pub open spec fn rule_code(rule: RuleView, binding: Seq<char>, label: Seq<char>) -> Seq<char> {
    match rule {
        RuleView::Email => pushing(unary_call("email"@, binding), label),
        RuleView::Url => pushing(unary_call("url"@, binding), label),
        RuleView::Ascii => pushing(unary_call("ascii"@, binding), label),
        RuleView::Alphanumeric => pushing(unary_call("alphanumeric"@, binding), label),
        RuleView::Contains(e) => pushing(binary_call("contains"@, binding, e), label),
        RuleView::Prefix(e) => pushing(binary_call("prefix"@, binding, e), label),
        RuleView::Suffix(e) => pushing(binary_call("suffix"@, binding, e), label),
        RuleView::Length { min, max } => pushing(
            bounds_call("length"@, binding, min, max),
            label,
        ),
        RuleView::Range { min, max } => pushing(bounds_call("range"@, binding, min, max), label),
        RuleView::Custom(f) => pushing("("@ + f + ")("@ + binding + ")"@, label),
        RuleView::Pattern(pattern) => "{ static __STAKIT_PATTERN: \
            ::std::sync::LazyLock<::stakit_model::validate::Regex> = \
            ::std::sync::LazyLock::new(|| { ::stakit_model::validate::Regex::new("@
            + syntax::string_literal(pattern)
            + ").expect(\"invalid regex in #[validate(pattern = ...)]\") }); "@
            + pushing(binary_call("pattern"@, binding, "&__STAKIT_PATTERN"@), label) + " }"@,
        RuleView::Dive => "if let ::core::result::Result::Err(__errs) = \
            ::stakit_model::Validate::validate("@
            + binding + ") { __errors.extend(__errs.into_iter().map(|__e| __e.at_field("@
            + syntax::string_literal(label) + "))); }"@,
    }
}

/// The statements of all rules of a field.
pub open spec fn field_code(field: FieldView) -> Seq<char> {
    text::joined(
        field.rules.map_values(|r: RuleView| rule_code(r, field.binding, field.wire)),
        " "@,
    )
}

/// The binding of a named field in a pattern.
pub open spec fn bound_name(field: FieldView) -> Seq<char> {
    field.binding + ","@
}

/// The place of a field in a pattern by position.
pub open spec fn bound_place(field: FieldView) -> Seq<char> {
    if is_validated(field) {
        field.binding
    } else {
        "_"@
    }
}

/// The pattern that binds the validated fields.
pub open spec fn pattern_of(body: BodyView) -> Seq<char> {
    match body {
        BodyView::Unit => Seq::empty(),
        BodyView::Named(fields) => "{ "@ + text::joined(bound_names(fields), " "@) + " .. }"@,
        BodyView::Tuple(fields) => "( "@ + text::joined(
            fields.map_values(|x: FieldView| bound_place(x)),
            ", "@,
        ) + " )"@,
    }
}

/// The statements that validate a struct.
pub open spec fn struct_code(body: BodyView) -> Seq<char> {
    match body {
        BodyView::Unit => Seq::empty(),
        _ => "let Self "@ + pattern_of(body) + " = self; "@ + text::joined(
            field_blocks(crate::codegen::ts::body_fields(body)),
            " "@,
        ),
    }
}

/// The arm that validates a variant.
pub open spec fn variant_arm(variant: VariantView) -> Seq<char> {
    match variant.body {
        BodyView::Unit => "Self::"@ + variant.ident + " => {}"@,
        _ => "Self::"@ + variant.ident + " "@ + pattern_of(variant.body) + " => { "@
            + text::joined(field_blocks(crate::codegen::ts::body_fields(variant.body)), " "@)
            + " }"@,
    }
}

/// The statements that validate a model.
pub open spec fn model_code(ir: IrView) -> Seq<char> {
    match ir {
        IrView::Struct { body } => struct_code(body),
        IrView::Enum { variants } => "match self { "@ + text::joined(
            variants.map_values(|x: VariantView| variant_arm(x)),
            " "@,
        ) + " }"@,
    }
}

/// The implementation of `Validate` for a model.
pub open spec fn validate_impl(model: ModelView) -> Seq<char> {
    "impl"@
        + generics::impl_generics(model.params, None) + " ::stakit_model::Validate for "@
        + model.ident + generics::type_generics(model.params) + " "@ + model.where_clause
        + " { fn validate(&self) -> ::core::result::Result<(), ::stakit_model::ValidationErrors> \
            { let mut __errors = ::stakit_model::ValidationErrors::new(); "@
        + model_code(model.ir) + " ::stakit_model::ValidationErrors::into_result(__errors) } }"@
}

fn validated(field: &Field) -> (yes: bool)
    ensures
        yes == is_validated(field@),
{
    !field.skip && field.rules.len() > 0
}

fn opt(expr: &Option<String>) -> (code: String)
    ensures
        code@ == bound(views::optional(*expr)),
{
    match expr {
        Some(e) => "::core::option::Option::Some(".to_owned().concat(e.as_str()).concat(")"),
        None => "::core::option::Option::None".to_owned(),
    }
}

fn write_pushing(call: &str, label: &str) -> (code: String)
    ensures
        code@ == pushing(call@, label@),
{
    "if let ::core::result::Result::Err(__e) = ".to_owned()
        .concat(call).concat(" { __errors.push(__e.at_field(")
        .concat(write_literal(label).as_str()).concat(")); }")
}

fn write_unary(function: &str, binding: &str) -> (code: String)
    ensures
        code@ == unary_call(function@, binding@),
{
    "::stakit_model::validate::".to_owned().concat(function).concat("(").concat(binding).concat(")")
}

fn write_binary(function: &str, binding: &str, operand: &str) -> (code: String)
    ensures
        code@ == binary_call(function@, binding@, operand@),
{
    "::stakit_model::validate::".to_owned()
        .concat(function).concat("(").concat(binding).concat(", ").concat(operand).concat(")")
}

fn write_bounds(
    function: &str,
    binding: &str,
    min: &Option<String>,
    max: &Option<String>,
) -> (code: String)
    ensures
        code@ == bounds_call(function@, binding@, views::optional(*min), views::optional(*max)),
{
    "::stakit_model::validate::".to_owned()
        .concat(function).concat("(").concat(binding).concat(", ").concat(opt(min).as_str())
        .concat(", ").concat(opt(max).as_str()).concat(")")
}

/// Writes the statements of a rule.
pub fn rule_tokens(rule: &Rule, binding: &str, label: &str) -> (code: String)
    ensures
        code@ == rule_code(rule@, binding@, label@),
{
    match rule {
        Rule::Email => write_pushing(write_unary("email", binding).as_str(), label),
        Rule::Url => write_pushing(write_unary("url", binding).as_str(), label),
        Rule::Ascii => write_pushing(write_unary("ascii", binding).as_str(), label),
        Rule::Alphanumeric => {
            write_pushing(write_unary("alphanumeric", binding).as_str(), label)
        },
        Rule::Contains(e) => {
            write_pushing(write_binary("contains", binding, e.as_str()).as_str(), label)
        },
        Rule::Prefix(e) => {
            write_pushing(write_binary("prefix", binding, e.as_str()).as_str(), label)
        },
        Rule::Suffix(e) => {
            write_pushing(write_binary("suffix", binding, e.as_str()).as_str(), label)
        },
        Rule::Length { min, max } => {
            write_pushing(write_bounds("length", binding, min, max).as_str(), label)
        },
        Rule::Range { min, max } => {
            write_pushing(write_bounds("range", binding, min, max).as_str(), label)
        },
        Rule::Custom(f) => {
            let call = "(".to_owned().concat(f.as_str()).concat(")(").concat(binding).concat(")");
            write_pushing(call.as_str(), label)
        },
        Rule::Pattern(pattern) => {
            "{ static __STAKIT_PATTERN: ::std::sync::LazyLock<::stakit_model::validate::Regex> = \
                ::std::sync::LazyLock::new(|| { ::stakit_model::validate::Regex::new(".to_owned()
                .concat(write_literal(pattern.as_str()).as_str())
                .concat(").expect(\"invalid regex in #[validate(pattern = ...)]\") }); ")
                .concat(write_pushing(write_binary("pattern", binding, "&__STAKIT_PATTERN").as_str(), label).as_str())
                .concat(" }")
        },
        Rule::Dive => {
            "if let ::core::result::Result::Err(__errs) = \
                ::stakit_model::Validate::validate(".to_owned()
                .concat(binding)
                .concat(") { __errors.extend(__errs.into_iter().map(|__e| __e.at_field(")
                .concat(write_literal(label).as_str()).concat("))); }")
        },
    }
}

/// Writes the statements of all rules of a field.
pub fn field_block(field: &Field) -> (code: String)
    ensures
        code@ == field_code(field@),
{
    let ghost view = field@;
    let mut texts: Vec<String> = Vec::new();
    let mut i: usize = 0;
    while i < field.rules.len()
        invariant
            i <= field.rules@.len(),
            texts@.len() == i,
            forall|j: int|
                0 <= j < i ==> (#[trigger] texts@[j])@ == rule_code(
                    field.rules@[j]@,
                    field.binding@,
                    field.wire@,
                ),
        decreases field.rules@.len() - i,
    {
        texts.push(rule_tokens(&field.rules[i], field.binding.as_str(), field.wire.as_str()));
        i = i + 1;
    }
    assert(views::each(texts@) =~= view.rules.map_values(
        |r: RuleView| rule_code(r, view.binding, view.wire),
    ));
    join(&texts, " ")
}

fn write_bound_name(field: &Field) -> (code: String)
    ensures
        code@ == bound_name(field@),
{
    field.binding.clone().concat(",")
}

fn write_bound_place(field: &Field) -> (code: String)
    ensures
        code@ == bound_place(field@),
{
    if validated(field) {
        field.binding.clone()
    } else {
        "_".to_owned()
    }
}

/// The bindings of the validated fields, in order.
pub open spec fn bound_names(items: Seq<FieldView>) -> Seq<Seq<char>>
    decreases items.len(),
{
    if items.len() == 0 {
        Seq::empty()
    } else {
        let before = bound_names(items.drop_last());
        if is_validated(items.last()) {
            before.push(bound_name(items.last()))
        } else {
            before
        }
    }
}

/// The bindings of the validated fields.
fn bound_name_texts(items: &Vec<Field>) -> (texts: Vec<String>)
    ensures
        views::each(texts@) == bound_names(views::each(items@)),
{
    let ghost all = views::each(items@);
    let mut texts: Vec<String> = Vec::new();
    let mut i: usize = 0;
    assert(views::each(texts@) =~= bound_names(all.take(0)));
    while i < items.len()
        invariant
            i <= items@.len(),
            all == views::each(items@),
            views::each(texts@) == bound_names(all.take(i as int)),
        decreases items@.len() - i,
    {
        assert(all.take(i + 1).drop_last() =~= all.take(i as int));
        assert(all.take(i + 1).last() == items@[i as int]@);
        if validated(&items[i]) {
            let ghost before = views::each(texts@);
            let text = write_bound_name(&items[i]);
            texts.push(text);
            assert(views::each(texts@) =~= before.push(text@));
        }
        i = i + 1;
    }
    assert(all.take(i as int) =~= all);
    texts
}

/// The statements of the validated fields, in order.
pub open spec fn field_blocks(items: Seq<FieldView>) -> Seq<Seq<char>>
    decreases items.len(),
{
    if items.len() == 0 {
        Seq::empty()
    } else {
        let before = field_blocks(items.drop_last());
        if is_validated(items.last()) {
            before.push(field_code(items.last()))
        } else {
            before
        }
    }
}

/// The statements of the validated fields.
fn field_block_texts(items: &Vec<Field>) -> (texts: Vec<String>)
    ensures
        views::each(texts@) == field_blocks(views::each(items@)),
{
    let ghost all = views::each(items@);
    let mut texts: Vec<String> = Vec::new();
    let mut i: usize = 0;
    assert(views::each(texts@) =~= field_blocks(all.take(0)));
    while i < items.len()
        invariant
            i <= items@.len(),
            all == views::each(items@),
            views::each(texts@) == field_blocks(all.take(i as int)),
        decreases items@.len() - i,
    {
        assert(all.take(i + 1).drop_last() =~= all.take(i as int));
        assert(all.take(i + 1).last() == items@[i as int]@);
        if validated(&items[i]) {
            let ghost before = views::each(texts@);
            let text = field_block(&items[i]);
            texts.push(text);
            assert(views::each(texts@) =~= before.push(text@));
        }
        i = i + 1;
    }
    assert(all.take(i as int) =~= all);
    texts
}

/// The places of the fields.
fn bound_place_texts(items: &Vec<Field>) -> (texts: Vec<String>)
    ensures
        views::each(texts@) == views::each(items@).map_values(|x: FieldView| bound_place(x)),
{
    let mut texts: Vec<String> = Vec::new();
    let mut i: usize = 0;
    while i < items.len()
        invariant
            i <= items@.len(),
            texts@.len() == i,
            forall|j: int| 0 <= j < i ==> (#[trigger] texts@[j])@ == bound_place(items@[j]@),
        decreases items@.len() - i,
    {
        texts.push(write_bound_place(&items[i]));
        i = i + 1;
    }
    assert(views::each(texts@) =~= views::each(items@).map_values(|x: FieldView| bound_place(x)));
    texts
}

/// Writes the pattern that binds the validated fields.
pub fn pattern(body: &Body) -> (code: String)
    ensures
        code@ == pattern_of(body@),
{
    match body {
        Body::Unit => String::new(),
        Body::Named(fields) => {
            "{ ".to_owned().concat(join(&bound_name_texts(fields), " ").as_str()).concat(" .. }")
        },
        Body::Tuple(fields) => {
            "( ".to_owned().concat(join(&bound_place_texts(fields), ", ").as_str()).concat(" )")
        },
    }
}

fn write_blocks(body: &Body) -> (code: String)
    ensures
        code@ == text::joined(field_blocks(crate::codegen::ts::body_fields(body@)), " "@),
{
    match body {
        Body::Unit => {
            assert(field_blocks(Seq::<FieldView>::empty()) =~= Seq::empty());
            String::new()
        },
        Body::Named(fields) => join(&field_block_texts(fields), " "),
        Body::Tuple(fields) => join(&field_block_texts(fields), " "),
    }
}

/// Writes the statements that validate a struct.
pub fn struct_body(body: &Body) -> (code: String)
    ensures
        code@ == struct_code(body@),
{
    match body {
        Body::Unit => String::new(),
        _ => "let Self ".to_owned().concat(pattern(body).as_str()).concat(" = self; ").concat(
            write_blocks(body).as_str(),
        ),
    }
}

fn write_arm(variant: &Variant) -> (code: String)
    ensures
        code@ == variant_arm(variant@),
{
    match &variant.body {
        Body::Unit => "Self::".to_owned().concat(variant.ident.as_str()).concat(" => {}"),
        body => "Self::".to_owned().concat(variant.ident.as_str()).concat(" ").concat(
            pattern(body).as_str(),
        ).concat(" => { ").concat(write_blocks(body).as_str()).concat(" }"),
    }
}

/// The arms of the variants.
fn arm_texts(items: &Vec<Variant>) -> (texts: Vec<String>)
    ensures
        views::each(texts@) == views::each(items@).map_values(|x: VariantView| variant_arm(x)),
{
    let mut texts: Vec<String> = Vec::new();
    let mut i: usize = 0;
    while i < items.len()
        invariant
            i <= items@.len(),
            texts@.len() == i,
            forall|j: int| 0 <= j < i ==> (#[trigger] texts@[j])@ == variant_arm(items@[j]@),
        decreases items@.len() - i,
    {
        texts.push(write_arm(&items[i]));
        i = i + 1;
    }
    assert(views::each(texts@) =~= views::each(items@).map_values(|x: VariantView| variant_arm(x)));
    texts
}

/// Writes the statements that validate an enum.
pub fn enum_body(variants: &Vec<Variant>) -> (code: String)
    ensures
        code@ == model_code(IrView::Enum { variants: views::each(variants@) }),
{
    "match self { ".to_owned().concat(join(&arm_texts(variants), " ").as_str()).concat(" }")
}

fn write_model(ir: &Ir) -> (code: String)
    ensures
        code@ == model_code(ir@),
{
    match ir {
        Ir::Struct { body } => struct_body(body),
        Ir::Enum { variants } => enum_body(variants),
    }
}

/// Writes the implementation of `Validate` for a model.
pub fn expand(model: &Model) -> (code: String)
    ensures
        code@ == validate_impl(model@),
{
    "impl".to_owned()
        .concat(write_impl_generics(&model.params, None).as_str())
        .concat(" ::stakit_model::Validate for ").concat(model.ident.as_str())
        .concat(write_type_generics(&model.params).as_str()).concat(" ")
        .concat(model.where_clause.as_str())
        .concat(" { fn validate(&self) -> ::core::result::Result<(), \
            ::stakit_model::ValidationErrors> { let mut __errors = \
            ::stakit_model::ValidationErrors::new(); ")
        .concat(write_model(&model.ir).as_str())
        .concat(" ::stakit_model::ValidationErrors::into_result(__errors) } }")
}

/// A skipped field, or one without rules, is neither bound nor validated: what
/// is written for the fields around it stands alone.
pub proof fn an_unvalidated_field_leaves_no_trace(fields: Seq<FieldView>, field: FieldView)
    requires
        field.skip || field.rules.len() == 0,
    ensures
        field_blocks(fields.push(field)) == field_blocks(fields),
        bound_names(fields.push(field)) == bound_names(fields),
        bound_place(field) == "_"@,
{
    assert(fields.push(field).drop_last() =~= fields);
}

/// The code makes a call, and where it fails pushes the error under the label.
pub open spec fn checked_by(code: Seq<char>, call: Seq<char>, label: Seq<char>) -> bool {
    exists|name: Seq<char>| #[trigger]
        syntax::is_literal_of(name, label) && code
            == "if let ::core::result::Result::Err(__e) = "@ + call
            + " { __errors.push(__e.at_field("@ + name + ")); }"@
}

/// An optional expression as an expression of an option.
pub open spec fn option_code(expr: Option<Seq<char>>) -> Seq<char> {
    match expr {
        Some(e) => "::core::option::Option::Some("@ + e + ")"@,
        None => "::core::option::Option::None"@,
    }
}

/// A rule calls the check of its own name on the bound field, with its operand, or
/// with the lower bound first and the upper one behind it; a failure is pushed under
/// the name of the field on the wire. A rule of its own calls the given function, and
/// a nested model is validated with its errors under that name.
pub proof fn a_rule_calls_its_check(rule: RuleView, binding: Seq<char>, label: Seq<char>)
    ensures
        ({
            let code = rule_code(rule, binding, label);
            let check = "::stakit_model::validate::"@;
            match rule {
                RuleView::Email => checked_by(
                    code,
                    check + "email"@ + "("@ + binding + ")"@,
                    label,
                ),
                RuleView::Url => checked_by(code, check + "url"@ + "("@ + binding + ")"@, label),
                RuleView::Ascii => checked_by(
                    code,
                    check + "ascii"@ + "("@ + binding + ")"@,
                    label,
                ),
                RuleView::Alphanumeric => checked_by(
                    code,
                    check + "alphanumeric"@ + "("@ + binding + ")"@,
                    label,
                ),
                RuleView::Contains(e) => checked_by(
                    code,
                    check + "contains"@ + "("@ + binding + ", "@ + e + ")"@,
                    label,
                ),
                RuleView::Prefix(e) => checked_by(
                    code,
                    check + "prefix"@ + "("@ + binding + ", "@ + e + ")"@,
                    label,
                ),
                RuleView::Suffix(e) => checked_by(
                    code,
                    check + "suffix"@ + "("@ + binding + ", "@ + e + ")"@,
                    label,
                ),
                RuleView::Length { min, max } => checked_by(
                    code,
                    check + "length"@ + "("@ + binding + ", "@ + option_code(min) + ", "@
                        + option_code(max) + ")"@,
                    label,
                ),
                RuleView::Range { min, max } => checked_by(
                    code,
                    check + "range"@ + "("@ + binding + ", "@ + option_code(min) + ", "@
                        + option_code(max) + ")"@,
                    label,
                ),
                RuleView::Custom(f) => checked_by(code, "("@ + f + ")("@ + binding + ")"@, label),
                RuleView::Pattern(pattern) => {
                    &&& text::holds_text(
                        code,
                        pushing(
                            check + "pattern"@ + "("@ + binding + ", "@ + "&__STAKIT_PATTERN"@
                                + ")"@,
                            label,
                        ),
                    )
                    &&& text::holds_text(
                        code,
                        syntax::string_literal(pattern)
                            + ").expect(\"invalid regex in #[validate(pattern = ...)]\") }); "@,
                    )
                },
                RuleView::Dive => exists|name: Seq<char>| #[trigger]
                    syntax::is_literal_of(name, label) && code
                        == "if let ::core::result::Result::Err(__errs) = \
                            ::stakit_model::Validate::validate("@ + binding
                        + ") { __errors.extend(__errs.into_iter().map(|__e| __e.at_field("@ + name
                        + "))); }"@,
            }
        }),
        checked_by(pushing(binding, label), binding, label),
{
    syntax::a_literal_stands_for_its_text(label);
    assert(syntax::is_literal_of(syntax::string_literal(label), label));
    match rule {
        RuleView::Pattern(pattern) => {
            let head = "{ static __STAKIT_PATTERN: \
                ::std::sync::LazyLock<::stakit_model::validate::Regex> = \
                ::std::sync::LazyLock::new(|| { ::stakit_model::validate::Regex::new("@;
            let tail = ").expect(\"invalid regex in #[validate(pattern = ...)]\") }); "@;
            let literal = syntax::string_literal(pattern);
            let check = pushing(binary_call("pattern"@, binding, "&__STAKIT_PATTERN"@), label);
            let none = Seq::<char>::empty();
            text::a_text_holds_its_parts(head + literal + tail, check, " }"@);
            text::a_text_holds_its_parts(head, literal + tail, none);
            assert(head + (literal + tail) =~= head + literal + tail);
            text::what_a_part_holds_the_text_holds(
                none,
                head + literal + tail,
                check,
                literal + tail,
            );
            text::what_a_part_holds_the_text_holds(
                none,
                head + literal + tail + check,
                " }"@,
                literal + tail,
            );
        },
        _ => {},
    }
}

/// A field is validated unless it is skipped or has no rules.
pub open spec fn has_checks(field: FieldView) -> bool {
    !field.skip && field.rules.len() > 0
}

/// The fields that are validated are the ones that are bound, in order and by their
/// own bindings: by name, or by position with a blank for each other field.
pub proof fn the_validated_fields_are_bound(fields: Seq<FieldView>, field: FieldView)
    ensures
        bound_names(fields) == fields.filter(|f: FieldView| has_checks(f)).map_values(
            |f: FieldView| f.binding + ","@,
        ),
        field_blocks(fields) == fields.filter(|f: FieldView| has_checks(f)).map_values(
            |f: FieldView| field_code(f),
        ),
        has_checks(field) ==> bound_place(field) == field.binding,
        !has_checks(field) ==> bound_place(field) == "_"@,
    decreases fields.len(),
{
    reveal(Seq::filter);
    if fields.len() > 0 {
        the_validated_fields_are_bound(fields.drop_last(), field);
    }
    assert(bound_names(fields) =~= fields.filter(|f: FieldView| has_checks(f)).map_values(
        |f: FieldView| f.binding + ","@,
    ));
    assert(field_blocks(fields) =~= fields.filter(|f: FieldView| has_checks(f)).map_values(
        |f: FieldView| field_code(f),
    ));
}

proof fn lemma_block_stands(fields: Seq<FieldView>, i: int) -> (at: int)
    requires
        0 <= i < fields.len(),
        has_checks(fields[i]),
    ensures
        0 <= at < field_blocks(fields).len(),
        field_blocks(fields)[at] == field_code(fields[i]),
    decreases fields.len(),
{
    if i == fields.len() - 1 {
        field_blocks(fields.drop_last()).len() as int
    } else {
        lemma_block_stands(fields.drop_last(), i)
    }
}

proof fn lemma_rule_stands(fields: Seq<FieldView>, i: int, k: int)
    requires
        0 <= i < fields.len(),
        !fields[i].skip,
        0 <= k < fields[i].rules.len(),
    ensures
        text::holds_text(
            text::joined(field_blocks(fields), " "@),
            rule_code(fields[i].rules[k], fields[i].binding, fields[i].wire),
        ),
{
    let field = fields[i];
    let at = lemma_block_stands(fields, i);
    text::a_joined_text_holds_every_part(field_blocks(fields), " "@, at);
    let codes = field.rules.map_values(|r: RuleView| rule_code(r, field.binding, field.wire));
    text::a_joined_text_holds_every_part(codes, " "@, k);
    text::holding_goes_through(
        text::joined(field_blocks(fields), " "@),
        field_code(field),
        codes[k],
    );
}

/// The fields of a shape.
pub open spec fn has_fields(body: BodyView, fields: Seq<FieldView>) -> bool {
    body == BodyView::Named(fields) || body == BodyView::Tuple(fields)
}

proof fn lemma_impl_stands(model: ModelView, lo: int, hi: int)
    requires
        0 <= lo < hi <= 10,
    ensures
        text::holds_text(
            validate_impl(model),
            text::first_parts(impl_parts(model).subrange(lo, hi), hi - lo),
        ),
{
    reveal_with_fuel(text::first_parts, 10);
    assert(text::first_parts(impl_parts(model), 10) == validate_impl(model));
    text::a_run_of_parts_stands(impl_parts(model), lo, hi, 10);
}

/// The parts of the implementation, in order.
pub open spec fn impl_parts(model: ModelView) -> Seq<Seq<char>> {
    seq![
        "impl"@,
        generics::impl_generics(model.params, None),
        " ::stakit_model::Validate for "@,
        model.ident,
        generics::type_generics(model.params),
        " "@,
        model.where_clause,
        " { fn validate(&self) -> ::core::result::Result<(), ::stakit_model::ValidationErrors> \
            { let mut __errors = ::stakit_model::ValidationErrors::new(); "@,
        model_code(model.ir),
        " ::stakit_model::ValidationErrors::into_result(__errors) } }"@,
    ]
}

proof fn lemma_impl_holds(model: ModelView, needle: Seq<char>)
    requires
        text::holds_text(model_code(model.ir), needle),
    ensures
        text::holds_text(validate_impl(model), needle),
{
    lemma_impl_stands(model, 8, 9);
    text::holding_goes_through(validate_impl(model), model_code(model.ir), needle);
}

/// Every rule of every field of a struct that is not skipped is checked.
pub proof fn every_rule_of_a_struct_is_checked(
    model: ModelView,
    body: BodyView,
    fields: Seq<FieldView>,
    i: int,
    k: int,
)
    requires
        model.ir == (IrView::Struct { body }),
        has_fields(body, fields),
        0 <= i < fields.len(),
        !fields[i].skip,
        0 <= k < fields[i].rules.len(),
    ensures
        text::holds_text(
            validate_impl(model),
            rule_code(fields[i].rules[k], fields[i].binding, fields[i].wire),
        ),
        text::holds_text(validate_impl(model), "let Self "@ + pattern_of(body) + " = self; "@),
{
    let none = Seq::<char>::empty();
    let rule = rule_code(fields[i].rules[k], fields[i].binding, fields[i].wire);
    let head = "let Self "@ + pattern_of(body) + " = self; "@;
    let blocks = text::joined(field_blocks(fields), " "@);
    lemma_rule_stands(fields, i, k);
    text::what_a_part_holds_the_text_holds(head, blocks, none, rule);
    text::a_text_holds_its_parts(none, head, blocks);
    lemma_impl_holds(model, rule);
    lemma_impl_holds(model, head);
}

/// Every rule of every field of a variant that is not skipped is checked, in the arm
/// of that variant.
pub proof fn every_rule_of_a_variant_is_checked(
    model: ModelView,
    variants: Seq<VariantView>,
    v: int,
    fields: Seq<FieldView>,
    i: int,
    k: int,
)
    requires
        model.ir == (IrView::Enum { variants }),
        0 <= v < variants.len(),
        has_fields(variants[v].body, fields),
        0 <= i < fields.len(),
        !fields[i].skip,
        0 <= k < fields[i].rules.len(),
    ensures
        text::holds_text(validate_impl(model), variant_arm(variants[v])),
        text::holds_text(
            variant_arm(variants[v]),
            rule_code(fields[i].rules[k], fields[i].binding, fields[i].wire),
        ),
        ("Self::"@ + variants[v].ident + " "@ + pattern_of(variants[v].body)).is_prefix_of(
            variant_arm(variants[v]),
        ),
{
    let none = Seq::<char>::empty();
    let variant = variants[v];
    let rule = rule_code(fields[i].rules[k], fields[i].binding, fields[i].wire);
    let head = "Self::"@ + variant.ident + " "@ + pattern_of(variant.body);
    let blocks = text::joined(field_blocks(fields), " "@);
    lemma_rule_stands(fields, i, k);
    text::what_a_part_holds_the_text_holds(head + " => { "@, blocks, " }"@, rule);
    assert(variant_arm(variant).take(head.len() as int) =~= head);
    lemma_arm_stands(model, variants, v);
}

proof fn lemma_arm_stands(model: ModelView, variants: Seq<VariantView>, v: int)
    requires
        model.ir == (IrView::Enum { variants }),
        0 <= v < variants.len(),
    ensures
        text::holds_text(validate_impl(model), variant_arm(variants[v])),
{
    let arms = variants.map_values(|x: VariantView| variant_arm(x));
    text::a_joined_text_holds_every_part(arms, " "@, v);
    text::what_a_part_holds_the_text_holds(
        "match self { "@,
        text::joined(arms, " "@),
        " }"@,
        arms[v],
    );
    lemma_impl_holds(model, arms[v]);
}

/// Every variant has its arm, one without fields too.
pub proof fn every_variant_has_its_arm(model: ModelView, variants: Seq<VariantView>, v: int)
    requires
        model.ir == (IrView::Enum { variants }),
        0 <= v < variants.len(),
    ensures
        text::holds_text(validate_impl(model), variant_arm(variants[v])),
        variants[v].body is Unit ==> variant_arm(variants[v]) == "Self::"@ + variants[v].ident
            + " => {}"@,
{
    lemma_arm_stands(model, variants, v);
}

/// The code is the implementation of `Validate` for the model's own type, with its
/// generics.
pub proof fn the_validation_is_for_the_model(model: ModelView)
    ensures
        text::holds_text(
            validate_impl(model),
            " ::stakit_model::Validate for "@ + model.ident + generics::type_generics(model.params),
        ),
{
    reveal_with_fuel(text::first_parts, 3);
    lemma_impl_stands(model, 2, 5);
}

} // verus!
