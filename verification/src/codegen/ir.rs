//! Models, read from type definitions and their `#[validate(..)]` attributes.

use crate::codegen::arguments;
use crate::codegen::arguments::option_inner;
use crate::codegen::syntax;
use crate::codegen::syntax::{
    read_item, AttrArg, AttrArgView, AttrSyntax, AttrSyntaxView, BoundSyntax, BoundSyntaxView,
    DataSyntax, DataSyntaxView, FieldSyntax, FieldSyntaxView, FieldsSyntax, FieldsSyntaxView,
    ItemSyntax, ItemSyntaxView, ParamSyntax, ParamSyntaxView, RuleArg, RuleArgView, RuleSyntax,
    RuleSyntaxView, VariantSyntax, VariantSyntaxView,
};
use crate::codegen::tool_macro;
use crate::codegen::tool_macro::{doc_comment, is_named};
use crate::text;
use crate::text::{chars_of, decimal_text};
use crate::views;
use vstd::prelude::*;

verus! {

/// A validation rule of a field. Bounds and operands are expressions.
#[derive(Debug)]
pub enum Rule {
    /// An email address.
    Email,
    /// A url.
    Url,
    /// ASCII only.
    Ascii,
    /// Letters and digits only.
    Alphanumeric,
    /// The field's own rules.
    Dive,
    /// A bounded length.
    Length {
        /// Lower bound.
        min: Option<String>,
        /// Upper bound.
        max: Option<String>,
    },
    /// A bounded value.
    Range {
        /// Lower bound.
        min: Option<String>,
        /// Upper bound.
        max: Option<String>,
    },
    /// Holds this.
    Contains(String),
    /// Starts with this.
    Prefix(String),
    /// Ends with this.
    Suffix(String),
    /// Matches this regular expression.
    Pattern(String),
    /// Passes this function.
    Custom(String),
}

/// What a [`Rule`] stands for.
#[verifier::ext_equal]
pub enum RuleView {
    /// An email address.
    Email,
    /// A url.
    Url,
    /// ASCII only.
    Ascii,
    /// Letters and digits only.
    Alphanumeric,
    /// The field's own rules.
    Dive,
    /// A bounded length.
    Length {
        /// Lower bound.
        min: Option<Seq<char>>,
        /// Upper bound.
        max: Option<Seq<char>>,
    },
    /// A bounded value.
    Range {
        /// Lower bound.
        min: Option<Seq<char>>,
        /// Upper bound.
        max: Option<Seq<char>>,
    },
    /// Holds this.
    Contains(Seq<char>),
    /// Starts with this.
    Prefix(Seq<char>),
    /// Ends with this.
    Suffix(Seq<char>),
    /// Matches this regular expression.
    Pattern(Seq<char>),
    /// Passes this function.
    Custom(Seq<char>),
}

impl View for Rule {
    type V = RuleView;

    open spec fn view(&self) -> RuleView {
        match *self {
            Rule::Email => RuleView::Email,
            Rule::Url => RuleView::Url,
            Rule::Ascii => RuleView::Ascii,
            Rule::Alphanumeric => RuleView::Alphanumeric,
            Rule::Dive => RuleView::Dive,
            Rule::Length { min, max } => RuleView::Length {
                min: views::optional(min),
                max: views::optional(max),
            },
            Rule::Range { min, max } => RuleView::Range {
                min: views::optional(min),
                max: views::optional(max),
            },
            Rule::Contains(x) => RuleView::Contains(x@),
            Rule::Prefix(x) => RuleView::Prefix(x@),
            Rule::Suffix(x) => RuleView::Suffix(x@),
            Rule::Pattern(x) => RuleView::Pattern(x@),
            Rule::Custom(x) => RuleView::Custom(x@),
        }
    }
}

/// A field of a struct or of a variant.
#[derive(Debug)]
pub struct Field {
    /// The name that it is bound to: its own, or `__field_N` by position.
    pub binding: String,
    /// Its name, or its position.
    pub label: String,
    /// Its name on the wire.
    pub wire: String,
    /// Its type.
    pub ty: String,
    /// The `T` of an `Option<T>`.
    pub inner: Option<String>,
    /// Its rules, in order.
    pub rules: Vec<Rule>,
    /// Whether it is left out of validation.
    pub skip: bool,
    /// What it is for.
    pub description: Option<String>,
}

/// What a [`Field`] stands for.
#[verifier::ext_equal]
pub struct FieldView {
    /// The name that it is bound to: its own, or `__field_N` by position.
    pub binding: Seq<char>,
    /// Its name, or its position.
    pub label: Seq<char>,
    /// Its name on the wire.
    pub wire: Seq<char>,
    /// Its type.
    pub ty: Seq<char>,
    /// The `T` of an `Option<T>`.
    pub inner: Option<Seq<char>>,
    /// Its rules, in order.
    pub rules: Seq<RuleView>,
    /// Whether it is left out of validation.
    pub skip: bool,
    /// What it is for.
    pub description: Option<Seq<char>>,
}

impl View for Field {
    type V = FieldView;

    open spec fn view(&self) -> FieldView {
        FieldView {
            binding: self.binding@,
            label: self.label@,
            wire: self.wire@,
            ty: self.ty@,
            inner: views::optional(self.inner),
            rules: views::each(self.rules@),
            skip: self.skip,
            description: views::optional(self.description),
        }
    }
}

/// The shape of a struct or of a variant.
#[derive(Debug)]
pub enum Body {
    /// No fields.
    Unit,
    /// Fields with names.
    Named(Vec<Field>),
    /// Fields by position.
    Tuple(Vec<Field>),
}

/// What a [`Body`] stands for.
#[verifier::ext_equal]
pub enum BodyView {
    /// No fields.
    Unit,
    /// Fields with names.
    Named(Seq<FieldView>),
    /// Fields by position.
    Tuple(Seq<FieldView>),
}

impl View for Body {
    type V = BodyView;

    open spec fn view(&self) -> BodyView {
        match *self {
            Body::Unit => BodyView::Unit,
            Body::Named(x) => BodyView::Named(views::each(x@)),
            Body::Tuple(x) => BodyView::Tuple(views::each(x@)),
        }
    }
}

/// A variant of an enum.
#[derive(Debug)]
pub struct Variant {
    /// Name.
    pub ident: String,
    /// Shape.
    pub body: Body,
}

/// What a [`Variant`] stands for.
#[verifier::ext_equal]
pub struct VariantView {
    /// Name.
    pub ident: Seq<char>,
    /// Shape.
    pub body: BodyView,
}

impl View for Variant {
    type V = VariantView;

    open spec fn view(&self) -> VariantView {
        VariantView {
            ident: self.ident@,
            body: self.body@,
        }
    }
}

/// A model.
#[derive(Debug)]
pub enum Ir {
    /// A struct.
    Struct {
        /// Its shape.
        body: Body,
    },
    /// An enum.
    Enum {
        /// Its variants, in order.
        variants: Vec<Variant>,
    },
}

/// What a [`Ir`] stands for.
#[verifier::ext_equal]
pub enum IrView {
    /// A struct.
    Struct {
        /// Its shape.
        body: BodyView,
    },
    /// An enum.
    Enum {
        /// Its variants, in order.
        variants: Seq<VariantView>,
    },
}

impl View for Ir {
    type V = IrView;

    open spec fn view(&self) -> IrView {
        match *self {
            Ir::Struct { body } => IrView::Struct {
                body: body@,
            },
            Ir::Enum { variants } => IrView::Enum {
                variants: views::each(variants@),
            },
        }
    }
}

/// A model with its name and generics.
#[derive(Debug)]
pub struct Model {
    /// Name.
    pub ident: String,
    /// Generic parameters.
    pub params: Vec<ParamSyntax>,
    /// `where` clause, or nothing.
    pub where_clause: String,
    /// The model.
    pub ir: Ir,
}

/// What a [`Model`] stands for.
#[verifier::ext_equal]
pub struct ModelView {
    /// Name.
    pub ident: Seq<char>,
    /// Generic parameters.
    pub params: Seq<ParamSyntaxView>,
    /// `where` clause, or nothing.
    pub where_clause: Seq<char>,
    /// The model.
    pub ir: IrView,
}

impl View for Model {
    type V = ModelView;

    open spec fn view(&self) -> ModelView {
        ModelView {
            ident: self.ident@,
            params: views::each(self.params@),
            where_clause: self.where_clause@,
            ir: self.ir@,
        }
    }
}

/// A lower-case ASCII letter as a capital; any other character as it is.
pub open spec fn ascii_upper(c: char) -> char {
    if 'a' <= c && c <= 'z' {
        ((c as u32) - 32) as char
    } else {
        c
    }
}

/// A name in words, each with a capital: every underscore is dropped, and the
/// letter after it (and the first one, where `start`) is raised.
pub open spec fn pascal_case(label: Seq<char>, start: bool) -> Seq<char>
    decreases label.len(),
{
    if label.len() == 0 {
        Seq::empty()
    } else if label[0] == '_' {
        pascal_case(label.drop_first(), true)
    } else if start {
        seq![ascii_upper(label[0])] + pascal_case(label.drop_first(), false)
    } else {
        seq![label[0]] + pascal_case(label.drop_first(), false)
    }
}

/// The camel-case form of a name.
pub open spec fn camel_case(label: Seq<char>) -> Seq<char> {
    let pascal = pascal_case(label, true);
    if pascal.len() == 0 {
        pascal
    } else {
        pascal.update(0, text::ascii_lower(pascal[0]))
    }
}

/// The name of a field on the wire: camel case where the models use it.
pub open spec fn wire_name_of(label: Seq<char>, camel: bool) -> Seq<char> {
    if camel {
        camel_case(label)
    } else {
        label
    }
}

fn upper(c: char) -> (raised: char)
    ensures
        raised == ascii_upper(c),
{
    let n: u32 = c as u32;
    if 97 <= n && n <= 122 {
        let m: u8 = (n - 32) as u8;
        m as char
    } else {
        c
    }
}

fn lower(c: char) -> (lowered: char)
    ensures
        lowered == text::ascii_lower(c),
{
    let n: u32 = c as u32;
    if 65 <= n && n <= 90 {
        let m: u8 = (n + 32) as u8;
        m as char
    } else {
        c
    }
}

/// The name of a field on the wire.
pub fn wire_name(label: &str, camel: bool) -> (wire: String)
    ensures
        wire@ == wire_name_of(label@, camel),
{
    if !camel {
        return label.to_owned();
    }
    let chars = chars_of(label);
    let ghost pascal = pascal_case(label@, true);
    let mut wire = String::new();
    let mut start = true;
    let mut i: usize = 0;
    assert(chars@.skip(0) =~= label@);
    assert(wire@ + pascal =~= pascal);
    while i < chars.len()
        invariant
            i <= chars@.len(),
            chars@ == label@,
            pascal == pascal_case(label@, true),
            wire@.len() > 0 ==> pascal.len() >= wire@.len() && wire@ == camel_case(label@).take(
                wire@.len() as int,
            ),
            pascal == pascal.take(wire@.len() as int) + pascal_case(chars@.skip(i as int), start),
            pascal.len() == wire@.len() + pascal_case(chars@.skip(i as int), start).len(),
        decreases chars@.len() - i,
    {
        let c = chars[i];
        let ghost rest = pascal_case(chars@.skip(i as int), start);
        let ghost n = wire@.len() as int;
        assert(chars@.skip(i as int).drop_first() =~= chars@.skip(i + 1));
        if c == '_' {
            start = true;
        } else {
            let shown = if start {
                upper(c)
            } else {
                c
            };
            assert(pascal[n] == rest[0]);
            assert(shown == rest[0]);
            start = false;
            let first = is_empty(&wire);
            let ghost before = wire@;
            if first {
                wire.push(lower(shown));
            } else {
                wire.push(shown);
            }
            assert(wire@ =~= camel_case(label@).take(n + 1));
            assert(pascal =~= pascal.take(n + 1) + pascal_case(chars@.skip(i + 1), false));
        }
        i = i + 1;
    }
    assert(chars@.skip(i as int) =~= Seq::empty());
    assert(wire@ =~= camel_case(label@));
    wire
}

fn is_empty(s: &String) -> (empty: bool)
    ensures
        empty == (s@.len() == 0),
{
    s.as_str().unicode_len() == 0
}

proof fn lemma_pascal_drops_underscores(label: Seq<char>, start: bool)
    ensures
        forall|i: int|
            0 <= i < pascal_case(label, start).len() ==> (#[trigger] pascal_case(
                label,
                start,
            )[i]) != '_',
    decreases label.len(),
{
    if label.len() > 0 {
        let rest = label.drop_first();
        lemma_pascal_drops_underscores(rest, true);
        lemma_pascal_drops_underscores(rest, false);
        if label[0] != '_' {
            let all = pascal_case(label, start);
            assert forall|i: int| 0 <= i < all.len() implies (#[trigger] all[i]) != '_' by {
                if i > 0 {
                    assert(all[i] == pascal_case(rest, false)[i - 1]);
                }
            }
        } else {
            assert(pascal_case(label, start) == pascal_case(rest, true));
        }
    }
}

/// A camel-case name holds no underscore and starts with no capital.
pub proof fn a_camel_case_name_has_no_underscore(label: Seq<char>)
    ensures
        forall|i: int|
            0 <= i < camel_case(label).len() ==> (#[trigger] camel_case(label)[i]) != '_',
        camel_case(label).len() > 0 ==> !('A' <= camel_case(label)[0] && camel_case(label)[0]
            <= 'Z'),
{
    lemma_pascal_drops_underscores(label, true);
    let pascal = pascal_case(label, true);
    if pascal.len() > 0 {
        assert(pascal[0] != '_');
        assert forall|i: int| 0 <= i < camel_case(label).len() implies (#[trigger] camel_case(
            label,
        )[i]) != '_' by {
            if i > 0 {
                assert(camel_case(label)[i] == pascal[i]);
            }
        }
    }
}

/// Bounds of a rule.
pub struct Bounds {
    /// Lower bound.
    pub min: Option<String>,
    /// Upper bound.
    pub max: Option<String>,
    /// Both bounds at once.
    pub equal: Option<String>,
}

/// What [`Bounds`] stand for.
#[verifier::ext_equal]
pub struct BoundsView {
    /// Lower bound.
    pub min: Option<Seq<char>>,
    /// Upper bound.
    pub max: Option<Seq<char>>,
    /// Both bounds at once.
    pub equal: Option<Seq<char>>,
}

impl View for Bounds {
    type V = BoundsView;

    open spec fn view(&self) -> BoundsView {
        BoundsView {
            min: views::optional(self.min),
            max: views::optional(self.max),
            equal: views::optional(self.equal),
        }
    }
}

impl BoundsView {
    /// The lower bound that counts.
    pub open spec fn low(self) -> Option<Seq<char>> {
        if self.equal is Some {
            self.equal
        } else {
            self.min
        }
    }

    /// The upper bound that counts.
    pub open spec fn high(self) -> Option<Seq<char>> {
        if self.equal is Some {
            self.equal
        } else {
            self.max
        }
    }
}

/// One item of a list of bounds.
pub open spec fn with_bound(
    bounds: BoundsView,
    meta: BoundSyntaxView,
) -> Result<BoundsView, Seq<char>> {
    if meta.name == Some("min"@) || meta.name == Some("max"@) || meta.name == Some("equal"@) {
        match meta.value {
            Some(e) => if meta.name == Some("min"@) {
                Ok(BoundsView { min: Some(e), ..bounds })
            } else if meta.name == Some("max"@) {
                Ok(BoundsView { max: Some(e), ..bounds })
            } else {
                Ok(BoundsView { equal: Some(e), ..bounds })
            },
            None => Err("expected `=`"@),
        }
    } else {
        Err("expected `min`, `max`, or `equal`"@)
    }
}

/// A list of bounds; the first bad item decides.
pub open spec fn bounds_of(metas: Seq<BoundSyntaxView>) -> Result<BoundsView, Seq<char>>
    decreases metas.len(),
{
    if metas.len() == 0 {
        Ok(BoundsView { min: None, max: None, equal: None })
    } else {
        match bounds_of(metas.drop_last()) {
            Ok(bounds) => with_bound(bounds, metas.last()),
            Err(message) => Err(message),
        }
    }
}

/// The bounds between the brackets of a rule.
pub open spec fn bounds_in(arg: RuleArgView) -> Result<BoundsView, Seq<char>> {
    match arg {
        RuleArgView::List { parens: true, items, operand, literal } => match items {
            Ok(metas) => if metas.len() == 0 {
                Err("expected nested attribute"@)
            } else {
                bounds_of(metas)
            },
            Err(message) => Err(message),
        },
        _ => Err("expected parentheses"@),
    }
}

/// The expression between the brackets of a rule.
pub open spec fn operand_in(arg: RuleArgView) -> Result<Seq<char>, Seq<char>> {
    match arg {
        RuleArgView::List { parens: true, items, operand, literal } => operand,
        _ => Err("expected parentheses"@),
    }
}

/// The text of a pattern, between brackets or behind `=`.
pub open spec fn pattern_in(arg: RuleArgView) -> Result<Seq<char>, Seq<char>> {
    match arg {
        RuleArgView::List { parens: true, items, operand, literal: Some(value) } => Ok(value),
        RuleArgView::List { parens: true, items, operand, literal: None } => Err(
            "expected string literal"@,
        ),
        RuleArgView::Value { expr, literal: Some(value) } => Ok(value),
        RuleArgView::Value { expr, literal: None } => Err("expected string literal"@),
        _ => Err("expected parentheses"@),
    }
}

/// The expression behind `=`.
pub open spec fn value_in(arg: RuleArgView) -> Result<Seq<char>, Seq<char>> {
    match arg {
        RuleArgView::Value { expr, literal } => Ok(expr),
        _ => Err("expected `=`"@),
    }
}

/// A rule that is a single word.
pub open spec fn word_rule(arg: RuleArgView, rule: RuleView) -> Result<RuleView, Seq<char>> {
    match arg {
        RuleArgView::Word => Ok(rule),
        _ => Err("expected `,`"@),
    }
}

/// The name of an attribute item; nothing for a longer path.
pub open spec fn item_name(meta: RuleSyntaxView) -> Seq<char> {
    match meta.name {
        Some(name) => name,
        None => Seq::empty(),
    }
}

/// The message for a rule that there is none of.
pub open spec fn unsupported(name: Seq<char>) -> Seq<char> {
    "unsupported garde rule `"@ + name + "` in stakit-model v1"@
}

/// The rule that an item other than `skip` stands for.
pub open spec fn rule_of(meta: RuleSyntaxView) -> Result<RuleView, Seq<char>> {
    let name = item_name(meta);
    let arg = meta.arg;
    if name == "email"@ {
        word_rule(arg, RuleView::Email)
    } else if name == "url"@ {
        word_rule(arg, RuleView::Url)
    } else if name == "ascii"@ {
        word_rule(arg, RuleView::Ascii)
    } else if name == "alphanumeric"@ {
        word_rule(arg, RuleView::Alphanumeric)
    } else if name == "dive"@ {
        word_rule(arg, RuleView::Dive)
    } else if name == "length"@ {
        match bounds_in(arg) {
            Ok(b) => Ok(RuleView::Length { min: b.low(), max: b.high() }),
            Err(message) => Err(message),
        }
    } else if name == "range"@ {
        match bounds_in(arg) {
            Ok(b) => Ok(RuleView::Range { min: b.low(), max: b.high() }),
            Err(message) => Err(message),
        }
    } else if name == "min_len"@ {
        match value_in(arg) {
            Ok(e) => Ok(RuleView::Length { min: Some(e), max: None }),
            Err(message) => Err(message),
        }
    } else if name == "max_len"@ {
        match value_in(arg) {
            Ok(e) => Ok(RuleView::Length { min: None, max: Some(e) }),
            Err(message) => Err(message),
        }
    } else if name == "min"@ {
        match value_in(arg) {
            Ok(e) => Ok(RuleView::Range { min: Some(e), max: None }),
            Err(message) => Err(message),
        }
    } else if name == "max"@ {
        match value_in(arg) {
            Ok(e) => Ok(RuleView::Range { min: None, max: Some(e) }),
            Err(message) => Err(message),
        }
    } else if name == "contains"@ {
        match operand_in(arg) {
            Ok(e) => Ok(RuleView::Contains(e)),
            Err(message) => Err(message),
        }
    } else if name == "prefix"@ {
        match operand_in(arg) {
            Ok(e) => Ok(RuleView::Prefix(e)),
            Err(message) => Err(message),
        }
    } else if name == "suffix"@ {
        match operand_in(arg) {
            Ok(e) => Ok(RuleView::Suffix(e)),
            Err(message) => Err(message),
        }
    } else if name == "pattern"@ {
        match pattern_in(arg) {
            Ok(e) => Ok(RuleView::Pattern(e)),
            Err(message) => Err(message),
        }
    } else if name == "custom"@ {
        match operand_in(arg) {
            Ok(e) => Ok(RuleView::Custom(e)),
            Err(message) => Err(message),
        }
    } else {
        Err(unsupported(name))
    }
}

/// The rules of a field so far, and whether it is skipped.
#[verifier::ext_equal]
pub struct RuleSetView {
    /// The rules, in order.
    pub rules: Seq<RuleView>,
    /// Whether the field is left out of validation.
    pub skip: bool,
}

/// The rules of a field, and whether it is skipped.
pub struct RuleSet {
    /// The rules, in order.
    pub rules: Vec<Rule>,
    /// Whether the field is left out of validation.
    pub skip: bool,
}

impl View for RuleSet {
    type V = RuleSetView;

    open spec fn view(&self) -> RuleSetView {
        RuleSetView { rules: views::each(self.rules@), skip: self.skip }
    }
}

/// One item of a `#[validate(..)]` attribute.
pub open spec fn with_rule(
    set: RuleSetView,
    meta: RuleSyntaxView,
) -> Result<RuleSetView, Seq<char>> {
    if item_name(meta) == "skip"@ {
        match meta.arg {
            RuleArgView::Word => Ok(RuleSetView { skip: true, ..set }),
            _ => Err("expected `,`"@),
        }
    } else {
        match rule_of(meta) {
            Ok(rule) => Ok(RuleSetView { rules: set.rules.push(rule), ..set }),
            Err(message) => Err(message),
        }
    }
}

/// The items of a `#[validate(..)]` attribute; the first bad one decides.
pub open spec fn with_rules(
    set: RuleSetView,
    metas: Seq<RuleSyntaxView>,
) -> Result<RuleSetView, Seq<char>>
    decreases metas.len(),
{
    if metas.len() == 0 {
        Ok(set)
    } else {
        match with_rules(set, metas.drop_last()) {
            Ok(so_far) => with_rule(so_far, metas.last()),
            Err(message) => Err(message),
        }
    }
}

/// One attribute of a field: only `#[validate(..)]` adds rules.
pub open spec fn with_attribute(
    set: RuleSetView,
    attr: AttrSyntaxView,
) -> Result<RuleSetView, Seq<char>> {
    if attr.name == Some("validate"@) {
        match attr.arg {
            AttrArgView::List(Ok(items)) => with_rules(set, items),
            AttrArgView::List(Err(message)) => Err(message),
            AttrArgView::Word => Err(
                "expected attribute arguments in parentheses: #[validate(...)]"@,
            ),
            AttrArgView::Value(_) => Err("expected parentheses: #[validate(...)]"@),
        }
    } else {
        Ok(set)
    }
}

/// The rules of a field's attributes; the first bad one decides.
pub open spec fn rules_of(attrs: Seq<AttrSyntaxView>) -> Result<RuleSetView, Seq<char>>
    decreases attrs.len(),
{
    if attrs.len() == 0 {
        Ok(RuleSetView { rules: Seq::empty(), skip: false })
    } else {
        match rules_of(attrs.drop_last()) {
            Ok(set) => with_attribute(set, attrs.last()),
            Err(message) => Err(message),
        }
    }
}

fn add_bound(bounds: Bounds, meta: &BoundSyntax) -> (outcome: Result<Bounds, String>)
    ensures
        syntax::outcome(outcome) == with_bound(bounds@, meta@),
{
    let low = is_named(&meta.name, "min");
    let high = is_named(&meta.name, "max");
    let both = is_named(&meta.name, "equal");
    if !low && !high && !both {
        return Err("expected `min`, `max`, or `equal`".to_owned());
    }
    match &meta.value {
        Some(e) => if low {
            Ok(Bounds { min: Some(e.clone()), max: bounds.max, equal: bounds.equal })
        } else if high {
            Ok(Bounds { min: bounds.min, max: Some(e.clone()), equal: bounds.equal })
        } else {
            Ok(Bounds { min: bounds.min, max: bounds.max, equal: Some(e.clone()) })
        },
        None => Err("expected `=`".to_owned()),
    }
}

proof fn lemma_bad_bound_decides(metas: Seq<BoundSyntaxView>, n: int)
    requires
        0 <= n <= metas.len(),
        bounds_of(metas.take(n)) is Err,
    ensures
        bounds_of(metas) == bounds_of(metas.take(n)),
    decreases metas.len() - n,
{
    if n == metas.len() {
        assert(metas.take(n) =~= metas);
    } else {
        assert(metas.take(n + 1).drop_last() =~= metas.take(n));
        lemma_bad_bound_decides(metas, n + 1);
    }
}

/// Collects a list of bounds.
pub fn collect_bounds(metas: &Vec<BoundSyntax>) -> (outcome: Result<Bounds, String>)
    ensures
        syntax::outcome(outcome) == bounds_of(views::each(metas@)),
{
    let ghost all = views::each(metas@);
    let mut bounds = Bounds { min: None, max: None, equal: None };
    let mut i: usize = 0;
    while i < metas.len()
        invariant
            i <= metas@.len(),
            all == views::each(metas@),
            bounds_of(all.take(i as int)) == Ok::<BoundsView, Seq<char>>(bounds@),
        decreases metas@.len() - i,
    {
        assert(all.take(i + 1).drop_last() =~= all.take(i as int));
        assert(all.take(i + 1).last() == metas@[i as int]@);
        match add_bound(bounds, &metas[i]) {
            Ok(next) => {
                bounds = next;
            },
            Err(message) => {
                proof {
                    lemma_bad_bound_decides(all, i + 1);
                }
                return Err(message);
            },
        }
        i = i + 1;
    }
    assert(all.take(i as int) =~= all);
    Ok(bounds)
}

/// Reads the bounds between the brackets of a rule.
pub fn parse_bounds(arg: &RuleArg) -> (outcome: Result<Bounds, String>)
    ensures
        syntax::outcome(outcome) == bounds_in(arg@),
{
    match arg {
        RuleArg::List { parens, items, operand: _, literal: _ } => {
            if !*parens {
                return Err("expected parentheses".to_owned());
            }
            match items {
                Ok(metas) => if metas.len() == 0 {
                    Err("expected nested attribute".to_owned())
                } else {
                    collect_bounds(metas)
                },
                Err(message) => Err(message.clone()),
            }
        },
        _ => Err("expected parentheses".to_owned()),
    }
}

/// Reads the expression between the brackets of a rule.
pub fn parse_paren_expr(arg: &RuleArg) -> (outcome: Result<String, String>)
    ensures
        syntax::outcome(outcome) == operand_in(arg@),
{
    match arg {
        RuleArg::List { parens, items: _, operand, literal: _ } => if *parens {
            match operand {
                Ok(expr) => Ok(expr.clone()),
                Err(message) => Err(message.clone()),
            }
        } else {
            Err("expected parentheses".to_owned())
        },
        _ => Err("expected parentheses".to_owned()),
    }
}

/// Reads the text of a pattern.
pub fn parse_paren_litstr(arg: &RuleArg) -> (outcome: Result<String, String>)
    ensures
        syntax::outcome(outcome) == pattern_in(arg@),
{
    let literal = match arg {
        RuleArg::List { parens, items: _, operand: _, literal } => if *parens {
            literal
        } else {
            return Err("expected parentheses".to_owned());
        },
        RuleArg::Value { expr: _, literal } => literal,
        RuleArg::Word => {
            return Err("expected parentheses".to_owned());
        },
    };
    match literal {
        Some(value) => Ok(value.clone()),
        None => Err("expected string literal".to_owned()),
    }
}

fn parse_value(arg: &RuleArg) -> (outcome: Result<String, String>)
    ensures
        syntax::outcome(outcome) == value_in(arg@),
{
    match arg {
        RuleArg::Value { expr, literal: _ } => Ok(expr.clone()),
        _ => Err("expected `=`".to_owned()),
    }
}

fn parse_word(arg: &RuleArg, rule: Rule) -> (outcome: Result<Rule, String>)
    ensures
        syntax::outcome(outcome) == word_rule(arg@, rule@),
{
    match arg {
        RuleArg::Word => Ok(rule),
        _ => Err("expected `,`".to_owned()),
    }
}

fn low_bound(bounds: &Bounds) -> (bound: Option<String>)
    ensures
        views::optional(bound) == bounds@.low(),
{
    match &bounds.equal {
        Some(e) => Some(e.clone()),
        None => bounds.min.clone(),
    }
}

fn high_bound(bounds: &Bounds) -> (bound: Option<String>)
    ensures
        views::optional(bound) == bounds@.high(),
{
    match &bounds.equal {
        Some(e) => Some(e.clone()),
        None => bounds.max.clone(),
    }
}

/// Reads one item of a `#[validate(..)]` attribute other than `skip`.
pub fn parse_rule(meta: &RuleSyntax) -> (outcome: Result<Rule, String>)
    ensures
        syntax::outcome(outcome) == rule_of(meta@),
{
    let name = match &meta.name {
        Some(name) => name.clone(),
        None => String::new(),
    };
    assert(name@ =~= item_name(meta@));
    let key = name.as_str();
    let arg = &meta.arg;
    if *key == *"email" {
        parse_word(arg, Rule::Email)
    } else if *key == *"url" {
        parse_word(arg, Rule::Url)
    } else if *key == *"ascii" {
        parse_word(arg, Rule::Ascii)
    } else if *key == *"alphanumeric" {
        parse_word(arg, Rule::Alphanumeric)
    } else if *key == *"dive" {
        parse_word(arg, Rule::Dive)
    } else if *key == *"length" {
        match parse_bounds(arg) {
            Ok(b) => Ok(Rule::Length { min: low_bound(&b), max: high_bound(&b) }),
            Err(message) => Err(message),
        }
    } else if *key == *"range" {
        match parse_bounds(arg) {
            Ok(b) => Ok(Rule::Range { min: low_bound(&b), max: high_bound(&b) }),
            Err(message) => Err(message),
        }
    } else if *key == *"min_len" {
        match parse_value(arg) {
            Ok(e) => Ok(Rule::Length { min: Some(e), max: None }),
            Err(message) => Err(message),
        }
    } else if *key == *"max_len" {
        match parse_value(arg) {
            Ok(e) => Ok(Rule::Length { min: None, max: Some(e) }),
            Err(message) => Err(message),
        }
    } else if *key == *"min" {
        match parse_value(arg) {
            Ok(e) => Ok(Rule::Range { min: Some(e), max: None }),
            Err(message) => Err(message),
        }
    } else if *key == *"max" {
        match parse_value(arg) {
            Ok(e) => Ok(Rule::Range { min: None, max: Some(e) }),
            Err(message) => Err(message),
        }
    } else if *key == *"contains" {
        match parse_paren_expr(arg) {
            Ok(e) => Ok(Rule::Contains(e)),
            Err(message) => Err(message),
        }
    } else if *key == *"prefix" {
        match parse_paren_expr(arg) {
            Ok(e) => Ok(Rule::Prefix(e)),
            Err(message) => Err(message),
        }
    } else if *key == *"suffix" {
        match parse_paren_expr(arg) {
            Ok(e) => Ok(Rule::Suffix(e)),
            Err(message) => Err(message),
        }
    } else if *key == *"pattern" {
        match parse_paren_litstr(arg) {
            Ok(e) => Ok(Rule::Pattern(e)),
            Err(message) => Err(message),
        }
    } else if *key == *"custom" {
        match parse_paren_expr(arg) {
            Ok(e) => Ok(Rule::Custom(e)),
            Err(message) => Err(message),
        }
    } else {
        Err(
            "unsupported garde rule `".to_owned().concat(key).concat("` in stakit-model v1"),
        )
    }
}

fn add_rule(set: RuleSet, meta: &RuleSyntax) -> (outcome: Result<RuleSet, String>)
    ensures
        syntax::outcome(outcome) == with_rule(set@, meta@),
{
    proof {
        reveal_strlit("skip");
        assert("skip"@.len() == 4);
        if meta@.name is None {
            assert(item_name(meta@).len() == 0);
        }
    }
    let mut set = set;
    if is_named(&meta.name, "skip") {
        match &meta.arg {
            RuleArg::Word => Ok(RuleSet { rules: set.rules, skip: true }),
            _ => Err("expected `,`".to_owned()),
        }
    } else {
        assert(item_name(meta@) != "skip"@);
        match parse_rule(meta) {
            Ok(rule) => {
                let ghost before = views::each(set.rules@);
                set.rules.push(rule);
                assert(views::each(set.rules@) =~= before.push(rule@));
                Ok(set)
            },
            Err(message) => Err(message),
        }
    }
}

proof fn lemma_bad_rule_decides(set: RuleSetView, metas: Seq<RuleSyntaxView>, n: int)
    requires
        0 <= n <= metas.len(),
        with_rules(set, metas.take(n)) is Err,
    ensures
        with_rules(set, metas) == with_rules(set, metas.take(n)),
    decreases metas.len() - n,
{
    if n == metas.len() {
        assert(metas.take(n) =~= metas);
    } else {
        assert(metas.take(n + 1).drop_last() =~= metas.take(n));
        lemma_bad_rule_decides(set, metas, n + 1);
    }
}

/// Adds the items of one `#[validate(..)]` attribute.
pub fn collect_rules(set: RuleSet, metas: &Vec<RuleSyntax>) -> (outcome: Result<RuleSet, String>)
    ensures
        syntax::outcome(outcome) == with_rules(set@, views::each(metas@)),
{
    let ghost all = views::each(metas@);
    let ghost start = set@;
    let mut so_far = set;
    let mut i: usize = 0;
    while i < metas.len()
        invariant
            i <= metas@.len(),
            all == views::each(metas@),
            with_rules(start, all.take(i as int)) == Ok::<RuleSetView, Seq<char>>(so_far@),
            start == set@,
        decreases metas@.len() - i,
    {
        assert(all.take(i + 1).drop_last() =~= all.take(i as int));
        assert(all.take(i + 1).last() == metas@[i as int]@);
        match add_rule(so_far, &metas[i]) {
            Ok(next) => {
                so_far = next;
            },
            Err(message) => {
                proof {
                    lemma_bad_rule_decides(start, all, i + 1);
                }
                return Err(message);
            },
        }
        i = i + 1;
    }
    assert(all.take(i as int) =~= all);
    Ok(so_far)
}

fn add_attribute(set: RuleSet, attr: &AttrSyntax) -> (outcome: Result<RuleSet, String>)
    ensures
        syntax::outcome(outcome) == with_attribute(set@, attr@),
{
    if !is_named(&attr.name, "validate") {
        return Ok(set);
    }
    match &attr.arg {
        AttrArg::List(Ok(items)) => collect_rules(set, items),
        AttrArg::List(Err(message)) => Err(message.clone()),
        AttrArg::Word => Err(
            "expected attribute arguments in parentheses: #[validate(...)]".to_owned(),
        ),
        AttrArg::Value(_) => Err("expected parentheses: #[validate(...)]".to_owned()),
    }
}

proof fn lemma_bad_attribute_decides(attrs: Seq<AttrSyntaxView>, n: int)
    requires
        0 <= n <= attrs.len(),
        rules_of(attrs.take(n)) is Err,
    ensures
        rules_of(attrs) == rules_of(attrs.take(n)),
    decreases attrs.len() - n,
{
    if n == attrs.len() {
        assert(attrs.take(n) =~= attrs);
    } else {
        assert(attrs.take(n + 1).drop_last() =~= attrs.take(n));
        lemma_bad_attribute_decides(attrs, n + 1);
    }
}

/// Reads the rules of a field's attributes.
pub fn parse_rules(attrs: &Vec<AttrSyntax>) -> (outcome: Result<RuleSet, String>)
    ensures
        syntax::outcome(outcome) == rules_of(views::each(attrs@)),
{
    let ghost all = views::each(attrs@);
    let mut set = RuleSet { rules: Vec::new(), skip: false };
    let mut i: usize = 0;
    assert(set@ =~= (RuleSetView { rules: Seq::empty(), skip: false }));
    while i < attrs.len()
        invariant
            i <= attrs@.len(),
            all == views::each(attrs@),
            rules_of(all.take(i as int)) == Ok::<RuleSetView, Seq<char>>(set@),
        decreases attrs@.len() - i,
    {
        assert(all.take(i + 1).drop_last() =~= all.take(i as int));
        assert(all.take(i + 1).last() == attrs@[i as int]@);
        match add_attribute(set, &attrs[i]) {
            Ok(next) => {
                set = next;
            },
            Err(message) => {
                proof {
                    lemma_bad_attribute_decides(all, i + 1);
                }
                return Err(message);
            },
        }
        i = i + 1;
    }
    assert(all.take(i as int) =~= all);
    Ok(set)
}

/// The description that an item of `#[arg(..)]` sets.
pub open spec fn item_description(meta: RuleSyntaxView) -> Option<Seq<char>> {
    if meta.name == Some("description"@) {
        match meta.arg {
            RuleArgView::Value { expr, literal } => literal,
            _ => None,
        }
    } else {
        None
    }
}

/// The first description among the items of `#[arg(..)]`.
pub open spec fn first_description(metas: Seq<RuleSyntaxView>) -> Option<Seq<char>>
    decreases metas.len(),
{
    if metas.len() == 0 {
        None
    } else {
        match item_description(metas[0]) {
            Some(description) => Some(description),
            None => first_description(metas.drop_first()),
        }
    }
}

/// The description that an attribute sets: that of `#[arg(description = "..")]`.
pub open spec fn attribute_description(attr: AttrSyntaxView) -> Option<Seq<char>> {
    if attr.name == Some("arg"@) {
        match attr.arg {
            AttrArgView::List(Ok(items)) => first_description(items),
            _ => None,
        }
    } else {
        None
    }
}

/// The first description that an attribute sets.
pub open spec fn argument_description(attrs: Seq<AttrSyntaxView>) -> Option<Seq<char>>
    decreases attrs.len(),
{
    if attrs.len() == 0 {
        None
    } else {
        match attribute_description(attrs[0]) {
            Some(description) => Some(description),
            None => argument_description(attrs.drop_first()),
        }
    }
}

/// The description of a field: that of `#[arg(..)]`, else the doc comment.
pub open spec fn description_of(attrs: Seq<AttrSyntaxView>) -> Option<Seq<char>> {
    match argument_description(attrs) {
        Some(description) => Some(description),
        None => tool_macro::doc_of(attrs),
    }
}

fn read_item_description(meta: &RuleSyntax) -> (description: Option<String>)
    ensures
        views::optional(description) == item_description(meta@),
{
    if !is_named(&meta.name, "description") {
        return None;
    }
    match &meta.arg {
        RuleArg::Value { expr: _, literal } => literal.clone(),
        _ => None,
    }
}

fn read_first_description(metas: &Vec<RuleSyntax>) -> (description: Option<String>)
    ensures
        views::optional(description) == first_description(views::each(metas@)),
{
    let ghost all = views::each(metas@);
    let mut i: usize = 0;
    assert(all.skip(0) =~= all);
    while i < metas.len()
        invariant
            i <= metas@.len(),
            all == views::each(metas@),
            first_description(all.skip(i as int)) == first_description(all),
        decreases metas@.len() - i,
    {
        assert(all.skip(i as int)[0] == metas@[i as int]@);
        assert(all.skip(i as int).drop_first() =~= all.skip(i + 1));
        match read_item_description(&metas[i]) {
            Some(description) => {
                return Some(description);
            },
            None => {},
        }
        i = i + 1;
    }
    assert(all.skip(i as int).len() == 0);
    None
}

fn read_attribute_description(attr: &AttrSyntax) -> (description: Option<String>)
    ensures
        views::optional(description) == attribute_description(attr@),
{
    if !is_named(&attr.name, "arg") {
        return None;
    }
    match &attr.arg {
        AttrArg::List(Ok(items)) => read_first_description(items),
        _ => None,
    }
}

/// Reads the description of a field.
pub fn parse_description(attrs: &Vec<AttrSyntax>) -> (description: Option<String>)
    ensures
        views::optional(description) == description_of(views::each(attrs@)),
{
    let ghost all = views::each(attrs@);
    let mut i: usize = 0;
    assert(all.skip(0) =~= all);
    while i < attrs.len()
        invariant
            i <= attrs@.len(),
            all == views::each(attrs@),
            argument_description(all.skip(i as int)) == argument_description(all),
        decreases attrs@.len() - i,
    {
        assert(all.skip(i as int)[0] == attrs@[i as int]@);
        assert(all.skip(i as int).drop_first() =~= all.skip(i + 1));
        match read_attribute_description(&attrs[i]) {
            Some(description) => {
                return Some(description);
            },
            None => {},
        }
        i = i + 1;
    }
    assert(all.skip(i as int).len() == 0);
    doc_comment(attrs)
}

/// The field at a position.
pub open spec fn field_of(
    field: FieldSyntaxView,
    position: nat,
    camel: bool,
) -> Result<FieldView, Seq<char>> {
    let label = match field.name {
        Some(name) => name,
        None => text::decimal(position),
    };
    match rules_of(field.attrs) {
        Err(message) => Err(message),
        Ok(set) => Ok(
            FieldView {
                binding: match field.name {
                    Some(name) => name,
                    None => "__field_"@ + text::decimal(position),
                },
                label,
                wire: wire_name_of(label, camel),
                ty: field.ty.text,
                inner: arguments::option_argument(field.ty),
                rules: set.rules,
                skip: set.skip,
                description: description_of(field.attrs),
            },
        ),
    }
}

/// The fields, in order; the first bad one decides.
pub open spec fn fields_of(
    fields: Seq<FieldSyntaxView>,
    camel: bool,
) -> Result<Seq<FieldView>, Seq<char>>
    decreases fields.len(),
{
    if fields.len() == 0 {
        Ok(Seq::empty())
    } else {
        match fields_of(fields.drop_last(), camel) {
            Err(message) => Err(message),
            Ok(before) => match field_of(fields.last(), (fields.len() - 1) as nat, camel) {
                Ok(field) => Ok(before.push(field)),
                Err(message) => Err(message),
            },
        }
    }
}

/// The shape of a struct or variant.
pub open spec fn body_of(fields: FieldsSyntaxView, camel: bool) -> Result<BodyView, Seq<char>> {
    match fields {
        FieldsSyntaxView::Unit => Ok(BodyView::Unit),
        FieldsSyntaxView::Named(fields) => match fields_of(fields, camel) {
            Ok(fields) => Ok(BodyView::Named(fields)),
            Err(message) => Err(message),
        },
        FieldsSyntaxView::Tuple(fields) => match fields_of(fields, camel) {
            Ok(fields) => Ok(BodyView::Tuple(fields)),
            Err(message) => Err(message),
        },
    }
}

fn parse_field(
    field: &FieldSyntax,
    position: usize,
    camel: bool,
) -> (outcome: Result<Field, String>)
    ensures
        syntax::outcome(outcome) == field_of(field@, position as nat, camel),
{
    let set = match parse_rules(&field.attrs) {
        Ok(set) => set,
        Err(message) => {
            return Err(message);
        },
    };
    let number = decimal_text(position as u64);
    let (binding, label) = match &field.name {
        Some(name) => (name.clone(), name.clone()),
        None => ("__field_".to_owned().concat(number.as_str()), number.clone()),
    };
    let wire = wire_name(label.as_str(), camel);
    Ok(
        Field {
            binding,
            label,
            wire,
            ty: field.ty.text.clone(),
            inner: option_inner(&field.ty),
            rules: set.rules,
            skip: set.skip,
            description: parse_description(&field.attrs),
        },
    )
}

proof fn lemma_bad_field_decides(fields: Seq<FieldSyntaxView>, camel: bool, n: int)
    requires
        0 <= n <= fields.len(),
        fields_of(fields.take(n), camel) is Err,
    ensures
        fields_of(fields, camel) == fields_of(fields.take(n), camel),
    decreases fields.len() - n,
{
    if n == fields.len() {
        assert(fields.take(n) =~= fields);
    } else {
        assert(fields.take(n + 1).drop_last() =~= fields.take(n));
        lemma_bad_field_decides(fields, camel, n + 1);
    }
}

/// Reads the fields of a struct or variant.
pub fn parse_fields(
    fields: &Vec<FieldSyntax>,
    camel: bool,
) -> (outcome: Result<Vec<Field>, String>)
    ensures
        match (fields_of(views::each(fields@), camel), outcome) {
            (Ok(expected), Ok(found)) => views::each(found@) == expected,
            (Err(expected), Err(message)) => message@ == expected,
            _ => false,
        },
{
    let ghost all = views::each(fields@);
    let mut found: Vec<Field> = Vec::new();
    let mut i: usize = 0;
    assert(views::each(found@) =~= Seq::empty());
    while i < fields.len()
        invariant
            i <= fields@.len(),
            all == views::each(fields@),
            fields_of(all.take(i as int), camel) == Ok::<Seq<FieldView>, Seq<char>>(
                views::each(found@),
            ),
        decreases fields@.len() - i,
    {
        assert(all.take(i + 1).drop_last() =~= all.take(i as int));
        assert(all.take(i + 1).last() == fields@[i as int]@);
        let ghost before = views::each(found@);
        match parse_field(&fields[i], i, camel) {
            Ok(field) => {
                found.push(field);
                assert(views::each(found@) =~= before.push(field@));
            },
            Err(message) => {
                proof {
                    lemma_bad_field_decides(all, camel, i + 1);
                }
                return Err(message);
            },
        }
        i = i + 1;
    }
    assert(all.take(i as int) =~= all);
    Ok(found)
}

/// Reads the shape of a struct or variant.
pub fn parse_body(fields: &FieldsSyntax, camel: bool) -> (outcome: Result<Body, String>)
    ensures
        syntax::outcome(outcome) == body_of(fields@, camel),
{
    match fields {
        FieldsSyntax::Unit => Ok(Body::Unit),
        FieldsSyntax::Named(fields) => match parse_fields(fields, camel) {
            Ok(fields) => Ok(Body::Named(fields)),
            Err(message) => Err(message),
        },
        FieldsSyntax::Tuple(fields) => match parse_fields(fields, camel) {
            Ok(fields) => Ok(Body::Tuple(fields)),
            Err(message) => Err(message),
        },
    }
}

/// A variant.
pub open spec fn variant_of(
    variant: VariantSyntaxView,
    camel: bool,
) -> Result<VariantView, Seq<char>> {
    match body_of(variant.fields, camel) {
        Ok(body) => Ok(VariantView { ident: variant.ident, body }),
        Err(message) => Err(message),
    }
}

/// The variants, in order; the first bad one decides.
pub open spec fn variants_of(
    variants: Seq<VariantSyntaxView>,
    camel: bool,
) -> Result<Seq<VariantView>, Seq<char>>
    decreases variants.len(),
{
    if variants.len() == 0 {
        Ok(Seq::empty())
    } else {
        match variants_of(variants.drop_last(), camel) {
            Err(message) => Err(message),
            Ok(before) => match variant_of(variants.last(), camel) {
                Ok(variant) => Ok(before.push(variant)),
                Err(message) => Err(message),
            },
        }
    }
}

/// The model of a type definition's data; a union is none.
pub open spec fn ir_of(data: DataSyntaxView, camel: bool) -> Result<IrView, Seq<char>> {
    match data {
        DataSyntaxView::Struct(fields) => match body_of(fields, camel) {
            Ok(body) => Ok(IrView::Struct { body }),
            Err(message) => Err(message),
        },
        DataSyntaxView::Enum(variants) => match variants_of(variants, camel) {
            Ok(variants) => Ok(IrView::Enum { variants }),
            Err(message) => Err(message),
        },
        DataSyntaxView::Union => Err("`#[derive(Model)]` does not support unions"@),
    }
}

/// The model of a type definition, with its name and generics.
pub open spec fn model_of(item: ItemSyntaxView, camel: bool) -> Result<ModelView, Seq<char>> {
    match ir_of(item.data, camel) {
        Err(message) => Err(message),
        Ok(ir) => Ok(
            ModelView {
                ident: item.ident,
                params: item.params,
                where_clause: item.where_clause,
                ir,
            },
        ),
    }
}

fn parse_variant(variant: &VariantSyntax, camel: bool) -> (outcome: Result<Variant, String>)
    ensures
        syntax::outcome(outcome) == variant_of(variant@, camel),
{
    match parse_body(&variant.fields, camel) {
        Ok(body) => Ok(Variant { ident: variant.ident.clone(), body }),
        Err(message) => Err(message),
    }
}

proof fn lemma_bad_variant_decides(variants: Seq<VariantSyntaxView>, camel: bool, n: int)
    requires
        0 <= n <= variants.len(),
        variants_of(variants.take(n), camel) is Err,
    ensures
        variants_of(variants, camel) == variants_of(variants.take(n), camel),
    decreases variants.len() - n,
{
    if n == variants.len() {
        assert(variants.take(n) =~= variants);
    } else {
        assert(variants.take(n + 1).drop_last() =~= variants.take(n));
        lemma_bad_variant_decides(variants, camel, n + 1);
    }
}

fn parse_variants(
    variants: &Vec<VariantSyntax>,
    camel: bool,
) -> (outcome: Result<Vec<Variant>, String>)
    ensures
        syntax::list_outcome(outcome) == variants_of(views::each(variants@), camel),
{
    let ghost all = views::each(variants@);
    let mut found: Vec<Variant> = Vec::new();
    let mut i: usize = 0;
    assert(views::each(found@) =~= Seq::empty());
    while i < variants.len()
        invariant
            i <= variants@.len(),
            all == views::each(variants@),
            variants_of(all.take(i as int), camel) == Ok::<Seq<VariantView>, Seq<char>>(
                views::each(found@),
            ),
        decreases variants@.len() - i,
    {
        assert(all.take(i + 1).drop_last() =~= all.take(i as int));
        assert(all.take(i + 1).last() == variants@[i as int]@);
        let ghost before = views::each(found@);
        match parse_variant(&variants[i], camel) {
            Ok(variant) => {
                found.push(variant);
                assert(views::each(found@) =~= before.push(variant@));
            },
            Err(message) => {
                proof {
                    lemma_bad_variant_decides(all, camel, i + 1);
                }
                return Err(message);
            },
        }
        i = i + 1;
    }
    assert(all.take(i as int) =~= all);
    Ok(found)
}

/// Reads the model of a type definition.
pub fn model_from(item: ItemSyntax, camel: bool) -> (outcome: Result<Model, String>)
    ensures
        syntax::outcome(outcome) == model_of(item@, camel),
{
    let ir = match &item.data {
        DataSyntax::Struct(fields) => match parse_body(fields, camel) {
            Ok(body) => Ir::Struct { body },
            Err(message) => {
                return Err(message);
            },
        },
        DataSyntax::Enum(variants) => match parse_variants(variants, camel) {
            Ok(variants) => Ir::Enum { variants },
            Err(message) => {
                return Err(message);
            },
        },
        DataSyntax::Union => {
            return Err("`#[derive(Model)]` does not support unions".to_owned());
        },
    };
    Ok(Model { ident: item.ident, params: item.params, where_clause: item.where_clause, ir })
}

/// The model, once the text of a type definition was read.
pub open spec fn model_read(
    read: Result<ItemSyntaxView, Seq<char>>,
    camel: bool,
) -> Result<ModelView, Seq<char>> {
    match read {
        Ok(item) => model_of(item, camel),
        Err(message) => Err(message),
    }
}

/// Reads the model of a type definition's text: the model is that of a tree that
/// `syn` may read the text as, and an error of `syn` is passed on.
pub fn parse(item: &str, camel: bool) -> (outcome: Result<Model, String>)
    ensures
        exists|read: Result<ItemSyntaxView, Seq<char>>| #[trigger]
            syntax::item_read(item@, read) && syntax::outcome(outcome) == model_read(read, camel),
{
    let read = read_item(item);
    let ghost tree = syntax::outcome(read);
    assert(syntax::item_read(item@, tree));
    let outcome = match read {
        Ok(item) => model_from(item, camel),
        Err(message) => Err(message),
    };
    assert(syntax::outcome(outcome) == model_read(tree, camel));
    outcome
}

proof fn lemma_rule_names_differ()
    ensures
        "email"@ != "url"@,
        "email"@ != "ascii"@,
        "email"@ != "alphanumeric"@,
        "email"@ != "dive"@,
        "email"@ != "length"@,
        "email"@ != "range"@,
        "email"@ != "min_len"@,
        "email"@ != "max_len"@,
        "email"@ != "min"@,
        "email"@ != "max"@,
        "email"@ != "contains"@,
        "email"@ != "prefix"@,
        "email"@ != "suffix"@,
        "email"@ != "pattern"@,
        "email"@ != "custom"@,
        "email"@ != "skip"@,
        "url"@ != "ascii"@,
        "url"@ != "alphanumeric"@,
        "url"@ != "dive"@,
        "url"@ != "length"@,
        "url"@ != "range"@,
        "url"@ != "min_len"@,
        "url"@ != "max_len"@,
        "url"@ != "min"@,
        "url"@ != "max"@,
        "url"@ != "contains"@,
        "url"@ != "prefix"@,
        "url"@ != "suffix"@,
        "url"@ != "pattern"@,
        "url"@ != "custom"@,
        "url"@ != "skip"@,
        "ascii"@ != "alphanumeric"@,
        "ascii"@ != "dive"@,
        "ascii"@ != "length"@,
        "ascii"@ != "range"@,
        "ascii"@ != "min_len"@,
        "ascii"@ != "max_len"@,
        "ascii"@ != "min"@,
        "ascii"@ != "max"@,
        "ascii"@ != "contains"@,
        "ascii"@ != "prefix"@,
        "ascii"@ != "suffix"@,
        "ascii"@ != "pattern"@,
        "ascii"@ != "custom"@,
        "ascii"@ != "skip"@,
        "alphanumeric"@ != "dive"@,
        "alphanumeric"@ != "length"@,
        "alphanumeric"@ != "range"@,
        "alphanumeric"@ != "min_len"@,
        "alphanumeric"@ != "max_len"@,
        "alphanumeric"@ != "min"@,
        "alphanumeric"@ != "max"@,
        "alphanumeric"@ != "contains"@,
        "alphanumeric"@ != "prefix"@,
        "alphanumeric"@ != "suffix"@,
        "alphanumeric"@ != "pattern"@,
        "alphanumeric"@ != "custom"@,
        "alphanumeric"@ != "skip"@,
        "dive"@ != "length"@,
        "dive"@ != "range"@,
        "dive"@ != "min_len"@,
        "dive"@ != "max_len"@,
        "dive"@ != "min"@,
        "dive"@ != "max"@,
        "dive"@ != "contains"@,
        "dive"@ != "prefix"@,
        "dive"@ != "suffix"@,
        "dive"@ != "pattern"@,
        "dive"@ != "custom"@,
        "dive"@ != "skip"@,
        "length"@ != "range"@,
        "length"@ != "min_len"@,
        "length"@ != "max_len"@,
        "length"@ != "min"@,
        "length"@ != "max"@,
        "length"@ != "contains"@,
        "length"@ != "prefix"@,
        "length"@ != "suffix"@,
        "length"@ != "pattern"@,
        "length"@ != "custom"@,
        "length"@ != "skip"@,
        "range"@ != "min_len"@,
        "range"@ != "max_len"@,
        "range"@ != "min"@,
        "range"@ != "max"@,
        "range"@ != "contains"@,
        "range"@ != "prefix"@,
        "range"@ != "suffix"@,
        "range"@ != "pattern"@,
        "range"@ != "custom"@,
        "range"@ != "skip"@,
        "min_len"@ != "max_len"@,
        "min_len"@ != "min"@,
        "min_len"@ != "max"@,
        "min_len"@ != "contains"@,
        "min_len"@ != "prefix"@,
        "min_len"@ != "suffix"@,
        "min_len"@ != "pattern"@,
        "min_len"@ != "custom"@,
        "min_len"@ != "skip"@,
        "max_len"@ != "min"@,
        "max_len"@ != "max"@,
        "max_len"@ != "contains"@,
        "max_len"@ != "prefix"@,
        "max_len"@ != "suffix"@,
        "max_len"@ != "pattern"@,
        "max_len"@ != "custom"@,
        "max_len"@ != "skip"@,
        "min"@ != "max"@,
        "min"@ != "contains"@,
        "min"@ != "prefix"@,
        "min"@ != "suffix"@,
        "min"@ != "pattern"@,
        "min"@ != "custom"@,
        "min"@ != "skip"@,
        "max"@ != "contains"@,
        "max"@ != "prefix"@,
        "max"@ != "suffix"@,
        "max"@ != "pattern"@,
        "max"@ != "custom"@,
        "max"@ != "skip"@,
        "contains"@ != "prefix"@,
        "contains"@ != "suffix"@,
        "contains"@ != "pattern"@,
        "contains"@ != "custom"@,
        "contains"@ != "skip"@,
        "prefix"@ != "suffix"@,
        "prefix"@ != "pattern"@,
        "prefix"@ != "custom"@,
        "prefix"@ != "skip"@,
        "suffix"@ != "pattern"@,
        "suffix"@ != "custom"@,
        "suffix"@ != "skip"@,
        "pattern"@ != "custom"@,
        "pattern"@ != "skip"@,
        "custom"@ != "skip"@,
{
    reveal_strlit("email");
    reveal_strlit("url");
    reveal_strlit("ascii");
    reveal_strlit("alphanumeric");
    reveal_strlit("dive");
    reveal_strlit("length");
    reveal_strlit("range");
    reveal_strlit("min_len");
    reveal_strlit("max_len");
    reveal_strlit("min");
    reveal_strlit("max");
    reveal_strlit("contains");
    reveal_strlit("prefix");
    reveal_strlit("suffix");
    reveal_strlit("pattern");
    reveal_strlit("custom");
    reveal_strlit("skip");
    assert("email"@.len() == 5);
    assert("url"@.len() == 3);
    assert("ascii"@.len() == 5);
    assert("alphanumeric"@.len() == 12);
    assert("dive"@.len() == 4);
    assert("length"@.len() == 6);
    assert("range"@.len() == 5);
    assert("min_len"@.len() == 7);
    assert("max_len"@.len() == 7);
    assert("min"@.len() == 3);
    assert("max"@.len() == 3);
    assert("contains"@.len() == 8);
    assert("prefix"@.len() == 6);
    assert("suffix"@.len() == 6);
    assert("pattern"@.len() == 7);
    assert("custom"@.len() == 6);
    assert("skip"@.len() == 4);
    assert("email"@[0] != "ascii"@[0]);
    assert("email"@[0] != "range"@[0]);
    assert("url"@[0] != "min"@[0]);
    assert("url"@[0] != "max"@[0]);
    assert("ascii"@[0] != "range"@[0]);
    assert("dive"@[0] != "skip"@[0]);
    assert("length"@[0] != "prefix"@[0]);
    assert("length"@[0] != "suffix"@[0]);
    assert("length"@[0] != "custom"@[0]);
    assert("min_len"@[1] != "max_len"@[1]);
    assert("min_len"@[0] != "pattern"@[0]);
    assert("max_len"@[0] != "pattern"@[0]);
    assert("min"@[1] != "max"@[1]);
    assert("prefix"@[0] != "suffix"@[0]);
    assert("prefix"@[0] != "custom"@[0]);
    assert("suffix"@[0] != "custom"@[0]);
}

proof fn lemma_bound_names_differ()
    ensures
        "min"@ != "max"@,
        "min"@ != "equal"@,
        "max"@ != "equal"@,
{
    reveal_strlit("min");
    reveal_strlit("max");
    reveal_strlit("equal");
    assert("min"@.len() == 3);
    assert("max"@.len() == 3);
    assert("equal"@.len() == 5);
    assert("min"@[1] != "max"@[1]);
}


/// A rule is the one that its name says, with the operand that stands beside it: a
/// least length bounds a length below, a greatest one above, and so for values.
pub proof fn a_rule_is_the_one_it_names(meta: RuleSyntaxView, name: Seq<char>)
    requires
        meta.name == Some(name),
    ensures
        name == "email"@ && meta.arg is Word ==> rule_of(meta) == Ok::<RuleView, Seq<char>>(
            RuleView::Email,
        ),
        name == "email"@ && !(meta.arg is Word) ==> rule_of(meta) is Err,
        name == "url"@ && meta.arg is Word ==> rule_of(meta) == Ok::<RuleView, Seq<char>>(
            RuleView::Url,
        ),
        name == "url"@ && !(meta.arg is Word) ==> rule_of(meta) is Err,
        name == "ascii"@ && meta.arg is Word ==> rule_of(meta) == Ok::<RuleView, Seq<char>>(
            RuleView::Ascii,
        ),
        name == "ascii"@ && !(meta.arg is Word) ==> rule_of(meta) is Err,
        name == "alphanumeric"@ && meta.arg is Word ==> rule_of(meta) == Ok::<RuleView, Seq<char>>(
            RuleView::Alphanumeric,
        ),
        name == "alphanumeric"@ && !(meta.arg is Word) ==> rule_of(meta) is Err,
        name == "dive"@ && meta.arg is Word ==> rule_of(meta) == Ok::<RuleView, Seq<char>>(
            RuleView::Dive,
        ),
        name == "dive"@ && !(meta.arg is Word) ==> rule_of(meta) is Err,
        name == "min_len"@ ==> (meta.arg matches RuleArgView::Value { expr, .. } ==> rule_of(meta)
            == Ok::<RuleView, Seq<char>>(RuleView::Length { min: Some(expr), max: None })),
        name == "min_len"@ && !(meta.arg is Value) ==> rule_of(meta) is Err,
        name == "max_len"@ ==> (meta.arg matches RuleArgView::Value { expr, .. } ==> rule_of(meta)
            == Ok::<RuleView, Seq<char>>(RuleView::Length { min: None, max: Some(expr) })),
        name == "max_len"@ && !(meta.arg is Value) ==> rule_of(meta) is Err,
        name == "min"@ ==> (meta.arg matches RuleArgView::Value { expr, .. } ==> rule_of(meta)
            == Ok::<RuleView, Seq<char>>(RuleView::Range { min: Some(expr), max: None })),
        name == "min"@ && !(meta.arg is Value) ==> rule_of(meta) is Err,
        name == "max"@ ==> (meta.arg matches RuleArgView::Value { expr, .. } ==> rule_of(meta)
            == Ok::<RuleView, Seq<char>>(RuleView::Range { min: None, max: Some(expr) })),
        name == "max"@ && !(meta.arg is Value) ==> rule_of(meta) is Err,
        name == "contains"@ ==> (meta.arg matches RuleArgView::List {
            parens: true,
            operand: Ok(e),
            ..
        } ==> rule_of(meta) == Ok::<RuleView, Seq<char>>(RuleView::Contains(e))),
        name == "contains"@ && !(meta.arg is List) ==> rule_of(meta) is Err,
        name == "prefix"@ ==> (meta.arg matches RuleArgView::List {
            parens: true,
            operand: Ok(e),
            ..
        } ==> rule_of(meta) == Ok::<RuleView, Seq<char>>(RuleView::Prefix(e))),
        name == "prefix"@ && !(meta.arg is List) ==> rule_of(meta) is Err,
        name == "suffix"@ ==> (meta.arg matches RuleArgView::List {
            parens: true,
            operand: Ok(e),
            ..
        } ==> rule_of(meta) == Ok::<RuleView, Seq<char>>(RuleView::Suffix(e))),
        name == "suffix"@ && !(meta.arg is List) ==> rule_of(meta) is Err,
        name == "custom"@ ==> (meta.arg matches RuleArgView::List {
            parens: true,
            operand: Ok(e),
            ..
        } ==> rule_of(meta) == Ok::<RuleView, Seq<char>>(RuleView::Custom(e))),
        name == "custom"@ && !(meta.arg is List) ==> rule_of(meta) is Err,
        name == "pattern"@ ==> (meta.arg matches RuleArgView::List {
            parens: true,
            literal: Some(p),
            ..
        } ==> rule_of(meta) == Ok::<RuleView, Seq<char>>(RuleView::Pattern(p))),
        name == "pattern"@ ==> (meta.arg matches RuleArgView::Value { literal: Some(p), .. }
            ==> rule_of(meta) == Ok::<RuleView, Seq<char>>(RuleView::Pattern(p))),
{
    lemma_rule_names_differ();
}

/// The value of the last item of this name.
pub open spec fn last_value(metas: Seq<BoundSyntaxView>, name: Seq<char>) -> Option<Seq<char>>
    decreases metas.len(),
{
    if metas.len() == 0 {
        None
    } else if metas.last().name == Some(name) {
        metas.last().value
    } else {
        last_value(metas.drop_last(), name)
    }
}

/// An item that is a bound.
pub open spec fn is_bound(meta: BoundSyntaxView) -> bool {
    &&& meta.name == Some("min"@) || meta.name == Some("max"@) || meta.name == Some("equal"@)
    &&& meta.value is Some
}

/// A list of bounds is read where every item is one, and each bound is the last of
/// its name.
pub proof fn bounds_are_read_by_name(metas: Seq<BoundSyntaxView>)
    ensures
        bounds_of(metas) is Ok <==> forall|i: int|
            0 <= i < metas.len() ==> is_bound(#[trigger] metas[i]),
        bounds_of(metas) matches Ok(bounds) ==> {
            &&& bounds.min == last_value(metas, "min"@)
            &&& bounds.max == last_value(metas, "max"@)
            &&& bounds.equal == last_value(metas, "equal"@)
        },
    decreases metas.len(),
{
    lemma_bound_names_differ();
    if metas.len() > 0 {
        let shorter = metas.drop_last();
        bounds_are_read_by_name(shorter);
        if forall|i: int| 0 <= i < metas.len() ==> is_bound(#[trigger] metas[i]) {
            assert forall|i: int| 0 <= i < shorter.len() implies is_bound(#[trigger] shorter[i]) by {
                assert(is_bound(metas[i]));
            }
            assert(is_bound(metas[metas.len() - 1]));
        }
        if bounds_of(metas) is Ok {
            assert forall|i: int| 0 <= i < metas.len() implies is_bound(#[trigger] metas[i]) by {
                if i < shorter.len() {
                    assert(is_bound(shorter[i]));
                }
            }
        }
    }
}

/// The bounds of a length or of a range: an exact one is both the lower and the
/// upper bound, and otherwise the least is the lower and the greatest the upper.
pub proof fn bounds_stand_on_their_sides(meta: RuleSyntaxView, metas: Seq<BoundSyntaxView>)
    requires
        metas.len() > 0,
        meta.arg matches RuleArgView::List { parens: true, items: Ok(listed), .. } && listed
            == metas,
        forall|i: int| 0 <= i < metas.len() ==> is_bound(#[trigger] metas[i]),
    ensures
        ({
            let low = match last_value(metas, "equal"@) {
                Some(e) => Some(e),
                None => last_value(metas, "min"@),
            };
            let high = match last_value(metas, "equal"@) {
                Some(e) => Some(e),
                None => last_value(metas, "max"@),
            };
            &&& meta.name == Some("length"@) ==> rule_of(meta) == Ok::<RuleView, Seq<char>>(
                RuleView::Length { min: low, max: high },
            )
            &&& meta.name == Some("range"@) ==> rule_of(meta) == Ok::<RuleView, Seq<char>>(
                RuleView::Range { min: low, max: high },
            )
        }),
{
    lemma_rule_names_differ();
    bounds_are_read_by_name(metas);
}

/// Every item of an attribute is kept: the rules in order, behind those that were
/// there, and `skip` as the mark. One bad item makes the whole attribute bad.
pub proof fn every_rule_of_an_attribute_is_kept(set: RuleSetView, metas: Seq<RuleSyntaxView>)
    ensures
        with_rules(set, metas) matches Ok(after) ==> {
            let listed = metas.filter(|m: RuleSyntaxView| m.name != Some("skip"@));
            &&& after.rules.len() == set.rules.len() + listed.len()
            &&& set.rules.is_prefix_of(after.rules)
            &&& forall|k: int|
                0 <= k < listed.len() ==> rule_of(#[trigger] listed[k]) == Ok::<
                    RuleView,
                    Seq<char>,
                >(after.rules[set.rules.len() + k])
            &&& after.skip == (set.skip || exists|i: int|
                0 <= i < metas.len() && (#[trigger] metas[i]).name == Some("skip"@))
        },
        (exists|i: int|
            0 <= i < metas.len() && (#[trigger] metas[i]).name != Some("skip"@) && rule_of(metas[i])
                is Err) ==> with_rules(set, metas) is Err,
    decreases metas.len(),
{
    reveal(Seq::filter);
    assert("skip"@.len() > 0) by {
        reveal_strlit("skip");
    }
    if metas.len() > 0 {
        let shorter = metas.drop_last();
        every_rule_of_an_attribute_is_kept(set, shorter);
        let skips = |m: RuleSyntaxView| m.name != Some("skip"@);
        if with_rules(set, metas) is Ok {
            let before = with_rules(set, shorter)->Ok_0;
            let after = with_rules(set, metas)->Ok_0;
            let listed = metas.filter(skips);
            let earlier = shorter.filter(skips);
            assert(set.rules.is_prefix_of(after.rules)) by {
                assert(before.rules.take(set.rules.len() as int) =~= set.rules);
                assert(after.rules.take(set.rules.len() as int) =~= set.rules);
            }
            assert forall|k: int| 0 <= k < listed.len() implies rule_of(#[trigger] listed[k])
                == Ok::<RuleView, Seq<char>>(after.rules[set.rules.len() + k]) by {
                if k < earlier.len() {
                    assert(listed[k] == earlier[k]);
                }
            }
            if exists|i: int| 0 <= i < metas.len() && (#[trigger] metas[i]).name == Some("skip"@) {
                let i = choose|i: int|
                    0 <= i < metas.len() && (#[trigger] metas[i]).name == Some("skip"@);
                if i < shorter.len() {
                    assert(shorter[i].name == Some("skip"@));
                }
            }
            if exists|i: int| 0 <= i < shorter.len() && (#[trigger] shorter[i]).name == Some(
                "skip"@,
            ) {
                let i = choose|i: int|
                    0 <= i < shorter.len() && (#[trigger] shorter[i]).name == Some("skip"@);
                assert(metas[i].name == Some("skip"@));
            }
            if metas.last().name == Some("skip"@) {
                assert(metas[metas.len() - 1].name == Some("skip"@));
            }
        }
        if exists|i: int|
            0 <= i < metas.len() && (#[trigger] metas[i]).name != Some("skip"@) && rule_of(metas[i])
                is Err {
            let i = choose|i: int|
                0 <= i < metas.len() && (#[trigger] metas[i]).name != Some("skip"@) && rule_of(
                    metas[i],
                ) is Err;
            if i < shorter.len() {
                assert(shorter[i].name != Some("skip"@) && rule_of(shorter[i]) is Err);
            }
        }
    } else {
        assert(metas.filter(|m: RuleSyntaxView| m.name != Some("skip"@)).len() == 0);
        assert(set.rules.take(set.rules.len() as int) =~= set.rules);
    }
}

/// Only `#[validate(..)]` attributes hold rules, and the rules of several add up in
/// order.
pub proof fn only_validate_attributes_hold_rules(
    attrs: Seq<AttrSyntaxView>,
    attr: AttrSyntaxView,
    items: Seq<RuleSyntaxView>,
)
    ensures
        rules_of(Seq::empty()) == Ok::<RuleSetView, Seq<char>>(
            RuleSetView { rules: Seq::empty(), skip: false },
        ),
        attr.name != Some("validate"@) ==> rules_of(attrs.push(attr)) == rules_of(attrs),
        attr.name == Some("validate"@) && attr.arg == AttrArgView::List(Ok(items)) ==> (rules_of(
            attrs,
        ) matches Ok(set) ==> rules_of(attrs.push(attr)) == with_rules(set, items)),
        rules_of(attrs) is Err ==> rules_of(attrs.push(attr)) == rules_of(attrs),
{
    assert(attrs.push(attr).drop_last() =~= attrs);
}

proof fn lemma_pascal_join(a: Seq<char>, b: Seq<char>, start: bool)
    ensures
        pascal_case(a + b, start) == pascal_case(a, start) + pascal_case(
            b,
            if a.len() == 0 { start } else { a.last() == '_' },
        ),
    decreases a.len(),
{
    if a.len() == 0 {
        assert(a + b =~= b);
        assert(pascal_case(a, start) + pascal_case(b, start) =~= pascal_case(b, start));
    } else {
        let rest = a.drop_first();
        assert((a + b).drop_first() =~= rest + b);
        let next = if a[0] == '_' { true } else { false };
        lemma_pascal_join(rest, b, next);
        let ends = if rest.len() == 0 { next } else { rest.last() == '_' };
        assert(ends == (a.last() == '_'));
        assert(pascal_case(a + b, start) =~= pascal_case(a, start) + pascal_case(b, ends));
    }
}

proof fn lemma_pascal_plain(label: Seq<char>)
    requires
        forall|i: int| 0 <= i < label.len() ==> (#[trigger] label[i]) != '_',
    ensures
        pascal_case(label, false) == label,
    decreases label.len(),
{
    if label.len() > 0 {
        let rest = label.drop_first();
        assert forall|i: int| 0 <= i < rest.len() implies (#[trigger] rest[i]) != '_' by {
            assert(label[i + 1] != '_');
        }
        assert(label[0] != '_');
        lemma_pascal_plain(rest);
        assert(seq![label[0]] + rest =~= label);
    }
}

/// On the wire a name is its own, or in camel case where the models use it: each
/// underscore is gone and the letter behind it is a capital, the first letter is
/// small, and every other letter stays.
pub proof fn a_wire_name_is_in_camel_case(word: Seq<char>, next: char, rest: Seq<char>)
    requires
        word.len() > 0,
        forall|i: int| 0 <= i < word.len() ==> (#[trigger] word[i]) != '_',
        next != '_',
        forall|i: int| 0 <= i < rest.len() ==> (#[trigger] rest[i]) != '_',
    ensures
        wire_name_of(word, false) == word,
        wire_name_of(word, true).len() == word.len(),
        wire_name_of(word, true)[0] == text::ascii_lower(ascii_upper(word[0])),
        forall|i: int| 1 <= i < word.len() ==> #[trigger] wire_name_of(word, true)[i] == word[i],
        wire_name_of(word + seq!['_', next] + rest, true) == wire_name_of(word, true) + seq![
            ascii_upper(next),
        ] + rest,
{
    lemma_pascal_join(seq![word[0]], word.drop_first(), true);
    assert(seq![word[0]] + word.drop_first() =~= word);
    let tail = word.drop_first();
    assert forall|i: int| 0 <= i < tail.len() implies (#[trigger] tail[i]) != '_' by {
        assert(word[i + 1] != '_');
    }
    assert(word[0] != '_');
    lemma_pascal_plain(tail);
    reveal_with_fuel(pascal_case, 3);
    assert(seq![word[0]].drop_first() =~= Seq::<char>::empty());
    assert(pascal_case(word, true) =~= seq![ascii_upper(word[0])] + tail);
    let behind = seq!['_', next] + rest;
    assert(word + seq!['_', next] + rest =~= word + behind);
    lemma_pascal_join(word, behind, true);
    assert(behind.drop_first() =~= seq![next] + rest);
    assert((seq![next] + rest).drop_first() =~= rest);
    lemma_pascal_plain(rest);
    assert(pascal_case(behind, false) =~= seq![ascii_upper(next)] + rest);
    assert(wire_name_of(word + behind, true) =~= wire_name_of(word, true) + seq![
        ascii_upper(next),
    ] + rest);
}

/// A description is the first that an `#[arg(description = "..")]` sets.
pub proof fn a_description_comes_from_the_attribute(
    attrs: Seq<AttrSyntaxView>,
    i: int,
    items: Seq<RuleSyntaxView>,
    k: int,
    expr: Seq<char>,
    description: Seq<char>,
)
    requires
        0 <= i < attrs.len(),
        forall|j: int| 0 <= j < i ==> (#[trigger] attrs[j]).name != Some("arg"@),
        attrs[i].name == Some("arg"@),
        attrs[i].arg == AttrArgView::List(Ok(items)),
        0 <= k < items.len(),
        forall|j: int| 0 <= j < k ==> (#[trigger] items[j]).name != Some("description"@),
        items[k].name == Some("description"@),
        items[k].arg == (RuleArgView::Value { expr, literal: Some(description) }),
    ensures
        description_of(attrs) == Some(description),
{
    lemma_described(attrs, i, items, k, expr, description);
}

proof fn lemma_first_described(
    items: Seq<RuleSyntaxView>,
    k: int,
    expr: Seq<char>,
    description: Seq<char>,
)
    requires
        0 <= k < items.len(),
        forall|j: int| 0 <= j < k ==> (#[trigger] items[j]).name != Some("description"@),
        items[k].name == Some("description"@),
        items[k].arg == (RuleArgView::Value { expr, literal: Some(description) }),
    ensures
        first_description(items) == Some(description),
    decreases k,
{
    if k > 0 {
        let rest = items.drop_first();
        assert(items[0].name != Some("description"@));
        assert forall|j: int| 0 <= j < k - 1 implies (#[trigger] rest[j]).name != Some(
            "description"@,
        ) by {
            assert(items[j + 1].name != Some("description"@));
        }
        lemma_first_described(rest, k - 1, expr, description);
    }
}

proof fn lemma_described(
    attrs: Seq<AttrSyntaxView>,
    i: int,
    items: Seq<RuleSyntaxView>,
    k: int,
    expr: Seq<char>,
    description: Seq<char>,
)
    requires
        0 <= i < attrs.len(),
        forall|j: int| 0 <= j < i ==> (#[trigger] attrs[j]).name != Some("arg"@),
        attrs[i].name == Some("arg"@),
        attrs[i].arg == AttrArgView::List(Ok(items)),
        0 <= k < items.len(),
        forall|j: int| 0 <= j < k ==> (#[trigger] items[j]).name != Some("description"@),
        items[k].name == Some("description"@),
        items[k].arg == (RuleArgView::Value { expr, literal: Some(description) }),
    ensures
        argument_description(attrs) == Some(description),
    decreases i,
{
    lemma_first_described(items, k, expr, description);
    if i > 0 {
        let rest = attrs.drop_first();
        assert(attrs[0].name != Some("arg"@));
        assert forall|j: int| 0 <= j < i - 1 implies (#[trigger] rest[j]).name != Some("arg"@) by {
            assert(attrs[j + 1].name != Some("arg"@));
        }
        lemma_described(rest, i - 1, items, k, expr, description);
    }
}

proof fn lemma_no_description(attrs: Seq<AttrSyntaxView>)
    requires
        forall|j: int| 0 <= j < attrs.len() ==> (#[trigger] attrs[j]).name != Some("arg"@),
    ensures
        argument_description(attrs) is None,
    decreases attrs.len(),
{
    if attrs.len() > 0 {
        let rest = attrs.drop_first();
        assert(attrs[0].name != Some("arg"@));
        assert forall|j: int| 0 <= j < rest.len() implies (#[trigger] rest[j]).name != Some(
            "arg"@,
        ) by {
            assert(attrs[j + 1].name != Some("arg"@));
        }
        lemma_no_description(rest);
    }
}

/// Without an `#[arg(..)]` the description is the doc comment.
pub proof fn a_doc_comment_describes(attrs: Seq<AttrSyntaxView>)
    requires
        forall|j: int| 0 <= j < attrs.len() ==> (#[trigger] attrs[j]).name != Some("arg"@),
    ensures
        description_of(attrs) == tool_macro::doc_of(attrs),
{
    lemma_no_description(attrs);
}

/// A field that was read is the field that stands there.
pub open spec fn stands_for(field: FieldView, read: FieldSyntaxView, i: int, camel: bool) -> bool {
    &&& read.name matches Some(name) ==> field.binding == name && field.label == name
    &&& read.name is None ==> field.binding == "__field_"@ + text::decimal(i as nat) && field.label
        == text::decimal(i as nat)
    &&& field.wire == wire_name_of(field.label, camel)
    &&& field.ty == read.ty.text
    &&& field.inner == arguments::option_argument(read.ty)
    &&& field.description == description_of(read.attrs)
    &&& rules_of(read.attrs) matches Ok(set) && field.rules == set.rules && field.skip == set.skip
}

proof fn lemma_fields_kept(fields: Seq<FieldSyntaxView>, camel: bool)
    ensures
        fields_of(fields, camel) matches Ok(read) ==> {
            &&& read.len() == fields.len()
            &&& forall|i: int|
                0 <= i < fields.len() ==> stands_for(#[trigger] read[i], fields[i], i, camel)
        },
        fields_of(fields, camel) is Err <==> exists|i: int|
            0 <= i < fields.len() && rules_of((#[trigger] fields[i]).attrs) is Err,
    decreases fields.len(),
{
    if fields.len() > 0 {
        let shorter = fields.drop_last();
        lemma_fields_kept(shorter, camel);
        if fields_of(fields, camel) is Ok {
            let read = fields_of(fields, camel)->Ok_0;
            let before = fields_of(shorter, camel)->Ok_0;
            assert forall|i: int| 0 <= i < fields.len() implies stands_for(
                #[trigger] read[i],
                fields[i],
                i,
                camel,
            ) by {
                if i < shorter.len() {
                    assert(read[i] == before[i]);
                    assert(shorter[i] == fields[i]);
                }
            }
            assert forall|i: int| 0 <= i < fields.len() implies rules_of(
                (#[trigger] fields[i]).attrs,
            ) is Ok by {
                if i < shorter.len() {
                    assert(shorter[i] == fields[i]);
                }
            }
        } else {
            if fields_of(shorter, camel) is Err {
                let i = choose|i: int|
                    0 <= i < shorter.len() && rules_of((#[trigger] shorter[i]).attrs) is Err;
                assert(fields[i] == shorter[i]);
            } else {
                assert(rules_of(fields[fields.len() - 1].attrs) is Err);
            }
        }
    }
}

/// A model keeps its type definition: the name, the generics, and every field of
/// every variant, in order, under its name, with its type, rules and description. A
/// union becomes no model.
pub proof fn a_model_keeps_its_type_definition(item: ItemSyntaxView, camel: bool)
    ensures
        model_of(item, camel) matches Ok(model) ==> {
            &&& model.ident == item.ident
            &&& model.params == item.params
            &&& model.where_clause == item.where_clause
            &&& match (item.data, model.ir) {
                (DataSyntaxView::Struct(fields), IrView::Struct { body }) => keeps_shape(
                    body,
                    fields,
                    camel,
                ),
                (DataSyntaxView::Enum(variants), IrView::Enum { variants: kept }) => {
                    &&& kept.len() == variants.len()
                    &&& forall|i: int|
                        0 <= i < kept.len() ==> (#[trigger] kept[i]).ident == variants[i].ident
                            && keeps_shape(kept[i].body, variants[i].fields, camel)
                },
                _ => false,
            }
        },
        item.data is Union ==> model_of(item, camel) is Err,
{
    match item.data {
        DataSyntaxView::Struct(fields) => lemma_shape_kept(fields, camel),
        DataSyntaxView::Enum(variants) => lemma_variants_kept(variants, camel),
        DataSyntaxView::Union => {},
    }
}

/// The shape is that of the definition, with each field kept.
pub open spec fn keeps_shape(body: BodyView, fields: FieldsSyntaxView, camel: bool) -> bool {
    match (fields, body) {
        (FieldsSyntaxView::Unit, BodyView::Unit) => true,
        (FieldsSyntaxView::Named(fields), BodyView::Named(kept)) => keeps_fields(
            kept,
            fields,
            camel,
        ),
        (FieldsSyntaxView::Tuple(fields), BodyView::Tuple(kept)) => keeps_fields(
            kept,
            fields,
            camel,
        ),
        _ => false,
    }
}

/// Each field is kept, in order.
pub open spec fn keeps_fields(
    kept: Seq<FieldView>,
    fields: Seq<FieldSyntaxView>,
    camel: bool,
) -> bool {
    &&& kept.len() == fields.len()
    &&& forall|i: int| 0 <= i < kept.len() ==> stands_for(#[trigger] kept[i], fields[i], i, camel)
}

proof fn lemma_shape_kept(fields: FieldsSyntaxView, camel: bool)
    ensures
        body_of(fields, camel) matches Ok(body) ==> keeps_shape(body, fields, camel),
{
    match fields {
        FieldsSyntaxView::Unit => {},
        FieldsSyntaxView::Named(fields) => lemma_fields_kept(fields, camel),
        FieldsSyntaxView::Tuple(fields) => lemma_fields_kept(fields, camel),
    }
}

proof fn lemma_variants_kept(variants: Seq<VariantSyntaxView>, camel: bool)
    ensures
        variants_of(variants, camel) matches Ok(kept) ==> {
            &&& kept.len() == variants.len()
            &&& forall|i: int|
                0 <= i < kept.len() ==> (#[trigger] kept[i]).ident == variants[i].ident
                    && keeps_shape(kept[i].body, variants[i].fields, camel)
        },
    decreases variants.len(),
{
    if variants.len() > 0 {
        let shorter = variants.drop_last();
        lemma_variants_kept(shorter, camel);
        lemma_shape_kept(variants.last().fields, camel);
        if variants_of(variants, camel) is Ok {
            let kept = variants_of(variants, camel)->Ok_0;
            let before = variants_of(shorter, camel)->Ok_0;
            assert forall|i: int| 0 <= i < kept.len() implies (#[trigger] kept[i]).ident
                == variants[i].ident && keeps_shape(kept[i].body, variants[i].fields, camel) by {
                if i < shorter.len() {
                    assert(kept[i] == before[i]);
                    assert(shorter[i] == variants[i]);
                }
            }
        }
    }
}

/// A struct becomes a model exactly where every rule of every field is good.
pub proof fn a_struct_is_a_model_where_its_rules_are_good(
    fields: Seq<FieldSyntaxView>,
    camel: bool,
)
    ensures
        body_of(FieldsSyntaxView::Named(fields), camel) is Ok <==> forall|i: int|
            0 <= i < fields.len() ==> rules_of((#[trigger] fields[i]).attrs) is Ok,
        body_of(FieldsSyntaxView::Tuple(fields), camel) is Ok <==> forall|i: int|
            0 <= i < fields.len() ==> rules_of((#[trigger] fields[i]).attrs) is Ok,
{
    lemma_fields_kept(fields, camel);
}

} // verus!
