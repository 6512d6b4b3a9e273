//! Rust source as plain data: what the `syn` crate reads it as.
//!
//! A text is read once, as a whole. Its tree becomes plain values here, down to
//! the path segments of types and the items of attributes. Parsing a text and
//! printing a part depend on the process: where a compiler runs the code as a
//! plug-in, `proc-macro2` hands out the compiler's own tokens. So each such call is
//! described by a relation: what came back is something that the argument may be
//! read as, or print as. What is taken out of a tree without printing is a
//! function of the tree, and is named as one.

use crate::text::chars_of;
use crate::views;
use quote::ToTokens;
use vstd::prelude::*;

verus! {

/// What reading gives: the value's view, or the message of the error.
pub open spec fn outcome<T: View>(read: Result<T, String>) -> Result<T::V, Seq<char>> {
    match read {
        Ok(value) => Ok(value@),
        Err(message) => Err(message@),
    }
}

/// What reading a list gives: the views of its items, or the message of the
/// error.
pub open spec fn list_outcome<T: View>(read: Result<Vec<T>, String>) -> Result<
    Seq<T::V>,
    Seq<char>,
> {
    match read {
        Ok(items) => Ok(views::each(items@)),
        Err(message) => Err(message@),
    }
}

/// What optional arguments stand for.
pub open spec fn args_view(args: Option<Vec<TypeArg>>) -> Option<Seq<TypeArgView>> {
    match args {
        Some(args) => Some(views::each(args@)),
        None => None,
    }
}

/// A generic argument.
#[derive(Debug)]
pub enum TypeArg {
    /// A type, as it prints.
    Type(String),
    /// A lifetime, a constant or a binding.
    Other,
}

/// What a [`TypeArg`] stands for.
#[verifier::ext_equal]
pub enum TypeArgView {
    /// A type, as it prints.
    Type(Seq<char>),
    /// A lifetime, a constant or a binding.
    Other,
}

impl View for TypeArg {
    type V = TypeArgView;

    open spec fn view(&self) -> TypeArgView {
        match *self {
            TypeArg::Type(x) => TypeArgView::Type(x@),
            TypeArg::Other => TypeArgView::Other,
        }
    }
}

/// A segment of a path.
#[derive(Debug)]
pub struct SegmentSyntax {
    /// Name.
    pub ident: String,
    /// Arguments in angle brackets, where there are any.
    pub args: Option<Vec<TypeArg>>,
}

/// What a [`SegmentSyntax`] stands for.
#[verifier::ext_equal]
pub struct SegmentSyntaxView {
    /// Name.
    pub ident: Seq<char>,
    /// Arguments in angle brackets, where there are any.
    pub args: Option<Seq<TypeArgView>>,
}

impl View for SegmentSyntax {
    type V = SegmentSyntaxView;

    open spec fn view(&self) -> SegmentSyntaxView {
        SegmentSyntaxView {
            ident: self.ident@,
            args: args_view(self.args),
        }
    }
}

/// The form of a type, as far as the code reads it.
#[derive(Debug)]
pub enum TypeForm {
    /// A path, by its segments.
    Path(Vec<SegmentSyntax>),
    /// A reference to a path, by the segments of that path.
    Reference(Vec<SegmentSyntax>),
    /// Any other type.
    Other,
}

/// What a [`TypeForm`] stands for.
#[verifier::ext_equal]
pub enum TypeFormView {
    /// A path, by its segments.
    Path(Seq<SegmentSyntaxView>),
    /// A reference to a path, by the segments of that path.
    Reference(Seq<SegmentSyntaxView>),
    /// Any other type.
    Other,
}

impl View for TypeForm {
    type V = TypeFormView;

    open spec fn view(&self) -> TypeFormView {
        match *self {
            TypeForm::Path(x) => TypeFormView::Path(views::each(x@)),
            TypeForm::Reference(x) => TypeFormView::Reference(views::each(x@)),
            TypeForm::Other => TypeFormView::Other,
        }
    }
}

/// A type.
#[derive(Debug)]
pub struct TypeSyntax {
    /// The type as it prints.
    pub text: String,
    /// Its form.
    pub form: TypeForm,
}

/// What a [`TypeSyntax`] stands for.
#[verifier::ext_equal]
pub struct TypeSyntaxView {
    /// The type as it prints.
    pub text: Seq<char>,
    /// Its form.
    pub form: TypeFormView,
}

impl View for TypeSyntax {
    type V = TypeSyntaxView;

    open spec fn view(&self) -> TypeSyntaxView {
        TypeSyntaxView {
            text: self.text@,
            form: self.form@,
        }
    }
}

/// An item of a list of bounds.
#[derive(Debug)]
pub struct BoundSyntax {
    /// Its path, where that is a single identifier.
    pub name: Option<String>,
    /// The expression behind `=`, where there is one.
    pub value: Option<String>,
}

/// What a [`BoundSyntax`] stands for.
#[verifier::ext_equal]
pub struct BoundSyntaxView {
    /// Its path, where that is a single identifier.
    pub name: Option<Seq<char>>,
    /// The expression behind `=`, where there is one.
    pub value: Option<Seq<char>>,
}

impl View for BoundSyntax {
    type V = BoundSyntaxView;

    open spec fn view(&self) -> BoundSyntaxView {
        BoundSyntaxView {
            name: views::optional(self.name),
            value: views::optional(self.value),
        }
    }
}

/// What follows the path of an item of an attribute.
#[derive(Debug)]
pub enum RuleArg {
    /// Nothing.
    Word,
    /// A delimited list, read in the ways in which an item may be read.
    List {
        /// Whether the delimiters are round brackets.
        parens: bool,
        /// As items, or the message of the error.
        items: Result<Vec<BoundSyntax>, String>,
        /// As one expression, or the message of the error.
        operand: Result<String, String>,
        /// As one string literal: its value.
        literal: Option<String>,
    },
    /// `=` and an expression.
    Value {
        /// The expression as it prints.
        expr: String,
        /// The value of the expression, where that is a string literal.
        literal: Option<String>,
    },
}

/// What a [`RuleArg`] stands for.
#[verifier::ext_equal]
pub enum RuleArgView {
    /// Nothing.
    Word,
    /// A delimited list, read in the ways in which an item may be read.
    List {
        /// Whether the delimiters are round brackets.
        parens: bool,
        /// As items, or the message of the error.
        items: Result<Seq<BoundSyntaxView>, Seq<char>>,
        /// As one expression, or the message of the error.
        operand: Result<Seq<char>, Seq<char>>,
        /// As one string literal: its value.
        literal: Option<Seq<char>>,
    },
    /// `=` and an expression.
    Value {
        /// The expression as it prints.
        expr: Seq<char>,
        /// The value of the expression, where that is a string literal.
        literal: Option<Seq<char>>,
    },
}

impl View for RuleArg {
    type V = RuleArgView;

    open spec fn view(&self) -> RuleArgView {
        match *self {
            RuleArg::Word => RuleArgView::Word,
            RuleArg::List { parens, items, operand, literal } => RuleArgView::List {
                parens: parens,
                items: list_outcome(items),
                operand: outcome(operand),
                literal: views::optional(literal),
            },
            RuleArg::Value { expr, literal } => RuleArgView::Value {
                expr: expr@,
                literal: views::optional(literal),
            },
        }
    }
}

/// An item of an attribute.
#[derive(Debug)]
pub struct RuleSyntax {
    /// Its path, where that is a single identifier.
    pub name: Option<String>,
    /// What follows.
    pub arg: RuleArg,
}

/// What a [`RuleSyntax`] stands for.
#[verifier::ext_equal]
pub struct RuleSyntaxView {
    /// Its path, where that is a single identifier.
    pub name: Option<Seq<char>>,
    /// What follows.
    pub arg: RuleArgView,
}

impl View for RuleSyntax {
    type V = RuleSyntaxView;

    open spec fn view(&self) -> RuleSyntaxView {
        RuleSyntaxView {
            name: views::optional(self.name),
            arg: self.arg@,
        }
    }
}

/// What follows the path of an attribute.
#[derive(Debug)]
pub enum AttrArg {
    /// Nothing.
    Word,
    /// A delimited list: its items, or the message of the error.
    List(Result<Vec<RuleSyntax>, String>),
    /// `=` and an expression: its value, where that is a string literal.
    Value(Option<String>),
}

/// What a [`AttrArg`] stands for.
#[verifier::ext_equal]
pub enum AttrArgView {
    /// Nothing.
    Word,
    /// A delimited list: its items, or the message of the error.
    List(Result<Seq<RuleSyntaxView>, Seq<char>>),
    /// `=` and an expression: its value, where that is a string literal.
    Value(Option<Seq<char>>),
}

impl View for AttrArg {
    type V = AttrArgView;

    open spec fn view(&self) -> AttrArgView {
        match *self {
            AttrArg::Word => AttrArgView::Word,
            AttrArg::List(x) => AttrArgView::List(list_outcome(x)),
            AttrArg::Value(x) => AttrArgView::Value(views::optional(x)),
        }
    }
}

/// An attribute.
#[derive(Debug)]
pub struct AttrSyntax {
    /// Its path, where that is a single identifier.
    pub name: Option<String>,
    /// What follows.
    pub arg: AttrArg,
}

/// What a [`AttrSyntax`] stands for.
#[verifier::ext_equal]
pub struct AttrSyntaxView {
    /// Its path, where that is a single identifier.
    pub name: Option<Seq<char>>,
    /// What follows.
    pub arg: AttrArgView,
}

impl View for AttrSyntax {
    type V = AttrSyntaxView;

    open spec fn view(&self) -> AttrSyntaxView {
        AttrSyntaxView {
            name: views::optional(self.name),
            arg: self.arg@,
        }
    }
}

/// A parameter of a function.
#[derive(Debug)]
pub enum FnInput {
    /// `self` in any form.
    Receiver,
    /// A pattern with its type.
    Typed {
        /// Pattern.
        pat: String,
        /// Type.
        ty: TypeSyntax,
    },
}

/// What a [`FnInput`] stands for.
#[verifier::ext_equal]
pub enum FnInputView {
    /// `self` in any form.
    Receiver,
    /// A pattern with its type.
    Typed {
        /// Pattern.
        pat: Seq<char>,
        /// Type.
        ty: TypeSyntaxView,
    },
}

impl View for FnInput {
    type V = FnInputView;

    open spec fn view(&self) -> FnInputView {
        match *self {
            FnInput::Receiver => FnInputView::Receiver,
            FnInput::Typed { pat, ty } => FnInputView::Typed {
                pat: pat@,
                ty: ty@,
            },
        }
    }
}

/// A function item.
#[derive(Debug)]
pub struct FnSyntax {
    /// Visibility.
    pub vis: String,
    /// Name.
    pub name: String,
    /// Parameters.
    pub inputs: Vec<FnInput>,
    /// Return type, where one is written.
    pub output: Option<TypeSyntax>,
    /// Body.
    pub block: String,
    /// Attributes.
    pub attrs: Vec<AttrSyntax>,
}

/// What a [`FnSyntax`] stands for.
#[verifier::ext_equal]
pub struct FnSyntaxView {
    /// Visibility.
    pub vis: Seq<char>,
    /// Name.
    pub name: Seq<char>,
    /// Parameters.
    pub inputs: Seq<FnInputView>,
    /// Return type, where one is written.
    pub output: Option<TypeSyntaxView>,
    /// Body.
    pub block: Seq<char>,
    /// Attributes.
    pub attrs: Seq<AttrSyntaxView>,
}

impl View for FnSyntax {
    type V = FnSyntaxView;

    open spec fn view(&self) -> FnSyntaxView {
        FnSyntaxView {
            vis: self.vis@,
            name: self.name@,
            inputs: views::each(self.inputs@),
            output: views::optional(self.output),
            block: self.block@,
            attrs: views::each(self.attrs@),
        }
    }
}

/// A field.
#[derive(Debug)]
pub struct FieldSyntax {
    /// Name, where it has one.
    pub name: Option<String>,
    /// Type.
    pub ty: TypeSyntax,
    /// Attributes.
    pub attrs: Vec<AttrSyntax>,
}

/// What a [`FieldSyntax`] stands for.
#[verifier::ext_equal]
pub struct FieldSyntaxView {
    /// Name, where it has one.
    pub name: Option<Seq<char>>,
    /// Type.
    pub ty: TypeSyntaxView,
    /// Attributes.
    pub attrs: Seq<AttrSyntaxView>,
}

impl View for FieldSyntax {
    type V = FieldSyntaxView;

    open spec fn view(&self) -> FieldSyntaxView {
        FieldSyntaxView {
            name: views::optional(self.name),
            ty: self.ty@,
            attrs: views::each(self.attrs@),
        }
    }
}

/// The fields of a struct or variant.
#[derive(Debug)]
pub enum FieldsSyntax {
    /// No fields.
    Unit,
    /// Fields with names.
    Named(Vec<FieldSyntax>),
    /// Fields by position.
    Tuple(Vec<FieldSyntax>),
}

/// What a [`FieldsSyntax`] stands for.
#[verifier::ext_equal]
pub enum FieldsSyntaxView {
    /// No fields.
    Unit,
    /// Fields with names.
    Named(Seq<FieldSyntaxView>),
    /// Fields by position.
    Tuple(Seq<FieldSyntaxView>),
}

impl View for FieldsSyntax {
    type V = FieldsSyntaxView;

    open spec fn view(&self) -> FieldsSyntaxView {
        match *self {
            FieldsSyntax::Unit => FieldsSyntaxView::Unit,
            FieldsSyntax::Named(x) => FieldsSyntaxView::Named(views::each(x@)),
            FieldsSyntax::Tuple(x) => FieldsSyntaxView::Tuple(views::each(x@)),
        }
    }
}

/// A variant of an enum.
#[derive(Debug)]
pub struct VariantSyntax {
    /// Name.
    pub ident: String,
    /// Its fields.
    pub fields: FieldsSyntax,
}

/// What a [`VariantSyntax`] stands for.
#[verifier::ext_equal]
pub struct VariantSyntaxView {
    /// Name.
    pub ident: Seq<char>,
    /// Its fields.
    pub fields: FieldsSyntaxView,
}

impl View for VariantSyntax {
    type V = VariantSyntaxView;

    open spec fn view(&self) -> VariantSyntaxView {
        VariantSyntaxView {
            ident: self.ident@,
            fields: self.fields@,
        }
    }
}

/// The data of a type definition.
#[derive(Debug)]
pub enum DataSyntax {
    /// A struct, by its fields.
    Struct(FieldsSyntax),
    /// An enum, by its variants.
    Enum(Vec<VariantSyntax>),
    /// A union.
    Union,
}

/// What a [`DataSyntax`] stands for.
#[verifier::ext_equal]
pub enum DataSyntaxView {
    /// A struct, by its fields.
    Struct(FieldsSyntaxView),
    /// An enum, by its variants.
    Enum(Seq<VariantSyntaxView>),
    /// A union.
    Union,
}

impl View for DataSyntax {
    type V = DataSyntaxView;

    open spec fn view(&self) -> DataSyntaxView {
        match *self {
            DataSyntax::Struct(x) => DataSyntaxView::Struct(x@),
            DataSyntax::Enum(x) => DataSyntaxView::Enum(views::each(x@)),
            DataSyntax::Union => DataSyntaxView::Union,
        }
    }
}

/// A generic parameter.
#[derive(Debug)]
pub enum ParamSyntax {
    /// A type parameter.
    Type {
        /// Name.
        name: String,
        /// Bounds, or nothing.
        bounds: String,
    },
    /// A lifetime parameter.
    Lifetime {
        /// Name.
        name: String,
        /// Bounds, or nothing.
        bounds: String,
    },
    /// A constant parameter.
    Const {
        /// Name.
        name: String,
        /// Type.
        ty: String,
    },
}

/// What a [`ParamSyntax`] stands for.
#[verifier::ext_equal]
pub enum ParamSyntaxView {
    /// A type parameter.
    Type {
        /// Name.
        name: Seq<char>,
        /// Bounds, or nothing.
        bounds: Seq<char>,
    },
    /// A lifetime parameter.
    Lifetime {
        /// Name.
        name: Seq<char>,
        /// Bounds, or nothing.
        bounds: Seq<char>,
    },
    /// A constant parameter.
    Const {
        /// Name.
        name: Seq<char>,
        /// Type.
        ty: Seq<char>,
    },
}

impl View for ParamSyntax {
    type V = ParamSyntaxView;

    open spec fn view(&self) -> ParamSyntaxView {
        match *self {
            ParamSyntax::Type { name, bounds } => ParamSyntaxView::Type {
                name: name@,
                bounds: bounds@,
            },
            ParamSyntax::Lifetime { name, bounds } => ParamSyntaxView::Lifetime {
                name: name@,
                bounds: bounds@,
            },
            ParamSyntax::Const { name, ty } => ParamSyntaxView::Const {
                name: name@,
                ty: ty@,
            },
        }
    }
}

/// A type definition.
#[derive(Debug)]
pub struct ItemSyntax {
    /// Name.
    pub ident: String,
    /// Generic parameters.
    pub params: Vec<ParamSyntax>,
    /// `where` clause, or nothing.
    pub where_clause: String,
    /// Data.
    pub data: DataSyntax,
}

/// What a [`ItemSyntax`] stands for.
#[verifier::ext_equal]
pub struct ItemSyntaxView {
    /// Name.
    pub ident: Seq<char>,
    /// Generic parameters.
    pub params: Seq<ParamSyntaxView>,
    /// `where` clause, or nothing.
    pub where_clause: Seq<char>,
    /// Data.
    pub data: DataSyntaxView,
}

impl View for ItemSyntax {
    type V = ItemSyntaxView;

    open spec fn view(&self) -> ItemSyntaxView {
        ItemSyntaxView {
            ident: self.ident@,
            params: views::each(self.params@),
            where_clause: self.where_clause@,
            data: self.data@,
        }
    }
}

/// `syn::DeriveInput`: a type definition as `syn` holds it.
#[verifier::external_type_specification]
#[verifier::external_body]
pub struct ExDeriveInput(syn::DeriveInput);

/// `syn::ItemFn`: a function item as `syn` holds it.
#[verifier::external_type_specification]
#[verifier::external_body]
pub struct ExItemFn(syn::ItemFn);

/// `syn::FnArg`: a function parameter as `syn` holds it.
#[verifier::external_type_specification]
#[verifier::external_body]
pub struct ExFnArg(syn::FnArg);

/// `syn::Fields`: fields as `syn` holds them.
#[verifier::external_type_specification]
#[verifier::external_body]
pub struct ExFields(syn::Fields);

/// `syn::Type`: a type as `syn` holds it.
#[verifier::external_type_specification]
#[verifier::external_body]
pub struct ExType(syn::Type);

/// `syn::PathSegment`: a path segment as `syn` holds it.
#[verifier::external_type_specification]
#[verifier::external_body]
pub struct ExPathSegment(syn::PathSegment);

/// `syn::GenericParam`: a generic parameter as `syn` holds it.
#[verifier::external_type_specification]
#[verifier::external_body]
pub struct ExGenericParam(syn::GenericParam);

/// `syn::Meta`: an attribute item as `syn` holds it.
#[verifier::external_type_specification]
#[verifier::external_body]
pub struct ExMeta(syn::Meta);

/// `syn::MetaList`: an attribute item with a list as `syn` holds it.
#[verifier::external_type_specification]
#[verifier::external_body]
pub struct ExMetaList(syn::MetaList);

/// `syn::Expr`: an expression as `syn` holds it.
#[verifier::external_type_specification]
#[verifier::external_body]
pub struct ExExpr(syn::Expr);

/// What parsing gives: the value, or the message of the error.
pub open spec fn parsed<T>(read: Result<T, String>) -> Result<T, Seq<char>> {
    match read {
        Ok(value) => Ok(value),
        Err(message) => Err(message@),
    }
}

/// What parsing a list gives: its items, or the message of the error.
pub open spec fn parsed_list<T>(read: Result<Vec<T>, String>) -> Result<Seq<T>, Seq<char>> {
    match read {
        Ok(items) => Ok(items@),
        Err(message) => Err(message@),
    }
}

/// The parts of a type definition.
pub struct ItemParts {
    /// Name.
    pub ident: String,
    /// Generic parameters.
    pub params: Vec<syn::GenericParam>,
    /// `where` clause as it prints.
    pub where_clause: String,
    /// Data.
    pub data: DataParts,
}

/// What an [`ItemParts`] stands for.
#[verifier::ext_equal]
pub struct ItemPartsView {
    /// Name.
    pub ident: Seq<char>,
    /// Generic parameters.
    pub params: Seq<syn::GenericParam>,
    /// `where` clause as it prints.
    pub where_clause: Seq<char>,
    /// Data.
    pub data: DataPartsView,
}

impl View for ItemParts {
    type V = ItemPartsView;

    open spec fn view(&self) -> ItemPartsView {
        ItemPartsView {
            ident: self.ident@,
            params: self.params@,
            where_clause: self.where_clause@,
            data: self.data@,
        }
    }
}

/// The data of a type definition.
pub enum DataParts {
    /// A struct.
    Struct(syn::Fields),
    /// An enum: the names and fields of its variants.
    Enum(Vec<(String, syn::Fields)>),
    /// A union.
    Union,
}

/// What a [`DataParts`] stands for.
#[verifier::ext_equal]
pub enum DataPartsView {
    /// A struct.
    Struct(syn::Fields),
    /// An enum: the names and fields of its variants.
    Enum(Seq<(Seq<char>, syn::Fields)>),
    /// A union.
    Union,
}

/// What the names and fields of variants stand for.
pub open spec fn variant_views(variants: Seq<(String, syn::Fields)>) -> Seq<
    (Seq<char>, syn::Fields),
> {
    variants.map_values(|v: (String, syn::Fields)| (v.0@, v.1))
}

impl View for DataParts {
    type V = DataPartsView;

    open spec fn view(&self) -> DataPartsView {
        match *self {
            DataParts::Struct(fields) => DataPartsView::Struct(fields),
            DataParts::Enum(variants) => DataPartsView::Enum(variant_views(variants@)),
            DataParts::Union => DataPartsView::Union,
        }
    }
}

/// The parts of a function item.
pub struct FnParts {
    /// Visibility as it prints.
    pub vis: String,
    /// Name.
    pub name: String,
    /// Parameters.
    pub inputs: Vec<syn::FnArg>,
    /// Return type, where one is written.
    pub output: Option<syn::Type>,
    /// Body as it prints.
    pub block: String,
    /// Attributes.
    pub attrs: Vec<syn::Meta>,
}

/// What a [`FnParts`] stands for.
#[verifier::ext_equal]
pub struct FnPartsView {
    /// Visibility as it prints.
    pub vis: Seq<char>,
    /// Name.
    pub name: Seq<char>,
    /// Parameters.
    pub inputs: Seq<syn::FnArg>,
    /// Return type, where one is written.
    pub output: Option<syn::Type>,
    /// Body as it prints.
    pub block: Seq<char>,
    /// Attributes.
    pub attrs: Seq<syn::Meta>,
}

impl View for FnParts {
    type V = FnPartsView;

    open spec fn view(&self) -> FnPartsView {
        FnPartsView {
            vis: self.vis@,
            name: self.name@,
            inputs: self.inputs@,
            output: self.output,
            block: self.block@,
            attrs: self.attrs@,
        }
    }
}

/// A parameter of a function.
pub enum InputParts {
    /// `self` in any form.
    Receiver,
    /// A pattern as it prints, with its type.
    Typed(String, syn::Type),
}

/// What an [`InputParts`] stands for.
#[verifier::ext_equal]
pub enum InputPartsView {
    /// `self` in any form.
    Receiver,
    /// A pattern as it prints, with its type.
    Typed(Seq<char>, syn::Type),
}

impl View for InputParts {
    type V = InputPartsView;

    open spec fn view(&self) -> InputPartsView {
        match *self {
            InputParts::Receiver => InputPartsView::Receiver,
            InputParts::Typed(pat, ty) => InputPartsView::Typed(pat@, ty),
        }
    }
}

/// How fields are written.
pub enum FieldsShape {
    /// No fields.
    Unit,
    /// Fields with names.
    Named,
    /// Fields by position.
    Tuple,
}

/// The parts of a field.
pub struct FieldParts {
    /// Name, where it has one.
    pub name: Option<String>,
    /// Type.
    pub ty: syn::Type,
    /// Attributes.
    pub attrs: Vec<syn::Meta>,
}

/// What a [`FieldParts`] stands for.
#[verifier::ext_equal]
pub struct FieldPartsView {
    /// Name, where it has one.
    pub name: Option<Seq<char>>,
    /// Type.
    pub ty: syn::Type,
    /// Attributes.
    pub attrs: Seq<syn::Meta>,
}

impl View for FieldParts {
    type V = FieldPartsView;

    open spec fn view(&self) -> FieldPartsView {
        FieldPartsView { name: views::optional(self.name), ty: self.ty, attrs: self.attrs@ }
    }
}

/// The kinds of types that are told apart.
pub enum TypeParts {
    /// A path, by its segments.
    Path(Vec<syn::PathSegment>),
    /// A reference, by what it refers to.
    Reference(syn::Type),
    /// Any other type.
    Other,
}

/// What a [`TypeParts`] stands for.
#[verifier::ext_equal]
pub enum TypePartsView {
    /// A path, by its segments.
    Path(Seq<syn::PathSegment>),
    /// A reference, by what it refers to.
    Reference(syn::Type),
    /// Any other type.
    Other,
}

impl View for TypeParts {
    type V = TypePartsView;

    open spec fn view(&self) -> TypePartsView {
        match *self {
            TypeParts::Path(segments) => TypePartsView::Path(segments@),
            TypeParts::Reference(elem) => TypePartsView::Reference(elem),
            TypeParts::Other => TypePartsView::Other,
        }
    }
}

/// What follows the path of an attribute or of one of its items.
pub enum MetaParts {
    /// Nothing.
    Word,
    /// A delimited list, and whether the delimiters are round brackets.
    List(bool, syn::MetaList),
    /// `=` and an expression.
    Value(syn::Expr),
}

/// `syn` may read the text as this type definition, or refuse it with this
/// message.
pub uninterp spec fn item_may_be(
    text: Seq<char>,
    read: Result<syn::DeriveInput, Seq<char>>,
) -> bool;

/// `syn` may read the text as this function item, or refuse it with this message.
pub uninterp spec fn fn_may_be(text: Seq<char>, read: Result<syn::ItemFn, Seq<char>>) -> bool;

/// `syn` may read the text as these items, or refuse it with this message.
pub uninterp spec fn metas_may_be(
    text: Seq<char>,
    read: Result<Seq<syn::Meta>, Seq<char>>,
) -> bool;

/// The type definition may fall into these parts.
pub uninterp spec fn item_may_hold(item: syn::DeriveInput, parts: ItemPartsView) -> bool;

/// The function item may fall into these parts.
pub uninterp spec fn fn_may_hold(function: syn::ItemFn, parts: FnPartsView) -> bool;

/// The parameter may fall into these parts.
pub uninterp spec fn input_may_hold(input: syn::FnArg, parts: InputPartsView) -> bool;

/// How the fields are written.
pub uninterp spec fn shape_of(fields: syn::Fields) -> FieldsShape;

/// The fields, in order.
pub uninterp spec fn fields_held(fields: syn::Fields) -> Seq<FieldPartsView>;

/// The type may print like this.
pub uninterp spec fn type_may_print(ty: syn::Type, text: Seq<char>) -> bool;

/// The kind of the type.
pub uninterp spec fn type_held(ty: syn::Type) -> TypePartsView;

/// The path segment may read like this, its arguments as they print.
pub uninterp spec fn segment_may_be(segment: syn::PathSegment, read: SegmentSyntaxView) -> bool;

/// The generic parameter may read like this, its parts as they print.
pub uninterp spec fn param_may_be(param: syn::GenericParam, read: ParamSyntaxView) -> bool;

/// The path of the item, where it is a single identifier.
pub uninterp spec fn meta_ident(meta: syn::Meta) -> Option<Seq<char>>;

/// What follows the path of the item.
pub uninterp spec fn meta_held(meta: syn::Meta) -> MetaParts;

/// The list as items separated by commas, or the message of the error.
pub uninterp spec fn metas_in(list: syn::MetaList) -> Result<Seq<syn::Meta>, Seq<char>>;

/// The list as one expression, or the message of the error.
pub uninterp spec fn expression_in(list: syn::MetaList) -> Result<syn::Expr, Seq<char>>;

/// The expression may print like this.
pub uninterp spec fn expression_may_print(expr: syn::Expr, text: Seq<char>) -> bool;

/// The value of an expression that is a string literal.
pub uninterp spec fn literal_in(expr: syn::Expr) -> Option<Seq<char>>;

/// `syn::parse_str` as a `syn::DeriveInput`, the error as its message. The text
/// may be read as what comes back; that another call reads the same is not
/// claimed, as the tokens may be the compiler's.
#[verifier::external_body]
fn parse_item(text: &str) -> (read: Result<syn::DeriveInput, String>)
    ensures
        item_may_be(text@, parsed(read)),
{
    syn::parse_str(text).map_err(|e| e.to_string())
}

/// `syn::parse_str` as a `syn::ItemFn`, the error as its message. The text may be
/// read as what comes back; that another call reads the same is not claimed.
#[verifier::external_body]
fn parse_fn(text: &str) -> (read: Result<syn::ItemFn, String>)
    ensures
        fn_may_be(text@, parsed(read)),
{
    syn::parse_str(text).map_err(|e| e.to_string())
}

/// `Punctuated::<Meta, Comma>::parse_terminated` of `syn` on a text, the error
/// as its message. The text may be read as what comes back; that another call
/// reads the same is not claimed.
#[verifier::external_body]
fn parse_metas(text: &str) -> (read: Result<Vec<syn::Meta>, String>)
    ensures
        metas_may_be(text@, parsed_list(read)),
{
    let list = syn::punctuated::Punctuated::<syn::Meta, syn::token::Comma>::parse_terminated;
    let metas = syn::parse::Parser::parse_str(list, text).map_err(|e| e.to_string())?;
    Ok(metas.into_iter().collect())
}

/// The fields of a `syn::DeriveInput`; the `where` clause as it prints, of which
/// only that it may print so is claimed.
#[verifier::external_body]
fn item_parts(item: syn::DeriveInput) -> (parts: ItemParts)
    ensures
        item_may_hold(item, parts@),
{
    ItemParts {
        ident: item.ident.to_string(),
        where_clause: item.generics.where_clause.to_token_stream().to_string(),
        params: item.generics.params.into_iter().collect(),
        data: match item.data {
            syn::Data::Struct(s) => DataParts::Struct(s.fields),
            syn::Data::Enum(e) => {
                DataParts::Enum(
                    e.variants.into_iter().map(|v| (v.ident.to_string(), v.fields)).collect(),
                )
            },
            syn::Data::Union(_) => DataParts::Union,
        },
    }
}

/// The fields of a `syn::ItemFn`; visibility and body as they print, of which only
/// that they may print so is claimed.
#[verifier::external_body]
fn fn_parts(function: syn::ItemFn) -> (parts: FnParts)
    ensures
        fn_may_hold(function, parts@),
{
    FnParts {
        vis: function.vis.to_token_stream().to_string(),
        name: function.sig.ident.to_string(),
        inputs: function.sig.inputs.into_iter().collect(),
        output: match function.sig.output {
            syn::ReturnType::Default => None,
            syn::ReturnType::Type(_, ty) => Some(*ty),
        },
        block: function.block.to_token_stream().to_string(),
        attrs: function.attrs.into_iter().map(|a| a.meta).collect(),
    }
}

/// The variants of a `syn::FnArg`; the pattern as it prints, of which only that it
/// may print so is claimed.
#[verifier::external_body]
fn input_parts(input: syn::FnArg) -> (parts: InputParts)
    ensures
        input_may_hold(input, parts@),
{
    match input {
        syn::FnArg::Receiver(_) => InputParts::Receiver,
        syn::FnArg::Typed(t) => InputParts::Typed(t.pat.to_token_stream().to_string(), *t.ty),
    }
}

/// Which variant a `syn::Fields` is.
#[verifier::external_body]
fn fields_shape(fields: &syn::Fields) -> (shape: FieldsShape)
    ensures
        shape == shape_of(*fields),
{
    match fields {
        syn::Fields::Unit => FieldsShape::Unit,
        syn::Fields::Named(_) => FieldsShape::Named,
        syn::Fields::Unnamed(_) => FieldsShape::Tuple,
    }
}

/// The fields of a `syn::Fields`, in order.
#[verifier::external_body]
fn fields_parts(fields: syn::Fields) -> (parts: Vec<FieldParts>)
    ensures
        views::each(parts@) == fields_held(fields),
{
    fields.into_iter().map(|f| FieldParts {
        name: f.ident.map(|i| i.to_string()),
        ty: f.ty,
        attrs: f.attrs.into_iter().map(|a| a.meta).collect(),
    }).collect()
}

/// How a `syn::Type` prints. Only that it may print so is claimed.
#[verifier::external_body]
fn type_text(ty: &syn::Type) -> (text: String)
    ensures
        type_may_print(*ty, text@),
{
    ty.to_token_stream().to_string()
}

/// The two variants of a `syn::Type` that the code reads; every other one is
/// `Other`.
#[verifier::external_body]
fn type_parts(ty: syn::Type) -> (parts: TypeParts)
    ensures
        parts@ == type_held(ty),
{
    match ty {
        syn::Type::Path(p) => TypeParts::Path(p.path.segments.into_iter().collect()),
        syn::Type::Reference(r) => TypeParts::Reference(*r.elem),
        _ => TypeParts::Other,
    }
}

/// The name of a `syn::PathSegment`, and its arguments where they stand in angle
/// brackets: types as they print, every other one as `Other`. Only that a type may
/// print so is claimed.
#[verifier::external_body]
fn segment_parts(segment: syn::PathSegment) -> (read: SegmentSyntax)
    ensures
        segment_may_be(segment, read@),
{
    let args = match segment.arguments {
        syn::PathArguments::None => None,
        syn::PathArguments::Parenthesized(_) => None,
        syn::PathArguments::AngleBracketed(a) => Some(a.args.iter().map(|arg| match arg {
            syn::GenericArgument::Type(t) => TypeArg::Type(t.to_token_stream().to_string()),
            _ => TypeArg::Other,
        }).collect()),
    };
    SegmentSyntax { ident: segment.ident.to_string(), args }
}

/// The variants of a `syn::GenericParam`, their parts as they print. Only that
/// they may print so is claimed.
#[verifier::external_body]
fn param_parts(param: &syn::GenericParam) -> (read: ParamSyntax)
    ensures
        param_may_be(*param, read@),
{
    match param {
        syn::GenericParam::Type(t) => ParamSyntax::Type {
            name: t.ident.to_string(),
            bounds: t.bounds.to_token_stream().to_string(),
        },
        syn::GenericParam::Lifetime(l) => ParamSyntax::Lifetime {
            name: l.lifetime.to_string(),
            bounds: l.bounds.to_token_stream().to_string(),
        },
        syn::GenericParam::Const(c) => ParamSyntax::Const {
            name: c.ident.to_string(),
            ty: c.ty.to_token_stream().to_string(),
        },
    }
}

/// The path of a `syn::Meta`, where it is a single identifier.
#[verifier::external_body]
fn meta_name(meta: &syn::Meta) -> (name: Option<String>)
    ensures
        views::optional(name) == meta_ident(*meta),
{
    meta.path().get_ident().map(|i| i.to_string())
}

/// The variants of a `syn::Meta`; of a list, whether it is in round brackets.
#[verifier::external_body]
fn meta_parts(meta: syn::Meta) -> (parts: MetaParts)
    ensures
        parts == meta_held(meta),
{
    match meta {
        syn::Meta::Path(_) => MetaParts::Word,
        syn::Meta::List(l) => {
            MetaParts::List(matches!(l.delimiter, syn::MacroDelimiter::Paren(_)), l)
        },
        syn::Meta::NameValue(n) => MetaParts::Value(n.value),
    }
}

/// `syn::MetaList::parse_args_with` as items separated by commas, the error as
/// its message.
#[verifier::external_body]
fn list_metas(list: &syn::MetaList) -> (read: Result<Vec<syn::Meta>, String>)
    ensures
        parsed_list(read) == metas_in(*list),
{
    let items = syn::punctuated::Punctuated::<syn::Meta, syn::token::Comma>::parse_terminated;
    let metas = list.parse_args_with(items).map_err(|e| e.to_string())?;
    Ok(metas.into_iter().collect())
}

/// `syn::MetaList::parse_args` as a `syn::Expr`, the error as its message.
#[verifier::external_body]
fn list_expression(list: &syn::MetaList) -> (read: Result<syn::Expr, String>)
    ensures
        parsed(read) == expression_in(*list),
{
    list.parse_args::<syn::Expr>().map_err(|e| e.to_string())
}

/// How a `syn::Expr` prints. Only that it may print so is claimed.
#[verifier::external_body]
fn expression_text(expr: &syn::Expr) -> (text: String)
    ensures
        expression_may_print(*expr, text@),
{
    expr.to_token_stream().to_string()
}

/// The value of a `syn::Expr` that is a string literal.
#[verifier::external_body]
fn expression_literal(expr: &syn::Expr) -> (value: Option<String>)
    ensures
        views::optional(value) == literal_in(*expr),
{
    match expr {
        syn::Expr::Lit(syn::ExprLit { lit: syn::Lit::Str(s), .. }) => Some(s.value()),
        _ => None,
    }
}

/// A bound stands for its item: the value is the expression as it prints.
pub open spec fn bound_stands(meta: syn::Meta, bound: BoundSyntaxView) -> bool {
    &&& bound.name == meta_ident(meta)
    &&& match (meta_held(meta), bound.value) {
        (MetaParts::Value(expr), Some(text)) => expression_may_print(expr, text),
        (MetaParts::Value(_), None) => false,
        (_, value) => value is None,
    }
}

/// Bounds stand for their items, one for each.
pub open spec fn bounds_stand(metas: Seq<syn::Meta>, bounds: Seq<BoundSyntaxView>) -> bool {
    &&& bounds.len() == metas.len()
    &&& forall|i: int| 0 <= i < metas.len() ==> bound_stands(metas[i], #[trigger] bounds[i])
}

/// What follows the path of an item, read in the ways in which it may be read.
pub open spec fn rule_arg_stands(parts: MetaParts, arg: RuleArgView) -> bool {
    match (parts, arg) {
        (MetaParts::Word, RuleArgView::Word) => true,
        (MetaParts::List(p, list), RuleArgView::List { parens, items, operand, literal }) => {
            &&& parens == p
            &&& match (metas_in(list), items) {
                (Ok(metas), Ok(bounds)) => bounds_stand(metas, bounds),
                (Err(message), Err(told)) => told == message,
                _ => false,
            }
            &&& match (expression_in(list), operand) {
                (Ok(expr), Ok(text)) => expression_may_print(expr, text) && literal == literal_in(
                    expr,
                ),
                (Err(message), Err(told)) => told == message && literal is None,
                _ => false,
            }
        },
        (MetaParts::Value(value), RuleArgView::Value { expr, literal }) => {
            expression_may_print(value, expr) && literal == literal_in(value)
        },
        _ => false,
    }
}

/// An item of an attribute stands for what `syn` holds.
pub open spec fn rule_stands(meta: syn::Meta, rule: RuleSyntaxView) -> bool {
    rule.name == meta_ident(meta) && rule_arg_stands(meta_held(meta), rule.arg)
}

/// Items of an attribute stand for what `syn` holds, one for each.
pub open spec fn rules_stand(metas: Seq<syn::Meta>, rules: Seq<RuleSyntaxView>) -> bool {
    &&& rules.len() == metas.len()
    &&& forall|i: int| 0 <= i < metas.len() ==> rule_stands(metas[i], #[trigger] rules[i])
}

/// What follows the path of an attribute stands for what `syn` holds.
pub open spec fn attr_arg_stands(parts: MetaParts, arg: AttrArgView) -> bool {
    match (parts, arg) {
        (MetaParts::Word, AttrArgView::Word) => true,
        (MetaParts::List(_, list), AttrArgView::List(read)) => match (metas_in(list), read) {
            (Ok(metas), Ok(rules)) => rules_stand(metas, rules),
            (Err(message), Err(told)) => told == message,
            _ => false,
        },
        (MetaParts::Value(expr), AttrArgView::Value(literal)) => literal == literal_in(expr),
        _ => false,
    }
}

/// An attribute stands for what `syn` holds.
pub open spec fn attr_stands(meta: syn::Meta, attr: AttrSyntaxView) -> bool {
    attr.name == meta_ident(meta) && attr_arg_stands(meta_held(meta), attr.arg)
}

/// Attributes stand for what `syn` holds, one for each.
pub open spec fn attrs_stand(metas: Seq<syn::Meta>, attrs: Seq<AttrSyntaxView>) -> bool {
    &&& attrs.len() == metas.len()
    &&& forall|i: int| 0 <= i < metas.len() ==> attr_stands(metas[i], #[trigger] attrs[i])
}

/// The segments of a path stand for what `syn` holds, one for each.
pub open spec fn segments_stand(
    path: Seq<syn::PathSegment>,
    segments: Seq<SegmentSyntaxView>,
) -> bool {
    &&& segments.len() == path.len()
    &&& forall|i: int| 0 <= i < path.len() ==> segment_may_be(path[i], #[trigger] segments[i])
}

/// The form of a type: a path, a reference to a path, or another.
pub open spec fn form_stands(parts: TypePartsView, form: TypeFormView) -> bool {
    match parts {
        TypePartsView::Path(path) => form matches TypeFormView::Path(segments) && segments_stand(
            path,
            segments,
        ),
        TypePartsView::Reference(elem) => match type_held(elem) {
            TypePartsView::Path(path) => form matches TypeFormView::Reference(segments)
                && segments_stand(path, segments),
            _ => form is Other,
        },
        TypePartsView::Other => form is Other,
    }
}

/// A type stands for what `syn` holds.
pub open spec fn type_stands(ty: syn::Type, read: TypeSyntaxView) -> bool {
    type_may_print(ty, read.text) && form_stands(type_held(ty), read.form)
}

/// A field stands for what `syn` holds.
pub open spec fn field_stands(parts: FieldPartsView, field: FieldSyntaxView) -> bool {
    &&& field.name == parts.name
    &&& type_stands(parts.ty, field.ty)
    &&& attrs_stand(parts.attrs, field.attrs)
}

/// Fields stand for what `syn` holds, one for each.
pub open spec fn field_list_stands(
    parts: Seq<FieldPartsView>,
    list: Seq<FieldSyntaxView>,
) -> bool {
    &&& list.len() == parts.len()
    &&& forall|i: int| 0 <= i < parts.len() ==> field_stands(parts[i], #[trigger] list[i])
}

/// Fields stand for what `syn` holds: unit, named or by position as there.
pub open spec fn fields_stand(fields: syn::Fields, read: FieldsSyntaxView) -> bool {
    match shape_of(fields) {
        FieldsShape::Unit => read is Unit,
        FieldsShape::Named => read matches FieldsSyntaxView::Named(list) && field_list_stands(
            fields_held(fields),
            list,
        ),
        FieldsShape::Tuple => read matches FieldsSyntaxView::Tuple(list) && field_list_stands(
            fields_held(fields),
            list,
        ),
    }
}

/// A variant stands for what `syn` holds.
pub open spec fn variant_stands(parts: (Seq<char>, syn::Fields), read: VariantSyntaxView) -> bool {
    read.ident == parts.0 && fields_stand(parts.1, read.fields)
}

/// Data stands for what `syn` holds; of an enum, one variant for each.
pub open spec fn data_stands(parts: DataPartsView, data: DataSyntaxView) -> bool {
    match parts {
        DataPartsView::Struct(fields) => data matches DataSyntaxView::Struct(read) && fields_stand(
            fields,
            read,
        ),
        DataPartsView::Enum(variants) => data matches DataSyntaxView::Enum(list) && {
            &&& list.len() == variants.len()
            &&& forall|i: int|
                0 <= i < variants.len() ==> variant_stands(variants[i], #[trigger] list[i])
        },
        DataPartsView::Union => data is Union,
    }
}

/// Generic parameters stand for what `syn` holds, one for each.
pub open spec fn params_stand(
    params: Seq<syn::GenericParam>,
    list: Seq<ParamSyntaxView>,
) -> bool {
    &&& list.len() == params.len()
    &&& forall|i: int| 0 <= i < params.len() ==> param_may_be(params[i], #[trigger] list[i])
}

/// A type definition stands for its parts.
pub open spec fn item_parts_stand(parts: ItemPartsView, item: ItemSyntaxView) -> bool {
    &&& item.ident == parts.ident
    &&& params_stand(parts.params, item.params)
    &&& item.where_clause == parts.where_clause
    &&& data_stands(parts.data, item.data)
}

/// A type definition stands for what `syn` holds.
pub open spec fn item_stands(tree: syn::DeriveInput, item: ItemSyntaxView) -> bool {
    exists|parts: ItemPartsView| #[trigger]
        item_may_hold(tree, parts) && item_parts_stand(parts, item)
}

/// A parameter stands for its parts.
pub open spec fn input_parts_stand(parts: InputPartsView, input: FnInputView) -> bool {
    match (parts, input) {
        (InputPartsView::Receiver, FnInputView::Receiver) => true,
        (InputPartsView::Typed(text, t), FnInputView::Typed { pat, ty }) => pat == text
            && type_stands(t, ty),
        _ => false,
    }
}

/// A parameter stands for what `syn` holds.
pub open spec fn input_stands(held: syn::FnArg, input: FnInputView) -> bool {
    exists|parts: InputPartsView| #[trigger]
        input_may_hold(held, parts) && input_parts_stand(parts, input)
}

/// Parameters of a function stand for what `syn` holds, one for each.
pub open spec fn inputs_stand(held: Seq<syn::FnArg>, inputs: Seq<FnInputView>) -> bool {
    &&& inputs.len() == held.len()
    &&& forall|i: int| 0 <= i < held.len() ==> input_stands(held[i], #[trigger] inputs[i])
}

/// A function item stands for its parts.
pub open spec fn fn_parts_stand(parts: FnPartsView, function: FnSyntaxView) -> bool {
    &&& function.vis == parts.vis
    &&& function.name == parts.name
    &&& inputs_stand(parts.inputs, function.inputs)
    &&& match (parts.output, function.output) {
        (Some(ty), Some(read)) => type_stands(ty, read),
        (None, None) => true,
        _ => false,
    }
    &&& function.block == parts.block
    &&& attrs_stand(parts.attrs, function.attrs)
}

/// A function item stands for what `syn` holds.
pub open spec fn fn_stands(tree: syn::ItemFn, function: FnSyntaxView) -> bool {
    exists|parts: FnPartsView| #[trigger]
        fn_may_hold(tree, parts) && fn_parts_stand(parts, function)
}

/// The outcome may be that of reading this text as a type definition: what stands
/// for a tree that `syn` may read it as, or the message with which `syn` may
/// refuse it.
pub open spec fn item_read(text: Seq<char>, read: Result<ItemSyntaxView, Seq<char>>) -> bool {
    match read {
        Ok(item) => exists|tree: syn::DeriveInput| #[trigger]
            item_may_be(text, Ok(tree)) && item_stands(tree, item),
        Err(message) => item_may_be(text, Err(message)),
    }
}

/// The outcome may be that of reading this text as a function item.
pub open spec fn fn_read(text: Seq<char>, read: Result<FnSyntaxView, Seq<char>>) -> bool {
    match read {
        Ok(function) => exists|tree: syn::ItemFn| #[trigger]
            fn_may_be(text, Ok(tree)) && fn_stands(tree, function),
        Err(message) => fn_may_be(text, Err(message)),
    }
}

/// The outcome may be that of reading this text as the items of an attribute.
pub open spec fn rules_read(text: Seq<char>, read: Result<Seq<RuleSyntaxView>, Seq<char>>) -> bool {
    match read {
        Ok(rules) => exists|metas: Seq<syn::Meta>| #[trigger]
            metas_may_be(text, Ok(metas)) && rules_stand(metas, rules),
        Err(message) => metas_may_be(text, Err(message)),
    }
}

/// The bounds, one for each item.
fn bounds_syntax(metas: Vec<syn::Meta>) -> (items: Vec<BoundSyntax>)
    ensures
        bounds_stand(metas@, views::each(items@)),
{
    let ghost all = metas@;
    let mut items: Vec<BoundSyntax> = Vec::new();
    for meta in it: metas
        invariant
            it.seq() == all,
            items@.len() == it.index(),
            forall|i: int| 0 <= i < items@.len() ==> bound_stands(all[i], (#[trigger] items@[i])@),
    {
        assert(all[it.index()] == meta);
        let name = meta_name(&meta);
        let value = match meta_parts(meta) {
            MetaParts::Value(expr) => Some(expression_text(&expr)),
            _ => None,
        };
        items.push(BoundSyntax { name, value });
    }
    items
}

fn rule_arg(parts: MetaParts) -> (arg: RuleArg)
    ensures
        rule_arg_stands(parts, arg@),
{
    match parts {
        MetaParts::Word => RuleArg::Word,
        MetaParts::List(parens, list) => {
            let (operand, literal) = match list_expression(&list) {
                Ok(expr) => (Ok(expression_text(&expr)), expression_literal(&expr)),
                Err(message) => (Err(message), None),
            };
            let items = match list_metas(&list) {
                Ok(metas) => Ok(bounds_syntax(metas)),
                Err(message) => Err(message),
            };
            RuleArg::List { parens, items, operand, literal }
        },
        MetaParts::Value(expr) => RuleArg::Value {
            expr: expression_text(&expr),
            literal: expression_literal(&expr),
        },
    }
}

/// The items of an attribute, one for each.
fn rules_syntax(metas: Vec<syn::Meta>) -> (items: Vec<RuleSyntax>)
    ensures
        rules_stand(metas@, views::each(items@)),
{
    let ghost all = metas@;
    let mut items: Vec<RuleSyntax> = Vec::new();
    for meta in it: metas
        invariant
            it.seq() == all,
            items@.len() == it.index(),
            forall|i: int| 0 <= i < items@.len() ==> rule_stands(all[i], (#[trigger] items@[i])@),
    {
        assert(all[it.index()] == meta);
        let name = meta_name(&meta);
        items.push(RuleSyntax { name, arg: rule_arg(meta_parts(meta)) });
    }
    items
}

fn attr_arg(parts: MetaParts) -> (arg: AttrArg)
    ensures
        attr_arg_stands(parts, arg@),
{
    match parts {
        MetaParts::Word => AttrArg::Word,
        MetaParts::List(_, list) => AttrArg::List(
            match list_metas(&list) {
                Ok(metas) => Ok(rules_syntax(metas)),
                Err(message) => Err(message),
            },
        ),
        MetaParts::Value(expr) => AttrArg::Value(expression_literal(&expr)),
    }
}

/// The attributes, one for each.
fn attrs_syntax(metas: Vec<syn::Meta>) -> (attrs: Vec<AttrSyntax>)
    ensures
        attrs_stand(metas@, views::each(attrs@)),
{
    let ghost all = metas@;
    let mut attrs: Vec<AttrSyntax> = Vec::new();
    for meta in it: metas
        invariant
            it.seq() == all,
            attrs@.len() == it.index(),
            forall|i: int| 0 <= i < attrs@.len() ==> attr_stands(all[i], (#[trigger] attrs@[i])@),
    {
        assert(all[it.index()] == meta);
        let name = meta_name(&meta);
        attrs.push(AttrSyntax { name, arg: attr_arg(meta_parts(meta)) });
    }
    attrs
}

/// The segments of a path, one for each.
fn segments_syntax(path: Vec<syn::PathSegment>) -> (segments: Vec<SegmentSyntax>)
    ensures
        segments_stand(path@, views::each(segments@)),
{
    let ghost all = path@;
    let mut segments: Vec<SegmentSyntax> = Vec::new();
    for segment in it: path
        invariant
            it.seq() == all,
            segments@.len() == it.index(),
            forall|i: int|
                0 <= i < segments@.len() ==> segment_may_be(all[i], (#[trigger] segments@[i])@),
    {
        assert(all[it.index()] == segment);
        segments.push(segment_parts(segment));
    }
    segments
}

fn type_form(parts: TypeParts) -> (form: TypeForm)
    ensures
        form_stands(parts@, form@),
{
    match parts {
        TypeParts::Path(path) => TypeForm::Path(segments_syntax(path)),
        TypeParts::Reference(elem) => match type_parts(elem) {
            TypeParts::Path(path) => TypeForm::Reference(segments_syntax(path)),
            _ => TypeForm::Other,
        },
        TypeParts::Other => TypeForm::Other,
    }
}

fn type_syntax(ty: syn::Type) -> (read: TypeSyntax)
    ensures
        type_stands(ty, read@),
{
    let text = type_text(&ty);
    TypeSyntax { text, form: type_form(type_parts(ty)) }
}

fn field_syntax(parts: FieldParts) -> (field: FieldSyntax)
    ensures
        field_stands(parts@, field@),
{
    FieldSyntax {
        name: parts.name,
        ty: type_syntax(parts.ty),
        attrs: attrs_syntax(parts.attrs),
    }
}

/// Fields, one for each.
fn field_list(fields: Vec<FieldParts>) -> (list: Vec<FieldSyntax>)
    ensures
        field_list_stands(views::each(fields@), views::each(list@)),
{
    let ghost all = fields@;
    let mut list: Vec<FieldSyntax> = Vec::new();
    for field in it: fields
        invariant
            it.seq() == all,
            list@.len() == it.index(),
            forall|i: int| 0 <= i < list@.len() ==> field_stands(all[i]@, (#[trigger] list@[i])@),
    {
        assert(all[it.index()] == field);
        list.push(field_syntax(field));
    }
    list
}

fn fields_syntax(fields: syn::Fields) -> (read: FieldsSyntax)
    ensures
        fields_stand(fields, read@),
{
    match fields_shape(&fields) {
        FieldsShape::Unit => FieldsSyntax::Unit,
        FieldsShape::Named => FieldsSyntax::Named(field_list(fields_parts(fields))),
        FieldsShape::Tuple => FieldsSyntax::Tuple(field_list(fields_parts(fields))),
    }
}

/// Variants, one for each.
fn variants_syntax(variants: Vec<(String, syn::Fields)>) -> (list: Vec<VariantSyntax>)
    ensures
        list@.len() == variants@.len(),
        forall|i: int|
            0 <= i < list@.len() ==> variant_stands(
                variant_views(variants@)[i],
                (#[trigger] list@[i])@,
            ),
{
    let ghost all = variants@;
    let mut list: Vec<VariantSyntax> = Vec::new();
    for variant in it: variants
        invariant
            it.seq() == all,
            list@.len() == it.index(),
            forall|i: int|
                0 <= i < list@.len() ==> variant_stands(
                    variant_views(all)[i],
                    (#[trigger] list@[i])@,
                ),
    {
        assert(all[it.index()] == variant);
        list.push(VariantSyntax { ident: variant.0, fields: fields_syntax(variant.1) });
    }
    list
}

/// Generic parameters, one for each.
fn params_syntax(params: Vec<syn::GenericParam>) -> (list: Vec<ParamSyntax>)
    ensures
        params_stand(params@, views::each(list@)),
{
    let ghost all = params@;
    let mut list: Vec<ParamSyntax> = Vec::new();
    for param in it: params
        invariant
            it.seq() == all,
            list@.len() == it.index(),
            forall|i: int| 0 <= i < list@.len() ==> param_may_be(all[i], (#[trigger] list@[i])@),
    {
        assert(all[it.index()] == param);
        list.push(param_parts(&param));
    }
    list
}

fn data_syntax(parts: DataParts) -> (data: DataSyntax)
    ensures
        data_stands(parts@, data@),
{
    match parts {
        DataParts::Struct(fields) => DataSyntax::Struct(fields_syntax(fields)),
        DataParts::Enum(variants) => DataSyntax::Enum(variants_syntax(variants)),
        DataParts::Union => DataSyntax::Union,
    }
}

fn item_syntax(parts: ItemParts) -> (item: ItemSyntax)
    ensures
        item_parts_stand(parts@, item@),
{
    ItemSyntax {
        ident: parts.ident,
        params: params_syntax(parts.params),
        where_clause: parts.where_clause,
        data: data_syntax(parts.data),
    }
}

fn input_syntax(parts: InputParts) -> (input: FnInput)
    ensures
        input_parts_stand(parts@, input@),
{
    match parts {
        InputParts::Receiver => FnInput::Receiver,
        InputParts::Typed(pat, ty) => FnInput::Typed { pat, ty: type_syntax(ty) },
    }
}

/// Parameters of a function, one for each.
fn inputs_syntax(inputs: Vec<syn::FnArg>) -> (list: Vec<FnInput>)
    ensures
        inputs_stand(inputs@, views::each(list@)),
{
    let ghost all = inputs@;
    let mut list: Vec<FnInput> = Vec::new();
    for input in it: inputs
        invariant
            it.seq() == all,
            list@.len() == it.index(),
            forall|i: int| 0 <= i < list@.len() ==> input_stands(all[i], (#[trigger] list@[i])@),
    {
        assert(all[it.index()] == input);
        let parts = input_parts(input);
        let ghost held = parts@;
        let read = input_syntax(parts);
        assert(input_may_hold(input, held) && input_parts_stand(held, read@));
        list.push(read);
    }
    list
}

fn fn_syntax(parts: FnParts) -> (function: FnSyntax)
    ensures
        fn_parts_stand(parts@, function@),
{
    FnSyntax {
        vis: parts.vis,
        name: parts.name,
        inputs: inputs_syntax(parts.inputs),
        output: match parts.output {
            Some(ty) => Some(type_syntax(ty)),
            None => None,
        },
        block: parts.block,
        attrs: attrs_syntax(parts.attrs),
    }
}

/// Reads a type definition.
pub(crate) fn read_item(text: &str) -> (read: Result<ItemSyntax, String>)
    ensures
        item_read(text@, outcome(read)),
{
    match parse_item(text) {
        Ok(item) => {
            let parts = item_parts(item);
            let ghost held = parts@;
            let read = item_syntax(parts);
            assert(item_may_hold(item, held) && item_parts_stand(held, read@));
            assert(item_may_be(text@, Ok(item)) && item_stands(item, read@));
            Ok(read)
        },
        Err(message) => Err(message),
    }
}

/// Reads a function item.
pub(crate) fn read_fn(text: &str) -> (read: Result<FnSyntax, String>)
    ensures
        fn_read(text@, outcome(read)),
{
    match parse_fn(text) {
        Ok(function) => {
            let parts = fn_parts(function);
            let ghost held = parts@;
            let read = fn_syntax(parts);
            assert(fn_may_hold(function, held) && fn_parts_stand(held, read@));
            assert(fn_may_be(text@, Ok(function)) && fn_stands(function, read@));
            Ok(read)
        },
        Err(message) => Err(message),
    }
}

/// Reads the items of an attribute.
pub(crate) fn read_rules(text: &str) -> (read: Result<Vec<RuleSyntax>, String>)
    ensures
        rules_read(text@, list_outcome(read)),
{
    match parse_metas(text) {
        Ok(metas) => {
            let ghost held = metas@;
            let read = rules_syntax(metas);
            assert(metas_may_be(text@, Ok(held)) && rules_stand(held, views::each(read@)));
            Ok(read)
        },
        Err(message) => Err(message),
    }
}

/// A character inside a string literal.
pub open spec fn escaped_char(c: char) -> Seq<char> {
    if c == '\\' {
        seq!['\\', '\\']
    } else if c == '"' {
        seq!['\\', '"']
    } else if c == '\n' {
        seq!['\\', 'n']
    } else if c == '\r' {
        seq!['\\', 'r']
    } else if c == '\t' {
        seq!['\\', 't']
    } else {
        seq![c]
    }
}

/// A text inside a string literal.
pub open spec fn escaped(text: Seq<char>) -> Seq<char>
    decreases text.len(),
{
    if text.len() == 0 {
        Seq::empty()
    } else {
        escaped_char(text[0]) + escaped(text.drop_first())
    }
}

/// A text as a string literal.
pub open spec fn string_literal(text: Seq<char>) -> Seq<char> {
    seq!['"'] + escaped(text) + seq!['"']
}

/// What the inside of a string literal stands for.
pub open spec fn unescaped(inside: Seq<char>) -> Seq<char>
    decreases inside.len(),
{
    if inside.len() == 0 {
        Seq::empty()
    } else if inside[0] == '\\' && inside.len() >= 2 {
        let c = if inside[1] == 'n' {
            '\n'
        } else if inside[1] == 'r' {
            '\r'
        } else if inside[1] == 't' {
            '\t'
        } else {
            inside[1]
        };
        seq![c] + unescaped(inside.skip(2))
    } else {
        seq![inside[0]] + unescaped(inside.drop_first())
    }
}

fn push_escaped(out: &mut String, c: char)
    ensures
        final(out)@ == old(out)@ + escaped_char(c),
{
    let ghost before = out@;
    if c == '\\' {
        out.push('\\');
        out.push('\\');
    } else if c == '"' {
        out.push('\\');
        out.push('"');
    } else if c == '\n' {
        out.push('\\');
        out.push('n');
    } else if c == '\r' {
        out.push('\\');
        out.push('r');
    } else if c == '\t' {
        out.push('\\');
        out.push('t');
    } else {
        out.push(c);
    }
    assert(out@ =~= before + escaped_char(c));
}

/// Writes a text as a string literal.
pub fn write_literal(text: &str) -> (literal: String)
    ensures
        literal@ == string_literal(text@),
{
    let chars = chars_of(text);
    let mut literal = String::new();
    literal.push('"');
    let ghost whole = seq!['"'] + escaped(text@);
    let mut i: usize = 0;
    assert(chars@.skip(0) =~= text@);
    assert(literal@ + escaped(text@) =~= whole);
    while i < chars.len()
        invariant
            i <= chars@.len(),
            literal@ + escaped(chars@.skip(i as int)) == whole,
        decreases chars@.len() - i,
    {
        let ghost before = literal@;
        let ghost rest = escaped(chars@.skip(i + 1));
        assert(chars@.skip(i as int).drop_first() =~= chars@.skip(i + 1));
        push_escaped(&mut literal, chars[i]);
        assert(before + (escaped_char(chars@[i as int]) + rest) =~= literal@ + rest);
        i = i + 1;
    }
    assert(chars@.skip(i as int) =~= Seq::empty());
    assert(literal@ =~= whole);
    literal.push('"');
    assert(literal@ =~= string_literal(text@));
    literal
}

/// A literal stands for the text that was written.
pub proof fn a_literal_reads_back(text: Seq<char>)
    ensures
        unescaped(escaped(text)) == text,
    decreases text.len(),
{
    if text.len() > 0 {
        let rest = text.drop_first();
        let inside = escaped(text);
        let first = escaped_char(text[0]);
        a_literal_reads_back(rest);
        assert(inside == first + escaped(rest));
        if first.len() == 2 {
            assert(inside.skip(2) =~= escaped(rest));
        } else {
            assert(inside.drop_first() =~= escaped(rest));
        }
        assert(unescaped(inside) =~= seq![text[0]] + rest);
        assert(seq![text[0]] + rest =~= text);
    }
}

/// The inside of a literal ends nowhere before its end: every quote in it is
/// escaped, and no escape is left open.
pub open spec fn closed_inside(inside: Seq<char>) -> bool
    decreases inside.len(),
{
    if inside.len() == 0 {
        true
    } else if inside[0] == '\\' {
        inside.len() >= 2 && closed_inside(inside.skip(2))
    } else {
        inside[0] != '"' && closed_inside(inside.drop_first())
    }
}

/// The code is one string literal, and stands for this text.
pub open spec fn is_literal_of(code: Seq<char>, text: Seq<char>) -> bool {
    &&& code.len() >= 2
    &&& code[0] == '"'
    &&& code.last() == '"'
    &&& closed_inside(code.subrange(1, code.len() - 1))
    &&& unescaped(code.subrange(1, code.len() - 1)) == text
}

/// What is written for a text is one string literal that stands for that very text,
/// whatever quotes, escapes or newlines it holds.
pub proof fn a_literal_stands_for_its_text(text: Seq<char>)
    ensures
        is_literal_of(string_literal(text), text),
{
    let code = string_literal(text);
    a_literal_reads_back(text);
    lemma_escaped_is_closed(text);
    assert(code.subrange(1, code.len() - 1) =~= escaped(text));
}

proof fn lemma_escaped_is_closed(text: Seq<char>)
    ensures
        closed_inside(escaped(text)),
    decreases text.len(),
{
    if text.len() > 0 {
        let rest = escaped(text.drop_first());
        lemma_escaped_is_closed(text.drop_first());
        let first = escaped_char(text[0]);
        if first.len() == 2 {
            assert(escaped(text).skip(2) =~= rest);
        } else {
            assert(escaped(text).drop_first() =~= rest);
        }
    }
}

} // verus!
