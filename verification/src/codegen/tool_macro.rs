//! The `#[tool]` attribute: a free function becomes a tool.
//!
//! The name defaults to that of the function, the description to its doc comment.
//! A function without a context parameter becomes a tool for any context.

use crate::codegen::arguments;
use crate::codegen::arguments::{cx_ctx_type, result_output};
use crate::codegen::syntax;
use crate::codegen::syntax::{
    read_fn, read_rules, write_literal, AttrArg, AttrArgView, AttrSyntax, AttrSyntaxView, FnInput,
    FnInputView, FnSyntax, FnSyntaxView, RuleArg, RuleArgView, RuleSyntax, RuleSyntaxView,
};
use crate::text;
use crate::text::{join, trim};
use crate::views;
use vstd::prelude::*;

verus! {

/// What the attribute of a tool sets.
#[derive(Debug)]
pub struct ToolArgs {
    /// The name, in place of that of the function.
    pub name: Option<String>,
    /// The description, in place of the doc comment.
    pub description: Option<String>,
}

/// What a [`ToolArgs`] stands for.
#[verifier::ext_equal]
pub struct ToolArgsView {
    /// The name, in place of that of the function.
    pub name: Option<Seq<char>>,
    /// The description, in place of the doc comment.
    pub description: Option<Seq<char>>,
}

impl View for ToolArgs {
    type V = ToolArgsView;

    open spec fn view(&self) -> ToolArgsView {
        ToolArgsView {
            name: views::optional(self.name),
            description: views::optional(self.description),
        }
    }
}

/// A pattern with a type.
#[derive(Debug)]
pub struct Binding {
    /// Pattern.
    pub pat: String,
    /// Type.
    pub ty: String,
}

/// What a [`Binding`] stands for.
#[verifier::ext_equal]
pub struct BindingView {
    /// Pattern.
    pub pat: Seq<char>,
    /// Type.
    pub ty: Seq<char>,
}

impl View for Binding {
    type V = BindingView;

    open spec fn view(&self) -> BindingView {
        BindingView {
            pat: self.pat@,
            ty: self.ty@,
        }
    }
}

/// The parameters of a tool function, by their role.
#[derive(Debug)]
pub struct Signature {
    /// The context, by the type inside `&ToolCx<..>`.
    pub cx: Option<Binding>,
    /// The arguments.
    pub params: Option<Binding>,
}

/// What a [`Signature`] stands for.
#[verifier::ext_equal]
pub struct SignatureView {
    /// The context, by the type inside `&ToolCx<..>`.
    pub cx: Option<BindingView>,
    /// The arguments.
    pub params: Option<BindingView>,
}

impl View for Signature {
    type V = SignatureView;

    open spec fn view(&self) -> SignatureView {
        SignatureView {
            cx: views::optional(self.cx),
            params: views::optional(self.params),
        }
    }
}

/// One item of the attribute.
pub open spec fn with_item(
    args: ToolArgsView,
    meta: RuleSyntaxView,
) -> Result<ToolArgsView, Seq<char>> {
    match meta.arg {
        RuleArgView::Value { expr, literal } => match literal {
            None => Err("expected a string literal"@),
            Some(value) => if meta.name == Some("name"@) {
                Ok(ToolArgsView { name: Some(value), ..args })
            } else if meta.name == Some("description"@) {
                Ok(ToolArgsView { description: Some(value), ..args })
            } else {
                Err("unknown `#[tool]` key"@)
            },
        },
        _ => Err("`#[tool]` expects `name = \"…\"` / `description = \"…\"`"@),
    }
}

/// The items of the attribute, in order; the first bad one decides.
pub open spec fn args_of(metas: Seq<RuleSyntaxView>) -> Result<ToolArgsView, Seq<char>>
    decreases metas.len(),
{
    if metas.len() == 0 {
        Ok(ToolArgsView { name: None, description: None })
    } else {
        match args_of(metas.drop_last()) {
            Ok(args) => with_item(args, metas.last()),
            Err(message) => Err(message),
        }
    }
}

/// Whether an optional name is this one.
pub(crate) fn is_named(name: &Option<String>, wanted: &str) -> (same: bool)
    ensures
        same == (views::optional(*name) == Some(wanted@)),
{
    match name {
        Some(n) => *n.as_str() == *wanted,
        None => false,
    }
}

fn add_item(args: ToolArgs, meta: &RuleSyntax) -> (outcome: Result<ToolArgs, String>)
    ensures
        syntax::outcome(outcome) == with_item(args@, meta@),
{
    match &meta.arg {
        RuleArg::Value { expr: _, literal } => match literal {
            None => Err("expected a string literal".to_owned()),
            Some(value) => if is_named(&meta.name, "name") {
                Ok(ToolArgs { name: Some(value.clone()), description: args.description })
            } else if is_named(&meta.name, "description") {
                Ok(ToolArgs { name: args.name, description: Some(value.clone()) })
            } else {
                Err("unknown `#[tool]` key".to_owned())
            },
        },
        _ => Err("`#[tool]` expects `name = \"…\"` / `description = \"…\"`".to_owned()),
    }
}

/// Collects the items of the attribute.
pub fn collect_args(metas: &Vec<RuleSyntax>) -> (outcome: Result<ToolArgs, String>)
    ensures
        syntax::outcome(outcome) == args_of(views::each(metas@)),
{
    let ghost all = views::each(metas@);
    let mut args = ToolArgs { name: None, description: None };
    let mut i: usize = 0;
    while i < metas.len()
        invariant
            i <= metas@.len(),
            all == views::each(metas@),
            args_of(all.take(i as int)) == Ok::<ToolArgsView, Seq<char>>(args@),
        decreases metas@.len() - i,
    {
        assert(all.take(i + 1).drop_last() =~= all.take(i as int));
        assert(all.take(i + 1).last() == metas@[i as int]@);
        match add_item(args, &metas[i]) {
            Ok(next) => {
                args = next;
            },
            Err(message) => {
                proof {
                    lemma_bad_item_decides(all, i + 1);
                }
                return Err(message);
            },
        }
        i = i + 1;
    }
    assert(all.take(i as int) =~= all);
    Ok(args)
}

proof fn lemma_bad_item_decides(metas: Seq<RuleSyntaxView>, n: int)
    requires
        0 <= n <= metas.len(),
        args_of(metas.take(n)) is Err,
    ensures
        args_of(metas) == args_of(metas.take(n)),
    decreases metas.len() - n,
{
    if n == metas.len() {
        assert(metas.take(n) =~= metas);
    } else {
        assert(metas.take(n + 1).drop_last() =~= metas.take(n));
        lemma_bad_item_decides(metas, n + 1);
    }
}

/// What the attribute sets, once its text was read.
pub open spec fn args_read(
    read: Result<Seq<RuleSyntaxView>, Seq<char>>,
) -> Result<ToolArgsView, Seq<char>> {
    match read {
        Ok(metas) => args_of(metas),
        Err(message) => Err(message),
    }
}

/// The outcome may be that of this text of an attribute: an empty one sets
/// nothing, and any other sets what the items set that `syn` may read it as.
pub open spec fn args_may_be(
    attr: Seq<char>,
    outcome: Result<ToolArgsView, Seq<char>>,
) -> bool {
    if attr.len() == 0 {
        outcome == Ok::<ToolArgsView, Seq<char>>(ToolArgsView { name: None, description: None })
    } else {
        exists|read: Result<Seq<RuleSyntaxView>, Seq<char>>| #[trigger]
            syntax::rules_read(attr, read) && outcome == args_read(read)
    }
}

/// Reads the attribute. An empty one is not parsed and sets nothing; of any other,
/// the outcome is that of what `syn` may read it as, and an error of `syn` is
/// passed on.
pub fn parse_attr(attr: &str) -> (outcome: Result<ToolArgs, String>)
    ensures
        args_may_be(attr@, syntax::outcome(outcome)),
{
    if attr.is_empty() {
        return Ok(ToolArgs { name: None, description: None });
    }
    let read = read_rules(attr);
    let ghost items = syntax::list_outcome(read);
    assert(syntax::rules_read(attr@, items));
    let outcome = match read {
        Ok(metas) => collect_args(&metas),
        Err(message) => Err(message),
    };
    assert(syntax::outcome(outcome) == args_read(items));
    outcome
}

/// The line of a doc attribute.
pub open spec fn doc_line(attr: AttrSyntaxView) -> Option<Seq<char>> {
    if attr.name == Some("doc"@) {
        match attr.arg {
            AttrArgView::Value(Some(line)) => Some(text::trimmed(line)),
            _ => None,
        }
    } else {
        None
    }
}

/// The lines of the doc attributes, in order.
pub open spec fn doc_lines(attrs: Seq<AttrSyntaxView>) -> Seq<Seq<char>>
    decreases attrs.len(),
{
    if attrs.len() == 0 {
        Seq::empty()
    } else {
        let before = doc_lines(attrs.drop_last());
        match doc_line(attrs.last()) {
            Some(line) => before.push(line),
            None => before,
        }
    }
}

/// The doc comment, where it says anything.
pub open spec fn doc_of(attrs: Seq<AttrSyntaxView>) -> Option<Seq<char>> {
    let all = text::trimmed(text::joined(doc_lines(attrs), "\n"@));
    if all.len() == 0 {
        None
    } else {
        Some(all)
    }
}

fn read_doc_line(attr: &AttrSyntax) -> (line: Option<String>)
    ensures
        views::optional(line) == doc_line(attr@),
{
    if !is_named(&attr.name, "doc") {
        return None;
    }
    match &attr.arg {
        AttrArg::Value(Some(line)) => Some(trim(line.as_str())),
        _ => None,
    }
}

/// Joins the `///` lines among the attributes into a description.
pub fn doc_comment(attrs: &Vec<AttrSyntax>) -> (doc: Option<String>)
    ensures
        views::optional(doc) == doc_of(views::each(attrs@)),
{
    let ghost all = views::each(attrs@);
    let mut lines: Vec<String> = Vec::new();
    let mut i: usize = 0;
    assert(views::each(lines@) =~= doc_lines(all.take(0)));
    while i < attrs.len()
        invariant
            i <= attrs@.len(),
            all == views::each(attrs@),
            views::each(lines@) == doc_lines(all.take(i as int)),
        decreases attrs@.len() - i,
    {
        assert(all.take(i + 1).drop_last() =~= all.take(i as int));
        assert(all.take(i + 1).last() == attrs@[i as int]@);
        let ghost before = views::each(lines@);
        match read_doc_line(&attrs[i]) {
            Some(line) => {
                lines.push(line);
                assert(views::each(lines@) =~= before.push(line@));
            },
            None => {},
        }
        i = i + 1;
    }
    assert(all.take(i as int) =~= all);
    let joined = trim(join(&lines, "\n").as_str());
    if joined.as_str().unicode_len() == 0 {
        None
    } else {
        Some(joined)
    }
}

/// A parameter finds its role: `&ToolCx<Ctx>` is the context, any other the
/// arguments. The later of two with one role counts.
pub open spec fn placed(
    signature: SignatureView,
    pat: Seq<char>,
    ty: Seq<char>,
    ctx: Option<Seq<char>>,
) -> SignatureView {
    match ctx {
        Some(ctx) => SignatureView { cx: Some(BindingView { pat, ty: ctx }), ..signature },
        None => SignatureView { params: Some(BindingView { pat, ty }), ..signature },
    }
}

/// The roles of the parameters.
pub open spec fn signature_of(inputs: Seq<FnInputView>) -> Result<SignatureView, Seq<char>>
    decreases inputs.len(),
{
    if inputs.len() == 0 {
        Ok(SignatureView { cx: None, params: None })
    } else {
        match signature_of(inputs.drop_last()) {
            Err(message) => Err(message),
            Ok(signature) => match inputs.last() {
                FnInputView::Receiver => Err("`#[tool]` does not take `self`"@),
                FnInputView::Typed { pat, ty } => Ok(
                    placed(signature, pat, ty.text, arguments::context_argument(ty)),
                ),
            },
        }
    }
}

/// Places a parameter, its context type being `ctx` where it is a context.
pub fn place_input(
    signature: Signature,
    pat: String,
    ty: String,
    ctx: Option<String>,
) -> (next: Signature)
    ensures
        next@ == placed(signature@, pat@, ty@, views::optional(ctx)),
{
    match ctx {
        Some(ctx) => Signature { cx: Some(Binding { pat, ty: ctx }), params: signature.params },
        None => Signature { cx: signature.cx, params: Some(Binding { pat, ty }) },
    }
}

proof fn lemma_bad_input_decides(inputs: Seq<FnInputView>, n: int)
    requires
        0 <= n <= inputs.len(),
        signature_of(inputs.take(n)) is Err,
    ensures
        signature_of(inputs) == signature_of(inputs.take(n)),
    decreases inputs.len() - n,
{
    if n == inputs.len() {
        assert(inputs.take(n) =~= inputs);
    } else {
        assert(inputs.take(n + 1).drop_last() =~= inputs.take(n));
        lemma_bad_input_decides(inputs, n + 1);
    }
}

/// Classifies the parameters.
pub fn classify(inputs: &Vec<FnInput>) -> (outcome: Result<Signature, String>)
    ensures
        syntax::outcome(outcome) == signature_of(views::each(inputs@)),
{
    let ghost all = views::each(inputs@);
    let mut signature = Signature { cx: None, params: None };
    let mut i: usize = 0;
    while i < inputs.len()
        invariant
            i <= inputs@.len(),
            all == views::each(inputs@),
            signature_of(all.take(i as int)) == Ok::<SignatureView, Seq<char>>(signature@),
        decreases inputs@.len() - i,
    {
        assert(all.take(i + 1).drop_last() =~= all.take(i as int));
        assert(all.take(i + 1).last() == inputs@[i as int]@);
        match &inputs[i] {
            FnInput::Receiver => {
                proof {
                    lemma_bad_input_decides(all, i + 1);
                }
                return Err("`#[tool]` does not take `self`".to_owned());
            },
            FnInput::Typed { pat, ty } => {
                let ctx = cx_ctx_type(ty);
                signature = place_input(signature, pat.clone(), ty.text.clone(), ctx);
            },
        }
        i = i + 1;
    }
    assert(all.take(i as int) =~= all);
    Ok(signature)
}

/// The item that a tool function becomes.
pub open spec fn tool_item(
    function: FnSyntaxView,
    name: Seq<char>,
    description: Seq<char>,
    signature: SignatureView,
    output: Seq<char>,
) -> Seq<char> {
    let header = match signature.cx {
        Some(_) => "impl"@,
        None => "impl<Ctx: ::core::marker::Send + ::core::marker::Sync + 'static>"@,
    };
    let ctx = match signature.cx {
        Some(cx) => cx.ty,
        None => "Ctx"@,
    };
    let cx_bind = match signature.cx {
        Some(cx) => cx.pat,
        None => "_cx"@,
    };
    let args_ty = match signature.params {
        Some(params) => params.ty,
        None => "()"@,
    };
    let args_bind = match signature.params {
        Some(params) => params.pat,
        None => "_args"@,
    };
    "#[allow(non_camel_case_types)] "@ + function.vis + " struct "@ + function.name + "; "@
        + header + " ::stakit_ai_sdk::Tool<"@ + ctx + "> for "@ + function.name
        + " { type Args = "@ + args_ty + "; type Output = "@ + output
        + "; fn name(&self) -> &'static str { "@ + syntax::string_literal(name)
        + " } fn description(&self) -> &'static str { "@ + syntax::string_literal(description)
        + " } fn run<'a>(&'a self, "@ + cx_bind + ": &'a ::stakit_ai_sdk::ToolCx<"@ + ctx
        + ">, "@ + args_bind
        + ": Self::Args) -> ::stakit_ai_sdk::BoxFuture<'a, ::core::result::Result<Self::Output, \
            ::stakit_ai_sdk::ToolError>> { ::std::boxed::Box::pin(async move "@
        + function.block + ") } }"@
}

/// Writes the item that a tool function becomes.
pub fn write_tool(
    function: &FnSyntax,
    name: &str,
    description: &str,
    signature: &Signature,
    output: &str,
) -> (code: String)
    ensures
        code@ == tool_item(function@, name@, description@, signature@, output@),
{
    let (header, ctx, cx_bind) = match &signature.cx {
        Some(cx) => ("impl", cx.ty.as_str(), cx.pat.as_str()),
        None => (
            "impl<Ctx: ::core::marker::Send + ::core::marker::Sync + 'static>",
            "Ctx",
            "_cx",
        ),
    };
    let (args_ty, args_bind) = match &signature.params {
        Some(params) => (params.ty.as_str(), params.pat.as_str()),
        None => ("()", "_args"),
    };
    "#[allow(non_camel_case_types)] ".to_owned().concat(function.vis.as_str()).concat(
        " struct ",
    ).concat(function.name.as_str()).concat("; ").concat(header).concat(
        " ::stakit_ai_sdk::Tool<",
    ).concat(ctx).concat("> for ").concat(function.name.as_str()).concat(
        " { type Args = ",
    ).concat(args_ty).concat("; type Output = ").concat(output).concat(
        "; fn name(&self) -> &'static str { ",
    ).concat(write_literal(name).as_str()).concat(
        " } fn description(&self) -> &'static str { ",
    ).concat(write_literal(description).as_str()).concat(" } fn run<'a>(&'a self, ").concat(
        cx_bind,
    ).concat(": &'a ::stakit_ai_sdk::ToolCx<").concat(ctx).concat(">, ").concat(
        args_bind,
    ).concat(
        ": Self::Args) -> ::stakit_ai_sdk::BoxFuture<'a, ::core::result::Result<Self::Output, \
            ::stakit_ai_sdk::ToolError>> { ::std::boxed::Box::pin(async move ",
    ).concat(function.block.as_str()).concat(") } }")
}

/// The name of a tool.
pub open spec fn tool_name(function: FnSyntaxView, args: ToolArgsView) -> Seq<char> {
    match args.name {
        Some(name) => name,
        None => function.name,
    }
}

/// The description of a tool.
pub open spec fn tool_description(function: FnSyntaxView, args: ToolArgsView) -> Seq<char> {
    match args.description {
        Some(description) => description,
        None => match doc_of(function.attrs) {
            Some(doc) => doc,
            None => Seq::empty(),
        },
    }
}

/// What a function with these attribute items expands to.
pub open spec fn expanded(
    function: FnSyntaxView,
    args: ToolArgsView,
) -> Result<Seq<char>, Seq<char>> {
    match signature_of(function.inputs) {
        Err(message) => Err(message),
        Ok(signature) => {
            let output = match function.output {
                Some(ty) => arguments::argument_of(ty, "Result"@),
                None => None,
            };
            match output {
                None => Err("`#[tool]` return type must be `Result<Output, ToolError>`"@),
                Some(output) => Ok(
                    tool_item(
                        function,
                        tool_name(function, args),
                        tool_description(function, args),
                        signature,
                        output,
                    ),
                ),
            }
        },
    }
}

/// Expands a function.
pub fn expand(function: &FnSyntax, args: &ToolArgs) -> (outcome: Result<String, String>)
    ensures
        syntax::outcome(outcome) == expanded(function@, args@),
{
    let name = match &args.name {
        Some(name) => name.clone(),
        None => function.name.clone(),
    };
    let description = match &args.description {
        Some(description) => description.clone(),
        None => match doc_comment(&function.attrs) {
            Some(doc) => doc,
            None => String::new(),
        },
    };
    assert(description@ =~= tool_description(function@, args@));
    let signature = match classify(&function.inputs) {
        Ok(signature) => signature,
        Err(message) => {
            return Err(message);
        },
    };
    match result_output(&function.output) {
        None => Err("`#[tool]` return type must be `Result<Output, ToolError>`".to_owned()),
        Some(output) => Ok(
            write_tool(
                function,
                name.as_str(),
                description.as_str(),
                &signature,
                output.as_str(),
            ),
        ),
    }
}

/// What the attribute expands to, once the function and the attribute were read.
pub open spec fn tool_read(
    function: Result<FnSyntaxView, Seq<char>>,
    args: Result<ToolArgsView, Seq<char>>,
) -> Result<Seq<char>, Seq<char>> {
    match function {
        Err(message) => Err(message),
        Ok(function) => match args {
            Err(message) => Err(message),
            Ok(args) => expanded(function, args),
        },
    }
}

/// Expands the items of a `#[tool(..)]` attribute on a function.
pub fn expand_read(function: &FnSyntax, items: &Vec<RuleSyntax>) -> (outcome: Result<
    String,
    String,
>)
    ensures
        syntax::outcome(outcome) == tool_read(Ok(function@), args_of(views::each(items@))),
{
    match collect_args(items) {
        Err(message) => Err(message),
        Ok(args) => expand(function, &args),
    }
}

/// Expands the attribute `#[tool(attr)]` on the function `item`: the code is that
/// of a function and of items that `syn` may read the two as, and an error of
/// `syn` is passed on, that of the function first.
pub fn tool(attr: &str, item: &str) -> (outcome: Result<String, String>)
    ensures
        exists|
            function: Result<FnSyntaxView, Seq<char>>,
            args: Result<ToolArgsView, Seq<char>>,
        | #[trigger]
            syntax::fn_read(item@, function) && #[trigger] args_may_be(attr@, args)
                && syntax::outcome(outcome) == tool_read(function, args),
{
    let function = read_fn(item);
    let args = parse_attr(attr);
    let ghost first = syntax::outcome(function);
    let ghost second = syntax::outcome(args);
    assert(syntax::fn_read(item@, first) && args_may_be(attr@, second));
    let outcome = match function {
        Err(message) => Err(message),
        Ok(function) => match args {
            Err(message) => Err(message),
            Ok(args) => expand(&function, &args),
        },
    };
    assert(syntax::outcome(outcome) == tool_read(first, second));
    outcome
}

/// The attribute decides over the function: a name or a description that it
/// sets is the one that the tool has, whatever the function's own.
pub proof fn the_attribute_overrides(function: FnSyntaxView, args: ToolArgsView)
    ensures
        args.name is Some ==> tool_name(function, args) == args.name->0,
        args.name is None ==> tool_name(function, args) == function.name,
        args.description is Some ==> tool_description(function, args) == args.description->0,
        args.description is None && doc_of(function.attrs) is None ==> tool_description(
            function,
            args,
        ) == Seq::<char>::empty(),
{
}

/// The parts of the item of a tool, in order.
pub open spec fn item_parts(
    function: FnSyntaxView,
    name: Seq<char>,
    description: Seq<char>,
    signature: SignatureView,
    output: Seq<char>,
) -> Seq<Seq<char>> {
    let ctx = match signature.cx {
        Some(cx) => cx.ty,
        None => "Ctx"@,
    };
    seq![
        "#[allow(non_camel_case_types)] "@,
        function.vis,
        " struct "@,
        function.name,
        "; "@,
        match signature.cx {
            Some(_) => "impl"@,
            None => "impl<Ctx: ::core::marker::Send + ::core::marker::Sync + 'static>"@,
        },
        " ::stakit_ai_sdk::Tool<"@,
        ctx,
        "> for "@,
        function.name,
        " { type Args = "@,
        match signature.params {
            Some(params) => params.ty,
            None => "()"@,
        },
        "; type Output = "@,
        output,
        "; fn name(&self) -> &'static str { "@,
        syntax::string_literal(name),
        " } fn description(&self) -> &'static str { "@,
        syntax::string_literal(description),
        " } fn run<'a>(&'a self, "@,
        match signature.cx {
            Some(cx) => cx.pat,
            None => "_cx"@,
        },
        ": &'a ::stakit_ai_sdk::ToolCx<"@,
        ctx,
        ">, "@,
        match signature.params {
            Some(params) => params.pat,
            None => "_args"@,
        },
        ": Self::Args) -> ::stakit_ai_sdk::BoxFuture<'a, ::core::result::Result<Self::Output, \
            ::stakit_ai_sdk::ToolError>> { ::std::boxed::Box::pin(async move "@,
        function.block,
        ") } }"@,
    ]
}

proof fn lemma_item_holds(
    function: FnSyntaxView,
    name: Seq<char>,
    description: Seq<char>,
    signature: SignatureView,
    output: Seq<char>,
    lo: int,
    hi: int,
)
    requires
        0 <= lo < hi <= 27,
    ensures
        text::holds_text(
            tool_item(function, name, description, signature, output),
            text::first_parts(
                item_parts(function, name, description, signature, output).subrange(lo, hi),
                hi - lo,
            ),
        ),
{
    let parts = item_parts(function, name, description, signature, output);
    reveal_with_fuel(text::first_parts, 27);
    assert(text::first_parts(parts, 27) == tool_item(
        function,
        name,
        description,
        signature,
        output,
    ));
    text::a_run_of_parts_stands(parts, lo, hi, 27);
}

/// The last context among the parameters.
pub open spec fn last_context(inputs: Seq<FnInputView>) -> Option<BindingView>
    decreases inputs.len(),
{
    if inputs.len() == 0 {
        None
    } else {
        match inputs.last() {
            FnInputView::Typed { pat, ty } => match arguments::context_argument(ty) {
                Some(ctx) => Some(BindingView { pat, ty: ctx }),
                None => last_context(inputs.drop_last()),
            },
            FnInputView::Receiver => last_context(inputs.drop_last()),
        }
    }
}

/// The last parameter that is no context.
pub open spec fn last_argument(inputs: Seq<FnInputView>) -> Option<BindingView>
    decreases inputs.len(),
{
    if inputs.len() == 0 {
        None
    } else {
        match inputs.last() {
            FnInputView::Typed { pat, ty } => match arguments::context_argument(ty) {
                Some(_) => last_argument(inputs.drop_last()),
                None => Some(BindingView { pat, ty: ty.text }),
            },
            FnInputView::Receiver => last_argument(inputs.drop_last()),
        }
    }
}

/// Every parameter finds its role, and a function that takes `self` is no tool.
pub proof fn parameters_find_their_roles(inputs: Seq<FnInputView>)
    ensures
        signature_of(inputs) is Err <==> exists|i: int|
            0 <= i < inputs.len() && #[trigger] inputs[i] is Receiver,
        signature_of(inputs) matches Ok(signature) ==> signature.cx == last_context(inputs)
            && signature.params == last_argument(inputs),
    decreases inputs.len(),
{
    if inputs.len() > 0 {
        let shorter = inputs.drop_last();
        parameters_find_their_roles(shorter);
        if signature_of(shorter) is Err {
            let i = choose|i: int| 0 <= i < shorter.len() && #[trigger] shorter[i] is Receiver;
            assert(inputs[i] is Receiver);
        } else {
            assert forall|i: int| 0 <= i < inputs.len() - 1 implies !(#[trigger] inputs[i]
                is Receiver) by {
                assert(!(shorter[i] is Receiver));
            }
            if inputs.last() is Receiver {
                assert(inputs[inputs.len() - 1] is Receiver);
            }
        }
    }
}

/// A function becomes a tool where it takes no `self` and returns a `Result`. The
/// tool has the name and the description that the attribute or the function give it,
/// takes the arguments and the context that the function takes, returns what the
/// function returns on success, and runs the function's body.
pub proof fn a_tool_does_what_its_function_does(
    function: FnSyntaxView,
    args: ToolArgsView,
)
    ensures
        expanded(function, args) is Ok <==> signature_of(function.inputs) is Ok && (
        function.output matches Some(ty) && arguments::argument_of(ty, "Result"@) is Some),
        expanded(function, args) matches Ok(code) ==> {
            let ty = arguments::argument_of(function.output->0, "Result"@)->0;
            &&& text::holds_text(
                code,
                "; fn name(&self) -> &'static str { "@ + syntax::string_literal(
                    tool_name(function, args),
                ) + " } fn description(&self) -> &'static str { "@,
            )
            &&& text::holds_text(
                code,
                " } fn description(&self) -> &'static str { "@ + syntax::string_literal(
                    tool_description(function, args),
                ) + " } fn run<'a>(&'a self, "@,
            )
            &&& text::holds_text(
                code,
                "; type Output = "@ + ty + "; fn name(&self) -> &'static str { "@,
            )
            &&& text::holds_text(code, function.block + ") } }"@)
            &&& last_argument(function.inputs) matches Some(argument) ==> text::holds_text(
                code,
                " { type Args = "@ + argument.ty + "; type Output = "@,
            )
            &&& last_argument(function.inputs) is None ==> text::holds_text(
                code,
                " { type Args = "@ + "()"@ + "; type Output = "@,
            )
            &&& last_context(function.inputs) matches Some(context) ==> text::holds_text(
                code,
                " ::stakit_ai_sdk::Tool<"@ + context.ty + "> for "@ + function.name,
            )
            &&& last_context(function.inputs) is None ==> text::holds_text(
                code,
                " ::stakit_ai_sdk::Tool<"@ + "Ctx"@ + "> for "@ + function.name,
            )
            &&& text::holds_text(
                code,
                " } fn run<'a>(&'a self, "@ + (match last_context(function.inputs) {
                    Some(context) => context.pat,
                    None => "_cx"@,
                }) + ": &'a ::stakit_ai_sdk::ToolCx<"@ + (match last_context(function.inputs) {
                    Some(context) => context.ty,
                    None => "Ctx"@,
                }) + ">, "@ + (match last_argument(function.inputs) {
                    Some(argument) => argument.pat,
                    None => "_args"@,
                }),
            )
        },
{
    parameters_find_their_roles(function.inputs);
    if expanded(function, args) is Ok {
        let ty = arguments::argument_of(function.output->0, "Result"@)->0;
        let signature = signature_of(function.inputs)->Ok_0;
        let name = tool_name(function, args);
        let description = tool_description(function, args);
        reveal_with_fuel(text::first_parts, 6);
        lemma_item_holds(function, name, description, signature, ty, 6, 10);
        lemma_item_holds(function, name, description, signature, ty, 10, 13);
        lemma_item_holds(function, name, description, signature, ty, 12, 15);
        lemma_item_holds(function, name, description, signature, ty, 14, 17);
        lemma_item_holds(function, name, description, signature, ty, 16, 19);
        lemma_item_holds(function, name, description, signature, ty, 18, 24);
        lemma_item_holds(function, name, description, signature, ty, 25, 27);
    }
}

/// The value of the last item of this name.
pub open spec fn last_set(metas: Seq<RuleSyntaxView>, name: Seq<char>) -> Option<Seq<char>>
    decreases metas.len(),
{
    if metas.len() == 0 {
        None
    } else if metas.last().name == Some(name) {
        match metas.last().arg {
            RuleArgView::Value { literal, .. } => literal,
            _ => None,
        }
    } else {
        last_set(metas.drop_last(), name)
    }
}

/// An item that the attribute may hold.
pub open spec fn is_setting(meta: RuleSyntaxView) -> bool {
    &&& meta.name == Some("name"@) || meta.name == Some("description"@)
    &&& meta.arg matches RuleArgView::Value { literal, .. } && literal is Some
}

/// The attribute sets the name and the description, each by the last item of that
/// name; any other item makes it bad.
pub proof fn the_attribute_sets_by_name(metas: Seq<RuleSyntaxView>)
    ensures
        args_of(metas) is Ok <==> forall|i: int|
            0 <= i < metas.len() ==> is_setting(#[trigger] metas[i]),
        args_of(metas) matches Ok(args) ==> args.name == last_set(metas, "name"@)
            && args.description == last_set(metas, "description"@),
    decreases metas.len(),
{
    assert("name"@ != "description"@) by {
        reveal_strlit("name");
        reveal_strlit("description");
        assert("name"@.len() == 4);
        assert("description"@.len() == 11);
    }
    if metas.len() > 0 {
        let shorter = metas.drop_last();
        the_attribute_sets_by_name(shorter);
        if forall|i: int| 0 <= i < metas.len() ==> is_setting(#[trigger] metas[i]) {
            assert forall|i: int| 0 <= i < shorter.len() implies is_setting(
                #[trigger] shorter[i],
            ) by {
                assert(is_setting(metas[i]));
            }
            assert(is_setting(metas[metas.len() - 1]));
        }
        if args_of(metas) is Ok {
            assert forall|i: int| 0 <= i < metas.len() implies is_setting(#[trigger] metas[i]) by {
                if i < shorter.len() {
                    assert(is_setting(shorter[i]));
                }
            }
        }
    }
}

/// A line of a doc comment.
pub open spec fn is_doc(attr: AttrSyntaxView) -> bool {
    attr.name == Some("doc"@) && (attr.arg matches AttrArgView::Value(line) && line is Some)
}

/// The doc comment is the lines of the doc attributes, in order, each without the
/// white space around it, with a newline between each two; where nothing is left of
/// that there is none.
pub proof fn a_doc_comment_is_its_lines(attrs: Seq<AttrSyntaxView>)
    ensures
        doc_lines(attrs) == attrs.filter(|a: AttrSyntaxView| is_doc(a)).map_values(
            |a: AttrSyntaxView| text::trimmed(a.arg->Value_0->0),
        ),
        doc_of(attrs) matches Some(doc) ==> doc.len() > 0 && doc == text::trimmed(
            text::joined(doc_lines(attrs), "\n"@),
        ),
        doc_of(attrs) is None ==> text::trimmed(text::joined(doc_lines(attrs), "\n"@)).len() == 0,
    decreases attrs.len(),
{
    reveal(Seq::filter);
    if attrs.len() > 0 {
        a_doc_comment_is_its_lines(attrs.drop_last());
    }
    assert(doc_lines(attrs) =~= attrs.filter(|a: AttrSyntaxView| is_doc(a)).map_values(
        |a: AttrSyntaxView| text::trimmed(a.arg->Value_0->0),
    ));
}

/// A tool without a description of its own is described by the doc comment.
pub proof fn a_tool_is_described_by_its_doc_comment(function: FnSyntaxView, args: ToolArgsView)
    requires
        args.description is None,
    ensures
        doc_of(function.attrs) matches Some(doc) ==> tool_description(function, args) == doc,
{
}

} // verus!
