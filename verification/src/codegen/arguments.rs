//! The generic arguments that types carry.

use crate::codegen::syntax::{
    SegmentSyntax, SegmentSyntaxView, TypeArg, TypeArgView, TypeForm, TypeFormView, TypeSyntax,
    TypeSyntaxView,
};
use crate::views;
use vstd::prelude::*;

verus! {

/// The first argument that is a type.
pub open spec fn first_type(args: Seq<TypeArgView>) -> Option<Seq<char>>
    decreases args.len(),
{
    if args.len() == 0 {
        None
    } else {
        match args[0] {
            TypeArgView::Type(ty) => Some(ty),
            TypeArgView::Other => first_type(args.drop_first()),
        }
    }
}

/// The first type argument of a segment with this name.
pub open spec fn argument_in(segment: SegmentSyntaxView, wanted: Seq<char>) -> Option<Seq<char>> {
    if segment.ident == wanted {
        match segment.args {
            Some(args) => first_type(args),
            None => None,
        }
    } else {
        None
    }
}

/// The first type argument of a path's last segment, where that has this name.
pub open spec fn argument_at_end(
    segments: Seq<SegmentSyntaxView>,
    wanted: Seq<char>,
) -> Option<Seq<char>> {
    if segments.len() > 0 {
        argument_in(segments.last(), wanted)
    } else {
        None
    }
}

/// The `T` of a type `wanted<T>`, whatever the path before it.
pub open spec fn argument_of(ty: TypeSyntaxView, wanted: Seq<char>) -> Option<Seq<char>> {
    match ty.form {
        TypeFormView::Path(segments) => argument_at_end(segments, wanted),
        _ => None,
    }
}

/// The `T` of a type `Option<T>`.
pub open spec fn option_argument(ty: TypeSyntaxView) -> Option<Seq<char>> {
    argument_of(ty, "Option"@)
}

/// The `Ctx` of a type `&ToolCx<Ctx>`.
pub open spec fn context_argument(ty: TypeSyntaxView) -> Option<Seq<char>> {
    match ty.form {
        TypeFormView::Reference(segments) => argument_at_end(segments, "ToolCx"@),
        _ => None,
    }
}

/// The first type argument of a segment, where it has the name `wanted`.
pub fn segment_argument(segment: &SegmentSyntax, wanted: &str) -> (argument: Option<String>)
    ensures
        views::optional(argument) == argument_in(segment@, wanted@),
{
    if *segment.ident.as_str() != *wanted {
        return None;
    }
    let args = match &segment.args {
        Some(args) => args,
        None => {
            return None;
        },
    };
    let ghost all = views::each(args@);
    let mut i: usize = 0;
    assert(all.skip(0) =~= all);
    while i < args.len()
        invariant
            i <= args@.len(),
            all == views::each(args@),
            segment@.ident == wanted@,
            segment@.args == Some(all),
            first_type(all.skip(i as int)) == first_type(all),
        decreases args@.len() - i,
    {
        assert(all.skip(i as int)[0] == args@[i as int]@);
        assert(all.skip(i as int).drop_first() =~= all.skip(i + 1));
        match &args[i] {
            TypeArg::Type(ty) => {
                return Some(ty.clone());
            },
            TypeArg::Other => {},
        }
        i = i + 1;
    }
    assert(all.skip(i as int).len() == 0);
    None
}

fn last_argument(segments: &Vec<SegmentSyntax>, wanted: &str) -> (argument: Option<String>)
    ensures
        views::optional(argument) == argument_at_end(views::each(segments@), wanted@),
{
    if segments.len() == 0 {
        return None;
    }
    let last: usize = segments.len() - 1;
    assert(views::each(segments@).last() == segments@[last as int]@);
    segment_argument(&segments[last], wanted)
}

fn type_argument(ty: &TypeSyntax, wanted: &str) -> (argument: Option<String>)
    ensures
        views::optional(argument) == argument_of(ty@, wanted@),
{
    match &ty.form {
        TypeForm::Path(segments) => last_argument(segments, wanted),
        _ => None,
    }
}

/// The `T` of a type `Option<T>`.
pub fn option_inner(ty: &TypeSyntax) -> (inner: Option<String>)
    ensures
        views::optional(inner) == option_argument(ty@),
{
    type_argument(ty, "Option")
}

/// The `Output` of a return type `Result<Output, _>`.
pub fn result_output(output: &Option<TypeSyntax>) -> (inner: Option<String>)
    ensures
        views::optional(inner) == (match views::optional(*output) {
            Some(ty) => argument_of(ty, "Result"@),
            None => None,
        }),
{
    match output {
        Some(ty) => type_argument(ty, "Result"),
        None => None,
    }
}

/// The `Ctx` of a type `&ToolCx<Ctx>`.
pub fn cx_ctx_type(ty: &TypeSyntax) -> (ctx: Option<String>)
    ensures
        views::optional(ctx) == context_argument(ty@),
{
    match &ty.form {
        TypeForm::Reference(segments) => last_argument(segments, "ToolCx"),
        _ => None,
    }
}



proof fn lemma_first_type(args: Seq<TypeArgView>, i: int)
    requires
        0 <= i < args.len(),
        forall|j: int| 0 <= j < i ==> #[trigger] args[j] is Other,
        args[i] is Type,
    ensures
        first_type(args) == Some(args[i]->Type_0),
    decreases i,
{
    if i > 0 {
        assert(args[0] is Other);
        lemma_first_type(args.drop_first(), i - 1);
    }
}

proof fn lemma_no_type(args: Seq<TypeArgView>)
    requires
        forall|j: int| 0 <= j < args.len() ==> #[trigger] args[j] is Other,
    ensures
        first_type(args) is None,
    decreases args.len(),
{
    if args.len() > 0 {
        assert(args[0] is Other);
        lemma_no_type(args.drop_first());
    }
}

/// The path ends in this name, with this as its first type argument.
pub open spec fn wraps(
    segments: Seq<SegmentSyntaxView>,
    name: Seq<char>,
    inner: Seq<char>,
) -> bool {
    &&& segments.len() > 0
    &&& segments.last().ident == name
    &&& segments.last().args matches Some(args)
    &&& exists|i: int|
        {
            &&& 0 <= i < args.len()
            &&& #[trigger] args[i] == TypeArgView::Type(inner)
            &&& forall|j: int| 0 <= j < i ==> #[trigger] args[j] is Other
        }
}

proof fn lemma_wraps(segments: Seq<SegmentSyntaxView>, name: Seq<char>, inner: Seq<char>)
    ensures
        wraps(segments, name, inner) ==> argument_at_end(segments, name) == Some(inner),
        segments.len() > 0 && segments.last().ident != name ==> argument_at_end(segments, name)
            is None,
{
    if wraps(segments, name, inner) {
        let args = segments.last().args->0;
        let i = choose|i: int|
            {
                &&& 0 <= i < args.len()
                &&& #[trigger] args[i] == TypeArgView::Type(inner)
                &&& forall|j: int| 0 <= j < i ==> #[trigger] args[j] is Other
            };
        lemma_first_type(args, i);
    }
}

/// A field is optional exactly by an `Option` at the end of its type's path, and then
/// its inner type is the first type argument there; a parameter is the context by a
/// reference to a `ToolCx`. The path before the name does not matter, and no other
/// type counts.
pub proof fn a_wrapper_is_known_by_its_name(
    ty: TypeSyntaxView,
    segments: Seq<SegmentSyntaxView>,
    inner: Seq<char>,
)
    ensures
        ty.form == TypeFormView::Path(segments) && wraps(segments, "Option"@, inner)
            ==> option_argument(ty) == Some(inner),
        ty.form == TypeFormView::Path(segments) && segments.len() > 0 && segments.last().ident
            != "Option"@ ==> option_argument(ty) is None,
        !(ty.form is Path) ==> option_argument(ty) is None,
        ty.form == TypeFormView::Reference(segments) && wraps(segments, "ToolCx"@, inner)
            ==> context_argument(ty) == Some(inner),
        ty.form == TypeFormView::Reference(segments) && segments.len() > 0 && segments.last().ident
            != "ToolCx"@ ==> context_argument(ty) is None,
        !(ty.form is Reference) ==> context_argument(ty) is None,
        ty.form == TypeFormView::Path(segments) && wraps(segments, "Result"@, inner)
            ==> argument_of(ty, "Result"@) == Some(inner),
{
    lemma_wraps(segments, "Option"@, inner);
    lemma_wraps(segments, "ToolCx"@, inner);
    lemma_wraps(segments, "Result"@, inner);
}

/// A name without type arguments wraps nothing.
pub proof fn a_name_without_types_wraps_nothing(segments: Seq<SegmentSyntaxView>, name: Seq<char>)
    requires
        segments.len() > 0 ==> (segments.last().args matches Some(args) ==> forall|j: int|
            0 <= j < args.len() ==> #[trigger] args[j] is Other),
    ensures
        argument_at_end(segments, name) is None,
{
    if segments.len() > 0 {
        if let Some(args) = segments.last().args {
            lemma_no_type(args);
        }
    }
}

} // verus!
