//! The generics of an implementation.

use crate::codegen::syntax::{ParamSyntax, ParamSyntaxView};
use crate::text;
use crate::text::join;
use crate::views;
use vstd::prelude::*;

verus! {

/// What stands between the bounds of a type and one more: where they end in a
/// `+` of their own, no other is written.
pub open spec fn bound_separator(bounds: Seq<char>) -> Seq<char> {
    if bounds.len() > 0 && bounds.last() == '+' {
        " "@
    } else {
        " + "@
    }
}

/// A generic parameter as it is declared, a type with one more bound.
pub open spec fn declared(param: ParamSyntaxView, bound: Option<Seq<char>>) -> Seq<char> {
    match param {
        ParamSyntaxView::Type { name, bounds } => match bound {
            Some(bound) => if bounds.len() == 0 {
                name + ": "@ + bound
            } else {
                name + ": "@ + bounds + bound_separator(bounds) + bound
            },
            None => if bounds.len() == 0 {
                name
            } else {
                name + ": "@ + bounds
            },
        },
        ParamSyntaxView::Lifetime { name, bounds } => if bounds.len() == 0 {
            name
        } else {
            name + ": "@ + bounds
        },
        ParamSyntaxView::Const { name, ty } => "const "@ + name + ": "@ + ty,
    }
}

/// The name of a generic parameter.
pub open spec fn param_name(param: ParamSyntaxView) -> Seq<char> {
    match param {
        ParamSyntaxView::Type { name, bounds } => name,
        ParamSyntaxView::Lifetime { name, bounds } => name,
        ParamSyntaxView::Const { name, ty } => name,
    }
}

/// Whether a generic parameter is a type.
pub open spec fn is_type_param(param: ParamSyntaxView) -> bool {
    param is Type
}

/// Items in angle brackets, or nothing where there are none.
pub open spec fn angled(items: Seq<Seq<char>>) -> Seq<char> {
    if items.len() == 0 {
        Seq::empty()
    } else {
        "<"@ + text::joined(items, ", "@) + ">"@
    }
}

/// The generics behind `impl`.
pub open spec fn impl_generics(
    params: Seq<ParamSyntaxView>,
    bound: Option<Seq<char>>,
) -> Seq<char> {
    angled(params.map_values(|p: ParamSyntaxView| declared(p, bound)))
}

/// The generics behind the type's name.
pub open spec fn type_generics(params: Seq<ParamSyntaxView>) -> Seq<char> {
    angled(params.map_values(|p: ParamSyntaxView| param_name(p)))
}

fn is_blank(s: &String) -> (blank: bool)
    ensures
        blank == (s@.len() == 0),
{
    s.as_str().unicode_len() == 0
}

fn separator_after(bounds: &String) -> (separator: &'static str)
    ensures
        separator@ == bound_separator(bounds@),
{
    let n: usize = bounds.as_str().unicode_len();
    if n > 0 && bounds.as_str().get_char(n - 1) == '+' {
        " "
    } else {
        " + "
    }
}

fn write_declared(param: &ParamSyntax, bound: Option<&str>) -> (code: String)
    ensures
        code@ == declared(param@, crate::json::text_option(bound)),
{
    match param {
        ParamSyntax::Type { name, bounds } => match bound {
            Some(bound) => if is_blank(bounds) {
                name.clone().concat(": ").concat(bound)
            } else {
                name.clone().concat(": ").concat(bounds.as_str()).concat(
                    separator_after(bounds),
                ).concat(bound)
            },
            None => if is_blank(bounds) {
                name.clone()
            } else {
                name.clone().concat(": ").concat(bounds.as_str())
            },
        },
        ParamSyntax::Lifetime { name, bounds } => if is_blank(bounds) {
            name.clone()
        } else {
            name.clone().concat(": ").concat(bounds.as_str())
        },
        ParamSyntax::Const { name, ty } => {
            "const ".to_owned().concat(name.as_str()).concat(": ").concat(ty.as_str())
        },
    }
}

fn write_param_name(param: &ParamSyntax) -> (code: String)
    ensures
        code@ == param_name(param@),
{
    match param {
        ParamSyntax::Type { name, bounds } => name.clone(),
        ParamSyntax::Lifetime { name, bounds } => name.clone(),
        ParamSyntax::Const { name, ty } => name.clone(),
    }
}

fn check_type_param(param: &ParamSyntax) -> (is_type: bool)
    ensures
        is_type == is_type_param(param@),
{
    match param {
        ParamSyntax::Type { name, bounds } => true,
        _ => false,
    }
}

fn write_angled(items: &Vec<String>) -> (code: String)
    ensures
        code@ == angled(views::each(items@)),
{
    if items.len() == 0 {
        String::new()
    } else {
        "<".to_owned().concat(join(items, ", ").as_str()).concat(">")
    }
}

/// Writes the generics behind `impl`.
pub fn write_impl_generics(params: &Vec<ParamSyntax>, bound: Option<&str>) -> (code: String)
    ensures
        code@ == impl_generics(views::each(params@), crate::json::text_option(bound)),
{
    let ghost extra = crate::json::text_option(bound);
    let mut items: Vec<String> = Vec::new();
    let mut i: usize = 0;
    while i < params.len()
        invariant
            i <= params@.len(),
            items@.len() == i,
            extra == crate::json::text_option(bound),
            forall|j: int| 0 <= j < i ==> (#[trigger] items@[j])@ == declared(params@[j]@, extra),
        decreases params@.len() - i,
    {
        items.push(write_declared(&params[i], bound));
        i = i + 1;
    }
    assert(views::each(items@) =~= views::each(params@).map_values(
        |p: ParamSyntaxView| declared(p, extra),
    ));
    write_angled(&items)
}

/// The names of the parameters.
fn param_names(items: &Vec<ParamSyntax>) -> (texts: Vec<String>)
    ensures
        views::each(texts@) == views::each(items@).map_values(|x: ParamSyntaxView| param_name(x)),
{
    let mut texts: Vec<String> = Vec::new();
    let mut i: usize = 0;
    while i < items.len()
        invariant
            i <= items@.len(),
            texts@.len() == i,
            forall|j: int| 0 <= j < i ==> (#[trigger] texts@[j])@ == param_name(items@[j]@),
        decreases items@.len() - i,
    {
        texts.push(write_param_name(&items[i]));
        i = i + 1;
    }
    assert(views::each(texts@) =~= views::each(items@).map_values(|x: ParamSyntaxView| param_name(x)));
    texts
}

/// Writes the generics behind the type's name.
pub fn write_type_generics(params: &Vec<ParamSyntax>) -> (code: String)
    ensures
        code@ == type_generics(views::each(params@)),
{
    let names = param_names(params);
    assert(views::each(params@).map_values(|p: ParamSyntaxView| param_name(p)) =~= views::each(
        params@,
    ).map_values(|x: ParamSyntaxView| param_name(x)));
    write_angled(&names)
}

/// The names of the type parameters, in order.
pub open spec fn type_param_names(items: Seq<ParamSyntaxView>) -> Seq<Seq<char>>
    decreases items.len(),
{
    if items.len() == 0 {
        Seq::empty()
    } else {
        let before = type_param_names(items.drop_last());
        if is_type_param(items.last()) {
            before.push(param_name(items.last()))
        } else {
            before
        }
    }
}

/// Lists the type parameters.
pub fn list_type_params(items: &Vec<ParamSyntax>) -> (texts: Vec<String>)
    ensures
        views::each(texts@) == type_param_names(views::each(items@)),
{
    let ghost all = views::each(items@);
    let mut texts: Vec<String> = Vec::new();
    let mut i: usize = 0;
    assert(views::each(texts@) =~= type_param_names(all.take(0)));
    while i < items.len()
        invariant
            i <= items@.len(),
            all == views::each(items@),
            views::each(texts@) == type_param_names(all.take(i as int)),
        decreases items@.len() - i,
    {
        assert(all.take(i + 1).drop_last() =~= all.take(i as int));
        assert(all.take(i + 1).last() == items@[i as int]@);
        if check_type_param(&items[i]) {
            let ghost before = views::each(texts@);
            let text = write_param_name(&items[i]);
            texts.push(text);
            assert(views::each(texts@) =~= before.push(text@));
        }
        i = i + 1;
    }
    assert(all.take(i as int) =~= all);
    texts
}

/// Every generic parameter is declared behind `impl` and named behind the type, in
/// order; a type parameter keeps its own bounds and takes the new one besides, and
/// nothing else is bound.
pub proof fn every_parameter_is_declared(
    params: Seq<ParamSyntaxView>,
    bound: Seq<char>,
    i: int,
)
    requires
        0 <= i < params.len(),
    ensures
        text::holds_text(impl_generics(params, Some(bound)), declared(params[i], Some(bound))),
        text::holds_text(impl_generics(params, None), declared(params[i], None)),
        text::holds_text(type_generics(params), param_name(params[i])),
        match params[i] {
            ParamSyntaxView::Type { name, bounds } => {
                &&& param_name(params[i]) == name
                &&& text::holds_text(declared(params[i], Some(bound)), name)
                &&& text::holds_text(declared(params[i], Some(bound)), bounds)
                &&& text::holds_text(declared(params[i], Some(bound)), bound)
                &&& text::holds_text(declared(params[i], None), name)
                &&& text::holds_text(declared(params[i], None), bounds)
            },
            ParamSyntaxView::Lifetime { name, bounds } => {
                &&& param_name(params[i]) == name
                &&& declared(params[i], Some(bound)) == declared(params[i], None)
                &&& text::holds_text(declared(params[i], None), name)
                &&& text::holds_text(declared(params[i], None), bounds)
            },
            ParamSyntaxView::Const { name, ty } => {
                &&& param_name(params[i]) == name
                &&& declared(params[i], Some(bound)) == "const "@ + name + ": "@ + ty
                &&& declared(params[i], None) == "const "@ + name + ": "@ + ty
            },
        },
{
    let none = Seq::<char>::empty();
    let bound_params = params.map_values(|p: ParamSyntaxView| declared(p, Some(bound)));
    let plain_params = params.map_values(|p: ParamSyntaxView| declared(p, None));
    let names = params.map_values(|p: ParamSyntaxView| param_name(p));
    lemma_angled_holds(bound_params, i);
    lemma_angled_holds(plain_params, i);
    lemma_angled_holds(names, i);
    match params[i] {
        ParamSyntaxView::Type { name, bounds } => {
            lemma_holds_itself(name);
            lemma_bounds_stand(name, bounds, bound_separator(bounds), bound);
            text::a_text_holds_its_parts(name + ": "@, bound, none);
            text::a_text_holds_its_parts(none, name, ": "@ + bound);
            assert(name + (": "@ + bound) =~= name + ": "@ + bound);
            text::a_text_holds_its_parts(name + ": "@, bounds, none);
            text::a_text_holds_its_parts(none, name, ": "@ + bounds);
            assert(name + (": "@ + bounds) =~= name + ": "@ + bounds);
            if bounds.len() == 0 {
                lemma_holds_nothing(declared(params[i], Some(bound)), bounds);
                lemma_holds_nothing(declared(params[i], None), bounds);
            }
        },
        ParamSyntaxView::Lifetime { name, bounds } => {
            lemma_holds_itself(name);
            text::a_text_holds_its_parts(name + ": "@, bounds, none);
            text::a_text_holds_its_parts(none, name, ": "@ + bounds);
            assert(name + (": "@ + bounds) =~= name + ": "@ + bounds);
            if bounds.len() == 0 {
                lemma_holds_nothing(declared(params[i], None), bounds);
            }
        },
        _ => {},
    }
}

proof fn lemma_holds_itself(text: Seq<char>)
    ensures
        text::holds_text(text, text),
{
    assert(text.subrange(0, text.len() as int) =~= text);
    assert(text::stands_at(text, text, 0));
}

proof fn lemma_holds_nothing(text: Seq<char>, nothing: Seq<char>)
    requires
        nothing.len() == 0,
    ensures
        text::holds_text(text, nothing),
{
    assert(text.subrange(0, 0) =~= nothing);
    assert(text::stands_at(text, nothing, 0));
}

proof fn lemma_bounds_stand(
    name: Seq<char>,
    bounds: Seq<char>,
    separator: Seq<char>,
    bound: Seq<char>,
)
    ensures
        text::holds_text(name + ": "@ + bounds + separator + bound, name),
        text::holds_text(name + ": "@ + bounds + separator + bound, bounds),
        text::holds_text(name + ": "@ + bounds + separator + bound, bound),
{
    let none = Seq::<char>::empty();
    let whole = name + ": "@ + bounds + separator + bound;
    text::a_text_holds_its_parts(none, name, ": "@ + bounds + separator + bound);
    assert(name + (": "@ + bounds + separator + bound) =~= whole);
    text::a_text_holds_its_parts(name + ": "@, bounds, separator + bound);
    assert(name + ": "@ + bounds + (separator + bound) =~= whole);
    text::a_text_holds_its_parts(name + ": "@ + bounds + separator, bound, none);
}

proof fn lemma_angled_holds(items: Seq<Seq<char>>, i: int)
    requires
        0 <= i < items.len(),
    ensures
        text::holds_text(angled(items), items[i]),
{
    text::a_joined_text_holds_every_part(items, ", "@, i);
    text::what_a_part_holds_the_text_holds("<"@, text::joined(items, ", "@), ">"@, items[i]);
}

/// The type parameters are listed by name, in order, and no other parameter.
pub proof fn the_type_parameters_are_listed(params: Seq<ParamSyntaxView>)
    ensures
        type_param_names(params) == params.filter(|p: ParamSyntaxView| p is Type).map_values(
            |p: ParamSyntaxView| p->Type_name,
        ),
    decreases params.len(),
{
    reveal(Seq::filter);
    if params.len() > 0 {
        the_type_parameters_are_listed(params.drop_last());
    }
    assert(type_param_names(params) =~= params.filter(|p: ParamSyntaxView| p is Type).map_values(
        |p: ParamSyntaxView| p->Type_name,
    ));
}

} // verus!
