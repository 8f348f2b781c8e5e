//! How the parameters of a request are handed to the database.

use crate::pipeline::request::ErrorView;
use crate::pipeline::request::QueryError;
use crate::value::PostcardValue;
use crate::value::Tree;
use crate::value::lemma_view_array;
use crate::value::trees;
use vstd::prelude::*;

verus! {

/// A parameter as it is handed to the database.
#[derive(Debug, PartialEq, Eq)]
pub enum Binding {
    Integer(i64),
    Text(String),
    Boolean(bool),
    Array(Vec<PostcardValue>),
    /// A number in single precision, as its bit pattern.
    Float32(u32),
    /// A number in double precision, as its bit pattern.
    Float64(u64),
}

/// The content of a [`Binding`].
pub ghost enum BindingView {
    Integer(i64),
    Text(Seq<char>),
    Boolean(bool),
    Array(Seq<Tree>),
    Float32(u32),
    Float64(u64),
}

impl View for Binding {
    type V = BindingView;

    open spec fn view(&self) -> BindingView {
        match self {
            Binding::Integer(x) => BindingView::Integer(*x),
            Binding::Text(text) => BindingView::Text(text@),
            Binding::Boolean(b) => BindingView::Boolean(*b),
            Binding::Array(items) => BindingView::Array(trees(items@)),
            Binding::Float32(bits) => BindingView::Float32(*bits),
            Binding::Float64(bits) => BindingView::Float64(*bits),
        }
    }
}

/// The contents of a list of bindings, in order.
pub open spec fn binding_views(bindings: Seq<Binding>) -> Seq<BindingView> {
    Seq::new(bindings.len(), |i: int| bindings[i]@)
}

/// The value as an integer, if it is one.
pub open spec fn as_integer(value: Tree) -> Option<i64> {
    match value {
        Tree::Integer8(x) => Some(x as i64),
        Tree::Integer16(x) => Some(x as i64),
        Tree::Integer32(x) => Some(x as i64),
        Tree::Integer64(x) => Some(x),
        _ => None,
    }
}

/// The value as a text, if it is one.
pub open spec fn as_text(value: Tree) -> Option<Seq<char>> {
    match value {
        Tree::String(text) => Some(text),
        _ => None,
    }
}

/// The value as a truth value, if it is one.
pub open spec fn as_boolean(value: Tree) -> Option<bool> {
    match value {
        Tree::Bool(b) => Some(b),
        _ => None,
    }
}

/// The value as an array, if it is one.
pub open spec fn as_array(value: Tree) -> Option<Seq<Tree>> {
    match value {
        Tree::Array(items) => Some(items),
        _ => None,
    }
}

/// The value as a floating-point number, if it is one.
pub open spec fn as_float(value: Tree) -> Option<BindingView> {
    match value {
        Tree::Float32(bits) => Some(BindingView::Float32(bits)),
        Tree::Float64(bits) => Some(BindingView::Float64(bits)),
        _ => None,
    }
}

/// How a parameter is bound: as the first of integer, text, truth value,
/// array and floating-point number that it is; not at all if it is none of
/// them.
pub open spec fn binding_of(value: Tree) -> Option<BindingView> {
    if as_integer(value) is Some {
        Some(BindingView::Integer(as_integer(value)->0))
    } else if as_text(value) is Some {
        Some(BindingView::Text(as_text(value)->0))
    } else if as_boolean(value) is Some {
        Some(BindingView::Boolean(as_boolean(value)->0))
    } else if as_array(value) is Some {
        Some(BindingView::Array(as_array(value)->0))
    } else {
        as_float(value)
    }
}

/// Every parameter can be bound.
pub open spec fn all_bindable(params: Seq<Tree>) -> bool {
    forall|i: int| 0 <= i < params.len() ==> binding_of(#[trigger] params[i]) is Some
}

/// How the parameters are bound, each at its position.
pub open spec fn bindings_of(params: Seq<Tree>) -> Seq<BindingView> {
    Seq::new(params.len(), |i: int| binding_of(params[i])->0)
}

/// Binds one parameter.
pub fn bind_parameter(value: &PostcardValue) -> (binding: Option<Binding>)
    ensures
        match binding_of(value@) {
            Some(view) => binding matches Some(b) && b@ == view,
            None => binding is None,
        },
{
    match value {
        PostcardValue::Integer8(x) => Some(Binding::Integer(*x as i64)),
        PostcardValue::Integer16(x) => Some(Binding::Integer(*x as i64)),
        PostcardValue::Integer32(x) => Some(Binding::Integer(*x as i64)),
        PostcardValue::Integer64(x) => Some(Binding::Integer(*x)),
        PostcardValue::String(text) => Some(Binding::Text(text.clone())),
        PostcardValue::Bool(b) => Some(Binding::Boolean(*b)),
        PostcardValue::Array(items) => {
            let mut copies: Vec<PostcardValue> = Vec::new();
            let mut i: usize = 0;
            while i < items.len()
                invariant
                    i <= items.len(),
                    copies@.len() == i,
                    forall|j: int| 0 <= j < i ==> (#[trigger] copies@[j])@ == items@[j]@,
                decreases items.len() - i,
            {
                copies.push(items[i].clone());
                i += 1;
            }
            proof {
                lemma_view_array(*items);
                assert(trees(copies@) =~= trees(items@));
            }
            Some(Binding::Array(copies))
        },
        PostcardValue::Float32(bits) => Some(Binding::Float32(*bits)),
        PostcardValue::Float64(bits) => Some(Binding::Float64(*bits)),
        PostcardValue::Object(fields) => None,
        PostcardValue::Null => None,
    }
}

/// Binds the parameters, each at its position. One parameter that cannot be
/// bound fails the request.
pub fn bind_parameters(params: &[PostcardValue]) -> (bound: Result<Vec<Binding>, QueryError>)
    ensures
        match bound {
            Ok(bindings) => all_bindable(trees(params@)) && binding_views(bindings@)
                == bindings_of(trees(params@)),
            Err(error) => !all_bindable(trees(params@)) && error@ == ErrorView::BadRequest,
        },
{
    let ghost all = trees(params@);
    let mut bindings: Vec<Binding> = Vec::new();
    let mut i: usize = 0;
    while i < params.len()
        invariant
            i <= params.len(),
            all == trees(params@),
            bindings@.len() == i,
            forall|j: int| 0 <= j < i ==> binding_of(#[trigger] all[j]) == Some(bindings@[j]@),
        decreases params.len() - i,
    {
        match bind_parameter(&params[i]) {
            Some(binding) => {
                bindings.push(binding);
            },
            None => {
                assert(binding_of(all[i as int]) is None);
                return Err(QueryError::BadRequest);
            },
        }
        i += 1;
    }
    Ok(bindings)
}

} // verus!
