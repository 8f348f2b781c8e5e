//! The generic tagged value: any column value, any row, any request
//! parameter.
//!
//! Contracts speak of a value through its content, a [`Tree`]: two values
//! with the same content are the same to every function of this crate.

use vstd::prelude::*;

verus! {

/// A tagged value that can hold any relational column value or a whole row.
///
/// `Float32` and `Float64` carry the IEEE 754 bit pattern of the number, so
/// that two values are equal exactly when they are the same bits.
/// The fields of an `Object` keep the order of the columns they came from;
/// names are not required to be distinct.
#[derive(Debug, PartialEq, Eq)]
pub enum PostcardValue {
    Object(Vec<(String, PostcardValue)>),
    Array(Vec<PostcardValue>),
    String(String),
    Integer8(i8),
    Integer16(i16),
    Integer32(i32),
    Integer64(i64),
    Float32(u32),
    Float64(u64),
    Bool(bool),
    Null,
}

/// The mathematical content of a [`PostcardValue`].
pub ghost enum Tree {
    Object(Seq<(Seq<char>, Tree)>),
    Array(Seq<Tree>),
    String(Seq<char>),
    Integer8(i8),
    Integer16(i16),
    Integer32(i32),
    Integer64(i64),
    Float32(u32),
    Float64(u64),
    Bool(bool),
    Null,
}

impl PostcardValue {
    /// The content of this value.
    pub open spec fn tree(&self) -> Tree
        decreases self,
    {
        match self {
            PostcardValue::Object(fields) => Tree::Object(
                Seq::new(
                    fields@.len(),
                    |i: int|
                        if 0 <= i < fields@.len() {
                            (fields@[i].0@, fields@[i].1.tree())
                        } else {
                            (Seq::empty(), Tree::Null)
                        },
                ),
            ),
            PostcardValue::Array(items) => Tree::Array(
                Seq::new(
                    items@.len(),
                    |i: int|
                        if 0 <= i < items@.len() {
                            items@[i].tree()
                        } else {
                            Tree::Null
                        },
                ),
            ),
            PostcardValue::String(s) => Tree::String(s@),
            PostcardValue::Integer8(x) => Tree::Integer8(*x),
            PostcardValue::Integer16(x) => Tree::Integer16(*x),
            PostcardValue::Integer32(x) => Tree::Integer32(*x),
            PostcardValue::Integer64(x) => Tree::Integer64(*x),
            PostcardValue::Float32(bits) => Tree::Float32(*bits),
            PostcardValue::Float64(bits) => Tree::Float64(*bits),
            PostcardValue::Bool(b) => Tree::Bool(*b),
            PostcardValue::Null => Tree::Null,
        }
    }
}

impl View for PostcardValue {
    type V = Tree;

    open spec fn view(&self) -> Tree {
        self.tree()
    }
}

/// The contents of a vector of values, element by element.
pub open spec fn trees(items: Seq<PostcardValue>) -> Seq<Tree> {
    Seq::new(items.len(), |i: int| items[i]@)
}

/// The contents of a vector of named values, element by element.
pub open spec fn named_trees(fields: Seq<(String, PostcardValue)>) -> Seq<(Seq<char>, Tree)> {
    Seq::new(fields.len(), |i: int| (fields[i].0@, fields[i].1@))
}

/// The view of an array is the views of its items.
pub proof fn lemma_view_array(items: Vec<PostcardValue>)
    ensures
        PostcardValue::Array(items)@ == Tree::Array(trees(items@)),
{
    assert(PostcardValue::Array(items)@->Array_0 =~= trees(items@));
}

/// The view of an object is the names and views of its fields.
pub proof fn lemma_view_object(fields: Vec<(String, PostcardValue)>)
    ensures
        PostcardValue::Object(fields)@ == Tree::Object(named_trees(fields@)),
{
    assert(PostcardValue::Object(fields)@->Object_0 =~= named_trees(fields@));
}

impl Clone for PostcardValue {
    /// A deep copy with the same content.
    #[verifier::loop_isolation(false)]
    fn clone(&self) -> (copy: Self)
        ensures
            copy@ == self@,
        decreases self,
    {
        match self {
            PostcardValue::Object(fields) => {
                let mut out: Vec<(String, PostcardValue)> = Vec::new();
                let mut i: usize = 0;
                while i < fields.len()
                    invariant
                        i <= fields.len(),
                        out@.len() == i,
                        forall|j: int|
                            0 <= j < i ==> (#[trigger] out@[j]).0@ == fields@[j].0@ && out@[j].1@
                                == fields@[j].1@,
                    decreases fields.len() - i,
                {
                    let name = fields[i].0.clone();
                    let value = fields[i].1.clone();
                    out.push((name, value));
                    i += 1;
                }
                proof {
                    lemma_view_object(out);
                    lemma_view_object(*fields);
                    assert(named_trees(out@) =~= named_trees(fields@));
                }
                PostcardValue::Object(out)
            },
            PostcardValue::Array(items) => {
                let mut out: Vec<PostcardValue> = Vec::new();
                let mut i: usize = 0;
                while i < items.len()
                    invariant
                        i <= items.len(),
                        out@.len() == i,
                        forall|j: int| 0 <= j < i ==> (#[trigger] out@[j])@ == items@[j]@,
                    decreases items.len() - i,
                {
                    let item = items[i].clone();
                    out.push(item);
                    i += 1;
                }
                proof {
                    lemma_view_array(out);
                    lemma_view_array(*items);
                    assert(trees(out@) =~= trees(items@));
                }
                PostcardValue::Array(out)
            },
            PostcardValue::String(s) => PostcardValue::String(s.clone()),
            PostcardValue::Integer8(x) => PostcardValue::Integer8(*x),
            PostcardValue::Integer16(x) => PostcardValue::Integer16(*x),
            PostcardValue::Integer32(x) => PostcardValue::Integer32(*x),
            PostcardValue::Integer64(x) => PostcardValue::Integer64(*x),
            PostcardValue::Float32(bits) => PostcardValue::Float32(*bits),
            PostcardValue::Float64(bits) => PostcardValue::Float64(*bits),
            PostcardValue::Bool(b) => PostcardValue::Bool(*b),
            PostcardValue::Null => PostcardValue::Null,
        }
    }
}

/// The content of the value that stands for a number which is known as an
/// integer, as a number in double precision, as both or as neither: the
/// integer where there is one, else the number in double precision, else
/// `Null`.
pub open spec fn number_tree(integer: Option<i64>, double_bits: Option<u64>) -> Tree {
    match integer {
        Some(x) => Tree::Integer64(x),
        None => match double_bits {
            Some(bits) => Tree::Float64(bits),
            None => Tree::Null,
        },
    }
}

impl PostcardValue {
    /// The value that stands for a number, given what the number is as an
    /// integer and what it is in double precision (as a bit pattern), each
    /// if it is that at all. The integer is preferred.
    pub fn from_number(integer: Option<i64>, double_bits: Option<u64>) -> (value: Self)
        ensures
            value@ == number_tree(integer, double_bits),
    {
        match integer {
            Some(x) => PostcardValue::Integer64(x),
            None => match double_bits {
                Some(bits) => PostcardValue::Float64(bits),
                None => PostcardValue::Null,
            },
        }
    }
}

} // verus!
