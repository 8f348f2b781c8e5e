//! From the rows that the database gives to the rows of an answer.

use crate::convert::RawValue;
use crate::convert::convert_row_val_to_serde;
use crate::convert::converted;
use crate::value::PostcardValue;
use crate::value::Tree;
use crate::value::lemma_view_object;
use crate::value::named_trees;
use crate::value::trees;
use vstd::prelude::*;

verus! {

/// What was read from one column of one row.
#[derive(Debug, PartialEq, Eq)]
pub struct RawColumn {
    pub name: String,
    /// The name of the column's type.
    pub column_type: String,
    pub value: RawValue,
}

/// The fields that the columns of a row give, in the columns' order.
pub open spec fn row_fields(row: Seq<RawColumn>) -> Seq<(Seq<char>, Tree)> {
    Seq::new(row.len(), |i: int| (row[i].name@, converted(row[i].column_type@, row[i].value)))
}

/// The object that a row gives.
pub open spec fn row_tree(row: Seq<RawColumn>) -> Tree {
    Tree::Object(row_fields(row))
}

/// The objects that the rows give, in the rows' order.
pub open spec fn row_trees(rows: Seq<Vec<RawColumn>>) -> Seq<Tree> {
    Seq::new(rows.len(), |i: int| row_tree(rows[i]@))
}

/// Converts a row, column by column, into an object whose fields follow the
/// order of the columns.
pub fn convert_row(row: &Vec<RawColumn>) -> (object: PostcardValue)
    ensures
        object@ == row_tree(row@),
{
    let mut fields: Vec<(String, PostcardValue)> = Vec::new();
    let mut i: usize = 0;
    while i < row.len()
        invariant
            i <= row.len(),
            fields@.len() == i,
            forall|j: int|
                0 <= j < i ==> (#[trigger] fields@[j]).0@ == row@[j].name@ && fields@[j].1@
                    == converted(row@[j].column_type@, row@[j].value),
        decreases row.len() - i,
    {
        let column = &row[i];
        let value = convert_row_val_to_serde(column.column_type.as_str(), &column.value);
        fields.push((column.name.clone(), value));
        i += 1;
    }
    proof {
        lemma_view_object(fields);
        assert(named_trees(fields@) =~= row_fields(row@));
    }
    PostcardValue::Object(fields)
}

/// Converts the rows, in their order.
pub fn convert_rows(rows: &Vec<Vec<RawColumn>>) -> (objects: Vec<PostcardValue>)
    ensures
        trees(objects@) == row_trees(rows@),
{
    let mut objects: Vec<PostcardValue> = Vec::new();
    let mut i: usize = 0;
    while i < rows.len()
        invariant
            i <= rows.len(),
            objects@.len() == i,
            forall|j: int| 0 <= j < i ==> (#[trigger] objects@[j])@ == row_tree(rows@[j]@),
        decreases rows.len() - i,
    {
        objects.push(convert_row(&rows[i]));
        i += 1;
    }
    objects
}

} // verus!
