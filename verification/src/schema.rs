//! The schema of a data file.

use crate::arrow::{field_layout, layout, Column};
use arrow_schema::Field as ArrowField;
use vstd::prelude::*;

verus! {

/// How the values of a field are laid out in the file.
#[derive(Clone, Copy, Debug, PartialEq, Eq, Structural)]
pub enum DataType {
    /// Every value takes the same number of bits.
    FixedStride,
    Utf8,
    LargeUtf8,
    Binary,
    LargeBinary,
    /// One value of each child field.
    Struct,
    /// Keys into a dictionary of values.
    Dictionary,
    /// Lists of values of the one child field, with 32 bit positions.
    List,
    /// Lists of values of the one child field, with 64 bit positions.
    LargeList,
    /// Any other type; columns of it cannot be read.
    Other,
}

impl DataType {
    /// How the values of an Arrow field are laid out, where it is known whether they all take
    /// the same number of bits.
    pub fn of(field: &ArrowField, is_fixed_stride: bool) -> (data_type: DataType)
        ensures
            data_type == if is_fixed_stride {
                DataType::FixedStride
            } else {
                field_layout(*field)
            },
            data_type is FixedStride <==> is_fixed_stride,
    {
        if is_fixed_stride {
            DataType::FixedStride
        } else {
            layout(field)
        }
    }
}

/// The dictionary of a dictionary encoded field.
pub struct Dictionary {
    /// The values that the keys stand for, once they have been loaded.
    pub values: Option<Column>,
}

/// A field of a schema.
pub struct Field {
    pub id: i32,
    pub name: String,
    pub data_type: DataType,
    pub children: Vec<Field>,
    pub dictionary: Option<Dictionary>,
    /// The field as Arrow knows it.
    pub arrow: ArrowField,
}

impl Field {
    /// A field of the layout of its Arrow field, where it is known whether its values all take
    /// the same number of bits.
    pub fn new(
        id: i32,
        name: String,
        arrow: ArrowField,
        is_fixed_stride: bool,
        children: Vec<Field>,
        dictionary: Option<Dictionary>,
    ) -> (field: Field)
        ensures
            field.id == id,
            field.name == name,
            field.arrow == arrow,
            field.data_type == if is_fixed_stride {
                DataType::FixedStride
            } else {
                field_layout(arrow)
            },
            field.data_type is FixedStride <==> is_fixed_stride,
            field.children == children,
            field.dictionary == dictionary,
    {
        let data_type = DataType::of(&arrow, is_fixed_stride);
        Field { id, name, data_type, children, dictionary, arrow }
    }
}

/// The schema of a data file, or a projection of it.
pub struct Schema {
    pub fields: Vec<Field>,
}

/// The Arrow fields of fields.
pub open spec fn arrow_fields(fields: Seq<Field>) -> Seq<ArrowField> {
    fields.map_values(|field: Field| field.arrow)
}

/// The Arrow fields of fields.
pub fn to_arrow_fields(fields: &Vec<Field>) -> (arrow: Vec<ArrowField>)
    ensures
        arrow@ == arrow_fields(fields@),
{
    let mut arrow: Vec<ArrowField> = Vec::new();
    let mut i: usize = 0;
    while i < fields.len()
        invariant
            i <= fields@.len(),
            arrow@ == arrow_fields(fields@.take(i as int)),
        decreases fields@.len() - i,
    {
        arrow.push(fields[i].arrow.clone());
        i += 1;
        assert(arrow@ =~= arrow_fields(fields@.take(i as int)));
    }
    assert(fields@.take(i as int) =~= fields@);
    arrow
}

/// The ids of a field and of the fields below it.
pub open spec fn field_ids(field: Field) -> Set<i32>
    decreases field,
{
    ids(field.children@).insert(field.id)
}

/// The ids of fields and of the fields below them.
pub open spec fn ids(fields: Seq<Field>) -> Set<i32>
    decreases fields,
{
    if fields.len() == 0 {
        Set::empty()
    } else {
        ids(fields.drop_last()).union(field_ids(fields.last()))
    }
}

/// Whether an id is the greatest that the fields and the fields below them have.
pub open spec fn is_max_id(fields: Seq<Field>, id: i32) -> bool {
    ids(fields).contains(id) && forall|other: i32| ids(fields).contains(other) ==> other <= id
}

/// The greater of `least` and the greatest id of the fields and the fields below them.
fn max_id_from(fields: &Vec<Field>, least: i32) -> (id: i32)
    ensures
        id >= least,
        id == least || ids(fields@).contains(id),
        forall|other: i32| ids(fields@).contains(other) ==> other <= id,
    decreases fields,
{
    let mut id: i32 = least;
    let mut i: usize = 0;
    assert(fields@.take(0) =~= Seq::<Field>::empty());
    while i < fields.len()
        invariant
            i <= fields@.len(),
            id >= least,
            id == least || ids(fields@.take(i as int)).contains(id),
            forall|other: i32| ids(fields@.take(i as int)).contains(other) ==> other <= id,
        decreases fields@.len() - i,
    {
        let field = &fields[i];
        let from = if field.id > id {
            field.id
        } else {
            id
        };
        id = max_id_from(&field.children, from);
        i += 1;
        proof {
            let read = fields@.take(i as int);
            assert(read.drop_last() =~= fields@.take(i - 1));
            assert(read.last() == *field);
            assert(ids(read) == ids(fields@.take(i - 1)).union(field_ids(*field)));
            assert(field_ids(*field) == ids(field.children@).insert(field.id));
            assert forall|other: i32| ids(read).contains(other) implies other <= id by {
                assert(ids(fields@.take(i - 1)).contains(other) || field_ids(*field).contains(
                    other,
                ));
            }
        }
    }
    assert(fields@.take(i as int) =~= fields@);
    id
}

impl Schema {
    /// The greatest field id, the fields below the top ones included; `None` where the schema
    /// has no fields.
    pub fn max_field_id(&self) -> (id: Option<i32>)
        ensures
            id is None <==> self.fields@.len() == 0,
            id matches Some(max) ==> is_max_id(self.fields@, max),
    {
        if self.fields.len() == 0 {
            return None;
        }
        let id = max_id_from(&self.fields, i32::MIN);
        proof {
            let last = self.fields@.last();
            assert(field_ids(last).contains(last.id));
            assert(ids(self.fields@).contains(last.id));
        }
        Some(id)
    }
}

} // verus!
