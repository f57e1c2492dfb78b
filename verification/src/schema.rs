//! The schema model: the ordered tree of typed fields a file conforms to,
//! held as its preorder node list and compared only by exact structural
//! equality (no coercion, no reordering, no widening).

use vstd::prelude::*;

verus! {

/// One node of the schema tree, in preorder.  `name` and `depth` place the
/// node in the tree; the remaining components carry everything the node's
/// type says: its repetition, its deprecated converted-type annotation, a
/// canonical byte encoding of its modern logical-type annotation (empty when
/// none), its optional field id, and — for a primitive node — its physical
/// type with length, precision and scale (all zero for a group).  Two nodes
/// are the same node exactly when every component is equal.
pub struct SchemaField {
    pub name: Vec<u8>,
    pub depth: u64,
    pub is_group: bool,
    pub repetition: u64,
    pub converted: u64,
    pub logical: Vec<u8>,
    pub has_field_id: bool,
    pub field_id: i64,
    pub physical: u64,
    pub type_length: i64,
    pub precision: i64,
    pub scale: i64,
}

/// The mathematical value of a [`SchemaField`].
pub struct SpecSchemaField {
    pub name: Seq<u8>,
    pub depth: u64,
    pub is_group: bool,
    pub repetition: u64,
    pub converted: u64,
    pub logical: Seq<u8>,
    pub has_field_id: bool,
    pub field_id: i64,
    pub physical: u64,
    pub type_length: i64,
    pub precision: i64,
    pub scale: i64,
}

impl View for SchemaField {
    type V = SpecSchemaField;

    open spec fn view(&self) -> SpecSchemaField {
        SpecSchemaField {
            name: self.name@,
            depth: self.depth,
            is_group: self.is_group,
            repetition: self.repetition,
            converted: self.converted,
            logical: self.logical@,
            has_field_id: self.has_field_id,
            field_id: self.field_id,
            physical: self.physical,
            type_length: self.type_length,
            precision: self.precision,
            scale: self.scale,
        }
    }
}

/// A schema descriptor: the ordered tree of typed fields a file conforms to,
/// as its preorder node list with depths — which determines the tree
/// exactly.  Immutable once built; the merge adopts exactly one descriptor
/// for the output, taken from the first input.
pub struct SchemaDescriptor {
    pub fields: Vec<SchemaField>,
}

impl View for SchemaDescriptor {
    type V = Seq<SpecSchemaField>;

    open spec fn view(&self) -> Seq<SpecSchemaField> {
        self.fields@.map_values(|f: SchemaField| f@)
    }
}

/// How many columns a schema has: one per primitive (leaf) node.
pub open spec fn column_count(fields: Seq<SpecSchemaField>) -> int
    decreases fields.len(),
{
    if fields.len() == 0 {
        0
    } else {
        column_count(fields.drop_last()) + if fields.last().is_group {
            0int
        } else {
            1int
        }
    }
}

/// Byte-for-byte equality of two byte vectors.
pub(crate) fn bytes_eq(a: &Vec<u8>, b: &Vec<u8>) -> (r: bool)
    ensures
        r == (a@ == b@),
{
    if a.len() != b.len() {
        return false;
    }
    let mut i: usize = 0;
    while i < a.len()
        invariant
            i <= a.len(),
            a.len() == b.len(),
            forall|k: int| 0 <= k < i ==> a@[k] == b@[k],
        decreases a.len() - i,
    {
        if a[i] != b[i] {
            return false;
        }
        i = i + 1;
    }
    proof {
        assert(a@ =~= b@);
    }
    true
}

/// A copy of a byte vector with the same contents.
pub(crate) fn copy_bytes(a: &Vec<u8>) -> (r: Vec<u8>)
    ensures
        r@ == a@,
{
    let mut r: Vec<u8> = Vec::with_capacity(a.len());
    let mut i: usize = 0;
    while i < a.len()
        invariant
            i <= a.len(),
            r@ =~= a@.take(i as int),
        decreases a.len() - i,
    {
        r.push(a[i]);
        i = i + 1;
    }
    proof {
        assert(r@ =~= a@);
    }
    r
}

fn field_eq(a: &SchemaField, b: &SchemaField) -> (r: bool)
    ensures
        r == (a@ == b@),
{
    let names_equal = bytes_eq(&a.name, &b.name);
    if !names_equal {
        return false;
    }
    let logicals_equal = bytes_eq(&a.logical, &b.logical);
    logicals_equal && a.depth == b.depth && a.is_group == b.is_group && a.repetition
        == b.repetition && a.converted == b.converted && a.has_field_id == b.has_field_id
        && a.field_id == b.field_id && a.physical == b.physical && a.type_length == b.type_length
        && a.precision == b.precision && a.scale == b.scale
}

fn copy_field(a: &SchemaField) -> (r: SchemaField)
    ensures
        r@ == a@,
{
    SchemaField {
        name: copy_bytes(&a.name),
        depth: a.depth,
        is_group: a.is_group,
        repetition: a.repetition,
        converted: a.converted,
        logical: copy_bytes(&a.logical),
        has_field_id: a.has_field_id,
        field_id: a.field_id,
        physical: a.physical,
        type_length: a.type_length,
        precision: a.precision,
        scale: a.scale,
    }
}

impl SchemaDescriptor {
    /// Exact structural equality of two schema descriptors: same number of
    /// nodes, and every node equal component by component, in preorder.
    pub fn matches(&self, other: &SchemaDescriptor) -> (r: bool)
        ensures
            r == (self@ == other@),
    {
        if self.fields.len() != other.fields.len() {
            proof {
                assert(self@.len() == self.fields@.len());
                assert(other@.len() == other.fields@.len());
            }
            return false;
        }
        let mut i: usize = 0;
        while i < self.fields.len()
            invariant
                i <= self.fields.len(),
                self.fields@.len() == other.fields@.len(),
                forall|k: int| 0 <= k < i ==> self@[k] == other@[k],
            decreases self.fields.len() - i,
        {
            if !field_eq(&self.fields[i], &other.fields[i]) {
                proof {
                    assert(self@[i as int] != other@[i as int]);
                }
                return false;
            }
            i = i + 1;
        }
        proof {
            assert(self@ =~= other@);
        }
        true
    }

    /// A copy of this descriptor with the same value.
    pub fn duplicate(&self) -> (r: SchemaDescriptor)
        ensures
            r@ == self@,
    {
        let mut fields: Vec<SchemaField> = Vec::with_capacity(self.fields.len());
        let mut i: usize = 0;
        while i < self.fields.len()
            invariant
                i <= self.fields.len(),
                fields@.len() == i,
                forall|k: int| 0 <= k < i ==> fields@[k]@ == self@[k],
            decreases self.fields.len() - i,
        {
            fields.push(copy_field(&self.fields[i]));
            i = i + 1;
        }
        let r = SchemaDescriptor { fields };
        proof {
            assert(r@ =~= self@);
        }
        r
    }

    /// How many columns this schema has: its primitive nodes, counted.
    pub fn num_columns(&self) -> (r: usize)
        ensures
            r == column_count(self@),
    {
        let mut count: usize = 0;
        let mut i: usize = 0;
        while i < self.fields.len()
            invariant
                i <= self.fields.len(),
                count <= i,
                count == column_count(self@.take(i as int)),
            decreases self.fields.len() - i,
        {
            proof {
                assert(self@.take(i + 1).drop_last() =~= self@.take(i as int));
                assert(self@.take(i + 1).last() == self@[i as int]);
            }
            if !self.fields[i].is_group {
                count = count + 1;
            }
            i = i + 1;
        }
        proof {
            assert(self@.take(self@.len() as int) =~= self@);
        }
        count
    }
}

} // verus!
