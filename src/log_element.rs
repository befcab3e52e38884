//! A record of one reclustering run, and how it is laid out as a row of the
//! clustering history log.
use vstd::prelude::*;

verus! {

/// Column types of the log table.
#[derive(PartialEq, Eq, Structural)]
pub enum SchemaDataType {
    Timestamp,
    String,
    UInt64,
}

/// A named, typed column.
pub struct DataField {
    pub name: String,
    pub data_type: SchemaDataType,
}

/// One cell value.
pub enum Scalar {
    Timestamp(i64),
    String(String),
    UInt64(u64),
}

/// The values gathered so far for one column.
pub struct ColumnBuilder {
    pub values: Vec<Scalar>,
}

impl ColumnBuilder {
    pub fn new() -> (r: Self)
        ensures
            r.values@ == Seq::<Scalar>::empty(),
    {
        ColumnBuilder { values: Vec::new() }
    }

    pub fn push(&mut self, v: Scalar)
        ensures
            final(self).values@ == old(self).values@.push(v),
    {
        self.values.push(v);
    }
}

#[derive(Clone)]
pub struct ClusteringHistoryLogElement {
    pub start_time: i64,
    pub end_time: i64,
    pub database: String,
    pub table: String,
    pub reclustered_bytes: u64,
    pub reclustered_rows: u64,
}

/// Name of the log table.
pub const TABLE_NAME: &'static str = "clustering_history";

/// Number of columns of the log table.
pub const NUM_COLUMNS: usize = 6;

pub open spec fn field_is(f: DataField, name: &str, t: SchemaDataType) -> bool {
    f.name@ == name@ && f.data_type == t
}

fn field(name: &str, data_type: SchemaDataType) -> (r: DataField)
    ensures
        r.name@ == name@,
        r.data_type == data_type,
{
    DataField { name: name.to_owned(), data_type }
}

impl ClusteringHistoryLogElement {
    /// The columns of the log table, in order.
    pub fn schema() -> (r: Vec<DataField>)
        ensures
            r@.len() == NUM_COLUMNS,
            field_is(r@[0], "start_time", SchemaDataType::Timestamp),
            field_is(r@[1], "end_time", SchemaDataType::Timestamp),
            field_is(r@[2], "database", SchemaDataType::String),
            field_is(r@[3], "table", SchemaDataType::String),
            field_is(r@[4], "reclustered_bytes", SchemaDataType::UInt64),
            field_is(r@[5], "reclustered_rows", SchemaDataType::UInt64),
    {
        let mut r: Vec<DataField> = Vec::new();
        r.push(field("start_time", SchemaDataType::Timestamp));
        r.push(field("end_time", SchemaDataType::Timestamp));
        r.push(field("database", SchemaDataType::String));
        r.push(field("table", SchemaDataType::String));
        r.push(field("reclustered_bytes", SchemaDataType::UInt64));
        r.push(field("reclustered_rows", SchemaDataType::UInt64));
        r
    }

    /// The cell this record puts into column `i` of the table.
    pub open spec fn cell(&self, i: int) -> Scalar {
        if i == 0 {
            Scalar::Timestamp(self.start_time)
        } else if i == 1 {
            Scalar::Timestamp(self.end_time)
        } else if i == 2 {
            Scalar::String(self.database)
        } else if i == 3 {
            Scalar::String(self.table)
        } else if i == 4 {
            Scalar::UInt64(self.reclustered_bytes)
        } else {
            Scalar::UInt64(self.reclustered_rows)
        }
    }

    /// Appends this record as one row: one value to each of the first six columns.
    pub fn fill_to_data_block(&self, columns: &mut Vec<ColumnBuilder>)
        requires
            old(columns)@.len() >= NUM_COLUMNS,
        ensures
            final(columns)@.len() == old(columns)@.len(),
            forall|i: int|
                0 <= i < NUM_COLUMNS ==> (#[trigger] final(columns)@[i]).values@
                    == old(columns)@[i].values@.push(self.cell(i)),
            forall|i: int|
                NUM_COLUMNS <= i < final(columns)@.len() ==> #[trigger] final(columns)@[i] == old(columns)@[i],
    {
        columns[0].push(Scalar::Timestamp(self.start_time));
        columns[1].push(Scalar::Timestamp(self.end_time));
        columns[2].push(Scalar::String(self.database.clone()));
        columns[3].push(Scalar::String(self.table.clone()));
        columns[4].push(Scalar::UInt64(self.reclustered_bytes));
        columns[5].push(Scalar::UInt64(self.reclustered_rows));
    }
}

} // verus!
