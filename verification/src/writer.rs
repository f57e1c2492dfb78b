//! The output writer: a stateful accumulator bound to one schema and one
//! destination stream, modelled as an explicit state machine.  A column may
//! be appended only while a row group is open, a row group may be opened only
//! while none is, and closing the writer consumes it, so nothing can be
//! appended afterwards.  The write cursor (the length of `data`) only ever
//! advances.

use crate::meta::{ColumnChunk, ColumnChunkMeta, OutputFile, RowGroupMeta, SpecRowGroupMeta};
use crate::schema::SchemaDescriptor;
use vstd::prelude::*;

verus! {

/// The live states of an [`OutputWriter`]: between row groups, or with
/// exactly one row group open for appending.  The closed state needs no
/// variant, because closing consumes the writer.
#[derive(PartialEq, Eq, Structural)]
pub enum WriterState {
    Open,
    RowGroupOpen,
}

/// A writer for one merged output: the adopted schema, the payload bytes
/// written so far, the metadata of every closed row group in append order,
/// the running row total, and — while a row group is open — the relocated
/// column metadata collected for it, its row count, and where its first
/// payload byte lies.
pub struct OutputWriter {
    pub schema: SchemaDescriptor,
    pub data: Vec<u8>,
    pub row_groups: Vec<RowGroupMeta>,
    pub total_rows: u64,
    pub state: WriterState,
    pub open_columns: Vec<ColumnChunkMeta>,
    pub open_num_rows: u64,
    pub open_start: usize,
}

impl OutputWriter {
    /// Internal consistency: while a row group is open, its first byte lies
    /// at or before the write cursor.
    pub open spec fn inv(self) -> bool {
        self.state == WriterState::RowGroupOpen ==> self.open_start <= self.data@.len()
    }

    /// A fresh writer bound to `schema`, with nothing written.
    pub fn new(schema: SchemaDescriptor) -> (w: OutputWriter)
        ensures
            w.inv(),
            w.state == WriterState::Open,
            w.schema == schema,
            w.data@ == Seq::<u8>::empty(),
            w.row_groups@ == Seq::<RowGroupMeta>::empty(),
            w.total_rows == 0,
    {
        OutputWriter {
            schema,
            data: Vec::new(),
            row_groups: Vec::new(),
            total_rows: 0,
            state: WriterState::Open,
            open_columns: Vec::new(),
            open_num_rows: 0,
            open_start: 0,
        }
    }

    /// Open a new row group that will hold `num_rows` rows.  Everything
    /// already written stays as it is.
    pub fn begin_row_group(&mut self, num_rows: u64)
        requires
            old(self).inv(),
            old(self).state == WriterState::Open,
        ensures
            final(self).inv(),
            final(self).state == WriterState::RowGroupOpen,
            final(self).open_columns@ == Seq::<ColumnChunkMeta>::empty(),
            final(self).open_num_rows == num_rows,
            final(self).open_start == old(self).data@.len(),
            final(self).schema == old(self).schema,
            final(self).data == old(self).data,
            final(self).row_groups == old(self).row_groups,
            final(self).total_rows == old(self).total_rows,
    {
        self.state = WriterState::RowGroupOpen;
        self.open_columns = Vec::new();
        self.open_num_rows = num_rows;
        self.open_start = self.data.len();
    }

    /// Relocate one column chunk into the open row group: its payload bytes
    /// are appended to the output stream exactly as they are, and a fresh
    /// metadata record is collected whose offset is the cursor before the
    /// append and whose sizes, encoding and codec are the source chunk's,
    /// unchanged.
    pub fn append_column(&mut self, chunk: &ColumnChunk)
        requires
            old(self).inv(),
            old(self).state == WriterState::RowGroupOpen,
            old(self).data@.len() + chunk.data@.len() <= usize::MAX,
        ensures
            final(self).inv(),
            final(self).state == WriterState::RowGroupOpen,
            final(self).data@ == old(self).data@ + chunk.data@,
            final(self).open_columns@ == old(self).open_columns@.push(
                (ColumnChunkMeta {
                    offset: old(self).data@.len() as usize,
                    compressed_size: chunk.data@.len() as usize,
                    uncompressed_size: chunk.uncompressed_size,
                    encoding: chunk.encoding,
                    codec: chunk.codec,
                }),
            ),
            final(self).schema == old(self).schema,
            final(self).row_groups == old(self).row_groups,
            final(self).total_rows == old(self).total_rows,
            final(self).open_num_rows == old(self).open_num_rows,
            final(self).open_start == old(self).open_start,
    {
        let meta = ColumnChunkMeta {
            offset: self.data.len(),
            compressed_size: chunk.data.len(),
            uncompressed_size: chunk.uncompressed_size,
            encoding: chunk.encoding,
            codec: chunk.codec,
        };
        let mut k: usize = 0;
        while k < chunk.data.len()
            invariant
                k <= chunk.data@.len(),
                old(self).data@.len() + chunk.data@.len() <= usize::MAX,
                self.data@ =~= old(self).data@ + chunk.data@.take(k as int),
                self.state == old(self).state,
                self.schema == old(self).schema,
                self.row_groups == old(self).row_groups,
                self.total_rows == old(self).total_rows,
                self.open_columns == old(self).open_columns,
                self.open_num_rows == old(self).open_num_rows,
                self.open_start == old(self).open_start,
            decreases chunk.data@.len() - k,
        {
            self.data.push(chunk.data[k]);
            proof {
                assert(old(self).data@ + chunk.data@.take(k as int) + seq![chunk.data@[k as int]]
                    =~= old(self).data@ + chunk.data@.take(k + 1));
            }
            k = k + 1;
        }
        proof {
            assert(chunk.data@.take(chunk.data@.len() as int) =~= chunk.data@);
        }
        self.open_columns.push(meta);
    }

    /// Close the open row group: its metadata entry (row count, total byte
    /// size, relocated columns) is finalized and appended to the footer list,
    /// and the row total advances.  No closed row group is ever revisited.
    pub fn close_row_group(&mut self)
        requires
            old(self).inv(),
            old(self).state == WriterState::RowGroupOpen,
            old(self).total_rows + old(self).open_num_rows <= u64::MAX,
        ensures
            final(self).inv(),
            final(self).state == WriterState::Open,
            final(self).row_groups@.len() == old(self).row_groups@.len() + 1,
            final(self).row_groups@.drop_last() == old(self).row_groups@,
            final(self).row_groups@.last()@ == (SpecRowGroupMeta {
                num_rows: old(self).open_num_rows,
                total_byte_size: (old(self).data@.len() - old(self).open_start) as usize,
                columns: old(self).open_columns@,
            }),
            final(self).total_rows == old(self).total_rows + old(self).open_num_rows,
            final(self).schema == old(self).schema,
            final(self).data == old(self).data,
    {
        let total_byte_size: usize = self.data.len() - self.open_start;
        let mut columns: Vec<ColumnChunkMeta> = Vec::new();
        core::mem::swap(&mut columns, &mut self.open_columns);
        let entry = RowGroupMeta { num_rows: self.open_num_rows, total_byte_size, columns };
        self.row_groups.push(entry);
        self.total_rows = self.total_rows + self.open_num_rows;
        self.state = WriterState::Open;
        proof {
            assert(final(self).row_groups@.drop_last() =~= old(self).row_groups@);
        }
    }

    /// Close the writer: the finished output commits the schema, the footer's
    /// row-group list in append order, the aggregate row count, and the
    /// payload stream.  The writer is consumed, so nothing can be appended
    /// after closing.
    pub fn close(self) -> (out: OutputFile)
        requires
            self.state == WriterState::Open,
        ensures
            out.schema == self.schema,
            out.row_groups == self.row_groups,
            out.total_rows == self.total_rows,
            out.data == self.data,
    {
        OutputFile {
            schema: self.schema,
            row_groups: self.row_groups,
            total_rows: self.total_rows,
            data: self.data,
        }
    }
}

} // verus!
