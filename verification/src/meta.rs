//! The data model of the merge: column chunks, row groups and files on the
//! input side; relocated chunk metadata, row-group metadata and the finished
//! output on the output side; and the spec functions that say what a merged
//! output must look like.

use crate::schema::{column_count, SchemaDescriptor, SpecSchemaField};
use vstd::prelude::*;

verus! {

/// One column chunk of an input row group: its already-encoded, possibly
/// compressed payload bytes, which the merge relocates but never interprets,
/// plus the metadata carried through unchanged.  The compressed size of the
/// chunk is the length of `data`.
pub struct ColumnChunk {
    pub uncompressed_size: u64,
    pub encoding: u64,
    pub codec: u64,
    pub data: Vec<u8>,
}

/// The mathematical value of a [`ColumnChunk`].
pub struct SpecColumnChunk {
    pub uncompressed_size: u64,
    pub encoding: u64,
    pub codec: u64,
    pub data: Seq<u8>,
}

impl View for ColumnChunk {
    type V = SpecColumnChunk;

    open spec fn view(&self) -> SpecColumnChunk {
        SpecColumnChunk {
            uncompressed_size: self.uncompressed_size,
            encoding: self.encoding,
            codec: self.codec,
            data: self.data@,
        }
    }
}

/// One row group of an input file: a row count and one column chunk per
/// schema column, in schema order.
pub struct RowGroup {
    pub num_rows: u64,
    pub columns: Vec<ColumnChunk>,
}

/// The mathematical value of a [`RowGroup`].
pub struct SpecRowGroup {
    pub num_rows: u64,
    pub columns: Seq<SpecColumnChunk>,
}

impl View for RowGroup {
    type V = SpecRowGroup;

    open spec fn view(&self) -> SpecRowGroup {
        SpecRowGroup {
            num_rows: self.num_rows,
            columns: self.columns@.map_values(|c: ColumnChunk| c@),
        }
    }
}

/// One input file, already parsed: its schema descriptor and its ordered
/// row groups.
pub struct InputFile {
    pub schema: SchemaDescriptor,
    pub row_groups: Vec<RowGroup>,
}

/// The mathematical value of an [`InputFile`].
pub struct SpecInputFile {
    pub schema: Seq<SpecSchemaField>,
    pub row_groups: Seq<SpecRowGroup>,
}

impl View for InputFile {
    type V = SpecInputFile;

    open spec fn view(&self) -> SpecInputFile {
        SpecInputFile {
            schema: self.schema@,
            row_groups: self.row_groups@.map_values(|g: RowGroup| g@),
        }
    }
}

/// The views of a list of input files.
pub open spec fn files_view(files: Seq<InputFile>) -> Seq<SpecInputFile> {
    files.map_values(|f: InputFile| f@)
}

/// A file is well formed when every row group carries exactly one column
/// chunk per schema column (per primitive node of the schema).
pub open spec fn wf_file(f: SpecInputFile) -> bool {
    forall|i: int|
        0 <= i < f.row_groups.len() ==> (#[trigger] f.row_groups[i].columns).len()
            == column_count(f.schema)
}

/// Output-side metadata of one relocated column chunk: where its bytes now
/// start in the output payload stream, and the sizes, encoding and codec
/// carried over unchanged from the source chunk.
#[derive(Clone, Copy)]
pub struct ColumnChunkMeta {
    pub offset: usize,
    pub compressed_size: usize,
    pub uncompressed_size: u64,
    pub encoding: u64,
    pub codec: u64,
}

/// Output-side metadata of one closed row group.
pub struct RowGroupMeta {
    pub num_rows: u64,
    pub total_byte_size: usize,
    pub columns: Vec<ColumnChunkMeta>,
}

/// The mathematical value of a [`RowGroupMeta`].
pub struct SpecRowGroupMeta {
    pub num_rows: u64,
    pub total_byte_size: usize,
    pub columns: Seq<ColumnChunkMeta>,
}

impl View for RowGroupMeta {
    type V = SpecRowGroupMeta;

    open spec fn view(&self) -> SpecRowGroupMeta {
        SpecRowGroupMeta {
            num_rows: self.num_rows,
            total_byte_size: self.total_byte_size,
            columns: self.columns@,
        }
    }
}

/// A finished merged output: the adopted schema, the footer's row-group
/// metadata in append order, the total row count, and the relocated payload
/// stream (the concatenation of every transferred chunk's bytes).
pub struct OutputFile {
    pub schema: SchemaDescriptor,
    pub row_groups: Vec<RowGroupMeta>,
    pub total_rows: u64,
    pub data: Vec<u8>,
}

/// The mathematical value of an [`OutputFile`].
pub struct SpecOutputFile {
    pub schema: Seq<SpecSchemaField>,
    pub row_groups: Seq<SpecRowGroupMeta>,
    pub total_rows: u64,
    pub data: Seq<u8>,
}

impl View for OutputFile {
    type V = SpecOutputFile;

    open spec fn view(&self) -> SpecOutputFile {
        SpecOutputFile {
            schema: self.schema@,
            row_groups: self.row_groups@.map_values(|g: RowGroupMeta| g@),
            total_rows: self.total_rows,
            data: self.data@,
        }
    }
}

/// The concatenated payload bytes of a list of column chunks, in order.
pub open spec fn cols_payload(cols: Seq<SpecColumnChunk>) -> Seq<u8>
    decreases cols.len(),
{
    if cols.len() == 0 {
        Seq::empty()
    } else {
        cols_payload(cols.drop_last()) + cols.last().data
    }
}

/// The concatenated payload bytes of a list of row groups, in order.
pub open spec fn rgs_payload(rgs: Seq<SpecRowGroup>) -> Seq<u8>
    decreases rgs.len(),
{
    if rgs.len() == 0 {
        Seq::empty()
    } else {
        rgs_payload(rgs.drop_last()) + cols_payload(rgs.last().columns)
    }
}

/// The total row count of a list of row groups.
pub open spec fn rows_total(rgs: Seq<SpecRowGroup>) -> int
    decreases rgs.len(),
{
    if rgs.len() == 0 {
        0
    } else {
        rows_total(rgs.drop_last()) + rgs.last().num_rows
    }
}

/// Every row group of every file, in input order: file order first, then
/// row-group order within each file.
pub open spec fn files_rgs(files: Seq<SpecInputFile>) -> Seq<SpecRowGroup>
    decreases files.len(),
{
    if files.len() == 0 {
        Seq::empty()
    } else {
        files_rgs(files.drop_last()) + files.last().row_groups
    }
}

/// The sum over all files of their row-group counts.
pub open spec fn rg_count_total(files: Seq<SpecInputFile>) -> int
    decreases files.len(),
{
    if files.len() == 0 {
        0
    } else {
        rg_count_total(files.drop_last()) + files.last().row_groups.len()
    }
}

/// The relocated metadata of one chunk matches its source chunk: the bytes
/// now start at `pos`, and size, encoding and codec are unchanged.
pub open spec fn col_matches(out: ColumnChunkMeta, src: SpecColumnChunk, pos: int) -> bool {
    &&& out.offset == pos
    &&& out.compressed_size == src.data.len()
    &&& out.uncompressed_size == src.uncompressed_size
    &&& out.encoding == src.encoding
    &&& out.codec == src.codec
}

/// An output row-group entry matches its source row group, whose payload
/// starts at `base` in the output stream: same row count, same column count,
/// and every column relocated contiguously in column order.
pub open spec fn rg_matches(out: SpecRowGroupMeta, src: SpecRowGroup, base: int) -> bool {
    &&& out.num_rows == src.num_rows
    &&& out.total_byte_size == cols_payload(src.columns).len()
    &&& out.columns.len() == src.columns.len()
    &&& forall|j: int|
        0 <= j < src.columns.len() ==> col_matches(
            #[trigger] out.columns[j],
            src.columns[j],
            base + cols_payload(src.columns.take(j)).len() as int,
        )
}

/// What a finished merge must look like, given the adopted schema and the
/// flattened list `rgs` of every source row group in input order: the output
/// adopts the schema, its payload stream is the concatenation of every
/// chunk's bytes in order, its total row count is the sum of the source row
/// counts, and its footer lists one matching entry per source row group,
/// placed back to back.
pub open spec fn merged_matches(
    out: SpecOutputFile,
    schema: Seq<SpecSchemaField>,
    rgs: Seq<SpecRowGroup>,
) -> bool {
    &&& out.schema == schema
    &&& out.total_rows == rows_total(rgs)
    &&& out.data == rgs_payload(rgs)
    &&& out.row_groups.len() == rgs.len()
    &&& forall|i: int|
        0 <= i < rgs.len() ==> rg_matches(
            #[trigger] out.row_groups[i],
            rgs[i],
            rgs_payload(rgs.take(i)).len() as int,
        )
}

/// Chunk payload concatenation distributes over list concatenation.
pub proof fn lemma_cols_concat(a: Seq<SpecColumnChunk>, b: Seq<SpecColumnChunk>)
    ensures
        cols_payload(a + b) == cols_payload(a) + cols_payload(b),
    decreases b.len(),
{
    if b.len() == 0 {
        assert(a + b =~= a);
        assert(cols_payload(a) + cols_payload(b) =~= cols_payload(a));
    } else {
        lemma_cols_concat(a, b.drop_last());
        assert((a + b).drop_last() =~= a + b.drop_last());
        assert(cols_payload(a) + cols_payload(b.drop_last()) + b.last().data =~= cols_payload(a)
            + (cols_payload(b.drop_last()) + b.last().data));
    }
}

/// Row-group payload concatenation distributes over list concatenation.
pub proof fn lemma_rgs_concat(a: Seq<SpecRowGroup>, b: Seq<SpecRowGroup>)
    ensures
        rgs_payload(a + b) == rgs_payload(a) + rgs_payload(b),
    decreases b.len(),
{
    if b.len() == 0 {
        assert(a + b =~= a);
        assert(rgs_payload(a) + rgs_payload(b) =~= rgs_payload(a));
    } else {
        lemma_rgs_concat(a, b.drop_last());
        assert((a + b).drop_last() =~= a + b.drop_last());
        assert(rgs_payload(a) + rgs_payload(b.drop_last()) + cols_payload(b.last().columns)
            =~= rgs_payload(a) + (rgs_payload(b.drop_last()) + cols_payload(b.last().columns)));
    }
}

/// Row counting distributes over list concatenation.
pub proof fn lemma_rows_concat(a: Seq<SpecRowGroup>, b: Seq<SpecRowGroup>)
    ensures
        rows_total(a + b) == rows_total(a) + rows_total(b),
    decreases b.len(),
{
    if b.len() == 0 {
        assert(a + b =~= a);
    } else {
        lemma_rows_concat(a, b.drop_last());
        assert((a + b).drop_last() =~= a + b.drop_last());
    }
}

/// Flattening row groups out of files distributes over list concatenation.
pub proof fn lemma_files_rgs_concat(a: Seq<SpecInputFile>, b: Seq<SpecInputFile>)
    ensures
        files_rgs(a + b) == files_rgs(a) + files_rgs(b),
    decreases b.len(),
{
    if b.len() == 0 {
        assert(a + b =~= a);
        assert(files_rgs(a) + files_rgs(b) =~= files_rgs(a));
    } else {
        lemma_files_rgs_concat(a, b.drop_last());
        assert((a + b).drop_last() =~= a + b.drop_last());
        assert(files_rgs(a) + files_rgs(b.drop_last()) + b.last().row_groups =~= files_rgs(a) + (
        files_rgs(b.drop_last()) + b.last().row_groups));
    }
}

/// Row-group counting distributes over list concatenation.
pub proof fn lemma_rg_count_concat(a: Seq<SpecInputFile>, b: Seq<SpecInputFile>)
    ensures
        rg_count_total(a + b) == rg_count_total(a) + rg_count_total(b),
    decreases b.len(),
{
    if b.len() == 0 {
        assert(a + b =~= a);
    } else {
        lemma_rg_count_concat(a, b.drop_last());
        assert((a + b).drop_last() =~= a + b.drop_last());
    }
}

/// A total row count is never negative.
pub proof fn lemma_rows_nonneg(rgs: Seq<SpecRowGroup>)
    ensures
        rows_total(rgs) >= 0,
    decreases rgs.len(),
{
    if rgs.len() > 0 {
        lemma_rows_nonneg(rgs.drop_last());
    }
}

/// The payload of a one-element row-group list is that row group's payload.
pub proof fn lemma_rgs_singleton(rg: SpecRowGroup)
    ensures
        rgs_payload(seq![rg]) == cols_payload(rg.columns),
        rows_total(seq![rg]) == rg.num_rows,
{
    let s = seq![rg];
    assert(s.len() == 1);
    assert(s.last() == rg);
    assert(s.drop_last() =~= Seq::<SpecRowGroup>::empty());
    assert(rgs_payload(Seq::<SpecRowGroup>::empty()) == Seq::<u8>::empty());
    assert(rows_total(Seq::<SpecRowGroup>::empty()) == 0);
    assert(Seq::<u8>::empty() + cols_payload(rg.columns) =~= cols_payload(rg.columns));
}

/// The row groups of a one-element file list are that file's row groups.
pub proof fn lemma_files_rgs_singleton(f: SpecInputFile)
    ensures
        files_rgs(seq![f]) == f.row_groups,
        rg_count_total(seq![f]) == f.row_groups.len(),
{
    let s = seq![f];
    assert(s.len() == 1);
    assert(s.last() == f);
    assert(s.drop_last() =~= Seq::<SpecInputFile>::empty());
    assert(files_rgs(Seq::<SpecInputFile>::empty()) == Seq::<SpecRowGroup>::empty());
    assert(rg_count_total(Seq::<SpecInputFile>::empty()) == 0);
    assert(Seq::<SpecRowGroup>::empty() + f.row_groups =~= f.row_groups);
}

/// The payload of a one-element chunk list is that chunk's bytes.
pub proof fn lemma_cols_singleton(c: SpecColumnChunk)
    ensures
        cols_payload(seq![c]) == c.data,
{
    let s = seq![c];
    assert(s.len() == 1);
    assert(s.last() == c);
    assert(s.drop_last() =~= Seq::<SpecColumnChunk>::empty());
    assert(cols_payload(Seq::<SpecColumnChunk>::empty()) == Seq::<u8>::empty());
    assert(Seq::<u8>::empty() + c.data =~= c.data);
}

/// A file list splits around position `i`: all row groups are those of the
/// files before `i`, then file `i`'s own, then those of the files after.
pub proof fn lemma_files_rgs_decomp(files: Seq<SpecInputFile>, i: int)
    requires
        0 <= i < files.len(),
    ensures
        files_rgs(files) == files_rgs(files.take(i)) + files[i].row_groups + files_rgs(
            files.skip(i + 1),
        ),
        rg_count_total(files) == rg_count_total(files.take(i)) + files[i].row_groups.len()
            + rg_count_total(files.skip(i + 1)),
{
    assert(files =~= files.take(i) + seq![files[i]] + files.skip(i + 1));
    lemma_files_rgs_concat(files.take(i) + seq![files[i]], files.skip(i + 1));
    lemma_files_rgs_concat(files.take(i), seq![files[i]]);
    lemma_rg_count_concat(files.take(i) + seq![files[i]], files.skip(i + 1));
    lemma_rg_count_concat(files.take(i), seq![files[i]]);
    lemma_files_rgs_singleton(files[i]);
}

/// A row-group list splits around position `i`, both for payload bytes and
/// for row counting.
pub proof fn lemma_rgs_decomp(rgs: Seq<SpecRowGroup>, i: int)
    requires
        0 <= i < rgs.len(),
    ensures
        rgs_payload(rgs) == rgs_payload(rgs.take(i)) + cols_payload(rgs[i].columns)
            + rgs_payload(rgs.skip(i + 1)),
        rows_total(rgs) == rows_total(rgs.take(i)) + rgs[i].num_rows + rows_total(
            rgs.skip(i + 1),
        ),
{
    assert(rgs =~= rgs.take(i) + seq![rgs[i]] + rgs.skip(i + 1));
    lemma_rgs_concat(rgs.take(i) + seq![rgs[i]], rgs.skip(i + 1));
    lemma_rgs_concat(rgs.take(i), seq![rgs[i]]);
    lemma_rows_concat(rgs.take(i) + seq![rgs[i]], rgs.skip(i + 1));
    lemma_rows_concat(rgs.take(i), seq![rgs[i]]);
    lemma_rgs_singleton(rgs[i]);
}

/// A chunk list splits around position `j`: its payload is everything before
/// chunk `j`, then chunk `j`'s bytes, then everything after.
pub proof fn lemma_cols_decomp(cols: Seq<SpecColumnChunk>, j: int)
    requires
        0 <= j < cols.len(),
    ensures
        cols_payload(cols) == cols_payload(cols.take(j)) + cols[j].data + cols_payload(
            cols.skip(j + 1),
        ),
{
    assert(cols =~= cols.take(j) + seq![cols[j]] + cols.skip(j + 1));
    lemma_cols_concat(cols.take(j) + seq![cols[j]], cols.skip(j + 1));
    lemma_cols_concat(cols.take(j), seq![cols[j]]);
    lemma_cols_singleton(cols[j]);
}

} // verus!
