//! The merge itself: schema validation across the inputs, and the transfer
//! of every row group of every input into one output through the
//! [`OutputWriter`], with the footer metadata rebuilt around the relocated
//! chunks.

use crate::meta::{
    cols_payload, files_rgs, files_view, lemma_cols_decomp, lemma_files_rgs_decomp,
    lemma_rgs_decomp, lemma_rows_nonneg, merged_matches, rg_count_total, rg_matches, rgs_payload,
    rows_total, wf_file, InputFile, OutputFile, SpecInputFile, SpecOutputFile,
};
use crate::schema::{SchemaDescriptor, SpecSchemaField};
use crate::writer::{OutputWriter, WriterState};
use vstd::prelude::*;

verus! {

/// Why a merge failed.  A schema mismatch carries the descriptor adopted from
/// the first input, the first divergent descriptor, and the position of the
/// input it came from, so the caller can diagnose the divergence without
/// re-reading the files.
pub enum MergeError {
    SchemaMismatch { index: usize, expected: SchemaDescriptor, actual: SchemaDescriptor },
}

/// Every input describes the same schema as the first one.
pub open spec fn schemas_agree(files: Seq<SpecInputFile>) -> bool {
    forall|k: int| 0 <= k < files.len() ==> (#[trigger] files[k]).schema == files[0].schema
}

/// Read every input's schema descriptor and assert that they all describe
/// one identical schema.  On success the common descriptor, taken from the
/// first input, is returned.  On the first divergence the validation stops
/// and reports the two descriptors and where the divergent one was found;
/// inputs after that point are not examined.
pub fn validate_schemas(inputs: &Vec<InputFile>) -> (r: Result<SchemaDescriptor, MergeError>)
    requires
        inputs@.len() > 0,
    ensures
        match r {
            Ok(s) => schemas_agree(files_view(inputs@)) && s@ == inputs@[0]@.schema,
            Err(MergeError::SchemaMismatch { index, expected, actual }) => {
                &&& !schemas_agree(files_view(inputs@))
                &&& 1 <= index < inputs@.len()
                &&& expected@ == inputs@[0]@.schema
                &&& actual@ == inputs@[index as int]@.schema
                &&& inputs@[index as int]@.schema != inputs@[0]@.schema
                &&& forall|k: int|
                    0 <= k < index ==> (#[trigger] inputs@[k])@.schema == inputs@[0]@.schema
            },
        },
{
    let expected = &inputs[0].schema;
    let mut idx: usize = 1;
    while idx < inputs.len()
        invariant
            1 <= idx <= inputs@.len(),
            *expected == inputs@[0].schema,
            forall|k: int| 0 <= k < idx ==> (#[trigger] inputs@[k])@.schema == inputs@[0]@.schema,
        decreases inputs@.len() - idx,
    {
        let actual = &inputs[idx].schema;
        if !expected.matches(actual) {
            proof {
                assert(expected@ == inputs@[0].schema@);
                assert(actual@ == inputs@[idx as int].schema@);
                assert(files_view(inputs@)[idx as int] == inputs@[idx as int]@);
                assert(files_view(inputs@)[0] == inputs@[0]@);
                assert(files_view(inputs@)[idx as int].schema != files_view(inputs@)[0].schema);
                assert(!schemas_agree(files_view(inputs@)));
            }
            return Err(
                MergeError::SchemaMismatch {
                    index: idx,
                    expected: expected.duplicate(),
                    actual: actual.duplicate(),
                },
            );
        }
        idx = idx + 1;
    }
    proof {
        assert forall|k: int| 0 <= k < files_view(inputs@).len() implies (#[trigger] files_view(
            inputs@,
        )[k]).schema == files_view(inputs@)[0].schema by {
            assert(inputs@[k]@.schema == inputs@[0]@.schema);
        }
    }
    Ok(expected.duplicate())
}

/// Whether a parsed input file is well formed: every row group carries
/// exactly one column chunk per schema column.
pub fn is_well_formed(f: &InputFile) -> (r: bool)
    ensures
        r == wf_file(f@),
{
    let cols = f.schema.num_columns();
    let mut i: usize = 0;
    while i < f.row_groups.len()
        invariant
            i <= f.row_groups@.len(),
            cols == crate::schema::column_count(f@.schema),
            forall|k: int|
                0 <= k < i ==> (#[trigger] f@.row_groups[k].columns).len()
                    == crate::schema::column_count(f@.schema),
        decreases f.row_groups@.len() - i,
    {
        if f.row_groups[i].columns.len() != cols {
            proof {
                assert(f@.row_groups[i as int].columns.len() != crate::schema::column_count(
                    f@.schema,
                ));
            }
            return false;
        }
        i = i + 1;
    }
    true
}

/// Whether the inputs stay within the machine limits that [`cat_file`]
/// requires: the total row count fits in a machine word, and so does the
/// total relocated payload length.  Lets a caller establish those bounds at
/// run time before merging.
pub fn within_limits(inputs: &Vec<InputFile>) -> (r: bool)
    ensures
        r == (rows_total(files_rgs(files_view(inputs@))) <= u64::MAX && rgs_payload(
            files_rgs(files_view(inputs@)),
        ).len() <= usize::MAX),
{
    let ghost v = files_view(inputs@);
    let mut rows: u64 = 0;
    let mut payload: usize = 0;
    let ghost mut done: Seq<crate::meta::SpecRowGroup> = Seq::empty();
    proof {
        assert(v.take(0) =~= Seq::<SpecInputFile>::empty());
        assert(files_rgs(Seq::<SpecInputFile>::empty())
            == Seq::<crate::meta::SpecRowGroup>::empty());
        assert(rgs_payload(done) == Seq::<u8>::empty());
        assert(rows_total(done) == 0);
    }
    let mut i: usize = 0;
    while i < inputs.len()
        invariant
            i <= inputs@.len(),
            v == files_view(inputs@),
            done == files_rgs(v.take(i as int)),
            rows == rows_total(done),
            payload == rgs_payload(done).len(),
        decreases inputs@.len() - i,
    {
        let file = &inputs[i];
        let ghost fv = v[i as int];
        let ghost donef = done;
        let mut j: usize = 0;
        while j < file.row_groups.len()
            invariant
                j <= file.row_groups@.len(),
                0 <= i < inputs@.len(),
                v == files_view(inputs@),
                *file == inputs@[i as int],
                fv == v[i as int],
                fv.row_groups.len() == file.row_groups@.len(),
                donef == files_rgs(v.take(i as int)),
                done == donef + fv.row_groups.take(j as int),
                rows == rows_total(done),
                payload == rgs_payload(done).len(),
            decreases file.row_groups@.len() - j,
        {
            let rg = &file.row_groups[j];
            let ghost rgv = fv.row_groups[j as int];
            proof {
                assert(rgv == rg@);
            }
            let ghost cv = rgv.columns;
            let mut k: usize = 0;
            while k < rg.columns.len()
                invariant
                    k <= rg.columns@.len(),
                    0 <= i < inputs@.len(),
                    0 <= j < fv.row_groups.len(),
                    v == files_view(inputs@),
                    *rg == inputs@[i as int].row_groups@[j as int],
                    fv == v[i as int],
                    rgv == fv.row_groups[j as int],
                    cv == rgv.columns,
                    cv.len() == rg.columns@.len(),
                    done == files_rgs(v.take(i as int)) + fv.row_groups.take(j as int),
                    payload == rgs_payload(done).len() + cols_payload(cv.take(k as int)).len(),
                decreases rg.columns@.len() - k,
            {
                proof {
                    assert(rg.columns@[k as int]@ == cv[k as int]);
                }
                payload = match payload.checked_add(rg.columns[k].data.len()) {
                    Some(p) => p,
                    None => {
                        proof {
                            lemma_payload_prefix_bound(v, i as int, j as int, k as int);
                        }
                        return false;
                    },
                };
                proof {
                    assert(cv.take(k + 1).drop_last() =~= cv.take(k as int));
                    assert(cv.take(k + 1).last() == cv[k as int]);
                    assert(cols_payload(cv.take(k + 1)) == cols_payload(cv.take(k as int))
                        + cv[k as int].data);
                }
                k = k + 1;
            }
            rows = match rows.checked_add(rg.num_rows) {
                Some(t) => t,
                None => {
                    proof {
                        lemma_rows_prefix_bound(v, i as int, j as int);
                    }
                    return false;
                },
            };
            proof {
                assert(cv.take(cv.len() as int) =~= cv);
                let done2 = done.push(rgv);
                assert(done2.drop_last() =~= done);
                assert(done2.last() == rgv);
                assert(rgs_payload(done2) == rgs_payload(done) + cols_payload(cv));
                assert(rows_total(done2) == rows_total(done) + rgv.num_rows);
                done = done2;
                assert(fv.row_groups.take(j + 1).drop_last() =~= fv.row_groups.take(j as int));
                assert(fv.row_groups.take(j + 1).last() == rgv);
                assert(donef + fv.row_groups.take(j + 1) =~= (donef + fv.row_groups.take(
                    j as int,
                )).push(rgv));
            }
            j = j + 1;
        }
        proof {
            assert(fv.row_groups.take(fv.row_groups.len() as int) =~= fv.row_groups);
            assert(v.take(i + 1) =~= v.take(i as int) + seq![fv]);
            crate::meta::lemma_files_rgs_concat(v.take(i as int), seq![fv]);
            crate::meta::lemma_files_rgs_singleton(fv);
        }
        i = i + 1;
    }
    proof {
        assert(v.take(v.len() as int) =~= v);
    }
    true
}

/// The rows of any prefix of the merge, plus the next row group's count,
/// never exceed the grand total.
proof fn lemma_rows_prefix_bound(files: Seq<SpecInputFile>, i: int, j: int)
    requires
        0 <= i < files.len(),
        0 <= j < files[i].row_groups.len(),
    ensures
        rows_total(files_rgs(files.take(i)) + files[i].row_groups.take(j))
            + files[i].row_groups[j].num_rows <= rows_total(files_rgs(files)),
{
    let rgs = files[i].row_groups;
    lemma_files_rgs_decomp(files, i);
    crate::meta::lemma_rows_concat(files_rgs(files.take(i)) + rgs, files_rgs(files.skip(i + 1)));
    crate::meta::lemma_rows_concat(files_rgs(files.take(i)), rgs);
    lemma_rgs_decomp(rgs, j);
    crate::meta::lemma_rows_concat(files_rgs(files.take(i)), rgs.take(j));
    lemma_rows_nonneg(files_rgs(files.skip(i + 1)));
    lemma_rows_nonneg(rgs.skip(j + 1));
    assert(files_rgs(files.take(i)) + rgs + files_rgs(files.skip(i + 1)) =~= (files_rgs(
        files.take(i),
    ) + rgs) + files_rgs(files.skip(i + 1)));
}

/// The payload written by any prefix of the merge, up to and including the
/// next chunk, never exceeds the total payload of all inputs.
proof fn lemma_payload_prefix_bound(files: Seq<SpecInputFile>, i: int, j: int, k: int)
    requires
        0 <= i < files.len(),
        0 <= j < files[i].row_groups.len(),
        0 <= k < files[i].row_groups[j].columns.len(),
    ensures
        rgs_payload(files_rgs(files.take(i)) + files[i].row_groups.take(j)).len() + cols_payload(
            files[i].row_groups[j].columns.take(k),
        ).len() + files[i].row_groups[j].columns[k].data.len() <= rgs_payload(
            files_rgs(files),
        ).len(),
{
    let rgs = files[i].row_groups;
    let cols = rgs[j].columns;
    lemma_files_rgs_decomp(files, i);
    crate::meta::lemma_rgs_concat(files_rgs(files.take(i)) + rgs, files_rgs(files.skip(i + 1)));
    crate::meta::lemma_rgs_concat(files_rgs(files.take(i)), rgs);
    lemma_rgs_decomp(rgs, j);
    crate::meta::lemma_rgs_concat(files_rgs(files.take(i)), rgs.take(j));
    lemma_cols_decomp(cols, k);
    assert(files_rgs(files.take(i)) + rgs + files_rgs(files.skip(i + 1)) =~= (files_rgs(
        files.take(i),
    ) + rgs) + files_rgs(files.skip(i + 1)));
}

/// The payload written once a whole row group has been transferred never
/// exceeds the total payload of all inputs.
proof fn lemma_payload_group_bound(files: Seq<SpecInputFile>, i: int, j: int)
    requires
        0 <= i < files.len(),
        0 <= j < files[i].row_groups.len(),
    ensures
        rgs_payload(files_rgs(files.take(i)) + files[i].row_groups.take(j)).len() + cols_payload(
            files[i].row_groups[j].columns,
        ).len() <= rgs_payload(files_rgs(files)).len(),
{
    let rgs = files[i].row_groups;
    lemma_files_rgs_decomp(files, i);
    crate::meta::lemma_rgs_concat(files_rgs(files.take(i)) + rgs, files_rgs(files.skip(i + 1)));
    crate::meta::lemma_rgs_concat(files_rgs(files.take(i)), rgs);
    lemma_rgs_decomp(rgs, j);
    crate::meta::lemma_rgs_concat(files_rgs(files.take(i)), rgs.take(j));
    assert(files_rgs(files.take(i)) + rgs + files_rgs(files.skip(i + 1)) =~= (files_rgs(
        files.take(i),
    ) + rgs) + files_rgs(files.skip(i + 1)));
}

/// The writer's accumulated state corresponds exactly to the row groups
/// transferred so far.
pub open spec fn writer_matches(
    w: OutputWriter,
    schema: Seq<SpecSchemaField>,
    done: Seq<crate::meta::SpecRowGroup>,
) -> bool {
    &&& w.inv()
    &&& w.schema@ == schema
    &&& w.data@ == rgs_payload(done)
    &&& w.total_rows == rows_total(done)
    &&& w.row_groups@.len() == done.len()
    &&& forall|t: int|
        0 <= t < done.len() ==> rg_matches(
            (#[trigger] w.row_groups@[t])@,
            done[t],
            rgs_payload(done.take(t)).len() as int,
        )
}

/// Merge the given input files into one output.
///
/// With no inputs the merge is a successful no-op and produces nothing.
/// Otherwise the inputs' schemas are validated first; on the first mismatch
/// the merge fails with [`MergeError::SchemaMismatch`] and produces nothing.
/// On success the output adopts the first input's schema, and every row group
/// of every input is transferred in order — each column chunk's payload bytes
/// relocated verbatim, never re-encoded — with the footer rebuilt around the
/// new offsets and the total row count equal to the sum of every transferred
/// row group's count.
///
/// The preconditions are checkable at run time: [`is_well_formed`] decides
/// well-formedness per input, and [`within_limits`] decides the two machine
/// bounds.
pub fn cat_file(inputs: &Vec<InputFile>) -> (r: Result<Option<OutputFile>, MergeError>)
    requires
        forall|i: int| 0 <= i < inputs@.len() ==> wf_file((#[trigger] inputs@[i])@),
        rows_total(files_rgs(files_view(inputs@))) <= u64::MAX,
        rgs_payload(files_rgs(files_view(inputs@))).len() <= usize::MAX,
    ensures
        match r {
            Ok(None) => inputs@.len() == 0,
            Ok(Some(out)) => {
                &&& inputs@.len() > 0
                &&& schemas_agree(files_view(inputs@))
                &&& merged_matches(
                    out@,
                    inputs@[0]@.schema,
                    files_rgs(files_view(inputs@)),
                )
            },
            Err(MergeError::SchemaMismatch { index, expected, actual }) => {
                &&& inputs@.len() > 0
                &&& !schemas_agree(files_view(inputs@))
                &&& 1 <= index < inputs@.len()
                &&& expected@ == inputs@[0]@.schema
                &&& actual@ == inputs@[index as int]@.schema
                &&& inputs@[index as int]@.schema != inputs@[0]@.schema
                &&& forall|k: int|
                    0 <= k < index ==> (#[trigger] inputs@[k])@.schema == inputs@[0]@.schema
            },
        },
{
    let ghost v = files_view(inputs@);
    if inputs.len() == 0 {
        return Ok(None);
    }
    let schema = match validate_schemas(inputs) {
        Ok(s) => s,
        Err(e) => {
            return Err(e);
        },
    };
    let mut w = OutputWriter::new(schema);
    let ghost mut done: Seq<crate::meta::SpecRowGroup> = Seq::empty();
    proof {
        assert(v.take(0) =~= Seq::<SpecInputFile>::empty());
        assert(files_rgs(Seq::<SpecInputFile>::empty()) == Seq::<crate::meta::SpecRowGroup>::empty());
        assert(rgs_payload(done) == Seq::<u8>::empty());
        assert(rows_total(done) == 0);
    }
    let mut i: usize = 0;
    while i < inputs.len()
        invariant
            i <= inputs@.len(),
            inputs@.len() > 0,
            v == files_view(inputs@),
            done == files_rgs(v.take(i as int)),
            w.state == WriterState::Open,
            writer_matches(w, v[0].schema, done),
            rows_total(files_rgs(v)) <= u64::MAX,
            rgs_payload(files_rgs(v)).len() <= usize::MAX,
            forall|t: int| 0 <= t < v.len() ==> wf_file(#[trigger] v[t]),
        decreases inputs@.len() - i,
    {
        let file = &inputs[i];
        let ghost fv = v[i as int];
        let ghost donef = done;
        let mut j: usize = 0;
        while j < file.row_groups.len()
            invariant
                j <= file.row_groups@.len(),
                0 <= i < inputs@.len(),
                v == files_view(inputs@),
                *file == inputs@[i as int],
                fv == v[i as int],
                fv.row_groups.len() == file.row_groups@.len(),
                donef == files_rgs(v.take(i as int)),
                done == donef + fv.row_groups.take(j as int),
                w.state == WriterState::Open,
                writer_matches(w, v[0].schema, done),
                rows_total(files_rgs(v)) <= u64::MAX,
                rgs_payload(files_rgs(v)).len() <= usize::MAX,
            decreases file.row_groups@.len() - j,
        {
            let rg = &file.row_groups[j];
            let ghost rgv = fv.row_groups[j as int];
            proof {
                assert(rgv == rg@);
            }
            w.begin_row_group(rg.num_rows);
            let ghost base = rgs_payload(done).len() as int;
            let ghost rgs_before = w.row_groups@;
            let ghost cv = rgv.columns;
            let mut k: usize = 0;
            while k < rg.columns.len()
                invariant
                    k <= rg.columns@.len(),
                    0 <= i < inputs@.len(),
                    0 <= j < fv.row_groups.len(),
                    v == files_view(inputs@),
                    *rg == inputs@[i as int].row_groups@[j as int],
                    fv == v[i as int],
                    rgv == fv.row_groups[j as int],
                    cv == rgv.columns,
                    cv.len() == rg.columns@.len(),
                    done == files_rgs(v.take(i as int)) + fv.row_groups.take(j as int),
                    base == rgs_payload(done).len() as int,
                    w.inv(),
                    w.state == WriterState::RowGroupOpen,
                    w.schema@ == v[0].schema,
                    w.row_groups@ == rgs_before,
                    w.total_rows == rows_total(done),
                    w.open_num_rows == rgv.num_rows,
                    w.open_start == base,
                    w.data@ == rgs_payload(done) + cols_payload(cv.take(k as int)),
                    w.open_columns@.len() == k,
                    forall|q: int|
                        0 <= q < k ==> crate::meta::col_matches(
                            #[trigger] w.open_columns@[q],
                            cv[q],
                            base + cols_payload(cv.take(q)).len() as int,
                        ),
                    rows_total(files_rgs(v)) <= u64::MAX,
                    rgs_payload(files_rgs(v)).len() <= usize::MAX,
                decreases rg.columns@.len() - k,
            {
                proof {
                    assert(rg.columns@[k as int]@ == cv[k as int]);
                    lemma_payload_prefix_bound(v, i as int, j as int, k as int);
                }
                w.append_column(&rg.columns[k]);
                proof {
                    assert(cv.take(k + 1).drop_last() =~= cv.take(k as int));
                    assert(cv.take(k + 1).last() == cv[k as int]);
                    assert(cols_payload(cv.take(k + 1)) == cols_payload(cv.take(k as int))
                        + cv[k as int].data);
                    assert(rgs_payload(done) + cols_payload(cv.take(k as int)) + cv[k as int].data
                        =~= rgs_payload(done) + cols_payload(cv.take(k + 1)));
                    assert forall|q: int| 0 <= q < k + 1 implies crate::meta::col_matches(
                        #[trigger] w.open_columns@[q],
                        cv[q],
                        base + cols_payload(cv.take(q)).len() as int,
                    ) by {
                    }
                }
                k = k + 1;
            }
            proof {
                assert(cv.take(cv.len() as int) =~= cv);
                assert(w.data@ == rgs_payload(done) + cols_payload(cv));
                lemma_payload_group_bound(v, i as int, j as int);
                lemma_rows_prefix_bound(v, i as int, j as int);
                lemma_rows_nonneg(done);
            }
            w.close_row_group();
            proof {
                let entry = w.row_groups@.last()@;
                assert(entry.num_rows == rgv.num_rows);
                assert(entry.total_byte_size == cols_payload(cv).len());
                assert(entry.columns.len() == cv.len());
                assert(rg_matches(entry, rgv, base));
                let done2 = done.push(rgv);
                assert(done2.drop_last() =~= done);
                assert(done2.last() == rgv);
                assert(rgs_payload(done2) == rgs_payload(done) + cols_payload(cv));
                assert(rows_total(done2) == rows_total(done) + rgv.num_rows);
                assert(done2.take(done.len() as int) =~= done);
                assert forall|t: int| 0 <= t < done2.len() implies rg_matches(
                    (#[trigger] w.row_groups@[t])@,
                    done2[t],
                    rgs_payload(done2.take(t)).len() as int,
                ) by {
                    if t < done.len() {
                        assert(w.row_groups@[t] == w.row_groups@.drop_last()[t]);
                        assert(done2.take(t) =~= done.take(t));
                    } else {
                        assert(done2.take(t) =~= done);
                    }
                }
                done = done2;
                assert(fv.row_groups.take(j + 1).drop_last() =~= fv.row_groups.take(j as int));
                assert(fv.row_groups.take(j + 1).last() == rgv);
                assert(donef + fv.row_groups.take(j + 1) =~= (donef + fv.row_groups.take(
                    j as int,
                )).push(rgv));
            }
            j = j + 1;
        }
        proof {
            assert(fv.row_groups.take(fv.row_groups.len() as int) =~= fv.row_groups);
            assert(v.take(i + 1) =~= v.take(i as int) + seq![fv]);
            crate::meta::lemma_files_rgs_concat(v.take(i as int), seq![fv]);
            crate::meta::lemma_files_rgs_singleton(fv);
        }
        i = i + 1;
    }
    proof {
        assert(v.take(v.len() as int) =~= v);
    }
    let out = w.close();
    proof {
        assert(out@.row_groups.len() == done.len());
        assert forall|t: int| 0 <= t < done.len() implies rg_matches(
            #[trigger] out@.row_groups[t],
            done[t],
            rgs_payload(done.take(t)).len() as int,
        ) by {
            assert(out@.row_groups[t] == out.row_groups@[t]@);
        }
    }
    Ok(Some(out))
}

/// Row groups are never merged or split: a merged output holds exactly as
/// many row groups as all its inputs together, the sum of the inputs'
/// row-group counts.
pub proof fn lemma_row_group_count(out: SpecOutputFile, files: Seq<SpecInputFile>)
    requires
        files.len() > 0,
        merged_matches(out, files[0].schema, files_rgs(files)),
    ensures
        out.row_groups.len() == rg_count_total(files),
{
    lemma_flatten_count(files);
}

/// Flattening a file list yields one row group per counted row group.
proof fn lemma_flatten_count(files: Seq<SpecInputFile>)
    ensures
        files_rgs(files).len() == rg_count_total(files),
    decreases files.len(),
{
    if files.len() > 0 {
        lemma_flatten_count(files.drop_last());
    }
}

/// Every relocated column chunk survives the merge byte for byte: reading
/// the chunk's span back out of the output stream at its recorded offset
/// yields exactly the source chunk's payload.
pub proof fn lemma_chunk_round_trip(
    out: SpecOutputFile,
    schema: Seq<SpecSchemaField>,
    rgs: Seq<crate::meta::SpecRowGroup>,
    i: int,
    j: int,
)
    requires
        merged_matches(out, schema, rgs),
        0 <= i < rgs.len(),
        0 <= j < rgs[i].columns.len(),
    ensures
        out.row_groups[i].columns[j].offset + out.row_groups[i].columns[j].compressed_size
            <= out.data.len(),
        out.data.subrange(
            out.row_groups[i].columns[j].offset as int,
            out.row_groups[i].columns[j].offset + out.row_groups[i].columns[j].compressed_size,
        ) == rgs[i].columns[j].data,
{
    let cols = rgs[i].columns;
    let chunk = cols[j];
    let pre = rgs_payload(rgs.take(i)) + cols_payload(cols.take(j));
    lemma_rgs_decomp(rgs, i);
    lemma_cols_decomp(cols, j);
    assert(out.row_groups[i].columns[j].offset == pre.len());
    assert(out.row_groups[i].columns[j].compressed_size == chunk.data.len());
    assert(out.data =~= pre + chunk.data + (cols_payload(cols.skip(j + 1)) + rgs_payload(
        rgs.skip(i + 1),
    )));
    assert forall|t: int| 0 <= t < chunk.data.len() implies out.data[pre.len() + t]
        == chunk.data[t] by {
        assert((pre + chunk.data)[pre.len() + t] == chunk.data[t]);
    }
    assert(out.data.subrange(pre.len() as int, pre.len() + chunk.data.len() as int)
        =~= chunk.data);
}

/// A merge of a single input with no row groups succeeds with an output
/// whose row count is zero and whose row-group list is empty.
pub proof fn lemma_single_empty_input(out: SpecOutputFile, files: Seq<SpecInputFile>)
    requires
        files.len() == 1,
        files[0].row_groups.len() == 0,
        merged_matches(out, files[0].schema, files_rgs(files)),
    ensures
        out.total_rows == 0,
        out.row_groups.len() == 0,
        out.data.len() == 0,
{
    assert(files =~= seq![files[0]]);
    crate::meta::lemma_files_rgs_singleton(files[0]);
    assert(files_rgs(files) =~= Seq::<crate::meta::SpecRowGroup>::empty());
}

/// Re-reading a merge of two inputs yields their row groups in order: the
/// output's row-group metadata is one matching entry per row group of the
/// first input, followed by one per row group of the second, nothing merged,
/// dropped or reordered.
pub proof fn lemma_merge_two_concat(out: SpecOutputFile, a: SpecInputFile, b: SpecInputFile)
    requires
        merged_matches(out, a.schema, files_rgs(seq![a, b])),
    ensures
        files_rgs(seq![a, b]) == a.row_groups + b.row_groups,
        out.row_groups.len() == a.row_groups.len() + b.row_groups.len(),
        forall|t: int|
            0 <= t < a.row_groups.len() ==> rg_matches(
                #[trigger] out.row_groups[t],
                a.row_groups[t],
                rgs_payload((a.row_groups + b.row_groups).take(t)).len() as int,
            ),
        forall|t: int|
            a.row_groups.len() <= t < out.row_groups.len() ==> rg_matches(
                #[trigger] out.row_groups[t],
                b.row_groups[t - a.row_groups.len()],
                rgs_payload((a.row_groups + b.row_groups).take(t)).len() as int,
            ),
{
    let s = seq![a, b];
    assert(s.drop_last() =~= seq![a]);
    assert(s.last() == b);
    crate::meta::lemma_files_rgs_singleton(a);
    assert(files_rgs(s) == files_rgs(seq![a]) + b.row_groups);
    let rgs = a.row_groups + b.row_groups;
    assert(files_rgs(s) == rgs);
    assert forall|t: int| 0 <= t < a.row_groups.len() implies rg_matches(
        #[trigger] out.row_groups[t],
        a.row_groups[t],
        rgs_payload(rgs.take(t)).len() as int,
    ) by {
        assert(rgs[t] == a.row_groups[t]);
    }
    assert forall|t: int| a.row_groups.len() <= t < out.row_groups.len() implies rg_matches(
        #[trigger] out.row_groups[t],
        b.row_groups[t - a.row_groups.len()],
        rgs_payload(rgs.take(t)).len() as int,
    ) by {
        assert(rgs[t] == b.row_groups[t - a.row_groups.len()]);
    }
}

} // verus!

