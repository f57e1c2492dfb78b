use pcat::merge::{cat_file, is_well_formed, validate_schemas, within_limits, MergeError};
use pcat::meta::{ColumnChunk, InputFile, OutputFile, RowGroup};
use pcat::schema::{SchemaDescriptor, SchemaField};
use pcat::writer::OutputWriter;

fn group(name: &str, depth: u64, repetition: u64) -> SchemaField {
    SchemaField {
        name: name.as_bytes().to_vec(),
        depth,
        is_group: true,
        repetition,
        converted: 0,
        logical: Vec::new(),
        has_field_id: false,
        field_id: 0,
        physical: 0,
        type_length: 0,
        precision: 0,
        scale: 0,
    }
}

fn column(name: &str, depth: u64, physical: u64, repetition: u64) -> SchemaField {
    SchemaField {
        name: name.as_bytes().to_vec(),
        depth,
        is_group: false,
        repetition,
        converted: 0,
        logical: Vec::new(),
        has_field_id: false,
        field_id: 0,
        physical,
        type_length: 0,
        precision: 0,
        scale: 0,
    }
}

fn two_column_schema() -> SchemaDescriptor {
    SchemaDescriptor {
        fields: vec![
            group("schema", 0, 0),
            column("id", 1, 1, 2),
            column("name", 1, 6, 3),
        ],
    }
}

fn chunk(data: &[u8], uncompressed_size: u64, encoding: u64, codec: u64) -> ColumnChunk {
    ColumnChunk {
        uncompressed_size,
        encoding,
        codec,
        data: data.to_vec(),
    }
}

fn sample_inputs() -> Vec<InputFile> {
    let file_a = InputFile {
        schema: two_column_schema(),
        row_groups: vec![RowGroup {
            num_rows: 2,
            columns: vec![chunk(&[1, 2, 3], 10, 4, 1), chunk(&[4, 5], 7, 5, 2)],
        }],
    };
    let file_b = InputFile {
        schema: two_column_schema(),
        row_groups: vec![
            RowGroup {
                num_rows: 4,
                columns: vec![chunk(&[6], 3, 4, 1), chunk(&[7, 8, 9, 10], 9, 5, 2)],
            },
            RowGroup {
                num_rows: 0,
                columns: vec![chunk(&[], 0, 4, 1), chunk(&[11], 1, 5, 2)],
            },
        ],
    };
    vec![file_a, file_b]
}

fn merge_sample() -> OutputFile {
    let inputs = sample_inputs();
    match cat_file(&inputs) {
        Ok(Some(out)) => out,
        _ => panic!("merge of matching inputs must succeed"),
    }
}

#[test]
fn empty_inputs_merge_is_noop() {
    let inputs: Vec<InputFile> = Vec::new();
    match cat_file(&inputs) {
        Ok(None) => {}
        _ => panic!("zero inputs must succeed and produce no output"),
    }
}

#[test]
fn single_input_without_row_groups_yields_empty_output() {
    let inputs = vec![InputFile {
        schema: two_column_schema(),
        row_groups: Vec::new(),
    }];
    match cat_file(&inputs) {
        Ok(Some(out)) => {
            assert_eq!(out.total_rows, 0);
            assert!(out.row_groups.is_empty());
            assert!(out.data.is_empty());
            assert!(out.schema.matches(&two_column_schema()));
        }
        _ => panic!("one empty input must still produce an output"),
    }
}

#[test]
fn output_adopts_the_common_schema() {
    let out = merge_sample();
    assert!(out.schema.matches(&two_column_schema()));
}

#[test]
fn total_rows_is_the_sum_over_all_row_groups() {
    let out = merge_sample();
    assert_eq!(out.total_rows, 2 + 4 + 0);
}

#[test]
fn row_group_count_is_the_sum_of_input_counts() {
    let out = merge_sample();
    assert_eq!(out.row_groups.len(), 3);
    assert_eq!(out.row_groups[0].num_rows, 2);
    assert_eq!(out.row_groups[1].num_rows, 4);
    assert_eq!(out.row_groups[2].num_rows, 0);
}

#[test]
fn payload_is_the_ordered_concatenation_of_all_chunks() {
    let out = merge_sample();
    assert_eq!(out.data, vec![1, 2, 3, 4, 5, 6, 7, 8, 9, 10, 11]);
}

#[test]
fn chunk_metadata_is_relocated_not_rewritten() {
    let out = merge_sample();
    let rg0 = &out.row_groups[0];
    assert_eq!(rg0.columns.len(), 2);
    assert_eq!(rg0.columns[0].offset, 0);
    assert_eq!(rg0.columns[0].compressed_size, 3);
    assert_eq!(rg0.columns[0].uncompressed_size, 10);
    assert_eq!(rg0.columns[0].encoding, 4);
    assert_eq!(rg0.columns[0].codec, 1);
    assert_eq!(rg0.columns[1].offset, 3);
    assert_eq!(rg0.columns[1].compressed_size, 2);
    assert_eq!(rg0.total_byte_size, 5);
    let rg1 = &out.row_groups[1];
    assert_eq!(rg1.columns[0].offset, 5);
    assert_eq!(rg1.columns[1].offset, 6);
    assert_eq!(rg1.total_byte_size, 5);
    let rg2 = &out.row_groups[2];
    assert_eq!(rg2.columns[0].offset, 10);
    assert_eq!(rg2.columns[0].compressed_size, 0);
    assert_eq!(rg2.columns[1].offset, 10);
    assert_eq!(rg2.columns[1].compressed_size, 1);
    assert_eq!(rg2.total_byte_size, 1);
}

#[test]
fn chunk_payload_round_trips_byte_for_byte() {
    let inputs = sample_inputs();
    let out = match cat_file(&inputs) {
        Ok(Some(out)) => out,
        _ => panic!("merge of matching inputs must succeed"),
    };
    let mut flat_index = 0;
    for file in &inputs {
        for rg in &file.row_groups {
            let out_rg = &out.row_groups[flat_index];
            for (c, col) in rg.columns.iter().enumerate() {
                let meta = &out_rg.columns[c];
                let read_back = &out.data[meta.offset..meta.offset + meta.compressed_size];
                assert_eq!(read_back, col.data.as_slice());
            }
            flat_index += 1;
        }
    }
    assert_eq!(flat_index, out.row_groups.len());
}

#[test]
fn schema_mismatch_fails_and_produces_nothing() {
    let other_schema = SchemaDescriptor {
        fields: vec![
            group("schema", 0, 0),
            column("id", 1, 2, 2),
            column("name", 1, 6, 3),
        ],
    };
    let inputs = vec![
        InputFile {
            schema: two_column_schema(),
            row_groups: Vec::new(),
        },
        InputFile {
            schema: other_schema,
            row_groups: Vec::new(),
        },
    ];
    match cat_file(&inputs) {
        Err(MergeError::SchemaMismatch {
            index,
            expected,
            actual,
        }) => {
            assert_eq!(index, 1);
            assert!(expected.matches(&inputs[0].schema));
            assert!(actual.matches(&inputs[1].schema));
            assert!(!expected.matches(&actual));
        }
        _ => panic!("divergent schemas must fail the merge"),
    }
}

#[test]
fn validation_stops_at_the_first_divergence() {
    let variant = |p: u64| SchemaDescriptor {
        fields: vec![group("schema", 0, 0), column("id", 1, p, 2)],
    };
    let inputs = vec![
        InputFile {
            schema: variant(1),
            row_groups: Vec::new(),
        },
        InputFile {
            schema: variant(2),
            row_groups: Vec::new(),
        },
        InputFile {
            schema: variant(3),
            row_groups: Vec::new(),
        },
    ];
    match validate_schemas(&inputs) {
        Err(MergeError::SchemaMismatch { index, .. }) => assert_eq!(index, 1),
        _ => panic!("divergent schemas must fail validation"),
    }
}

#[test]
fn validation_returns_the_first_inputs_schema() {
    let inputs = vec![
        InputFile {
            schema: two_column_schema(),
            row_groups: Vec::new(),
        },
        InputFile {
            schema: two_column_schema(),
            row_groups: Vec::new(),
        },
    ];
    match validate_schemas(&inputs) {
        Ok(schema) => assert!(schema.matches(&inputs[0].schema)),
        _ => panic!("matching schemas must validate"),
    }
}

#[test]
fn schema_equality_is_structural_and_exact() {
    let a = two_column_schema();
    assert!(a.matches(&two_column_schema()));
    let reordered = SchemaDescriptor {
        fields: vec![
            group("schema", 0, 0),
            column("name", 1, 6, 3),
            column("id", 1, 1, 2),
        ],
    };
    assert!(!a.matches(&reordered));
    let renamed = SchemaDescriptor {
        fields: vec![
            group("schema", 0, 0),
            column("id", 1, 1, 2),
            column("title", 1, 6, 3),
        ],
    };
    assert!(!a.matches(&renamed));
    let shorter = SchemaDescriptor {
        fields: vec![group("schema", 0, 0), column("id", 1, 1, 2)],
    };
    assert!(!a.matches(&shorter));
}

#[test]
fn schema_equality_sees_every_type_component() {
    let base = two_column_schema();
    // A different fixed length on the same physical type.
    let mut longer = two_column_schema();
    longer.fields[2].type_length = 32;
    assert!(!base.matches(&longer));
    // A different decimal precision or scale.
    let mut precise = two_column_schema();
    precise.fields[1].precision = 18;
    assert!(!base.matches(&precise));
    let mut scaled = two_column_schema();
    scaled.fields[1].scale = 2;
    assert!(!base.matches(&scaled));
    // A different modern logical-type annotation.
    let mut annotated = two_column_schema();
    annotated.fields[2].logical = b"Uuid".to_vec();
    assert!(!base.matches(&annotated));
    // A different field id, or one side carrying none.
    let mut tagged = two_column_schema();
    tagged.fields[1].has_field_id = true;
    tagged.fields[1].field_id = 7;
    assert!(!base.matches(&tagged));
    // A different repetition on the group node, leaves unchanged.
    let mut optional_group = two_column_schema();
    optional_group.fields[0].repetition = 1;
    assert!(!base.matches(&optional_group));
    // A different nesting depth of the same leaves.
    let mut deeper = two_column_schema();
    deeper.fields[2].depth = 2;
    assert!(!base.matches(&deeper));
}

#[test]
fn column_count_counts_primitive_nodes_only() {
    assert_eq!(two_column_schema().num_columns(), 2);
    let nested = SchemaDescriptor {
        fields: vec![
            group("schema", 0, 0),
            group("g", 1, 2),
            column("x", 2, 1, 2),
            column("y", 1, 1, 2),
        ],
    };
    assert_eq!(nested.num_columns(), 2);
    let empty = SchemaDescriptor { fields: Vec::new() };
    assert_eq!(empty.num_columns(), 0);
}

#[test]
fn well_formedness_checks_column_counts() {
    let good = InputFile {
        schema: two_column_schema(),
        row_groups: vec![RowGroup {
            num_rows: 1,
            columns: vec![chunk(&[1], 1, 0, 0), chunk(&[2], 1, 0, 0)],
        }],
    };
    assert!(is_well_formed(&good));
    let bad = InputFile {
        schema: two_column_schema(),
        row_groups: vec![RowGroup {
            num_rows: 1,
            columns: vec![chunk(&[1], 1, 0, 0)],
        }],
    };
    assert!(!is_well_formed(&bad));
}

#[test]
fn limits_hold_for_ordinary_inputs() {
    assert!(within_limits(&sample_inputs()));
    assert!(within_limits(&Vec::new()));
}

#[test]
fn an_overflowing_row_total_is_detected() {
    let inputs = vec![InputFile {
        schema: two_column_schema(),
        row_groups: vec![
            RowGroup {
                num_rows: u64::MAX,
                columns: Vec::new(),
            },
            RowGroup {
                num_rows: 1,
                columns: Vec::new(),
            },
        ],
    }];
    assert!(!within_limits(&inputs));
}

#[test]
fn writer_records_relocation_step_by_step() {
    let mut w = OutputWriter::new(two_column_schema());
    w.begin_row_group(5);
    w.append_column(&chunk(&[9, 9], 4, 3, 2));
    w.append_column(&chunk(&[8], 2, 3, 2));
    w.close_row_group();
    let out = w.close();
    assert_eq!(out.total_rows, 5);
    assert_eq!(out.data, vec![9, 9, 8]);
    assert_eq!(out.row_groups.len(), 1);
    assert_eq!(out.row_groups[0].columns[0].offset, 0);
    assert_eq!(out.row_groups[0].columns[1].offset, 2);
    assert_eq!(out.row_groups[0].total_byte_size, 3);
}
