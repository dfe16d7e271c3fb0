//! End-to-end decode scenarios: row-group discovery, projection, the
//! decode session and its cache, and per-column error isolation.
use anyroot::batch::ColumnData;
use anyroot::batch::ColumnarBatch;
use anyroot::errors::RootError;
use anyroot::projection::ColumnProjection;
use anyroot::rowgroup::RowGroup;
use anyroot::session::branches_to_schema;
use anyroot::session::decode_batch;
use anyroot::session::DecoderFileState;
use anyroot::session::DecoderState;
use anyroot::batch::FieldMeta;
use anyroot::table::ColumnDesc;
use anyroot::table::TableDesc;

fn push_u16(v: &mut Vec<u8>, x: u16) {
    v.extend_from_slice(&x.to_be_bytes());
}

fn push_u32(v: &mut Vec<u8>, x: u32) {
    v.extend_from_slice(&x.to_be_bytes());
}

/// A minimal record (key) header with 4-byte pointers and empty strings:
/// 29 bytes in all.
fn push_key_header(v: &mut Vec<u8>, total_size: u32, uncomp_len: u32, key_len: u16) {
    push_u32(v, total_size);
    push_u16(v, 4); // version (below 1000: 4-byte pointers)
    push_u32(v, uncomp_len);
    push_u32(v, 0); // datime
    push_u16(v, key_len);
    push_u16(v, 0); // cycle
    push_u32(v, 0); // seek_key
    push_u32(v, 0); // seek_pdir
    v.push(0); // class_name: empty
    v.push(0); // obj_name: empty
    v.push(0); // title: empty
}

/// A basket frame holding `payload` verbatim (stored uncompressed).
/// The key header is 29 bytes, the basket fields 19, so the payload
/// starts 48 bytes in; `last` covers `key_len` plus the payload.
fn make_basket(payload: &[u8]) -> Vec<u8> {
    let key_len: u16 = 29;
    let mut v = Vec::new();
    push_key_header(
        &mut v,
        (48 + payload.len()) as u32,
        payload.len() as u32,
        key_len,
    );
    push_u16(&mut v, 1); // basket version
    push_u32(&mut v, payload.len() as u32); // buf_size
    push_u32(&mut v, 4); // entry_size
    push_u32(&mut v, 0); // n_entry_buf
    push_u32(&mut v, key_len as u32 + payload.len() as u32); // last
    v.push(0); // flag
    v.extend_from_slice(payload);
    v
}

/// One i32 column split in two chunks of 100 and 150 rows, holding the
/// row index as its value; cumulative boundaries [100, 250].
fn single_column_file() -> (Vec<u8>, TableDesc) {
    let mut payload0 = Vec::new();
    for row in 0..100i32 {
        payload0.extend_from_slice(&row.to_be_bytes());
    }
    let mut payload1 = Vec::new();
    for row in 100..250i32 {
        payload1.extend_from_slice(&row.to_be_bytes());
    }
    let basket0 = make_basket(&payload0);
    let basket1 = make_basket(&payload1);
    let mut data = basket0.clone();
    data.extend_from_slice(&basket1);
    let table = TableDesc {
        entries: 250,
        columns: vec![ColumnDesc {
            name: String::from("x"),
            type_tag: String::from("i32"),
            containers: vec![
                (0, basket0.len() as u32),
                (basket0.len() as u32, basket1.len() as u32),
            ],
            boundaries: vec![100, 250],
        }],
    };
    (data, table)
}

fn col_values(b: &ColumnarBatch, col: usize) -> Vec<u64> {
    match b.column(col) {
        ColumnData::Values(buf) => {
            let mut out = Vec::new();
            for row in 0..buf.row_count() {
                out.push(buf.get_raw(row));
            }
            out
        }
        ColumnData::Unsupported => panic!("column is unsupported"),
    }
}

#[test]
fn rowgroups_cumulative_boundaries() {
    // Two containers with cumulative row boundaries [100, 250] and 250
    // entries yield the groups {start 0, count 100} and {start 100,
    // count 150}.
    let (_data, table) = single_column_file();
    let groups = RowGroup::find_rowgroups(&table).unwrap();
    assert_eq!(groups.len(), 2);
    assert_eq!(groups[0].start_tid, 0);
    assert_eq!(groups[0].count, 100);
    assert_eq!(groups[1].start_tid, 100);
    assert_eq!(groups[1].count, 150);
    // The row counts sum to the table's entries and the chunks are
    // exactly partitioned.
    let total: u64 = groups.iter().map(|g| g.count).sum();
    assert_eq!(total, table.entries);
    let chunk_total: usize = groups.iter().map(|g| g.containers[0].len()).sum();
    assert_eq!(chunk_total, table.columns[0].containers.len());
}

#[test]
fn rowgroups_multi_column_alignment() {
    // Column a has boundaries [2, 4, 6], column b [4, 6]: only 4 and 6
    // are common, so the groups are {0..4} and {4..6}.
    let table = TableDesc {
        entries: 6,
        columns: vec![
            ColumnDesc {
                name: String::from("a"),
                type_tag: String::from("i32"),
                containers: vec![(0, 10), (10, 10), (20, 10)],
                boundaries: vec![2, 4, 6],
            },
            ColumnDesc {
                name: String::from("b"),
                type_tag: String::from("i32"),
                containers: vec![(30, 10), (40, 10)],
                boundaries: vec![4, 6],
            },
        ],
    };
    let groups = RowGroup::find_rowgroups(&table).unwrap();
    assert_eq!(groups.len(), 2);
    assert_eq!((groups[0].start_tid, groups[0].count), (0, 4));
    assert_eq!((groups[1].start_tid, groups[1].count), (4, 2));
    // Column a contributed its first two chunks to the first group.
    assert_eq!(groups[0].containers[0], vec![(0, 10), (10, 10)]);
    assert_eq!(groups[0].containers[1], vec![(30, 10)]);
    assert_eq!(groups[1].containers[0], vec![(20, 10)]);
    assert_eq!(groups[1].containers[1], vec![(40, 10)]);
}

#[test]
fn rowgroups_misaligned_is_alignment_error() {
    let table = TableDesc {
        entries: 10,
        columns: vec![ColumnDesc {
            name: String::from("a"),
            type_tag: String::from("i32"),
            containers: vec![(0, 10)],
            boundaries: vec![9], // last boundary does not reach the entries
        }],
    };
    assert_eq!(
        RowGroup::find_rowgroups(&table).unwrap_err(),
        RootError::AlignmentError
    );
}

#[test]
fn binary_search_boundary() {
    // Groups ending at rows 100 and 250: row 99 resolves to the first
    // group, row 100 to the second.
    let (_data, table) = single_column_file();
    let fs = DecoderFileState::new(&table).unwrap();
    assert_eq!(fs.find_rowgroup_containing_tid(99), 0);
    assert_eq!(fs.find_rowgroup_containing_tid(100), 1);
    assert_eq!(fs.find_rowgroup_containing_tid(0), 0);
    assert_eq!(fs.find_rowgroup_containing_tid(249), 1);
}

#[test]
fn batch_clipped_at_rowgroup_end() {
    // Requesting rows 80..130 returns only 20 rows (80..100), since the
    // materialized row group ends at row 100.
    let (data, table) = single_column_file();
    let mut state: Option<DecoderState> = None;
    let b = decode_batch(&data, &table, 80, 50, &mut state, u64::MAX).unwrap();
    assert_eq!(b.row_count, 20);
    let vals = col_values(&b, 0);
    assert_eq!(vals.len(), 20);
    for (i, v) in vals.iter().enumerate() {
        assert_eq!(*v, 80 + i as u64);
    }
}

#[test]
fn cache_miss_rebuilds_next_group() {
    // After a request inside the first group, a request starting at row
    // 150 must detect the miss, rebuild from the group {100, 150}, and
    // return 10 rows starting at logical row 150.
    let (data, table) = single_column_file();
    let mut state: Option<DecoderState> = None;
    let first = decode_batch(&data, &table, 80, 50, &mut state, u64::MAX).unwrap();
    assert_eq!(first.row_count, 20);
    let b = decode_batch(&data, &table, 150, 10, &mut state, u64::MAX).unwrap();
    assert_eq!(b.row_count, 10);
    let vals = col_values(&b, 0);
    for (i, v) in vals.iter().enumerate() {
        assert_eq!(*v, 150 + i as u64);
    }
}

#[test]
fn cache_repeat_request_identical() {
    // The same request twice yields byte-identical batches, and an
    // intervening request with a different projection forces a rebuild
    // without corrupting the first result already returned.
    let (data, table) = single_column_file();
    let mut state: Option<DecoderState> = None;
    let b1 = decode_batch(&data, &table, 10, 5, &mut state, u64::MAX).unwrap();
    let v1 = col_values(&b1, 0);
    let b2 = decode_batch(&data, &table, 10, 5, &mut state, u64::MAX).unwrap();
    assert_eq!(b2.row_count, b1.row_count);
    assert_eq!(col_values(&b2, 0), v1);
    // Different projection: no columns selected.
    let b3 = decode_batch(&data, &table, 10, 5, &mut state, 0).unwrap();
    assert_eq!(b3.width(), 0);
    // The first result is untouched, and the original request still
    // yields the same values.
    assert_eq!(col_values(&b1, 0), v1);
    let b4 = decode_batch(&data, &table, 10, 5, &mut state, u64::MAX).unwrap();
    assert_eq!(col_values(&b4, 0), v1);
    assert_eq!(v1, vec![10, 11, 12, 13, 14]);
}

#[test]
fn unsupported_type_isolated_per_column() {
    // A column with an unknown declared type yields an unsupported
    // marker without corrupting the decoding of the supported column in
    // the same batch.
    let mut payload_good = Vec::new();
    for row in 0..10i32 {
        payload_good.extend_from_slice(&(row * 3).to_be_bytes());
    }
    let payload_bad = vec![0u8; 10];
    let basket_good = make_basket(&payload_good);
    let basket_bad = make_basket(&payload_bad);
    let mut data = basket_good.clone();
    data.extend_from_slice(&basket_bad);
    let table = TableDesc {
        entries: 10,
        columns: vec![
            ColumnDesc {
                name: String::from("good"),
                type_tag: String::from("i32"),
                containers: vec![(0, basket_good.len() as u32)],
                boundaries: vec![10],
            },
            ColumnDesc {
                name: String::from("bad"),
                type_tag: String::from("blob"),
                containers: vec![(basket_good.len() as u32, basket_bad.len() as u32)],
                boundaries: vec![10],
            },
        ],
    };
    let mut state: Option<DecoderState> = None;
    let b = decode_batch(&data, &table, 0, 10, &mut state, u64::MAX).unwrap();
    assert_eq!(b.width(), 2);
    let vals = col_values(&b, 0);
    for (i, v) in vals.iter().enumerate() {
        assert_eq!(*v, (i as u64) * 3);
    }
    assert!(matches!(b.column(1), ColumnData::Unsupported));
}

#[test]
fn projection_schema_order() {
    // The produced schema's column order equals the file's column order
    // restricted to the bits set in the projection mask.
    let branches = vec![
        FieldMeta {
            name: String::from("a"),
            type_tag: String::from("i32"),
        },
        FieldMeta {
            name: String::from("b"),
            type_tag: String::from("f64"),
        },
        FieldMeta {
            name: String::from("c"),
            type_tag: String::from("u32"),
        },
    ];
    let schema = branches_to_schema(&branches, 0b101);
    assert_eq!(schema.len(), 2);
    assert_eq!(schema[0].name, "a");
    assert_eq!(schema[1].name, "c");
    let all = branches_to_schema(&branches, u64::MAX);
    assert_eq!(all.len(), 3);
    assert_eq!(all[1].name, "b");
    let none = branches_to_schema(&branches, 0);
    assert_eq!(none.len(), 0);
}

#[test]
fn projection_mask_capacity() {
    // Column indices above 63 are never selected, whatever the mask.
    let p = ColumnProjection::from_u64(u64::MAX);
    assert!(p.contains(0));
    assert!(p.contains(63));
    assert!(!p.contains(64));
    assert!(!p.contains(1000));
    let q = ColumnProjection::new(0xffff_ffff, 0);
    assert!(q.contains(31));
    assert!(!q.contains(32));
    assert_eq!(q.mask_1(), 0xffff_ffff);
    assert_eq!(q.mask_2(), 0);
    let r = ColumnProjection::from_u64(0x1_0000_0000);
    assert!(!r.contains(0));
    assert!(r.contains(32));
}

#[test]
fn projected_decode_single_column() {
    // Selecting only the second of two columns decodes just that one.
    let mut payload_a = Vec::new();
    let mut payload_b = Vec::new();
    for row in 0..10i32 {
        payload_a.extend_from_slice(&row.to_be_bytes());
        payload_b.extend_from_slice(&(row + 100).to_be_bytes());
    }
    let basket_a = make_basket(&payload_a);
    let basket_b = make_basket(&payload_b);
    let mut data = basket_a.clone();
    data.extend_from_slice(&basket_b);
    let table = TableDesc {
        entries: 10,
        columns: vec![
            ColumnDesc {
                name: String::from("a"),
                type_tag: String::from("i32"),
                containers: vec![(0, basket_a.len() as u32)],
                boundaries: vec![10],
            },
            ColumnDesc {
                name: String::from("b"),
                type_tag: String::from("i32"),
                containers: vec![(basket_a.len() as u32, basket_b.len() as u32)],
                boundaries: vec![10],
            },
        ],
    };
    let mut state: Option<DecoderState> = None;
    let b = decode_batch(&data, &table, 3, 4, &mut state, 0b10).unwrap();
    assert_eq!(b.width(), 1);
    assert_eq!(b.schema[0].name, "b");
    assert_eq!(col_values(&b, 0), vec![103, 104, 105, 106]);
}

#[test]
fn decompressed_rowgroup_buffers() {
    let (data, table) = single_column_file();
    let groups = RowGroup::find_rowgroups(&table).unwrap();
    let d = anyroot::rowgroup::DecompressedRowGroup::new(&data, u64::MAX, &groups[0]).unwrap();
    assert_eq!(d.start_tid, 0);
    assert_eq!(d.count, 100);
    assert_eq!(d.data.len(), 1);
    assert_eq!(d.data[0].len(), 400);
    // First value is row 0 (zero), second is row 1.
    assert_eq!(&d.data[0][0..4], &0i32.to_be_bytes());
    assert_eq!(&d.data[0][4..8], &1i32.to_be_bytes());
}

#[test]
fn rowgroup_decode_cursors() {
    let (data, table) = single_column_file();
    let groups = RowGroup::find_rowgroups(&table).unwrap();
    let decoded = groups[1].decode(&data, u64::MAX).unwrap();
    assert_eq!(decoded.len(), 1);
    assert_eq!(decoded[0].0.global_col_idx, 0);
    assert_eq!(decoded[0].0.projected_col_idx, 0);
    assert_eq!(decoded[0].0.byte_count, 600);
    assert_eq!(&decoded[0].1[0..4], &100i32.to_be_bytes());
}

#[test]
fn rowgroups_reject_malformed_indices() {
    // Non-increasing boundaries.
    let bad_order = TableDesc {
        entries: 10,
        columns: vec![ColumnDesc {
            name: String::from("a"),
            type_tag: String::from("i32"),
            containers: vec![(0, 10), (10, 10)],
            boundaries: vec![7, 7],
        }],
    };
    assert_eq!(
        RowGroup::find_rowgroups(&bad_order).unwrap_err(),
        RootError::AlignmentError
    );
    // No columns at all.
    let empty = TableDesc {
        entries: 10,
        columns: vec![],
    };
    assert_eq!(
        RowGroup::find_rowgroups(&empty).unwrap_err(),
        RootError::AlignmentError
    );
    // A chunk ending at row 0 (an empty first chunk).
    let zero_first = TableDesc {
        entries: 10,
        columns: vec![ColumnDesc {
            name: String::from("a"),
            type_tag: String::from("i32"),
            containers: vec![(0, 10), (10, 10)],
            boundaries: vec![0, 10],
        }],
    };
    assert_eq!(
        RowGroup::find_rowgroups(&zero_first).unwrap_err(),
        RootError::AlignmentError
    );
    // Chunk and boundary counts disagree.
    let mismatched = TableDesc {
        entries: 10,
        columns: vec![ColumnDesc {
            name: String::from("a"),
            type_tag: String::from("i32"),
            containers: vec![(0, 10)],
            boundaries: vec![5, 10],
        }],
    };
    assert_eq!(
        RowGroup::find_rowgroups(&mismatched).unwrap_err(),
        RootError::AlignmentError
    );
}

#[test]
fn chunk_outside_file_is_truncated_input() {
    // The chunk index points past the end of the file bytes.
    let table = TableDesc {
        entries: 10,
        columns: vec![ColumnDesc {
            name: String::from("a"),
            type_tag: String::from("i32"),
            containers: vec![(1000, 100)],
            boundaries: vec![10],
        }],
    };
    let data = vec![0u8; 16];
    let mut state: Option<DecoderState> = None;
    let r = decode_batch(&data, &table, 0, 10, &mut state, 1);
    assert_eq!(r.unwrap_err(), RootError::TruncatedInput);
}

#[test]
fn u64_column_values() {
    let mut payload = Vec::new();
    for row in 0..6u64 {
        payload.extend_from_slice(&(row * 1_000_000_007).to_be_bytes());
    }
    let basket = make_basket(&payload);
    let table = TableDesc {
        entries: 6,
        columns: vec![ColumnDesc {
            name: String::from("big"),
            type_tag: String::from("u64"),
            containers: vec![(0, basket.len() as u32)],
            boundaries: vec![6],
        }],
    };
    let mut state: Option<DecoderState> = None;
    let b = decode_batch(&basket, &table, 2, 3, &mut state, 1).unwrap();
    assert_eq!(col_values(&b, 0), vec![
        2 * 1_000_000_007,
        3 * 1_000_000_007,
        4 * 1_000_000_007,
    ]);
}

#[test]
fn parse_col_fixed_width_values() {
    let (data, table) = single_column_file();
    let groups = RowGroup::find_rowgroups(&table).unwrap();
    let d = anyroot::rowgroup::DecompressedRowGroup::new(&data, u64::MAX, &groups[1]).unwrap();
    let vals = d.parse_col(0, 4).unwrap();
    assert_eq!(vals.len(), 150);
    assert_eq!(vals[0], 100);
    assert_eq!(vals[149], 249);
    // The same buffer does not divide into 8-byte elements for 150 rows.
    assert_eq!(d.parse_col(0, 8).unwrap_err(), RootError::DecompressError);
}

#[test]
fn end_tid_sums_start_and_count() {
    let g = RowGroup {
        start_tid: 100,
        count: 150,
        containers: vec![vec![]],
    };
    assert_eq!(g.end_tid(), 250);
}

#[test]
fn bool_column_decodes_bytewise() {
    let payload = vec![0u8, 1, 0, 2];
    let basket = make_basket(&payload);
    let table = TableDesc {
        entries: 4,
        columns: vec![ColumnDesc {
            name: String::from("flag"),
            type_tag: String::from("bool"),
            containers: vec![(0, basket.len() as u32)],
            boundaries: vec![4],
        }],
    };
    let mut state: Option<DecoderState> = None;
    let b = decode_batch(&basket, &table, 0, 4, &mut state, 1).unwrap();
    match b.column(0) {
        ColumnData::Values(buf) => {
            assert!(!buf.get_bool(0));
            assert!(buf.get_bool(1));
            assert!(!buf.get_bool(2));
            assert!(buf.get_bool(3));
        }
        ColumnData::Unsupported => panic!("bool column must decode"),
    }
}

#[test]
fn type_width_mismatch_is_decompress_error() {
    // 10 rows declared f64 need 80 payload bytes; 40 are present.
    let mut payload = Vec::new();
    for row in 0..10i32 {
        payload.extend_from_slice(&row.to_be_bytes());
    }
    let basket = make_basket(&payload);
    let table = TableDesc {
        entries: 10,
        columns: vec![ColumnDesc {
            name: String::from("x"),
            type_tag: String::from("f64"),
            containers: vec![(0, basket.len() as u32)],
            boundaries: vec![10],
        }],
    };
    let mut state: Option<DecoderState> = None;
    let r = decode_batch(&basket, &table, 0, 10, &mut state, 1);
    assert_eq!(r.unwrap_err(), RootError::DecompressError);
}

#[test]
fn f64_column_bit_pattern() {
    let mut payload = Vec::new();
    for row in 0..4 {
        let x = (row as f64) * 1.5;
        payload.extend_from_slice(&x.to_be_bytes());
    }
    let basket = make_basket(&payload);
    let table = TableDesc {
        entries: 4,
        columns: vec![ColumnDesc {
            name: String::from("e"),
            type_tag: String::from("f64"),
            containers: vec![(0, basket.len() as u32)],
            boundaries: vec![4],
        }],
    };
    let mut state: Option<DecoderState> = None;
    let b = decode_batch(&basket, &table, 1, 2, &mut state, 1).unwrap();
    match b.column(0) {
        ColumnData::Values(buf) => {
            assert_eq!(f64::from_bits(buf.get_raw(0)), 1.5);
            assert_eq!(f64::from_bits(buf.get_raw(1)), 3.0);
        }
        ColumnData::Unsupported => panic!("f64 column must decode"),
    }
}
