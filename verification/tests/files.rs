use arrow_schema::{DataType as ArrowType, Field as ArrowField};
use lance_reader::format::{Manifest, Metadata, PageTable};
use lance_reader::manifest::{manifest_position, manifest_range, read_manifest, MAGIC};
use lance_reader::open::{MetadataLocation, SchemaStep};
use lance_reader::reader::FileReader;
use lance_reader::row_id::{can_number, compute_row_id, row_ids};
use lance_reader::schema::{DataType, Field, Schema};
use lance_reader::Error;

fn field(id: i32, children: Vec<Field>) -> Field {
    Field {
        id,
        name: "x".to_string(),
        data_type: DataType::Struct,
        children,
        dictionary: None,
        arrow: ArrowField::new("x", ArrowType::Int64, true),
    }
}

fn io_message<T>(result: Result<T, Error>) -> String {
    match result {
        Err(Error::IO(message)) => message,
        _ => panic!("not an error about the file"),
    }
}

fn tail_of(position: i64, message: &[u8]) -> Vec<u8> {
    let mut tail = vec![9, 9, 9];
    tail.extend((message.len() as u32).to_le_bytes());
    tail.extend(message);
    tail.extend(position.to_le_bytes());
    tail.extend([0, 0, 1, 0]);
    tail.extend(MAGIC);
    tail
}

#[test]
fn the_manifest_is_looked_for_in_the_last_64_kib() {
    assert_eq!(manifest_range(0), (0, 0));
    assert_eq!(manifest_range(65535), (0, 65535));
    assert_eq!(manifest_range(65536), (0, 65536));
    assert_eq!(manifest_range(65537), (1, 65537));
    assert_eq!(manifest_range(1_000_000), (934_464, 1_000_000));
}

#[test]
fn the_manifest_is_cut_out_of_the_tail() {
    let tail = tail_of(3, b"hello");
    assert_eq!(tail.len(), 28);
    assert!(matches!(manifest_position(&tail), Ok(3)));
    assert!(matches!(read_manifest(28, &tail), Ok(m) if m == b"hello"));

    // The same manifest at the end of a longer file.
    let tail = tail_of(1003, b"hello");
    assert!(matches!(manifest_position(&tail), Ok(1003)));
    assert!(matches!(read_manifest(1028, &tail), Ok(m) if m == b"hello"));
}

#[test]
fn an_empty_manifest_has_no_bytes() {
    let tail = tail_of(3, b"");
    assert!(matches!(read_manifest(23, &tail), Ok(m) if m.is_empty()));
}

#[test]
fn a_position_may_be_negative() {
    let tail = tail_of(-1, b"hello");
    assert!(matches!(manifest_position(&tail), Ok(p) if p == -1i64 as usize));
}

#[test]
fn positions_are_little_endian() {
    let tail = tail_of(0x0102_0304_0506, b"");
    assert!(matches!(manifest_position(&tail), Ok(p) if p == 0x0102_0304_0506u64 as usize));
}

#[test]
fn a_short_tail_is_refused() {
    let short = "Invalid format: file size is smaller than 16 bytes";
    assert_eq!(io_message(manifest_position(&[])), short);
    assert_eq!(io_message(read_manifest(15, &tail_of(0, b"")[8..])), short);
}

#[test]
fn a_tail_without_the_magic_number_is_refused() {
    let mut tail = tail_of(3, b"hello");
    assert_eq!(&tail[24..], b"LANC");
    tail[27] = b'E';
    let text = "Invalid format: magic number does not match";
    assert_eq!(io_message(manifest_position(&tail)), text);
    assert_eq!(io_message(read_manifest(28, &tail)), text);
}

#[test]
fn row_ids_hold_the_fragment_and_the_offset() {
    assert_eq!(compute_row_id(0, 0), 0);
    assert_eq!(compute_row_id(123, 10), (123 << 32) + 10);
    assert_eq!(compute_row_id(1, i32::MAX), 0x1_7fff_ffff);
    assert_eq!(compute_row_id(0xffff_ffff, 0), 0xffff_ffff_0000_0000);
    assert_eq!(compute_row_id(0x1_0000_0002, 3), (2 << 32) + 3);
    assert_eq!(compute_row_id(0, -1), u64::MAX);
    let id = compute_row_id(77, 88);
    assert_eq!((id >> 32, id & 0xffff_ffff), (77, 88));
}

#[test]
fn row_ids_of_a_batch_are_consecutive() {
    assert_eq!(row_ids(1, 3, 3), vec![(1 << 32) + 3, (1 << 32) + 4, (1 << 32) + 5]);
    assert_eq!(row_ids(1, 3, 0), Vec::<u64>::new());
    let mut joined = row_ids(4, 0, 10);
    joined.extend(row_ids(4, 10, 5));
    assert_eq!(joined, row_ids(4, 0, 15));
}

#[test]
fn rows_can_be_numbered_up_to_the_last_offset() {
    assert!(can_number(5, 0, 10));
    assert!(can_number(5, i32::MAX - 10, 10));
    assert!(!can_number(5, i32::MAX - 9, 10));
    assert!(!can_number(5, -1, 1));
    assert!(can_number(0, -1, 1));
    assert!(can_number(5, -1, 0));
}

#[test]
fn a_short_file_is_read_whole() {
    let opening = FileReader::try_new(10, 64);
    assert_eq!((opening.begin, opening.file_size, opening.fragment_id), (0, 10, 0));
    let opening = FileReader::try_new(64, 64);
    assert_eq!((opening.begin, opening.file_size), (0, 64));
    let opening = FileReader::try_new(100, 64);
    assert_eq!((opening.begin, opening.file_size), (36, 100));
}

#[test]
fn metadata_in_the_tail_is_not_read_again() {
    let pending = FileReader::try_new(100, 64).tail(64, 36);
    assert_eq!(pending.location, MetadataLocation::InTail(0));
    let pending = FileReader::try_new(100, 64).tail(64, 50);
    assert_eq!(pending.location, MetadataLocation::InTail(14));
    let pending = FileReader::try_new(100, 64).tail(64, 35);
    assert_eq!(pending.location, MetadataLocation::Unread(35));
    let pending = FileReader::try_new(100, 64).tail(64, 100);
    assert_eq!(pending.location, MetadataLocation::InTail(64));
}

#[test]
fn a_given_manifest_is_not_read() {
    let schema = Schema { fields: vec![field(2, vec![field(8, vec![])]), field(4, vec![])] };
    let opening =
        FileReader::try_new_with_fragment(100, 64, 5, Some(Manifest { schema }));
    let metadata = Metadata {
        batch_offsets: vec![0, 3, 9],
        page_table_position: 11,
        manifest_position: None,
    };
    match opening.tail(64, 50).metadata(metadata) {
        SchemaStep::Known(pending) => {
            assert_eq!(pending.position, 11);
            assert_eq!(pending.num_columns, 9);
            assert_eq!(pending.num_batches, 2);
            let reader = pending.page_table(PageTable::new());
            assert_eq!(reader.num_batches(), 2);
            assert_eq!(reader.schema().fields.len(), 2);
        }
        SchemaStep::ReadManifest { .. } => panic!("the manifest was given"),
    }
}

#[test]
fn the_manifest_of_the_file_is_read() {
    let metadata = Metadata {
        batch_offsets: vec![0, 3, 9],
        page_table_position: 11,
        manifest_position: Some(77),
    };
    match FileReader::try_new(100, 64).tail(64, 50).metadata(metadata) {
        SchemaStep::ReadManifest { position, next } => {
            assert_eq!(position, 77);
            let schema = Schema { fields: vec![field(0, vec![])] };
            let pending = next.manifest(Manifest { schema });
            assert_eq!((pending.num_columns, pending.num_batches), (1, 2));
        }
        SchemaStep::Known(_) => panic!("no manifest was given"),
    }
}

#[test]
fn the_greatest_field_id_may_be_deep() {
    let schema = |fields: Vec<Field>| Schema { fields };
    assert_eq!(schema(vec![]).max_field_id(), None);
    assert_eq!(schema(vec![field(-5, vec![])]).max_field_id(), Some(-5));
    assert_eq!(schema(vec![field(i32::MIN, vec![])]).max_field_id(), Some(i32::MIN));
    let deep = field(0, vec![field(1, vec![field(30, vec![])]), field(2, vec![])]);
    assert_eq!(schema(vec![deep, field(7, vec![])]).max_field_id(), Some(30));
}

#[test]
fn offsets_are_found_by_batch() {
    let metadata = Metadata {
        batch_offsets: vec![0, 3, 9],
        page_table_position: 0,
        manifest_position: None,
    };
    assert_eq!(metadata.num_batches(), 2);
    assert_eq!(metadata.get_offset(0), Some(0));
    assert_eq!(metadata.get_offset(1), Some(3));
    assert_eq!(metadata.get_offset(2), Some(9));
    assert_eq!(metadata.get_offset(3), None);
    assert_eq!(metadata.get_offset(-1), None);
}

#[test]
fn layouts_follow_the_arrow_type() {
    let item = Box::new(ArrowField::new("item", ArrowType::Int64, true));
    let keys = Box::new(ArrowType::Int32);
    for (arrow_type, layout) in [
        (ArrowType::Utf8, DataType::Utf8),
        (ArrowType::LargeUtf8, DataType::LargeUtf8),
        (ArrowType::Binary, DataType::Binary),
        (ArrowType::LargeBinary, DataType::LargeBinary),
        (ArrowType::Struct(vec![]), DataType::Struct),
        (ArrowType::Dictionary(keys, Box::new(ArrowType::Utf8)), DataType::Dictionary),
        (ArrowType::List(item.clone()), DataType::List),
        (ArrowType::LargeList(item.clone()), DataType::LargeList),
        (ArrowType::Null, DataType::Other),
    ] {
        let field = ArrowField::new("x", arrow_type, true);
        assert_eq!(DataType::of(&field, false), layout);
        assert_eq!(DataType::of(&field, true), DataType::FixedStride);
    }
}
