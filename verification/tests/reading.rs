use std::sync::Arc;

use arrow_array::types::Int32Type;
use arrow_array::{
    Array, ArrayRef, DictionaryArray, Float32Array, Int32Array, Int64Array, LargeListArray,
    ListArray, RecordBatch, StringArray, StructArray, UInt64Array,
};
use arrow_schema::{DataType as ArrowType, Field as ArrowField, Schema as ArrowSchema};
use lance_reader::batch::{
    assemble_batch, get_page_info, large_relative_offsets, read_batch, relative_offsets,
    AssemblyError, BatchJob, PageRequest, Progress,
};
use lance_reader::format::{Manifest, Metadata, PageInfo, PageTable};
use lance_reader::open::SchemaStep;
use lance_reader::reader::FileReader;
use lance_reader::schema::{DataType, Dictionary, Field, Schema};
use lance_reader::walk::{Defect, PageKind};
use lance_reader::{Column, Error};

/// Pages in memory: the position of a page is its index.
struct Storage {
    pages: Vec<ArrayRef>,
    table: PageTable,
    requests: Vec<(i32, PageKind)>,
}

impl Storage {
    fn new() -> Storage {
        Storage { pages: vec![], table: PageTable::new(), requests: vec![] }
    }

    fn put(&mut self, field_id: i32, batch_id: i32, page: ArrayRef) {
        let info = PageInfo { position: self.pages.len(), length: page.len() };
        self.table.set(field_id, batch_id, info);
        self.pages.push(page);
    }
}

fn fetch(
    pages: &[ArrayRef],
    requests: &mut Vec<(i32, PageKind)>,
    request: &PageRequest<'_>,
) -> Column {
    requests.push((request.field.id, request.kind));
    let array = pages[request.page.position].clone();
    assert_eq!(array.len(), request.page.length);
    Column { array }
}

enum Stop {
    Failed(Error),
    Broken(Defect),
}

fn drive(
    progress: Progress<'_>,
    pages: &[ArrayRef],
    requests: &mut Vec<(i32, PageKind)>,
) -> Result<RecordBatch, Stop> {
    let mut progress = progress;
    loop {
        match progress {
            Progress::Fetch(request, read) => {
                let page = fetch(pages, requests, &request);
                progress = read.resume(page);
            }
            Progress::Finished(batch) => return Ok(batch.batch),
            Progress::Failed(error) => return Err(Stop::Failed(error)),
            Progress::Broken(defect) => return Err(Stop::Broken(defect)),
        }
    }
}

fn field(id: i32, arrow: ArrowField, data_type: DataType, children: Vec<Field>) -> Field {
    let name = arrow.name().clone();
    let is_fixed_stride = data_type == DataType::FixedStride;
    let field = Field::new(id, name, arrow, is_fixed_stride, children, None);
    assert_eq!(field.data_type, data_type);
    field
}

fn leaf(id: i32, name: &str, arrow_type: ArrowType, nullable: bool) -> Field {
    field(id, ArrowField::new(name, arrow_type, nullable), DataType::FixedStride, vec![])
}

fn read(schema: &Schema, storage: &mut Storage) -> Result<RecordBatch, Stop> {
    let progress = read_batch(schema, 0, &storage.table, 0, 0, false);
    let mut requests = vec![];
    let result = drive(progress, &storage.pages, &mut requests);
    storage.requests = requests;
    result
}

fn io_message(stop: Stop) -> String {
    match stop {
        Stop::Failed(Error::IO(message)) => message,
        Stop::Failed(Error::Arrow(error)) => panic!("{error}"),
        Stop::Broken(defect) => panic!("{defect:?}"),
    }
}

fn defect(result: Result<RecordBatch, Stop>) -> Defect {
    match result {
        Err(Stop::Broken(defect)) => defect,
        _ => panic!("not broken"),
    }
}

fn is_arrow_error(result: Result<RecordBatch, Stop>) -> bool {
    matches!(result, Err(Stop::Failed(Error::Arrow(_))))
}

fn two_columns() -> Schema {
    Schema {
        fields: vec![
            leaf(0, "i", ArrowType::Int64, true),
            leaf(1, "f", ArrowType::Float32, false),
        ],
    }
}

fn open(schema: Schema, table: PageTable, offsets: Vec<i32>, fragment_id: u64) -> FileReader {
    let metadata =
        Metadata { batch_offsets: offsets, page_table_position: 7, manifest_position: Some(3) };
    let opening = FileReader::try_new_with_fragment(1000, 64, fragment_id, None);
    assert_eq!((opening.begin, opening.file_size), (936, 1000));
    match opening.tail(64, 950).metadata(metadata) {
        SchemaStep::ReadManifest { position, next } => {
            assert_eq!(position, 3);
            let pending = next.manifest(Manifest { schema });
            assert_eq!(pending.position, 7);
            pending.page_table(table)
        }
        SchemaStep::Known(_) => panic!("no manifest was given"),
    }
}

#[test]
fn file_reader_into_stream() {
    let arrow_schema = ArrowSchema::new(vec![
        ArrowField::new("i", ArrowType::Int64, true),
        ArrowField::new("f", ArrowType::Float32, false),
    ]);

    // Write 5 batches.
    let columns: Vec<ArrayRef> = vec![
        Arc::new(Int64Array::from_iter((0..100).collect::<Vec<_>>())),
        Arc::new(Float32Array::from_iter((0..100).map(|n| n as f32).collect::<Vec<_>>())),
    ];
    let batch = RecordBatch::try_new(Arc::new(arrow_schema), columns.clone()).unwrap();
    let mut storage = Storage::new();
    for batch_id in 0..5 {
        storage.put(0, batch_id, columns[0].clone());
        storage.put(1, batch_id, columns[1].clone());
    }

    let reader = open(two_columns(), storage.table, vec![0, 100, 200, 300, 400, 500], 0);
    assert_eq!(reader.num_batches(), 5);

    let mut stream = reader.into_stream();
    let mut count = 0;
    while stream.next().is_some() {
        count += 1;
    }
    assert_eq!(count, 5);
    assert!(stream.next().is_none());

    let mut stream = reader.into_stream();
    let mut requests = vec![];
    while let Some(progress) = stream.next() {
        let read = drive(progress, &storage.pages, &mut requests);
        assert!(matches!(read, Ok(b) if b == batch));
    }
    assert_eq!(requests.len(), 10);
}

#[test]
fn read_with_row_id() {
    // Write 10 batches.
    let mut storage = Storage::new();
    let mut offsets = vec![0];
    for batch_id in 0..10 {
        let value_range = batch_id * 10..batch_id * 10 + 10;
        let ints: Vec<i64> = value_range.clone().map(|n| n as i64).collect();
        let floats: Vec<f32> = value_range.map(|n| n as f32).collect();
        storage.put(0, batch_id, Arc::new(Int64Array::from_iter(ints)));
        storage.put(1, batch_id, Arc::new(Float32Array::from_iter(floats)));
        offsets.push(batch_id * 10 + 10);
    }

    let fragment = 123;
    let mut reader = open(two_columns(), storage.table, offsets, fragment);
    reader.with_row_id(true);

    for b in 0..10 {
        let mut requests = vec![];
        let batch = match drive(reader.read_batch(b), &storage.pages, &mut requests) {
            Ok(batch) => batch,
            Err(_) => panic!("batch {b} was not read"),
        };
        assert!(batch.column_by_name("_rowid").is_some());
        let row_ids_col = batch.column_by_name("_rowid").unwrap();
        let start_pos = (fragment << 32) as u64 + 10 * b as u64;
        assert_eq!(
            &UInt64Array::from_iter_values(start_pos..start_pos + 10),
            row_ids_col.as_any().downcast_ref::<UInt64Array>().unwrap()
        );
        assert_eq!(batch.num_columns(), 3);
        assert!(!batch.schema().field(2).is_nullable());
        assert_eq!(batch.schema().field(2).name(), "_rowid");
    }
}

#[test]
fn with_row_id_can_be_switched_off_again() {
    let mut storage = Storage::new();
    storage.put(0, 0, Arc::new(Int64Array::from(vec![1, 2])));
    let schema = Schema { fields: vec![leaf(0, "i", ArrowType::Int64, true)] };
    let mut reader = open(schema, storage.table, vec![0, 2], 1);
    reader.with_row_id(true).with_row_id(false);
    let mut requests = vec![];
    let batch = drive(reader.read_batch(0), &storage.pages, &mut requests);
    assert!(matches!(batch, Ok(b) if b.num_columns() == 1));
}

#[test]
fn projection_sets_the_schema_of_batches() {
    let mut storage = Storage::new();
    storage.put(0, 0, Arc::new(Int64Array::from(vec![1, 2])));
    storage.put(1, 0, Arc::new(Float32Array::from(vec![1.0, 2.0])));
    let mut reader = open(two_columns(), storage.table, vec![0, 2], 0);
    assert_eq!(reader.schema().fields.len(), 2);
    reader.set_projection(Schema { fields: vec![leaf(1, "f", ArrowType::Float32, false)] });
    assert_eq!(reader.schema().fields.len(), 1);
    assert_eq!(reader.schema().fields[0].name, "f");
    let mut requests = vec![];
    let batch = match drive(reader.read_batch(0), &storage.pages, &mut requests) {
        Ok(batch) => batch,
        Err(_) => panic!("the batch was not read"),
    };
    assert_eq!(batch.schema().fields(), &vec![ArrowField::new("f", ArrowType::Float32, false)]);
    assert_eq!(requests, vec![(1, PageKind::FixedStride)]);
}

#[test]
fn a_batch_without_an_offset_does_not_exist() {
    let reader = open(two_columns(), PageTable::new(), vec![0, 2], 0);
    let mut requests = vec![];
    for (batch_id, text) in [
        (2, "batch 2 does not exist"),
        (-1, "batch -1 does not exist"),
        (i32::MAX, "batch 2147483647 does not exist"),
        (i32::MIN, "batch -2147483648 does not exist"),
    ] {
        let result = drive(reader.read_batch(batch_id), &[], &mut requests);
        assert_eq!(io_message(result.err().unwrap()), text);
    }
}

#[test]
fn the_batch_after_the_last_has_no_pages() {
    let reader = open(two_columns(), PageTable::new(), vec![0, 2], 0);
    let mut requests = vec![];
    let result = drive(reader.read_batch(1), &[], &mut requests);
    assert_eq!(
        io_message(result.err().unwrap()),
        "No page info found for field: i, field_id=0 batch=1"
    );
}

#[test]
fn a_stream_without_offsets_is_all_errors() {
    let reader = open(two_columns(), PageTable::new(), vec![], 0);
    assert_eq!(reader.num_batches(), 0);
    let mut stream = reader.into_stream();
    let mut requests = vec![];
    for batch_id in 0..3 {
        let result = drive(stream.next().unwrap(), &[], &mut requests);
        assert_eq!(
            io_message(result.err().unwrap()),
            format!("batch {batch_id} does not exist")
        );
    }
    assert!(stream.can_advance());
}

#[test]
fn a_stream_of_no_batches_ends_at_once() {
    let reader = open(two_columns(), PageTable::new(), vec![0], 0);
    assert!(reader.into_stream().next().is_none());
}

#[test]
fn a_stream_goes_on_after_a_batch_that_fails() {
    let mut storage = Storage::new();
    storage.put(0, 1, Arc::new(Int64Array::from(vec![5])));
    let schema = Schema { fields: vec![leaf(0, "i", ArrowType::Int64, true)] };
    let reader = open(schema, storage.table, vec![0, 1, 2], 0);
    let mut stream = reader.into_stream();
    let mut requests = vec![];
    let first = drive(stream.next().unwrap(), &storage.pages, &mut requests);
    assert_eq!(
        io_message(first.err().unwrap()),
        "No page info found for field: i, field_id=0 batch=0"
    );
    assert!(drive(stream.next().unwrap(), &storage.pages, &mut requests).is_ok());
    assert!(stream.next().is_none());
}

#[test]
fn missing_pages_are_named() {
    let table = PageTable::new();
    let field = leaf(-7, "a b", ArrowType::Int64, true);
    match get_page_info(&table, &field, 12) {
        Err(Error::IO(message)) => {
            assert_eq!(message, "No page info found for field: a b, field_id=-7 batch=12")
        }
        _ => panic!("the page is not listed"),
    }
}

#[test]
fn listed_pages_are_found() {
    let mut table = PageTable::new();
    let page = PageInfo { position: 40, length: 5 };
    table.set(3, 9, page);
    table.set(9, 3, PageInfo { position: 1, length: 1 });
    table.set(-1, i32::MIN, PageInfo { position: 2, length: 2 });
    assert_eq!(table.get(3, 9), Some(&page));
    assert_eq!(table.get(-1, i32::MIN), Some(&PageInfo { position: 2, length: 2 }));
    assert_eq!(table.get(3, 3), None);
    let field = leaf(3, "x", ArrowType::Int64, true);
    match get_page_info(&table, &field, 9) {
        Ok(info) => assert_eq!(*info, page),
        Err(_) => panic!("the page is listed"),
    }
}

#[test]
fn strings_are_one_page() {
    let mut storage = Storage::new();
    let strings: ArrayRef = Arc::new(StringArray::from(vec!["a", "b"]));
    storage.put(4, 0, strings.clone());
    let arrow = ArrowField::new("s", ArrowType::Utf8, false);
    let schema = Schema { fields: vec![field(4, arrow, DataType::Utf8, vec![])] };
    match read(&schema, &mut storage) {
        Ok(batch) => assert_eq!(batch.column(0), &strings),
        Err(_) => panic!("the batch was not read"),
    }
    assert_eq!(storage.requests, vec![(4, PageKind::Binary)]);
}

fn nested(name: &str, id: i32) -> (Field, ArrowField, ArrowField) {
    let a = ArrowField::new("a", ArrowType::Int64, true);
    let b = ArrowField::new("b", ArrowType::Float32, false);
    let arrow = ArrowField::new(name, ArrowType::Struct(vec![a.clone(), b.clone()]), false);
    let children = vec![
        field(id + 1, a.clone(), DataType::FixedStride, vec![]),
        field(id + 2, b.clone(), DataType::FixedStride, vec![]),
    ];
    (field(id, arrow, DataType::Struct, children), a, b)
}

#[test]
fn structs_are_read_child_by_child() {
    let mut storage = Storage::new();
    let ints: ArrayRef = Arc::new(Int64Array::from(vec![1, 2, 3]));
    let floats: ArrayRef = Arc::new(Float32Array::from(vec![0.5, 1.5, 2.5]));
    storage.put(1, 0, ints.clone());
    storage.put(2, 0, floats.clone());
    storage.put(3, 0, ints.clone());
    let (root, a, b) = nested("r", 0);
    let schema = Schema { fields: vec![root, leaf(3, "k", ArrowType::Int64, false)] };
    let batch = match read(&schema, &mut storage) {
        Ok(batch) => batch,
        Err(_) => panic!("the batch was not read"),
    };
    let expected = StructArray::from(vec![(a, ints.clone()), (b, floats)]);
    assert_eq!(batch.column(0).as_any().downcast_ref::<StructArray>().unwrap(), &expected);
    assert_eq!(batch.column(1), &ints);
    assert_eq!(
        storage.requests,
        vec![
            (1, PageKind::FixedStride),
            (2, PageKind::FixedStride),
            (3, PageKind::FixedStride)
        ]
    );
}

#[test]
fn children_of_different_lengths_do_not_fit() {
    let mut storage = Storage::new();
    storage.put(1, 0, Arc::new(Int64Array::from(vec![1, 2, 3])));
    storage.put(2, 0, Arc::new(Float32Array::from(vec![0.5])));
    let schema = Schema { fields: vec![nested("r", 0).0] };
    assert_eq!(defect(read(&schema, &mut storage)), Defect::ChildMismatch);
}

#[test]
fn children_of_another_type_do_not_fit() {
    let mut storage = Storage::new();
    storage.put(1, 0, Arc::new(Int32Array::from(vec![1])));
    storage.put(2, 0, Arc::new(Float32Array::from(vec![0.5])));
    let schema = Schema { fields: vec![nested("r", 0).0] };
    assert_eq!(defect(read(&schema, &mut storage)), Defect::ChildMismatch);
}

#[test]
fn nulls_in_a_child_without_nulls_do_not_fit() {
    let mut storage = Storage::new();
    storage.put(1, 0, Arc::new(Int64Array::from(vec![None, Some(1)])));
    storage.put(2, 0, Arc::new(Float32Array::from(vec![None, Some(0.5)])));
    let schema = Schema { fields: vec![nested("r", 0).0] };
    assert_eq!(defect(read(&schema, &mut storage)), Defect::ChildMismatch);
}

#[test]
fn a_struct_without_children_is_empty() {
    let mut storage = Storage::new();
    let arrow = ArrowField::new("r", ArrowType::Struct(vec![]), false);
    let schema = Schema { fields: vec![field(0, arrow, DataType::Struct, vec![])] };
    match read(&schema, &mut storage) {
        Ok(batch) => assert_eq!(batch.num_rows(), 0),
        Err(_) => panic!("the batch was not read"),
    }
}

fn list_schema(nullable_items: bool) -> Schema {
    let item = ArrowField::new("item", ArrowType::Int64, nullable_items);
    let arrow = ArrowField::new("l", ArrowType::List(Box::new(item.clone())), false);
    let child = field(1, item, DataType::FixedStride, vec![]);
    Schema { fields: vec![field(0, arrow, DataType::List, vec![child])] }
}

fn large_list_schema() -> Schema {
    let item = ArrowField::new("item", ArrowType::Int64, true);
    let arrow = ArrowField::new("l", ArrowType::LargeList(Box::new(item.clone())), false);
    let child = field(1, item, DataType::FixedStride, vec![]);
    Schema { fields: vec![field(0, arrow, DataType::LargeList, vec![child])] }
}

#[test]
fn lists_are_cut_by_positions_relative_to_the_first() {
    let mut storage = Storage::new();
    storage.put(0, 0, Arc::new(Int32Array::from(vec![10, 12, 12, 15])));
    storage.put(1, 0, Arc::new(Int64Array::from(vec![1, 2, 3, 4, 5])));
    let batch = match read(&list_schema(true), &mut storage) {
        Ok(batch) => batch,
        Err(_) => panic!("the batch was not read"),
    };
    let list = batch.column(0).as_any().downcast_ref::<ListArray>().unwrap();
    assert_eq!(list.value_offsets(), &[0, 2, 2, 5]);
    assert_eq!(list.len(), 3);
    let last = list.value(2);
    let last = last.as_any().downcast_ref::<Int64Array>().unwrap();
    assert_eq!(last, &Int64Array::from(vec![3, 4, 5]));
    assert_eq!(
        storage.requests,
        vec![(0, PageKind::ListPositions), (1, PageKind::FixedStride)]
    );
}

#[test]
fn large_lists_are_cut_by_positions_relative_to_the_first() {
    let mut storage = Storage::new();
    storage.put(0, 0, Arc::new(Int64Array::from(vec![100, 101, 105])));
    storage.put(1, 0, Arc::new(Int64Array::from(vec![1, 2, 3, 4, 5])));
    let batch = match read(&large_list_schema(), &mut storage) {
        Ok(batch) => batch,
        Err(_) => panic!("the batch was not read"),
    };
    let list = batch.column(0).as_any().downcast_ref::<LargeListArray>().unwrap();
    assert_eq!(list.value_offsets(), &[0, 1, 5]);
    assert_eq!(
        storage.requests,
        vec![(0, PageKind::LargeListPositions), (1, PageKind::FixedStride)]
    );
}

#[test]
fn positions_past_the_values_are_refused() {
    let mut storage = Storage::new();
    storage.put(0, 0, Arc::new(Int32Array::from(vec![0, 2, 7])));
    storage.put(1, 0, Arc::new(Int64Array::from(vec![1, 2, 3])));
    assert!(is_arrow_error(read(&list_schema(true), &mut storage)));
    let mut storage = Storage::new();
    storage.put(0, 0, Arc::new(Int64Array::from(vec![5, 2])));
    storage.put(1, 0, Arc::new(Int64Array::from(vec![1, 2, 3])));
    assert!(is_arrow_error(read(&large_list_schema(), &mut storage)));
}

#[test]
fn a_list_of_another_item_field_is_refused() {
    let mut storage = Storage::new();
    storage.put(0, 0, Arc::new(Int32Array::from(vec![0, 1])));
    storage.put(1, 0, Arc::new(Int64Array::from(vec![1])));
    assert!(is_arrow_error(read(&list_schema(false), &mut storage)));
}

#[test]
fn positions_have_to_be_integers_of_their_size() {
    let mut storage = Storage::new();
    storage.put(0, 0, Arc::new(Int64Array::from(vec![0, 1])));
    assert_eq!(defect(read(&list_schema(true), &mut storage)), Defect::NotPositions);
    let mut storage = Storage::new();
    storage.put(0, 0, Arc::new(Int32Array::from(vec![0, 1])));
    assert_eq!(defect(read(&large_list_schema(), &mut storage)), Defect::NotPositions);
}

#[test]
fn there_has_to_be_a_position() {
    let mut storage = Storage::new();
    storage.put(0, 0, Arc::new(Int32Array::from(Vec::<i32>::new())));
    assert_eq!(defect(read(&list_schema(true), &mut storage)), Defect::NoPositions);
    let mut storage = Storage::new();
    storage.put(0, 0, Arc::new(Int64Array::from(Vec::<i64>::new())));
    assert_eq!(defect(read(&large_list_schema(), &mut storage)), Defect::NoPositions);
}

#[test]
fn a_list_needs_a_child_field() {
    let mut storage = Storage::new();
    storage.put(0, 0, Arc::new(Int32Array::from(vec![0, 1])));
    let mut schema = list_schema(true);
    schema.fields[0].children.clear();
    assert_eq!(defect(read(&schema, &mut storage)), Defect::NoItemField);
    assert_eq!(storage.requests.len(), 1);
}

#[test]
fn a_missing_page_inside_a_list_is_named() {
    let mut storage = Storage::new();
    storage.put(0, 0, Arc::new(Int32Array::from(vec![0, 1])));
    let result = read(&list_schema(true), &mut storage);
    assert_eq!(
        io_message(result.err().unwrap()),
        "No page info found for field: item, field_id=1 batch=0"
    );
}

#[test]
fn offsets_are_positions_less_the_first() {
    match relative_offsets(&vec![7, 9, 20]) {
        Ok(offsets) => assert_eq!(offsets, vec![0, 2, 13]),
        Err(_) => panic!("subtraction does not fail"),
    }
    match relative_offsets(&vec![i32::MIN, i32::MAX]) {
        Ok(offsets) => assert_eq!(offsets, vec![0, -1]),
        Err(_) => panic!("subtraction does not fail"),
    }
    match large_relative_offsets(&vec![-3, 4]) {
        Ok(offsets) => assert_eq!(offsets, vec![0, 7]),
        Err(_) => panic!("subtraction does not fail"),
    }
}

fn dictionary_schema(dictionary: Option<Dictionary>) -> Schema {
    let arrow_type =
        ArrowType::Dictionary(Box::new(ArrowType::Int32), Box::new(ArrowType::Utf8));
    let arrow = ArrowField::new("d", arrow_type, false);
    let mut root = field(0, arrow, DataType::Dictionary, vec![]);
    root.dictionary = dictionary;
    Schema { fields: vec![root] }
}

#[test]
fn dictionary_columns_are_one_page() {
    let mut storage = Storage::new();
    let array: DictionaryArray<Int32Type> = vec!["x", "y", "x"].into_iter().collect();
    let array: ArrayRef = Arc::new(array);
    storage.put(0, 0, array.clone());
    let values: ArrayRef = Arc::new(StringArray::from(vec!["x", "y"]));
    let dictionary = Dictionary { values: Some(Column { array: values }) };
    match read(&dictionary_schema(Some(dictionary)), &mut storage) {
        Ok(batch) => assert_eq!(batch.column(0), &array),
        Err(_) => panic!("the batch was not read"),
    }
    assert_eq!(storage.requests, vec![(0, PageKind::Dictionary)]);
}

#[test]
fn a_dictionary_has_to_be_loaded() {
    let mut storage = Storage::new();
    storage.put(0, 0, Arc::new(Int32Array::from(vec![0])));
    assert_eq!(defect(read(&dictionary_schema(None), &mut storage)), Defect::NoDictionary);
    let empty = Some(Dictionary { values: None });
    assert_eq!(defect(read(&dictionary_schema(empty), &mut storage)), Defect::NoDictionary);
    assert!(storage.requests.is_empty());
}

#[test]
fn a_missing_page_comes_before_a_missing_dictionary() {
    let mut storage = Storage::new();
    let result = read(&dictionary_schema(None), &mut storage);
    assert_eq!(
        io_message(result.err().unwrap()),
        "No page info found for field: d, field_id=0 batch=0"
    );
}

#[test]
fn other_types_are_not_supported() {
    let mut storage = Storage::new();
    storage.put(0, 0, Arc::new(Int64Array::from(vec![1])));
    let arrow = ArrowField::new("n", ArrowType::Null, true);
    let schema = Schema {
        fields: vec![
            leaf(0, "i", ArrowType::Int64, true),
            field(1, arrow, DataType::Other, vec![]),
        ],
    };
    assert_eq!(defect(read(&schema, &mut storage)), Defect::UnsupportedType(1));
    assert_eq!(storage.requests.len(), 1);
}

#[test]
fn columns_of_different_lengths_are_no_batch() {
    let mut storage = Storage::new();
    storage.put(0, 0, Arc::new(Int64Array::from(vec![1, 2])));
    storage.put(1, 0, Arc::new(Float32Array::from(vec![1.0])));
    assert!(is_arrow_error(read(&two_columns(), &mut storage)));
}

#[test]
fn no_columns_are_no_batch() {
    let mut storage = Storage::new();
    assert!(is_arrow_error(read(&Schema { fields: vec![] }, &mut storage)));
}

fn assemble_with_ids(
    batch_offset: i32,
    fragment_id: u64,
    rows: Vec<i64>,
) -> Result<RecordBatch, AssemblyError> {
    let fields = vec![leaf(0, "i", ArrowType::Int64, true)];
    let page_table = PageTable::new();
    let job = BatchJob {
        fields: &fields,
        batch_id: 0,
        page_table: &page_table,
        fragment_id,
        batch_offset,
        with_row_id: true,
    };
    let column = Column { array: Arc::new(Int64Array::from(rows)) };
    assemble_batch(job, vec![column]).map(|batch| batch.batch)
}

#[test]
fn row_ids_follow_the_offset_of_the_batch() {
    match assemble_with_ids(5, 2, vec![7, 8]) {
        Ok(batch) => {
            let ids: ArrayRef = Arc::new(UInt64Array::from(vec![(2 << 32) + 5, (2 << 32) + 6]));
            assert_eq!(batch.column(1), &ids);
        }
        Err(_) => panic!("the batch was not assembled"),
    }
}

#[test]
fn rows_past_the_last_offset_cannot_be_numbered() {
    let result = assemble_with_ids(i32::MAX, 0, vec![1]);
    assert!(matches!(result, Err(AssemblyError::Broken(Defect::RowIdOverflow))));
    let result = assemble_with_ids(-1, 1, vec![1]);
    assert!(matches!(result, Err(AssemblyError::Broken(Defect::RowIdOverflow))));
    assert!(assemble_with_ids(-1, 1, vec![]).is_ok());
    assert!(assemble_with_ids(i32::MAX - 1, 1, vec![1]).is_ok());
}

#[test]
fn the_first_request_is_the_same_without_row_ids() {
    let mut storage = Storage::new();
    storage.put(0, 0, Arc::new(Int64Array::from(vec![1])));
    let schema = Schema { fields: vec![leaf(0, "i", ArrowType::Int64, true)] };
    for with_row_id in [true, false] {
        match read_batch(&schema, 0, &storage.table, 0, 0, with_row_id) {
            Progress::Fetch(request, _) => {
                assert_eq!(request.field.id, 0);
                assert_eq!(request.kind, PageKind::FixedStride);
                assert_eq!(request.page, PageInfo { position: 0, length: 1 });
            }
            _ => panic!("a page has to be read"),
        }
    }
}

#[test]
fn lists_of_structs_of_lists_are_read_depth_first() {
    let mut storage = Storage::new();
    storage.put(0, 0, Arc::new(Int32Array::from(vec![4, 5, 7])));
    storage.put(2, 0, Arc::new(StringArray::from(vec!["x", "y", "z"])));
    storage.put(3, 0, Arc::new(Int64Array::from(vec![9, 9, 10, 12])));
    storage.put(4, 0, Arc::new(Int32Array::from(vec![1, 2, 3])));
    storage.put(5, 0, Arc::new(Float32Array::from(vec![0.5, 1.5])));

    let inner_item = ArrowField::new("item", ArrowType::Int32, true);
    let a = ArrowField::new("a", ArrowType::Utf8, false);
    let b = ArrowField::new("b", ArrowType::LargeList(Box::new(inner_item.clone())), true);
    let members = ArrowType::Struct(vec![a.clone(), b.clone()]);
    let item = ArrowField::new("item", members, true);
    let list = ArrowField::new("l", ArrowType::List(Box::new(item.clone())), false);
    let schema = Schema {
        fields: vec![
            field(
                0,
                list,
                DataType::List,
                vec![field(
                    1,
                    item,
                    DataType::Struct,
                    vec![
                        field(2, a, DataType::Utf8, vec![]),
                        field(
                            3,
                            b,
                            DataType::LargeList,
                            vec![field(4, inner_item, DataType::FixedStride, vec![])],
                        ),
                    ],
                )],
            ),
            leaf(5, "f", ArrowType::Float32, false),
        ],
    };
    let batch = match read(&schema, &mut storage) {
        Ok(batch) => batch,
        Err(_) => panic!("the batch was not read"),
    };
    assert_eq!(
        storage.requests,
        vec![
            (0, PageKind::ListPositions),
            (2, PageKind::Binary),
            (3, PageKind::LargeListPositions),
            (4, PageKind::FixedStride),
            (5, PageKind::FixedStride),
        ]
    );
    assert_eq!(batch.num_rows(), 2);
    let list = batch.column(0).as_any().downcast_ref::<ListArray>().unwrap();
    assert_eq!(list.value_offsets(), &[0, 1, 3]);
    let last = list.value(1);
    let last = last.as_any().downcast_ref::<StructArray>().unwrap();
    let names: ArrayRef = Arc::new(StringArray::from(vec!["y", "z"]));
    assert_eq!(last.column(0), &names);
    let lists = last.column(1).as_any().downcast_ref::<LargeListArray>().unwrap();
    let values = lists.value(1);
    assert_eq!(
        values.as_any().downcast_ref::<Int32Array>().unwrap(),
        &Int32Array::from(vec![2, 3])
    );
    assert_eq!(lists.value(0).len(), 1);
}

#[test]
fn a_failure_is_not_changed_by_the_pages_after_it() {
    let schema = Schema {
        fields: vec![
            leaf(0, "i", ArrowType::Int64, true),
            leaf(1, "j", ArrowType::Int64, true),
            leaf(2, "k", ArrowType::Int64, true),
        ],
    };
    let text = "No page info found for field: j, field_id=1 batch=0";
    let mut storage = Storage::new();
    storage.put(0, 0, Arc::new(Int64Array::from(vec![1])));
    assert_eq!(io_message(read(&schema, &mut storage).err().unwrap()), text);
    storage.put(2, 0, Arc::new(Int64Array::from(vec![3])));
    assert_eq!(io_message(read(&schema, &mut storage).err().unwrap()), text);
    assert_eq!(storage.requests, vec![(0, PageKind::FixedStride)]);
}

#[test]
fn lists_of_lists_are_read() {
    let mut storage = Storage::new();
    storage.put(0, 0, Arc::new(Int32Array::from(vec![5, 6])));
    storage.put(1, 0, Arc::new(Int32Array::from(vec![1, 3])));
    storage.put(2, 0, Arc::new(Int64Array::from(vec![7, 8])));
    let deepest = ArrowField::new("item", ArrowType::Int64, true);
    let inner = ArrowField::new("item", ArrowType::List(Box::new(deepest.clone())), true);
    let outer = ArrowField::new("l", ArrowType::List(Box::new(inner.clone())), false);
    let deepest = field(2, deepest, DataType::FixedStride, vec![]);
    let inner = field(1, inner, DataType::List, vec![deepest]);
    let schema = Schema { fields: vec![field(0, outer, DataType::List, vec![inner])] };
    let batch = match read(&schema, &mut storage) {
        Ok(batch) => batch,
        Err(_) => panic!("the batch was not read"),
    };
    let lists = batch.column(0).as_any().downcast_ref::<ListArray>().unwrap();
    assert_eq!(lists.value_offsets(), &[0, 1]);
    let lists = lists.value(0);
    let lists = lists.as_any().downcast_ref::<ListArray>().unwrap();
    assert_eq!(lists.value_offsets(), &[0, 2]);
    let values: ArrayRef = Arc::new(Int64Array::from(vec![7, 8]));
    assert_eq!(&lists.value(0), &values);
}

#[test]
fn columns_that_do_not_fit_fail_before_rows_are_numbered() {
    let fields = vec![leaf(0, "i", ArrowType::Float32, true)];
    let page_table = PageTable::new();
    let job = BatchJob {
        fields: &fields,
        batch_id: 0,
        page_table: &page_table,
        fragment_id: 0,
        batch_offset: i32::MAX,
        with_row_id: true,
    };
    let column = Column { array: Arc::new(Int64Array::from(vec![1])) };
    let result = assemble_batch(job, vec![column]);
    assert!(matches!(result, Err(AssemblyError::Failed(Error::Arrow(_)))));
}

#[test]
fn a_column_is_the_same_in_every_projection() {
    let mut storage = Storage::new();
    storage.put(0, 0, Arc::new(Int64Array::from(vec![1, 2])));
    storage.put(1, 0, Arc::new(Float32Array::from(vec![1.5, 2.5])));
    let both = match read(&two_columns(), &mut storage) {
        Ok(batch) => batch,
        Err(_) => panic!("the batch was not read"),
    };
    let alone = Schema { fields: vec![leaf(1, "f", ArrowType::Float32, false)] };
    match read(&alone, &mut storage) {
        Ok(batch) => assert_eq!(batch.column(0), both.column(1)),
        Err(_) => panic!("the batch was not read"),
    }
}

#[test]
fn row_ids_of_a_stream_are_consecutive() {
    let mut storage = Storage::new();
    storage.put(0, 0, Arc::new(Int64Array::from(vec![1, 2, 3])));
    storage.put(0, 1, Arc::new(Int64Array::from(Vec::<i64>::new())));
    storage.put(0, 2, Arc::new(Int64Array::from(vec![4, 5])));
    let schema = Schema { fields: vec![leaf(0, "i", ArrowType::Int64, true)] };
    let mut reader = open(schema, storage.table, vec![10, 13, 13, 15], 6);
    reader.with_row_id(true);
    let mut stream = reader.into_stream();
    let mut ids = vec![];
    let mut requests = vec![];
    while let Some(progress) = stream.next() {
        let batch = match drive(progress, &storage.pages, &mut requests) {
            Ok(batch) => batch,
            Err(_) => panic!("the batch was not read"),
        };
        let column = batch.column(1).as_any().downcast_ref::<UInt64Array>().unwrap();
        ids.extend(column.values().iter().copied());
    }
    let first = (6 << 32) + 10;
    assert_eq!(ids, (first..first + 5).collect::<Vec<u64>>());
}
