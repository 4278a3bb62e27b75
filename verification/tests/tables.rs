use etw_gecko::events::{EventField, FieldValue, Guid, TraceEvent};
use etw_gecko::handles::{CounterHandle, StringHandle};
use etw_gecko::sampling::parse_stack;
use etw_gecko::tables::{map_get, map_put, map_take, new_map, NameTable, Table};
use etw_gecko::types::{StackFrame, StackMode};
use std::collections::HashMap;

#[test]
fn a_table_finds_what_was_put() {
    let mut table: Table<CounterHandle> = Table::new();
    assert_eq!(table.len(), 0);
    assert_eq!(table.find(7), None);
    assert_eq!(table.put(7, CounterHandle(70)), 0);
    assert_eq!(table.put(9, CounterHandle(90)), 1);
    assert_eq!(table.put(8, CounterHandle(80)), 2);
    assert_eq!(table.find(9), Some(1));
    assert_eq!(table.entries[1].value, CounterHandle(90));
    assert_eq!(table.find(10), None);
    assert_eq!(table.len(), 3);
}

#[test]
fn putting_under_a_key_that_is_there_replaces_in_place() {
    let mut table: Table<CounterHandle> = Table::new();
    table.put(7, CounterHandle(1));
    table.put(9, CounterHandle(2));
    assert_eq!(table.put(7, CounterHandle(3)), 0);
    assert_eq!(table.len(), 2);
    assert_eq!(table.entries[0].key, 7);
    assert_eq!(table.entries[0].value, CounterHandle(3));
    assert_eq!(table.entries[1].value, CounterHandle(2));
}

#[test]
fn the_first_entry_of_a_key_counts() {
    let mut table: Table<CounterHandle> = Table::new();
    table.push(5, CounterHandle(1));
    table.push(5, CounterHandle(2));
    assert_eq!(table.find(5), Some(0));
    assert_eq!(table.put(5, CounterHandle(3)), 0);
    assert_eq!(table.entries[0].value, CounterHandle(3));
    assert_eq!(table.entries[1].value, CounterHandle(2));
}

#[test]
fn a_map_gives_back_what_was_put() {
    let mut map: HashMap<u64, CounterHandle> = new_map();
    assert!(map.is_empty());
    assert_eq!(map_get(&map, 7), None);
    map_put(&mut map, 7, CounterHandle(70));
    map_put(&mut map, 9, CounterHandle(90));
    assert_eq!(map_get(&map, 7), Some(&CounterHandle(70)));
    map_put(&mut map, 7, CounterHandle(71));
    assert_eq!(map_get(&map, 7), Some(&CounterHandle(71)));
    assert_eq!(map.len(), 2);
    assert_eq!(map_take(&mut map, 7), Some(CounterHandle(71)));
    assert_eq!(map_take(&mut map, 7), None);
    assert_eq!(map_get(&map, 7), None);
    assert_eq!(map_get(&map, 9), Some(&CounterHandle(90)));
    assert_eq!(map.len(), 1);
}

#[test]
fn a_name_table_finds_by_name() {
    let mut table: NameTable<StringHandle> = NameTable::new();
    assert_eq!(table.find("a"), None);
    table.push("a".to_string(), StringHandle(0));
    table.push("b".to_string(), StringHandle(1));
    table.push("a".to_string(), StringHandle(2));
    assert_eq!(table.len(), 3);
    assert_eq!(table.find("a"), Some(0));
    assert_eq!(table.find("b"), Some(1));
    assert_eq!(table.find(""), None);
    assert_eq!(table.find("A"), None);
    assert_eq!(table.take("a"), Some(StringHandle(0)));
    assert_eq!(table.find("a"), Some(1));
    assert_eq!(table.take("c"), None);
    assert_eq!(table.len(), 2);
}

fn field(name: &str, value: FieldValue, rendered: &str) -> EventField {
    EventField { name: name.to_string(), value, rendered: rendered.to_string() }
}

fn sample_event() -> TraceEvent {
    let guid = Guid { data1: 1, data2: 2, data3: 3, data4: [9; 8] };
    TraceEvent {
        name: "Provider/Task/Op".to_string(),
        provider_name: "Provider".to_string(),
        timestamp: 5,
        process_id: 6,
        thread_id: 7,
        keyword: 8,
        is_64bit: true,
        fields: vec![
            field("Byte", FieldValue::U8(200), "b"),
            field("Short", FieldValue::U16(2), "s"),
            field("Word", FieldValue::U32(3), "w"),
            field("Long", FieldValue::U64(4), "l"),
            field("Address", FieldValue::Pointer(5), "p"),
            field("Name", FieldValue::Text("n".to_string()), "n"),
            field("Id", FieldValue::Guid(guid), "g"),
            field("Blob", FieldValue::Other, "o"),
            field("Word", FieldValue::U32(33), "w2"),
        ],
        data: Vec::new(),
    }
}

#[test]
fn fields_are_read_by_name_and_type() {
    let event = sample_event();
    assert_eq!(event.u8_field("Byte"), Some(200));
    assert_eq!(event.u32_field("Word"), Some(3));
    assert_eq!(event.u64_field("Long"), Some(4));
    assert_eq!(event.u64_field("Address"), Some(5));
    assert_eq!(event.text_field("Name"), Some("n".to_string()));
    assert_eq!(event.guid_field("Id").unwrap().data4, [9; 8]);
    // A field of another type or of another name is not read.
    assert_eq!(event.u32_field("Byte"), None);
    assert_eq!(event.u32_field("Short"), None);
    assert_eq!(event.u8_field("Word"), None);
    assert_eq!(event.u64_field("Word"), None);
    assert_eq!(event.u32_field("Long"), None);
    assert_eq!(event.u32_field("Address"), None);
    assert_eq!(event.text_field("Id"), None);
    assert_eq!(event.guid_field("Name"), None);
    assert_eq!(event.u32_field("word"), None);
    assert_eq!(event.u32_field(""), None);
    assert_eq!(event.u64_field("Blob"), None);
}

#[test]
fn addresses_are_read_at_the_width_of_the_process() {
    let mut event = sample_event();
    event.fields.push(field("Hex", FieldValue::Hex64(0xabc), "h"));
    event.fields.push(field("Hex32", FieldValue::Hex32(0xdef), "h"));
    assert_eq!(event.address_field("Address"), Some(5));
    assert_eq!(event.address_field("Long"), Some(4));
    assert_eq!(event.address_field("Hex"), Some(0xabc));
    assert_eq!(event.address_field("Word"), None);
    assert_eq!(event.address_field("Hex32"), None);
    assert_eq!(event.address_field("Name"), None);
    assert_eq!(event.address_field("Missing"), None);
    // A number in hexadecimal is an address only.
    assert_eq!(event.u64_field("Hex"), None);
    assert_eq!(event.u32_field("Hex32"), None);
    event.is_64bit = false;
    assert_eq!(event.address_field("Address"), Some(5));
    assert_eq!(event.address_field("Long"), None);
    assert_eq!(event.address_field("Hex"), None);
    assert_eq!(event.address_field("Word"), Some(3));
    assert_eq!(event.address_field("Hex32"), Some(0xdef));
}

#[test]
fn fields_are_shown_in_their_order() {
    let event = sample_event();
    assert_eq!(event.text(&vec![]), "b, s, w, l, p, n, g, o, w2, ");
    assert_eq!(event.text(&vec!["Word", "Blob", "Missing"]), "b, s, l, p, n, g, ");
    let mut empty = sample_event();
    empty.fields.clear();
    assert_eq!(empty.text(&vec![]), "");
}

#[test]
fn stacks_are_parsed_from_their_bytes() {
    assert!(parse_stack(&vec![]).is_empty());
    assert!(parse_stack(&vec![1, 2, 3, 4, 5, 6, 7]).is_empty());
    let mut data: Vec<u8> = Vec::new();
    data.extend_from_slice(&0x0102_0304_0506_0708u64.to_le_bytes());
    data.extend_from_slice(&0xffff_f801_0000_0001u64.to_le_bytes());
    data.extend_from_slice(&u64::MAX.to_le_bytes());
    data.extend_from_slice(&[0xaa, 0xbb]);
    assert_eq!(
        parse_stack(&data),
        vec![
            StackFrame::InstructionPointer(0x0102_0304_0506_0708, StackMode::User),
            StackFrame::ReturnAddress(0xffff_f801_0000_0001, StackMode::User),
            StackFrame::ReturnAddress(u64::MAX, StackMode::User),
        ]
    );
    // The first address decides the mode of all frames.
    let mut data: Vec<u8> = Vec::new();
    data.extend_from_slice(&0xffff_0000_0000_0000u64.to_le_bytes());
    data.extend_from_slice(&0x10u64.to_le_bytes());
    assert_eq!(
        parse_stack(&data),
        vec![
            StackFrame::InstructionPointer(0xffff_0000_0000_0000, StackMode::Kernel),
            StackFrame::ReturnAddress(0x10, StackMode::Kernel),
        ]
    );
    assert_eq!(
        parse_stack(&vec![1, 0, 0, 0, 0, 0, 0, 0x80]),
        vec![StackFrame::InstructionPointer(0x8000_0000_0000_0001, StackMode::User)]
    );
}
