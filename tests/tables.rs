use vmm::tables::{encode_leb_u64, ConstExpr, RefType, TableSection, TableType, ValType};

fn table(minimum: u64, maximum: Option<u64>) -> TableType {
    TableType { element_type: RefType::FuncRef, table64: false, minimum, maximum, shared: false }
}

#[test]
fn leb128_bytes() {
    let mut v = Vec::new();
    encode_leb_u64(0, &mut v);
    encode_leb_u64(127, &mut v);
    encode_leb_u64(128, &mut v);
    encode_leb_u64(624485, &mut v);
    assert_eq!(v, vec![0x00, 0x7f, 0x80, 0x01, 0xe5, 0x8e, 0x26]);
    let mut w = Vec::new();
    encode_leb_u64(u64::MAX, &mut w);
    assert_eq!(w, vec![0xff, 0xff, 0xff, 0xff, 0xff, 0xff, 0xff, 0xff, 0xff, 0x01]);
}

#[test]
fn table_type_encoding() {
    let mut v = Vec::new();
    table(1, None).encode(&mut v);
    assert_eq!(v, vec![0x70, 0x00, 0x01]);
    let mut v = Vec::new();
    let t = TableType { element_type: RefType::ExternRef, table64: true, minimum: 200, maximum: Some(300), shared: true };
    t.encode(&mut v);
    assert_eq!(v, vec![0x6f, 0x07, 0xc8, 0x01, 0xac, 0x02]);
}

#[test]
fn index_types() {
    assert_eq!(table(0, None).index_type(), ValType::I32);
    let t = TableType { table64: true, ..table(0, None) };
    assert_eq!(t.index_type(), ValType::I64);
}

#[test]
fn table_section_collects_tables() {
    let mut s = TableSection::new();
    assert!(s.is_empty());
    s.table(table(1, Some(2))).table(table(0, None));
    assert_eq!(s.len(), 2);
    assert!(!s.is_empty());
    assert_eq!(s.as_bytes().clone(), vec![0x70, 0x01, 0x01, 0x02, 0x70, 0x00, 0x00]);
}

#[test]
fn table_with_init_expression() {
    let mut s = TableSection::new();
    let init = ConstExpr { bytes: vec![0xd0, 0x70] };
    s.table_with_init(table(3, None), &init);
    assert_eq!(s.len(), 1);
    assert_eq!(s.as_bytes().clone(), vec![0x40, 0x00, 0x70, 0x00, 0x03, 0xd0, 0x70, 0x0b]);
}
