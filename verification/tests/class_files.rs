use nemclass::inspect::{walk, MemoryImage};
use nemclass::project::ClassFile;
use nemclass::scan::{ScanResults, ScanType};
use nemclass::schema::{FieldDef, TypeBuilder, TypeDef};
use nemclass::types::{FieldKind, FloatWidth};

fn player() -> TypeDef {
    let mut b = TypeBuilder::new("Player");
    b.field("health", FieldKind::I32)
        .field("pos", FieldKind::Vector { components: 3, width: FloatWidth::F32 })
        .field_with_meta("target", FieldKind::Ptr, Some("Enemy".into()));
    b.build()
}

#[test]
fn class_file_roundtrip() {
    let p = player();
    let file = ClassFile::from_type(&p);
    assert_eq!(file.fields[1].kind, "Vec3f");
    assert_eq!(file.fields[2].target.as_deref(), Some("Enemy"));
    let back = file.into_type().unwrap();
    assert_eq!(back, p);
}

fn field(name: &str, offset: usize, kind: FieldKind, meta: Option<&str>) -> FieldDef {
    FieldDef { name: name.into(), offset, kind, metadata: meta.map(|m| m.to_string()) }
}

#[test]
fn walk_over_a_memory_image_reads_each_field_at_its_address() {
    let classes = vec![
        TypeDef {
            name: "Player".into(),
            fields: vec![
                field("hp", 0, FieldKind::U16, None),
                field("next", 8, FieldKind::Ptr, Some("Node")),
                field("tag", 16, FieldKind::StrPtr, None),
                field("far", 0x100, FieldKind::U8, None),
            ],
        },
        TypeDef { name: "Node".into(), fields: vec![field("v", 0, FieldKind::U32, None)] },
    ];
    let mut bytes = vec![0u8; 0x40];
    bytes[0] = 0x2C;
    bytes[1] = 0x01;
    bytes[8..16].copy_from_slice(&0x1020u64.to_le_bytes());
    bytes[16..24].copy_from_slice(&0x1030u64.to_le_bytes());
    bytes[0x20..0x24].copy_from_slice(&77u32.to_le_bytes());
    bytes[0x30..0x34].copy_from_slice(b"boss");
    let image = MemoryImage::new(0x1000, bytes, 8);
    let mut path = Vec::new();
    let rows = walk(&classes, "Player", 0x1000, 8, Some(&image), &mut path, &[vec![1]], 0);
    assert_eq!(rows.len(), 4);
    assert_eq!(rows[0].value.as_deref(), Some("300"));
    assert_eq!(rows[1].pointee, Some(0x1020));
    assert_eq!(rows[1].children.len(), 1);
    assert_eq!(rows[1].children[0].address, 0x1020);
    assert_eq!(rows[1].children[0].value.as_deref(), Some("77"));
    assert_eq!(rows[2].pointee, Some(0x1030));
    assert_eq!(rows[2].value.as_deref(), Some("\"boss\""));
    assert_eq!(rows[3].value, None);
    assert!(path.is_empty());
}

#[test]
fn value_bytes_exist_exactly_for_each_address() {
    let r = ScanResults::from_parts(ScanType::U16, 2, vec![0x10, 0x20], vec![1, 0, 2, 0]).unwrap();
    assert_eq!(r.value_bytes(1), Some(&[2u8, 0][..]));
    assert_eq!(r.value_bytes(2), None);
}
