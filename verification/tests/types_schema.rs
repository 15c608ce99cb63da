use nemclass::schema::TypeBuilder;
use nemclass::types::{FieldKind, FloatWidth};

#[test]
fn kind_string_roundtrip() {
    let kinds = [
        FieldKind::I32,
        FieldKind::U8,
        FieldKind::F64,
        FieldKind::Bool,
        FieldKind::Ptr,
        FieldKind::StrPtr,
        FieldKind::Unk32,
        FieldKind::Vector { components: 3, width: FloatWidth::F32 },
        FieldKind::Vector { components: 4, width: FloatWidth::F64 },
        FieldKind::Matrix { rows: 4, cols: 4, width: FloatWidth::F32 },
        FieldKind::Matrix { rows: 3, cols: 4, width: FloatWidth::F64 },
    ];
    for k in kinds {
        let s = k.to_kind_string();
        assert_eq!(FieldKind::from_kind_string(&s), Some(k), "roundtrip failed for {s}");
    }
    assert_eq!(FieldKind::from_kind_string("Nope"), None);
    assert_eq!(FieldKind::from_kind_string("Vec9q"), None);
}

#[test]
fn vector_matrix_sizes() {
    assert_eq!(FieldKind::Vector { components: 3, width: FloatWidth::F32 }.size(), 12);
    assert_eq!(FieldKind::Matrix { rows: 4, cols: 4, width: FloatWidth::F32 }.size(), 64);
}

#[test]
fn pointer_width_affects_size() {
    assert_eq!(FieldKind::Ptr.size_with_ptr(8), 8);
    assert_eq!(FieldKind::Ptr.size_with_ptr(4), 4);
    assert_eq!(FieldKind::StrPtr.size_with_ptr(4), 4);
    assert_eq!(FieldKind::I32.size_with_ptr(4), 4);
}

#[test]
fn builder_running_offsets() {
    let t = {
        let mut b = TypeBuilder::new("Player");
        b.field("health", FieldKind::I32)
            .field("pos", FieldKind::Vector { components: 3, width: FloatWidth::F32 })
            .field("next", FieldKind::Ptr);
        b.build()
    };
    assert_eq!(t.fields[0].offset, 0);
    assert_eq!(t.fields[1].offset, 4);
    assert_eq!(t.fields[2].offset, 16);
}

#[test]
fn kind_strings_exact_text() {
    assert_eq!(FieldKind::Vector { components: 3, width: FloatWidth::F32 }.to_kind_string(), "Vec3f");
    assert_eq!(FieldKind::Matrix { rows: 4, cols: 4, width: FloatWidth::F64 }.display_name(), "Mat4x4d");
    assert_eq!(FieldKind::Unk32.to_kind_string(), "Hex32");
    assert_eq!(FieldKind::I16.label(), Some("I16"));
    assert_eq!(FieldKind::Ptr.label(), None);
    assert_eq!(FieldKind::from_kind_string("Vec+3f"), Some(FieldKind::Vector { components: 3, width: FloatWidth::F32 }));
    assert_eq!(FieldKind::from_kind_string("Vec256f"), None);
    assert_eq!(FieldKind::from_kind_string("Mat4d"), None);
    assert_eq!(FieldKind::from_kind_string("Mat12x0d"), Some(FieldKind::Matrix { rows: 12, cols: 0, width: FloatWidth::F64 }));
    assert_eq!(FloatWidth::F64.cpp_ty(), "double");
    assert_eq!(FloatWidth::F32.rust_ty(), "f32");
}

#[test]
fn builder_field_at_and_pad() {
    let mut b = TypeBuilder::new("Sparse").with_ptr_size(4);
    b.field_at("a", FieldKind::Ptr, 0x10).pad(4).field("b", FieldKind::U16);
    let t = b.build();
    assert_eq!(t.name, "Sparse");
    assert_eq!(t.fields[0].offset, 0x10);
    assert_eq!(t.fields[1].offset, 0x18);
}

#[test]
fn builder_keeps_one_field_per_call_in_call_order() {
    let mut b = TypeBuilder::new("Mixed");
    b.field("a", FieldKind::U32)
        .pad(4)
        .field_at("far", FieldKind::U8, 0x40)
        .field_with_meta("next", FieldKind::Ptr, Some("Mixed".into()))
        .pad(2)
        .field("b", FieldKind::I16);
    let t = b.build();
    assert_eq!(t.name, "Mixed");
    let got: Vec<(&str, usize, FieldKind, Option<&str>)> =
        t.fields.iter().map(|f| (f.name.as_str(), f.offset, f.kind, f.metadata.as_deref())).collect();
    assert_eq!(
        got,
        vec![
            ("a", 0, FieldKind::U32, None),
            ("far", 0x40, FieldKind::U8, None),
            ("next", 0x41, FieldKind::Ptr, Some("Mixed")),
            ("b", 0x4B, FieldKind::I16, None),
        ]
    );
}
