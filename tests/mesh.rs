use crayon::mesh::{
    size_of_vertex, BufferHint, CustomVertexLayoutBuilder, IndexBufferSetup, IndexFormat,
    Primitive, VertexAttribute, VertexBufferSetup, VertexFormat, VertexLayout,
};

#[test]
fn mesh_basic() {
    let layout = VertexLayout::build()
        .with(VertexAttribute::Position, VertexFormat::Float, 3, true)
        .with(VertexAttribute::Texcoord0, VertexFormat::Float, 2, true)
        .finish();

    assert_eq!(layout.stride(), 20);
    assert_eq!(layout.offset(VertexAttribute::Position), Some(0));
    assert_eq!(layout.offset(VertexAttribute::Texcoord0), Some(12));
    assert_eq!(layout.offset(VertexAttribute::Normal), None);

    let element = layout.element(VertexAttribute::Position).unwrap();
    assert_eq!(element.format, VertexFormat::Float);
    assert_eq!(element.size, 3);
    assert_eq!(element.normalized, true);
    assert_eq!(layout.element(VertexAttribute::Normal), None);
}

#[test]
fn rewrite() {
    let layout = VertexLayout::build()
        .with(VertexAttribute::Position, VertexFormat::Byte, 1, false)
        .with(VertexAttribute::Texcoord0, VertexFormat::Float, 2, true)
        .with(VertexAttribute::Position, VertexFormat::Float, 3, true)
        .finish();

    assert_eq!(layout.stride(), 20);
    assert_eq!(layout.offset(VertexAttribute::Position), Some(0));
    assert_eq!(layout.offset(VertexAttribute::Texcoord0), Some(12));
    assert_eq!(layout.offset(VertexAttribute::Normal), None);

    let element = layout.element(VertexAttribute::Position).unwrap();
    assert_eq!(element.format, VertexFormat::Float);
    assert_eq!(element.size, 3);
    assert_eq!(element.normalized, true);
    assert_eq!(layout.element(VertexAttribute::Normal), None);
}

#[test]
fn layout_len_and_mixed_formats() {
    let layout = VertexLayout::build()
        .with(VertexAttribute::Position, VertexFormat::Short, 3, false)
        .with(VertexAttribute::Color0, VertexFormat::UByte, 4, true)
        .with(VertexAttribute::Normal, VertexFormat::Float, 3, false)
        .finish();
    assert_eq!(layout.len(), 3);
    assert_eq!(layout.offset(VertexAttribute::Position), Some(0));
    assert_eq!(layout.offset(VertexAttribute::Color0), Some(6));
    assert_eq!(layout.offset(VertexAttribute::Normal), Some(10));
    assert_eq!(layout.stride(), 22);
    assert_eq!(VertexLayout::default().stride(), 0);
    assert_eq!(VertexLayout::default().len(), 0);
}

#[test]
fn custom_layout_keeps_given_offsets() {
    let layout = CustomVertexLayoutBuilder::new()
        .with(VertexAttribute::Position, VertexFormat::Float, 2, false, 0)
        .with(VertexAttribute::Color0, VertexFormat::UByte, 4, true, 8)
        .with(VertexAttribute::Position, VertexFormat::Float, 3, false, 99)
        .finish(24);
    assert_eq!(layout.stride(), 24);
    assert_eq!(layout.len(), 2);
    assert_eq!(layout.offset(VertexAttribute::Position), Some(0));
    assert_eq!(layout.offset(VertexAttribute::Color0), Some(8));
    assert_eq!(layout.element(VertexAttribute::Position).unwrap().size, 3);
}

#[test]
fn attribute_names_round_trip() {
    assert_eq!(VertexAttribute::from_str("Texcoord2"), Some(VertexAttribute::Texcoord2));
    assert_eq!(VertexAttribute::from_str("Position"), Some(VertexAttribute::Position));
    assert_eq!(VertexAttribute::from_str("position"), None);
    assert_eq!(VertexAttribute::from_str(""), None);
    assert_eq!(VertexAttribute::Bitangent.name(), "Bitangent");
}

#[test]
fn primitives_assemble() {
    assert_eq!(Primitive::Points.assemble(7), 7);
    assert_eq!(Primitive::Lines.assemble(7), 3);
    assert_eq!(Primitive::LineStrip.assemble(7), 6);
    assert_eq!(Primitive::Triangles.assemble(7), 2);
    assert_eq!(Primitive::TriangleStrip.assemble(7), 5);
    assert_eq!(Primitive::Lines.assemble_triangles(7), 0);
    assert_eq!(Primitive::LineStrip.assemble_triangles(7), 0);
    assert_eq!(Primitive::LineStrip.assemble_triangles(0), 0);
    assert_eq!(Primitive::Triangles.assemble_triangles(9), 3);
    assert_eq!(Primitive::TriangleStrip.assemble_triangles(9), 7);
}

#[test]
fn buffer_sizes() {
    assert_eq!(IndexFormat::U16.len(), 2);
    assert_eq!(IndexFormat::U32.len(), 4);
    let setup = IndexBufferSetup { hint: BufferHint::Stream, num: 10, format: IndexFormat::U32 };
    assert_eq!(setup.len(), 40);
    assert_eq!(IndexBufferSetup::default().len(), 0);

    let layout = VertexLayout::build()
        .with(VertexAttribute::Position, VertexFormat::Float, 3, false)
        .finish();
    let setup = VertexBufferSetup { hint: BufferHint::Dynamic, layout, num: 5 };
    assert_eq!(setup.len(), 60);
    assert_eq!(VertexBufferSetup::default().len(), 0);
    assert_eq!(size_of_vertex(VertexFormat::UShort), 2);
    assert_eq!(size_of_vertex(VertexFormat::Float), 4);
}
