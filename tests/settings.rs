use crayon::resource::BytesMetadata;
use crayon::window::{OpenGLAPI, OpenGLProfile, WindowBuilder};

#[test]
fn window_builder_chains() {
    let mut builder = WindowBuilder::new();
    builder
        .with_title("demo")
        .with_position((10, -20))
        .with_dimensions(640, 480)
        .with_multisample(4)
        .with_profile(OpenGLProfile::Compatibility)
        .with_api(OpenGLAPI::GLES(2, 0));
}

#[test]
fn bytes_metadata_copies_content() {
    let meta = BytesMetadata::new();
    assert!(meta.validate(&[1, 2, 3]).is_ok());
    let mut out = vec![9u8; 7];
    meta.build(&[1, 2, 3], &mut out);
    assert_eq!(out, vec![1, 2, 3]);
    meta.build(&[], &mut out);
    assert!(out.is_empty());
}
