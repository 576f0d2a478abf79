use prost_reflect::builder::Builder;

#[test]
fn builder_defaults() {
    let b = Builder::new();
    assert_eq!(b.file_descriptor_set_path, "file_descriptor_set.bin");
    assert_eq!(b.file_descriptor_expr, "crate::FILE_DESCRIPTOR");
}

#[test]
fn builder_setters() {
    let mut b = Builder::new();
    b.file_descriptor_set_path("out/fds.bin".to_owned());
    b.file_descriptor_expr("crate::POOL".to_owned());
    assert_eq!(b.file_descriptor_set_path, "out/fds.bin");
    assert_eq!(b.file_descriptor_expr, "crate::POOL");
}

#[test]
fn builder_attributes() {
    let b = Builder::new();
    assert_eq!(b.derive_attribute(), "#[derive(::prost_reflect::ReflectMessage)]");
    assert_eq!(
        b.reflect_attribute("my.test.Parent"),
        "#[prost_reflect(file_descriptor = \"crate::FILE_DESCRIPTOR\", message_name = \"my.test.Parent\")]"
    );
}
