use maze_walk::{process_shader_source, Shader};

#[test]
fn vertex_stage_gets_a_define_after_the_version() {
    let src = "#version 100\nvoid main() {}\n";
    let s = process_shader_source(src.as_bytes().to_vec()).ok().unwrap();
    assert_eq!(s.vertex, "#version 100\n#define VERTEX\nvoid main() {}\n");
    assert_eq!(s.fragment, src);
}

#[test]
fn shader_source_errors() {
    let err = |b: &[u8]| match process_shader_source(b.to_vec()) {
        Ok(_) => panic!("expected an error"),
        Err(e) => e,
    };
    assert_eq!(err(b"void main() {}\n"), "expected version directive");
    assert_eq!(err(b"#vers"), "expected version directive");
    assert_eq!(err(b"#version 100"), "expected newline after version directive");
    assert_eq!(err(&[0x23, 0xff, 0xfe]), "failed to read shader utf8");
}

#[test]
fn shader_new_copies_sources() {
    let s = Shader::new("a", "b");
    assert_eq!(s.vertex, "a");
    assert_eq!(s.fragment, "b");
}
