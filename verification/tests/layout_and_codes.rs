use engine_gfx::buffer;
use engine_gfx::buffer::IndexBuffer;
use engine_gfx::buffer::VertexArray;
use engine_gfx::buffer::VertexBuffer;
use engine_gfx::buffer::VertexBufferLayout;
use engine_gfx::color::Color;
use engine_gfx::framebuffer;
use engine_gfx::framebuffer::FrameBuffer;
use engine_gfx::framebuffer::FrameBufferError;
use engine_gfx::shader::Shader;
use engine_gfx::texture::Texture;

#[test]
fn layout_tracks_elements_and_stride() {
    let mut layout = VertexBufferLayout::new();
    assert_eq!(layout.get_stride(), 0);
    assert!(layout.get_elements().is_empty());

    layout.push_f32(3);
    assert_eq!(layout.get_stride(), 12);
    layout.push_u8(4);
    assert_eq!(layout.get_stride(), 16);
    layout.push_i32(2);
    assert_eq!(layout.get_stride(), 24);
    layout.push_u32(1);
    assert_eq!(layout.get_stride(), 28);
    layout.push_i8(2);
    assert_eq!(layout.get_stride(), 30);

    let elements = layout.get_elements();
    assert_eq!(elements.len(), 5);
    assert_eq!(elements[0].gl_type(), buffer::GL_FLOAT);
    assert_eq!(elements[0].count(), 3);
    assert_eq!(elements[0].normalized(), buffer::GL_FALSE);
    assert_eq!(elements[1].gl_type(), buffer::GL_UNSIGNED_BYTE);
    assert_eq!(elements[2].gl_type(), buffer::GL_INT);
    assert_eq!(elements[3].gl_type(), buffer::GL_UNSIGNED_INT);
    assert_eq!(elements[4].gl_type(), buffer::GL_BYTE);

    layout.push_divisor(1, 4);
    layout.push_divisor(2, 1);
    assert_eq!(layout.get_divisors().as_slice(), &[(1, 4), (2, 1)]);
}

#[test]
fn type_codes_match_the_graphics_api() {
    assert_eq!(buffer::GL_FLOAT, gl::FLOAT);
    assert_eq!(buffer::GL_INT, gl::INT);
    assert_eq!(buffer::GL_BYTE, gl::BYTE);
    assert_eq!(buffer::GL_UNSIGNED_INT, gl::UNSIGNED_INT);
    assert_eq!(buffer::GL_UNSIGNED_BYTE, gl::UNSIGNED_BYTE);
    assert_eq!(buffer::GL_FALSE, gl::FALSE);
}

#[test]
fn framebuffer_codes_match_the_graphics_api() {
    assert_eq!(framebuffer::GL_FRAMEBUFFER_UNDEFINED, gl::FRAMEBUFFER_UNDEFINED);
    assert_eq!(
        framebuffer::GL_FRAMEBUFFER_INCOMPLETE_ATTACHMENT,
        gl::FRAMEBUFFER_INCOMPLETE_ATTACHMENT
    );
    assert_eq!(
        framebuffer::GL_FRAMEBUFFER_INCOMPLETE_MISSING_ATTACHMENT,
        gl::FRAMEBUFFER_INCOMPLETE_MISSING_ATTACHMENT
    );
    assert_eq!(
        framebuffer::GL_FRAMEBUFFER_INCOMPLETE_DRAW_BUFFER,
        gl::FRAMEBUFFER_INCOMPLETE_DRAW_BUFFER
    );
    assert_eq!(
        framebuffer::GL_FRAMEBUFFER_INCOMPLETE_READ_BUFFER,
        gl::FRAMEBUFFER_INCOMPLETE_READ_BUFFER
    );
    assert_eq!(framebuffer::GL_FRAMEBUFFER_UNSUPPORTED, gl::FRAMEBUFFER_UNSUPPORTED);
    assert_eq!(
        framebuffer::GL_FRAMEBUFFER_INCOMPLETE_MULTISAMPLE,
        gl::FRAMEBUFFER_INCOMPLETE_MULTISAMPLE
    );
    assert_eq!(
        framebuffer::GL_FRAMEBUFFER_INCOMPLETE_LAYER_TARGETS,
        gl::FRAMEBUFFER_INCOMPLETE_LAYER_TARGETS
    );
}

#[test]
fn framebuffer_error_decoding() {
    assert_eq!(
        FrameBufferError::from(gl::FRAMEBUFFER_UNDEFINED),
        FrameBufferError::Undefined
    );
    assert_eq!(
        FrameBufferError::from(gl::FRAMEBUFFER_INCOMPLETE_ATTACHMENT),
        FrameBufferError::IncompleteAttachment
    );
    assert_eq!(
        FrameBufferError::from(gl::FRAMEBUFFER_INCOMPLETE_MISSING_ATTACHMENT),
        FrameBufferError::IncompleteMissingAttachment
    );
    assert_eq!(
        FrameBufferError::from(gl::FRAMEBUFFER_INCOMPLETE_DRAW_BUFFER),
        FrameBufferError::IncompleteDrawBuffer
    );
    assert_eq!(
        FrameBufferError::from(gl::FRAMEBUFFER_INCOMPLETE_READ_BUFFER),
        FrameBufferError::IncompleteReadBuffer
    );
    assert_eq!(
        FrameBufferError::from(gl::FRAMEBUFFER_UNSUPPORTED),
        FrameBufferError::Unsupported
    );
    assert_eq!(
        FrameBufferError::from(gl::FRAMEBUFFER_INCOMPLETE_MULTISAMPLE),
        FrameBufferError::IncompleteMultisample
    );
    assert_eq!(
        FrameBufferError::from(gl::FRAMEBUFFER_INCOMPLETE_LAYER_TARGETS),
        FrameBufferError::IncompleteLayerTargets
    );
    assert_eq!(FrameBufferError::from(0), FrameBufferError::Undefined);
    assert_eq!(FrameBufferError::from(0xDEAD), FrameBufferError::Undefined);
}

#[test]
fn framebuffer_wraps_id_and_texture() {
    let tex = std::rc::Rc::new(Texture::from_raw(9, 64, 48));
    let fb = FrameBuffer::from_raw(3, tex);
    assert_eq!(fb.gl_buffer_id(), 3);
    assert_eq!(fb.texture().width(), 64);
    assert_eq!(fb.texture().height(), 48);
}

#[test]
fn color_round_trips_through_u32() {
    let c = Color::from(0xAA_BB_CC_DDu32);
    assert_eq!(u32::from(c), 0xAA_BB_CC_DD);
    let d = c;
    assert_eq!(u32::from(d), 0xAA_BB_CC_DD);
}

#[test]
fn shader_handle_and_uniform_type() {
    let s = Shader::from_raw(12);
    assert_eq!(s.gl_buffer_id, 12);
    assert_eq!(s.get_type(5), 5);
    assert_eq!(s.get_type(-1), u32::MAX);
}

#[test]
fn parse_splits_shader_sections() {
    let src = "#shader vertex\nA\nB\n#shader fragment\nC\n#shader geometry\nD\n";
    let parts = Shader::parse(src);
    assert_eq!(parts.len(), 3);
    assert_eq!(parts[0], "A\nB\n");
    assert_eq!(parts[1], "C\n");
    assert_eq!(parts[2], "D\n");
}

#[test]
fn parse_drops_lines_outside_any_section() {
    let parts = Shader::parse("junk\nmore junk\n#shader fragment\nF\n");
    assert_eq!(parts[0], "");
    assert_eq!(parts[1], "F\n");
    assert_eq!(parts[2], "");
}

#[test]
fn parse_handles_crlf_and_missing_final_newline() {
    let parts = Shader::parse("#shader vertex\r\nX\r\nY");
    assert_eq!(parts[0], "X\nY\n");
    assert_eq!(parts[1], "");
    assert_eq!(parts[2], "");
}

#[test]
fn parse_keeps_section_on_unknown_shader_tag() {
    let parts = Shader::parse("#shader vertex\nA\n#shader pixel\nB\n");
    // The unrecognized tag line itself is dropped, and the section stays.
    assert_eq!(parts[0], "A\nB\n");
    assert_eq!(parts[1], "");
    assert_eq!(parts[2], "");
}

#[test]
fn parse_of_empty_source_is_empty() {
    let parts = Shader::parse("");
    assert_eq!(parts.len(), 3);
    assert!(parts.iter().all(|p| p.is_empty()));
}

#[test]
fn texture_exposes_its_raw_parts() {
    let t = Texture::from_raw(3, 10, 20);
    assert_eq!(t.gl_texture_id(), 3);
    assert_eq!(t.width(), 10);
    assert_eq!(t.height(), 20);
}

#[test]
fn buffer_handles_expose_their_ids() {
    assert_eq!(VertexBuffer::from_raw(4).gl_buffer_id(), 4);
    assert_eq!(IndexBuffer::from_raw(5).gl_buffer_id(), 5);
    let mut va = VertexArray::from_raw(6);
    assert_eq!(va.gl_buffer_id(), 6);
    assert_eq!(va.attribute_index(), 0);
    va.advance_attribute_index();
    va.advance_attribute_index();
    assert_eq!(va.attribute_index(), 2);
}
