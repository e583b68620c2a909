//! Off-screen render targets.  A framebuffer pairs the id of a framebuffer
//! object in the graphics API with the texture it renders into; the status
//! codes the API reports for an incomplete framebuffer are decoded into an
//! error enum.

use std::rc::Rc;

use vstd::prelude::*;

use crate::texture::Texture;

verus! {

/// Status code for a framebuffer whose target is undefined.
pub const GL_FRAMEBUFFER_UNDEFINED: u32 = 0x8219;

/// Status code for an incomplete framebuffer attachment.
pub const GL_FRAMEBUFFER_INCOMPLETE_ATTACHMENT: u32 = 0x8CD6;

/// Status code for a framebuffer with no image attached.
pub const GL_FRAMEBUFFER_INCOMPLETE_MISSING_ATTACHMENT: u32 = 0x8CD7;

/// Status code for an incomplete draw buffer.
pub const GL_FRAMEBUFFER_INCOMPLETE_DRAW_BUFFER: u32 = 0x8CDB;

/// Status code for an incomplete read buffer.
pub const GL_FRAMEBUFFER_INCOMPLETE_READ_BUFFER: u32 = 0x8CDC;

/// Status code for an unsupported attachment combination.
pub const GL_FRAMEBUFFER_UNSUPPORTED: u32 = 0x8CDD;

/// Status code for inconsistent multisample settings.
pub const GL_FRAMEBUFFER_INCOMPLETE_MULTISAMPLE: u32 = 0x8D56;

/// Status code for inconsistent layer targets.
pub const GL_FRAMEBUFFER_INCOMPLETE_LAYER_TARGETS: u32 = 0x8DA8;

/// The ways a framebuffer can be incomplete, decoded from the graphics
/// API's status codes; an unknown code decodes to `Undefined`.
#[derive(Clone, Copy, Debug, PartialEq, Eq, Structural)]
pub enum FrameBufferError {
    Undefined,
    IncompleteAttachment,
    IncompleteMissingAttachment,
    IncompleteDrawBuffer,
    IncompleteReadBuffer,
    Unsupported,
    IncompleteMultisample,
    IncompleteLayerTargets,
}

/// The error that a framebuffer status code decodes to.
pub open spec fn spec_framebuffer_error_of(gl_error_code: u32) -> FrameBufferError {
    if gl_error_code == GL_FRAMEBUFFER_INCOMPLETE_ATTACHMENT {
        FrameBufferError::IncompleteAttachment
    } else if gl_error_code == GL_FRAMEBUFFER_INCOMPLETE_MISSING_ATTACHMENT {
        FrameBufferError::IncompleteMissingAttachment
    } else if gl_error_code == GL_FRAMEBUFFER_INCOMPLETE_DRAW_BUFFER {
        FrameBufferError::IncompleteDrawBuffer
    } else if gl_error_code == GL_FRAMEBUFFER_INCOMPLETE_READ_BUFFER {
        FrameBufferError::IncompleteReadBuffer
    } else if gl_error_code == GL_FRAMEBUFFER_UNSUPPORTED {
        FrameBufferError::Unsupported
    } else if gl_error_code == GL_FRAMEBUFFER_INCOMPLETE_MULTISAMPLE {
        FrameBufferError::IncompleteMultisample
    } else if gl_error_code == GL_FRAMEBUFFER_INCOMPLETE_LAYER_TARGETS {
        FrameBufferError::IncompleteLayerTargets
    } else {
        FrameBufferError::Undefined
    }
}

impl From<u32> for FrameBufferError {
    fn from(gl_error_code: u32) -> (r: Self) {
        if gl_error_code == GL_FRAMEBUFFER_UNDEFINED {
            FrameBufferError::Undefined
        } else if gl_error_code == GL_FRAMEBUFFER_INCOMPLETE_ATTACHMENT {
            FrameBufferError::IncompleteAttachment
        } else if gl_error_code == GL_FRAMEBUFFER_INCOMPLETE_MISSING_ATTACHMENT {
            FrameBufferError::IncompleteMissingAttachment
        } else if gl_error_code == GL_FRAMEBUFFER_INCOMPLETE_DRAW_BUFFER {
            FrameBufferError::IncompleteDrawBuffer
        } else if gl_error_code == GL_FRAMEBUFFER_INCOMPLETE_READ_BUFFER {
            FrameBufferError::IncompleteReadBuffer
        } else if gl_error_code == GL_FRAMEBUFFER_UNSUPPORTED {
            FrameBufferError::Unsupported
        } else if gl_error_code == GL_FRAMEBUFFER_INCOMPLETE_MULTISAMPLE {
            FrameBufferError::IncompleteMultisample
        } else if gl_error_code == GL_FRAMEBUFFER_INCOMPLETE_LAYER_TARGETS {
            FrameBufferError::IncompleteLayerTargets
        } else {
            FrameBufferError::Undefined
        }
    }
}

impl vstd::std_specs::convert::FromSpecImpl<u32> for FrameBufferError {
    open spec fn obeys_from_spec() -> bool {
        true
    }

    open spec fn from_spec(t: u32) -> Self {
        spec_framebuffer_error_of(t)
    }
}

/// An off-screen render target: the id of a framebuffer object in the
/// graphics API and the shared texture it renders into.  Creating, binding
/// and reading the object back are graphics-API calls and live outside
/// this crate.
pub struct FrameBuffer {
    gl_buffer_id: u32,
    texture: Rc<Texture>,
}

impl FrameBuffer {
    pub closed spec fn spec_id(&self) -> u32 {
        self.gl_buffer_id
    }

    pub closed spec fn spec_texture(&self) -> Texture {
        *self.texture
    }

    /// Wraps an already created framebuffer object and its color texture.
    pub fn from_raw(gl_buffer_id: u32, texture: Rc<Texture>) -> (r: FrameBuffer)
        ensures
            r.spec_id() == gl_buffer_id,
            r.spec_texture() == texture,
    {
        FrameBuffer { gl_buffer_id, texture }
    }

    pub fn gl_buffer_id(&self) -> (r: u32)
        ensures
            r == self.spec_id(),
    {
        self.gl_buffer_id
    }

    /// The texture this framebuffer renders into.
    pub fn texture(&self) -> (r: &Rc<Texture>)
        ensures
            **r == self.spec_texture(),
    {
        &self.texture
    }
}

} // verus!
