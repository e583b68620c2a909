//! Vertex and index buffer bookkeeping.  The buffer and array types wrap
//! ids of objects that live in the graphics API; the layout type is plain
//! data describing how vertex attributes are packed, with the byte stride
//! kept in step with the pushed elements.

use vstd::prelude::*;

verus! {

/// Data-type code for a 32-bit float vertex attribute, as the graphics API
/// defines it.
pub const GL_FLOAT: u32 = 0x1406;

/// Data-type code for a 32-bit signed integer vertex attribute.
pub const GL_INT: u32 = 0x1404;

/// Data-type code for an 8-bit signed integer vertex attribute.
pub const GL_BYTE: u32 = 0x1400;

/// Data-type code for a 32-bit unsigned integer vertex attribute.
pub const GL_UNSIGNED_INT: u32 = 0x1405;

/// Data-type code for an 8-bit unsigned integer vertex attribute.
pub const GL_UNSIGNED_BYTE: u32 = 0x1401;

/// The graphics API's boolean false, used for the "normalized" flag.
pub const GL_FALSE: u8 = 0;

/// Size in bytes of one component of the given data-type code; zero for a
/// code that is not a vertex-attribute type.
pub open spec fn spec_size_of_type(gl_type: u32) -> u32 {
    if gl_type == GL_FLOAT || gl_type == GL_INT || gl_type == GL_UNSIGNED_INT {
        4u32
    } else if gl_type == GL_BYTE || gl_type == GL_UNSIGNED_BYTE {
        1u32
    } else {
        0u32
    }
}

/// A vertex buffer: the id of a buffer object in the graphics API.  The
/// calls that create, fill, bind and delete the object live outside this
/// crate.
pub struct VertexBuffer {
    gl_buffer_id: u32,
}

/// An index buffer: the id of an element-array buffer object in the
/// graphics API.
pub struct IndexBuffer {
    gl_buffer_id: u32,
}

impl VertexBuffer {
    pub closed spec fn spec_id(&self) -> u32 {
        self.gl_buffer_id
    }

    /// Wraps an already created buffer object.
    pub fn from_raw(gl_buffer_id: u32) -> (r: VertexBuffer)
        ensures
            r.spec_id() == gl_buffer_id,
    {
        VertexBuffer { gl_buffer_id }
    }

    pub fn gl_buffer_id(&self) -> (r: u32)
        ensures
            r == self.spec_id(),
    {
        self.gl_buffer_id
    }
}

impl IndexBuffer {
    pub closed spec fn spec_id(&self) -> u32 {
        self.gl_buffer_id
    }

    /// Wraps an already created buffer object.
    pub fn from_raw(gl_buffer_id: u32) -> (r: IndexBuffer)
        ensures
            r.spec_id() == gl_buffer_id,
    {
        IndexBuffer { gl_buffer_id }
    }

    pub fn gl_buffer_id(&self) -> (r: u32)
        ensures
            r == self.spec_id(),
    {
        self.gl_buffer_id
    }
}

/// One attribute of a vertex layout: its data-type code, how many
/// components it has, and whether the API should normalize it.
pub struct VertexBufferElement {
    gl_type: u32,
    count: u32,
    normalized: u8,
}

impl VertexBufferElement {
    pub closed spec fn spec_gl_type(&self) -> u32 {
        self.gl_type
    }

    pub closed spec fn spec_count(&self) -> u32 {
        self.count
    }

    pub closed spec fn spec_normalized(&self) -> u8 {
        self.normalized
    }

    pub fn gl_type(&self) -> (r: u32)
        ensures
            r == self.spec_gl_type(),
    {
        self.gl_type
    }

    pub fn count(&self) -> (r: u32)
        ensures
            r == self.spec_count(),
    {
        self.count
    }

    pub fn normalized(&self) -> (r: u8)
        ensures
            r == self.spec_normalized(),
    {
        self.normalized
    }
}

/// The layout of one vertex: the pushed attributes in order, per-attribute
/// instancing divisors, and the total byte stride of one vertex.
pub struct VertexBufferLayout {
    elements: Vec<VertexBufferElement>,
    divisors: Vec<(u32, u32)>,
    stride: u32,
}

impl VertexBufferLayout {
    pub closed spec fn spec_elements(&self) -> Seq<VertexBufferElement> {
        self.elements@
    }

    pub closed spec fn spec_divisors(&self) -> Seq<(u32, u32)> {
        self.divisors@
    }

    pub closed spec fn spec_stride(&self) -> u32 {
        self.stride
    }

    /// An empty layout with zero stride.
    pub fn new() -> (r: VertexBufferLayout)
        ensures
            r.spec_elements() == Seq::<VertexBufferElement>::empty(),
            r.spec_divisors() == Seq::<(u32, u32)>::empty(),
            r.spec_stride() == 0,
    {
        VertexBufferLayout { elements: Vec::new(), divisors: Vec::new(), stride: 0 }
    }

    /// Appends an attribute of `count` components with the given data-type
    /// code and grows the stride by its byte size.
    fn push_typed(&mut self, gl_type: u32, count: u32)
        requires
            spec_size_of_type(gl_type) > 0,
            old(self).spec_stride() + count * spec_size_of_type(gl_type) <= u32::MAX,
            count * spec_size_of_type(gl_type) <= u32::MAX,
        ensures
            final(self).spec_elements().len() == old(self).spec_elements().len() + 1,
            forall|i: int|
                0 <= i < old(self).spec_elements().len() ==> final(self).spec_elements()[i] == old(
                    self,
                ).spec_elements()[i],
            final(self).spec_elements().last().spec_gl_type() == gl_type,
            final(self).spec_elements().last().spec_count() == count,
            final(self).spec_elements().last().spec_normalized() == GL_FALSE,
            final(self).spec_divisors() == old(self).spec_divisors(),
            final(self).spec_stride() == old(self).spec_stride() + count * spec_size_of_type(
                gl_type,
            ),
    {
        let size: u32 = if gl_type == GL_BYTE || gl_type == GL_UNSIGNED_BYTE {
            1
        } else {
            4
        };
        self.elements.push(
            VertexBufferElement { gl_type, count, normalized: GL_FALSE },
        );
        self.stride = self.stride + count * size;
    }

    /// Appends a float attribute of `count` components.
    pub fn push_f32(&mut self, count: u32)
        requires
            old(self).spec_stride() + count * 4 <= u32::MAX,
            count * 4 <= u32::MAX,
        ensures
            final(self).spec_elements().len() == old(self).spec_elements().len() + 1,
            forall|i: int|
                0 <= i < old(self).spec_elements().len() ==> final(self).spec_elements()[i] == old(
                    self,
                ).spec_elements()[i],
            final(self).spec_elements().last().spec_gl_type() == GL_FLOAT,
            final(self).spec_elements().last().spec_count() == count,
            final(self).spec_divisors() == old(self).spec_divisors(),
            final(self).spec_stride() == old(self).spec_stride() + count * 4,
    {
        self.push_typed(GL_FLOAT, count)
    }

    /// Appends a 32-bit signed integer attribute of `count` components.
    pub fn push_i32(&mut self, count: u32)
        requires
            old(self).spec_stride() + count * 4 <= u32::MAX,
            count * 4 <= u32::MAX,
        ensures
            final(self).spec_elements().len() == old(self).spec_elements().len() + 1,
            forall|i: int|
                0 <= i < old(self).spec_elements().len() ==> final(self).spec_elements()[i] == old(
                    self,
                ).spec_elements()[i],
            final(self).spec_elements().last().spec_gl_type() == GL_INT,
            final(self).spec_elements().last().spec_count() == count,
            final(self).spec_divisors() == old(self).spec_divisors(),
            final(self).spec_stride() == old(self).spec_stride() + count * 4,
    {
        self.push_typed(GL_INT, count)
    }

    /// Appends an 8-bit signed integer attribute of `count` components.
    pub fn push_i8(&mut self, count: u32)
        requires
            old(self).spec_stride() + count <= u32::MAX,
        ensures
            final(self).spec_elements().len() == old(self).spec_elements().len() + 1,
            forall|i: int|
                0 <= i < old(self).spec_elements().len() ==> final(self).spec_elements()[i] == old(
                    self,
                ).spec_elements()[i],
            final(self).spec_elements().last().spec_gl_type() == GL_BYTE,
            final(self).spec_elements().last().spec_count() == count,
            final(self).spec_divisors() == old(self).spec_divisors(),
            final(self).spec_stride() == old(self).spec_stride() + count,
    {
        proof {
            assert(spec_size_of_type(GL_BYTE) == 1);
        }
        self.push_typed(GL_BYTE, count)
    }

    /// Appends a 32-bit unsigned integer attribute of `count` components.
    pub fn push_u32(&mut self, count: u32)
        requires
            old(self).spec_stride() + count * 4 <= u32::MAX,
            count * 4 <= u32::MAX,
        ensures
            final(self).spec_elements().len() == old(self).spec_elements().len() + 1,
            forall|i: int|
                0 <= i < old(self).spec_elements().len() ==> final(self).spec_elements()[i] == old(
                    self,
                ).spec_elements()[i],
            final(self).spec_elements().last().spec_gl_type() == GL_UNSIGNED_INT,
            final(self).spec_elements().last().spec_count() == count,
            final(self).spec_divisors() == old(self).spec_divisors(),
            final(self).spec_stride() == old(self).spec_stride() + count * 4,
    {
        self.push_typed(GL_UNSIGNED_INT, count)
    }

    /// Appends an 8-bit unsigned integer attribute of `count` components.
    pub fn push_u8(&mut self, count: u32)
        requires
            old(self).spec_stride() + count <= u32::MAX,
        ensures
            final(self).spec_elements().len() == old(self).spec_elements().len() + 1,
            forall|i: int|
                0 <= i < old(self).spec_elements().len() ==> final(self).spec_elements()[i] == old(
                    self,
                ).spec_elements()[i],
            final(self).spec_elements().last().spec_gl_type() == GL_UNSIGNED_BYTE,
            final(self).spec_elements().last().spec_count() == count,
            final(self).spec_divisors() == old(self).spec_divisors(),
            final(self).spec_stride() == old(self).spec_stride() + count,
    {
        proof {
            assert(spec_size_of_type(GL_UNSIGNED_BYTE) == 1);
        }
        self.push_typed(GL_UNSIGNED_BYTE, count)
    }

    /// Records an instancing divisor for the attribute at `index`.
    pub fn push_divisor(&mut self, index: u32, divisor: u32)
        ensures
            final(self).spec_divisors() == old(self).spec_divisors().push((index, divisor)),
            final(self).spec_elements() == old(self).spec_elements(),
            final(self).spec_stride() == old(self).spec_stride(),
    {
        self.divisors.push((index, divisor))
    }

    pub fn get_elements(&self) -> (r: &Vec<VertexBufferElement>)
        ensures
            r@ == self.spec_elements(),
    {
        &self.elements
    }

    pub fn get_divisors(&self) -> (r: &Vec<(u32, u32)>)
        ensures
            r@ == self.spec_divisors(),
    {
        &self.divisors
    }

    pub fn get_stride(&self) -> (r: u32)
        ensures
            r == self.spec_stride(),
    {
        self.stride
    }
}

/// A vertex array: the id of a vertex-array object in the graphics API and
/// the next free attribute index.
pub struct VertexArray {
    gl_buffer_id: u32,
    gl_attribute_index: u32,
}

impl VertexArray {
    pub closed spec fn spec_id(&self) -> u32 {
        self.gl_buffer_id
    }

    pub closed spec fn spec_attribute_index(&self) -> u32 {
        self.gl_attribute_index
    }

    /// Wraps an already created vertex-array object with no attributes
    /// bound yet.
    pub fn from_raw(gl_buffer_id: u32) -> (r: VertexArray)
        ensures
            r.spec_id() == gl_buffer_id,
            r.spec_attribute_index() == 0,
    {
        VertexArray { gl_buffer_id, gl_attribute_index: 0 }
    }

    pub fn gl_buffer_id(&self) -> (r: u32)
        ensures
            r == self.spec_id(),
    {
        self.gl_buffer_id
    }

    pub fn attribute_index(&self) -> (r: u32)
        ensures
            r == self.spec_attribute_index(),
    {
        self.gl_attribute_index
    }

    /// Accounts for one more attribute bound by the caller.
    pub fn advance_attribute_index(&mut self)
        requires
            old(self).spec_attribute_index() < u32::MAX,
        ensures
            final(self).spec_id() == old(self).spec_id(),
            final(self).spec_attribute_index() == old(self).spec_attribute_index() + 1,
    {
        self.gl_attribute_index = self.gl_attribute_index + 1;
    }
}

} // verus!
