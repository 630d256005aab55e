//! Values the renderer hands to OpenGL, and its errors.

use vstd::prelude::*;
use crate::text::join_text;

verus! {

/// An error of the renderer.
#[derive(Debug)]
pub enum Error {
    /// A shader could not be built; the text describes why.
    Shader(String),
    /// Another error.
    Other(String),
}

impl Error {
    /// The text that describes the error.
    pub open spec fn spec_message(&self) -> Seq<char> {
        match self {
            Error::Shader(err) => "There was an error initializing the shaders: "@ + err@,
            Error::Other(err) => err@,
        }
    }

    /// The text that describes the error.
    pub fn message(&self) -> (r: String)
        ensures
            r@ == self.spec_message(),
    {
        match self {
            Error::Shader(err) => join_text("There was an error initializing the shaders: ", err.as_str()),
            Error::Other(err) => err.clone(),
        }
    }
}

impl From<String> for Error {
    fn from(val: String) -> (r: Error) {
        Error::Other(val)
    }
}

impl vstd::std_specs::convert::FromSpecImpl<String> for Error {
    open spec fn obeys_from_spec() -> bool {
        true
    }

    open spec fn from_spec(val: String) -> Error {
        Error::Other(val)
    }
}

/// How OpenGL draws an array of vertices.
#[derive(Debug, Clone, Copy, PartialEq, Eq, Structural)]
pub enum DrawArrayMode {
    Points,
    LineStrip,
    LineLoop,
    GlTriangles,
}

/// The OpenGL primitive of a draw mode: `GL_POINTS`, `GL_LINE_STRIP`, `GL_LINE_LOOP` or
/// `GL_TRIANGLES`.
pub open spec fn gl_primitive(mode: DrawArrayMode) -> u32 {
    match mode {
        DrawArrayMode::Points => 0x0000,
        DrawArrayMode::LineStrip => 0x0003,
        DrawArrayMode::LineLoop => 0x0002,
        DrawArrayMode::GlTriangles => 0x0004,
    }
}

impl From<DrawArrayMode> for u32 {
    fn from(src: DrawArrayMode) -> (r: u32) {
        match src {
            DrawArrayMode::Points => 0x0000,
            DrawArrayMode::LineStrip => 0x0003,
            DrawArrayMode::LineLoop => 0x0002,
            DrawArrayMode::GlTriangles => 0x0004,
        }
    }
}

impl vstd::std_specs::convert::FromSpecImpl<DrawArrayMode> for u32 {
    open spec fn obeys_from_spec() -> bool {
        true
    }

    open spec fn from_spec(src: DrawArrayMode) -> u32 {
        gl_primitive(src)
    }
}

} // verus!
