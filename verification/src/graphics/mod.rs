//! Graphics: the framebuffer's pixel layout and the text cursor of the window console.
pub mod framebuffer;
