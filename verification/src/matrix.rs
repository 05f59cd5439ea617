//! The display that frames are sent to.
//!
//! The renderer knows a display by two operations only. Both are best
//! effort: a display that fails keeps its failure to itself.

use vstd::prelude::*;
use crate::framebuffer::FrameBuffer;

verus! {

/// A display.
pub trait DisplayTarget: Send {
    /// Shows a frame.
    fn swap(&mut self, frame: &FrameBuffer);

    /// Sets the brightness, in percent.
    fn set_brightness(&mut self, brightness: u8);
}

/// A display that shows nothing, for machines without the sign.
pub struct MockDisplay;

impl MockDisplay {
    /// A display that shows nothing.
    pub fn new(brightness: u8) -> MockDisplay {
        MockDisplay
    }
}

impl DisplayTarget for MockDisplay {
    fn swap(&mut self, frame: &FrameBuffer) {
    }

    fn set_brightness(&mut self, brightness: u8) {
    }
}

/// The display to use where no sign is attached.
pub fn create_display(brightness: u8) -> Box<dyn DisplayTarget> {
    Box::new(MockDisplay::new(brightness))
}

} // verus!
