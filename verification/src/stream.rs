//! The shared frame buffer between the asynchronous capture completion
//! (writer) and the per-tick export step (reader): a fixed-size byte
//! buffer of whole frames, overwritten wholesale and exported
//! wholesale, so every push to the encoder is exactly one frame.

use vstd::prelude::*;

verus! {

/// Largest accepted frame edge, in pixels.
pub const MAX_FRAME_EDGE: u32 = 8192;

/// Bytes in one frame: four bytes per pixel.
pub open spec fn frame_size_spec(width: int, height: int) -> int {
    width * height * 4
}

/// The fixed-size shared frame buffer. Its size is set once from the
/// configured dimensions and never changes; a capture completion
/// replaces the whole contents, and an export copies the whole
/// contents.
pub struct FrameBuffer {
    /// Frame width in pixels.
    pub width: u32,
    /// Frame height in pixels.
    pub height: u32,
    buffer: Vec<u8>,
}

impl FrameBuffer {
    /// The bytes of the most recently completed capture.
    pub closed spec fn contents(&self) -> Seq<u8> {
        self.buffer@
    }

    /// The configured frame width, as contracts see it.
    pub closed spec fn spec_width(&self) -> u32 {
        self.width
    }

    /// The configured frame height, as contracts see it.
    pub closed spec fn spec_height(&self) -> u32 {
        self.height
    }

    /// The buffer always holds exactly one frame.
    pub closed spec fn wf(&self) -> bool {
        &&& self.width <= MAX_FRAME_EDGE
        &&& self.height <= MAX_FRAME_EDGE
        &&& self.contents().len() == frame_size_spec(self.width as int, self.height as int)
    }

    /// A zero-filled buffer for the given fixed dimensions.
    pub fn new(width: u32, height: u32) -> (r: Self)
        requires
            width <= MAX_FRAME_EDGE,
            height <= MAX_FRAME_EDGE,
        ensures
            r.wf(),
            r.spec_width() == width,
            r.spec_height() == height,
            r.contents() == Seq::new(frame_size_spec(width as int, height as int) as nat, |i: int| 0u8),
    {
        proof {
            assert((width as int) * (height as int) * 4 <= 8192 * 8192 * 4) by (nonlinear_arith)
                requires
                    width <= 8192,
                    height <= 8192,
            ;
        }
        let size = (width as usize) * (height as usize) * 4;
        let buffer = vec![0u8; size];
        proof {
            assert(buffer@ =~= Seq::new(
                frame_size_spec(width as int, height as int) as nat,
                |i: int| 0u8,
            ));
        }
        FrameBuffer { width, height, buffer }
    }

    /// Overwrite the whole buffer with a newly completed capture. The
    /// capture mechanism always delivers exactly one frame.
    pub fn store_frame(&mut self, data: &[u8])
        requires
            old(self).wf(),
            data@.len() == frame_size_spec(old(self).spec_width() as int, old(self).spec_height() as int),
        ensures
            final(self).wf(),
            final(self).spec_width() == old(self).spec_width(),
            final(self).spec_height() == old(self).spec_height(),
            final(self).contents() == data@,
    {
        self.buffer.clear();
        self.buffer.extend_from_slice(data);
        proof {
            assert(self.buffer@ =~= data@);
        }
    }

    /// Copy out the current contents for one push to the encoder: the
    /// result is always exactly one frame of `width * height * 4`
    /// bytes, whether or not a new capture has completed since the
    /// last push.
    pub fn export_frame(&self) -> (r: Vec<u8>)
        requires
            self.wf(),
        ensures
            r@ == self.contents(),
            r@.len() == frame_size_spec(self.spec_width() as int, self.spec_height() as int),
    {
        let mut out: Vec<u8> = Vec::new();
        out.extend_from_slice(self.buffer.as_slice());
        proof {
            assert(out@ =~= self.buffer@);
        }
        out
    }
}

impl Default for FrameBuffer {
    /// The default 1280 by 720 buffer, zero-filled.
    fn default() -> (r: Self)
        ensures
            r.wf(),
            r.spec_width() == 1280 && r.spec_height() == 720,
    {
        FrameBuffer::new(1280, 720)
    }
}

} // verus!
