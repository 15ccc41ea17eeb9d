use vstd::prelude::*;

verus! {

// The plain data types of the command layer that carry no floating-point
// state: the enumerated drawing attributes, the context creation options,
// and raw image pixel data. The envelope layer treats command payloads as
// opaque; these types belong to the callers that build those payloads.
#[derive(Clone, Copy, PartialEq, Eq, Structural, Debug)]
pub enum WebglPowerPreference {
    DefaultPower,
    HighPerformance,
    LowPower,
}

impl Default for WebglPowerPreference {
    fn default() -> (r: WebglPowerPreference)
        ensures
            r == WebglPowerPreference::DefaultPower,
    {
        WebglPowerPreference::DefaultPower
    }
}

/// Creation options of a WebGL context.
#[derive(Clone, Copy, PartialEq, Eq, Structural, Debug)]
pub struct ContextDataWebgl {
    pub alpha: bool,
    pub desynchronized: bool,
    pub antialias: bool,
    pub depth: bool,
    pub fail_if_major_performance_caveat: bool,
    pub power_preference: WebglPowerPreference,
    pub premultiplied_alpha: bool,
    pub preserve_drawing_buffer: bool,
    pub stencil: bool,
}

impl Default for ContextDataWebgl {
    fn default() -> (r: ContextDataWebgl)
        ensures
            r == (ContextDataWebgl {
                alpha: false,
                desynchronized: false,
                antialias: false,
                depth: false,
                fail_if_major_performance_caveat: false,
                power_preference: WebglPowerPreference::DefaultPower,
                premultiplied_alpha: false,
                preserve_drawing_buffer: false,
                stencil: false,
            }),
    {
        ContextDataWebgl {
            alpha: false,
            desynchronized: false,
            antialias: false,
            depth: false,
            fail_if_major_performance_caveat: false,
            power_preference: WebglPowerPreference::DefaultPower,
            premultiplied_alpha: false,
            preserve_drawing_buffer: false,
            stencil: false,
        }
    }
}

/// Creation options of a two-dimensional context.
#[derive(Clone, Copy, PartialEq, Eq, Structural, Debug)]
pub struct ContextData2D {
    pub alpha: bool,
    pub desynchronized: bool,
}

impl Default for ContextData2D {
    fn default() -> (r: ContextData2D)
        ensures
            r == (ContextData2D { alpha: false, desynchronized: false }),
    {
        ContextData2D { alpha: false, desynchronized: false }
    }
}

#[derive(Clone, Copy, PartialEq, Eq, Structural, Debug)]
pub enum LineCap {
    Butt,
    Round,
    Square,
}

#[derive(Clone, Copy, PartialEq, Eq, Structural, Debug)]
pub enum LineJoin {
    Round,
    Bevel,
    Miter,
}

#[derive(Clone, Copy, PartialEq, Eq, Structural, Debug)]
pub enum TextAlign {
    Start,
    End,
    Left,
    Right,
    Center,
}

#[derive(Clone, Copy, PartialEq, Eq, Structural, Debug)]
pub enum TextBaseline {
    Top,
    Hanging,
    Middle,
    Alphabetic,
    Ideographic,
    Bottom,
}

#[derive(Clone, Copy, PartialEq, Eq, Structural, Debug)]
pub enum TextDirection {
    Ltr,
    Rtl,
    Inherit,
}

#[derive(Clone, Copy, PartialEq, Eq, Structural, Debug)]
pub enum ImageSmoothingQuality {
    Low,
    Medium,
    High,
}

#[derive(Clone, Copy, PartialEq, Eq, Structural, Debug)]
pub enum PatternRepitition {
    Repeat,
    RepeatX,
    RepeatY,
    NoRepeat,
}

/// Raw pixel data of a rectangle of the canvas: one packed RGBA value per
/// pixel, row after row, so pixel (x, y) sits at index `y * width + x`.
#[derive(Clone, Debug)]
pub struct ImageData {
    pub data: Vec<u32>,
    pub width: u32,
    pub height: u32,
}

impl ImageData {
    /// The pixel buffer holds exactly one value per pixel.
    pub open spec fn wf(&self) -> bool {
        self.data@.len() == self.width * self.height
    }

    /// The packed RGBA value of pixel (x, y); coordinates beyond both
    /// bounds read as zero.
    pub fn get_pixel(&self, x: u32, y: u32) -> (p: u32)
        requires
            self.wf(),
            x <= self.width && y <= self.height ==> y * self.width + x < self.data@.len() && y
                * self.width + x <= u32::MAX,
        ensures
            p == if x > self.width || y > self.height {
                0u32
            } else {
                self.data@[y * self.width + x]
            },
    {
        if x > self.width || y > self.height {
            return 0;
        }
        return self.data[(y * self.width + x) as usize];
    }

    /// Overwrites the packed RGBA value of pixel (x, y); coordinates beyond
    /// both bounds change nothing.
    pub fn set_pixel(&mut self, x: u32, y: u32, pixel: u32)
        requires
            old(self).wf(),
            x <= old(self).width && y <= old(self).height ==> y * old(self).width + x < old(
                self,
            ).data@.len() && y * old(self).width + x <= u32::MAX,
        ensures
            final(self).width == old(self).width,
            final(self).height == old(self).height,
            final(self).wf(),
            final(self).data@ == if x > old(self).width || y > old(self).height {
                old(self).data@
            } else {
                old(self).data@.update((y * old(self).width + x) as int, pixel)
            },
    {
        if x > self.width || y > self.height {
            return ;
        }
        let idx: usize = (y * self.width + x) as usize;
        self.data[idx] = pixel;
    }
}

} // verus!
