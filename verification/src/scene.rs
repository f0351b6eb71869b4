use vstd::prelude::*;

verus! {

/// Fallback raster size for colour and video props that declare no explicit
/// width or height.
pub const DEFAULT_PROP_WIDTH: u32 = 1920;
pub const DEFAULT_PROP_HEIGHT: u32 = 1080;

/// Canvas dimensions in pixels, fixed for the lifetime of a render.
#[derive(Clone)]
pub struct CanvasSize {
    pub width: u32,
    pub height: u32,
}

impl CanvasSize {
    /// Positive in both axes, with one frame buffer addressable in memory.
    pub open spec fn wf(&self) -> bool {
        &&& self.width > 0
        &&& self.height > 0
        &&& self.width * self.height * 4 <= usize::MAX
    }

    /// Byte length of one flat RGBA frame buffer for this canvas.
    pub open spec fn frame_len(&self) -> int {
        self.width * self.height * 4
    }

    /// Runtime check of `wf`, for callers holding an untrusted scene.
    pub fn is_wf(&self) -> (b: bool)
        ensures
            b == self.wf(),
    {
        if self.width == 0 || self.height == 0 {
            return false;
        }
        let wu: u128 = self.width as u128;
        let hu: u128 = self.height as u128;
        proof {
            assert(wu * hu < 0x10000000000000000) by (nonlinear_arith)
                requires
                    wu < 0x100000000,
                    hu < 0x100000000,
            ;
        }
        let bytes: u128 = wu * hu * 4;
        bytes <= usize::MAX as u128
    }
}

/// What a prop is decoded from: static sprite paths, one video source, or a
/// solid colour fill.
#[derive(Clone, Copy, Debug, PartialEq, Eq, Structural)]
pub enum PropKind {
    Image,
    Video,
    Colour,
}

/// How a prop's pixels land on the canvas: opaque overwrite, or blending by
/// the source's own alpha channel.
#[derive(Clone, Copy, Debug, PartialEq, Eq, Structural)]
pub enum CompositeMode {
    Copy,
    Overlay,
}

/// A solid colour, painted at full opacity.
#[derive(Clone, Copy, Debug, PartialEq, Eq, Structural)]
pub struct Rgb {
    pub r: u8,
    pub g: u8,
    pub b: u8,
}

/// A reusable visual asset definition. `sprites` lists the image paths of an
/// `Image` prop; for a `Video` prop its first entry is the source path.
pub struct Prop {
    pub id: String,
    pub kind: PropKind,
    pub mode: CompositeMode,
    pub sprites: Vec<String>,
    pub width: Option<u32>,
    pub height: Option<u32>,
    pub colour: Option<Rgb>,
    pub disabled: bool,
}

impl Prop {
    /// Declared raster width, or the default when none was declared.
    pub open spec fn spec_raster_width(&self) -> u32 {
        match self.width {
            Some(w) => w,
            None => DEFAULT_PROP_WIDTH,
        }
    }

    /// Declared raster height, or the default when none was declared.
    pub open spec fn spec_raster_height(&self) -> u32 {
        match self.height {
            Some(h) => h,
            None => DEFAULT_PROP_HEIGHT,
        }
    }

    /// Declared raster width, or the default when none was declared.
    pub fn raster_width(&self) -> (w: u32)
        ensures
            w == self.spec_raster_width(),
    {
        match self.width {
            Some(w) => w,
            None => DEFAULT_PROP_WIDTH,
        }
    }

    /// Declared raster height, or the default when none was declared.
    pub fn raster_height(&self) -> (h: u32)
        ensures
            h == self.spec_raster_height(),
    {
        match self.height {
            Some(h) => h,
            None => DEFAULT_PROP_HEIGHT,
        }
    }
}

impl Scene {
    /// Runtime check of `distinct_prop_ids`.
    pub fn has_distinct_prop_ids(&self) -> (b: bool)
        ensures
            b == distinct_prop_ids(*self),
    {
        let np = self.props.len();
        let nc = self.precompute.len();
        let mut i: usize = 0;
        while i < np
            invariant
                i <= np,
                np == self.props@.len(),
                nc == self.precompute@.len(),
                forall|a: int, b: int| 0 <= a < b < np && a < i
                    ==> (#[trigger] self.props@[a]).id@ != (#[trigger] self.props@[b]).id@,
                forall|a: int, b: int| 0 <= a < np && 0 <= b < nc && a < i
                    ==> (#[trigger] self.props@[a]).id@ != (#[trigger] self.precompute@[b]).id@,
            decreases np - i,
        {
            let mut j: usize = i + 1;
            while j < np
                invariant
                    i < np,
                    i < j,
                    j <= np,
                    np == self.props@.len(),
                    forall|b: int| i < b < j
                        ==> self.props@[i as int].id@ != (#[trigger] self.props@[b]).id@,
                decreases np - j,
            {
                if self.props[i].id == self.props[j].id {
                    return false;
                }
                j = j + 1;
            }
            let mut k: usize = 0;
            while k < nc
                invariant
                    i < np,
                    k <= nc,
                    np == self.props@.len(),
                    nc == self.precompute@.len(),
                    forall|b: int| 0 <= b < k
                        ==> self.props@[i as int].id@ != (#[trigger] self.precompute@[b]).id@,
                decreases nc - k,
            {
                if self.props[i].id == self.precompute[k].id {
                    return false;
                }
                k = k + 1;
            }
            i = i + 1;
        }
        let mut i: usize = 0;
        while i < nc
            invariant
                i <= nc,
                nc == self.precompute@.len(),
                forall|a: int, b: int| 0 <= a < b < nc && a < i
                    ==> (#[trigger] self.precompute@[a]).id@
                        != (#[trigger] self.precompute@[b]).id@,
            decreases nc - i,
        {
            let mut j: usize = i + 1;
            while j < nc
                invariant
                    i < nc,
                    i < j,
                    j <= nc,
                    nc == self.precompute@.len(),
                    forall|b: int| i < b < j
                        ==> self.precompute@[i as int].id@
                            != (#[trigger] self.precompute@[b]).id@,
                decreases nc - j,
            {
                if self.precompute[i].id == self.precompute[j].id {
                    return false;
                }
                j = j + 1;
            }
            i = i + 1;
        }
        true
    }
}

/// One decoded video byte stream, as the external decoder hands it back:
/// raw RGBA frames concatenated without padding, identified by the source
/// path and the target size the decoder rescaled to.
pub struct RawStream {
    pub path: String,
    pub width: u32,
    pub height: u32,
    pub data: Vec<u8>,
}

/// One placement instruction: paint a sprite of the named prop with its
/// top-left corner at the requested position, the position clamped so that
/// the placement stays on the canvas.
pub struct StageDirection {
    pub label: Option<String>,
    pub prop: String,
    pub sprite: Option<usize>,
    pub x: u32,
    pub y: u32,
    pub width: Option<u32>,
    pub height: Option<u32>,
}

/// The ordered list of stage directions composing one output frame; later
/// directions paint over earlier ones.
pub struct Script {
    pub id: String,
    pub directions: Vec<StageDirection>,
}

/// A declarative render job: canvas, prop table, nested scenes to precompute
/// into synthetic props, and one script per output frame in temporal order.
pub struct Scene {
    pub id: String,
    pub canvas: CanvasSize,
    pub frame_rate: u32,
    pub audio: Option<String>,
    pub props: Vec<Prop>,
    pub precompute: Vec<Scene>,
    pub frames: Vec<Script>,
}

/// The identifiers of the merged prop table are unique: no two prop
/// definitions share an identifier, no two precompute children do, and no
/// child shadows a definition.
pub open spec fn distinct_prop_ids(s: Scene) -> bool {
    &&& forall|i: int, j: int| 0 <= i < j < s.props@.len()
        ==> (#[trigger] s.props@[i]).id@ != (#[trigger] s.props@[j]).id@
    &&& forall|i: int, j: int| 0 <= i < j < s.precompute@.len()
        ==> (#[trigger] s.precompute@[i]).id@ != (#[trigger] s.precompute@[j]).id@
    &&& forall|i: int, j: int| 0 <= i < s.props@.len() && 0 <= j < s.precompute@.len()
        ==> (#[trigger] s.props@[i]).id@ != (#[trigger] s.precompute@[j]).id@
}

/// A renderable scene tree: this scene's canvas is well-formed, its merged
/// prop identifiers are unique, and the same holds of every precompute
/// child, recursively.
pub open spec fn scene_wf(s: Scene) -> bool
    decreases s,
{
    s.canvas.wf() && distinct_prop_ids(s) && scenes_wf(s.precompute@)
}

/// Every scene in the sequence is a well-formed scene tree.
pub open spec fn scenes_wf(cs: Seq<Scene>) -> bool
    decreases cs,
{
    forall|i: int| 0 <= i < cs.len() ==> scene_wf(#[trigger] cs[i])
}

impl Scene {
    /// Runtime check of `scene_wf`, for callers holding an untrusted scene.
    pub fn is_wf(&self) -> (b: bool)
        ensures
            b == scene_wf(*self),
        decreases *self,
    {
        if !self.canvas.is_wf() {
            return false;
        }
        if !self.has_distinct_prop_ids() {
            return false;
        }
        let n = self.precompute.len();
        let mut i: usize = 0;
        while i < n
            invariant
                i <= n,
                n == self.precompute@.len(),
                forall|k: int| 0 <= k < i ==> scene_wf(#[trigger] self.precompute@[k]),
            decreases n - i,
        {
            let child = &self.precompute[i];
            proof {
                assert(decreases_to!(*self => self.precompute@[i as int]));
            }
            if !child.is_wf() {
                return false;
            }
            i = i + 1;
        }
        true
    }
}

} // verus!
