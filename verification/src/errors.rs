use vstd::prelude::*;
use vstd::string::StringExecFns;

verus! {

/// Why a render was aborted. Every failure carries the offending prop or
/// path, so the caller's error string can identify it.
#[derive(Debug)]
pub enum RenderError {
    /// A stage direction referenced a prop absent from the loaded table.
    PropNotFound(String),
    /// A colour prop declared no colour value.
    MissingColour(String),
    /// A prop ended up with no sprites at all.
    NoSprites(String),
    /// A sprite file could not be opened or decoded as an image.
    DecodeFailed { path: String, prop: String },
    /// No decoded byte stream was supplied for a video prop's source.
    StreamMissing { prop: String, path: String },
    /// A prop declares a raster that is empty or too large to address.
    BadRaster(String),
    /// An image prop's decoded sprites do not share one size.
    MismatchedSprites(String),
    /// The scene has no frame script to render.
    NoFrames,
    /// The composited frame could not be encoded to an image payload.
    EncodeFailed,
}

impl RenderError {
    /// The human-readable error string for this failure.
    pub open spec fn spec_message(&self) -> Seq<char> {
        match self {
            RenderError::PropNotFound(id) => "prop not found: "@ + id@,
            RenderError::MissingColour(id) => "colour prop without a colour: "@ + id@,
            RenderError::NoSprites(id) => "prop has no sprites: "@ + id@,
            RenderError::DecodeFailed { path, prop } =>
                "failed to decode sprite "@ + path@ + " for prop "@ + prop@,
            RenderError::StreamMissing { prop, path } =>
                "no decoded frames supplied for video prop "@ + prop@ + " from "@ + path@,
            RenderError::BadRaster(id) => "invalid raster size for prop: "@ + id@,
            RenderError::MismatchedSprites(id) => "sprites differ in size for prop: "@ + id@,
            RenderError::NoFrames => "scene has no frames"@,
            RenderError::EncodeFailed => "failed to encode frame"@,
        }
    }

    /// Renders the failure as a single descriptive line.
    pub fn message(&self) -> (m: String)
        ensures
            m@ == self.spec_message(),
    {
        match self {
            RenderError::PropNotFound(id) => {
                String::from_str("prop not found: ").concat(id.as_str())
            },
            RenderError::MissingColour(id) => {
                String::from_str("colour prop without a colour: ").concat(id.as_str())
            },
            RenderError::NoSprites(id) => {
                String::from_str("prop has no sprites: ").concat(id.as_str())
            },
            RenderError::DecodeFailed { path, prop } => {
                String::from_str("failed to decode sprite ")
                    .concat(path.as_str())
                    .concat(" for prop ")
                    .concat(prop.as_str())
            },
            RenderError::StreamMissing { prop, path } => {
                String::from_str("no decoded frames supplied for video prop ")
                    .concat(prop.as_str())
                    .concat(" from ")
                    .concat(path.as_str())
            },
            RenderError::BadRaster(id) => {
                String::from_str("invalid raster size for prop: ").concat(id.as_str())
            },
            RenderError::MismatchedSprites(id) => {
                String::from_str("sprites differ in size for prop: ").concat(id.as_str())
            },
            RenderError::NoFrames => String::from_str("scene has no frames"),
            RenderError::EncodeFailed => String::from_str("failed to encode frame"),
        }
    }
}

} // verus!
