use vstd::prelude::*;
use vstd::string::StringExecFns;
use crate::codec::{base64_chars, base64_encode, encode_png, png_bytes};
use crate::errors::RenderError;
use crate::compositor::{composite_script, generate_frame};
use crate::props::LoadedProp;
use crate::render::{
    lemma_load_fault_variants, lemma_pure_scene_composites, load_fault, load_scene_props,
    merged_table_matches, path_ok, pure_scene, scene_at, scene_fault,
};
use crate::scene::{scene_wf, CanvasSize, RawStream, Scene};

verus! {

/// The still-frame payload for a composited buffer: a self-describing data
/// URL holding the PNG encoding of the pixels in padded base64.
pub open spec fn data_url(width: u32, height: u32, pixels: Seq<u8>) -> Seq<char> {
    "data:image/png;base64,"@ + base64_chars(png_bytes(width, height, pixels))
}

/// Encodes one composited canvas buffer as a PNG data URL.
pub fn still_payload(canvas: &CanvasSize, buf: &Vec<u8>) -> (res: Result<String, RenderError>)
    requires
        canvas.wf(),
        buf@.len() == canvas.frame_len(),
    ensures
        match res {
            Ok(s) => s@ == data_url(canvas.width, canvas.height, buf@),
            Err(e) => e is EncodeFailed,
        },
        canvas.width <= 0x7FFF_FFFF && canvas.height <= 0x7FFF_FFFF ==> res is Ok,
{
    let png = match encode_png(canvas.width, canvas.height, buf) {
        Some(p) => p,
        None => {
            return Err(RenderError::EncodeFailed);
        },
    };
    let b64 = base64_encode(&png);
    Ok(String::from_str("data:image/png;base64,").concat(b64.as_str()))
}

/// Renders the first frame script of a scene to a PNG data URL: loads the
/// props and precomputes the children, composites the first script, and
/// encodes the result. The caller chooses the frame cap; a still needs only
/// the video frames its script can select.
pub fn render_still(scene: &Scene, streams: &Vec<RawStream>, cap: Option<usize>) -> (res:
    Result<String, RenderError>)
    requires
        scene_wf(*scene),
    ensures
        res == Err::<String, RenderError>(RenderError::NoFrames) <==> scene.frames@.len()
            == 0,
        res matches Ok(s) ==> scene.frames@.len() > 0
            && exists|t: Seq<LoadedProp>| #[trigger] merged_table_matches(*scene, t, streams@,
                cap) && (composite_script(scene.frames@[0], t, scene.canvas)
                matches Ok(pix) && s@ == data_url(scene.canvas.width, scene.canvas.height,
                    pix)),
        res matches Err(e) ==> e is NoFrames || e is EncodeFailed || load_fault(*scene,
            streams@, cap, e),
        pure_scene(*scene, streams@, cap) && scene.frames@.len() > 0
            && scene.canvas.width <= 0x7FFF_FFFF && scene.canvas.height <= 0x7FFF_FFFF
            ==> res is Ok,
{
    if scene.frames.len() == 0 {
        return Err(RenderError::NoFrames);
    }
    let table = match load_scene_props(scene, streams, cap) {
        Ok(t) => t,
        Err(e) => {
            proof {
                lemma_load_fault_variants(*scene, streams@, cap, e);
            }
            return Err(e);
        },
    };
    let script = &scene.frames[0];
    let buf = match generate_frame(script, &table, &scene.canvas) {
        Ok(b) => b,
        Err(e) => {
            proof {
                let p0 = Seq::<int>::empty();
                assert(path_ok(*scene, p0));
                assert(scene_at(*scene, p0) == *scene);
                assert(scene_fault(*scene, streams@, cap, e));
                if pure_scene(*scene, streams@, cap) {
                    lemma_pure_scene_composites(*scene, table.entries@, streams@, cap);
                }
            }
            return Err(e);
        },
    };
    let res = still_payload(&scene.canvas, &buf);
    proof {
        if res is Ok {
            assert(merged_table_matches(*scene, table.entries@, streams@, cap));
        }
    }
    res
}

} // verus!
