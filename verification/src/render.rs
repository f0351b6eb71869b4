use vstd::prelude::*;
use crate::bitmap::Bitmap;
use crate::compositor::{composite_script, generate_frame, lemma_composite_resolves, zero_frame};
use crate::errors::RenderError;
use crate::loader::{
    lemma_table_matches_covers, lemma_table_matches_ids, load_props, prop_fault, props_fault,
    pure_props, table_matches,
};
use crate::props::{find_loaded, lemma_find_loaded};
use crate::props::{LoadedProp, PropTable};
use crate::scene::{scene_wf, CanvasSize, CompositeMode, PropKind, RawStream, Scene, Script};

verus! {

/// The witness for how a scene's table was assembled: the scene's own
/// merged entries, and one subtree per precompute child describing the
/// child's table in the same way.
pub struct TableTree {
    pub entries: Seq<LoadedProp>,
    pub children: Seq<TableTree>,
}

/// The sprites of a synthetic prop are exactly the composites of the
/// child's frame scripts against the table `tc`.
pub open spec fn frames_to_sprites(child: Scene, tc: Seq<LoadedProp>, sprites: Seq<Bitmap>) -> bool {
    forall|q: int| 0 <= q < child.frames@.len()
        ==> (composite_script(child.frames@[q], tc, child.canvas)
            matches Ok(bq) && (#[trigger] sprites[q]).data@ == bq)
}

/// A witness tree for a whole scene: some prefix of its entries matches
/// the scene's own prop definitions, the remainder holds one synthetic
/// image-kind, copy-composited prop per precompute child, in order, under
/// the child's identifier and canvas size — and each synthetic prop's
/// sprites are exactly the composites of that child's frame scripts
/// against the child's own witnessed table, recursively.
pub open spec fn table_tree_matches(
    scene: Scene,
    tt: TableTree,
    streams: Seq<RawStream>,
    cap: Option<usize>,
) -> bool
    decreases tt,
{
    let b = tt.entries.len() - scene.precompute@.len();
    &&& b >= 0
    &&& table_matches(scene.props@, tt.entries.subrange(0, b), streams, cap)
    &&& forall|ci: int| 0 <= ci < scene.precompute@.len() ==> {
        &&& (#[trigger] tt.entries[b + ci]).id@ == scene.precompute@[ci].id@
        &&& tt.entries[b + ci].kind is Image
        &&& tt.entries[b + ci].mode is Copy
        &&& tt.entries[b + ci].width == scene.precompute@[ci].canvas.width
        &&& tt.entries[b + ci].height == scene.precompute@[ci].canvas.height
        &&& tt.entries[b + ci].sprites@.len() == scene.precompute@[ci].frames@.len()
    }
    &&& children_trees_match(scene.precompute@, tt.children, tt.entries, b, streams, cap)
}

/// One witness subtree per precompute child, in order, each matching its
/// child scene, with the parent's synthetic sprites pinned to the child's
/// composites.
pub open spec fn children_trees_match(
    cs: Seq<Scene>,
    ts: Seq<TableTree>,
    parent: Seq<LoadedProp>,
    b: int,
    streams: Seq<RawStream>,
    cap: Option<usize>,
) -> bool
    decreases ts,
{
    &&& ts.len() == cs.len()
    &&& forall|ci: int| 0 <= ci < cs.len() ==> {
        &&& table_tree_matches(cs[ci], #[trigger] ts[ci], streams, cap)
        &&& frames_to_sprites(cs[ci], ts[ci].entries, parent[b + ci].sprites@)
    }
}

/// A loaded table for a whole scene: some witness tree with exactly these
/// entries matches the scene, pinning the prefix to the scene's own prop
/// definitions and every synthetic prop's sprites to its child scene's
/// rendered frames.
pub open spec fn merged_table_matches(
    scene: Scene,
    entries: Seq<LoadedProp>,
    streams: Seq<RawStream>,
    cap: Option<usize>,
) -> bool {
    exists|tt: TableTree| #[trigger] table_tree_matches(scene, tt, streams, cap)
        && tt.entries == entries
}

/// The scene reached from `s` by taking the indexed precompute child at
/// each step of `path`.
pub open spec fn scene_at(s: Scene, path: Seq<int>) -> Scene
    decreases path.len(),
{
    if path.len() == 0 {
        s
    } else {
        scene_at(s.precompute@[path[0]], path.skip(1))
    }
}

/// Every step of `path` names an existing precompute child.
pub open spec fn path_ok(s: Scene, path: Seq<int>) -> bool
    decreases path.len(),
{
    path.len() == 0 || (0 <= path[0] < s.precompute@.len()
        && path_ok(s.precompute@[path[0]], path.skip(1)))
}

/// How one scene of the tree fails on its own: one of its prop definitions
/// is at fault; or a precompute child renders no frame at all, so it cannot
/// become a sprite; or compositing its frame scripts hits a missing prop
/// reference at the first failing script.
pub open spec fn scene_fault(
    n: Scene,
    streams: Seq<RawStream>,
    cap: Option<usize>,
    e: RenderError,
) -> bool {
    ||| props_fault(n.props@, streams, cap, e)
    ||| (e matches RenderError::NoSprites(m) && exists|ci: int| 0 <= ci < n.precompute@.len()
        && m@ == (#[trigger] n.precompute@[ci]).id@
        && n.precompute@[ci].frames@.len() == 0)
    ||| (e matches RenderError::PropNotFound(m) && exists|t: Seq<LoadedProp>|
        #[trigger] merged_table_matches(n, t, streams, cap) && exists|k: int| {
            &&& 0 <= k < n.frames@.len()
            &&& forall|l: int| 0 <= l < k ==> composite_script(#[trigger] n.frames@[l], t,
                n.canvas) is Ok
            &&& composite_script(n.frames@[k], t, n.canvas) == Err::<Seq<u8>, Seq<char>>(m@)
        })
}

/// How rendering a scene tree fails: some scene of the tree — the root, or
/// a precompute descendant on `path` — fails on its own.
pub open spec fn load_fault(
    s: Scene,
    streams: Seq<RawStream>,
    cap: Option<usize>,
    e: RenderError,
) -> bool {
    exists|path: Seq<int>| #[trigger] path_ok(s, path)
        && scene_fault(scene_at(s, path), streams, cap, e)
}

/// A scene-tree fault is never the empty-scene or encoder error: those two
/// arise only past the load, so a caller can tell the stages apart.
pub proof fn lemma_load_fault_variants(
    s: Scene,
    streams: Seq<RawStream>,
    cap: Option<usize>,
    e: RenderError,
)
    requires
        load_fault(s, streams, cap, e),
    ensures
        !(e is NoFrames),
        !(e is EncodeFailed),
{
    let path = choose|path: Seq<int>| #[trigger] path_ok(s, path)
        && scene_fault(scene_at(s, path), streams, cap, e);
    let n = scene_at(s, path);
    if props_fault(n.props@, streams, cap, e) {
        let i = choose|i: int| {
            &&& 0 <= i < n.props@.len()
            &&& !(#[trigger] n.props@[i]).disabled
            &&& forall|l: int| 0 <= l < i ==> (#[trigger] n.props@[l]).disabled
                || prop_fault(n.props@[l], streams, cap) is None
            &&& match prop_fault(n.props@[i], streams, cap) {
                Some(e2) => e == e2,
                None => n.props@[i].kind is Image && {
                    ||| (e matches RenderError::DecodeFailed { path, prop }
                        && prop@ == n.props@[i].id@
                        && exists|k: int| 0 <= k < n.props@[i].sprites@.len()
                            && path@ == (#[trigger] n.props@[i].sprites@[k])@)
                    ||| (e matches RenderError::MismatchedSprites(m)
                        && m@ == n.props@[i].id@)
                },
            }
        };
    }
}

/// The identifier resolves in the scene's merged table: it names an
/// enabled prop definition or a precompute child.
pub open spec fn id_in_scene(s: Scene, id: Seq<char>) -> bool {
    ||| exists|i: int| 0 <= i < s.props@.len() && !(#[trigger] s.props@[i]).disabled
        && s.props@[i].id@ == id
    ||| exists|ci: int| 0 <= ci < s.precompute@.len()
        && (#[trigger] s.precompute@[ci]).id@ == id
}

/// Every direction of every frame script references a prop of the merged
/// table.
pub open spec fn refs_resolve(s: Scene) -> bool {
    forall|i: int, d: int| 0 <= i < s.frames@.len()
        && 0 <= d < s.frames@[i].directions@.len()
        ==> id_in_scene(s, (#[trigger] s.frames@[i].directions@[d]).prop@)
}

/// A scene tree that the library alone decides: no prop definition leaves
/// anything to an outside decode, every frame reference resolves, and
/// every precompute child is itself pure with at least one frame.
/// Rendering such a tree always succeeds.
pub open spec fn pure_scene(s: Scene, streams: Seq<RawStream>, cap: Option<usize>) -> bool
    decreases s,
{
    &&& pure_props(s.props@, streams, cap)
    &&& refs_resolve(s)
    &&& pure_children(s.precompute@, streams, cap)
}

/// Every scene in the sequence is pure and renders at least one frame.
pub open spec fn pure_children(cs: Seq<Scene>, streams: Seq<RawStream>, cap: Option<usize>) -> bool
    decreases cs,
{
    forall|ci: int| 0 <= ci < cs.len() ==> pure_scene(#[trigger] cs[ci], streams, cap)
        && cs[ci].frames@.len() >= 1
}

/// Against any table matching the scene, every frame script of a scene
/// whose references resolve composites successfully.
pub proof fn lemma_pure_scene_composites(
    s: Scene,
    t: Seq<LoadedProp>,
    streams: Seq<RawStream>,
    cap: Option<usize>,
)
    requires
        refs_resolve(s),
        merged_table_matches(s, t, streams, cap),
    ensures
        forall|i: int| 0 <= i < s.frames@.len()
            ==> composite_script(#[trigger] s.frames@[i], t, s.canvas) is Ok,
{
    let tt = choose|tt: TableTree| #[trigger] table_tree_matches(s, tt, streams, cap)
        && tt.entries == t;
    let b = t.len() - s.precompute@.len();
    lemma_table_matches_covers(s.props@, tt.entries.subrange(0, b), streams, cap);
    assert forall|i: int| 0 <= i < s.frames@.len()
        implies composite_script(#[trigger] s.frames@[i], t, s.canvas) is Ok by {
        assert forall|d: int| 0 <= d < s.frames@[i].directions@.len() implies find_loaded(t,
            (#[trigger] s.frames@[i].directions@[d]).prop@) is Some by {
            let id = s.frames@[i].directions@[d].prop@;
            assert(id_in_scene(s, id));
            lemma_find_loaded(t, id);
            if find_loaded(t, id) is None {
                if exists|q: int| 0 <= q < s.props@.len() && !(#[trigger] s.props@[q]).disabled
                    && s.props@[q].id@ == id {
                    let q = choose|q: int| 0 <= q < s.props@.len()
                        && !(#[trigger] s.props@[q]).disabled && s.props@[q].id@ == id;
                    let l0 = choose|l: int| 0 <= l < tt.entries.subrange(0, b).len()
                        && (#[trigger] tt.entries.subrange(0, b)[l]).id@ == s.props@[q].id@;
                    assert(tt.entries.subrange(0, b)[l0] == t[l0]);
                } else {
                    let ci = choose|ci: int| 0 <= ci < s.precompute@.len()
                        && (#[trigger] s.precompute@[ci]).id@ == id;
                    assert(t[b + ci].id@ == id);
                }
            }
        }
        lemma_composite_resolves(s.frames@[i].directions@, t, s.canvas,
            zero_frame(s.canvas));
    }
}

/// Every script composites successfully against the table, and the frame
/// buffers are exactly those composites, in script order.
pub open spec fn frames_match(
    scripts: Seq<Script>,
    entries: Seq<LoadedProp>,
    canvas: CanvasSize,
    frames: Seq<Vec<u8>>,
) -> bool {
    &&& frames.len() == scripts.len()
    &&& forall|i: int| 0 <= i < scripts.len()
        ==> (composite_script(#[trigger] scripts[i], entries, canvas)
            matches Ok(b) && b == frames[i]@)
}

/// Composites every frame script in order against one loaded-prop table.
/// On success the result holds exactly one buffer per script, in script
/// order, each the script's composite; the first missing prop reference
/// aborts the whole render.
pub fn render_frames(scripts: &Vec<Script>, table: &PropTable, canvas: &CanvasSize) -> (res:
    Result<Vec<Vec<u8>>, RenderError>)
    requires
        canvas.wf(),
        table.wf(),
    ensures
        match res {
            Ok(frames) => {
                &&& frames@.len() == scripts@.len()
                &&& forall|i: int| 0 <= i < scripts@.len()
                    ==> (composite_script(#[trigger] scripts@[i], table.entries@, *canvas)
                        matches Ok(b) && b == frames@[i]@)
                &&& forall|i: int| 0 <= i < scripts@.len()
                    ==> (#[trigger] frames@[i])@.len() == canvas.frame_len()
            },
            Err(e) => e matches RenderError::PropNotFound(m) && exists|k: int| {
                &&& 0 <= k < scripts@.len()
                &&& forall|l: int| 0 <= l < k ==> composite_script(#[trigger] scripts@[l],
                    table.entries@, *canvas) is Ok
                &&& composite_script(#[trigger] scripts@[k], table.entries@, *canvas)
                    == Err::<Seq<u8>, Seq<char>>(m@)
            },
        },
{
    let mut frames: Vec<Vec<u8>> = Vec::new();
    let n = scripts.len();
    let mut i: usize = 0;
    while i < n
        invariant
            canvas.wf(),
            table.wf(),
            i <= n,
            n == scripts@.len(),
            frames@.len() == i,
            forall|l: int| 0 <= l < i ==> (composite_script(#[trigger] scripts@[l],
                table.entries@, *canvas) matches Ok(b) && b == frames@[l]@),
            forall|l: int| 0 <= l < i ==> (#[trigger] frames@[l])@.len()
                == canvas.frame_len(),
        decreases n - i,
    {
        let script = &scripts[i];
        match generate_frame(script, table, canvas) {
            Ok(buf) => {
                frames.push(buf);
            },
            Err(e) => {
                proof {
                    let k = i as int;
                    assert(0 <= k < scripts@.len() && forall|l: int| 0 <= l < k
                        ==> composite_script(#[trigger] scripts@[l], table.entries@,
                            *canvas) is Ok);
                }
                return Err(e);
            },
        }
        i = i + 1;
    }
    Ok(frames)
}

/// Loads the scene's own props and then precomputes every child scene,
/// in order, into a synthetic image-kind, copy-composited prop appended to
/// the table under the child's identifier. A scene whose enabled props are
/// all well-formed colour fills and which precomputes nothing always loads.
#[verifier::rlimit(80)]
pub fn load_scene_props(scene: &Scene, streams: &Vec<RawStream>, cap: Option<usize>) -> (res:
    Result<PropTable, RenderError>)
    requires
        scene_wf(*scene),
    ensures
        res matches Ok(t) ==> t.wf() && merged_table_matches(*scene, t.entries@, streams@,
            cap),
        res matches Err(e) ==> load_fault(*scene, streams@, cap, e),
        pure_props(scene.props@, streams@, cap) && scene.precompute@.len() == 0 ==> res is Ok,
        pure_scene(*scene, streams@, cap) ==> res is Ok,
    decreases *scene, 0nat,
{
    let mut table = match load_props(&scene.props, streams, cap) {
        Ok(t) => t,
        Err(e) => {
            proof {
                let p0 = Seq::<int>::empty();
                assert(path_ok(*scene, p0));
                assert(scene_at(*scene, p0) == *scene);
                assert(scene_fault(*scene, streams@, cap, e));
            }
            return Err(e);
        },
    };
    let ghost base = table.entries@;
    let ghost b = base.len() as int;
    proof {
        lemma_table_matches_ids(scene.props@, base, streams@, cap);
    }
    let cn = scene.precompute.len();
    let ghost mut tts: Seq<TableTree> = Seq::empty();
    let mut ci: usize = 0;
    while ci < cn
        invariant
            scene_wf(*scene),
            cn == scene.precompute@.len(),
            ci <= cn,
            table.wf(),
            forall|l: int| 0 <= l < b ==> exists|q: int| 0 <= q < scene.props@.len()
                && !scene.props@[q].disabled
                && (#[trigger] table.entries@[l]).id@ == scene.props@[q].id@,
            b == base.len(),
            table.entries@.len() == b + ci,
            table.entries@.subrange(0, b) =~= base,
            table_matches(scene.props@, base, streams@, cap),
            forall|l: int| 0 <= l < ci ==> {
                &&& (#[trigger] table.entries@[b + l]).id@ == scene.precompute@[l].id@
                &&& table.entries@[b + l].kind is Image
                &&& table.entries@[b + l].mode is Copy
                &&& table.entries@[b + l].width == scene.precompute@[l].canvas.width
                &&& table.entries@[b + l].height == scene.precompute@[l].canvas.height
                &&& table.entries@[b + l].sprites@.len() == scene.precompute@[l].frames@.len()
            },
            tts.len() == ci,
            forall|l: int| 0 <= l < ci ==> {
                &&& table_tree_matches(#[trigger] scene.precompute@[l], tts[l], streams@,
                    cap)
                &&& frames_to_sprites(scene.precompute@[l], tts[l].entries,
                    table.entries@[b + l].sprites@)
            },
        decreases cn - ci,
    {
        let child = &scene.precompute[ci];
        proof {
            assert(decreases_to!(*scene => scene.precompute@[ci as int]));
        }
        let mut child_frames = match render_scene_frames(child, streams, cap) {
            Ok(f) => f,
            Err(e) => {
                proof {
                    let p = choose|p: Seq<int>| #[trigger] path_ok(*child, p)
                        && scene_fault(scene_at(*child, p), streams@, cap, e);
                    let p2 = seq![ci as int] + p;
                    assert(p2[0] == ci as int);
                    assert(p2.skip(1) =~= p);
                    assert(path_ok(*scene, p2));
                    assert(scene_at(*scene, p2) == scene_at(*child, p));
                }
                return Err(e);
            },
        };
        if child_frames.len() == 0 {
            proof {
                let p0 = Seq::<int>::empty();
                assert(path_ok(*scene, p0));
                assert(scene_at(*scene, p0) == *scene);
            }
            return Err(RenderError::NoSprites(child.id.clone()));
        }
        let cw = child.canvas.width;
        let chh = child.canvas.height;
        let ghost cf = child_frames@;
        let m = child_frames.len();
        let mut sprites: Vec<Bitmap> = Vec::new();
        let mut k: usize = 0;
        while k < m
            invariant
                m == cf.len(),
                k <= m,
                child_frames@ == cf.skip(k as int),
                sprites@.len() == k,
                forall|q: int| 0 <= q < cf.len() ==> (#[trigger] cf[q])@.len()
                    == cw * chh * 4,
                forall|q: int| 0 <= q < k ==> {
                    &&& (#[trigger] sprites@[q]).width == cw
                    &&& sprites@[q].height == chh
                    &&& sprites@[q].wf()
                    &&& sprites@[q].data@ == cf[q]@
                },
            decreases m - k,
        {
            proof {
                assert(cf.skip(k as int)[0] == cf[k as int]);
            }
            let d = child_frames.remove(0);
            proof {
                assert(child_frames@ =~= cf.skip(k as int + 1));
            }
            sprites.push(Bitmap { width: cw, height: chh, data: d });
            k = k + 1;
        }
        let ghost before = table.entries@;
        table.entries.push(LoadedProp {
            id: child.id.clone(),
            kind: PropKind::Image,
            mode: CompositeMode::Copy,
            sprites,
            width: cw,
            height: chh,
        });
        proof {
            assert(table.entries@.subrange(0, b) =~= base);
            assert forall|l: int| 0 <= l < before.len() implies (#[trigger] table.entries@[l])
                == before[l] by {}
            let ni = before.len() as int;
            assert(table.entries@[ni].id@ == scene.precompute@[ci as int].id@);
            let child_s = scene.precompute@[ci as int];
            let t0 = choose|t: Seq<LoadedProp>| merged_table_matches(child_s, t, streams@,
                cap) && #[trigger] frames_match(child_s.frames@, t, child_s.canvas, cf);
            assert(merged_table_matches(child_s, t0, streams@, cap));
            let ct = choose|tt: TableTree| #[trigger] table_tree_matches(child_s, tt,
                streams@, cap) && tt.entries == t0;
            assert(table_tree_matches(child_s, ct, streams@, cap));
            assert forall|q: int| 0 <= q < child_s.frames@.len() implies (composite_script(
                child_s.frames@[q], ct.entries, child_s.canvas) matches Ok(bq)
                && (#[trigger] table.entries@[ni].sprites@[q]).data@ == bq) by {
                assert(table.entries@[ni].sprites@[q].data@ == cf[q]@);
            }
            assert(frames_to_sprites(child_s, ct.entries, table.entries@[ni].sprites@));
            tts = tts.push(ct);
            assert forall|l: int| 0 <= l < ni implies (#[trigger] table.entries@[l]).id@
                != table.entries@[ni].id@ by {
                if l < b {
                    let q = choose|q: int| 0 <= q < scene.props@.len()
                        && !scene.props@[q].disabled && before[l].id@ == scene.props@[q].id@;
                    assert(scene.props@[q].id@ != scene.precompute@[ci as int].id@);
                } else {
                    let cj = l - b;
                    assert(before[b + cj].id@ == scene.precompute@[cj].id@);
                    assert(scene.precompute@[cj].id@ != scene.precompute@[ci as int].id@);
                }
            }
        }
        ci = ci + 1;
    }
    proof {
        let tt0 = TableTree { entries: table.entries@, children: tts };
        assert(children_trees_match(scene.precompute@, tts, table.entries@, b, streams@,
            cap));
        assert(table_tree_matches(*scene, tt0, streams@, cap));
    }
    Ok(table)
}

/// Renders one scene into its ordered frame buffers: loads its props,
/// precomputes its children, then composites every frame script in order.
/// Each returned buffer holds exactly `width * height * 4` bytes of the
/// scene's canvas.
#[verifier::rlimit(80)]
pub fn render_scene_frames(scene: &Scene, streams: &Vec<RawStream>, cap: Option<usize>) -> (res:
    Result<Vec<Vec<u8>>, RenderError>)
    requires
        scene_wf(*scene),
    ensures
        res matches Ok(frames) ==> {
            &&& frames@.len() == scene.frames@.len()
            &&& forall|i: int| 0 <= i < frames@.len() ==> (#[trigger] frames@[i])@.len()
                == scene.canvas.frame_len()
            &&& exists|t: Seq<LoadedProp>| merged_table_matches(*scene, t, streams@, cap)
                && #[trigger] frames_match(scene.frames@, t, scene.canvas, frames@)
        },
        res matches Err(e) ==> load_fault(*scene, streams@, cap, e),
        pure_scene(*scene, streams@, cap) ==> res is Ok,
    decreases *scene, 1nat,
{
    let table = match load_scene_props(scene, streams, cap) {
        Ok(t) => t,
        Err(e) => {
            return Err(e);
        },
    };
    match render_frames(&scene.frames, &table, &scene.canvas) {
        Ok(frames) => {
            proof {
                assert(frames_match(scene.frames@, table.entries@, scene.canvas, frames@));
            }
            Ok(frames)
        },
        Err(e) => {
            proof {
                let p0 = Seq::<int>::empty();
                assert(path_ok(*scene, p0));
                assert(scene_at(*scene, p0) == *scene);
                assert(scene_fault(*scene, streams@, cap, e));
                if pure_scene(*scene, streams@, cap) {
                    lemma_pure_scene_composites(*scene, table.entries@, streams@, cap);
                }
            }
            Err(e)
        },
    }
}

} // verus!
