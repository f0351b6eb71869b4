use vstd::prelude::*;
use crate::bitmap::{fill_bytes, Bitmap};
use crate::codec::decode_image_file;
use crate::compositor::imin;
use crate::errors::RenderError;
use crate::frames::split_frames;
use crate::props::{LoadedProp, PropTable};
use crate::scene::{Prop, PropKind, RawStream};

verus! {

/// Index of the first stream decoded from `path` at the target size, if
/// any. A decoded stream is identified by its source path and target size,
/// so one source decoded at two sizes yields two distinct streams.
pub open spec fn find_stream(s: Seq<RawStream>, path: Seq<char>, w: u32, h: u32) -> Option<int>
    decreases s.len(),
{
    if s.len() == 0 {
        None
    } else if s[0].path@ == path && s[0].width == w && s[0].height == h {
        Some(0int)
    } else {
        match find_stream(s.skip(1), path, w, h) {
            None => None,
            Some(j) => Some(j + 1),
        }
    }
}

/// What `find_stream` returns: the first matching index, or nothing when no
/// stream matches.
pub proof fn lemma_find_stream(s: Seq<RawStream>, path: Seq<char>, w: u32, h: u32)
    ensures
        match find_stream(s, path, w, h) {
            Some(j) => 0 <= j < s.len() && s[j].path@ == path && s[j].width == w
                && s[j].height == h
                && forall|k: int| 0 <= k < j ==> !((#[trigger] s[k]).path@ == path
                    && s[k].width == w && s[k].height == h),
            None => forall|k: int| 0 <= k < s.len() ==> !((#[trigger] s[k]).path@ == path
                && s[k].width == w && s[k].height == h),
        },
    decreases s.len(),
{
    if s.len() > 0 && !(s[0].path@ == path && s[0].width == w && s[0].height == h) {
        let t = s.skip(1);
        lemma_find_stream(t, path, w, h);
        match find_stream(t, path, w, h) {
            Some(j) => {
                assert(s[j + 1] == t[j]);
                assert forall|k: int| 0 <= k < j + 1 implies !((#[trigger] s[k]).path@ == path
                    && s[k].width == w && s[k].height == h) by {
                    if k >= 1 {
                        assert(s[k] == t[k - 1]);
                    }
                }
            },
            None => {
                assert forall|k: int| 0 <= k < s.len() implies !((#[trigger] s[k]).path@ == path
                    && s[k].width == w && s[k].height == h) by {
                    if k >= 1 {
                        assert(s[k] == t[k - 1]);
                    }
                }
            },
        }
    }
}

/// Resolves a video source to the first matching decoded stream.
fn find_stream_index(streams: &Vec<RawStream>, path: &String, w: u32, h: u32) -> (r: Option<
    usize,
>)
    ensures
        match r {
            Some(j) => find_stream(streams@, path@, w, h) == Some(j as int),
            None => find_stream(streams@, path@, w, h) is None,
        },
{
    let n = streams.len();
    let mut i: usize = 0;
    while i < n
        invariant
            i <= n,
            n == streams@.len(),
            forall|k: int| 0 <= k < i ==> !((#[trigger] streams@[k]).path@ == path@
                && streams@[k].width == w && streams@[k].height == h),
        decreases n - i,
    {
        let s = &streams[i];
        if s.path == *path && s.width == w && s.height == h {
            proof {
                lemma_find_stream(streams@, path@, w, h);
            }
            return Some(i);
        }
        i = i + 1;
    }
    proof {
        lemma_find_stream(streams@, path@, w, h);
    }
    None
}

/// How one loaded prop relates to its definition. A colour prop is pinned
/// exactly to its fill; a video prop is pinned exactly to the frames split
/// from its decoded stream; an image prop's pixels come from disk, so only
/// the sprite count is stated.
pub open spec fn entry_matches(
    d: Prop,
    e: LoadedProp,
    streams: Seq<RawStream>,
    cap: Option<usize>,
) -> bool {
    &&& e.id@ == d.id@
    &&& e.kind == d.kind
    &&& e.mode == d.mode
    &&& e.wf()
    &&& match d.kind {
        PropKind::Colour => d.colour matches Some(c) && {
            &&& e.width == d.spec_raster_width()
            &&& e.height == d.spec_raster_height()
            &&& e.sprites@.len() == 1
            &&& e.sprites@[0].data@ == fill_bytes((e.width * e.height * 4) as nat, c.r, c.g,
                c.b)
        },
        PropKind::Image => e.sprites@.len() == d.sprites@.len(),
        PropKind::Video => {
            &&& d.sprites@.len() >= 1
            &&& find_stream(streams, d.sprites@[0]@, d.spec_raster_width(),
                d.spec_raster_height()) matches Some(j) && {
            let fs = d.spec_raster_width() * d.spec_raster_height() * 4;
            let full = streams[j].data@.len() as int / fs;
            let want = match cap {
                Some(c) => imin(c as int, full),
                None => full,
            };
            &&& e.width == d.spec_raster_width()
            &&& e.height == d.spec_raster_height()
            &&& e.sprites@.len() == want
            &&& want >= 1
                &&& forall|i: int| 0 <= i < want ==> (#[trigger] e.sprites@[i]).data@
                    == streams[j].data@.subrange(i * fs, (i + 1) * fs)
            }
        },
    }
}

/// The loaded table holds exactly one matching entry for each enabled
/// definition, in definition order; disabled definitions are skipped.
pub open spec fn table_matches(
    defs: Seq<Prop>,
    entries: Seq<LoadedProp>,
    streams: Seq<RawStream>,
    cap: Option<usize>,
) -> bool
    decreases defs.len(),
{
    if defs.len() == 0 {
        entries.len() == 0
    } else if defs[0].disabled {
        table_matches(defs.skip(1), entries, streams, cap)
    } else {
        entries.len() > 0 && entry_matches(defs[0], entries[0], streams, cap)
            && table_matches(defs.skip(1), entries.skip(1), streams, cap)
    }
}

/// Appending a disabled definition leaves the match as it was.
proof fn lemma_table_matches_push_disabled(
    defs: Seq<Prop>,
    entries: Seq<LoadedProp>,
    streams: Seq<RawStream>,
    cap: Option<usize>,
    d: Prop,
)
    requires
        table_matches(defs, entries, streams, cap),
        d.disabled,
    ensures
        table_matches(defs.push(d), entries, streams, cap),
    decreases defs.len(),
{
    if defs.len() == 0 {
        assert(defs.push(d)[0] == d);
        assert(defs.push(d).skip(1) =~= defs);
    } else {
        assert(defs.push(d)[0] == defs[0]);
        assert(defs.push(d).skip(1) =~= defs.skip(1).push(d));
        if defs[0].disabled {
            lemma_table_matches_push_disabled(defs.skip(1), entries, streams, cap, d);
        } else {
            lemma_table_matches_push_disabled(defs.skip(1), entries.skip(1), streams, cap, d);
        }
    }
}

/// Appending an enabled definition and its matching entry extends the
/// match by one.
proof fn lemma_table_matches_push_enabled(
    defs: Seq<Prop>,
    entries: Seq<LoadedProp>,
    streams: Seq<RawStream>,
    cap: Option<usize>,
    d: Prop,
    e: LoadedProp,
)
    requires
        table_matches(defs, entries, streams, cap),
        !d.disabled,
        entry_matches(d, e, streams, cap),
    ensures
        table_matches(defs.push(d), entries.push(e), streams, cap),
    decreases defs.len(),
{
    if defs.len() == 0 {
        assert(defs.push(d)[0] == d);
        assert(entries.push(e)[0] == e);
        assert(defs.push(d).skip(1) =~= defs);
        assert(entries.push(e).skip(1) =~= entries);
    } else {
        assert(defs.push(d)[0] == defs[0]);
        assert(defs.push(d).skip(1) =~= defs.skip(1).push(d));
        if defs[0].disabled {
            lemma_table_matches_push_enabled(defs.skip(1), entries, streams, cap, d, e);
        } else {
            assert(entries.push(e)[0] == entries[0]);
            assert(entries.push(e).skip(1) =~= entries.skip(1).push(e));
            lemma_table_matches_push_enabled(defs.skip(1), entries.skip(1), streams, cap, d, e);
        }
    }
}

/// No two prop definitions share an identifier.
pub open spec fn distinct_def_ids(defs: Seq<Prop>) -> bool {
    forall|i: int, j: int| 0 <= i < j < defs.len()
        ==> (#[trigger] defs[i]).id@ != (#[trigger] defs[j]).id@
}

/// In a matching table every entry carries the identifier of some enabled
/// definition, and when the definitions' identifiers are unique so are the
/// entries'.
pub proof fn lemma_table_matches_ids(
    defs: Seq<Prop>,
    entries: Seq<LoadedProp>,
    streams: Seq<RawStream>,
    cap: Option<usize>,
)
    requires
        table_matches(defs, entries, streams, cap),
    ensures
        forall|l: int| 0 <= l < entries.len() ==> exists|i: int| 0 <= i < defs.len()
            && !defs[i].disabled && (#[trigger] entries[l]).id@ == defs[i].id@,
        distinct_def_ids(defs) ==> forall|l1: int, l2: int| 0 <= l1 < l2 < entries.len()
            ==> (#[trigger] entries[l1]).id@ != (#[trigger] entries[l2]).id@,
    decreases defs.len(),
{
    if defs.len() == 0 {
    } else {
        let ds = defs.skip(1);
        assert forall|k: int| 0 <= k < ds.len() implies (#[trigger] ds[k]) == defs[k + 1] by {}
        if defs[0].disabled {
            lemma_table_matches_ids(ds, entries, streams, cap);
            assert forall|l: int| 0 <= l < entries.len() implies exists|i: int| 0 <= i
                < defs.len() && !defs[i].disabled && (#[trigger] entries[l]).id@
                == defs[i].id@ by {
                let i0 = choose|i: int| 0 <= i < ds.len() && !ds[i].disabled
                    && entries[l].id@ == ds[i].id@;
                assert(defs[i0 + 1] == ds[i0]);
            }
            if distinct_def_ids(defs) {
                assert(distinct_def_ids(ds));
            }
        } else {
            let es = entries.skip(1);
            assert forall|k: int| 0 <= k < es.len() implies (#[trigger] es[k])
                == entries[k + 1] by {}
            lemma_table_matches_ids(ds, es, streams, cap);
            assert forall|l: int| 0 <= l < entries.len() implies exists|i: int| 0 <= i
                < defs.len() && !defs[i].disabled && (#[trigger] entries[l]).id@
                == defs[i].id@ by {
                if l == 0 {
                    assert(!defs[0].disabled && entries[0].id@ == defs[0].id@);
                } else {
                    assert(entries[l] == es[l - 1]);
                    let i0 = choose|i: int| 0 <= i < ds.len() && !ds[i].disabled
                        && es[l - 1].id@ == ds[i].id@;
                    assert(defs[i0 + 1] == ds[i0]);
                }
            }
            if distinct_def_ids(defs) {
                assert(distinct_def_ids(ds));
                assert forall|l1: int, l2: int| 0 <= l1 < l2 < entries.len() implies
                    (#[trigger] entries[l1]).id@ != (#[trigger] entries[l2]).id@ by {
                    if l1 == 0 {
                        assert(entries[l2] == es[l2 - 1]);
                        let i0 = choose|i: int| 0 <= i < ds.len() && !ds[i].disabled
                            && es[l2 - 1].id@ == ds[i].id@;
                        assert(defs[i0 + 1] == ds[i0]);
                        assert(defs[0].id@ != defs[i0 + 1].id@);
                    } else {
                        assert(entries[l1] == es[l1 - 1]);
                        assert(entries[l2] == es[l2 - 1]);
                    }
                }
            }
        }
    }
}

/// A matching table covers every enabled definition: some entry carries
/// its identifier.
pub proof fn lemma_table_matches_covers(
    defs: Seq<Prop>,
    entries: Seq<LoadedProp>,
    streams: Seq<RawStream>,
    cap: Option<usize>,
)
    requires
        table_matches(defs, entries, streams, cap),
    ensures
        forall|i: int| 0 <= i < defs.len() && !(#[trigger] defs[i]).disabled
            ==> exists|l: int| 0 <= l < entries.len() && (#[trigger] entries[l]).id@
                == defs[i].id@,
    decreases defs.len(),
{
    if defs.len() > 0 {
        let ds = defs.skip(1);
        assert forall|k: int| 0 <= k < ds.len() implies (#[trigger] ds[k]) == defs[k + 1] by {}
        if defs[0].disabled {
            lemma_table_matches_covers(ds, entries, streams, cap);
            assert forall|i: int| 0 <= i < defs.len() && !(#[trigger] defs[i]).disabled
                implies exists|l: int| 0 <= l < entries.len() && (#[trigger] entries[l]).id@
                    == defs[i].id@ by {
                assert(ds[i - 1] == defs[i]);
            }
        } else {
            let es = entries.skip(1);
            assert forall|k: int| 0 <= k < es.len() implies (#[trigger] es[k])
                == entries[k + 1] by {}
            lemma_table_matches_covers(ds, es, streams, cap);
            assert forall|i: int| 0 <= i < defs.len() && !(#[trigger] defs[i]).disabled
                implies exists|l: int| 0 <= l < entries.len() && (#[trigger] entries[l]).id@
                    == defs[i].id@ by {
                if i == 0 {
                    assert(entries[0].id@ == defs[0].id@);
                } else {
                    assert(ds[i - 1] == defs[i]);
                    let l0 = choose|l: int| 0 <= l < es.len() && (#[trigger] es[l]).id@
                        == ds[i - 1].id@;
                    assert(entries[l0 + 1] == es[l0]);
                }
            }
        }
    }
}

/// The failure the loader itself decides for one definition, before any
/// outside call is made: the exact error it raises, in check order, or
/// nothing when only an outside image decode could still fail it. A colour
/// definition fails without a colour value or with an unaddressable
/// raster; an image definition fails with no sprite paths; a video
/// definition fails with no source path, a degenerate or unaddressable
/// raster, a missing decoded stream, or a stream and cap that yield no
/// complete frame at all.
pub open spec fn prop_fault(d: Prop, streams: Seq<RawStream>, cap: Option<usize>) -> Option<
    RenderError,
> {
    match d.kind {
        PropKind::Colour => if d.colour is None {
            Some(RenderError::MissingColour(d.id))
        } else if !(d.spec_raster_width() * d.spec_raster_height() * 4 <= usize::MAX) {
            Some(RenderError::BadRaster(d.id))
        } else {
            None
        },
        PropKind::Image => if d.sprites@.len() == 0 {
            Some(RenderError::NoSprites(d.id))
        } else {
            None
        },
        PropKind::Video => if d.sprites@.len() == 0 {
            Some(RenderError::NoSprites(d.id))
        } else if d.spec_raster_width() == 0 || d.spec_raster_height() == 0
            || !(d.spec_raster_width() * d.spec_raster_height() * 4 <= usize::MAX) {
            Some(RenderError::BadRaster(d.id))
        } else {
            match find_stream(streams, d.sprites@[0]@, d.spec_raster_width(),
                d.spec_raster_height()) {
                None => Some(RenderError::StreamMissing { prop: d.id, path: d.sprites@[0] }),
                Some(j) => {
                    let fs = d.spec_raster_width() * d.spec_raster_height() * 4;
                    let full = streams[j].data@.len() as int / fs;
                    let want = match cap {
                        Some(c) => imin(c as int, full),
                        None => full,
                    };
                    if want < 1 {
                        Some(RenderError::NoSprites(d.id))
                    } else {
                        None
                    }
                },
            }
        },
    }
}

/// How the loader fails on a definition table: some enabled definition is
/// at fault — its library-decided fault pinned exactly, or, for an image
/// definition with no such fault, an outside decode refused one of its
/// paths or returned sprites of differing sizes — and every earlier
/// enabled definition is free of library-decided faults.
pub open spec fn props_fault(
    defs: Seq<Prop>,
    streams: Seq<RawStream>,
    cap: Option<usize>,
    e: RenderError,
) -> bool {
    exists|i: int| {
        &&& 0 <= i < defs.len()
        &&& !(#[trigger] defs[i]).disabled
        &&& forall|l: int| 0 <= l < i ==> (#[trigger] defs[l]).disabled || prop_fault(defs[l],
            streams, cap) is None
        &&& match prop_fault(defs[i], streams, cap) {
            Some(e2) => e == e2,
            None => defs[i].kind is Image && {
                ||| (e matches RenderError::DecodeFailed { path, prop } && prop@ == defs[i].id@
                    && exists|k: int| 0 <= k < defs[i].sprites@.len()
                        && path@ == (#[trigger] defs[i].sprites@[k])@)
                ||| (e matches RenderError::MismatchedSprites(m) && m@ == defs[i].id@)
            },
        }
    }
}

/// A definition table whose enabled props have no library-decided fault
/// and leave nothing to an outside decode: no outside call decides the
/// load, so loading such a table always succeeds.
pub open spec fn pure_props(defs: Seq<Prop>, streams: Seq<RawStream>, cap: Option<usize>) -> bool {
    forall|i: int| 0 <= i < defs.len() && !(#[trigger] defs[i]).disabled ==> {
        &&& !(defs[i].kind is Image)
        &&& prop_fault(defs[i], streams, cap) is None
    }
}

/// Loads every enabled prop definition into its decoded, render-ready
/// form: colour props are synthesised as a single filled bitmap, image
/// props decode every sprite path from disk, video props take their frames
/// from the supplied decoded streams, bounded by the frame cap when one is
/// given. Any failure aborts the whole load with an error naming the
/// offending prop or path.
#[verifier::rlimit(50)]
pub fn load_props(defs: &Vec<Prop>, streams: &Vec<RawStream>, cap: Option<usize>) -> (res:
    Result<PropTable, RenderError>)
    requires
        distinct_def_ids(defs@),
    ensures
        res matches Ok(t) ==> t.wf() && table_matches(defs@, t.entries@, streams@, cap),
        res matches Err(e) ==> props_fault(defs@, streams@, cap, e),
        pure_props(defs@, streams@, cap) ==> res is Ok,
{
    let mut entries: Vec<LoadedProp> = Vec::new();
    let n = defs.len();
    let mut i: usize = 0;
    proof {
        assert(defs@.subrange(0, 0) =~= Seq::<Prop>::empty());
    }
    while i < n
        invariant
            i <= n,
            n == defs@.len(),
            table_matches(defs@.subrange(0, i as int), entries@, streams@, cap),
            forall|l: int| 0 <= l < i ==> (#[trigger] defs@[l]).disabled || prop_fault(defs@[l],
                streams@, cap) is None,
            forall|m: int| 0 <= m < entries@.len() ==> (#[trigger] entries@[m]).wf(),
        decreases n - i,
    {
        let ghost done = defs@.subrange(0, i as int);
        let def = &defs[i];
        if def.disabled {
            proof {
                lemma_table_matches_push_disabled(done, entries@, streams@, cap, defs@[i as int]);
                assert(defs@.subrange(0, i as int + 1) =~= done.push(defs@[i as int]));
            }
        } else {
            let e: LoadedProp = match def.kind {
                PropKind::Colour => {
                    let c = match def.colour {
                        Some(c) => c,
                        None => {
                            return Err(RenderError::MissingColour(def.id.clone()));
                        },
                    };
                    let w = def.raster_width();
                    let h = def.raster_height();
                    let wu: u128 = w as u128;
                    let hu: u128 = h as u128;
                    proof {
                        assert(wu * hu < 0x10000000000000000) by (nonlinear_arith)
                            requires
                                wu < 0x100000000,
                                hu < 0x100000000,
                        ;
                    }
                    if wu * hu * 4 > usize::MAX as u128 {
                        return Err(RenderError::BadRaster(def.id.clone()));
                    }
                    let bm = Bitmap::filled(w, h, c.r, c.g, c.b);
                    let mut sp: Vec<Bitmap> = Vec::new();
                    sp.push(bm);
                    LoadedProp {
                        id: def.id.clone(),
                        kind: def.kind,
                        mode: def.mode,
                        sprites: sp,
                        width: w,
                        height: h,
                    }
                },
                PropKind::Image => {
                    if def.sprites.len() == 0 {
                        return Err(RenderError::NoSprites(def.id.clone()));
                    }
                    let mut sps: Vec<Bitmap> = Vec::new();
                    let m = def.sprites.len();
                    let mut k: usize = 0;
                    while k < m
                        invariant
                            k <= m,
                            m == def.sprites@.len(),
                            i < defs@.len(),
                            !defs@[i as int].disabled,
                            defs@[i as int].kind is Image,
                            def.id@ == defs@[i as int].id@,
                            def.sprites@ == defs@[i as int].sprites@,
                            m >= 1,
                            forall|l: int| 0 <= l < i ==> (#[trigger] defs@[l]).disabled
                                || prop_fault(defs@[l], streams@, cap) is None,
                            sps@.len() == k,
                            forall|q: int| 0 <= q < k ==> (#[trigger] sps@[q]).wf(),
                            forall|q: int| 0 <= q < k ==> (#[trigger] sps@[q]).width
                                == sps@[0].width && sps@[q].height == sps@[0].height,
                        decreases m - k,
                    {
                        let path = &def.sprites[k];
                        proof {
                            assert(defs@[i as int].sprites@[k as int]@ == path@);
                            assert(prop_fault(defs@[i as int], streams@, cap) is None);
                        }
                        match decode_image_file(path) {
                            None => {
                                return Err(RenderError::DecodeFailed {
                                    path: path.clone(),
                                    prop: def.id.clone(),
                                });
                            },
                            Some(b) => {
                                if k > 0 {
                                    let w0 = sps[0].width;
                                    let h0 = sps[0].height;
                                    if b.width != w0 || b.height != h0 {
                                        return Err(RenderError::MismatchedSprites(
                                            def.id.clone(),
                                        ));
                                    }
                                }
                                sps.push(b);
                            },
                        }
                        k = k + 1;
                    }
                    let w0 = sps[0].width;
                    let h0 = sps[0].height;
                    LoadedProp {
                        id: def.id.clone(),
                        kind: def.kind,
                        mode: def.mode,
                        sprites: sps,
                        width: w0,
                        height: h0,
                    }
                },
                PropKind::Video => {
                    if def.sprites.len() == 0 {
                        return Err(RenderError::NoSprites(def.id.clone()));
                    }
                    let path = &def.sprites[0];
                    let w = def.raster_width();
                    let h = def.raster_height();
                    let wu: u128 = w as u128;
                    let hu: u128 = h as u128;
                    proof {
                        assert(wu * hu < 0x10000000000000000) by (nonlinear_arith)
                            requires
                                wu < 0x100000000,
                                hu < 0x100000000,
                        ;
                    }
                    if w == 0 || h == 0 || wu * hu * 4 > usize::MAX as u128 {
                        return Err(RenderError::BadRaster(def.id.clone()));
                    }
                    match find_stream_index(streams, path, w, h) {
                        None => {
                            return Err(RenderError::StreamMissing {
                                prop: def.id.clone(),
                                path: path.clone(),
                            });
                        },
                        Some(j) => {
                            proof {
                                lemma_find_stream(streams@, path@, w, h);
                            }
                            let fr = split_frames(&streams[j].data, w, h, cap);
                            if fr.len() == 0 {
                                return Err(RenderError::NoSprites(def.id.clone()));
                            }
                            LoadedProp {
                                id: def.id.clone(),
                                kind: def.kind,
                                mode: def.mode,
                                sprites: fr,
                                width: w,
                                height: h,
                            }
                        },
                    }
                },
            };
            proof {
                assert(entry_matches(defs@[i as int], e, streams@, cap));
                lemma_table_matches_push_enabled(done, entries@, streams@, cap,
                    defs@[i as int], e);
                assert(defs@.subrange(0, i as int + 1) =~= done.push(defs@[i as int]));
            }
            entries.push(e);
        }
        i = i + 1;
    }
    proof {
        assert(defs@.subrange(0, n as int) =~= defs@);
        lemma_table_matches_ids(defs@, entries@, streams@, cap);
    }
    Ok(PropTable { entries })
}

} // verus!
