use stagehand::frames::split_frames;
use stagehand::loader::load_props;
use stagehand::scene::{CompositeMode, Prop, PropKind, RawStream, Rgb};

fn video_prop(id: &str, path: &str, w: u32, h: u32) -> Prop {
    Prop {
        id: id.to_string(),
        kind: PropKind::Video,
        mode: CompositeMode::Copy,
        sprites: vec![path.to_string()],
        width: Some(w),
        height: Some(h),
        colour: None,
        disabled: false,
    }
}

fn stream(path: &str, w: u32, h: u32, frames: usize) -> RawStream {
    let fs = (w * h * 4) as usize;
    let mut data = Vec::new();
    for f in 0..frames {
        data.extend(std::iter::repeat(f as u8).take(fs));
    }
    RawStream { path: path.to_string(), width: w, height: h, data }
}

#[test]
fn frame_cap_bounds_video_sprites() {
    let props = vec![video_prop("clip", "a.mov", 2, 2)];
    let streams = vec![stream("a.mov", 2, 2, 10)];
    let table = load_props(&props, &streams, Some(3)).unwrap();
    assert_eq!(table.entries.len(), 1);
    assert_eq!(table.entries[0].sprites.len(), 3);
}

#[test]
fn no_cap_takes_every_decoded_frame() {
    let props = vec![video_prop("clip", "a.mov", 2, 2)];
    let streams = vec![stream("a.mov", 2, 2, 10)];
    let table = load_props(&props, &streams, None).unwrap();
    assert_eq!(table.entries[0].sprites.len(), 10);
    for (f, sprite) in table.entries[0].sprites.iter().enumerate() {
        assert_eq!(sprite.width, 2);
        assert_eq!(sprite.height, 2);
        assert!(sprite.data.iter().all(|&b| b == f as u8));
    }
}

#[test]
fn short_trailing_chunk_is_dropped() {
    let mut s = stream("a.mov", 1, 1, 3);
    s.data.extend_from_slice(&[1, 2]);
    let frames = split_frames(&s.data, 1, 1, None);
    assert_eq!(frames.len(), 3);
}

#[test]
fn split_respects_stream_order() {
    let data: Vec<u8> = (0u8..12).collect();
    let frames = split_frames(&data, 1, 1, None);
    assert_eq!(frames.len(), 3);
    assert_eq!(frames[0].data, vec![0, 1, 2, 3]);
    assert_eq!(frames[1].data, vec![4, 5, 6, 7]);
    assert_eq!(frames[2].data, vec![8, 9, 10, 11]);
}

#[test]
fn split_cap_zero_yields_nothing() {
    let data: Vec<u8> = (0u8..12).collect();
    let frames = split_frames(&data, 1, 1, Some(0));
    assert_eq!(frames.len(), 0);
}

#[test]
fn undeclared_raster_size_defaults_to_full_hd() {
    let p = Prop {
        id: "screen".to_string(),
        kind: PropKind::Colour,
        mode: CompositeMode::Copy,
        sprites: Vec::new(),
        width: None,
        height: None,
        colour: Some(Rgb { r: 1, g: 2, b: 3 }),
        disabled: false,
    };
    let table = load_props(&vec![p], &Vec::new(), None).unwrap();
    let e = &table.entries[0];
    assert_eq!((e.width, e.height), (1920, 1080));
    assert_eq!(e.sprites[0].data.len(), 1920 * 1080 * 4);
}

#[test]
fn colour_without_value_is_refused() {
    let p = Prop {
        id: "bare".to_string(),
        kind: PropKind::Colour,
        mode: CompositeMode::Copy,
        sprites: Vec::new(),
        width: Some(1),
        height: Some(1),
        colour: None,
        disabled: false,
    };
    let err = load_props(&vec![p], &Vec::new(), None).unwrap_err();
    assert_eq!(err.message(), "colour prop without a colour: bare");
}

#[test]
fn oversized_colour_raster_is_refused() {
    let p = Prop {
        id: "vast".to_string(),
        kind: PropKind::Colour,
        mode: CompositeMode::Copy,
        sprites: Vec::new(),
        width: Some(u32::MAX),
        height: Some(u32::MAX),
        colour: Some(Rgb { r: 0, g: 0, b: 0 }),
        disabled: false,
    };
    let err = load_props(&vec![p], &Vec::new(), None).unwrap_err();
    assert_eq!(err.message(), "invalid raster size for prop: vast");
}

#[test]
fn image_prop_without_paths_is_refused() {
    let p = Prop {
        id: "blank".to_string(),
        kind: PropKind::Image,
        mode: CompositeMode::Copy,
        sprites: Vec::new(),
        width: None,
        height: None,
        colour: None,
        disabled: false,
    };
    let err = load_props(&vec![p], &Vec::new(), None).unwrap_err();
    assert_eq!(err.message(), "prop has no sprites: blank");
}

#[test]
fn unreadable_sprite_path_is_refused() {
    let p = Prop {
        id: "lost".to_string(),
        kind: PropKind::Image,
        mode: CompositeMode::Copy,
        sprites: vec!["no/such/sprite.png".to_string()],
        width: None,
        height: None,
        colour: None,
        disabled: false,
    };
    let err = load_props(&vec![p], &Vec::new(), None).unwrap_err();
    assert_eq!(
        err.message(),
        "failed to decode sprite no/such/sprite.png for prop lost"
    );
}

#[test]
fn video_without_stream_is_refused() {
    let props = vec![video_prop("clip", "a.mov", 2, 2)];
    let err = load_props(&props, &Vec::new(), None).unwrap_err();
    assert_eq!(
        err.message(),
        "no decoded frames supplied for video prop clip from a.mov"
    );
}

#[test]
fn stream_is_matched_by_path_and_size() {
    let props = vec![video_prop("clip", "a.mov", 2, 2)];
    // Same path decoded at another size does not satisfy the prop.
    let streams = vec![stream("a.mov", 4, 4, 2)];
    assert!(load_props(&props, &streams, None).is_err());
    let streams = vec![stream("a.mov", 4, 4, 2), stream("a.mov", 2, 2, 2)];
    let table = load_props(&props, &streams, None).unwrap();
    assert_eq!(table.entries[0].width, 2);
    assert_eq!(table.entries[0].sprites.len(), 2);
}

#[test]
fn loaded_colour_prop_takes_size_from_its_sprite() {
    let p = Prop {
        id: "pad".to_string(),
        kind: PropKind::Colour,
        mode: CompositeMode::Overlay,
        sprites: Vec::new(),
        width: Some(3),
        height: Some(2),
        colour: Some(Rgb { r: 9, g: 8, b: 7 }),
        disabled: false,
    };
    let table = load_props(&vec![p], &Vec::new(), None).unwrap();
    let e = &table.entries[0];
    assert_eq!((e.width, e.height), (3, 2));
    assert_eq!(e.sprites.len(), 1);
    assert_eq!((e.sprites[0].width, e.sprites[0].height), (3, 2));
    assert_eq!(e.sprites[0].data.len(), 3 * 2 * 4);
    assert_eq!(&e.sprites[0].data[0..4], &[9, 8, 7, 255]);
}
