use stagehand::compositor::generate_frame;
use stagehand::loader::load_props;
use stagehand::scene::{CanvasSize, CompositeMode, Prop, PropKind, RawStream, Rgb, Script, StageDirection};

fn colour_prop(id: &str, r: u8, g: u8, b: u8, w: u32, h: u32, mode: CompositeMode) -> Prop {
    Prop {
        id: id.to_string(),
        kind: PropKind::Colour,
        mode,
        sprites: Vec::new(),
        width: Some(w),
        height: Some(h),
        colour: Some(Rgb { r, g, b }),
        disabled: false,
    }
}

fn direction(prop: &str, x: u32, y: u32) -> StageDirection {
    StageDirection {
        label: None,
        prop: prop.to_string(),
        sprite: None,
        x,
        y,
        width: None,
        height: None,
    }
}

#[test]
fn solid_fill_covers_small_canvas() {
    let props = vec![colour_prop("fill", 255, 0, 0, 2, 2, CompositeMode::Copy)];
    let streams: Vec<RawStream> = Vec::new();
    let table = load_props(&props, &streams, None).unwrap();
    let script = Script { id: "f0".to_string(), directions: vec![direction("fill", 0, 0)] };
    let canvas = CanvasSize { width: 2, height: 2 };
    let buf = generate_frame(&script, &table, &canvas).unwrap();
    assert_eq!(buf.len(), 2 * 2 * 4);
    for px in buf.chunks(4) {
        assert_eq!(px, &[255, 0, 0, 255]);
    }
}

#[test]
fn oversized_request_clamps_to_origin() {
    let props = vec![colour_prop("block", 7, 8, 9, 4, 4, CompositeMode::Copy)];
    let streams: Vec<RawStream> = Vec::new();
    let table = load_props(&props, &streams, None).unwrap();
    let mut d = direction("block", 3, 3);
    d.width = Some(4);
    d.height = Some(4);
    let script = Script { id: "f0".to_string(), directions: vec![d] };
    let canvas = CanvasSize { width: 4, height: 4 };
    let buf = generate_frame(&script, &table, &canvas).unwrap();
    assert_eq!(buf.len(), 4 * 4 * 4);
    for px in buf.chunks(4) {
        assert_eq!(px, &[7, 8, 9, 255]);
    }
}

#[test]
fn missing_prop_reference_fails_with_its_name() {
    let props: Vec<Prop> = Vec::new();
    let streams: Vec<RawStream> = Vec::new();
    let table = load_props(&props, &streams, None).unwrap();
    let script = Script { id: "f0".to_string(), directions: vec![direction("ghost", 0, 0)] };
    let canvas = CanvasSize { width: 2, height: 2 };
    let err = generate_frame(&script, &table, &canvas).unwrap_err();
    assert_eq!(err.message(), "prop not found: ghost");
}

#[test]
fn later_direction_paints_over_earlier() {
    let props = vec![
        colour_prop("under", 10, 20, 30, 2, 2, CompositeMode::Copy),
        colour_prop("over", 200, 100, 50, 1, 1, CompositeMode::Copy),
    ];
    let streams: Vec<RawStream> = Vec::new();
    let table = load_props(&props, &streams, None).unwrap();
    let script = Script {
        id: "f0".to_string(),
        directions: vec![direction("under", 0, 0), direction("over", 1, 1)],
    };
    let canvas = CanvasSize { width: 2, height: 2 };
    let buf = generate_frame(&script, &table, &canvas).unwrap();
    // pixels (0,0), (1,0), (0,1) keep the under colour
    assert_eq!(&buf[0..4], &[10, 20, 30, 255]);
    assert_eq!(&buf[4..8], &[10, 20, 30, 255]);
    assert_eq!(&buf[8..12], &[10, 20, 30, 255]);
    // pixel (1,1) is overpainted
    assert_eq!(&buf[12..16], &[200, 100, 50, 255]);
}

#[test]
fn transparent_overlay_changes_nothing() {
    // A video prop whose decoded stream is entirely transparent black,
    // composited in overlay mode over an opaque fill.
    let fill = colour_prop("ground", 90, 91, 92, 2, 2, CompositeMode::Copy);
    let veil = Prop {
        id: "veil".to_string(),
        kind: PropKind::Video,
        mode: CompositeMode::Overlay,
        sprites: vec!["clip.mov".to_string()],
        width: Some(2),
        height: Some(2),
        colour: None,
        disabled: false,
    };
    let streams = vec![RawStream {
        path: "clip.mov".to_string(),
        width: 2,
        height: 2,
        data: vec![0u8; 16],
    }];
    let table = load_props(&vec![fill, veil], &streams, None).unwrap();
    let script = Script {
        id: "f0".to_string(),
        directions: vec![direction("ground", 0, 0), direction("veil", 0, 0)],
    };
    let canvas = CanvasSize { width: 2, height: 2 };
    let buf = generate_frame(&script, &table, &canvas).unwrap();
    for px in buf.chunks(4) {
        assert_eq!(px, &[90, 91, 92, 255]);
    }
}

#[test]
fn opaque_overlay_replaces_pixels() {
    // An overlay source with full alpha behaves like a copy for colour.
    let fill = colour_prop("ground", 1, 2, 3, 2, 2, CompositeMode::Copy);
    let top = Prop {
        id: "top".to_string(),
        kind: PropKind::Video,
        mode: CompositeMode::Overlay,
        sprites: vec!["clip.mov".to_string()],
        width: Some(1),
        height: Some(1),
        colour: None,
        disabled: false,
    };
    let streams = vec![RawStream {
        path: "clip.mov".to_string(),
        width: 1,
        height: 1,
        data: vec![200, 150, 100, 255],
    }];
    let table = load_props(&vec![fill, top], &streams, None).unwrap();
    let script = Script {
        id: "f0".to_string(),
        directions: vec![direction("ground", 0, 0), direction("top", 0, 0)],
    };
    let canvas = CanvasSize { width: 2, height: 2 };
    let buf = generate_frame(&script, &table, &canvas).unwrap();
    assert_eq!(&buf[0..4], &[200, 150, 100, 255]);
    assert_eq!(&buf[4..8], &[1, 2, 3, 255]);
}

#[test]
fn full_canvas_copy_reproduces_source_bytes() {
    // A copy-mode prop whose single sprite is exactly the canvas size,
    // placed at the origin: the output is the source, byte for byte.
    let pattern: Vec<u8> = (0u8..16).collect();
    let prop = Prop {
        id: "art".to_string(),
        kind: PropKind::Video,
        mode: CompositeMode::Copy,
        sprites: vec!["art.mov".to_string()],
        width: Some(2),
        height: Some(2),
        colour: None,
        disabled: false,
    };
    let streams = vec![RawStream {
        path: "art.mov".to_string(),
        width: 2,
        height: 2,
        data: pattern.clone(),
    }];
    let table = load_props(&vec![prop], &streams, None).unwrap();
    let script = Script { id: "f0".to_string(), directions: vec![direction("art", 0, 0)] };
    let canvas = CanvasSize { width: 2, height: 2 };
    let buf = generate_frame(&script, &table, &canvas).unwrap();
    assert_eq!(buf, pattern);
}

#[test]
fn video_sprite_index_clamps_to_last_frame() {
    let prop = Prop {
        id: "clip".to_string(),
        kind: PropKind::Video,
        mode: CompositeMode::Copy,
        sprites: vec!["clip.mov".to_string()],
        width: Some(1),
        height: Some(1),
        colour: None,
        disabled: false,
    };
    let streams = vec![RawStream {
        path: "clip.mov".to_string(),
        width: 1,
        height: 1,
        data: vec![10, 10, 10, 255, 20, 20, 20, 255],
    }];
    let table = load_props(&vec![prop], &streams, None).unwrap();
    let mut d = direction("clip", 0, 0);
    d.sprite = Some(99);
    let script = Script { id: "f0".to_string(), directions: vec![d] };
    let canvas = CanvasSize { width: 1, height: 1 };
    let buf = generate_frame(&script, &table, &canvas).unwrap();
    assert_eq!(buf, vec![20, 20, 20, 255]);
}

#[test]
fn disabled_prop_is_not_loaded() {
    let mut p = colour_prop("hidden", 5, 5, 5, 2, 2, CompositeMode::Copy);
    p.disabled = true;
    let streams: Vec<RawStream> = Vec::new();
    let table = load_props(&vec![p], &streams, None).unwrap();
    assert_eq!(table.entries.len(), 0);
    let script = Script { id: "f0".to_string(), directions: vec![direction("hidden", 0, 0)] };
    let canvas = CanvasSize { width: 2, height: 2 };
    let err = generate_frame(&script, &table, &canvas).unwrap_err();
    assert_eq!(err.message(), "prop not found: hidden");
}
