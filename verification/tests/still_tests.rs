use base64::Engine;
use stagehand::bitmap::{zero_buffer, Bitmap};
use stagehand::scene::{CanvasSize, CompositeMode, Prop, PropKind, Rgb, Scene, Script, StageDirection};
use stagehand::still::{render_still, still_payload};

const PREFIX: &str = "data:image/png;base64,";

#[test]
fn payload_is_a_png_data_url_of_the_pixels() {
    let canvas = CanvasSize { width: 2, height: 2 };
    let buf: Vec<u8> = vec![
        255, 0, 0, 255, 0, 255, 0, 255,
        0, 0, 255, 255, 9, 8, 7, 255,
    ];
    let url = still_payload(&canvas, &buf).unwrap();
    assert!(url.starts_with(PREFIX));
    let png = base64::engine::general_purpose::STANDARD
        .decode(&url[PREFIX.len()..])
        .unwrap();
    let decoded = image::load_from_memory(&png).unwrap().to_rgba8();
    assert_eq!(decoded.dimensions(), (2, 2));
    assert_eq!(decoded.into_raw(), buf);
}

#[test]
fn still_render_of_a_colour_scene() {
    let scene = Scene {
        id: "still".to_string(),
        canvas: CanvasSize { width: 3, height: 1 },
        frame_rate: 30,
        audio: None,
        props: vec![Prop {
            id: "fill".to_string(),
            kind: PropKind::Colour,
            mode: CompositeMode::Copy,
            sprites: Vec::new(),
            width: Some(3),
            height: Some(1),
            colour: Some(Rgb { r: 20, g: 30, b: 40 }),
            disabled: false,
        }],
        precompute: Vec::new(),
        frames: vec![Script {
            id: "f0".to_string(),
            directions: vec![StageDirection {
                label: None,
                prop: "fill".to_string(),
                sprite: None,
                x: 0,
                y: 0,
                width: None,
                height: None,
            }],
        }],
    };
    let url = render_still(&scene, &Vec::new(), Some(1)).unwrap();
    let png = base64::engine::general_purpose::STANDARD
        .decode(&url[PREFIX.len()..])
        .unwrap();
    let decoded = image::load_from_memory(&png).unwrap().to_rgba8();
    assert_eq!(decoded.dimensions(), (3, 1));
    for px in decoded.into_raw().chunks(4) {
        assert_eq!(px, &[20, 30, 40, 255]);
    }
}

#[test]
fn still_render_without_frames_is_refused() {
    let scene = Scene {
        id: "empty".to_string(),
        canvas: CanvasSize { width: 2, height: 2 },
        frame_rate: 30,
        audio: None,
        props: Vec::new(),
        precompute: Vec::new(),
        frames: Vec::new(),
    };
    let err = render_still(&scene, &Vec::new(), None).unwrap_err();
    assert_eq!(err.message(), "scene has no frames");
}

#[test]
fn filled_bitmap_holds_the_colour_at_full_opacity() {
    let bm = Bitmap::filled(3, 2, 1, 2, 3);
    assert_eq!((bm.width, bm.height), (3, 2));
    assert_eq!(bm.data.len(), 3 * 2 * 4);
    for px in bm.data.chunks(4) {
        assert_eq!(px, &[1, 2, 3, 255]);
    }
}

#[test]
fn blank_canvas_is_all_zero() {
    let v = zero_buffer(12);
    assert_eq!(v, vec![0u8; 12]);
}
