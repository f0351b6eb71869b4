use stagehand::render::{load_scene_props, render_scene_frames};
use stagehand::scene::{CanvasSize, CompositeMode, Prop, PropKind, RawStream, Rgb, Scene, Script, StageDirection};

fn colour_prop(id: &str, r: u8, g: u8, b: u8, w: u32, h: u32) -> Prop {
    Prop {
        id: id.to_string(),
        kind: PropKind::Colour,
        mode: CompositeMode::Copy,
        sprites: Vec::new(),
        width: Some(w),
        height: Some(h),
        colour: Some(Rgb { r, g, b }),
        disabled: false,
    }
}

fn direction(prop: &str, x: u32, y: u32) -> StageDirection {
    StageDirection {
        label: None,
        prop: prop.to_string(),
        sprite: None,
        x,
        y,
        width: None,
        height: None,
    }
}

fn script(id: &str, dirs: Vec<StageDirection>) -> Script {
    Script { id: id.to_string(), directions: dirs }
}

fn tiny_scene(id: &str, colour: (u8, u8, u8), frames: usize) -> Scene {
    let mut scripts = Vec::new();
    for f in 0..frames {
        scripts.push(script(&format!("{}-{}", id, f), vec![direction("fill", 0, 0)]));
    }
    Scene {
        id: id.to_string(),
        canvas: CanvasSize { width: 2, height: 2 },
        frame_rate: 30,
        audio: None,
        props: vec![colour_prop("fill", colour.0, colour.1, colour.2, 2, 2)],
        precompute: Vec::new(),
        frames: scripts,
    }
}

#[test]
fn three_frame_render_with_two_precomputed_children() {
    let child_a = tiny_scene("mist", (1, 1, 1), 2);
    let child_b = tiny_scene("haze", (2, 2, 2), 1);
    let scene = Scene {
        id: "main".to_string(),
        canvas: CanvasSize { width: 2, height: 2 },
        frame_rate: 30,
        audio: None,
        props: vec![colour_prop("fill", 40, 50, 60, 2, 2)],
        precompute: vec![child_a, child_b],
        frames: vec![
            script("f0", vec![direction("fill", 0, 0)]),
            script("f1", vec![direction("mist", 0, 0)]),
            script("f2", vec![direction("haze", 0, 0)]),
        ],
    };
    assert!(scene.is_wf());
    let frames = render_scene_frames(&scene, &Vec::new(), None).unwrap();
    assert_eq!(frames.len(), 3);
    for f in &frames {
        assert_eq!(f.len(), 2 * 2 * 4);
    }
    // Frame order follows script order: fill, then each child's output.
    assert_eq!(&frames[0][0..4], &[40, 50, 60, 255]);
    assert_eq!(&frames[1][0..4], &[1, 1, 1, 255]);
    assert_eq!(&frames[2][0..4], &[2, 2, 2, 255]);
}

#[test]
fn precomputed_child_becomes_a_copy_image_prop() {
    let child = tiny_scene("inner", (9, 9, 9), 2);
    let scene = Scene {
        id: "outer".to_string(),
        canvas: CanvasSize { width: 2, height: 2 },
        frame_rate: 30,
        audio: None,
        props: Vec::new(),
        precompute: vec![child],
        frames: Vec::new(),
    };
    let table = load_scene_props(&scene, &Vec::new(), None).unwrap();
    assert_eq!(table.entries.len(), 1);
    let e = &table.entries[0];
    assert_eq!(e.id, "inner");
    assert!(matches!(e.kind, PropKind::Image));
    assert!(matches!(e.mode, CompositeMode::Copy));
    assert_eq!(e.sprites.len(), 2);
    assert_eq!((e.width, e.height), (2, 2));
}

#[test]
fn child_with_no_frames_cannot_become_a_prop() {
    let child = tiny_scene("void", (0, 0, 0), 0);
    let scene = Scene {
        id: "outer".to_string(),
        canvas: CanvasSize { width: 2, height: 2 },
        frame_rate: 30,
        audio: None,
        props: Vec::new(),
        precompute: vec![child],
        frames: Vec::new(),
    };
    let err = load_scene_props(&scene, &Vec::new(), None).unwrap_err();
    assert_eq!(err.message(), "prop has no sprites: void");
}

#[test]
fn render_aborts_on_first_missing_reference() {
    let scene = Scene {
        id: "broken".to_string(),
        canvas: CanvasSize { width: 2, height: 2 },
        frame_rate: 30,
        audio: None,
        props: vec![colour_prop("fill", 1, 2, 3, 2, 2)],
        precompute: Vec::new(),
        frames: vec![
            script("f0", vec![direction("fill", 0, 0)]),
            script("f1", vec![direction("ghost", 0, 0)]),
        ],
    };
    let err = render_scene_frames(&scene, &Vec::new(), None).unwrap_err();
    assert_eq!(err.message(), "prop not found: ghost");
}

#[test]
fn duplicate_prop_identifiers_are_rejected() {
    let mut scene = tiny_scene("s", (0, 0, 0), 1);
    assert!(scene.is_wf());
    scene.props.push(colour_prop("fill", 1, 1, 1, 2, 2));
    assert!(!scene.is_wf());
    let mut scene = tiny_scene("s", (0, 0, 0), 1);
    scene.precompute.push(tiny_scene("fill", (0, 0, 0), 1));
    assert!(!scene.is_wf());
}

#[test]
fn canvas_checks_reject_degenerate_sizes() {
    let c = CanvasSize { width: 0, height: 2 };
    assert!(!c.is_wf());
    let c = CanvasSize { width: u32::MAX, height: u32::MAX };
    assert!(!c.is_wf());
    let c = CanvasSize { width: 2, height: 2 };
    assert!(c.is_wf());
    let mut scene = tiny_scene("s", (0, 0, 0), 1);
    assert!(scene.is_wf());
    scene.precompute.push(Scene {
        id: "bad".to_string(),
        canvas: CanvasSize { width: 0, height: 0 },
        frame_rate: 30,
        audio: None,
        props: Vec::new(),
        precompute: Vec::new(),
        frames: Vec::new(),
    });
    assert!(!scene.is_wf());
}
