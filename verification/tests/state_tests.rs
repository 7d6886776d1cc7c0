use wanipaper::config::{
    Config, DisplayGroup, DisplayTarget, RenderPass, RenderSource, RenderTarget, ResizeKind,
    Selection,
};
use wanipaper::display::Display;
use wanipaper::pixmap::Pixmap;
use wanipaper::region::{Region, Vec2};
use wanipaper::state::State;

const RED: [u8; 4] = [255, 0, 0, 255];
const GREEN: [u8; 4] = [0, 255, 0, 255];
const BLUE: [u8; 4] = [0, 0, 255, 255];

/// RGBA reordered into the little-endian ARGB byte order a canvas uses.
fn argb(rgba: [u8; 4]) -> [u8; 4] {
    [rgba[2], rgba[1], rgba[0], rgba[3]]
}

fn solid(width: u32, height: u32, rgba: [u8; 4]) -> Pixmap {
    let mut data = Vec::new();
    for _ in 0..width * height {
        data.extend_from_slice(&rgba);
    }
    Pixmap { width, height, data }
}

fn region(x0: i32, y0: i32, x1: i32, y1: i32) -> Region {
    Region::new(Vec2 { x: x0, y: y0 }, Vec2 { x: x1, y: y1 })
}

fn display(rg: Region) -> Display {
    Display { region: rg, first: false, damaged: true, active: true }
}

fn named(n: &str) -> DisplayTarget {
    DisplayTarget { name: n.to_string() }
}

fn canvas_pixel(canvas: &[u8], width: u32, x: u32, y: u32) -> [u8; 4] {
    let base = (4 * (y * width + x)) as usize;
    [canvas[base], canvas[base + 1], canvas[base + 2], canvas[base + 3]]
}

/// One display showing one image.
fn single_state(image: Pixmap, rg: Region, resize: ResizeKind) -> State {
    State {
        config: Config {
            images: vec![image],
            displays: vec![named("out-1")],
            groups: vec![],
            render_passes: vec![RenderPass {
                source: RenderSource::Single(0),
                target: RenderTarget::Display(0),
                resize,
            }],
        },
        displays: vec![display(rg)],
        rotate_index: vec![0],
    }
}

fn all_free(n: usize) -> Vec<(bool, bool)> {
    vec![(true, true); n]
}

#[test]
fn draw_single_display_paints_once() {
    let mut st = single_state(solid(2, 2, RED), region(0, 0, 2, 2), ResizeKind::Cover);
    assert!(st.wf_check());
    let ops = st.draw(&all_free(1));
    assert_eq!(ops.len(), 1);
    let (di, op) = &ops[0];
    assert_eq!(*di, 0);
    assert_eq!(op.slot, 0);
    assert_eq!(op.width, 2);
    assert_eq!(op.height, 2);
    assert_eq!(op.canvas.len(), 2 * 2 * 4);
    assert_eq!(canvas_pixel(&op.canvas, 2, 0, 0), argb(RED));
    assert_eq!(canvas_pixel(&op.canvas, 2, 1, 1), argb(RED));
    assert!(!st.displays[0].damaged);
}

#[test]
fn draw_twice_second_is_noop() {
    let mut st = single_state(solid(2, 2, RED), region(0, 0, 2, 2), ResizeKind::Stretch);
    let first = st.draw(&all_free(1));
    assert_eq!(first.len(), 1);
    let second = st.draw(&all_free(1));
    assert_eq!(second.len(), 0);
}

#[test]
fn draw_skips_undamaged_display() {
    let mut st = single_state(solid(2, 2, RED), region(0, 0, 2, 2), ResizeKind::Cover);
    st.displays[0].damaged = false;
    let ops = st.draw(&all_free(1));
    assert_eq!(ops.len(), 0);
}

#[test]
fn draw_skips_before_first_configure() {
    let mut st = single_state(solid(2, 2, RED), region(0, 0, 2, 2), ResizeKind::Cover);
    st.displays[0].first = true;
    assert_eq!(st.draw(&all_free(1)).len(), 0);
    st.configure(0);
    assert_eq!(st.draw(&all_free(1)).len(), 1);
}

#[test]
fn draw_defers_when_no_slot_is_free() {
    let mut st = single_state(solid(2, 2, RED), region(0, 0, 2, 2), ResizeKind::Cover);
    let ops = st.draw(&vec![(false, false)]);
    assert_eq!(ops.len(), 0);
    // The damage is kept, so the next trigger retries and succeeds.
    assert!(st.displays[0].damaged);
    let ops = st.draw(&vec![(false, true)]);
    assert_eq!(ops.len(), 1);
    assert_eq!(ops[0].1.slot, 1);
}

#[test]
fn draw_skips_zero_area_region() {
    let mut st = single_state(solid(2, 2, RED), region(5, 5, 5, 9), ResizeKind::Cover);
    assert!(st.wf_check());
    assert_eq!(st.draw(&all_free(1)).len(), 0);
}

#[test]
fn closed_display_is_skipped() {
    let mut st = single_state(solid(2, 2, RED), region(0, 0, 2, 2), ResizeKind::Cover);
    st.closed(0);
    assert_eq!(st.draw(&all_free(1)).len(), 0);
}

#[test]
fn group_compositing_slices_per_display() {
    // Two displays: 100x100 at the origin and 200x100 to its right. The
    // composite is 300x100: the left third red, the right two thirds
    // green. Display 0 must receive the left 100x100 sub-rectangle and
    // display 1 the right 200x100 one (columns 100..300).
    let mut data = Vec::new();
    for _y in 0..100u32 {
        for x in 0..300u32 {
            data.extend_from_slice(if x < 100 { &RED } else { &GREEN });
        }
    }
    let image = Pixmap { width: 300, height: 100, data };
    let mut st = State {
        config: Config {
            images: vec![image],
            displays: vec![named("left"), named("right")],
            groups: vec![DisplayGroup { displays: vec![0, 1] }],
            render_passes: vec![RenderPass {
                source: RenderSource::Single(0),
                target: RenderTarget::Group(0),
                resize: ResizeKind::Stretch,
            }],
        },
        displays: vec![display(region(0, 0, 100, 100)), display(region(100, 0, 300, 100))],
        rotate_index: vec![0],
    };
    assert!(st.wf_check());
    let ops = st.draw(&all_free(2));
    assert_eq!(ops.len(), 2);

    let (d0, op0) = &ops[0];
    assert_eq!(*d0, 0);
    assert_eq!((op0.width, op0.height), (100, 100));
    assert_eq!(op0.canvas.len(), 100 * 100 * 4);
    assert_eq!(canvas_pixel(&op0.canvas, 100, 0, 0), argb(RED));
    assert_eq!(canvas_pixel(&op0.canvas, 100, 99, 99), argb(RED));

    let (d1, op1) = &ops[1];
    assert_eq!(*d1, 1);
    assert_eq!((op1.width, op1.height), (200, 100));
    assert_eq!(op1.canvas.len(), 200 * 100 * 4);
    assert_eq!(canvas_pixel(&op1.canvas, 200, 0, 0), argb(GREEN));
    assert_eq!(canvas_pixel(&op1.canvas, 200, 199, 99), argb(GREEN));
}

#[test]
fn overlapping_passes_first_paint_consumes_damage() {
    // Two passes target the same display: the first paints and consumes
    // the damage, the second finds it clear and skips.
    let mut st = State {
        config: Config {
            images: vec![solid(2, 2, RED), solid(2, 2, BLUE)],
            displays: vec![named("out-1")],
            groups: vec![],
            render_passes: vec![
                RenderPass {
                    source: RenderSource::Single(0),
                    target: RenderTarget::Display(0),
                    resize: ResizeKind::Stretch,
                },
                RenderPass {
                    source: RenderSource::Single(1),
                    target: RenderTarget::Display(0),
                    resize: ResizeKind::Stretch,
                },
            ],
        },
        displays: vec![display(region(0, 0, 2, 2))],
        rotate_index: vec![0, 0],
    };
    let ops = st.draw(&all_free(1));
    assert_eq!(ops.len(), 1);
    assert_eq!(canvas_pixel(&ops[0].1.canvas, 2, 0, 0), argb(RED));
}

fn rotating_state(rand: bool) -> State {
    State {
        config: Config {
            images: vec![solid(2, 2, RED), solid(2, 2, GREEN), solid(2, 2, BLUE)],
            displays: vec![named("out-1")],
            groups: vec![],
            render_passes: vec![RenderPass {
                source: RenderSource::Many { images: vec![0, 1, 2], rand, rotate: Some(5) },
                target: RenderTarget::Display(0),
                resize: ResizeKind::Stretch,
            }],
        },
        displays: vec![display(region(0, 0, 2, 2))],
        rotate_index: vec![0],
    }
}

fn first_canvas_pixel(st: &mut State) -> [u8; 4] {
    st.displays[0].damaged = true;
    let ops = st.draw(&all_free(1));
    assert_eq!(ops.len(), 1);
    canvas_pixel(&ops[0].1.canvas, 2, 0, 0)
}

#[test]
fn sequential_rotation_selects_k_mod_len() {
    let mut st = rotating_state(false);
    assert!(st.wf_check());
    assert_eq!(first_canvas_pixel(&mut st), argb(RED));
    st.rotation_tick(0);
    assert_eq!(st.rotate_index[0], 1);
    assert_eq!(first_canvas_pixel(&mut st), argb(GREEN));
    st.rotation_tick(0);
    assert_eq!(first_canvas_pixel(&mut st), argb(BLUE));
    st.rotation_tick(0);
    // Three elapses of the period: the counter is 3 and 3 mod 3 selects
    // the first image again.
    assert_eq!(st.rotate_index[0], 3);
    assert_eq!(first_canvas_pixel(&mut st), argb(RED));
}

#[test]
fn random_rotation_never_reselects_current_image() {
    for _ in 0..50 {
        let mut st = rotating_state(true);
        let before = st.rotate_index[0] % 3;
        st.rotation_tick(0);
        assert_ne!(st.rotate_index[0] % 3, before);
    }
}

#[test]
fn rotation_tick_marks_targets_damaged() {
    let mut st = rotating_state(false);
    let _ = st.draw(&all_free(1));
    assert!(!st.displays[0].damaged);
    st.rotation_tick(0);
    assert!(st.displays[0].damaged);
    assert_eq!(st.draw(&all_free(1)).len(), 1);
}

#[test]
fn wf_check_accepts_valid_and_rejects_invalid() {
    let st = single_state(solid(2, 2, RED), region(0, 0, 2, 2), ResizeKind::Cover);
    assert!(st.wf_check());

    let mut bad_group = single_state(solid(2, 2, RED), region(0, 0, 2, 2), ResizeKind::Cover);
    bad_group.config.groups.push(DisplayGroup { displays: vec![7] });
    assert!(!bad_group.wf_check());

    let mut no_passes = single_state(solid(2, 2, RED), region(0, 0, 2, 2), ResizeKind::Cover);
    no_passes.config.render_passes.clear();
    no_passes.rotate_index.clear();
    assert!(!no_passes.wf_check());

    let mut bad_image = single_state(solid(2, 2, RED), region(0, 0, 2, 2), ResizeKind::Cover);
    bad_image.config.images[0].width = 3;
    assert!(!bad_image.wf_check());

    // A pass whose target region is so large that the stretched buffer
    // would overflow the engine's byte bound is refused.
    let huge = single_state(
        solid(2, 2, RED),
        region(0, 0, 1048576, 1048576),
        ResizeKind::Stretch,
    );
    assert!(!huge.wf_check());
}

#[test]
fn resolve_collapses_sets_as_configured() {
    // No selection options: the first image.
    match RenderSource::resolve(vec![4, 5, 6], None) {
        RenderSource::Single(img) => assert_eq!(img, 4),
        RenderSource::Many { .. } => panic!("expected a single source"),
    }
    // A period keeps the whole set.
    match RenderSource::resolve(vec![4, 5], Some(Selection { rand: true, rotate: Some(9) })) {
        RenderSource::Many { images, rand, rotate } => {
            assert_eq!(images, vec![4, 5]);
            assert!(rand);
            assert_eq!(rotate, Some(9));
        },
        RenderSource::Single(_) => panic!("expected a rotating source"),
    }
    // Pure randomness without a period: one of the set, chosen now.
    match RenderSource::resolve(vec![4, 5, 6], Some(Selection { rand: true, rotate: None })) {
        RenderSource::Single(img) => assert!(img == 4 || img == 5 || img == 6),
        RenderSource::Many { .. } => panic!("expected a single source"),
    }
    // A selection table without randomness or period collapses to the
    // first image, just as an absent table does.
    match RenderSource::resolve(vec![4, 5], Some(Selection { rand: false, rotate: None })) {
        RenderSource::Single(img) => assert_eq!(img, 4),
        RenderSource::Many { .. } => panic!("expected a single source"),
    }
}
