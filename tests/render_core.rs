use rust_renders::hittable::HittableArray;
use rust_renders::image_config::{ConfigError, ImageConfig};
use rust_renders::path::{Interaction, PathAction, PathTracer};
use rust_renders::ppm::{push_decimal, write_ppm, Rgb8};
use rust_renders::progress_listener::{ProgressListener, VoidListener};
use rust_renders::render::{CommitError, FrameBuffer, RenderPlan};

struct Recorder {
    calls: Vec<(usize, usize)>,
}

impl ProgressListener for Recorder {
    fn update(&mut self, done: usize, total: usize) {
        self.calls.push((done, total));
    }
}

fn config(width: u32, height: u32) -> ImageConfig {
    ImageConfig::new(width, height, 4, 3).unwrap()
}

#[test]
fn default_config_values() {
    let c = ImageConfig::default_config();
    assert_eq!(c.width, 1920);
    assert_eq!(c.height, 1080);
    assert_eq!(c.samples_per_pixel, 100);
    assert_eq!(c.depth, 5);
    assert_eq!(c.pixel_count(), 1920 * 1080);
}

#[test]
fn config_without_samples_is_refused() {
    assert_eq!(ImageConfig::new(10, 10, 0, 5), Err(ConfigError::NoSamples));
    let c = ImageConfig::new(10, 7, 1, 5).unwrap();
    assert_eq!(c.pixel_count(), 70);
}

#[test]
fn depth_zero_path_is_black() {
    let t = PathTracer::new(0);
    assert_eq!(t.begin(), PathAction::Black);
}

#[test]
fn path_steps_follow_interactions() {
    let mut t = PathTracer::new(2);
    assert_eq!(t.begin(), PathAction::Trace);
    assert_eq!(t.step(Interaction::Scattered), PathAction::Trace);
    assert_eq!(t.remaining(), 1);
    assert_eq!(t.step(Interaction::Scattered), PathAction::Black);
    assert_eq!(t.remaining(), 0);

    let mut m = PathTracer::new(3);
    assert_eq!(m.step(Interaction::Miss), PathAction::Sky);
    assert_eq!(m.step(Interaction::Absorbed), PathAction::Surface);
    assert_eq!(m.remaining(), 3);
}

#[test]
fn frame_buffer_full_render() {
    let c = config(3, 2);
    let mut fb = FrameBuffer::new(&c, 0u32);
    let mut listener = Recorder { calls: Vec::new() };
    assert_eq!(fb.commit_row(1, &vec![4, 5, 6], &mut listener), Ok(()));
    assert!(fb.is_row_committed(1));
    assert!(!fb.is_row_committed(0));
    let fb = match fb.finish() {
        Ok(_) => panic!("a scanline is missing"),
        Err(b) => b,
    };
    let mut fb = fb;
    assert_eq!(fb.commit_row(0, &vec![1, 2, 3], &mut listener), Ok(()));
    assert_eq!(fb.rows_done(), 2);
    assert_eq!(listener.calls, vec![(1, 2), (2, 2)]);
    let pixels = match fb.finish() {
        Ok(v) => v,
        Err(_) => panic!("every scanline was committed"),
    };
    assert_eq!(pixels.len(), 6);
    assert_eq!(pixels, vec![1, 2, 3, 4, 5, 6]);
}

#[test]
fn frame_buffer_refuses_bad_rows() {
    let c = config(2, 2);
    let mut fb = FrameBuffer::new(&c, 0u8);
    let mut void = VoidListener {};
    assert_eq!(fb.commit_row(2, &vec![1, 1], &mut void), Err(CommitError::RowOutOfRange));
    assert_eq!(fb.commit_row(0, &vec![1], &mut void), Err(CommitError::WrongRowLength));
    assert_eq!(fb.commit_row(0, &vec![1, 2], &mut void), Ok(()));
    assert_eq!(fb.commit_row(0, &vec![3, 4], &mut void), Err(CommitError::RowAlreadyCommitted));
    assert_eq!(fb.rows_done(), 1);
    assert_eq!(fb.width(), 2);
    assert_eq!(fb.height(), 2);
}

#[test]
fn empty_image_is_complete_at_once() {
    let c = config(0, 0);
    let fb = FrameBuffer::new(&c, 0u8);
    assert!(matches!(fb.finish(), Ok(v) if v.is_empty()));
}

#[test]
fn render_plan_covers_every_scanline() {
    let c = config(4, 5);
    let plan = RenderPlan::new(&c);
    assert!(plan.workers >= 1);
    assert_eq!(plan.scanlines, vec![0, 1, 2, 3, 4]);
}

#[test]
fn decimal_text() {
    let mut out = b"x".to_vec();
    push_decimal(&mut out, 0);
    push_decimal(&mut out, 255);
    push_decimal(&mut out, 4294967295);
    assert_eq!(String::from_utf8(out).unwrap(), "x02554294967295");
}

#[test]
fn ppm_header_and_line_count() {
    let c = config(2, 2);
    let px = |r, g, b| Rgb8 { r, g, b };
    let pixels = vec![px(0, 0, 0), px(1, 2, 3), px(255, 128, 7), px(10, 20, 30)];
    let text = String::from_utf8(write_ppm(&c, &pixels)).unwrap();
    assert!(text.starts_with("P3\n2 2\n255\n"));
    assert_eq!(text.lines().count(), 2 * 2 + 3);
    assert_eq!(text, "P3\n2 2\n255\n255 128 7\n10 20 30\n0 0 0\n1 2 3\n");
}

#[test]
fn ppm_extreme_channels() {
    let c = config(1, 1);
    let text = String::from_utf8(write_ppm(&c, &vec![Rgb8 { r: 255, g: 0, b: 9 }])).unwrap();
    assert_eq!(text, "P3\n1 1\n255\n255 0 9\n");
}

#[test]
fn scene_container_keeps_order() {
    let mut scene: HittableArray<&str> = HittableArray::new();
    assert!(scene.empty());
    scene.add("ground");
    scene.add("ball");
    assert_eq!(scene.len(), 2);
    assert_eq!(scene.objects(), &vec!["ground", "ball"]);
    scene.clear();
    assert_eq!(scene.len(), 0);
    assert!(scene.empty());
}

#[test]
fn small_render_produces_full_stream() {
    let c = ImageConfig::new(4, 3, 2, 5).unwrap();
    let plan = RenderPlan::new(&c);
    let mut fb = FrameBuffer::new(&c, Rgb8 { r: 0, g: 0, b: 0 });
    let mut listener = Recorder { calls: Vec::new() };
    for &j in plan.scanlines.iter().rev() {
        let row: Vec<Rgb8> = (0..4u8).map(|i| Rgb8 { r: i, g: j as u8, b: 200 }).collect();
        assert_eq!(fb.commit_row(j, &row, &mut listener), Ok(()));
    }
    assert_eq!(listener.calls, vec![(1, 3), (2, 3), (3, 3)]);
    let pixels = match fb.finish() {
        Ok(v) => v,
        Err(_) => panic!("every scanline was committed"),
    };
    assert_eq!(pixels.len(), 12);
    let text = String::from_utf8(write_ppm(&c, &pixels)).unwrap();
    let lines: Vec<&str> = text.lines().collect();
    assert_eq!(lines.len(), 4 * 3 + 3);
    assert_eq!(&lines[..3], &["P3", "4 3", "255"]);
    assert_eq!(lines[3], "0 2 200");
    assert_eq!(lines[14], "3 0 200");
}
