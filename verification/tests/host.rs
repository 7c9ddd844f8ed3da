use ripple::gpu::context::{
    acquire, can_read_back, padded_row, pick_format, picture_of, readback_bytes, save_png, to_rgba, FrameAction,
    FrameStatus, PictureError, SurfaceSize,
};
use ripple::gpu::dispatch::cover;
use ripple::gpu::flip_gpu::{wg1, wg2};
use ripple::gpu::render::RenderMode;
use ripple::gpu::sim::workgroups;
use ripple::gpu::smoke_gpu::groups;
use ripple::shell::{make_backend, picture_name, slug_char, Fluid};

#[test]
fn groups_round_up() {
    for n in 0..300u32 {
        assert_eq!(wg1(n), n.div_ceil(64));
        assert_eq!(wg2(n), n.div_ceil(8));
        assert_eq!(groups(n), n.div_ceil(8));
        assert_eq!(workgroups(n), n.div_ceil(64));
    }
    assert_eq!(cover(u32::MAX, 1), u32::MAX);
    assert_eq!(cover(u32::MAX, 2), 0x8000_0000);
}

#[test]
fn modes_go_round() {
    let mut mode = RenderMode::default();
    assert_eq!(mode, RenderMode::Metaballs);
    let mut names = Vec::new();
    for _ in 0..4 {
        names.push(mode.name());
        mode = mode.next();
    }
    assert_eq!(mode, RenderMode::Metaballs);
    assert_eq!(
        names,
        vec!["metaballs", "marching squares (lines)", "marching squares (fill)", "dots"]
    );
}

#[test]
fn surface_follows_the_window() {
    assert_eq!(SurfaceSize::new(0, 5), SurfaceSize { width: 1, height: 5 });
    let mut s = SurfaceSize::new(300, 200);
    assert!(!s.resize(0, 100));
    assert!(!s.resize(100, 0));
    assert_eq!(s, SurfaceSize { width: 300, height: 200 });
    assert!(s.resize(640, 480));
    assert_eq!(s, SurfaceSize { width: 640, height: 480 });
}

#[test]
fn first_srgb_format_is_picked() {
    assert_eq!(pick_format(&vec![false, true, true]), 1);
    assert_eq!(pick_format(&vec![true]), 0);
    assert_eq!(pick_format(&vec![false, false]), 0);
}

#[test]
fn lost_surfaces_are_configured_anew() {
    assert_eq!(acquire(FrameStatus::Success), FrameAction::Draw);
    assert_eq!(acquire(FrameStatus::Suboptimal), FrameAction::Draw);
    assert_eq!(acquire(FrameStatus::Outdated), FrameAction::Reconfigure);
    assert_eq!(acquire(FrameStatus::Lost), FrameAction::Reconfigure);
    assert_eq!(acquire(FrameStatus::Other), FrameAction::Skip);
}

#[test]
fn rows_are_padded() {
    assert_eq!(padded_row(64, 256), 256);
    assert_eq!(padded_row(65, 256), 512);
    assert_eq!(padded_row(0, 256), 0);
    assert_eq!(readback_bytes(65, 3, 256), 1536);
}

#[test]
fn sizes_that_overflow_cannot_be_read_back() {
    assert!(can_read_back(900, 700, 256));
    assert!(can_read_back(0, 700, 256));
    assert!(!can_read_back(900, 700, 0));
    assert!(!can_read_back(0x4000_0000, 1, 256));
    assert!(!can_read_back(0x3fff_ffff, 1, 256));
    assert!(can_read_back(64, 0x00ff_ffff, 256));
    assert!(!can_read_back(64, 0x0100_0000, 256));
}

fn two_rows() -> Vec<u8> {
    let mut data = vec![9u8; 32];
    data[..8].copy_from_slice(&[1, 2, 3, 4, 5, 6, 7, 8]);
    data[16..24].copy_from_slice(&[11, 12, 13, 14, 15, 16, 17, 18]);
    data
}

#[test]
fn pixels_lose_their_padding_and_alpha() {
    let data = two_rows();
    assert_eq!(
        to_rgba(&data, 2, 2, 16, false),
        vec![1, 2, 3, 255, 5, 6, 7, 255, 11, 12, 13, 255, 15, 16, 17, 255]
    );
    assert_eq!(
        to_rgba(&data, 2, 2, 16, true),
        vec![3, 2, 1, 255, 7, 6, 5, 255, 13, 12, 11, 255, 17, 16, 15, 255]
    );
    assert_eq!(to_rgba(&data, 0, 2, 16, true), Vec::<u8>::new());
}

#[test]
fn pictures_can_be_read_again() {
    let file = save_png(&two_rows(), 2, 2, 16, true).unwrap();
    assert_eq!(file[..8], [137, 80, 78, 71, 13, 10, 26, 10]);
    let mut reader = png::Decoder::new(std::io::Cursor::new(file)).read_info().unwrap();
    let mut out = vec![0u8; reader.output_buffer_size().unwrap()];
    let info = reader.next_frame(&mut out).unwrap();
    assert_eq!((info.width, info.height), (2, 2));
    assert_eq!(info.color_type, png::ColorType::Rgba);
    assert_eq!(out, vec![3, 2, 1, 255, 7, 6, 5, 255, 13, 12, 11, 255, 17, 16, 15, 255]);
}

#[test]
fn pictures_without_pixels_are_refused() {
    assert_eq!(save_png(&Vec::new(), 0, 2, 16, false), Err(PictureError::Empty));
    assert_eq!(save_png(&Vec::new(), 2, 0, 16, false), Err(PictureError::Empty));
    assert_eq!(picture_of(None, 1, 1), Err(PictureError::Encoder));
    assert_eq!(picture_of(Some(vec![7]), 1, 0), Err(PictureError::Empty));
    assert_eq!(picture_of(Some(vec![7]), 1, 1), Ok(vec![7]));
}

#[test]
fn pictures_are_named_after_the_fluid() {
    assert_eq!(picture_name("GPU SPH"), "ripple-gpu-sph.png");
    assert_eq!(picture_name("FLIP water"), "ripple-flip-water.png");
    assert_eq!(picture_name("smoke"), "ripple-smoke.png");
    assert_eq!(picture_name("\u{c9}t\u{e9} 2!"), "ripple-\u{c9}t\u{e9}-2-.png");
    assert_eq!(picture_name(""), "ripple-.png");
    assert_eq!(slug_char('Q', true), 'q');
    assert_eq!(slug_char('Q', false), '-');
    assert_eq!(slug_char('7', true), '7');
}

#[test]
fn digits_choose_fluids() {
    let all: Vec<Fluid> = (1..=6).map(make_backend).collect();
    assert_eq!(
        all,
        vec![
            Fluid::SphCpu,
            Fluid::Smoke,
            Fluid::Flip,
            Fluid::Sph,
            Fluid::GpuSmoke,
            Fluid::GpuFlip
        ]
    );
    assert_eq!(make_backend(0), Fluid::SphCpu);
    assert_eq!(make_backend(200), Fluid::SphCpu);
}
