use mickey::image::{Bitmap, ImageFormat, ImageInfo};
use mickey::picture::PictureRecorder;
use mickey::replay::{sample_count, ReplayQueue};
use mickey::stencil::ClipOp;
use mickey::text::{FontDescription, FontStyle};

#[test]
fn font_styles() {
    assert_eq!(FontStyle::normal(), FontStyle { weight: 400, italic: false, stretch: 5 });
    assert_eq!(FontStyle::bold(), FontStyle { weight: 700, italic: false, stretch: 5 });
    assert_eq!(FontStyle::italic(), FontStyle { weight: 400, italic: true, stretch: 5 });
    assert_eq!(FontStyle::new(300, true, 3), FontStyle { weight: 300, italic: true, stretch: 3 });
    assert_eq!(FontStyle::default(), FontStyle::normal());
    let d = FontDescription { name: "Sans-Bold".to_string(), family: "Sans".to_string(), style: FontStyle::bold() };
    assert_eq!(d.clone(), d);
}

#[test]
fn bitmap_row_stride() {
    let info = ImageInfo { width: 16, height: 2, format: ImageFormat::RGBA8888, premultiplied: false };
    let packed = Bitmap::new(info, vec![0u8; 128], None);
    assert_eq!(packed.bytes_per_row, 64);
    assert_eq!(packed.data.len(), 128);
    let padded = Bitmap::new(info, vec![0u8; 160], Some(80));
    assert_eq!(padded.bytes_per_row, 80);
    assert_eq!(padded.info, info);
}

#[test]
fn replays_stack_depths() {
    let mut rec: PictureRecorder<&'static str, u8> = PictureRecorder::new(0);
    rec.draw("a");
    rec.save();
    rec.clip("c", ClipOp::Intersect);
    rec.restore();
    let pic = rec.finish_record();
    let mut queue = ReplayQueue::new();
    queue.replay(&pic);
    queue.replay(&pic);
    assert_eq!(queue.depths(), &vec![1, 2, 3, 4]);
    assert_eq!(queue.len(), 4);
    assert_eq!(queue.total_depth(), 5);
}

#[test]
fn same_picture_same_depths_on_fresh_surfaces() {
    let mut rec: PictureRecorder<&'static str, u8> = PictureRecorder::new(0);
    rec.save();
    rec.clip("a", ClipOp::Intersect);
    rec.clip("b", ClipOp::Difference);
    rec.restore();
    rec.draw("c");
    let pic = rec.finish_record();
    let mut first = ReplayQueue::new();
    let mut second = ReplayQueue::new();
    first.replay(&pic);
    second.replay(&pic);
    assert_eq!(first.depths(), second.depths());
    assert_eq!(first.depths(), &vec![2, 1, 3]);
    assert_eq!(pic.draws.len(), 3);
}

#[test]
fn anti_alias_uses_four_samples() {
    assert_eq!(sample_count(true), 4);
    assert_eq!(sample_count(false), 1);
}
