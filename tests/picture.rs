use mickey::picture::{DrawCommand, PictureRecorder};
use mickey::stencil::ClipOp;

fn depths(p: &mickey::picture::Picture<&'static str, u8>) -> Vec<u32> {
    p.draws.iter().map(|d| d.depth).collect()
}

#[test]
fn clips_close_in_reverse_below_next_draw() {
    let mut rec: PictureRecorder<&'static str, u8> = PictureRecorder::new(0);
    rec.save();
    rec.clip("A", ClipOp::Intersect);
    rec.clip("B", ClipOp::Intersect);
    rec.restore();
    rec.draw("C");
    let pic = rec.finish_record();
    assert_eq!(depths(&pic), vec![2, 1, 3]);
    let (a, b, c) = (pic.draws[0].depth, pic.draws[1].depth, pic.draws[2].depth);
    assert!(a < c && b < c);
    assert!(b < a);
    assert!(a != 0 && b != 0);
    assert!(matches!(pic.draws[0].command, DrawCommand::Clip("A", ClipOp::Intersect)));
    assert!(matches!(pic.draws[2].command, DrawCommand::Paint("C")));
}

#[test]
fn draws_take_increasing_depths() {
    let mut rec: PictureRecorder<&'static str, u8> = PictureRecorder::new(0);
    rec.draw("a");
    rec.draw("b");
    rec.draw("c");
    assert_eq!(rec.depth(), 3);
    assert_eq!(depths(&rec.finish_record()), vec![1, 2, 3]);
}

#[test]
fn clip_keeps_placeholder_until_scope_closes() {
    let mut rec: PictureRecorder<&'static str, u8> = PictureRecorder::new(0);
    rec.save();
    rec.draw("x");
    rec.clip("y", ClipOp::Difference);
    rec.draw("z");
    assert_eq!(rec.depth(), 2);
    rec.restore();
    assert_eq!(rec.depth(), 3);
    assert_eq!(depths(&rec.finish_record()), vec![1, 3, 2]);
}

#[test]
fn finish_closes_open_scopes_innermost_first() {
    let mut rec: PictureRecorder<&'static str, u8> = PictureRecorder::new(0);
    rec.clip("outer", ClipOp::Intersect);
    rec.save();
    rec.clip("inner1", ClipOp::Intersect);
    rec.clip("inner2", ClipOp::Difference);
    rec.draw("d");
    let pic = rec.finish_record();
    assert_eq!(depths(&pic), vec![4, 3, 2, 1]);
}

#[test]
fn restore_without_save_resets_transform() {
    let mut rec: PictureRecorder<&'static str, u8> = PictureRecorder::new(7);
    rec.set_transform(9);
    rec.clip("c", ClipOp::Intersect);
    rec.restore();
    assert_eq!(rec.current_transform(), 7);
    rec.draw("d");
    let pic = rec.finish_record();
    assert_eq!(depths(&pic), vec![1, 2]);
    assert_eq!(pic.draws[0].transform, 9);
    assert_eq!(pic.draws[1].transform, 7);
}

#[test]
fn save_restore_brings_back_transform() {
    let mut rec: PictureRecorder<&'static str, u8> = PictureRecorder::new(0);
    rec.set_transform(1);
    rec.save();
    rec.set_transform(2);
    rec.draw("inside");
    rec.restore();
    rec.draw("outside");
    let pic = rec.finish_record();
    assert_eq!(pic.draws[0].transform, 2);
    assert_eq!(pic.draws[1].transform, 1);
}

#[test]
fn empty_recording_is_empty_picture() {
    let rec: PictureRecorder<&'static str, u8> = PictureRecorder::new(0);
    assert_eq!(rec.len(), 0);
    assert!(rec.finish_record().draws.is_empty());
}

#[test]
fn finished_depths_are_distinct_and_nonzero() {
    let mut rec: PictureRecorder<&'static str, u8> = PictureRecorder::new(0);
    rec.clip("c0", ClipOp::Intersect);
    rec.draw("d0");
    rec.save();
    rec.clip("c1", ClipOp::Difference);
    rec.save();
    rec.clip("c2", ClipOp::Intersect);
    rec.draw("d1");
    rec.restore();
    rec.draw("d2");
    let pic = rec.finish_record();
    let mut d = depths(&pic);
    assert!(d.iter().all(|&x| x >= 1 && x as usize <= pic.draws.len()));
    d.sort();
    assert_eq!(d, vec![1, 2, 3, 4, 5, 6]);
    assert_eq!(depths(&pic), vec![6, 1, 5, 3, 2, 4]);
}
