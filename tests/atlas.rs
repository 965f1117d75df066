use mickey::atlas::{AtlasAllocator, IRect, SkylineBinPack, SkylineNode};

fn rect(x: u32, y: u32, width: u32, height: u32) -> IRect {
    IRect { x, y, width, height }
}

#[test]
fn first_rect_goes_to_origin() {
    let mut pack = SkylineBinPack::new(100, 100);
    assert_eq!(pack.insert(30, 20), Some(rect(0, 0, 30, 20)));
    assert_eq!(
        pack.sky_line,
        vec![SkylineNode { x: 0, y: 20, width: 30 }, SkylineNode { x: 30, y: 0, width: 70 }]
    );
}

#[test]
fn lowest_position_wins() {
    let mut pack = SkylineBinPack::new(100, 100);
    pack.insert(30, 20);
    assert_eq!(pack.insert(30, 30), Some(rect(30, 0, 30, 30)));
    assert_eq!(pack.insert(100, 10), Some(rect(0, 30, 100, 10)));
    assert_eq!(pack.sky_line, vec![SkylineNode { x: 0, y: 40, width: 100 }]);
}

#[test]
fn rect_taller_than_room_is_refused() {
    let mut pack = SkylineBinPack::new(100, 100);
    pack.insert(100, 40);
    assert_eq!(pack.insert(10, 61), None);
    assert_eq!(pack.sky_line, vec![SkylineNode { x: 0, y: 40, width: 100 }]);
    assert_eq!(pack.insert(10, 60), Some(rect(0, 40, 10, 60)));
}

#[test]
fn rect_wider_than_bin_is_refused() {
    let mut pack = SkylineBinPack::new(64, 64);
    assert_eq!(pack.insert(65, 1), None);
    assert_eq!(pack.insert(64, 64), Some(rect(0, 0, 64, 64)));
    assert_eq!(pack.insert(1, 1), None);
}

#[test]
fn equal_levels_merge() {
    let mut pack = SkylineBinPack::new(100, 100);
    pack.insert(50, 10);
    assert_eq!(pack.insert(50, 10), Some(rect(50, 0, 50, 10)));
    assert_eq!(pack.sky_line, vec![SkylineNode { x: 0, y: 10, width: 100 }]);
}

#[test]
fn lower_neighbour_preferred_over_spanning() {
    let mut pack = SkylineBinPack::new(100, 100);
    pack.insert(30, 5);
    assert_eq!(pack.insert(40, 5), Some(rect(30, 0, 40, 5)));
    assert_eq!(
        pack.sky_line,
        vec![SkylineNode { x: 0, y: 5, width: 70 }, SkylineNode { x: 70, y: 0, width: 30 }]
    );
    assert_eq!(pack.insert(10, 5), Some(rect(70, 0, 10, 5)));
}

#[test]
fn allocator_counts_area() {
    let mut atlas = AtlasAllocator::new(100, 100);
    assert_eq!(atlas.allocate(30, 20), Some(rect(0, 0, 30, 20)));
    assert_eq!(atlas.get_used_area(), 600);
    assert_eq!(atlas.allocate(200, 1), None);
    assert_eq!(atlas.get_used_area(), 600);
    assert_eq!(atlas.allocate(10, 10), Some(rect(30, 0, 10, 10)));
    assert_eq!(atlas.get_used_area(), 700);
}

#[test]
fn many_placements_never_overlap() {
    let mut pack = SkylineBinPack::new(64, 64);
    let sizes = [(10, 7), (20, 3), (5, 15), (30, 9), (8, 8), (12, 20), (64, 2), (3, 3), (17, 11), (9, 30)];
    let mut placed: Vec<IRect> = Vec::new();
    for &(w, h) in sizes.iter() {
        if let Some(r) = pack.insert(w, h) {
            assert!(r.x + r.width <= 64 && r.y + r.height <= 64);
            for q in &placed {
                let apart = r.x + r.width <= q.x
                    || q.x + q.width <= r.x
                    || r.y + r.height <= q.y
                    || q.y + q.height <= r.y;
                assert!(apart, "{:?} overlaps {:?}", r, q);
            }
            placed.push(r);
        }
    }
    assert!(placed.len() >= 5);
}
