use roots_core::packer::{Packer, Region};

fn overlaps(a: &Region, b: &Region) -> bool {
    !(a.x_max <= b.x || b.x_max <= a.x || a.y_max <= b.y || b.y_max <= a.y)
}

fn in_bounds(r: &Region, w: u32, h: u32) -> bool {
    r.x < r.x_max && r.y < r.y_max && r.x_max <= w && r.y_max <= h
}

#[test]
fn packer_allocates_disjoint_regions_and_reuses_freed_space() {
    let mut packer = Packer::new(256, 256);

    let a = packer.allocate(10, 10).expect("first allocation fits");
    let b = packer.allocate(20, 20).expect("second allocation fits");

    assert!(in_bounds(&a, 256, 256));
    assert!(in_bounds(&b, 256, 256));
    assert!(!overlaps(&a, &b));
    assert!(a.x_max - a.x >= 10 && a.y_max - a.y >= 10);
    assert!(b.x_max - b.x >= 20 && b.y_max - b.y >= 20);

    packer.deallocate(a.id);

    // Freed space is reusable: the allocation succeeds and the tracked
    // space never grows beyond the 256x256 texture.
    let c = packer.allocate(10, 10).expect("reallocation after free succeeds");
    assert!(in_bounds(&c, 256, 256));
    assert!(!overlaps(&c, &b));
}

#[test]
fn packer_clamps_zero_sized_requests_to_one_pixel() {
    let mut packer = Packer::new(256, 256);
    let r = packer.allocate(0, 0).expect("zero-size request occupies a valid slot");
    assert!(r.x_max - r.x >= 1 && r.y_max - r.y >= 1);
    assert!(in_bounds(&r, 256, 256));
}

#[test]
fn packer_rejects_oversized_requests() {
    let mut packer = Packer::new(256, 256);
    assert!(packer.allocate(300, 10).is_none());
    assert!(packer.allocate(10, 300).is_none());
}

#[test]
fn packer_many_small_allocations_stay_disjoint() {
    let mut packer = Packer::new(256, 256);
    let mut regions: Vec<Region> = Vec::new();
    for i in 0..40 {
        let w = 5 + (i % 7);
        let h = 5 + (i % 5);
        let r = packer.allocate(w, h).expect("small allocation fits");
        assert!(in_bounds(&r, 256, 256));
        for other in &regions {
            assert!(!overlaps(&r, other));
        }
        regions.push(r);
    }
}

#[test]
fn packer_supports_the_largest_allowed_texture() {
    // 65472 is the size cap: the largest extent whose shelf-height
    // rounding (to a multiple of 64) still fits the allocator's 16-bit
    // arithmetic.
    let mut packer = Packer::new(65472, 65472);
    let r = packer.allocate(10, 65472).expect("a full-height strip fits");
    assert!(r.y_max - r.y >= 65472);
    assert!(in_bounds(&r, 65472, 65472));
    packer.deallocate(r.id);
    let again = packer.allocate(10, 65472).expect("freed strip is reusable");
    assert!(in_bounds(&again, 65472, 65472));
}
