use phys_rs::coordinates::{sector_delta, sector_neighbourhood, Sector, SectorIndex};

#[test]
fn sector_construction() {
    let s = Sector::new(1, -2, 3);
    assert_eq!(s.0.x, 1);
    assert_eq!(s.0.y, -2);
    assert_eq!(s.0.z, 3);
    assert_eq!(Sector::origin(), Sector::default());
    assert_eq!(SectorIndex::new(4, 5, 6), SectorIndex { x: 4, y: 5, z: 6 });
}

#[test]
fn delta_and_shift_are_inverse() {
    let a = Sector::new(0, 0, 0);
    let b = Sector::new(1, 0, -7);
    let d = sector_delta(&a, &b);
    assert_eq!(d, SectorIndex { x: 1, y: 0, z: -7 });
    assert_eq!(a.shifted(d), b);
    let c = Sector::new(-3, 9, 2);
    assert_eq!(sector_delta(&c, &c.shifted(d)), d);
}

#[test]
fn normalization_shift_moves_one_sector() {
    // A local offset of 1.5 sector sizes moves the body one sector up.
    let s = Sector::origin().shifted(SectorIndex { x: 1, y: 0, z: 0 });
    assert_eq!(s.0.x, 1);
    let s = Sector::origin().shifted(SectorIndex { x: -1, y: 0, z: 0 });
    assert_eq!(s.0.x, -1);
}

#[test]
fn neighbourhood_lists_27_sectors() {
    let c = Sector::new(10, -4, 0);
    let n = sector_neighbourhood(&c);
    assert_eq!(n.len(), 27);
    assert_eq!(n[0], Sector::new(9, -5, -1));
    assert_eq!(n[13], c);
    assert_eq!(n[26], Sector::new(11, -3, 1));
    assert_eq!(n[1], Sector::new(9, -5, 0));
    assert_eq!(n[3], Sector::new(9, -4, -1));
}
