use sndcore::util::channel_mask::Mask;
use sndcore::util::fx::Fx;
use sndcore::util::region::Region;
use sndcore::util::ring_vec::Ring;
use sndcore::util::ruler::Ruler;

#[test]
fn test_shift_after() {
    let mut z = Mask::from_bits(0x10101010);

    z.shift_after(24);
    assert_eq!(0x08101010, z.bits());
    z.shift_after(16);
    assert_eq!(0x04081010, z.bits());
    z.shift_after(0);
    assert_eq!(0x02040808, z.bits());
}

#[test]
fn mask_toggle_and_solo() {
    let mut m = Mask::default();
    assert!(m.is_on(0) && m.is_on(31));
    m.toggle(3);
    assert!(!m.is_on(3));
    assert!(m.is_on(2) && m.is_on(4));
    m.toggle(3);
    assert!(m.is_on(3));
    m.solo();
    assert!(m.is_on(0));
    assert!(!m.is_on(1));
}

#[test]
fn test_structure_and_iteration() {
    let mut z: Ring<usize, 5> = Ring::new();
    z.push(1);
    z.push(2);
    z.push(3);
    z.push(4);
    z.push(5);
    z.push(6);

    let z2: Vec<usize> = z.iter();
    assert_eq!(z2[0], 2);
    assert_eq!(z2[1], 3);
    assert_eq!(z2[2], 4);
    assert_eq!(z2[3], 5);
    assert_eq!(z2[4], 6);
}

#[test]
fn ring_clear_forgets() {
    let mut z: Ring<usize, 3> = Ring::new();
    z.push(1);
    z.push(2);
    z.clear();
    assert!(z.iter().is_empty());
}

fn fx_i(v: i64) -> Fx {
    Fx::from_int(v)
}

fn fx_m(v: i64) -> Fx {
    Fx::from_micros(v)
}

#[test]
fn start_end_and_len() {
    let x = Region::new(fx_i(256), fx_i(16));
    assert_eq!(x.start().as_micros(), 16_000_000, "the start should be the lower of the 2 numbers");
    assert_eq!(x.end().as_micros(), 256_000_000, "the end should be the greater of the 2 numbers");
    assert_eq!(x.len().as_micros(), 240_000_000, "the regions len should be correct");

    let x = Region::new(fx_m(-5_400_000), fx_i(10));
    assert_eq!(x.start().as_micros(), -5_400_000, "the start should be the lower of the 2 numbers");
    assert_eq!(x.end().as_micros(), 10_000_000, "the end should be the greater of the 2 numbers");
    assert_eq!(x.len().as_micros(), 15_400_000, "the regions len should be correct");
}

#[test]
fn sample_cover() {
    let x = Region::new(fx_m(-5_400_000), fx_i(10));
    assert_eq!(x.sample_range(), (0, 10), "sample range should truncate negative numbers");

    let x = Region::new(fx_m(3_400_000), fx_m(10_700_000));
    assert_eq!(x.sample_range(), (4, 11), "sample range should round start up and end down");
}

#[test]
fn intersection() {
    let x = Region::new(fx_i(0), fx_i(10));

    let left = Region::new(fx_i(-5), fx_i(-3));
    assert!(x.intersect(&left).is_none(), "a region to the left should have no intersection");

    let right = Region::new(fx_i(11), fx_i(15));
    assert!(x.intersect(&right).is_none(), "a region to the right should have no intersection");

    let overlap = Region::new(fx_i(-3), fx_i(7));
    if let Some(v) = x.intersect(&overlap) {
        assert_eq!(0, v.start().as_micros(), "the left overlapping region should start correctly");
        assert_eq!(
            7_000_000,
            v.end().as_micros(),
            "the left overlapping region should end correctly"
        );
    } else {
        panic!("an overlapping region should have an intersection");
    }

    let overlap = Region::new(fx_i(7), fx_i(11));
    if let Some(v) = x.intersect(&overlap) {
        assert_eq!(
            7_000_000,
            v.start().as_micros(),
            "the right overlapping region should start correctly"
        );
        assert_eq!(
            10_000_000,
            v.end().as_micros(),
            "the right overlapping region should end correctly"
        );
    } else {
        panic!("an overlapping region should have an intersection");
    }

    let overlap = Region::new(fx_i(10), fx_i(11));
    if let Some(v) = x.intersect(&overlap) {
        assert_eq!(
            10_000_000,
            v.start().as_micros(),
            "the right overlapping region should start correctly"
        );
        assert_eq!(
            10_000_000,
            v.end().as_micros(),
            "the right overlapping region should end correctly"
        );
    } else {
        panic!("an overlapping region should have an intersection");
    }
}

#[test]
fn contains() {
    let x = Region::new(fx_m(-5_400_000), fx_i(10));
    assert!(x.contains(&fx_i(0)), "contains should return true if the number is in the region");
    assert!(x.contains(&fx_m(-5_400_000)), "a region contains it's start endpoint");
    assert!(x.contains(&fx_i(10)), "a region contains it's end endpoint");
    assert!(
        !x.contains(&fx_i(-60)),
        "contains should return false if the number isn't in the region"
    );
}

#[test]
fn center() {
    let x = Region::new(fx_i(-5), fx_i(10));
    assert_eq!(x.center().as_micros(), 2_500_000, "the center should be correct");

    let x = Region::new(fx_i(-5), fx_i(-10));
    assert_eq!(x.center().as_micros(), -7_500_000, "negative centers should be correct");

    let x = Region::new(fx_i(6), fx_i(6));
    assert_eq!(x.center().as_micros(), 6_000_000, "single point centers should be correct");
}

#[test]
pub fn test_previous_mark() {
    let r = Ruler::new(fx_i(1000), fx_i(0));
    assert_eq!(
        r.previous_mark(fx_i(5)).as_micros(),
        0,
        "previous mark should be lower when not on a division"
    );
    assert_eq!(
        r.previous_mark(fx_i(1999)).as_micros(),
        1000_000_000,
        "previous mark should work on higher divisions"
    );
    assert_eq!(
        r.previous_mark(fx_i(-10)).as_micros(),
        -1000_000_000,
        "the previous mark should work in the negative"
    );

    assert_eq!(
        r.previous_mark(fx_i(1000)).as_micros(),
        1000_000_000,
        "previous mark should be = when on a division"
    );

    let r2 = r.slide(fx_i(250));
    assert_eq!(
        r2.previous_mark(fx_i(295)).as_micros(),
        250_000_000,
        "previous mark should work with an offset"
    );
    assert_eq!(
        r2.previous_mark(fx_i(1999)).as_micros(),
        1250_000_000,
        "higher divisions with an offset"
    );
    assert_eq!(r2.previous_mark(fx_i(-10)).as_micros(), -750_000_000, "negatives with an offset");
    assert_eq!(
        r2.previous_mark(fx_i(2250)).as_micros(),
        2250_000_000,
        "previous mark should be = when on a division"
    );
}

#[test]
pub fn test_next_mark() {
    let r = Ruler::new(fx_i(1000), fx_i(0));
    assert_eq!(
        r.next_mark(fx_i(5)).as_micros(),
        1000_000_000,
        "next mark should be higher when not on a division"
    );
    assert_eq!(
        r.next_mark(fx_i(1999)).as_micros(),
        2000_000_000,
        "next mark should work on higher divisions"
    );
    assert_eq!(
        r.next_mark(fx_i(-10)).as_micros(),
        0,
        "the next mark should work in the negative"
    );

    assert_eq!(
        r.next_mark(fx_i(1000)).as_micros(),
        2000_000_000,
        "next mark should not be = when on a division"
    );

    let r2 = r.slide(fx_i(250));
    assert_eq!(
        r2.next_mark(fx_i(295)).as_micros(),
        1250_000_000,
        "next mark should work with an offset"
    );
    assert_eq!(
        r2.next_mark(fx_i(1999)).as_micros(),
        2250_000_000,
        "higher divisions with an offset"
    );
    assert_eq!(r2.next_mark(fx_i(-10)).as_micros(), 250_000_000, "negatives with an offset");
    assert_eq!(
        r2.next_mark(fx_i(2250)).as_micros(),
        3250_000_000,
        "next mark should not be = when on a division"
    );
}

#[test]
pub fn test_next_or_current() {
    let r = Ruler::new(fx_i(1000), fx_i(0));
    assert_eq!(
        r.next_or_current(fx_i(5)).as_micros(),
        1000_000_000,
        "next_or_current should work when not on a div"
    );
    assert_eq!(
        r.next_or_current(fx_i(1000)).as_micros(),
        1000_000_000,
        "next_or_current should work when on a div"
    );
}

#[test]
fn ruler_rescale() {
    let r = Ruler::new(fx_i(1000), fx_i(0));
    let r2 = r.rescale(fx_m(500_000));
    assert_eq!(r2.scale().as_micros(), 500_000_000);
    let r3 = r.rescale(fx_i(-2));
    assert_eq!(r3.scale().as_micros(), 1000_000_000);
}

#[test]
fn fx_rounding() {
    assert_eq!(fx_m(2_500_000).floor_units(), 2);
    assert_eq!(fx_m(-2_500_000).floor_units(), -3);
    assert_eq!(fx_m(2_500_000).ceil_units(), 3);
    assert_eq!(fx_m(-2_500_000).ceil_units(), -2);
    assert_eq!(fx_i(4).floor_units(), 4);
    assert_eq!(fx_i(4).ceil_units(), 4);
}
