use default_vec2::{DynamicFlagVec, FlagLength, FlagVec, StaticFlagVec};

#[test]
fn test() {
    let v1 = vec![
        145, 114, 177, 130, 57, 228, 108, 147, 117, 119, 102, 143, 216, 215, 2, 215, 191, 217, 96,
        157, 200, 82, 220, 211, 66, 183, 16, 173, 174, 246, 232, 248, 174, 40, 33, 169, 12, 191,
        171, 24, 32, 196, 104, 101, 216, 155, 132, 91, 32, 95, 122, 149, 64, 56, 218, 129, 41, 26,
        63, 87, 77, 120, 101, 213, 26, 141, 166, 167, 70, 16, 136, 159, 157, 144, 94, 52, 121, 188,
        219, 72, 75, 74, 223, 148, 160, 13, 126, 89, 148, 149, 24, 221, 120, 204, 148, 167, 179,
        120, 93, 126,
    ];
    let v2 = vec![
        177, 234, 192, 132, 135, 63, 26, 136, 95, 252, 137, 0, 200, 214, 60, 61, 93, 45, 218, 173,
        81, 162, 23, 188, 97, 228, 26, 159, 199, 238, 128, 59, 19, 143, 15, 133, 52, 182, 208, 56,
        54, 99, 83, 47, 80, 208, 8, 64, 142, 205, 248, 11, 71, 252, 101, 32, 219, 117, 160, 120,
        217, 111, 3, 69, 215, 49, 122, 147, 147, 7, 199, 157, 69, 73, 159, 250, 241, 136, 85, 101,
        14, 32, 118, 64, 123, 154, 236, 7, 239, 206, 159, 12, 170, 84, 101, 136, 54, 138, 182, 247,
    ];
    assert_eq!(v1.len(), v2.len());
    let vor: Vec<_> = v1.iter().zip(&v2).map(|(&x, &y)| x | y).collect();
    let vand: Vec<_> = v1.iter().zip(&v2).map(|(&x, &y)| x & y).collect();
    let mut fv1 = StaticFlagVec::<9>::default();
    for (i, &x) in v1.iter().enumerate() {
        fv1.set(i, x);
    }
    assert_eq!(&fv1.iter().collect::<Vec<_>>()[..100], &v1);
    let mut fv2 = fv1.clone();
    for (i, &x) in v2.iter().enumerate() {
        assert_eq!(fv2.get(i), v1[i]);
        fv2.set(i, x);
    }
    assert_eq!(&fv2.iter().collect::<Vec<_>>()[..100], &v2);
    let mut fvor = fv1.clone();
    for (i, &x) in v2.iter().enumerate() {
        fvor.or_assign(i, x);
    }
    assert_eq!(&fvor.iter().collect::<Vec<_>>()[..100], &vor);
    let mut fvand = fvor;
    fvand.clone_from(&fv1);
    for (i, &x) in v2.iter().enumerate() {
        fvand.and_assign(i, x);
    }
    assert_eq!(&fvand.iter().collect::<Vec<_>>()[..100], &vand);
}

#[test]
fn or_assign_merges_bits() {
    let mut s: StaticFlagVec<4> = StaticFlagVec::default();
    s.or_assign(0, 3);
    assert_eq!(s.get(0), 3);
    s.or_assign(0, 9);
    assert_eq!(s.get(0), 11);
}

#[test]
fn and_assign_clears_bits() {
    let mut s: StaticFlagVec<4> = StaticFlagVec::default();
    s.or_assign(0, 11);
    s.and_assign(0, 5);
    assert_eq!(s.get(0), 1);
}

#[test]
fn set_replaces_and_truncates() {
    let mut s: StaticFlagVec<4> = StaticFlagVec::default();
    s.set(0, 3);
    assert_eq!(s.get(0), 3);
    s.set(0, 9);
    assert_eq!(s.get(0), 9);
    s.set(0, 18);
    assert_eq!(s.get(0), 2);
}

#[test]
fn iter_unpacks_in_index_order() {
    let mut s: StaticFlagVec<10> = StaticFlagVec::default();
    s.set(0, 42);
    s.set(2, 999);
    s.set(3, 365);
    let res: Vec<_> = s.iter().collect();
    assert_eq!(&res[..4], [42, 0, 999, 365])
}

#[test]
fn merges_after_set() {
    let mut s = DynamicFlagVec::new(4);
    for x in [0usize, 5, 8, 1000] {
        s.set(x, 11);
        s.and_assign(x, 5);
        assert_eq!(s.get(x), 1);
        s.set(x, 3);
        s.or_assign(x, 9);
        assert_eq!(s.get(x), 11);
    }
}

#[test]
fn merges_use_only_the_low_bits_of_the_operand() {
    let mut s = DynamicFlagVec::new(4);
    s.set(1, 0b0110);
    s.or_assign(1, 0b1111_0001);
    assert_eq!(s.get(1), 0b0111);
    s.and_assign(1, 0b1111_0101);
    assert_eq!(s.get(1), 0b0101);
    assert_eq!(s.get(0), 0);
    assert_eq!(s.get(2), 0);
    s.and_assign(2, 0xffff_ffff);
    assert_eq!(s.get(2), 0);
}

fn round_trip(width: u32) {
    let mask: u32 = if width == 32 { u32::MAX } else { (1 << width) - 1 };
    let values = [0u32, 1, 2, 3, 18, 255, 256, 0x5555_5555, 0xaaaa_aaaa, 0x8000_0001, u32::MAX];
    let mut s = DynamicFlagVec::new(width);
    for (x, v) in values.iter().enumerate() {
        s.set(x * 3, *v);
        assert_eq!(s.get(x * 3), v & mask, "width {} value {}", width, v);
    }
    for (x, v) in values.iter().enumerate() {
        assert_eq!(s.get(x * 3), v & mask);
        assert_eq!(s.get(x * 3 + 1), 0);
        assert_eq!(s.get(x * 3 + 2), 0);
    }
    for (x, v) in values.iter().enumerate() {
        s.set(x * 3, !*v);
        assert_eq!(s.get(x * 3), !v & mask);
    }
}

#[test]
fn set_then_get_gives_low_bits_for_every_width() {
    for width in 1..=32 {
        round_trip(width);
    }
}

#[test]
fn neighbours_in_one_word_do_not_disturb_each_other() {
    let mut s: StaticFlagVec<5> = StaticFlagVec::default();
    for x in 0..6usize {
        s.set(x, 31);
    }
    s.set(2, 0);
    assert_eq!(s.iter().take(6).collect::<Vec<_>>(), [31, 31, 0, 31, 31, 31]);
    s.set(2, 21);
    s.and_assign(3, 10);
    s.or_assign(1, 0);
    assert_eq!(s.iter().take(6).collect::<Vec<_>>(), [31, 31, 21, 10, 31, 31]);
    s.set(6, 7);
    assert_eq!(s.get(5), 31);
    assert_eq!(s.get(6), 7);
    assert_eq!(s.get(7), 0);
}

#[test]
fn width_one_packs_thirty_two_flags_per_word() {
    let mut s: StaticFlagVec<1> = StaticFlagVec::default();
    s.set(0, 1);
    let per_word = s.capacity();
    assert_eq!(per_word % 32, 0);
    for x in 0..64usize {
        s.set(x, (x % 3 == 0) as u32);
    }
    for x in 0..64usize {
        assert_eq!(s.get(x), (x % 3 == 0) as u32);
    }
    s.set(5, 2);
    assert_eq!(s.get(5), 0);
    s.set(5, 3);
    assert_eq!(s.get(5), 1);
}

#[test]
fn width_thirty_two_keeps_whole_words() {
    let mut s: StaticFlagVec<32> = StaticFlagVec::default();
    s.set(0, u32::MAX);
    s.set(1, 0x1234_5678);
    assert_eq!(s.get(0), u32::MAX);
    assert_eq!(s.get(1), 0x1234_5678);
    s.and_assign(0, 0xff00_00ff);
    assert_eq!(s.get(0), 0xff00_00ff);
    s.or_assign(1, 0x8000_0000);
    assert_eq!(s.get(1), 0x9234_5678);
    let all: Vec<u32> = s.iter().collect();
    assert_eq!(all.len(), s.capacity());
    assert_eq!(&all[..2], &[0xff00_00ff, 0x9234_5678]);
    let d = DynamicFlagVec::new(32);
    assert_eq!(d.get(0), 0);
}

#[test]
fn widths_that_leave_bits_over() {
    let mut s = DynamicFlagVec::new(9);
    s.set(2, 0x1ff);
    s.set(3, 0x155);
    assert_eq!(s.get(2), 0x1ff);
    assert_eq!(s.get(3), 0x155);
    assert_eq!(s.get(4), 0);
    let mut t = DynamicFlagVec::new(9);
    t.set(2, 0xffff_ffff);
    t.set(3, 0x155);
    assert!(s == t);
    let mut wide = DynamicFlagVec::new(17);
    wide.set(0, u32::MAX);
    wide.set(1, 5);
    assert_eq!(wide.get(0), 0x1_ffff);
    assert_eq!(wide.get(1), 5);
    assert_eq!(wide.iter().take(2).collect::<Vec<_>>(), [0x1_ffff, 5]);
}

#[test]
fn fresh_store_reads_zero() {
    let s: StaticFlagVec<7> = StaticFlagVec::default();
    assert_eq!(s.capacity(), 0);
    assert_eq!(s.iter().count(), 0);
    for x in [0usize, 1, 31, 32, 12345, usize::MAX] {
        assert_eq!(s.get(x), 0);
    }
    assert_eq!(s.capacity(), 0);
    let d = DynamicFlagVec::new(3);
    assert_eq!(d.capacity(), 0);
    assert_eq!(d.get(usize::MAX), 0);
}

#[test]
fn get_reserve_reads_and_grows() {
    let mut s: StaticFlagVec<8> = StaticFlagVec::default();
    s.set(1, 200);
    let cap = s.capacity();
    assert_eq!(s.get_reserve(1), 200);
    assert_eq!(s.capacity(), cap);
    assert_eq!(s.get_reserve(cap + 40), 0);
    assert!(s.capacity() > cap + 40);
    assert_eq!(s.get(1), 200);
    assert_eq!(s.iter().filter(|v| *v != 0).count(), 1);
}

#[test]
fn capacity_counts_slots_of_allocated_words() {
    let mut s = DynamicFlagVec::new(9);
    assert_eq!(s.capacity(), 0);
    s.set(0, 1);
    let cap = s.capacity();
    assert!(cap >= 3);
    assert_eq!(cap % 3, 0);
    s.set(cap, 1);
    assert!(s.capacity() > cap);
    assert_eq!(s.capacity() % 3, 0);
    let mut t: StaticFlagVec<4> = StaticFlagVec::default();
    t.set(100, 1);
    assert!(t.capacity() > 100);
    assert_eq!(t.capacity() % 8, 0);
}

#[test]
fn iter_matches_get_and_capacity() {
    for width in [1u32, 2, 3, 7, 8, 9, 16, 31, 32] {
        let mut s = DynamicFlagVec::new(width);
        assert_eq!(s.iter().count(), 0);
        for x in 0..70usize {
            s.set(x, (x as u32).wrapping_mul(2654435761));
        }
        let all: Vec<u32> = s.iter().collect();
        assert_eq!(all.len(), s.capacity());
        for (i, v) in all.iter().enumerate() {
            assert_eq!(*v, s.get(i), "width {} index {}", width, i);
        }
        assert_eq!(s.iter().collect::<Vec<_>>(), all);
    }
}

#[test]
fn clear_zeroes_every_slot() {
    let mut s: StaticFlagVec<6> = StaticFlagVec::default();
    for x in 0..40usize {
        s.set(x, 63);
    }
    let cap = s.capacity();
    s.clear();
    assert_eq!(s.capacity(), cap);
    assert!(s.iter().all(|v| v == 0));
    assert_eq!(s.iter().count(), cap);
    assert_eq!(s.get(3), 0);
    assert!(s == StaticFlagVec::<6>::default());
}

#[test]
fn equality_looks_at_words_only() {
    let a = DynamicFlagVec::new(4);
    let b = DynamicFlagVec::new(8);
    assert!(a == b);
    let mut a = DynamicFlagVec::new(4);
    let mut b = DynamicFlagVec::new(8);
    a.set(0, 0xf);
    a.set(1, 0x1);
    b.set(0, 0x1f);
    assert_eq!(a.get(0), 0xf);
    assert_eq!(b.get(0), 0x1f);
    assert!(a == b);
    b.set(1, 1);
    assert!(a != b);
}

#[test]
fn flag_equality_ignores_capacity() {
    let mut a: StaticFlagVec<4> = StaticFlagVec::default();
    let mut b: StaticFlagVec<4> = StaticFlagVec::default();
    a.set(2, 5);
    b.set(2, 5);
    b.set(4000, 1);
    assert!(a != b);
    b.set(4000, 0);
    assert!(a.capacity() < b.capacity());
    assert!(a == b);
    assert!(b == a);
}

#[test]
fn clone_keeps_width_and_values() {
    let mut a = DynamicFlagVec::new(4);
    a.set(3, 9);
    let mut b = a.clone();
    assert!(a == b);
    assert_eq!(b.get(3), 9);
    assert_eq!(b.capacity(), a.capacity());
    b.set(0, 18);
    assert_eq!(b.get(0), 2);
    assert_eq!(a.get(0), 0);
}

#[test]
fn clone_from_takes_over_width_and_values() {
    let mut narrow = DynamicFlagVec::new(4);
    narrow.set(0, 7);
    narrow.set(9, 3);
    let mut wide = DynamicFlagVec::new(16);
    wide.set(500, 0xabcd);
    wide.clone_from(&narrow);
    assert!(wide == narrow);
    assert_eq!(wide.get(0), 7);
    assert_eq!(wide.get(9), 3);
    assert_eq!(wide.get(500), 0);
    wide.set(1, 0xff);
    assert_eq!(wide.get(1), 0xf);
    let mut other = DynamicFlagVec::new(16);
    other.set(2, 0xbeef);
    narrow.clone_from(&other);
    assert_eq!(narrow.get(2), 0xbeef);
    assert_eq!(narrow.get(0), 0);
    assert!(narrow == other);
}

#[test]
fn try_new_accepts_widths_from_one_to_thirty_two() {
    assert!(DynamicFlagVec::try_new(0).is_none());
    assert!(DynamicFlagVec::try_new(33).is_none());
    assert!(DynamicFlagVec::try_new(u32::MAX).is_none());
    for width in 1..=32u32 {
        let mut s = DynamicFlagVec::try_new(width).expect("a width from 1 to 32");
        assert_eq!(s.capacity(), 0);
        s.set(1, u32::MAX);
        assert_eq!(s.get(1), u32::MAX >> (32 - width));
    }
}

#[test]
fn width_arithmetic() {
    for n in 1..=32u32 {
        assert_eq!(FlagLength::len(&n), n);
        let mask = if n == 32 { u32::MAX } else { (1u32 << n) - 1 };
        assert_eq!(n.base_mask(), mask);
        assert_eq!(n.chunk_size(), 32 / n);
        for x in [0usize, 1, 2, 31, 32, 33, 1000, 12345] {
            let per = (32 / n) as usize;
            assert_eq!(n.split(x), (x / per, (x % per) as u32 * n));
        }
    }
    assert_eq!(4u32.base_mask(), 15);
    assert_eq!(9u32.chunk_size(), 3);
    assert_eq!(9u32.split(100), (33, 9));
    assert_eq!(9u32.split(101), (33, 18));
    assert_eq!(9u32.split(102), (34, 0));
}

#[derive(Clone, Copy)]
struct Cell(u16);

impl From<Cell> for usize {
    fn from(c: Cell) -> usize {
        c.0 as usize + 1
    }
}

#[test]
fn flag_keys_convert_to_their_index() {
    let mut s: StaticFlagVec<6, Cell> = FlagVec::default();
    s.set(Cell(0), 33);
    s.or_assign(Cell(4), 70);
    assert_eq!(s.get(Cell(0)), 33);
    assert_eq!(s.get(Cell(4)), 6);
    assert_eq!(s.get(Cell(1)), 0);
    assert_eq!(s.iter().take(6).collect::<Vec<_>>(), [0, 33, 0, 0, 0, 6]);
}

#[test]
fn merge_is_set_of_the_merged_value() {
    for width in [1u32, 3, 4, 9, 12, 32] {
        let mut merged = DynamicFlagVec::new(width);
        let mut written = DynamicFlagVec::new(width);
        for (x, v) in [0x0u32, 0xffff_ffff, 0x1234_5678, 0x8765_4321, 5, 10].iter().enumerate() {
            merged.set(x, 0x0f0f_a5a5);
            written.set(x, 0x0f0f_a5a5);
            merged.or_assign(x, *v);
            let held = written.get(x);
            written.set(x, held | v);
            assert_eq!(merged.get(x), written.get(x));
            merged.and_assign(x + 10, *v);
            merged.set(x + 10, 0xffff_ffff);
            written.set(x + 10, 0xffff_ffff);
            merged.and_assign(x + 10, *v);
            let held = written.get(x + 10);
            written.set(x + 10, held & v);
            assert_eq!(merged.get(x + 10), written.get(x + 10));
        }
        assert!(merged == written);
        assert_eq!(merged.iter().collect::<Vec<_>>(), written.iter().collect::<Vec<_>>());
    }
}

#[test]
fn same_values_are_equal_whatever_the_capacity() {
    let mut a = DynamicFlagVec::new(7);
    let mut b = DynamicFlagVec::new(7);
    for x in 0..20usize {
        a.set(x, x as u32 * 5);
    }
    b.get_reserve(900);
    for x in (0..20usize).rev() {
        b.or_assign(x, 0x7f);
        b.and_assign(x, x as u32 * 5);
    }
    assert!(a.capacity() < b.capacity());
    for x in 0..b.capacity() {
        assert_eq!(a.get(x), b.get(x));
    }
    assert!(a == b);
    assert!(b == a);
}

fn copy_over<C: Clone>(target: &mut C, source: &C) {
    target.clone_from(source);
}

#[test]
fn flag_clone_from_through_the_trait() {
    let mut narrow = DynamicFlagVec::new(4);
    narrow.set(9, 3);
    let mut wide = DynamicFlagVec::new(16);
    wide.set(500, 0xabcd);
    let cap = wide.capacity();
    copy_over(&mut wide, &narrow);
    assert!(wide == narrow);
    assert_eq!(wide.get(9), 3);
    assert_eq!(wide.get(500), 0);
    assert_eq!(wide.capacity(), cap * 4);
    wide.set(1, 0xff);
    assert_eq!(wide.get(1), 0xf);
}
