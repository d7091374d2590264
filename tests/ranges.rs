use better_range::{from, range, step, to, until};

#[test]
fn works_for_trivial_cases() {
    assert_eq!(from(-1isize).take(4), vec![-1, 0, 1, 2]);
    assert_eq!(from(1isize).take(5), vec![1, 2, 3, 4, 5]);
    assert_eq!(to(4isize).collect(), vec![0, 1, 2, 3, 4]);
    assert_eq!(step(4isize).take(5), vec![0, 4, 8, 12, 16]);
    assert_eq!(range::<u8>().take(5), vec![0, 1, 2, 3, 4]);
}

#[test]
fn handles_chaining() {
    assert_eq!(from(0isize).to(10).step(2).collect(), vec![0, 2, 4, 6, 8, 10]);
    assert_eq!(from(0isize).step(20).take(4), vec![0, 20, 40, 60]);
}

#[test]
fn works_with_negative_steps() {
    assert_eq!(from(10isize).to(0).step(-3).collect(), vec![10, 7, 4, 1]);
    assert_eq!(from(0isize).to(10).step(-3).collect(), Vec::<isize>::new());
    assert_eq!(from(-10isize).to(-20).step(-5).collect(), vec![-10, -15, -20]);
    assert_eq!(range::<i8>().step(-4).take(5), vec![0, -4, -8, -12, -16]);
}

#[test]
fn handles_exclusive_ranges() {
    assert_eq!(from(10isize).until(20).step(5).collect(), vec![10, 15]);
    assert_eq!(from(10isize).until(-10).step(-5).collect(), vec![10, 5, 0, -5]);
    assert_eq!(range().until(5usize).collect(), vec![0, 1, 2, 3, 4]);
}

#[test]
fn handles_edge_cases_for_about_to_overflow_integers() {
    assert_eq!(from(252u8).collect(), vec![252, 253, 254, 255]);
    assert_eq!(from(125i8).collect(), vec![125, 126, 127]);
    assert_eq!(from(240u8).step(5).collect(), vec![240, 245, 250, 255]);
    assert_eq!(from(115i8).step(5).collect(), vec![115, 120, 125]);
    assert_eq!(
        from(-123i8).step(-1).collect(),
        vec![-123, -124, -125, -126, -127, -128]
    );
    assert_eq!(range::<u8>().step(100).collect(), vec![0, 100, 200]);
}

#[test]
fn handles_char_ranges() {
    assert_eq!(from('a').to('c').collect(), vec!['a', 'b', 'c']);
    assert_eq!(from('0').to('5').collect(), vec!['0', '1', '2', '3', '4', '5']);
    assert_eq!(from(char::MAX).collect(), vec![char::MAX]);
}

#[test]
fn ascending_inclusive_ends_on_bound_when_step_divides() {
    let out = from(1i32).to(10).step(3).collect();
    assert_eq!(out, vec![1, 4, 7, 10]);
    assert_eq!(*out.last().unwrap(), 10);
}

#[test]
fn ascending_inclusive_ends_below_bound_otherwise() {
    let out = from(1i32).to(12).step(3).collect();
    assert_eq!(out, vec![1, 4, 7, 10]);
    let last = *out.last().unwrap();
    assert!(last <= 12 && 12 < last + 3);
    assert_eq!(from(0u64).to(u64::MAX).step(u64::MAX / 2).collect(), vec![
        0,
        u64::MAX / 2,
        u64::MAX - 1,
    ]);
}

#[test]
fn first_value_is_the_start_in_every_domain() {
    assert_eq!(from(u64::MAX).take(1), vec![u64::MAX]);
    assert_eq!(from(i8::MIN).take(1), vec![i8::MIN]);
    assert_eq!(from(-7i16).take(1), vec![-7]);
    assert_eq!(from(usize::MAX).take(1), vec![usize::MAX]);
    assert_eq!(from('z').take(1), vec!['z']);
}

#[test]
fn stepping_twice_with_the_same_step_changes_nothing() {
    assert_eq!(
        from(0i32).to(10).step(3).step(3).collect(),
        from(0i32).to(10).step(3).collect()
    );
    assert_eq!(step(-2i64).step(-2).take(4), step(-2i64).take(4));
    assert_eq!(step(-2i64).take(4), vec![0, -2, -4, -6]);
}

#[test]
fn restepping_rederives_the_direction() {
    assert_eq!(from(0i32).to(-6).step(2).step(-2).collect(), vec![0, -2, -4, -6]);
    assert_eq!(from(0i32).to(6).step(-2).step(2).collect(), vec![0, 2, 4, 6]);
}

#[test]
fn until_entry_point_excludes_its_bound() {
    assert_eq!(until(3u8).collect(), vec![0, 1, 2]);
    assert_eq!(until(0i32).collect(), Vec::<i32>::new());
}

#[test]
fn char_successor_skips_the_surrogate_gap() {
    assert_eq!(from('\u{D7FE}').take(3), vec!['\u{D7FE}', '\u{D7FF}', '\u{E000}']);
    assert_eq!(from('\u{10FFFE}').collect(), vec!['\u{10FFFE}', '\u{10FFFF}']);
}

#[test]
fn latch_stays_set_after_overflow() {
    let mut r = from(255u8);
    assert_eq!(r.next(), Some(255));
    assert_eq!(r.next(), None);
    assert_eq!(r.next(), None);
    let mut s = from(i64::MIN + 1).step(-1);
    assert_eq!(s.next(), Some(i64::MIN + 1));
    assert_eq!(s.next(), Some(i64::MIN));
    assert_eq!(s.next(), None);
    assert_eq!(s.next(), None);
}

#[test]
fn full_domain_to_its_maximum() {
    let all = to(255u8).collect();
    assert_eq!(all.len(), 256);
    assert_eq!(all[255], 255);
    assert_eq!(from(i16::MAX - 1).collect(), vec![i16::MAX - 1, i16::MAX]);
    assert_eq!(from(u32::MAX - 2).step(2).collect(), vec![u32::MAX - 2, u32::MAX]);
}

#[test]
fn empty_and_zero_step_ranges() {
    assert_eq!(from(5u16).until(5).collect(), Vec::<u16>::new());
    assert_eq!(from(6u16).to(5).collect(), Vec::<u16>::new());
    assert_eq!(from(5i32).to(10).step(0).take(3), vec![5, 5, 5]);
    assert_eq!(from(5i32).until(5).step(-1).collect(), Vec::<i32>::new());
}

#[test]
fn builders_on_stepped_ranges() {
    assert_eq!(step(3i32).to(9).collect(), vec![0, 3, 6, 9]);
    assert_eq!(step(3i32).until(9).collect(), vec![0, 3, 6]);
    assert_eq!(step(2i32).from(5).take(3), vec![5, 7, 9]);
    assert_eq!(range::<u8>().from(7).take(2), vec![7, 8]);
    assert_eq!(to(3u32).from(1).collect(), vec![1, 2, 3]);
    assert_eq!(from(0u8).until(200).step(100).collect(), vec![0, 100]);
}

#[test]
fn take_stops_at_the_end() {
    assert_eq!(from(254u8).take(10), vec![254, 255]);
    assert_eq!(from(3i8).take(0), Vec::<i8>::new());
}
