use workbench::points::{clone_slice_mut, PointIter, PointIterMut, PointList};

fn sample() -> PointList<i32> {
    PointList { dimensions: 2, points: vec![1, 2, 3, 4, 5, 6] }
}

#[test]
fn get_reads_one_point() {
    let list = sample();
    assert_eq!(list.get(0), &[1, 2]);
    assert_eq!(list.get(2), &[5, 6]);
    assert_eq!(list.get_clone(1), vec![3, 4]);
}

#[test]
fn get_clone_slice_copies_into_buffer() {
    let list = sample();
    let mut buf = [0, 0];
    list.get_clone_slice(1, &mut buf);
    assert_eq!(buf, [3, 4]);
}

#[test]
fn clone_slice_copies_values() {
    assert_eq!(clone_slice_mut(&[7u8, 8, 9]), vec![7, 8, 9]);
}

#[test]
fn set_writes_one_point() {
    let mut list = sample();
    list.set(1, &[30, 40]);
    assert_eq!(list.points, vec![1, 2, 30, 40, 5, 6]);
}

#[test]
fn get_mut_writes_through() {
    let mut list = sample();
    let p = list.get_mut(2);
    p[0] = 50;
    assert_eq!(list.points, vec![1, 2, 3, 4, 50, 6]);
}

#[test]
fn get_2_mut_gives_two_points() {
    let mut list = sample();
    {
        let (a, b) = list.get_2_mut(0, 2).expect("two points");
        assert_eq!(a, &[1, 2]);
        assert_eq!(b, &[5, 6]);
        a[1] = 20;
        b[0] = 50;
    }
    assert_eq!(list.points, vec![1, 20, 3, 4, 50, 6]);
}

#[test]
fn get_2_mut_refuses_wrong_order_and_overrun() {
    let mut list = sample();
    assert!(list.get_2_mut(2, 1).is_none());
    assert!(list.get_2_mut(1, 1).is_none());
    assert!(list.get_2_mut(0, 3).is_none());
    assert_eq!(list.points, vec![1, 2, 3, 4, 5, 6]);
}

#[test]
fn remove_shifts_later_points() {
    let mut list = sample();
    list.remove(1);
    assert_eq!(list.points, vec![1, 2, 5, 6]);
    list.remove(1);
    assert_eq!(list.points, vec![1, 2]);
}

#[test]
fn iter_walks_whole_points() {
    let list = sample();
    let mut it = list.iter();
    assert_eq!(it.next(), Some(&[1, 2][..]));
    assert_eq!(it.next(), Some(&[3, 4][..]));
    assert_eq!(it.next(), Some(&[5, 6][..]));
    assert_eq!(it.next(), None);
    let mut from = list.iter_from(2);
    assert_eq!(from.next(), Some(&[5, 6][..]));
    assert_eq!(from.next(), None);
}

#[test]
fn iter_stops_before_partial_point() {
    let list = PointList { dimensions: 2, points: vec![1, 2, 3] };
    let mut it = list.iter();
    assert_eq!(it.next(), Some(&[1, 2][..]));
    assert_eq!(it.next(), None);
}

#[test]
fn iter_mut_writes_each_point() {
    let mut list = sample();
    {
        let mut it = list.iter_mut();
        let mut k = 0;
        while let Some(p) = it.next() {
            k += 1;
            p[0] *= 10;
        }
        assert_eq!(k, 3);
        assert_eq!(it.offset, 6);
    }
    assert_eq!(list.points, vec![10, 2, 30, 4, 50, 6]);
}

#[test]
fn iter_mut_from_starts_at_point() {
    let mut list = sample();
    {
        let mut it = list.iter_mut_from(1);
        assert_eq!(it.offset, 2);
        let p = it.next().expect("second point");
        assert_eq!(p, &[3, 4]);
        p[1] = 0;
        let q = it.next().expect("third point");
        q[1] = 0;
        assert!(it.next().is_none());
    }
    assert_eq!(list.points, vec![1, 2, 3, 0, 5, 0]);
    let mut past = list.iter_mut_from(5);
    assert!(past.next().is_none());
}

#[test]
fn two_next_calls_hand_out_consecutive_points() {
    let mut list = PointList { dimensions: 3, points: (0..10).collect::<Vec<i32>>() };
    {
        let mut it = list.iter_mut_from(1);
        let o = it.offset;
        let a = it.next().expect("first");
        let b = it.next().expect("second");
        assert_eq!(a, &[3, 4, 5]);
        assert_eq!(b, &[6, 7, 8]);
        a[0] = -1;
        b[0] = -2;
        assert_eq!(it.offset, o + 6);
        assert!(it.next().is_none());
    }
    assert_eq!(list.points, vec![0, 1, 2, -1, 4, 5, -2, 7, 8, 9]);
}

#[test]
fn walks_past_the_end_stop_without_adding() {
    let values = vec![1, 2, 3];
    let mut it = PointIter { dimensions: usize::MAX, offset: 10, list: &values };
    assert_eq!(it.next(), None);
    assert_eq!(it.offset, 10);
    let mut empty: Vec<i32> = vec![];
    let mut walk = PointIterMut { dimensions: 5, offset: usize::MAX, rest: Some(empty.as_mut_slice()) };
    assert!(walk.next().is_none());
    assert_eq!(walk.offset, usize::MAX);
}
