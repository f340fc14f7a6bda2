use diffin::suffix::iter;
use diffin::suffix::SuffixIter;

fn count_after(values: &[i32], steps: usize) -> usize {
    let mut cursor = SuffixIter::new(values);
    for _ in 0..steps {
        cursor.next();
    }
    cursor.count()
}

#[test]
fn three_integers_yield_three_suffixes() {
    let values = [10, 20, 30];
    let mut cursor = SuffixIter::new(&values[..]);

    assert_eq!(cursor.len(), 3);
    assert_eq!(count_after(&values, 0), 3);
    assert_eq!(cursor.size_hint(), (3, Some(3)));

    assert_eq!(cursor.next(), Some(&[10, 20, 30][..]));
    assert_eq!(cursor.len(), 2);
    assert_eq!(count_after(&values, 1), 2);

    assert_eq!(cursor.next(), Some(&[20, 30][..]));
    assert_eq!(cursor.len(), 1);
    assert_eq!(cursor.size_hint(), (1, Some(1)));
    assert_eq!(count_after(&values, 2), 1);

    assert_eq!(cursor.next(), Some(&[30][..]));
    assert_eq!(cursor.len(), 0);
    assert_eq!(count_after(&values, 3), 0);

    assert_eq!(cursor.next(), None);
    assert_eq!(cursor.count(), 0);
}

#[test]
fn empty_slice_yields_nothing() {
    let values: [u8; 0] = [];
    let mut cursor = iter(&values[..]);
    assert_eq!(cursor.next(), None);
    assert_eq!(cursor.len(), 0);
    assert_eq!(cursor.size_hint(), (0, Some(0)));
    assert_eq!(cursor.count(), 0);
    assert!(iter(&values[..]).collect().is_empty());
}

#[test]
fn exhausted_slice_cursor_stays_exhausted() {
    let values = ["x"];
    let mut cursor = SuffixIter::new(&values[..]);
    assert_eq!(cursor.next(), Some(&["x"][..]));
    for _ in 0..4 {
        assert_eq!(cursor.next(), None);
        assert_eq!(cursor.len(), 0);
    }
}

#[test]
fn slice_of_any_length_yields_as_many_suffixes() {
    let values: Vec<u32> = (0..17).collect();
    for n in 0..values.len() {
        let input = &values[..n];
        let all = SuffixIter::new(input).collect();
        assert_eq!(all.len(), n);
        for (i, suffix) in all.iter().enumerate() {
            assert_eq!(*suffix, &input[i..]);
        }
        if n > 0 {
            assert_eq!(all[0], input);
            assert_eq!(all[n - 1].len(), 1);
        }
    }
}

#[test]
fn slice_cursors_compare_by_what_is_left() {
    let values = [1, 2, 3];
    let mut a = SuffixIter::new(&values[..]);
    let b = SuffixIter::from(&values[1..]);
    assert_ne!(a, b);
    a.next();
    assert_eq!(a, b);
}

#[test]
fn two_cursors_over_one_input_are_independent() {
    let values = [7, 8];
    let mut a = iter(&values[..]);
    let mut b = iter(&values[..]);
    assert_eq!(a.next(), Some(&[7, 8][..]));
    assert_eq!(a.next(), Some(&[8][..]));
    assert_eq!(b.next(), Some(&[7, 8][..]));
    assert_eq!(a.next(), None);
    assert_eq!(b.next(), Some(&[8][..]));
}
