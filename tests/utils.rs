use keygen::utils::ConstrainedSortedList;

#[test]
fn test() {
    let mut csl = ConstrainedSortedList::new(3);
    csl.insert_maybe(&(1 as usize));
    csl.insert_maybe(&(5 as usize));
    csl.insert_maybe(&(3 as usize));
    csl.insert_maybe(&(4 as usize));
    csl.insert_maybe(&(2 as usize));
    csl.insert_maybe(&(6 as usize));

    let mut iter = csl.iter();

    assert_eq!(Some(&6), iter.next());
    assert_eq!(Some(&5), iter.next());
    assert_eq!(Some(&4), iter.next());
    assert_eq!(None, iter.next());
}

#[test]
fn tracker_never_exceeds_capacity_and_stays_sorted() {
    let mut csl = ConstrainedSortedList::new(4);
    for x in [9usize, 2, 7, 7, 1, 12, 3, 8, 8, 0] {
        csl.insert_maybe(&x);
        let v: Vec<usize> = csl.iter().copied().collect();
        assert!(v.len() <= 4);
        assert!(v.windows(2).all(|w| w[0] >= w[1]));
    }
    assert_eq!(csl.entries(), &vec![12, 9, 8, 8]);
}

#[test]
fn tracker_with_zero_capacity_stays_empty() {
    let mut csl = ConstrainedSortedList::new(0);
    csl.insert_maybe(&(5 as usize));
    assert_eq!(csl.iter().next(), None);
}

#[test]
fn chars_of_keeps_every_character() {
    assert_eq!(keygen::utils::chars_of("aé b"), vec!['a', 'é', ' ', 'b']);
}
