use reminders::weekday::{DaySet, Weekday};

#[test]
fn weekday_numbers_from_sunday() {
    assert_eq!(Weekday::Sunday.number_from_sunday(), 1);
    assert_eq!(Weekday::Monday.number_from_sunday(), 2);
    assert_eq!(Weekday::Saturday.number_from_sunday(), 7);
    assert_eq!(Weekday::from_number_from_sunday(1), Some(Weekday::Sunday));
    assert_eq!(Weekday::from_number_from_sunday(5), Some(Weekday::Thursday));
    assert_eq!(Weekday::from_number_from_sunday(0), None);
    assert_eq!(Weekday::from_number_from_sunday(8), None);
    assert_eq!(Weekday::from_number_from_sunday(-1), None);
}

#[test]
fn weekday_positions_from_monday() {
    assert_eq!(Weekday::Monday.number_days_from_monday(), 0);
    assert_eq!(Weekday::Sunday.number_days_from_monday(), 6);
    assert_eq!(Weekday::from_days_from_monday(3), Weekday::Thursday);
}

#[test]
fn day_set_membership() {
    let set = DaySet::empty().with(Weekday::Monday).with(Weekday::Friday);
    assert!(set.contains(Weekday::Monday));
    assert!(set.contains(Weekday::Friday));
    assert!(!set.contains(Weekday::Sunday));
    assert!(!set.is_empty());
    assert!(DaySet::empty().is_empty());
    assert!(!DaySet::all().is_empty());
    assert_eq!(set.with(Weekday::Monday), set);
}

#[test]
fn day_set_to_numbers_and_back() {
    let set = DaySet::empty().with(Weekday::Sunday).with(Weekday::Wednesday).with(Weekday::Saturday);
    let numbers = set.numbers_from_sunday();
    assert_eq!(numbers, vec![1, 4, 7]);
    assert_eq!(DaySet::from_numbers_from_sunday(&numbers), Some(set));
    assert_eq!(DaySet::all().numbers_from_sunday(), vec![1, 2, 3, 4, 5, 6, 7]);
    assert_eq!(DaySet::empty().numbers_from_sunday(), Vec::<i32>::new());
}

#[test]
fn day_set_from_numbers() {
    assert_eq!(
        DaySet::from_numbers_from_sunday(&vec![2, 2, 6]),
        Some(DaySet::empty().with(Weekday::Monday).with(Weekday::Friday))
    );
    assert_eq!(DaySet::from_numbers_from_sunday(&vec![]), Some(DaySet::empty()));
    assert_eq!(DaySet::from_numbers_from_sunday(&vec![1, 8]), None);
    assert_eq!(DaySet::from_numbers_from_sunday(&vec![0]), None);
}
