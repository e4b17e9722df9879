//! Days of the week and sets of them.

use vstd::prelude::*;

verus! {

/// A day of the week.
#[derive(Clone, Copy, Debug, PartialEq, Eq, Structural, Hash)]
pub enum Weekday {
    Monday,
    Tuesday,
    Wednesday,
    Thursday,
    Friday,
    Saturday,
    Sunday,
}

impl Weekday {
    /// Position in a week that starts on Monday: Monday is 0, Sunday is 6.
    pub open spec fn index(self) -> int {
        match self {
            Weekday::Monday => 0,
            Weekday::Tuesday => 1,
            Weekday::Wednesday => 2,
            Weekday::Thursday => 3,
            Weekday::Friday => 4,
            Weekday::Saturday => 5,
            Weekday::Sunday => 6,
        }
    }

    /// The weekday at a position counted from Monday; positions wrap around
    /// the week in both directions.
    pub open spec fn at(i: int) -> Weekday {
        let k = i % 7;
        if k == 0 {
            Weekday::Monday
        } else if k == 1 {
            Weekday::Tuesday
        } else if k == 2 {
            Weekday::Wednesday
        } else if k == 3 {
            Weekday::Thursday
        } else if k == 4 {
            Weekday::Friday
        } else if k == 5 {
            Weekday::Saturday
        } else {
            Weekday::Sunday
        }
    }

    /// Position in a week that starts on Sunday, counted from one: Sunday is
    /// 1, Saturday is 7. This is the number under which a day is stored.
    pub open spec fn sunday_number(self) -> int {
        (self.index() + 1) % 7 + 1
    }

    /// Whether `n` is the stored number of some weekday.
    pub open spec fn is_sunday_number(n: int) -> bool {
        1 <= n <= 7
    }

    /// The weekday stored under `n`.
    pub open spec fn of_sunday_number(n: int) -> Weekday {
        Weekday::at(n + 5)
    }

    pub fn number_days_from_monday(self) -> (i: u8)
        ensures
            i == self.index(),
            Weekday::at(i as int) == self,
    {
        match self {
            Weekday::Monday => 0,
            Weekday::Tuesday => 1,
            Weekday::Wednesday => 2,
            Weekday::Thursday => 3,
            Weekday::Friday => 4,
            Weekday::Saturday => 5,
            Weekday::Sunday => 6,
        }
    }

    pub fn from_days_from_monday(i: u8) -> (d: Weekday)
        requires
            i < 7,
        ensures
            d == Weekday::at(i as int),
            d.index() == i,
    {
        if i == 0 {
            Weekday::Monday
        } else if i == 1 {
            Weekday::Tuesday
        } else if i == 2 {
            Weekday::Wednesday
        } else if i == 3 {
            Weekday::Thursday
        } else if i == 4 {
            Weekday::Friday
        } else if i == 5 {
            Weekday::Saturday
        } else {
            Weekday::Sunday
        }
    }

    pub fn number_from_sunday(self) -> (n: i32)
        ensures
            n == self.sunday_number(),
            Weekday::is_sunday_number(n as int),
            Weekday::of_sunday_number(n as int) == self,
    {
        match self {
            Weekday::Sunday => 1,
            Weekday::Monday => 2,
            Weekday::Tuesday => 3,
            Weekday::Wednesday => 4,
            Weekday::Thursday => 5,
            Weekday::Friday => 6,
            Weekday::Saturday => 7,
        }
    }

    /// The weekday stored under `n`, if `n` is one of 1 to 7.
    pub fn from_number_from_sunday(n: i32) -> (r: Option<Weekday>)
        ensures
            r is Some <==> Weekday::is_sunday_number(n as int),
            r matches Some(d) ==> d == Weekday::of_sunday_number(n as int) && d.sunday_number()
                == n,
    {
        match n {
            1 => Some(Weekday::Sunday),
            2 => Some(Weekday::Monday),
            3 => Some(Weekday::Tuesday),
            4 => Some(Weekday::Wednesday),
            5 => Some(Weekday::Thursday),
            6 => Some(Weekday::Friday),
            7 => Some(Weekday::Saturday),
            _ => None,
        }
    }
}

/// Every weekday sits at its own position.
pub proof fn lemma_weekday_at_index(d: Weekday)
    ensures
        0 <= d.index() < 7,
        Weekday::at(d.index()) == d,
{
}

/// A set of weekdays. Every combination of the seven flags is a set, the
/// empty one included.
#[derive(Clone, Copy, Debug, PartialEq, Eq, Structural, Hash)]
pub struct DaySet {
    pub monday: bool,
    pub tuesday: bool,
    pub wednesday: bool,
    pub thursday: bool,
    pub friday: bool,
    pub saturday: bool,
    pub sunday: bool,
}

impl View for DaySet {
    type V = Set<Weekday>;

    open spec fn view(&self) -> Set<Weekday> {
        Set::new(|d: Weekday| self.has(d))
    }
}

impl DaySet {
    /// Membership, the model of the set.
    pub open spec fn has(&self, d: Weekday) -> bool {
        match d {
            Weekday::Monday => self.monday,
            Weekday::Tuesday => self.tuesday,
            Weekday::Wednesday => self.wednesday,
            Weekday::Thursday => self.thursday,
            Weekday::Friday => self.friday,
            Weekday::Saturday => self.saturday,
            Weekday::Sunday => self.sunday,
        }
    }

    pub open spec fn is_empty_set(&self) -> bool {
        forall|d: Weekday| !self.has(d)
    }

    pub open spec fn is_full_set(&self) -> bool {
        forall|d: Weekday| self.has(d)
    }

    pub fn empty() -> (s: DaySet)
        ensures
            s.is_empty_set(),
            s@ == Set::<Weekday>::empty(),
    {
        DaySet {
            monday: false,
            tuesday: false,
            wednesday: false,
            thursday: false,
            friday: false,
            saturday: false,
            sunday: false,
        }
    }

    pub fn all() -> (s: DaySet)
        ensures
            s.is_full_set(),
            s@ == Set::<Weekday>::full(),
    {
        DaySet {
            monday: true,
            tuesday: true,
            wednesday: true,
            thursday: true,
            friday: true,
            saturday: true,
            sunday: true,
        }
    }

    pub fn contains(&self, d: Weekday) -> (b: bool)
        ensures
            b == self.has(d),
            b == self@.contains(d),
    {
        match d {
            Weekday::Monday => self.monday,
            Weekday::Tuesday => self.tuesday,
            Weekday::Wednesday => self.wednesday,
            Weekday::Thursday => self.thursday,
            Weekday::Friday => self.friday,
            Weekday::Saturday => self.saturday,
            Weekday::Sunday => self.sunday,
        }
    }

    /// The set with `d` added.
    pub fn with(self, d: Weekday) -> (s: DaySet)
        ensures
            forall|e: Weekday| s.has(e) == (e == d || self.has(e)),
            s@ == self@.insert(d),
    {
        let mut s = self;
        match d {
            Weekday::Monday => s.monday = true,
            Weekday::Tuesday => s.tuesday = true,
            Weekday::Wednesday => s.wednesday = true,
            Weekday::Thursday => s.thursday = true,
            Weekday::Friday => s.friday = true,
            Weekday::Saturday => s.saturday = true,
            Weekday::Sunday => s.sunday = true,
        }
        s
    }

    pub fn is_empty(&self) -> (b: bool)
        ensures
            b == self.is_empty_set(),
            b == (self@ == Set::<Weekday>::empty()),
    {
        let b = !(self.monday || self.tuesday || self.wednesday || self.thursday || self.friday
            || self.saturday || self.sunday);
        proof {
            if !b {
                let d = if self.monday {
                    Weekday::Monday
                } else if self.tuesday {
                    Weekday::Tuesday
                } else if self.wednesday {
                    Weekday::Wednesday
                } else if self.thursday {
                    Weekday::Thursday
                } else if self.friday {
                    Weekday::Friday
                } else if self.saturday {
                    Weekday::Saturday
                } else {
                    Weekday::Sunday
                };
                assert(self.has(d));
                assert(self@.contains(d));
            } else {
                assert(self@ =~= Set::<Weekday>::empty());
            }
        }
        b
    }
}

/// Whether `n` is listed in `numbers`.
pub open spec fn lists_number(numbers: Seq<i32>, n: int) -> bool {
    exists|i: int| 0 <= i < numbers.len() && #[trigger] numbers[i] == n
}

/// Whether every number is that of a weekday, counted from Sunday as 1.
pub open spec fn are_weekday_numbers(numbers: Seq<i32>) -> bool {
    forall|i: int|
        0 <= i < numbers.len() ==> Weekday::is_sunday_number(#[trigger] numbers[i] as int)
}

/// The set of the weekdays whose numbers, counted from Sunday as 1, are
/// listed in `numbers`.
pub open spec fn days_of_numbers(numbers: Seq<i32>) -> DaySet {
    DaySet {
        monday: lists_number(numbers, 2),
        tuesday: lists_number(numbers, 3),
        wednesday: lists_number(numbers, 4),
        thursday: lists_number(numbers, 5),
        friday: lists_number(numbers, 6),
        saturday: lists_number(numbers, 7),
        sunday: lists_number(numbers, 1),
    }
}

impl DaySet {
    /// The set of the weekdays with the given numbers, unless one of them is
    /// no weekday's number.
    pub fn from_numbers_from_sunday(numbers: &Vec<i32>) -> (r: Option<DaySet>)
        ensures
            r is Some <==> are_weekday_numbers(numbers@),
            r matches Some(set) ==> set == days_of_numbers(numbers@),
    {
        let mut set = DaySet::empty();
        let mut i: usize = 0;
        proof {
            let none = numbers@.take(0);
            assert forall|k: int| !lists_number(none, k) by {}
            assert(set.has(Weekday::Monday) == lists_number(none, 2));
            assert(set.has(Weekday::Tuesday) == lists_number(none, 3));
            assert(set.has(Weekday::Wednesday) == lists_number(none, 4));
            assert(set.has(Weekday::Thursday) == lists_number(none, 5));
            assert(set.has(Weekday::Friday) == lists_number(none, 6));
            assert(set.has(Weekday::Saturday) == lists_number(none, 7));
            assert(set.has(Weekday::Sunday) == lists_number(none, 1));
        }
        while i < numbers.len()
            invariant
                i <= numbers.len(),
                are_weekday_numbers(numbers@.take(i as int)),
                set == days_of_numbers(numbers@.take(i as int)),
            decreases numbers.len() - i,
        {
            let ghost before = numbers@.take(i as int);
            let ghost after = numbers@.take(i + 1);
            let n = numbers[i];
            proof {
                assert(after[i as int] == n);
                assert forall|k: int| lists_number(after, k) == (lists_number(before, k) || k
                    == n) by {
                    if lists_number(before, k) {
                        let w = choose|w: int| 0 <= w < before.len() && #[trigger] before[w] == k;
                        assert(after[w] == k);
                    }
                    if lists_number(after, k) {
                        let w = choose|w: int| 0 <= w < after.len() && #[trigger] after[w] == k;
                        if w < i {
                            assert(before[w] == k);
                        }
                    }
                }
            }
            match Weekday::from_number_from_sunday(n) {
                None => {
                    proof {
                        assert(!Weekday::is_sunday_number(numbers@[i as int] as int));
                    }
                    return None;
                },
                Some(day) => {
                    let ghost old_set = set;
                    set = set.with(day);
                    proof {
                        assert(lists_number(after, 1) == (lists_number(before, 1) || 1 == n));
                        assert(lists_number(after, 2) == (lists_number(before, 2) || 2 == n));
                        assert(lists_number(after, 3) == (lists_number(before, 3) || 3 == n));
                        assert(lists_number(after, 4) == (lists_number(before, 4) || 4 == n));
                        assert(lists_number(after, 5) == (lists_number(before, 5) || 5 == n));
                        assert(lists_number(after, 6) == (lists_number(before, 6) || 6 == n));
                        assert(lists_number(after, 7) == (lists_number(before, 7) || 7 == n));
                        assert(set.has(Weekday::Monday) == (day == Weekday::Monday
                            || old_set.has(Weekday::Monday)));
                        assert(set.has(Weekday::Tuesday) == (day == Weekday::Tuesday
                            || old_set.has(Weekday::Tuesday)));
                        assert(set.has(Weekday::Wednesday) == (day == Weekday::Wednesday
                            || old_set.has(Weekday::Wednesday)));
                        assert(set.has(Weekday::Thursday) == (day == Weekday::Thursday
                            || old_set.has(Weekday::Thursday)));
                        assert(set.has(Weekday::Friday) == (day == Weekday::Friday
                            || old_set.has(Weekday::Friday)));
                        assert(set.has(Weekday::Saturday) == (day == Weekday::Saturday
                            || old_set.has(Weekday::Saturday)));
                        assert(set.has(Weekday::Sunday) == (day == Weekday::Sunday
                            || old_set.has(Weekday::Sunday)));
                        assert forall|k: int| 0 <= k < after.len() implies Weekday::is_sunday_number(
                            #[trigger] after[k] as int,
                        ) by {
                            if k < i {
                                assert(before[k] == after[k]);
                            }
                        }
                        let target = days_of_numbers(after);
                        assert(set.monday == target.monday);
                        assert(set.tuesday == target.tuesday);
                        assert(set.wednesday == target.wednesday);
                        assert(set.thursday == target.thursday);
                        assert(set.friday == target.friday);
                        assert(set.saturday == target.saturday);
                        assert(set.sunday == target.sunday);
                    }
                },
            }
            i += 1;
        }
        assert(numbers@.take(numbers@.len() as int) == numbers@);
        Some(set)
    }

    /// The numbers of the weekdays of the set, counted from Sunday as 1, in
    /// rising order.
    pub fn numbers_from_sunday(&self) -> (numbers: Vec<i32>)
        ensures
            are_weekday_numbers(numbers@),
            days_of_numbers(numbers@) == *self,
            forall|i: int, j: int|
                0 <= i < j < numbers@.len() ==> #[trigger] numbers@[i] < #[trigger] numbers@[j],
    {
        let mut numbers: Vec<i32> = Vec::new();
        let mut n: i32 = 1;
        while n <= 7
            invariant
                1 <= n <= 8,
                forall|i: int| 0 <= i < numbers@.len() ==> 1 <= #[trigger] numbers@[i] < n,
                forall|i: int, j: int|
                    0 <= i < j < numbers@.len() ==> #[trigger] numbers@[i] < #[trigger] numbers@[j],
                forall|k: int|
                    1 <= k < n ==> lists_number(numbers@, k) == self.has(
                        Weekday::of_sunday_number(k),
                    ),
            decreases 8 - n,
        {
            let ghost before = numbers@;
            let day = match Weekday::from_number_from_sunday(n) {
                Some(day) => day,
                None => Weekday::Sunday,
            };
            if self.contains(day) {
                numbers.push(n);
            }
            proof {
                assert forall|k: int| 1 <= k < n + 1 implies lists_number(numbers@, k) == self.has(
                    Weekday::of_sunday_number(k),
                ) by {
                    if lists_number(before, k) {
                        let w = choose|w: int| 0 <= w < before.len() && #[trigger] before[w] == k;
                        assert(numbers@[w] == k);
                    }
                    if lists_number(numbers@, k) {
                        let w = choose|w: int|
                            0 <= w < numbers@.len() && #[trigger] numbers@[w] == k;
                        if w < before.len() {
                            assert(before[w] == k);
                        }
                    }
                    if k == n && self.has(day) {
                        assert(numbers@[numbers@.len() - 1] == n);
                    }
                }
            }
            n += 1;
        }
        proof {
            let got = days_of_numbers(numbers@);
            assert(got.sunday == self.has(Weekday::of_sunday_number(1)));
            assert(got.monday == self.has(Weekday::of_sunday_number(2)));
            assert(got.tuesday == self.has(Weekday::of_sunday_number(3)));
            assert(got.wednesday == self.has(Weekday::of_sunday_number(4)));
            assert(got.thursday == self.has(Weekday::of_sunday_number(5)));
            assert(got.friday == self.has(Weekday::of_sunday_number(6)));
            assert(got.saturday == self.has(Weekday::of_sunday_number(7)));
        }
        numbers
    }
}

} // verus!
