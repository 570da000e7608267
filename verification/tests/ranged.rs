use sevenate::dx7::Level;
use sevenate::RangeError;
use sevenate::Ranged;

/// A grade from 0 to 5.
#[derive(Debug, Clone, Copy, Eq, PartialEq)]
pub struct Grade(i32);

impl Ranged for Grade {
    const FIRST: i32 = 0;
    const LAST: i32 = 5;
    const DEFAULT: i32 = 0;

    fn new(value: i32) -> Result<Self, RangeError> {
        if Self::contains(value) {
            Ok(Self(value))
        } else {
            Err(RangeError { value, first: Self::FIRST, last: Self::LAST })
        }
    }

    fn value(&self) -> i32 {
        self.0
    }

    fn random() -> Self {
        Self(Self::FIRST)
    }
}

#[test]
fn test_ranged_valid() {
    let grade = Grade::new(5).unwrap();
    assert_eq!(grade.value(), 5);
}

#[test]
fn test_ranged_contains() {
    assert!(Grade::contains(3));
    assert!(Level::contains(3));
}
