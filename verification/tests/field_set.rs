use ordinal_cash::field_set::FieldSet;
use ordinal_cash::uint::U256;

#[test]
fn empty_set_holds_nothing() {
    let set = FieldSet::new();
    assert!(!set.contains(&U256::new(0)));
    assert!(!set.contains(&U256::new(1)));
    assert!(!set.contains(&U256::from_words(u128::MAX, u128::MAX)));
}

#[test]
fn set_holds_what_went_in_and_nothing_else() {
    let mut set = FieldSet::new();
    set.insert(U256::new(0));
    assert!(set.contains(&U256::new(0)));
    assert!(!set.contains(&U256::new(1)));
    assert!(!set.contains(&U256::from_words(1, 0)));
    set.insert(U256::from_words(7, 9));
    assert!(set.contains(&U256::from_words(7, 9)));
    // the same low word under another high word, and the other way round
    assert!(!set.contains(&U256::from_words(8, 9)));
    assert!(!set.contains(&U256::from_words(7, 8)));
    assert!(!set.contains(&U256::from_words(9, 7)));
    set.insert(U256::from_words(8, 9));
    assert!(set.contains(&U256::from_words(7, 9)));
    assert!(set.contains(&U256::from_words(8, 9)));
    assert!(!set.contains(&U256::from_words(6, 9)));
    assert!(set.contains(&U256::new(0)));
}

#[test]
fn inserting_twice_changes_nothing() {
    let mut set = FieldSet::new();
    for _ in 0..3 {
        set.insert(U256::from_words(3, 4));
        set.insert(U256::from_words(5, 4));
    }
    assert!(set.contains(&U256::from_words(3, 4)));
    assert!(set.contains(&U256::from_words(5, 4)));
    assert!(!set.contains(&U256::from_words(4, 4)));
}

#[test]
fn set_holds_many_values() {
    let mut set = FieldSet::new();
    for i in 0..500u128 {
        set.insert(U256::from_words(i % 7, i * i));
    }
    for i in 0..500u128 {
        assert!(set.contains(&U256::from_words(i % 7, i * i)));
        assert!(!set.contains(&U256::from_words(i % 7 + 7, i * i)));
    }
    assert!(!set.contains(&U256::from_words(0, 2)));
}
