use mi::WordMap;

#[test]
fn words_round_trip_through_their_identifiers() {
    let mut m = WordMap::new();
    let words = ["the", "quick", "brown", "fox", "jumps"];
    let mut ids: Vec<usize> = Vec::new();
    for w in words {
        ids.push(m.number(w));
    }
    for (w, id) in words.iter().zip(ids.iter()) {
        assert_eq!(m.word(*id), Some(*w));
    }
}

#[test]
fn repeated_interning_returns_the_same_identifier() {
    let mut m = WordMap::new();
    let a = m.number("alpha");
    let b = m.number("beta");
    assert_ne!(a, b);
    assert_eq!(m.number("alpha"), a);
    assert_eq!(m.number("beta"), b);
    assert_eq!(m.number("alpha"), a);
}

#[test]
fn identifiers_are_assigned_first_seen_first_numbered() {
    let mut m = WordMap::new();
    assert_eq!(m.number("zero"), 0);
    assert_eq!(m.number("one"), 1);
    assert_eq!(m.number("zero"), 0);
    assert_eq!(m.number("two"), 2);
}

#[test]
fn unassigned_identifiers_resolve_to_nothing() {
    let mut m = WordMap::new();
    assert_eq!(m.word(0), None);
    m.number("only");
    assert_eq!(m.word(0), Some("only"));
    assert_eq!(m.word(1), None);
}
