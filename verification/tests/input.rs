use blackjack::game::Decision;
use blackjack::input::{decision_from_word, is_yes, parse_decision, wants_another_round};

#[test]
fn word_h_is_a_hit_and_s_a_stand() {
    assert_eq!(decision_from_word("h"), Some(Decision::Hit));
    assert_eq!(decision_from_word("s"), Some(Decision::Stand));
}

#[test]
fn other_words_are_no_decision() {
    for word in ["", "H", "S", " h", "h ", "hh", "hs", "x", "hit", "stand", "y"] {
        assert_eq!(decision_from_word(word), None);
    }
}

#[test]
fn parse_decision_ignores_case() {
    assert_eq!(parse_decision("h"), Some(Decision::Hit));
    assert_eq!(parse_decision("H"), Some(Decision::Hit));
    assert_eq!(parse_decision("s"), Some(Decision::Stand));
    assert_eq!(parse_decision("S"), Some(Decision::Stand));
}

#[test]
fn parse_decision_ignores_white_space_at_the_ends() {
    assert_eq!(parse_decision("h\n"), Some(Decision::Hit));
    assert_eq!(parse_decision("  h  "), Some(Decision::Hit));
    assert_eq!(parse_decision("\ts\r\n"), Some(Decision::Stand));
    assert_eq!(parse_decision(" S\n"), Some(Decision::Stand));
}

#[test]
fn parse_decision_refuses_anything_else() {
    for line in ["", " ", "\n", "x", "hit", "stand", "h s", "hs", "y", "n", "0", "h."] {
        assert_eq!(parse_decision(line), None);
    }
}

#[test]
fn only_y_is_yes() {
    assert!(is_yes("y"));
    assert!(!is_yes("Y"));
    assert!(!is_yes("yes"));
    assert!(!is_yes(""));
    assert!(!is_yes("n"));
}

#[test]
fn another_round_is_asked_for_with_y() {
    assert!(wants_another_round("y"));
    assert!(wants_another_round("Y"));
    assert!(wants_another_round(" y\n"));
    assert!(wants_another_round("\tY \r\n"));
}

#[test]
fn anything_but_y_ends_the_game() {
    for line in ["", "\n", "n", "N", "yes", "yy", "h", "s", "no"] {
        assert!(!wants_another_round(line));
    }
}
