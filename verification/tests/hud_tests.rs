use red_black_maze::hand::HandHudMessage;
use red_black_maze::hud::{hand_message_text, king_summon_warning_lines, roman_numeral};

#[test]
fn no_summon_warning_when_the_king_is_not_summoning() {
    assert_eq!(king_summon_warning_lines(None), None);
}

#[test]
fn the_first_three_summons_announce_five_dealers() {
    for index in 0..=2 {
        assert_eq!(
            king_summon_warning_lines(Some(index)),
            Some(("THE KING CALLS HIS HAND!", "5 DEALERS JOIN THE HAND"))
        );
    }
}

#[test]
fn the_final_summon_announces_ten_dealers_and_a_final_hand() {
    assert_eq!(
        king_summon_warning_lines(Some(3)),
        Some(("THE KING CALLS HIS FINAL HAND!", "10 DEALERS JOIN THE HAND"))
    );
}

#[test]
fn the_final_summon_warning_is_distinct_from_the_earlier_ones() {
    assert_ne!(king_summon_warning_lines(Some(2)), king_summon_warning_lines(Some(3)));
}

#[test]
fn summon_indices_past_the_last_threshold_warn_nothing() {
    assert_eq!(king_summon_warning_lines(Some(4)), None);
}

#[test]
fn roman_numerals_use_standard_subtractive_notation() {
    assert_eq!(roman_numeral(0), "");
    assert_eq!(roman_numeral(1), "I");
    assert_eq!(roman_numeral(2), "II");
    assert_eq!(roman_numeral(4), "IV");
    assert_eq!(roman_numeral(9), "IX");
    assert_eq!(roman_numeral(14), "XIV");
    assert_eq!(roman_numeral(40), "XL");
    assert_eq!(roman_numeral(1994), "MCMXCIV");
    assert_eq!(roman_numeral(2024), "MMXXIV");
}

#[test]
fn hand_messages_speak_the_language_of_the_house() {
    assert_eq!(hand_message_text(HandHudMessage::NoMessage), None);
    assert_eq!(
        hand_message_text(HandHudMessage::HouseIsReloading),
        Some("THE HOUSE IS RELOADING...".to_string())
    );
    assert_eq!(hand_message_text(HandHudMessage::NextHandIn(3)), Some("NEXT HAND IN 3...".to_string()));
    assert_eq!(hand_message_text(HandHudMessage::NextHandIn(10)), Some("NEXT HAND IN 10...".to_string()));
    assert_eq!(hand_message_text(HandHudMessage::HandBanner(4)), Some("HAND IV".to_string()));
}
