use red_black_maze::mode::GameMode;

#[test]
fn default_mode_is_portal() {
    assert_eq!(GameMode::default(), GameMode::Portal);
}

#[test]
fn toggled_alternates_between_the_two_modes() {
    assert_eq!(GameMode::Portal.toggled(), GameMode::Horde);
    assert_eq!(GameMode::Horde.toggled(), GameMode::Portal);
}

#[test]
fn toggled_twice_returns_to_the_original_mode() {
    assert_eq!(GameMode::Portal.toggled().toggled(), GameMode::Portal);
    assert_eq!(GameMode::Horde.toggled().toggled(), GameMode::Horde);
}

#[test]
fn labels_are_distinct_and_uppercase() {
    assert_eq!(GameMode::Portal.label(), "PORTAL");
    assert_eq!(GameMode::Horde.label(), "HORDE");
    assert_ne!(GameMode::Portal.label(), GameMode::Horde.label());
}
