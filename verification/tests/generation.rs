use passgen::config::{Config, ConfigError};
use passgen::generator::generate;

fn is_capital(c: char) -> bool {
    c.is_ascii_uppercase()
}

fn is_simple(c: char) -> bool {
    c.is_ascii_lowercase()
}

fn is_special(c: char) -> bool {
    "!@#$%^&*".contains(c)
}

fn is_number(c: char) -> bool {
    c.is_ascii_digit()
}

#[test]
fn length_matches_config_across_trials() {
    let configs = [
        Config::new(true, true, true, true, 12),
        Config::new(true, false, false, false, 5),
        Config::new(false, true, false, false, 64),
        Config::new(false, false, true, false, 127),
        Config::new(false, false, false, true, 33),
        Config::new(true, false, true, false, 7),
    ];
    for cfg in configs {
        for _ in 0..20 {
            let pw = generate(&cfg).expect("generation should succeed");
            assert_eq!(pw.chars().count(), cfg.length as usize);
        }
    }
}

#[test]
fn enabled_present_and_disabled_absent() {
    let cfg = Config::new(true, false, false, true, 20);
    for _ in 0..50 {
        let pw = generate(&cfg).expect("generation should succeed");
        assert!(pw.chars().any(is_capital));
        assert!(pw.chars().any(is_number));
        assert!(!pw.chars().any(is_simple));
        assert!(!pw.chars().any(is_special));
        assert!(pw.chars().all(|c| is_capital(c) || is_number(c)));
    }
}

#[test]
fn all_categories_length_twelve() {
    let cfg = Config::new(true, true, true, true, 12);
    let pw = generate(&cfg).expect("generation should succeed");
    assert_eq!(pw.chars().count(), 12);
    assert!(pw.chars().any(is_capital));
    assert!(pw.chars().any(is_simple));
    assert!(pw.chars().any(is_special));
    assert!(pw.chars().any(is_number));
    assert!(pw
        .chars()
        .all(|c| is_capital(c) || is_simple(c) || is_special(c) || is_number(c)));
}

#[test]
fn simple_only_length_five() {
    let cfg = Config::new(false, true, false, false, 5);
    let pw = generate(&cfg).expect("generation should succeed");
    assert_eq!(pw.len(), 5);
    assert!(pw.chars().all(|c| c.is_ascii_lowercase()));
}

#[test]
fn max_length_all_categories() {
    let cfg = Config::new(true, true, true, true, 127);
    let pw = generate(&cfg).expect("generation should succeed");
    assert_eq!(pw.chars().count(), 127);
    assert!(pw.chars().any(is_capital));
    assert!(pw.chars().any(is_simple));
    assert!(pw.chars().any(is_special));
    assert!(pw.chars().any(is_number));
}

#[test]
fn max_length_single_category() {
    for cfg in [
        Config::new(true, false, false, false, 127),
        Config::new(false, true, false, false, 127),
        Config::new(false, false, true, false, 127),
        Config::new(false, false, false, true, 127),
    ] {
        let pw = generate(&cfg).expect("generation should succeed");
        assert_eq!(pw.chars().count(), 127);
    }
}

#[test]
fn character_multiplicity_bounded_by_pool() {
    // Each character can occur at most as often as the pool holds it:
    // five times for a letter, sixteen for a special symbol, thirteen
    // for a digit.
    let configs = [
        Config::new(false, true, false, false, 127),
        Config::new(true, true, true, true, 127),
    ];
    for cfg in configs {
        for _ in 0..10 {
            let pw = generate(&cfg).expect("generation should succeed");
            for c in pw.chars() {
                let occurrences = pw.chars().filter(|&d| d == c).count();
                let bound = if is_special(c) {
                    16
                } else if is_number(c) {
                    13
                } else {
                    5
                };
                assert!(
                    occurrences <= bound,
                    "character {c:?} occurs {occurrences} times, pool holds {bound}"
                );
            }
        }
    }
}

#[test]
fn repeated_calls_vary() {
    let cfg = Config::new(true, true, true, true, 12);
    let first = generate(&cfg).expect("generation should succeed");
    let mut saw_different = false;
    for _ in 0..99 {
        let pw = generate(&cfg).expect("generation should succeed");
        if pw != first {
            saw_different = true;
        }
    }
    assert!(saw_different, "100 generations were all identical");
}

#[test]
fn no_category_selected_is_an_error() {
    let cfg = Config::new(false, false, false, false, 12);
    assert_eq!(generate(&cfg), Err(ConfigError::NoCategorySelected));
}

#[test]
fn config_new_stores_fields() {
    let cfg = Config::new(true, false, true, false, 42);
    assert!(cfg.use_capital);
    assert!(!cfg.use_simple);
    assert!(cfg.use_special);
    assert!(!cfg.use_number);
    assert_eq!(cfg.length, 42);
}
