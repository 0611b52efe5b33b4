use passgen::{
    accepts, chars_of, check_config, check_words, effective_required, generate, pick_letter,
    pick_word, split_words, usable_words, verdicts, white, Config, ConfigError, Constraint, Exhausted, Picker,
};
use rand::rngs::StdRng;
use rand::SeedableRng;

fn config(min: usize, max: usize, symbols: &str, tries: usize) -> Config {
    Config { min, max, symbols: symbols.to_string(), tries }
}

fn word_list(words: &[&str], max: usize) -> Vec<Vec<char>> {
    usable_words(&words.iter().map(|w| chars_of(w)).collect(), max)
}

/// Splits `s` into pieces drawn from `pieces`, if it can be.
fn splits_into(s: &str, pieces: &[&str]) -> bool {
    if s.is_empty() {
        return true;
    }
    pieces.iter().any(|p| s.starts_with(p) && splits_into(&s[p.len()..], pieces))
}

#[test]
fn effective_required_defaults_without_number() {
    let r = effective_required(&vec![], &vec![Constraint::Number]);
    assert_eq!(
        r,
        vec![Constraint::LowerCaseLetter, Constraint::UpperCaseLetter, Constraint::Symbol]
    );
}

#[test]
fn effective_required_all_by_default() {
    let r = effective_required(&vec![], &vec![]);
    assert_eq!(r.len(), 4);
}

#[test]
fn effective_required_keeps_order_and_repeats() {
    let req = vec![Constraint::Symbol, Constraint::Number, Constraint::Symbol];
    let r = effective_required(&req, &vec![Constraint::Number]);
    assert_eq!(r, vec![Constraint::Symbol, Constraint::Symbol]);
}

#[test]
fn effective_required_can_be_empty() {
    let r = effective_required(&vec![Constraint::Number], &vec![Constraint::Number]);
    assert!(r.is_empty());
}

#[test]
fn verify_excludes_range_ends() {
    let cfg = config(2, 4, "!", 1);
    assert!(Constraint::LowerCaseLetter.verify(&cfg, "y"));
    assert!(!Constraint::LowerCaseLetter.verify(&cfg, "z"));
    assert!(Constraint::UpperCaseLetter.verify(&cfg, "aY"));
    assert!(!Constraint::UpperCaseLetter.verify(&cfg, "Zz"));
    assert!(Constraint::Number.verify(&cfg, "x0"));
    assert!(Constraint::Number.verify(&cfg, "8"));
    assert!(!Constraint::Number.verify(&cfg, "9"));
    assert!(Constraint::Symbol.verify(&cfg, "ab!"));
    assert!(!Constraint::Symbol.verify(&cfg, "ab?"));
    assert!(!Constraint::Symbol.verify(&cfg, ""));
}

#[test]
fn check_config_errors() {
    let all = Constraint::all();
    assert_eq!(check_config(&config(10, 20, "!", 5), &vec![]), Err(ConfigError::NoConstraint));
    assert_eq!(check_config(&config(10, 9, "!", 5), &all), Err(ConfigError::MinAboveMax));
    assert_eq!(check_config(&config(4, 9, "!", 5), &all), Err(ConfigError::MinTooShort));
    assert_eq!(check_config(&config(5, 9, "", 5), &all), Err(ConfigError::NoSymbols));
    assert_eq!(check_config(&config(5, 9, "!", 5), &all), Ok(()));
    assert_eq!(check_config(&config(2, 2, "", 5), &vec![Constraint::Number]), Ok(()));
}

#[test]
fn usable_words_filter() {
    let words: Vec<Vec<char>> =
        ["cat", "", "don't", "mouse", "elephant", "dog"].iter().map(|w| chars_of(w)).collect();
    let kept = usable_words(&words, 5);
    assert_eq!(kept, vec![chars_of("cat"), chars_of("mouse"), chars_of("dog")]);
}

#[test]
fn check_words_fit() {
    let words = word_list(&["cat", "dog", "mouse"], 6);
    assert_eq!(check_words(&words, 5, 6), Ok(()));
    assert_eq!(check_words(&words, 6, 6), Err(ConfigError::NoFittingWord));
    assert_eq!(check_words(&vec![], 1, 6), Err(ConfigError::NoFittingWord));
}

#[test]
fn accepts_judges_length_and_constraints() {
    let req = vec![Constraint::Number, Constraint::Symbol];
    let symbols = chars_of("!");
    assert!(accepts(4, &req, &symbols, &chars_of("a1!")));
    assert!(!accepts(2, &req, &symbols, &chars_of("a1!")));
    assert!(!accepts(4, &req, &symbols, &chars_of("a9!")));
    assert!(!accepts(4, &req, &symbols, &chars_of("a1?")));
}

#[test]
fn pick_word_folds_first_character_only() {
    let mut rng = StdRng::seed_from_u64(1);
    let words = word_list(&["cAT"], 10);
    let mut s = chars_of("1");
    assert!(pick_word(&words, &mut s, 10, false, &mut rng));
    assert_eq!(s, chars_of("1CAT"));
    let words = word_list(&["DoG"], 10);
    let mut s = vec![];
    assert!(pick_word(&words, &mut s, 10, true, &mut rng));
    assert_eq!(s, chars_of("doG"));
}

#[test]
fn pick_word_gives_up_when_nothing_fits() {
    let mut rng = StdRng::seed_from_u64(2);
    let words = word_list(&["mouse"], 10);
    let mut s = chars_of("abc");
    assert!(!pick_word(&words, &mut s, 7, true, &mut rng));
    assert_eq!(s, chars_of("abc"));
    assert!(!pick_word(&vec![], &mut s, 70, true, &mut rng));
}

#[test]
fn pick_letter_chars_adds_one_letter() {
    let mut rng = StdRng::seed_from_u64(3);
    for _ in 0..200 {
        let mut s = vec![];
        assert!(pick_letter(&Picker::Chars, &mut s, 0, true, &mut rng));
        assert_eq!(s.len(), 1);
        assert!(('a'..'z').contains(&s[0]));
        let mut s = vec![];
        assert!(pick_letter(&Picker::Chars, &mut s, 0, false, &mut rng));
        assert!(('A'..'Z').contains(&s[0]));
    }
}

#[test]
fn chars_password_lengths_and_constraints() {
    let cfg = config(10, 20, "-_/[]{}()*&^%$#@.!?=+:;|~", 1000);
    let req = Constraint::all();
    for seed in 0..30 {
        let mut rng = StdRng::seed_from_u64(seed);
        let (out, n) = generate(&cfg, &req, &Picker::Chars, &mut rng, &mut vec![]).unwrap();
        let len = out.chars().count();
        assert!(10 <= len && len <= 20);
        assert!(1 <= n && n <= 1000);
        for k in &req {
            assert!(k.verify(&cfg, &out));
        }
    }
}

#[test]
fn chars_password_never_has_range_ends() {
    let cfg = config(12, 12, "!", 1000);
    let req = vec![Constraint::LowerCaseLetter, Constraint::UpperCaseLetter];
    for seed in 0..50 {
        let mut rng = StdRng::seed_from_u64(seed);
        let (out, _) = generate(&cfg, &req, &Picker::Chars, &mut rng, &mut vec![]).unwrap();
        assert!(out.chars().all(|c| ('a'..'z').contains(&c) || ('A'..'Z').contains(&c)));
        assert!(!out.contains('z') && !out.contains('Z'));
    }
}

#[test]
fn same_seed_same_password() {
    let cfg = config(10, 20, "!?", 1000);
    let req = Constraint::all();
    let words = word_list(&["cat", "dog", "mouse"], 20);
    for picker in [Picker::Chars, Picker::Words(words)] {
        let a = generate(&cfg, &req, &picker, &mut StdRng::seed_from_u64(42), &mut vec![]);
        let b = generate(&cfg, &req, &picker, &mut StdRng::seed_from_u64(42), &mut vec![]);
        assert_eq!(a, b);
    }
}

#[test]
fn exhaustion_after_one_try() {
    let cfg = config(3, 3, "!", 1);
    let req = vec![Constraint::LowerCaseLetter, Constraint::UpperCaseLetter];
    let picker = Picker::Words(word_list(&["zzz"], 3));
    let mut rng = StdRng::seed_from_u64(7);
    let mut rejections = vec![];
    assert_eq!(generate(&cfg, &req, &picker, &mut rng, &mut rejections), Err(Exhausted { tries: 1 }));
    assert_eq!(rejections.len(), 1);
    assert!(rejections[0].candidate == "zzz" || rejections[0].candidate == "Zzz");
    assert_eq!(rejections[0].verdicts, vec![false, false]);
}

#[test]
fn zero_tries_exhaust_at_once() {
    let cfg = config(3, 3, "!", 0);
    let mut rng = StdRng::seed_from_u64(7);
    let r = generate(&cfg, &vec![Constraint::Number], &Picker::Chars, &mut rng, &mut vec![]);
    assert_eq!(r, Err(Exhausted { tries: 0 }));
}

#[test]
fn eight_characters_with_a_number() {
    let cfg = config(8, 8, "!", 1000);
    let req = vec![Constraint::Number];
    for seed in 0..30 {
        let mut rng = StdRng::seed_from_u64(seed);
        let (out, n) = generate(&cfg, &req, &Picker::Chars, &mut rng, &mut vec![]).unwrap();
        assert_eq!(n, 1);
        assert_eq!(out.chars().count(), 8);
        assert!(out.chars().any(|c| ('0'..'9').contains(&c)));
        assert!(out.chars().all(|c| ('0'..'9').contains(&c)));
    }
}

#[test]
fn dictionary_password_from_words() {
    let cfg = config(5, 6, "!", 1000);
    let req = vec![Constraint::LowerCaseLetter, Constraint::UpperCaseLetter];
    let picker = Picker::Words(word_list(&["cat", "dog", "mouse"], 6));
    let pieces = ["cat", "Cat", "dog", "Dog", "mouse", "Mouse"];
    for seed in 0..30 {
        let mut rng = StdRng::seed_from_u64(seed);
        let (out, _) = generate(&cfg, &req, &picker, &mut rng, &mut vec![]).unwrap();
        let len = out.chars().count();
        assert!(5 <= len && len <= 6);
        assert!(splits_into(&out, &pieces));
        assert!(out.chars().next().unwrap().is_ascii_alphabetic());
    }
}

#[test]
fn dictionary_password_with_digits_and_symbols() {
    let cfg = config(8, 12, "#", 1000);
    let req = Constraint::all();
    let picker = Picker::Words(word_list(&["sun", "moon"], 12));
    let pieces = ["sun", "Sun", "moon", "Moon", "#", "0", "1", "2", "3", "4", "5", "6", "7", "8"];
    for seed in 0..30 {
        let mut rng = StdRng::seed_from_u64(seed);
        let (out, _) = generate(&cfg, &req, &picker, &mut rng, &mut vec![]).unwrap();
        let len = out.chars().count();
        assert!(8 <= len && len <= 12);
        assert!(splits_into(&out, &pieces));
    }
}

#[test]
fn split_words_keeps_empty_pieces() {
    let r = split_words("cat dog\n\nmouse");
    assert_eq!(r, vec![chars_of("cat"), chars_of("dog"), vec![], chars_of("mouse")]);
    assert_eq!(split_words(""), vec![Vec::<char>::new()]);
    assert_eq!(split_words(" a"), vec![vec![], vec!['a']]);
    let r = split_words("x\u{3000}y\u{a0}z");
    assert_eq!(r, vec![vec!['x'], vec!['y'], vec!['z']]);
}

#[test]
fn white_matches_std() {
    for n in 0..0x3100u32 {
        if let Some(c) = char::from_u32(n) {
            assert_eq!(white(c), c.is_whitespace(), "{n:x}");
        }
    }
}

#[test]
fn dictionary_from_text() {
    let words = usable_words(&split_words("cat\ndon't\n\nhippopotamus\nMouse\n"), 6);
    assert_eq!(words, vec![chars_of("cat"), chars_of("Mouse")]);
    assert_eq!(check_words(&words, 5, 6), Ok(()));
}

#[test]
fn default_constraints_without_number_give_no_digit() {
    let cfg = config(10, 20, "!", 1000);
    let req = effective_required(&vec![], &vec![Constraint::Number]);
    for seed in 0..30 {
        let mut rng = StdRng::seed_from_u64(seed);
        let (out, _) = generate(&cfg, &req, &Picker::Chars, &mut rng, &mut vec![]).unwrap();
        assert!(out.chars().any(|c| ('a'..'z').contains(&c)));
        assert!(out.chars().any(|c| ('A'..'Z').contains(&c)));
        assert!(out.contains('!'));
        assert!(!out.chars().any(|c| c.is_ascii_digit()));
    }
}

#[test]
fn rejections_record_verdicts() {
    let cfg = config(4, 4, "!", 50);
    let req = vec![Constraint::Number, Constraint::Symbol];
    let mut rng = StdRng::seed_from_u64(5);
    let mut rejections = vec![];
    let r = generate(&cfg, &req, &Picker::Chars, &mut rng, &mut rejections);
    let symbols = chars_of("!");
    for e in &rejections {
        let cs = chars_of(&e.candidate);
        assert_eq!(e.verdicts, verdicts(&req, &symbols, &cs));
        assert!(e.verdicts.contains(&false));
    }
    if let Ok((_, n)) = r {
        assert_eq!(rejections.len(), n - 1);
    }
}

#[test]
fn verdicts_per_constraint() {
    let req = vec![Constraint::LowerCaseLetter, Constraint::Number, Constraint::Symbol];
    assert_eq!(verdicts(&req, &chars_of("#"), &chars_of("a#")), vec![true, false, true]);
}

#[test]
fn pick_word_succeeds_when_every_word_fits() {
    let mut rng = StdRng::seed_from_u64(9);
    let words = word_list(&["cat", "dog"], 10);
    let mut s = chars_of("ab");
    assert!(pick_word(&words, &mut s, 5, true, &mut rng));
    assert_eq!(s.len(), 5);
}
