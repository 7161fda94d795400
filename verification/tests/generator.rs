use url_shortener::generator::{IdGenerator, DEFAULT_ID_LENGTH};

fn url_safe_symbols() -> Vec<char> {
    "_-0123456789abcdefghijklmnopqrstuvwxyzABCDEFGHIJKLMNOPQRSTUVWXYZ".chars().collect()
}

#[test]
fn default_generator_uses_six_url_safe_symbols() {
    let generator = IdGenerator::default();
    assert_eq!(DEFAULT_ID_LENGTH, 6);
    assert_eq!(generator.length(), 6);
    assert_eq!(generator.alphabet(), &url_safe_symbols());
    assert_eq!(generator.alphabet().len(), 64);
}

#[test]
fn default_alphabet_holds_only_letters_digits_dash_and_underscore() {
    let generator = IdGenerator::default();
    for c in generator.alphabet() {
        assert!(c.is_ascii_alphanumeric() || *c == '-' || *c == '_');
    }
    let mut sorted = generator.alphabet().clone();
    sorted.sort();
    sorted.dedup();
    assert_eq!(sorted.len(), 64);
}

#[test]
fn url_safe_generator_takes_any_valid_length() {
    let generator = IdGenerator::url_safe(21).unwrap();
    assert_eq!(generator.length(), 21);
    assert_eq!(generator.alphabet(), &url_safe_symbols());
    assert_eq!(generator.new_id().chars().count(), 21);
    assert!(IdGenerator::url_safe(0).is_none());
}

#[test]
fn new_keeps_the_length_and_the_alphabet() {
    let generator = IdGenerator::new(4, vec!['x', 'y', 'z']).unwrap();
    assert_eq!(generator.length(), 4);
    assert_eq!(generator.alphabet(), &vec!['x', 'y', 'z']);
}

#[test]
fn new_rejects_a_zero_length() {
    assert!(IdGenerator::new(0, vec!['a', 'b']).is_none());
}

#[test]
fn new_rejects_a_length_too_large_to_request_bytes_for() {
    assert!(IdGenerator::new(usize::MAX / 8 + 1, vec!['a', 'b']).is_none());
    assert!(IdGenerator::new(usize::MAX, vec!['a', 'b']).is_none());
    assert!(IdGenerator::new(usize::MAX / 8, vec!['a', 'b']).is_some());
}

#[test]
fn new_rejects_an_empty_alphabet() {
    assert!(IdGenerator::new(6, Vec::new()).is_none());
}

#[test]
fn new_accepts_255_symbols_and_rejects_256() {
    let symbols: Vec<char> = (0..256).map(|n: u32| char::from((n % 128) as u8)).collect();
    assert_eq!(symbols.len(), 256);
    assert!(IdGenerator::new(6, symbols[..255].to_vec()).is_some());
    assert!(IdGenerator::new(6, symbols).is_none());
}

#[test]
fn new_rejects_a_symbol_outside_ascii() {
    assert!(IdGenerator::new(6, vec!['a', 'é', 'b']).is_none());
    assert!(IdGenerator::new(6, vec!['\u{80}']).is_none());
    assert!(IdGenerator::new(6, vec!['\u{7f}']).is_some());
}

#[test]
fn new_id_has_the_configured_length_and_symbols() {
    let generator = IdGenerator::new(10, vec!['x', 'y', 'z']).unwrap();
    for _ in 0..200 {
        let id = generator.new_id();
        assert_eq!(id.chars().count(), 10);
        assert!(id.chars().all(|c| c == 'x' || c == 'y' || c == 'z'));
    }
}

#[test]
fn new_id_of_the_default_generator_is_six_url_safe_symbols() {
    let generator = IdGenerator::default();
    let symbols = url_safe_symbols();
    for _ in 0..200 {
        let id = generator.new_id();
        assert_eq!(id.len(), 6);
        assert!(id.chars().all(|c| symbols.contains(&c)));
    }
}

#[test]
fn new_id_over_one_symbol_is_that_symbol_repeated() {
    let generator = IdGenerator::new(3, vec!['q']).unwrap();
    assert_eq!(generator.new_id(), "qqq");
    assert_eq!(generator.new_id(), "qqq");
}

#[test]
fn new_id_works_with_an_alphabet_that_is_no_power_of_two() {
    let symbols: Vec<char> = url_safe_symbols()[..62].to_vec();
    let generator = IdGenerator::new(42, symbols.clone()).unwrap();
    let id = generator.new_id();
    assert_eq!(id.len(), 42);
    assert!(id.chars().all(|c| symbols.contains(&c)));
}

#[test]
fn new_id_works_with_the_largest_alphabet() {
    let symbols: Vec<char> = (0..255).map(|n: u32| char::from((n % 128) as u8)).collect();
    let generator = IdGenerator::new(16, symbols).unwrap();
    let id = generator.new_id();
    assert_eq!(id.chars().count(), 16);
    assert!(id.is_ascii());
}

#[test]
fn draws_are_not_all_alike() {
    let generator = IdGenerator::default();
    let first = generator.new_id();
    let mut differs = false;
    for _ in 0..50 {
        if generator.new_id() != first {
            differs = true;
        }
    }
    assert!(differs);
}

#[test]
fn duplicate_has_the_same_shape() {
    let generator = IdGenerator::new(5, vec!['0', '1']).unwrap();
    let copy = generator.duplicate();
    assert_eq!(copy.length(), 5);
    assert_eq!(copy.alphabet(), &vec!['0', '1']);
    assert_eq!(copy.new_id().len(), 5);
}
