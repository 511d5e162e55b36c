use base64::Engine;
use rand::seq::SliceRandom;
use rand::{Rng, SeedableRng};
use rand_chacha::ChaCha20Rng;
use rand_hc::Hc128Rng;
use rpass::character_generator;
use rpass::cmdline::{Args, RpassError};
use rpass::glyphs::{ambiguous, base64_glyphs, capitals, numbers, symbols, vowels, vowels_with_y_set};
use rpass::password;
use rpass::policy::Policy;
use rpass::pool::{GlyphPool, POOL_BYTES, POOL_GLYPHS};

fn base_args() -> Args {
    Args {
        ensure_capitals: false,
        no_capitals: false,
        ensure_numbers: false,
        no_numbers: false,
        ensure_symbols: false,
        remove: String::new(),
        secure: true,
        no_ambiguous: false,
        no_vowels: false,
        copyright: false,
        one_column: false,
        multi_column: true,
        bugs: false,
        length: None,
        count: None,
    }
}

fn is_b64(c: char) -> bool {
    c.is_ascii_alphanumeric() || c == '+' || c == '/'
}

fn chacha(args: &Args, seed: u64) -> password::PasswordGenerator {
    match password::PasswordGenerator::from_rng(args, ChaCha20Rng::seed_from_u64(seed)) {
        Ok(g) => g,
        Err(e) => panic!("refused: {:?}", e),
    }
}

fn hc128(args: &Args, seed: u64) -> character_generator::PasswordGenerator {
    match character_generator::PasswordGenerator::from_rng(args, Hc128Rng::seed_from_u64(seed)) {
        Ok(g) => g,
        Err(e) => panic!("refused: {:?}", e),
    }
}

#[test]
fn character_sets() {
    assert_eq!(symbols().len(), 32);
    assert_eq!(capitals().len(), 26);
    assert_eq!(numbers().len(), 10);
    assert_eq!(ambiguous().iter().collect::<String>(), "B8G6I1l0OQDS5Z2");
    assert_eq!(vowels().iter().collect::<String>(), "aeiouAEIOU");
    assert_eq!(vowels_with_y_set().iter().collect::<String>(), "aeiouyAEIOUY");
    assert_eq!(
        base64_glyphs().iter().collect::<String>(),
        "ABCDEFGHIJKLMNOPQRSTUVWXYZabcdefghijklmnopqrstuvwxyz0123456789+/"
    );
    assert_eq!(symbols().iter().collect::<String>(), "!\"#$%&'()*+,-./:;<=>?@[\\]^_`{|}~");
}

#[test]
fn pool_encodes_bytes_as_base64_without_padding() {
    let mut pool = GlyphPool::new();
    assert!(pool.is_exhausted());
    let mut bytes = Vec::new();
    while bytes.len() < POOL_BYTES {
        bytes.extend_from_slice(b"Man");
    }
    pool.refill_from(&bytes);
    assert!(!pool.is_exhausted());
    assert_eq!(pool.next_position(), 0);
    let mut first = String::new();
    for _ in 0..8 {
        first.push(pool.draw());
    }
    assert_eq!(first, "TWFuTWFu");
    assert_eq!(pool.glyph(POOL_GLYPHS - 1), 'u');
    assert_eq!(pool.glyph(0), 'T');
}

#[test]
fn pool_encoding_of_all_bits() {
    let mut pool = GlyphPool::new();
    let mut bytes = vec![0u8; POOL_BYTES];
    bytes[0] = 0xff;
    bytes[1] = 0xef;
    bytes[2] = 0xbe;
    bytes[3] = 0x00;
    bytes[4] = 0x10;
    bytes[5] = 0x83;
    pool.refill_from(&bytes);
    let s: String = (0..9).map(|i| pool.glyph(i)).collect();
    assert_eq!(s, "/+++ABCDA");
}

#[test]
fn pool_scrubs_drawn_glyphs() {
    let mut pool = GlyphPool::new();
    pool.refill_from(&vec![0u8; POOL_BYTES]);
    assert_eq!(pool.draw_and_scrub(), 'A');
    assert_eq!(pool.glyph(0), '\0');
    assert_eq!(pool.glyph(1), 'A');
    assert_eq!(pool.draw(), 'A');
    assert_eq!(pool.glyph(1), 'A');
    pool.scrub();
    assert!(pool.is_exhausted());
    assert!((0..POOL_GLYPHS).all(|i| pool.glyph(i) == '\0'));
}

#[test]
fn policy_filters() {
    let mut args = base_args();
    args.no_capitals = true;
    args.no_numbers = true;
    args.no_vowels = true;
    args.no_ambiguous = true;
    args.remove = "xyz".to_string();
    let p = Policy::from_args(&args, vowels());
    for c in ['A', 'Z', '0', '9', 'a', 'e', 'x', 'y', 'z', 'l'] {
        assert!(!p.filter(c), "{} should be excluded", c);
    }
    for c in ['b', 'w', '+', '/', '!'] {
        assert!(p.filter(c), "{} should be accepted", c);
    }
    let p = Policy::from_args(&base_args(), vowels_with_y_set());
    assert!(p.filter('y'));
    let mut args = base_args();
    args.no_vowels = true;
    assert!(Policy::from_args(&args, vowels()).filter('y'));
    assert!(!Policy::from_args(&args, vowels_with_y_set()).filter('y'));
}

#[test]
fn policy_candidates_keep_order() {
    let mut args = base_args();
    args.remove = "!#!".to_string();
    let p = Policy::from_args(&args, vowels());
    let c = p.candidates(&symbols());
    assert_eq!(c.len(), 30);
    assert_eq!(c[0], '"');
    assert_eq!(c[1], '$');
    assert!(!p.excludes_all(&symbols()));
    args.remove = symbols().iter().collect();
    let p = Policy::from_args(&args, vowels());
    assert!(p.excludes_all(&symbols()));
    assert!(p.candidates(&symbols()).is_empty());
}

#[test]
fn refusals() {
    let mut args = base_args();
    args.ensure_symbols = true;
    args.remove = symbols().iter().collect();
    assert!(matches!(
        password::PasswordGenerator::from_rng(&args, ChaCha20Rng::seed_from_u64(1)),
        Err(RpassError::SymbolsExcluded)
    ));
    let mut args = base_args();
    args.ensure_numbers = true;
    args.remove = "0123456789".to_string();
    assert!(matches!(
        character_generator::PasswordGenerator::from_rng(&args, Hc128Rng::seed_from_u64(1)),
        Err(RpassError::NumbersExcluded)
    ));
    let mut args = base_args();
    args.ensure_capitals = true;
    args.no_ambiguous = true;
    args.remove = "ACEFHJKLMNPRTUVWXY".to_string();
    assert!(matches!(
        password::PasswordGenerator::from_rng(&args, ChaCha20Rng::seed_from_u64(1)),
        Err(RpassError::CapitalsExcluded)
    ));
    let mut args = base_args();
    args.remove = base64_glyphs().iter().collect();
    assert!(matches!(
        password::PasswordGenerator::from_rng(&args, ChaCha20Rng::seed_from_u64(1)),
        Err(RpassError::AllGlyphsExcluded)
    ));
    // Symbols outside the base64 alphabet are not glyphs a pool holds.
    let mut args = base_args();
    args.remove = base64_glyphs().iter().collect();
    args.ensure_symbols = true;
    assert!(matches!(
        character_generator::PasswordGenerator::from_rng(&args, Hc128Rng::seed_from_u64(1)),
        Err(RpassError::AllGlyphsExcluded)
    ));
}

#[test]
fn refusal_order_symbols_before_numbers() {
    let mut args = base_args();
    args.ensure_symbols = true;
    args.ensure_numbers = true;
    let mut all: String = symbols().iter().collect();
    all.push_str("0123456789");
    args.remove = all;
    assert!(matches!(
        password::PasswordGenerator::from_rng(&args, ChaCha20Rng::seed_from_u64(1)),
        Err(RpassError::SymbolsExcluded)
    ));
}

fn check_password(pw: &str, args: &Args, vowel_set: &str) {
    let len = args.length.unwrap_or(8) as usize;
    assert_eq!(pw.chars().count(), len, "{}", pw);
    for c in pw.chars() {
        assert!(is_b64(c) || (args.ensure_symbols && symbols().contains(&c)), "{}", pw);
        assert!(!(args.no_capitals && c.is_ascii_uppercase()), "{}", pw);
        assert!(!(args.no_numbers && c.is_ascii_digit()), "{}", pw);
        assert!(!(args.no_vowels && vowel_set.contains(c)), "{}", pw);
        assert!(!(args.no_ambiguous && "B8G6I1l0OQDS5Z2".contains(c)), "{}", pw);
        assert!(!args.remove.contains(c), "{}", pw);
    }
    if args.ensure_symbols {
        assert!(pw.chars().any(|c| symbols().contains(&c)), "{}", pw);
    }
    if args.ensure_capitals {
        assert!(pw.chars().any(|c| c.is_ascii_uppercase()), "{}", pw);
    }
    if args.ensure_numbers {
        assert!(pw.chars().any(|c| c.is_ascii_digit()), "{}", pw);
    }
}

fn flag_sets() -> Vec<Args> {
    let mut out = Vec::new();
    out.push(base_args());
    let mut a = base_args();
    a.ensure_symbols = true;
    a.ensure_capitals = true;
    a.ensure_numbers = true;
    a.length = Some(6);
    out.push(a);
    let mut a = base_args();
    a.no_capitals = true;
    a.no_numbers = true;
    a.ensure_symbols = true;
    a.length = Some(43);
    out.push(a);
    let mut a = base_args();
    a.no_vowels = true;
    a.no_ambiguous = true;
    a.ensure_capitals = true;
    a.remove = "abcdefghijklmnopqrstuvwxyz".to_string();
    a.length = Some(16);
    out.push(a);
    let mut a = base_args();
    a.remove = "ABCDEFGHIJKLMNOPQRSTUVWXYZabcdefghijklmnopqrstuvwxyz0123456789+".to_string();
    a.length = Some(12);
    out.push(a);
    out
}

#[test]
fn chacha_passwords_meet_their_rules() {
    for (n, args) in flag_sets().iter().enumerate() {
        let mut g = chacha(args, 7 + n as u64);
        for _ in 0..200 {
            let pw = g.generate().expect("password");
            check_password(&pw, args, "aeiouAEIOU");
        }
    }
}

#[test]
fn hc128_passwords_meet_their_rules() {
    for (n, args) in flag_sets().iter().enumerate() {
        let mut g = hc128(args, 11 + n as u64);
        for _ in 0..200 {
            let pw = g.generate().expect("password");
            check_password(&pw, args, "aeiouyAEIOUY");
        }
    }
}

#[test]
fn only_slash_left_gives_slashes() {
    let mut args = base_args();
    args.remove = "ABCDEFGHIJKLMNOPQRSTUVWXYZabcdefghijklmnopqrstuvwxyz0123456789+".to_string();
    let mut g = chacha(&args, 3);
    assert_eq!(g.generate().unwrap(), "////////");
}

#[test]
fn passwords_vary() {
    let mut g = chacha(&base_args(), 5);
    let a = g.generate().unwrap();
    let b = g.generate().unwrap();
    assert_ne!(a, b);
    assert_ne!(a, "AAAAAAAA");
    let mut h = hc128(&base_args(), 5);
    let c = h.generate().unwrap();
    assert_ne!(c, h.generate().unwrap());
}

#[test]
fn same_seed_same_passwords() {
    let mut g1 = chacha(&base_args(), 42);
    let mut g2 = chacha(&base_args(), 42);
    for _ in 0..20 {
        assert_eq!(g1.generate().unwrap(), g2.generate().unwrap());
    }
}

#[test]
fn required_symbol_lands_at_random_positions_and_values() {
    let mut args = base_args();
    args.ensure_symbols = true;
    args.remove = "+/".to_string();
    let mut g = chacha(&args, 9);
    let mut positions = std::collections::HashSet::new();
    let mut values = std::collections::HashSet::new();
    for _ in 0..100 {
        let pw = g.generate().unwrap();
        let found: Vec<(usize, char)> =
            pw.chars().enumerate().filter(|(_, c)| symbols().contains(c)).collect();
        assert_eq!(found.len(), 1, "{}", pw);
        positions.insert(found[0].0);
        values.insert(found[0].1);
    }
    assert!(positions.len() > 1);
    assert!(values.len() > 1);
}

#[test]
fn pool_is_refilled_across_many_passwords() {
    let mut args = base_args();
    args.length = Some(43);
    // Only the digits 0..9 survive: about one glyph in six, so a pool of
    // 16384 glyphs runs out after a few dozen passwords.
    args.remove = "ABCDEFGHIJKLMNOPQRSTUVWXYZabcdefghijklmnopqrstuvwxyz+/".to_string();
    let mut g = hc128(&args, 1);
    for _ in 0..200 {
        let pw = g.generate().unwrap();
        assert_eq!(pw.len(), 43);
        assert!(pw.chars().all(|c| c.is_ascii_digit()));
    }
}

#[test]
fn generators_from_system_randomness() {
    let args = base_args();
    let mut g = password::PasswordGenerator::new(&args).expect("system random source");
    assert_eq!(g.generate().unwrap().len(), 8);
    let mut g = password::PasswordGenerator::new_from_args(&args).expect("system random source");
    assert_eq!(g.generate().unwrap().len(), 8);
    g.scrub();
    assert_eq!(g.generate().unwrap().len(), 8);
    let mut h = character_generator::PasswordGenerator::new(&args).expect("generator");
    assert_eq!(h.generate().unwrap().len(), 8);
    h.scrub();
    assert_eq!(h.generate().unwrap().len(), 8);
}

#[test]
fn system_keyed_constructors_refuse_unmeetable_rules() {
    let mut args = base_args();
    args.remove = base64_glyphs().iter().collect();
    assert!(matches!(
        character_generator::PasswordGenerator::new(&args),
        Err(RpassError::AllGlyphsExcluded) | Err(RpassError::RandomSourceFailed(_))
    ));
    assert!(matches!(
        password::PasswordGenerator::new(&args),
        Err(RpassError::AllGlyphsExcluded) | Err(RpassError::RandomSourceFailed(_))
    ));
}

#[test]
fn chacha_password_is_the_next_accepted_glyphs() {
    let mut args = base_args();
    args.no_capitals = true;
    args.remove = "+/".to_string();
    let mut g = chacha(&args, 21);
    for _ in 0..5 {
        let start = g.pool_next();
        let expected: String = (start..POOL_GLYPHS)
            .map(|i| g.pool_glyph(i))
            .filter(|c| !c.is_ascii_uppercase() && *c != '+' && *c != '/')
            .take(8)
            .collect();
        let pw = g.generate().unwrap();
        assert_eq!(pw, expected);
        // Drawn glyphs are zeroized in the pool.
        assert!((0..g.pool_next()).all(|i| g.pool_glyph(i) == '\0'));
    }
}

#[test]
fn hc128_password_is_the_next_accepted_glyphs() {
    let args = base_args();
    let mut g = hc128(&args, 22);
    let start = g.pool_next();
    assert_eq!(start, 0);
    let expected: String = (0..8).map(|i| g.pool_glyph(i)).collect();
    assert_eq!(g.generate().unwrap(), expected);
    assert_eq!(g.pool_next(), 8);
    // Drawn glyphs stay in the pool of this generator.
    assert_eq!((0..8).map(|i| g.pool_glyph(i)).collect::<String>(), expected);
}

#[test]
fn zeroized_password_is_empty() {
    let mut s = "s3cret/Pa55".to_string();
    rpass::scrub::zeroize_password(&mut s);
    assert!(s.is_empty());
}

fn keystream_pool(rng: &mut ChaCha20Rng) -> Vec<char> {
    let mut bytes = vec![0u8; POOL_BYTES];
    rng.fill_bytes(&mut bytes);
    base64::engine::general_purpose::STANDARD_NO_PAD.encode(&bytes).chars().collect()
}

#[test]
fn passwords_follow_the_glyph_stream_across_refills() {
    let mut args = base_args();
    args.length = Some(43);
    args.remove = "ABCDEFGHIJKLMNOPQRSTUVWXYZabcdefghijklmnopqrstuvwxyz+/".to_string();
    let mut g = chacha(&args, 77);
    let mut shadow = ChaCha20Rng::seed_from_u64(77);
    let mut pool = keystream_pool(&mut shadow);
    let mut pos = 0;
    for _ in 0..150 {
        let mut expected = String::new();
        while expected.len() < 43 {
            if pos == POOL_GLYPHS {
                pool = keystream_pool(&mut shadow);
                pos = 0;
            }
            let c = pool[pos];
            pos += 1;
            if c.is_ascii_digit() {
                expected.push(c);
            }
        }
        let mut positions: Vec<usize> = (0..43).collect();
        positions.shuffle(&mut shadow);
        assert_eq!(g.generate().unwrap(), expected);
        assert_eq!(g.pool_next(), pos);
    }
}

#[test]
fn constructors_accept_any_length() {
    let mut args = base_args();
    args.length = Some(500);
    args.ensure_numbers = true;
    assert!(password::PasswordGenerator::from_rng(&args, ChaCha20Rng::seed_from_u64(2)).is_ok());
    assert!(character_generator::PasswordGenerator::from_rng(&args, Hc128Rng::seed_from_u64(2)).is_ok());
    args.length = Some(1);
    assert!(password::PasswordGenerator::from_rng(&args, ChaCha20Rng::seed_from_u64(2)).is_ok());
}

#[test]
fn place_required_writes_the_chosen_survivors() {
    let mut args = base_args();
    args.remove = "!\"A0".to_string();
    let p = Policy::from_args(&args, vowels());
    let mut buf: Vec<char> = "abcdefgh".chars().collect();
    let positions: Vec<usize> = vec![5, 2, 7, 0, 1, 3, 4, 6];
    // Survivors: symbols from '#', capitals from 'B', digits from '1'.
    p.place_required(true, true, true, &mut buf, &positions, 0, 1, 2);
    assert_eq!(buf.iter().collect::<String>(), "abCde#g3");
    let mut buf: Vec<char> = "abcdefgh".chars().collect();
    p.place_required(false, true, false, &mut buf, &positions, 9, 0, 9);
    assert_eq!(buf.iter().collect::<String>(), "abBdefgh");
}
