use ansi_lexer::lex::Error;
use ansi_lexer::lex::Lexer;

#[test]
fn extract() {
    let mut lex = Lexer::new("hello123 world");
    assert_eq!(lex.is_empty(), false);

    // Extract "hello", and ensure the lexer has " 123 world" remaining.
    assert_eq!(lex.extract(char::is_alphabetic), Ok("hello"));
    assert_eq!(lex.remaining(), "123 world");
    assert_eq!(lex.is_empty(), false);

    // Extract one character, but it doesn't match.
    assert_eq!(lex.extract_one(char::is_alphabetic), Err(Error::Unexpected));
    assert_eq!(lex.remaining(), "123 world");

    // Extract one character greedily, but it doesn't match.
    assert_eq!(lex.extract_one_greedy(char::is_alphabetic), Err(Error::Unexpected));
    assert_eq!(lex.remaining(), "23 world");

    // Extract one character.
    assert_eq!(lex.extract_one(char::is_numeric), Ok("2"));
    assert_eq!(lex.remaining(), "3 world");

    // Extract anything not alphabetic, and ensure the lexer has "world" remaining.
    assert_eq!(lex.extract(|c| !char::is_alphabetic(c)), Ok("3 "));
    assert_eq!(lex.remaining(), "world");

    // Extract, but nothing matches.
    assert_eq!(lex.extract(|_| false), Ok(""));
    assert_eq!(lex.remaining(), "world");

    // Extract the rest of it.
    assert_eq!(lex.extract(|_| true), Ok("world"));
    assert_eq!(lex.remaining(), "");
    assert_eq!(lex.is_empty(), true);

    // Ensure it still works with empty contents.
    assert_eq!(lex.extract(|_| true), Err(Error::EOF));
    assert_eq!(lex.extract_one(|_| true), Err(Error::EOF));
    assert_eq!(lex.remaining(), "");
    assert_eq!(lex.is_empty(), true);
}

#[test]
fn mark() {
    let mut lex = Lexer::new("hello123 world");

    // Extract "hello", and ensure the consumed characters are also "hello".
    assert_eq!(lex.extract(char::is_alphabetic), Ok("hello"));
    assert_eq!(lex.consumed(), "hello");

    // Extract "123", and ensure the consumed characters are "hello123".
    assert_eq!(lex.extract(char::is_numeric), Ok("123"));
    assert_eq!(lex.consumed(), "hello123");

    // Rewind to the last-marked position (implicitly, the beginning).
    lex.rewind();
    assert_eq!(lex.remaining(), "hello123 world");

    // Extract "hello" and mark.
    assert_eq!(lex.extract(char::is_alphabetic), Ok("hello"));
    lex.mark();
    assert_eq!(lex.consumed(), "");
    assert_eq!(lex.remaining(), "123 world");
}

#[test]
fn skip() {
    let mut lex = Lexer::new("12345");
    assert_eq!(lex.remaining(), "12345");

    // Skip 0.
    assert_eq!(lex.skip(0), Ok(()));
    assert_eq!(lex.remaining(), "12345");

    // Skip 1.
    assert_eq!(lex.skip(1), Ok(()));
    assert_eq!(lex.remaining(), "2345");

    // Skip 2.
    assert_eq!(lex.skip(2), Ok(()));
    assert_eq!(lex.remaining(), "45");

    // Skip past the end.
    assert_eq!(lex.skip(10), Err(Error::EOF));
    assert_eq!(lex.remaining(), "45");

    // Skip while nothing remaining.
    let mut lex = Lexer::new("");
    assert_eq!(lex.skip(1), Err(Error::EOF));
    assert_eq!(lex.remaining(), "");
}

#[test]
fn skip_all_or_nothing() {
    // Skipping exactly what remains succeeds and exhausts the cursor.
    let mut lex = Lexer::new("abc");
    assert_eq!(lex.skip(3), Ok(()));
    assert_eq!(lex.remaining(), "");
    assert!(lex.is_empty());

    // Skipping one more than what remains changes nothing at all.
    let mut lex = Lexer::new("abc");
    assert_eq!(lex.skip(4), Err(Error::EOF));
    assert_eq!(lex.remaining(), "abc");

    // Skipping zero is always possible, even on an exhausted cursor.
    let mut lex = Lexer::new("");
    assert_eq!(lex.skip(0), Ok(()));
    assert_eq!(lex.remaining(), "");
}

#[test]
fn consumed_and_remaining_reconstruct() {
    // The characters consumed since the mark, concatenated with the remaining
    // characters, are always the suffix of the input that starts at the mark.
    let mut lex = Lexer::new("hello123 world");
    assert_eq!(format!("{}{}", lex.consumed(), lex.remaining()), "hello123 world");

    lex.extract(char::is_alphabetic).unwrap();
    assert_eq!(format!("{}{}", lex.consumed(), lex.remaining()), "hello123 world");

    lex.mark();
    assert_eq!(format!("{}{}", lex.consumed(), lex.remaining()), "123 world");

    lex.extract_one(char::is_numeric).unwrap();
    lex.skip(2).unwrap();
    assert_eq!(format!("{}{}", lex.consumed(), lex.remaining()), "123 world");
}

#[test]
fn complementary_runs_partition() {
    // Repeated extraction under complementary predicates partitions the input
    // into runs whose concatenation reconstructs it.
    let mut lex = Lexer::new("aa11bbb2c33");
    let mut rebuilt = String::new();
    while !lex.is_empty() {
        let letters = lex.extract(char::is_alphabetic).unwrap();
        rebuilt.push_str(letters);
        if lex.is_empty() {
            break;
        }
        let rest = lex.extract(|c| !char::is_alphabetic(c)).unwrap();
        assert!(!rest.is_empty());
        rebuilt.push_str(rest);
    }
    assert_eq!(rebuilt, "aa11bbb2c33");
}

#[test]
fn extract_by_character_not_byte() {
    // Multi-byte characters are consumed whole: positions count Unicode
    // scalar values, never bytes.
    let mut lex = Lexer::new("héllo1ü2");
    assert_eq!(lex.extract(char::is_alphabetic), Ok("héllo"));
    assert_eq!(lex.remaining(), "1ü2");
    assert_eq!(lex.extract_one(char::is_numeric), Ok("1"));
    assert_eq!(lex.extract_one_greedy(char::is_numeric), Err(Error::Unexpected));
    assert_eq!(lex.remaining(), "2");
    assert_eq!(lex.skip(1), Ok(()));
    assert!(lex.is_empty());
}

#[test]
fn greedy_always_makes_progress() {
    // A scanner that ignores greedy mismatches still terminates: every call
    // on a non-exhausted cursor advances by exactly one character.
    let mut lex = Lexer::new("?!x");
    let mut steps = 0;
    while !lex.is_empty() {
        let _ = lex.extract_one_greedy(char::is_alphabetic);
        steps += 1;
        assert!(steps <= 3);
    }
    assert_eq!(steps, 3);
}
