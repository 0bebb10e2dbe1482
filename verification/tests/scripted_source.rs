use passgenr::chars;
use passgenr::password::{check_charset, join, select};
use passgenr::sampler::{accept, draw_indices, mask_for, sample_index, DRAW_LIMIT};
use passgenr::text;
use passgenr::{
    random_password, random_password_elements_with, random_password_with,
    slice_contains_duplicates, OsSource, PasswordError, RandomSource, ScriptedSource,
};

fn script(words: &[u32]) -> ScriptedSource {
    ScriptedSource::new(words.to_vec())
}

#[test]
fn mask_is_smallest_all_ones_cover() {
    assert_eq!(mask_for(1), 0);
    assert_eq!(mask_for(2), 1);
    assert_eq!(mask_for(3), 3);
    assert_eq!(mask_for(4), 3);
    assert_eq!(mask_for(5), 7);
    assert_eq!(mask_for(8), 7);
    assert_eq!(mask_for(9), 15);
    assert_eq!(mask_for(94), 127);
    assert_eq!(mask_for(256), 255);
    assert_eq!(mask_for(257), 511);
    assert_eq!(mask_for(usize::MAX), usize::MAX);
    assert_eq!(mask_for(usize::MAX / 2 + 1), usize::MAX / 2);
    assert_eq!(mask_for(usize::MAX / 2 + 2), usize::MAX);
}

#[test]
fn one_word_is_accepted_or_discarded() {
    assert_eq!(accept(0, 5), Some(0));
    assert_eq!(accept(4, 5), Some(4));
    assert_eq!(accept(5, 5), None);
    assert_eq!(accept(7, 5), None);
    assert_eq!(accept(8, 5), Some(0));
    assert_eq!(accept(0xFFFF_FFFC, 5), Some(4));
    assert_eq!(accept(0xFFFF_FFFF, 5), None);
    assert_eq!(accept(0xFFFF_FFFF, 8), Some(7));
    assert_eq!(accept(0xDEAD_BEEF, 1), Some(0));
    assert_eq!(accept(0xDEAD_BEEF, 94), None);
    assert_eq!(accept(0xDEAD_BE5D, 94), Some(93));
    assert_eq!(accept(0xDEAD_BE5E, 94), None);
    assert_eq!(accept(0xDEAD_BE80, 94), Some(0));
}

#[test]
fn sampling_skips_discarded_words() {
    let mut source = script(&[7, 13, 9, 2]);
    assert_eq!(sample_index(&mut source, 5), Some(1));
    assert_eq!(source.drawn(), 3);
    assert_eq!(sample_index(&mut source, 5), Some(2));
    assert_eq!(source.drawn(), 4);
}

#[test]
fn sampling_below_one_is_always_zero() {
    let mut source = script(&[0xFFFF_FFFF, 12345, 0]);
    for _ in 0..30 {
        assert_eq!(sample_index(&mut source, 1), Some(0));
    }
    assert_eq!(source.drawn(), 30);

    let mut os = OsSource::new().unwrap();
    for _ in 0..10_000 {
        assert_eq!(sample_index(&mut os, 1), Some(0));
    }
}

#[test]
fn sampling_below_eight_stays_below_eight() {
    let mut os = OsSource::new().unwrap();
    let mut seen = [false; 8];
    for _ in 0..10_000 {
        let index = sample_index(&mut os, 8).unwrap();
        assert!(index < 8);
        seen[index] = true;
    }
    assert_eq!(seen, [true; 8]);
}

#[test]
fn sampling_covers_a_set_that_is_no_power_of_two() {
    let mut os = OsSource::new().unwrap();
    let mut seen = [0usize; 5];
    for _ in 0..10_000 {
        let index = sample_index(&mut os, 5).unwrap();
        assert!(index < 5);
        seen[index] += 1;
    }
    for count in seen.iter() {
        assert!(*count > 1_000);
    }
}

#[test]
fn indices_come_in_the_order_of_the_words() {
    let mut source = script(&[0, 1, 2, 3, 1]);
    assert_eq!(draw_indices(&mut source, 3, 4), Some(vec![0, 1, 2, 1]));
    assert_eq!(source.drawn(), 5);

    let mut source = script(&[3]);
    assert_eq!(draw_indices(&mut source, 3, 0), Some(vec![]));
    assert_eq!(source.drawn(), 0);
}

#[test]
fn password_follows_the_words() {
    let charset = ["a", "b", "c"];
    let mut source = script(&[0, 1, 2, 3, 1]);
    assert_eq!(
        random_password_with(&mut source, &charset, 4, "-"),
        Ok("a-b-c-b".to_owned())
    );

    let mut source = script(&[2, 6, 0]);
    assert_eq!(
        random_password_elements_with(&mut source, &charset, 3),
        Ok(vec!["c", "c", "a"])
    );
    assert_eq!(source.drawn(), 3);
}

#[test]
fn password_of_words_keeps_whole_words() {
    let charset = ["alpha", "beta", "gamma", "delta"];
    let mut source = script(&[3, 0, 6]);
    assert_eq!(
        random_password_with(&mut source, &charset, 3, "."),
        Ok("delta.alpha.gamma".to_owned())
    );
}

#[test]
fn password_of_no_elements_is_empty_and_draws_nothing() {
    let charset = ["a", "b", "c"];
    let mut source = script(&[3]);
    assert_eq!(random_password_with(&mut source, &charset, 0, "###"), Ok(String::new()));
    assert_eq!(source.drawn(), 0);
    assert_eq!(random_password(&charset, 0, "###"), Ok(String::new()));
}

#[test]
fn password_of_one_element_has_no_separator() {
    let charset = ["a", "b", "c"];
    let mut source = script(&[1]);
    assert_eq!(random_password_with(&mut source, &charset, 1, "###"), Ok("b".to_owned()));
    for _ in 0..50 {
        let password = random_password(&charset, 1, "###").unwrap();
        assert!(charset.contains(&password.as_str()));
    }
}

#[test]
fn small_sets_are_rejected_whatever_the_count() {
    let mut source = script(&[0]);
    for count in [0usize, 1, 2, 50] {
        assert_eq!(random_password(&[], count, ""), Err(PasswordError::InvalidCharset));
        assert_eq!(random_password(&["x"], count, "-"), Err(PasswordError::InvalidCharset));
        assert_eq!(
            random_password_with(&mut source, &["x"], count, "-"),
            Err(PasswordError::InvalidCharset)
        );
    }
    assert_eq!(source.drawn(), 0);
    assert_eq!(check_charset(&[]), Err(PasswordError::InvalidCharset));
    assert_eq!(check_charset(&["x", "y"]), Ok(()));
}

#[test]
fn repeated_elements_are_rejected_before_any_draw() {
    let mut source = script(&[0]);
    assert_eq!(
        random_password_with(&mut source, &["a", "b", "a"], 2, ""),
        Err(PasswordError::DuplicateElements)
    );
    assert_eq!(source.drawn(), 0);
    assert_eq!(random_password(&["a", "a"], 0, ""), Err(PasswordError::DuplicateElements));
    assert_eq!(check_charset(&["a", "b", "c", "b"]), Err(PasswordError::DuplicateElements));
    assert!(slice_contains_duplicates(&["a", "b", "a"]));
    assert!(slice_contains_duplicates(&["x", "x"]));
    assert!(!slice_contains_duplicates(&["a", "b", "ab", "ba", ""]));
    assert!(!slice_contains_duplicates(&[]));
}

#[test]
fn a_power_of_two_never_discards() {
    let charset = ["0", "1", "2", "3"];
    let mut source = script(&[0xFFFF_FFFF, 0xFFFF_FFFE, 5, 4]);
    assert_eq!(random_password_with(&mut source, &charset, 4, ""), Ok("3210".to_owned()));
    assert_eq!(source.drawn(), 4);
}

#[test]
fn joining_and_selecting() {
    assert_eq!(join(&[], "+"), "");
    assert_eq!(join(&["a"], "+"), "a");
    assert_eq!(join(&["a", "bc", ""], "+"), "a+bc+");
    assert_eq!(join(&["a", "b", "c"], ""), "abc");
    assert_eq!(select(&["x", "y", "z"], &[2, 0, 0, 1]), vec!["z", "x", "x", "y"]);
    assert_eq!(select(&["x", "y", "z"], &[]), Vec::<&str>::new());
}

#[test]
fn characters_follow_the_words() {
    let charset = ['a', 'b', 'c'];
    let mut source = script(&[2, 3, 0, 5]);
    assert_eq!(
        chars::random_password_characters_with(&mut source, &charset, 3),
        Ok(vec!['c', 'a', 'b'])
    );
    assert_eq!(
        chars::random_password_characters_with(&mut source, &['a'], 3),
        Err(PasswordError::InvalidCharset)
    );
    assert_eq!(
        chars::random_password_characters_with(&mut source, &['a', 'b', 'a'], 3),
        Err(PasswordError::DuplicateElements)
    );
    let mut stuck = script(&[3]);
    assert_eq!(chars::random_password_characters_with(&mut stuck, &charset, 0), Ok(vec![]));
    assert_eq!(stuck.drawn(), 0);
    assert_eq!(chars::random_password_characters(&[], 4), Err(PasswordError::InvalidCharset));
    assert_eq!(chars::random_password_characters(&['z', 'z'], 4), Err(PasswordError::DuplicateElements));
    assert!(chars::contains_duplicates(&['a', 'b', 'a']));
    assert!(!chars::contains_duplicates(&['a', 'b', 'c']));
    assert_eq!(chars::select_characters(&['x', 'y'], &[1, 1, 0]), vec!['y', 'y', 'x']);
}

#[test]
fn text_follows_the_words() {
    let mut source = script(&[2, 3, 0, 5]);
    assert_eq!(
        text::random_password_characters_with(&mut source, "abc", 3),
        Ok("cab".to_owned())
    );
    let mut source = script(&[1, 0, 2]);
    assert_eq!(
        text::random_password_characters_with(&mut source, "xé✓", 3),
        Ok("éx✓".to_owned())
    );
    assert_eq!(
        text::random_password_characters_with(&mut source, "a", 3),
        Err(PasswordError::InvalidCharset)
    );
    assert_eq!(
        text::random_password_characters_with(&mut source, "", 0),
        Err(PasswordError::InvalidCharset)
    );
    assert_eq!(
        text::random_password_characters_with(&mut source, "abca", 3),
        Err(PasswordError::DuplicateElements)
    );
    let mut stuck = script(&[3]);
    assert_eq!(text::random_password_characters_with(&mut stuck, "abc", 0), Ok(String::new()));
    assert_eq!(stuck.drawn(), 0);
    assert_eq!(text::random_password_characters("é", 2), Err(PasswordError::InvalidCharset));
    assert_eq!(text::random_password_characters("éé", 2), Err(PasswordError::DuplicateElements));
    assert_eq!(text::characters_of("aé✓"), vec!['a', 'é', '✓']);
    assert_eq!(text::select_text("aé✓", &[2, 0, 1, 1]), "✓aéé");
}

#[test]
fn each_error_has_its_message() {
    assert_eq!(
        PasswordError::InvalidCharset.message(),
        "The character set is too small (only 0 or 1 elements) to generate distinct passwords!"
    );
    assert_eq!(
        PasswordError::DuplicateElements.message(),
        "The character set contained duplicate elements!"
    );
    assert_eq!(
        PasswordError::RandomSourceUnavailable.message(),
        "Random number generator failure."
    );
}

#[test]
fn a_script_is_gone_through_over_and_over() {
    let mut source = script(&[5, 6, 7]);
    assert_eq!(source.drawn(), 0);
    let words: Vec<u32> = (0..7).map(|_| source.next_u32()).collect();
    assert_eq!(words, vec![5, 6, 7, 5, 6, 7, 5]);
    assert_eq!(source.drawn(), 7);

    let mut single = script(&[9]);
    assert_eq!(single.next_u32(), 9);
    assert_eq!(single.next_u32(), 9);

    let mut empty = script(&[]);
    assert_eq!(empty.next_u32(), 0);
    assert_eq!(empty.next_u32(), 0);
    assert_eq!(empty.drawn(), 2);
}

#[test]
fn the_system_source_serves_varying_words() {
    let mut source = OsSource::new().unwrap();
    let words: Vec<u32> = (0..64).map(|_| source.next_u32()).collect();
    let first = words[0];
    assert!(words.iter().any(|word| *word != first));
}

#[test]
fn a_source_is_had_exactly_where_a_generator_was() {
    assert!(OsSource::from_acquired(None).is_none());
    let mut source = OsSource::from_acquired(rand::OsRng::new().ok()).unwrap();
    let words: Vec<u32> = (0..64).map(|_| source.next_u32()).collect();
    let first = words[0];
    assert!(words.iter().any(|word| *word != first));
}

#[test]
fn sampling_waits_for_the_first_accepted_word() {
    for discarded in [0usize, 1, 127, 128, 129, 1000, 100_000] {
        let mut words = vec![7u32; discarded];
        words.push(12);
        let mut source = script(&words);
        assert_eq!(sample_index(&mut source, 5), Some(4));
        assert_eq!(source.drawn(), discarded + 1);
    }
}

#[test]
fn a_password_waits_for_each_accepted_word() {
    let mut words = vec![3u32; 500];
    words.push(1);
    words.extend(vec![7u32; 300]);
    words.push(2);
    let mut source = script(&words);
    assert_eq!(
        random_password_with(&mut source, &["a", "b", "c"], 2, "+"),
        Ok("b+c".to_owned())
    );
    assert_eq!(source.drawn(), 802);
}

#[test]
fn draws_are_counted_in_sixty_four_bits() {
    assert_eq!(DRAW_LIMIT, u64::MAX);
}
