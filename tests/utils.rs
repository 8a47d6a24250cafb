use chat_export_md::model::EpochTime;
use chat_export_md::utils::{date_from_epoch_time, normalized_filename_string};

#[test]
fn test_normalized_filename_string() {
    assert_eq!(
        normalized_filename_string("This is a Test!", 20),
        "This_is_a_Test"
    );
    assert_eq!(
        normalized_filename_string("Special @#$%^&*() Characters", 25),
        "Special__Characters"
    );
    assert_eq!(
        normalized_filename_string("Word Boundaries Work Well", 10),
        "Word"
    );
    assert_eq!(normalized_filename_string("SingleWord", 50), "SingleWord");
}

#[test]
fn test_date_from_epoch_time() {
    assert_eq!(
        date_from_epoch_time(EpochTime::new(1672531200, 0)),
        "2023-01-01"
    );
    assert_eq!(date_from_epoch_time(EpochTime::new(0, 0)), "1970-01-01");
    assert_eq!(date_from_epoch_time(EpochTime::new(-1, 0)), "1969-12-31");
}

#[test]
fn date_with_fraction_of_a_second() {
    assert_eq!(
        date_from_epoch_time(EpochTime::new(1638316800, 500_000_000)),
        "2021-12-01"
    );
    assert_eq!(date_from_epoch_time(EpochTime::new(86_399, 999_999_999)), "1970-01-01");
}

#[test]
fn date_out_of_range_is_empty() {
    assert_eq!(date_from_epoch_time(EpochTime::new(i64::MAX, 0)), "");
    assert_eq!(date_from_epoch_time(EpochTime::new(i64::MIN, 0)), "");
}

#[test]
fn first_word_too_long_is_cut_and_marked() {
    assert_eq!(
        normalized_filename_string("Supercalifragilistic expialidocious", 10),
        "Supercali_"
    );
    assert_eq!(normalized_filename_string("abcdef", 1), "_");
}

#[test]
fn slug_fits_exactly() {
    assert_eq!(normalized_filename_string("ab cd", 5), "ab_cd");
    assert_eq!(normalized_filename_string("ab cd e", 5), "ab_cd");
    assert_eq!(normalized_filename_string("ab cd ef", 5), "ab_cd");
    assert_eq!(normalized_filename_string("ab cd ef", 4), "ab");
}

#[test]
fn slug_of_empty_and_symbol_only_titles() {
    assert_eq!(normalized_filename_string("", 10), "");
    assert_eq!(normalized_filename_string("!?#", 10), "");
}

#[test]
fn unicode_whitespace_becomes_underscore() {
    assert_eq!(normalized_filename_string("a\u{3000}b\tc", 10), "a_b_c");
}

#[test]
fn slug_counts_bytes() {
    // "é" takes two bytes: "café" is five bytes long.
    assert_eq!(normalized_filename_string("café au lait", 7), "café");
    assert_eq!(normalized_filename_string("café au lait", 8), "café_au");
    assert_eq!(normalized_filename_string("café au lait", 12), "café_au");
    assert_eq!(normalized_filename_string("éééé", 4), "é_");
}

#[test]
fn leading_empty_words_keep_their_separators() {
    assert_eq!(normalized_filename_string(" ab cd", 5), "_ab");
    assert_eq!(normalized_filename_string("  ab cd", 6), "__ab");
}

#[test]
fn slug_never_exceeds_limit() {
    let titles = [
        "This is a Test!",
        "Word Boundaries Work Well",
        "   spaced   out   ",
        "ünïcödé wörds hère",
        "x",
        "",
    ];
    for t in titles.iter() {
        for n in 1..30usize {
            assert!(normalized_filename_string(t, n).len() <= n);
        }
    }
}

#[test]
fn slug_again_is_unchanged_when_it_fits() {
    let once = normalized_filename_string("Hello_World_2024", 40);
    assert_eq!(once, "HelloWorld2024");
    assert_eq!(normalized_filename_string(&once, 40), once);
}

#[test]
fn slug_again_drops_the_cut_marker() {
    let once = normalized_filename_string("abcdef", 3);
    assert_eq!(once, "ab_");
    assert_eq!(normalized_filename_string(&once, 3), "ab");
}
