use kokoro::normalize::{normalize_text, try_normalize_text};
use kokoro::numtext::{parse_i32, parse_usize, push_i32};
use kokoro::rewrite::{abbreviation_dots, flip_money, point_num, rewrite_match, split_num, yeah, Rewrite};
use kokoro::text::{replace_char, replace_str, split_whitespace, trim};

fn chars(s: &str) -> Vec<char> {
    s.chars().collect()
}

fn norm(s: &str) -> String {
    try_normalize_text(s).expect("rules apply")
}

#[test]
fn parse_i32_like_std() {
    for s in ["42", "+7", "-3", "007", "2147483647", "-2147483648", "2147483648", "-2147483649", "", "+", "-", "1a", " 1", "--1", "99999999999999999999"] {
        assert_eq!(parse_i32(&chars(s)), s.parse::<i32>().ok(), "{s:?}");
    }
}

#[test]
fn parse_usize_like_std() {
    for s in ["0", "+5", "-5", "-0", "", "+", "12x", "18446744073709551615", "18446744073709551616", "4294967296"] {
        assert_eq!(parse_usize(&chars(s)), s.parse::<usize>().ok(), "{s:?}");
    }
}

#[test]
fn integer_text() {
    for v in [0, 7, 42, -42, 1000, i32::MAX, i32::MIN] {
        let mut s = String::from("x");
        push_i32(&mut s, v);
        assert_eq!(s, format!("x{v}"));
    }
}

#[test]
fn trim_and_replace() {
    assert_eq!(trim("\u{3000} x y \u{85}\n"), "x y");
    assert_eq!(trim("   "), "");
    assert_eq!(trim("a"), "a");
    assert_eq!(replace_str("aaa", "aa", "b"), "ba");
    assert_eq!(replace_str("abcabc", "bc", "X"), "aXaX");
    assert_eq!(replace_str("", "a", "b"), "");
    assert_eq!(replace_char("a(b)c", '(', "«"), "a«b)c");
    let words: Vec<String> = split_whitespace(&chars("  one\ttwo \u{a0}three  "))
        .into_iter()
        .map(|w| w.into_iter().collect())
        .collect();
    assert_eq!(words, vec!["one", "two", "three"]);
}

#[test]
fn split_num_times_and_years() {
    assert_eq!(split_num("3:00"), "3 o'clock");
    assert_eq!(split_num("3:05"), "3 oh 5");
    assert_eq!(split_num("10:30"), "10 30");
    assert_eq!(split_num("1990"), "19 90");
    assert_eq!(split_num("1990s"), "19 90s");
    assert_eq!(split_num("1900"), "19 hundred");
    assert_eq!(split_num("1905"), "19 oh 5");
    assert_eq!(split_num("2010"), "20 10");
    assert_eq!(split_num("2005"), "2005");
    assert_eq!(split_num("1066"), "1066");
    assert_eq!(split_num("3.14"), "3.14");
}

#[test]
fn flip_money_amounts() {
    assert_eq!(flip_money("$5"), "5 dollars");
    assert_eq!(flip_money("$1"), "1 dollar");
    assert_eq!(flip_money("$1.50"), "1 dollar and 50 cents");
    assert_eq!(flip_money("$2.01"), "2 dollars and 1 cent");
    assert_eq!(flip_money("$2.5"), "2 dollars and 50 cents");
    assert_eq!(flip_money("$3 million"), "3 million dollars");
    assert_eq!(flip_money("x1.01"), "1 pound and 1 penny");
    assert_eq!(flip_money("x7.10"), "7 pounds and 10 pence");
}

#[test]
fn point_and_abbreviations() {
    assert_eq!(point_num("3.14"), "3 point 1 4");
    assert_eq!(point_num(".5"), " point 5");
    assert_eq!(point_num("12"), "12");
    assert_eq!(abbreviation_dots("U.S. a"), "U-S- a");
    assert_eq!(yeah("yeah"), "ye'a");
    assert_eq!(yeah("Yea"), "Ye'a");
    assert_eq!(rewrite_match(&Rewrite::Literal("Doctor"), "Dr."), "Doctor");
    assert_eq!(rewrite_match(&Rewrite::SplitNum, "1990"), "19 90");
}

#[test]
fn normalize_titles_and_punctuation() {
    assert_eq!(norm("Dr. Smith is here."), "Doctor Smith is here.");
    assert_eq!(norm("Mr. Smith"), "Mister Smith");
    assert_eq!(norm("MR. Smith"), "Mister Smith");
    assert_eq!(norm("MR. smith"), "MR. smith");
    assert_eq!(norm("Ms. Lee"), "Miss Lee");
    assert_eq!(norm("etc. and"), "etc and");
    assert_eq!(norm("(hello)"), "«hello»");
    assert_eq!(norm("\u{201c}quoted\u{201d}"), "\"quoted\"");
    assert_eq!(norm("\u{ab}quoted\u{bb}"), "\"quoted\"");
    assert_eq!(norm("it\u{2019}s"), "it's");
    assert_eq!(norm("a  b\t c"), "a b c");
    assert_eq!(norm("\n  \n"), "");
    assert_eq!(norm("  hi  "), "hi");
    assert_eq!(norm(""), "");
    assert_eq!(norm("\u{4f60}\u{597d}\u{3002}\u{4e16}\u{754c}"), "\u{4f60}\u{597d}. \u{4e16}\u{754c}");
    assert_eq!(norm("yeah right"), "ye'a right");
}

#[test]
fn normalize_numbers_and_money() {
    assert_eq!(norm("I have $5 and $1."), "I have 5 dollars and 1 dollar.");
    assert_eq!(norm("In 1990 we met at 3:30."), "In 19 90 we met at 3 30.");
    assert_eq!(norm("It costs $1.50"), "It costs 1 dollar and 50 cents");
    assert_eq!(norm("pi is 3.14"), "pi is 3 point 1 4");
    assert_eq!(norm("1,000 people"), "1000 people");
    assert_eq!(norm("pages 10-20"), "pages 10 to 20");
    assert_eq!(norm("the 1980s"), "the 19 80s");
    assert_eq!(norm("KFC's"), "KFC'S");
    assert_eq!(norm("U.S.A. is"), "U-S-A- is");
    assert_eq!(norm("J.R.R. Tolkien"), "J-R-R. Tolkien");
    assert_eq!(normalize_text("Dr. Who"), "Doctor Who");
}

#[test]
fn flip_money_pounds() {
    assert_eq!(flip_money("£5"), "5 pounds");
    assert_eq!(flip_money("£1"), "1 pound");
    assert_eq!(flip_money("£1.01"), "1 pound and 1 penny");
    assert_eq!(flip_money("£3 million"), "3 million pounds");
}
