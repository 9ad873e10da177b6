use logger::ParsedLineError;
use logger::decode::LineOutcome;
use logger::decode::encode_state_block;
use logger::decode::parse;
use logger::decode::parse_class_name;
use logger::decode::parse_lines;
use logger::decode::parse_state;
use logger::primitives::parse_number;
use logger::primitives::parse_number_i32;
use logger::primitives::pop_separator;
use logger::primitives::take_n_characters;
use logger::primitives::take_until;
use logger::primitives::take_until_whitespace;

fn chars(s: &str) -> Vec<char> {
    s.chars().collect()
}

fn text(v: &[char]) -> String {
    v.iter().collect()
}

#[test]
fn parse_number_reads_leading_digits() {
    assert_eq!(parse_number(&chars("123abc"), 0), Ok((123, 3)));
    assert_eq!(parse_number(&chars("x123"), 1), Ok((123, 4)));
    assert_eq!(parse_number(&chars("007"), 0), Ok((7, 3)));
}

#[test]
fn parse_number_empty_run_fails() {
    assert_eq!(parse_number(&chars("abc"), 0), Err(ParsedLineError::BadNumber));
    let s = chars("12");
    assert_eq!(parse_number(&s, 2), Err(ParsedLineError::BadNumber));
}

#[test]
fn parse_number_overflow_fails() {
    assert_eq!(
        parse_number(&chars("18446744073709551616"), 0),
        Err(ParsedLineError::BadNumber)
    );
    assert_eq!(
        parse_number(&chars("18446744073709551615"), 0),
        Ok((u64::MAX, 20))
    );
    assert_eq!(
        parse_number_i32(&chars("2147483648"), 0),
        Err(ParsedLineError::BadNumber)
    );
    assert_eq!(parse_number_i32(&chars("2147483647"), 0), Ok((i32::MAX, 10)));
}

#[test]
fn pop_separator_wants_exactly_one() {
    assert_eq!(pop_separator(&chars("a bc"), 1, ' '), Ok(2));
    assert_eq!(
        pop_separator(&chars("a  bc"), 1, ' '),
        Err(ParsedLineError::BadSeparator)
    );
    assert_eq!(
        pop_separator(&chars("abc"), 0, ' '),
        Err(ParsedLineError::BadSeparator)
    );
    assert_eq!(pop_separator(&chars("a:"), 1, ':'), Ok(2));
}

#[test]
fn take_until_whitespace_scans_token() {
    let s = chars("foo bar");
    assert_eq!(take_until_whitespace(&s, 0), 3);
    assert_eq!(take_until_whitespace(&s, 3), 3);
    assert_eq!(take_until_whitespace(&s, 4), 7);
}

#[test]
fn take_until_stops_at_character() {
    let s = chars("Bar:42");
    assert_eq!(take_until(&s, 0, ':'), 3);
    assert_eq!(take_until(&s, 4, ':'), 6);
}

#[test]
fn take_n_characters_needs_enough_input() {
    let s = chars("abcdef");
    assert_eq!(take_n_characters(&s, 2, 3), Ok(5));
    assert_eq!(
        take_n_characters(&s, 2, 5),
        Err(ParsedLineError::NotEnoughCharacters)
    );
}

#[test]
fn class_spec_simple_token() {
    let s = chars("Foo rest");
    let (cls, j) = parse_class_name(&s, 0).unwrap();
    assert_eq!(text(&cls.class_name), "Foo");
    assert_eq!(cls.parent_id, None);
    assert_eq!(cls.parent_class_name, None);
    assert_eq!(j, 3);
}

#[test]
fn class_spec_hierarchical_token() {
    let s = chars("Bar:42:Foo rest");
    let (cls, j) = parse_class_name(&s, 0).unwrap();
    assert_eq!(text(&cls.class_name), "Foo");
    assert_eq!(cls.parent_id, Some(42));
    assert_eq!(text(cls.parent_class_name.as_ref().unwrap()), "Bar");
    assert_eq!(j, 10);
}

#[test]
fn class_spec_single_colon_fails() {
    let s = chars("Bar:Foo");
    assert_eq!(parse_class_name(&s, 0), Err(ParsedLineError::BadNumber));
}

#[test]
fn state_block_empty_count() {
    let s = chars("0:rest");
    let (items, j) = parse_state(&s, 0).unwrap();
    assert!(items.is_empty());
    assert_eq!(j, 2);
}

#[test]
fn state_block_items_may_hold_colons() {
    let s = chars("2:2:ab3:c:d");
    let (items, j) = parse_state(&s, 0).unwrap();
    assert_eq!(items.len(), 2);
    assert_eq!(text(&items[0]), "ab");
    assert_eq!(text(&items[1]), "c:d");
    assert_eq!(j, s.len());
}

#[test]
fn state_block_round_trip() {
    let items = vec![chars("a b"), chars("x:y"), chars(""), chars("10")];
    let encoded = encode_state_block(&items);
    let (decoded, j) = parse_state(&encoded, 0).unwrap();
    assert_eq!(decoded, items);
    assert_eq!(j, encoded.len());
}

#[test]
fn state_block_round_trip_empty() {
    let items: Vec<Vec<char>> = vec![];
    let encoded = encode_state_block(&items);
    assert_eq!(text(&encoded), "0:");
    let (decoded, j) = parse_state(&encoded, 0).unwrap();
    assert!(decoded.is_empty());
    assert_eq!(j, 2);
}

#[test]
fn state_block_length_past_end_fails() {
    let s = chars("1:5:abc");
    assert_eq!(parse_state(&s, 0), Err(ParsedLineError::NotEnoughCharacters));
}

#[test]
fn state_block_bad_count_fails() {
    let s = chars("x:");
    assert_eq!(parse_state(&s, 0), Err(ParsedLineError::BadNumber));
    let s = chars("2;1:a");
    assert_eq!(parse_state(&s, 0), Err(ParsedLineError::BadSeparator));
}

#[test]
fn line_decodes_every_field() {
    let line = chars("100 1 Bar:7:Foo run 2:1:a3:b c 1:2:xy");
    match parse(None, &line) {
        LineOutcome::Kept(rec) => {
            assert_eq!(rec.id, 1);
            assert_eq!(rec.parent_id, Some(7));
            assert_eq!(text(rec.parent.as_ref().unwrap()), "Bar");
            assert_eq!(text(&rec.class_name), "Foo");
            assert_eq!(text(&rec.function_name), "run");
            assert_eq!(rec.state.len(), 2);
            assert_eq!(text(&rec.state[0]), "a");
            assert_eq!(text(&rec.state[1]), "b c");
            assert_eq!(rec.args.len(), 1);
            assert_eq!(text(&rec.args[0]), "xy");
        },
        other => panic!("expected a kept record, got {:?}", other),
    }
}

#[test]
fn line_decode_is_repeatable() {
    let line = chars("5 3 Foo f 1:1:s 1:1:t");
    let first = parse(None, &line);
    let second = parse(None, &line);
    assert_eq!(first, second);
    assert!(matches!(first, LineOutcome::Kept(_)));
}

#[test]
fn line_trailing_data_is_recoverable_error() {
    let line = chars("100 1 Foo f 1:1:a 0: x");
    assert_eq!(
        parse(None, &line),
        LineOutcome::Failed(ParsedLineError::TrailingData)
    );
}

#[test]
fn line_bad_separator_fails() {
    let line = chars("100  1 Foo f 0: 0:");
    assert_eq!(
        parse(None, &line),
        LineOutcome::Failed(ParsedLineError::BadSeparator)
    );
}

#[test]
fn filter_keeps_matching_root() {
    let own = chars("100 7 Foo f 0: 0:");
    assert!(matches!(parse(Some(7), &own), LineOutcome::Kept(_)));
    let other = chars("100 8 Foo f 0: 0:");
    assert_eq!(parse(Some(7), &other), LineOutcome::Filtered);
    let child = chars("100 3 Par:7:Foo f 0: 0:");
    assert!(matches!(parse(Some(7), &child), LineOutcome::Kept(_)));
    let stranger = chars("100 3 Par:9:Foo f 0: 0:");
    assert_eq!(parse(Some(7), &stranger), LineOutcome::Filtered);
}

#[test]
fn stream_survives_bad_line() {
    let lines = vec![
        chars("100 1 Foo f 1:9:ab 0:"),
        chars("100 2 Foo f 0: 0:"),
    ];
    let (kept, errors) = parse_lines(None, &lines);
    assert_eq!(kept.len(), 1);
    assert_eq!(kept[0].id, 2);
    assert_eq!(errors, vec![ParsedLineError::NotEnoughCharacters]);
}

#[test]
fn stream_of_empty_input_is_empty() {
    let lines: Vec<Vec<char>> = vec![];
    let (kept, errors) = parse_lines(None, &lines);
    assert!(kept.is_empty());
    assert!(errors.is_empty());
}

#[test]
fn stream_keeps_input_order() {
    let lines = vec![
        chars("1 1 Foo f 0: 0:"),
        chars("2 2 Foo g 0: 0:"),
        chars("3 3 Foo h 0: 0:"),
    ];
    let (kept, errors) = parse_lines(None, &lines);
    let ids: Vec<i32> = kept.iter().map(|r| r.id).collect();
    assert_eq!(ids, vec![1, 2, 3]);
    assert!(errors.is_empty());
}

#[test]
fn error_messages_name_each_kind() {
    assert_eq!(ParsedLineError::BadNumber.describe(), "unable to parse number");
    assert_eq!(
        ParsedLineError::BadSeparator.describe(),
        "unable to find separator"
    );
    assert_eq!(
        ParsedLineError::NotEnoughCharacters.describe(),
        "not enough characters in string"
    );
    assert_eq!(
        ParsedLineError::TrailingData.describe(),
        "unconsumed input after line"
    );
}

#[test]
fn class_spec_keeps_extra_colons_in_class_name() {
    let s = chars("Bar:42:Foo:Baz x");
    let (cls, j) = parse_class_name(&s, 0).unwrap();
    assert_eq!(text(&cls.class_name), "Foo:Baz");
    assert_eq!(cls.parent_id, Some(42));
    assert_eq!(j, 14);
}

#[test]
fn class_spec_double_colon_fails() {
    let s = chars("Bar::42:Foo");
    assert_eq!(parse_class_name(&s, 0), Err(ParsedLineError::BadSeparator));
}
