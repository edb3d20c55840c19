use orion_dudect::scan::{chars_of, scan_names, scan_seeds, scan_t_values};
use orion_dudect::TStatistic;
use regex::Regex;

fn strings(items: &[&str]) -> Vec<String> {
    items.iter().map(|s| s.to_string()).collect()
}

fn as_float(t: &TStatistic) -> f64 {
    let (negative, mantissa, exponent) = t.parts();
    let sign = if negative { "-" } else { "" };
    format!("{}{}e{}", sign, mantissa, exponent).parse::<f64>().unwrap()
}

fn thousandths(values: &[i64]) -> Vec<TStatistic> {
    values.iter().map(|v| TStatistic::from_hundred_thousandths(*v)).collect()
}

#[test]
fn chars_of_lists_the_characters() {
    assert_eq!(chars_of(""), Vec::<char>::new());
    assert_eq!(chars_of("a b"), vec!['a', ' ', 'b']);
    assert_eq!(chars_of("t=é+"), vec!['t', '=', 'é', '+']);
}

#[test]
fn names_of_a_seed_line() {
    let line = "bench test_secure_cmp       seeded with 0x00000000deadbeef";
    assert_eq!(scan_names(line), strings(&["test_secure_cmp"]));
}

#[test]
fn names_of_a_result_line() {
    let line = "bench test_x25519_scalarmul ... : n == +1.000M, max t = +1.45832, max tau = +0.00146, (5/tau)^2 = 11730307";
    assert_eq!(scan_names(line), strings(&["test_x25519_scalarmul"]));
}

#[test]
fn names_need_the_marker_and_one_more_character() {
    assert_eq!(scan_names(""), strings(&[]));
    assert_eq!(scan_names("bench test_"), strings(&[]));
    assert_eq!(scan_names("bench test_ a"), strings(&[]));
    assert_eq!(scan_names("bench test"), strings(&[]));
    assert_eq!(scan_names("bench  test_a"), strings(&[]));
    assert_eq!(scan_names("Bench test_a"), strings(&[]));
    assert_eq!(scan_names("test_a"), strings(&[]));
    assert_eq!(scan_names("bench test_a"), strings(&["test_a"]));
    assert_eq!(scan_names("bench test__"), strings(&["test__"]));
    assert_eq!(scan_names("xbench test_9"), strings(&["test_9"]));
}

#[test]
fn names_end_at_the_first_other_character() {
    assert_eq!(scan_names("bench test_abc,def"), strings(&["test_abc"]));
    assert_eq!(scan_names("bench test_abcDef"), strings(&["test_abc"]));
    assert_eq!(scan_names("bench test_a-b"), strings(&["test_a"]));
    assert_eq!(scan_names("bench test_aé"), strings(&["test_a"]));
}

#[test]
fn several_names_on_a_line() {
    assert_eq!(
        scan_names("bench test_a bench test_b, bench test_c"),
        strings(&["test_a", "test_b", "test_c"])
    );
    assert_eq!(scan_names("bench test_abench test_b"), strings(&["test_abench"]));
    assert_eq!(scan_names("bench bench test_a"), strings(&["test_a"]));
    assert_eq!(scan_names("é bench test_a é bench test_b"), strings(&["test_a", "test_b"]));
}

#[test]
fn seeds_of_a_seed_line() {
    let line = "bench test_secure_cmp       seeded with 0x00000000deadbeef";
    assert_eq!(scan_seeds(line), strings(&["0x00000000deadbeef"]));
}

#[test]
fn seeds_need_the_marker_and_one_more_character() {
    assert_eq!(scan_seeds(""), strings(&[]));
    assert_eq!(scan_seeds("seeded with "), strings(&[]));
    assert_eq!(scan_seeds("seeded with"), strings(&[]));
    assert_eq!(scan_seeds("seeded with  abc"), strings(&[]));
    assert_eq!(scan_seeds("seeded with ABC"), strings(&[]));
    assert_eq!(scan_seeds("seeded with abc123"), strings(&["abc123"]));
    assert_eq!(scan_seeds("seeded with abc123XYZ"), strings(&["abc123"]));
    assert_eq!(scan_seeds("seeded with a seeded with b_"), strings(&["a", "b_"]));
}

#[test]
fn t_values_of_a_result_line() {
    let line = "bench test_x25519_scalarmul ... : n == +1.000M, max t = +1.45832, max tau = +0.00146, (5/tau)^2 = 11730307";
    assert_eq!(scan_t_values(line), Ok(thousandths(&[145_832])));
}

#[test]
fn t_values_of_lines_without_a_marker() {
    assert_eq!(scan_t_values(""), Ok(Vec::new()));
    assert_eq!(scan_t_values("bench test_a seeded with 0x1"), Ok(Vec::new()));
    assert_eq!(scan_t_values("max tau = +0.5"), Ok(Vec::new()));
    assert_eq!(scan_t_values("max t =+0.5"), Ok(Vec::new()));
    assert_eq!(scan_t_values("Max t = +0.5"), Ok(Vec::new()));
}

#[test]
fn t_values_in_decimal_notation() {
    assert_eq!(scan_t_values("max t = +1.23456"), Ok(thousandths(&[123_456])));
    assert_eq!(scan_t_values("max t = -1.23456"), Ok(thousandths(&[-123_456])));
    assert_eq!(scan_t_values("max t = +61.61472,"), Ok(thousandths(&[6_161_472])));
    assert_eq!(scan_t_values("max t = +4.5"), Ok(thousandths(&[450_000])));
    assert_eq!(scan_t_values("max t = +4.50000"), Ok(thousandths(&[450_000])));
    assert_eq!(scan_t_values("max t = -4.50001"), Ok(thousandths(&[-450_001])));
    assert_eq!(scan_t_values("max t = +.5"), Ok(thousandths(&[50_000])));
    assert_eq!(scan_t_values("max t = +5."), Ok(thousandths(&[500_000])));
    assert_eq!(scan_t_values("max t = +0.00000"), Ok(thousandths(&[0])));
    assert_eq!(scan_t_values("max t = -0.0"), Ok(thousandths(&[0])));
    assert_eq!(scan_t_values("max t = +99999.99999"), Ok(thousandths(&[9_999_999_999])));
}

#[test]
fn t_values_take_five_digits_on_each_side() {
    assert_eq!(scan_t_values("max t = +1.234567"), Ok(thousandths(&[123_456])));
    assert_eq!(scan_t_values("max t = +12345.678901"), Ok(thousandths(&[1_234_567_890])));
    assert_eq!(scan_t_values("max t = +123456"), Ok(thousandths(&[12_345_600_000])));
    assert_eq!(scan_t_values("max t = +123456789012345"), Ok(thousandths(&[1_234_567_890_100_000])));
    assert_eq!(scan_t_values("max t = +123456.7"), Ok(thousandths(&[12_345_600_000])));
}

#[test]
fn t_values_without_a_separator() {
    assert_eq!(scan_t_values("max t = +7"), Ok(thousandths(&[700_000])));
    assert_eq!(scan_t_values("max t = -12"), Ok(thousandths(&[-1_200_000])));
    assert_eq!(scan_t_values("max t = +12345"), Ok(thousandths(&[1_234_500_000])));
    assert_eq!(scan_t_values("max t = +12\nmax t = +3"), Ok(thousandths(&[1_200_000, 300_000])));
}

#[test]
fn t_values_in_exponent_notation() {
    assert_eq!(scan_t_values("max t = +1e0"), Ok(thousandths(&[100_000])));
    assert_eq!(scan_t_values("max t = +4e0"), Ok(thousandths(&[400_000])));
    assert_eq!(scan_t_values("max t = -2E3"), Ok(thousandths(&[-200_000_000])));
    assert_eq!(scan_t_values("max t = +0e99999"), Ok(thousandths(&[0])));
    assert_eq!(
        scan_t_values("max t = +12e00002"),
        Ok(vec![TStatistic::from_parts(false, 12, 2)])
    );
    assert_eq!(
        scan_t_values("max t = +99999e99999"),
        Ok(vec![TStatistic::from_parts(false, 99_999, 99_999)])
    );
}

#[test]
fn several_t_values_on_a_line() {
    assert_eq!(
        scan_t_values("max t = +1.5 max t = -2.5, max t = +0.1"),
        Ok(thousandths(&[150_000, -250_000, 10_000]))
    );
    assert_eq!(
        scan_t_values("max t = +1.5max t = -2.5"),
        Ok(thousandths(&[150_000, -250_000]))
    );
}

#[test]
fn text_that_is_no_number_is_handed_back() {
    assert_eq!(scan_t_values("max t = notanumber"), Err("notanumber".to_string()));
    assert_eq!(scan_t_values("max t = notanumber and more"), Err("notanumber".to_string()));
    assert_eq!(scan_t_values("max t = NaN, max tau"), Err("NaN,".to_string()));
    assert_eq!(scan_t_values("max t = 1.5"), Err("1.5".to_string()));
    assert_eq!(scan_t_values("max t = "), Err("".to_string()));
    assert_eq!(scan_t_values("max t =  +1.5"), Err("".to_string()));
    assert_eq!(scan_t_values("max t = +"), Err("+".to_string()));
    assert_eq!(scan_t_values("max t = -\n"), Err("-\n".to_string()));
}

#[test]
fn numeric_text_without_a_value_is_handed_back() {
    assert_eq!(scan_t_values("max t = +inf"), Err("+i".to_string()));
    assert_eq!(scan_t_values("max t = +."), Err("+.".to_string()));
    assert_eq!(scan_t_values("max t = +.x"), Err("+.".to_string()));
    assert_eq!(scan_t_values("max t = +1x5"), Err("+1x5".to_string()));
    assert_eq!(scan_t_values("max t = +1 5"), Err("+1 5".to_string()));
    assert_eq!(scan_t_values("max t = +1,5"), Err("+1,5".to_string()));
    assert_eq!(scan_t_values("max t = +e5"), Err("+e5".to_string()));
    assert_eq!(scan_t_values("max t = +1e"), Err("+1e".to_string()));
    assert_eq!(scan_t_values("max t = +1e-5"), Err("+1e".to_string()));
    assert_eq!(scan_t_values("max t = +-1"), Err("+-1".to_string()));
    assert_eq!(scan_t_values("max t = +é1"), Err("+é1".to_string()));
}

#[test]
fn the_first_bad_number_ends_the_scan() {
    assert_eq!(scan_t_values("max t = +1.5 max t = bad max t = worse"), Err("bad".to_string()));
    assert_eq!(scan_t_values("max t = +1x max t = +2y"), Err("+1x".to_string()));
}

#[test]
fn name_scan_agrees_with_the_pattern() {
    let pattern = Regex::new(r"(bench test_)[a-z0-9_]+").unwrap();
    let pieces = ["bench test_", "bench ", "test_", "a", "_", "9", ",", " ", "B", "é", "bench"];
    let mut state: u64 = 1;
    let mut round = 0;
    while round < 3000 {
        let mut line = String::new();
        let mut count = 0;
        while count < 6 {
            state = state.wrapping_mul(6364136223846793005).wrapping_add(1442695040888963407);
            line.push_str(pieces[((state >> 33) % 11) as usize]);
            count += 1;
        }
        let expected: Vec<String> =
            pattern.find_iter(&line).map(|m| m.as_str()[6..].to_string()).collect();
        assert_eq!(scan_names(&line), expected, "{:?}", line);
        round += 1;
    }
}

#[test]
fn seed_scan_agrees_with_the_pattern() {
    let pattern = Regex::new(r"(seeded with )[a-z0-9_]+").unwrap();
    let pieces = ["seeded with ", "seeded ", "with ", "0x", "_", "f", ",", " ", "F", "é", "seeded with"];
    let mut state: u64 = 2;
    let mut round = 0;
    while round < 3000 {
        let mut line = String::new();
        let mut count = 0;
        while count < 6 {
            state = state.wrapping_mul(6364136223846793005).wrapping_add(1442695040888963407);
            line.push_str(pieces[((state >> 33) % 11) as usize]);
            count += 1;
        }
        let expected: Vec<String> =
            pattern.find_iter(&line).map(|m| m.as_str()[12..].to_string()).collect();
        assert_eq!(scan_seeds(&line), expected, "{:?}", line);
        round += 1;
    }
}

fn check_against_pattern(pattern: &Regex, tail: &str) {
    let line = format!("t = max t = {}", tail);
    let found = scan_t_values(&line);
    match pattern.find(&line) {
        Some(m) => {
            let token = &m.as_str()[8..];
            match token.parse::<f64>() {
                Ok(expected) => {
                    let values = found.unwrap();
                    assert!(!values.is_empty(), "{:?}", line);
                    assert_eq!(as_float(&values[0]), expected, "{:?}", line);
                }
                Err(_) => assert_eq!(found, Err(token.to_string()), "{:?}", line),
            }
        }
        None => {
            let word: String = tail.chars().take_while(|c| *c != ' ').collect();
            assert_eq!(found, Err(word), "{:?}", line);
        }
    }
}

#[test]
fn t_value_scan_agrees_with_the_pattern_on_short_tails() {
    let pattern = Regex::new(r"(max t = )[+-][0-9]{0,5}.[0-9]{0,5}").unwrap();
    let alphabet = ['+', '-', '0', '1', '7', '.', 'e', 'E', 'x', ' ', '\n', 'é'];
    let mut length = 0;
    while length <= 4 {
        let total = 12usize.pow(length);
        let mut index = 0;
        while index < total {
            let mut tail = String::new();
            let mut rest = index;
            let mut position = 0;
            while position < length {
                tail.push(alphabet[rest % 12]);
                rest /= 12;
                position += 1;
            }
            check_against_pattern(&pattern, &tail);
            index += 1;
        }
        length += 1;
    }
}

#[test]
fn t_value_scan_agrees_with_the_pattern_on_long_tails() {
    let pattern = Regex::new(r"(max t = )[+-][0-9]{0,5}.[0-9]{0,5}").unwrap();
    let pieces = ["+", "-", "0", "12", "99999", ".", "e", "E", "7", "000", " ", "x", "\n"];
    let mut state: u64 = 3;
    let mut round = 0;
    while round < 20000 {
        let mut tail = String::new();
        state = state.wrapping_mul(6364136223846793005).wrapping_add(1442695040888963407);
        tail.push_str(pieces[((state >> 33) % 2) as usize]);
        let mut count = 0;
        while count < 5 {
            state = state.wrapping_mul(6364136223846793005).wrapping_add(1442695040888963407);
            tail.push_str(pieces[((state >> 33) % 13) as usize]);
            count += 1;
        }
        check_against_pattern(&pattern, &tail);
        round += 1;
    }
}
