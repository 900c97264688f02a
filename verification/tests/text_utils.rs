use balchug::text::{get_scenario_chars, mark_str, scenario_letters};

#[test]
fn test_str_spans_processing() {
    let txt = "Нормальный text. **Жирный** текст";
    let spans = mark_str(txt);
    println!("{:?}", spans);
    assert_eq!(spans.len(), 3);
    assert_eq!(spans[0], (0, "Нормальный text. "));
    assert_eq!(spans[1], (1, "Жирный"));
    assert_eq!(spans[2], (0, " текст"));
}

#[test]
fn test_whole_bold() {
    let txt = "**Only bold**";
    let spans = mark_str(txt);
    println!("{:?}", spans);
    assert_eq!(spans.len(), 1);
    assert_eq!(spans[0], (1, "Only bold"));
}

#[test]
fn plain_text_is_one_normal_span() {
    let spans = mark_str("no markup here");
    assert_eq!(spans, vec![(0, "no markup here")]);
}

#[test]
fn single_character_spans_are_dropped() {
    // a span holding one character is not reported
    assert_eq!(mark_str("a**b**"), Vec::<(usize, &str)>::new());
    assert_eq!(mark_str("x"), Vec::<(usize, &str)>::new());
    assert_eq!(mark_str(""), Vec::<(usize, &str)>::new());
}

#[test]
fn unterminated_bold_runs_to_the_end() {
    assert_eq!(mark_str("ab **cd"), vec![(0, "ab "), (1, "cd")]);
}

#[test]
fn triple_star_overlaps() {
    assert_eq!(mark_str("ab***"), vec![(0, "ab"), (1, "ab*")]);
}

#[test]
fn scenario_chars_are_sorted_and_unique() {
    let texts = vec!["cab".to_string(), "bad".to_string()];
    assert_eq!(get_scenario_chars(&texts), "abcd");
    let reordered = vec!["dab".to_string(), "bc".to_string(), "a".to_string()];
    assert_eq!(get_scenario_chars(&reordered), "abcd");
    assert_eq!(get_scenario_chars(&[]), "");
}

#[test]
fn scenario_letters_each_once() {
    let texts = vec!["мама".to_string(), "ам".to_string()];
    let letters = scenario_letters(&texts);
    let mut chars: Vec<char> = letters.chars().collect();
    chars.sort();
    assert_eq!(chars, vec!['а', 'м']);
}
