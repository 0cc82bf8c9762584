use whisburn_engine::repetition::detect_and_fix_repetitions;

#[test]
fn collapses_long_char_runs() {
    let input = "a".repeat(25);
    let out = detect_and_fix_repetitions(&input, 20);
    assert_eq!(out, "a");
}

#[test]
fn collapses_repeated_word_pattern() {
    let input = "hello ".repeat(25);
    let out = detect_and_fix_repetitions(&input, 20);
    assert_eq!(out, "hello ");
}

#[test]
fn leaves_short_repeats() {
    let input = "hello hello world";
    let out = detect_and_fix_repetitions(input, 20);
    assert_eq!(out, input);
}

#[test]
fn collapses_tail_after_asr_tag() {
    let input = format!("language English<asr_text>{}", "hi ".repeat(25));
    let out = detect_and_fix_repetitions(input.trim(), 20);
    let tail = out.split("<asr_text>").nth(1).unwrap_or("");
    assert_eq!(tail, "hi hi");
}

#[test]
fn run_of_exactly_threshold_is_kept() {
    let input = "b".repeat(20);
    assert_eq!(detect_and_fix_repetitions(&input, 20), input);
}

#[test]
fn run_one_over_threshold_collapses() {
    let input = format!("x{}y", "b".repeat(21));
    assert_eq!(detect_and_fix_repetitions(&input, 20), "xby");
}

#[test]
fn pattern_repeated_in_the_middle_collapses_and_rest_is_kept() {
    let input = format!("start {}end", "ab".repeat(3));
    assert_eq!(detect_and_fix_repetitions(&input, 3), "start abend");
}

#[test]
fn empty_text_stays_empty() {
    assert_eq!(detect_and_fix_repetitions("", 20), "");
}

#[test]
fn output_is_never_longer_than_input() {
    for input in ["abcabcabcabc", "zzzzzzzzz", "a b a b a b", "xyz"] {
        for t in 1..5 {
            let out = detect_and_fix_repetitions(input, t);
            assert!(out.chars().count() <= input.chars().count());
        }
    }
}
