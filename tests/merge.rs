use overlapmerge::overlap::{check_for_immediate_overlap, merge, overlap_merge_two_string, MergeResult};

fn merged(s: &str) -> MergeResult {
    MergeResult::Merged(s.to_string())
}

#[test]
fn test_merge_a() {
    let str_a = r#"abc"#;
    let str_b = r#"abcde"#;

    let om_res = overlap_merge_two_string(&str_a, &str_b);
    let om_res_str = om_res.as_str();
    assert_eq!(om_res_str, str_b);
}

#[test]
fn test_merge_b() {
    let str_a = r#"abc"#;
    let str_b = r#"abcde"#;

    let om_res = overlap_merge_two_string(&str_b, &str_a);
    let om_res_str = om_res.as_str();
    assert_eq!(om_res_str, str_b);
}

#[test]
fn test_merge_c() {
    let str_a = r#"abcx"#;
    let str_b = r#"abcde"#;

    let om_res = overlap_merge_two_string(&str_b, &str_a);
    let om_res_str = om_res.as_str();
    assert_eq!(om_res_str, "");
}

#[test]
fn test_merge_d() {
    let str_a = r#"xabc"#;
    let str_b = r#"abcde"#;

    let om_res = overlap_merge_two_string(&str_b, &str_a);
    let om_res_str = om_res.as_str();
    assert_eq!(om_res_str, "xabcde");
}

#[test]
fn test_merge_e() {
    let str_a = r#"ðŸ™‚abc"#;
    let str_b = r#"abcde"#;

    let om_res = overlap_merge_two_string(&str_b, &str_a);
    let om_res_str = om_res.as_str();
    assert_eq!(om_res_str, "ðŸ™‚abcde");
}

#[test]
fn test_merge_f() {
    let str_a = r#"cdef"#;
    let str_b = r#"abcde"#;

    let om_res = overlap_merge_two_string(&str_b, &str_a);
    let om_res_str = om_res.as_str();
    assert_eq!(om_res_str, "abcdef");
}

#[test]
fn identical_inputs_merge_to_themselves() {
    assert_eq!(merge("hello", "hello"), merged("hello"));
    assert_eq!(merge("a", "a"), merged("a"));
}

#[test]
fn order_of_inputs_does_not_change_the_merge() {
    assert_eq!(merge("xabc", "abcde"), merge("abcde", "xabc"));
    assert_eq!(merge("cdef", "abcde"), merge("abcde", "cdef"));
    assert_eq!(merge("abcx", "abcde"), merge("abcde", "abcx"));
    assert_eq!(merge("abcd", "cdxy"), merge("cdxy", "abcd"));
}

#[test]
fn two_way_tie_puts_the_first_input_first() {
    assert_eq!(merge("ab", "ba"), merged("aba"));
    assert_eq!(merge("ba", "ab"), merged("bab"));
}

#[test]
fn contained_input_gives_the_longer_one() {
    assert_eq!(merge("bcd", "abcde"), merged("abcde"));
    assert_eq!(merge("abcde", "bcd"), merged("abcde"));
    assert_eq!(merge("cde", "abcde"), merged("abcde"));
    assert_eq!(merge("ab", "abcde"), merged("abcde"));
}

#[test]
fn affix_overlap_of_two_phrases() {
    assert_eq!(merge("hello world", "world peace"), merged("hello world peace"));
}

#[test]
fn shared_start_is_no_overlap() {
    assert_eq!(merge("abcx", "abcde"), MergeResult::NoOverlap);
    assert_eq!(merge("abcde", "abcx"), MergeResult::NoOverlap);
}

#[test]
fn disjoint_affix_bridge() {
    assert_eq!(merge("xabc", "abcde"), merged("xabcde"));
}

#[test]
fn multi_byte_characters_stay_whole() {
    assert_eq!(merge("🙂abc", "abcde"), merged("🙂abcde"));
    assert_eq!(merge("é🙂", "🙂ü"), merged("é🙂ü"));
    assert_eq!(merge("ab🙂", "🙂🙂c"), merged("ab🙂🙂c"));
}

#[test]
fn largest_bridge_wins() {
    assert_eq!(merge("aa", "aaa"), merged("aaa"));
    assert_eq!(merge("xaba", "abay"), merged("xabay"));
    assert_eq!(merge("abay", "xaba"), merged("xabay"));
}

#[test]
fn bridge_of_one_character() {
    assert_eq!(merge("ab", "bc"), merged("abc"));
    assert_eq!(merge("xyza", "abcd"), merged("xyzabcd"));
    assert_eq!(merge("abcd", "zzxa"), merged("zzxabcd"));
}

#[test]
fn empty_inputs() {
    assert_eq!(merge("", "xyz"), merged("xyz"));
    assert_eq!(merge("xyz", ""), merged("xyz"));
    assert_eq!(merge("", ""), merged(""));
}

#[test]
fn no_overlap_prints_as_empty_text() {
    assert_eq!(overlap_merge_two_string("abc", "xyz"), "");
    assert_eq!(overlap_merge_two_string("hello world", "world peace"), "hello world peace");
}

#[test]
fn merged_length_counts_the_shared_part_once() {
    let r = overlap_merge_two_string("abcdef", "defghij");
    assert_eq!(r.chars().count(), 6 + 7 - 3);
    assert_eq!(r, "abcdefghij");
}

#[test]
fn immediate_overlap_with_cut_front() {
    assert_eq!(
        check_for_immediate_overlap("abc", "abcdef", "xy", ""),
        Some("xyabcdef".to_string())
    );
    assert_eq!(check_for_immediate_overlap("bc", "abcd", "x", ""), None);
}

#[test]
fn immediate_overlap_with_cut_back() {
    assert_eq!(
        check_for_immediate_overlap("cd", "abcd", "", "ef"),
        Some("abcdef".to_string())
    );
    assert_eq!(check_for_immediate_overlap("bc", "abcd", "", "e"), None);
}

#[test]
fn immediate_overlap_with_nothing_cut() {
    assert_eq!(check_for_immediate_overlap("bc", "abcd", "", ""), Some("abcd".to_string()));
    assert_eq!(check_for_immediate_overlap("abcd", "bc", "", ""), Some("abcd".to_string()));
    assert_eq!(check_for_immediate_overlap("abcd", "abcd", "", ""), Some("abcd".to_string()));
    assert_eq!(check_for_immediate_overlap("xy", "abcd", "", ""), None);
}

#[test]
fn immediate_overlap_with_both_ends_cut() {
    assert_eq!(check_for_immediate_overlap("bc", "abcd", "x", "y"), None);
}

#[test]
fn immediate_overlap_of_identical_pieces_ignores_cuts() {
    assert_eq!(check_for_immediate_overlap("ab", "ab", "x", "y"), Some("ab".to_string()));
    assert_eq!(check_for_immediate_overlap("ab", "ab", "x", ""), Some("ab".to_string()));
    assert_eq!(check_for_immediate_overlap("ab", "ab", "", "y"), Some("ab".to_string()));
}
