use stybulate::text::{
    count_lines, count_without_trailing, find_first, from_chars, join, largest_of,
    line_widths, matches_at, push_repeated, push_spaces, replace_first_occurrence, split_lines,
    text_width, to_chars, trim_trailing, white_space_flags, widest_line,
};

fn strings(v: &[&str]) -> Vec<String> {
    v.iter().map(|s| String::from(*s)).collect()
}

#[test]
fn lines_are_split_at_line_breaks() {
    assert_eq!(strings(&[""]), split_lines(""));
    assert_eq!(strings(&["a"]), split_lines("a"));
    assert_eq!(strings(&["a", ""]), split_lines("a\n"));
    assert_eq!(strings(&["", "a"]), split_lines("\na"));
    assert_eq!(strings(&["foo bar", "baz", "bau"]), split_lines("foo bar\nbaz\nbau"));
    assert_eq!(strings(&["", "", ""]), split_lines("\n\n"));
}

#[test]
fn lines_are_one_more_than_line_breaks() {
    assert_eq!(1, count_lines(""));
    assert_eq!(1, count_lines("abc"));
    assert_eq!(3, count_lines("foo bar\nbaz\nbau"));
    assert_eq!(3, count_lines("string with \nnewlines and some \ttabs\t\n\t"));
    for s in ["", "a", "\n", "a\nb", "a\n\nb\n"] {
        assert_eq!(s.matches('\n').count() + 1, count_lines(s));
        assert_eq!(s.split('\n').map(String::from).collect::<Vec<String>>(), split_lines(s));
    }
}

#[test]
fn joining_the_lines_gives_the_text_back() {
    for s in ["", "a", "\n", "a\nb", "a\n\nb\n", "spam\neggs"] {
        assert_eq!(s, join(&split_lines(s), "\n"));
    }
}

#[test]
fn join_puts_the_separator_between_neighbours() {
    assert_eq!("", join(&strings(&[]), ", "));
    assert_eq!("a", join(&strings(&["a"]), ", "));
    assert_eq!("a, b, c", join(&strings(&["a", "b", "c"]), ", "));
    assert_eq!(", ", join(&strings(&["", ""]), ", "));
}

#[test]
fn width_counts_columns_of_the_screen() {
    assert_eq!(0, text_width(""));
    assert_eq!(4, text_width("spam"));
    assert_eq!(4, text_width("配列"));
    assert_eq!(16, text_width("スタイルで集計！"));
    assert_eq!(5, text_width("Ответ"));
    assert_eq!(1, text_width("e\u{301}"));
}

#[test]
fn width_of_a_text_is_that_of_its_widest_line() {
    assert_eq!(0, text_width(""));
    assert_eq!(9, text_width("more\nspam eggs"));
    assert_eq!(9, text_width("more spam\n& eggs"));
    assert_eq!(4, text_width("a\n配列\nabc"));
    assert_eq!(0, widest_line(&strings(&[])));
    assert_eq!(3, widest_line(&strings(&["a", "abc", "ab"])));
}

#[test]
fn trailing_white_space_is_trimmed() {
    assert_eq!("", trim_trailing(""));
    assert_eq!("", trim_trailing("   "));
    assert_eq!("a", trim_trailing("a"));
    assert_eq!("  a b", trim_trailing("  a b  \t"));
    assert_eq!("a", trim_trailing("a\u{a0}\u{3000} \n"));
    assert_eq!("a\u{1b}[0m", trim_trailing("a\u{1b}[0m"));
    for s in ["", " a ", "a\t\n", "\u{2003}x\u{2003}", "│ spam │  "] {
        assert_eq!(s.trim_end(), trim_trailing(s));
    }
}

#[test]
fn spaces_and_repeats_are_appended() {
    let mut s = String::from("a");
    push_spaces(&mut s, 3);
    assert_eq!("a   ", s);
    push_spaces(&mut s, 0);
    assert_eq!("a   ", s);
    push_repeated(&mut s, "═╪", 2);
    assert_eq!("a   ═╪═╪", s);
    push_repeated(&mut s, "x", 0);
    assert_eq!("a   ═╪═╪", s);
}

#[test]
fn the_first_occurrence_is_found() {
    let hay = to_chars("abcabc");
    assert_eq!(Some(1), find_first(&hay, &to_chars("bc")));
    assert_eq!(Some(0), find_first(&hay, &to_chars("")));
    assert_eq!(Some(0), find_first(&hay, &to_chars("abcabc")));
    assert_eq!(None, find_first(&hay, &to_chars("abcabca")));
    assert_eq!(None, find_first(&hay, &to_chars("cb")));
    assert_eq!(Some(0), find_first(&to_chars(""), &to_chars("")));
    assert_eq!(Some(3), find_first(&to_chars("aaab"), &to_chars("b")));
}

#[test]
fn only_the_first_occurrence_is_replaced() {
    assert_eq!("aXcabc", replace_first_occurrence("abcabc", "b", "X"));
    assert_eq!("abcabc", replace_first_occurrence("abcabc", "x", "X"));
    assert_eq!("Xabc", replace_first_occurrence("abc", "", "X"));
    assert_eq!("  spam \u{1b}[31meggs\u{1b}[0m", replace_first_occurrence("  spam eggs", "spam eggs", "spam \u{1b}[31meggs\u{1b}[0m"));
    assert_eq!("配X", replace_first_occurrence("配列", "列", "X"));
}

#[test]
fn characters_go_into_a_text_and_back() {
    let v = to_chars("配列 ab");
    assert_eq!(vec!['配', '列', ' ', 'a', 'b'], v);
    assert_eq!("配列 ab", from_chars(&v, 0, 5));
    assert_eq!("列 a", from_chars(&v, 1, 4));
    assert_eq!("", from_chars(&v, 2, 2));
}

#[test]
fn the_largest_number_is_found() {
    assert_eq!(0, largest_of(&vec![]));
    assert_eq!(0, largest_of(&vec![0, 0]));
    assert_eq!(7, largest_of(&vec![7]));
    assert_eq!(9, largest_of(&vec![4, 9, 9, 3]));
    assert_eq!(usize::MAX, largest_of(&vec![1, usize::MAX, 2]));
}

#[test]
fn each_line_is_measured() {
    assert_eq!(Vec::<usize>::new(), line_widths(&strings(&[])));
    assert_eq!(vec![1, 4, 0, 3], line_widths(&strings(&["a", "配列", "", "abc"])));
}

#[test]
fn white_space_is_flagged() {
    assert_eq!(
        vec![true, false, true, true, false, true, true],
        white_space_flags(&to_chars(" a\t\u{a0}│\u{3000}\n"))
    );
    assert_eq!(Vec::<bool>::new(), white_space_flags(&to_chars("")));
}

#[test]
fn the_set_flags_at_the_end_are_left_out() {
    assert_eq!(0, count_without_trailing(&vec![]));
    assert_eq!(0, count_without_trailing(&vec![true, true]));
    assert_eq!(2, count_without_trailing(&vec![true, false]));
    assert_eq!(2, count_without_trailing(&vec![true, false, true, true]));
    assert_eq!(3, count_without_trailing(&vec![false, true, false]));
}

#[test]
fn an_occurrence_is_told_at_each_position() {
    let hay = to_chars("abcabc");
    assert!(matches_at(&hay, &to_chars("abc"), 0));
    assert!(!matches_at(&hay, &to_chars("abc"), 1));
    assert!(matches_at(&hay, &to_chars("abc"), 3));
    assert!(!matches_at(&hay, &to_chars("abc"), 4));
    assert!(matches_at(&hay, &to_chars(""), 6));
    assert!(!matches_at(&hay, &to_chars(""), 7));
    assert!(!matches_at(&hay, &to_chars("abcabcd"), 0));
}
