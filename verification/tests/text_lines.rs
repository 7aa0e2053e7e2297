use ztln::text::{chars_of, ranking, split_lines, str_eq, Rank};

#[test]
fn lines_end_at_line_feeds() {
    assert_eq!(Vec::<String>::new(), split_lines(""));
    assert_eq!(vec![""], split_lines("\n"));
    assert_eq!(vec!["a"], split_lines("a"));
    assert_eq!(vec!["a"], split_lines("a\n"));
    assert_eq!(vec!["a", "", "b"], split_lines("a\n\nb"));
    assert_eq!(vec!["a", "b", ""], split_lines("a\nb\n\n"));
    assert_eq!(vec!["", "topic", "main"], split_lines("\ntopic\nmain"));
}

#[test]
fn lines_lose_the_carriage_return_before_a_line_feed() {
    assert_eq!(vec!["a", "b"], split_lines("a\r\nb\r\n"));
    assert_eq!(vec!["a\r"], split_lines("a\r"));
    assert_eq!(vec!["a\r", "b"], split_lines("a\r\r\nb"));
    assert_eq!(vec!["\u{e9}t\u{e9}", "\u{4e2d}"], split_lines("\u{e9}t\u{e9}\r\n\u{4e2d}"));
}

#[test]
fn lines_are_those_of_the_standard_library() {
    let texts = ["", "\n", "a", "a\n", "a\n\nb", "a\r\nb\r\n", "a\r", "\r\n", "x\ny\nz\n\n", "\n\n\n"];
    for text in texts {
        let expected: Vec<String> = text.lines().map(|l| l.to_string()).collect();
        assert_eq!(expected, split_lines(text));
    }
}

#[test]
fn names_are_ranked_by_code_point() {
    assert_eq!(Rank::Same, ranking("", ""));
    assert_eq!(Rank::Same, ranking("topicA", "topicA"));
    assert_eq!(Rank::Before, ranking("topicA", "topicB"));
    assert_eq!(Rank::After, ranking("topicB", "topicA"));
    assert_eq!(Rank::Before, ranking("topic", "topicA"));
    assert_eq!(Rank::After, ranking("topicA", "topic"));
    assert_eq!(Rank::Before, ranking("", "a"));
    assert_eq!(Rank::Before, ranking("Z", "a"));
    assert_eq!(Rank::Before, ranking("z", "\u{e9}"));
    assert_eq!(Rank::After, ranking("\u{1F600}", "\u{ffff}"));
}

#[test]
fn names_are_ranked_as_the_standard_library_orders_them() {
    let names = ["", "a", "ab", "b", "B", "_", "0", "\u{e9}", "\u{4e2d}", "\u{1F600}", "a\u{e9}", "topic1"];
    for a in names {
        for b in names {
            let expected = if a < b {
                Rank::Before
            } else if a == b {
                Rank::Same
            } else {
                Rank::After
            };
            assert_eq!(expected, ranking(a, b));
            assert_eq!(a == b, str_eq(a, b));
        }
    }
}

#[test]
fn characters_come_out_in_order() {
    assert_eq!(vec!['a', '\u{e9}', '\n', '\u{1F600}'], chars_of("a\u{e9}\n\u{1F600}"));
    assert_eq!(Vec::<char>::new(), chars_of(""));
}
