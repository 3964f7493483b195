use litgrep::{chars_of, get_matched_lines_display, render, MatchResult, RegExpr};

#[test]
fn get_matched_lines_display_one_line() {
    let buf = "ffoof";
    let pattern = "foo";

    let re = RegExpr::new(pattern);
    let res = re.match_buf(buf);
    if let MatchResult::Found(matched_lines) = res {
        assert_eq!(get_matched_lines_display(&matched_lines), vec!["f<foo>f"]);
    } else {
        assert!(false);
    }
}

#[test]
fn get_matched_lines_display_one_line_many() {
    let buf = "fooffoofofoo";
    let pattern = "foo";

    let re = RegExpr::new(pattern);
    let res = re.match_buf(buf);
    if let MatchResult::Found(matched_lines) = res {
        assert_eq!(
            get_matched_lines_display(&matched_lines),
            vec!["<foo>f<foo>fo<foo>"]
        );
    } else {
        assert!(false);
    }
}

#[test]
fn get_matched_lines_display_many_lines_match_some_only() {
    let buf = "bar\nfoo";
    let pattern = "foo";

    let re = RegExpr::new(pattern);
    let res = re.match_buf(buf);
    if let MatchResult::Found(matched_lines) = res {
        assert_eq!(get_matched_lines_display(&matched_lines), vec!["<foo>"]);
    } else {
        assert!(false);
    }
}

#[test]
fn covering_spans_leave_nothing_unwrapped() {
    let re = RegExpr::new("foo");
    let m = re.match_line("foofoofoo", 1).unwrap();
    assert_eq!(render(&m), "<foo><foo><foo>");
}

#[test]
fn several_lines_render_in_order() {
    let re = RegExpr::new("foo");
    if let MatchResult::Found(lines) = re.match_buf("fooffoo\nabfofooF\nngfoofoofooff") {
        assert_eq!(
            get_matched_lines_display(&lines),
            vec!["<foo>f<foo>", "abfo<foo>F", "ng<foo><foo><foo>ff"]
        );
    } else {
        assert!(false);
    }
}

#[test]
fn render_keeps_multibyte_characters() {
    let re = RegExpr::new("\u{e9}t\u{e9}");
    let m = re.match_line("l'\u{e9}t\u{e9} \u{e0}", 1).unwrap();
    assert_eq!(render(&m), "l'<\u{e9}t\u{e9}> \u{e0}");
}

#[test]
fn chars_of_keeps_order() {
    assert_eq!(chars_of("a\u{e9}b"), vec!['a', '\u{e9}', 'b']);
    assert_eq!(chars_of(""), Vec::<char>::new());
}
