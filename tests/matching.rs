use litgrep::{split_lines, LineMatch, MatchInstance, MatchResult, RegExpr};

#[test]
fn match_empty_buf() {
    let buf = "";
    let pattern = "foo";

    let re = RegExpr::new(pattern);
    assert_eq!(re.match_buf(buf), MatchResult::NotFound);
}

#[test]
fn match_one() {
    let buf = "ffoof";
    let pattern = "foo";

    let re = RegExpr::new(pattern);
    assert_eq!(
        re.match_buf(buf),
        MatchResult::Found(vec![LineMatch {
            line: buf.to_string(),
            lineno: 1,
            matches: vec![MatchInstance::new(1, 3)]
        }])
    );
}

#[test]
fn match_many_lines() {
    let buf = "fooffoo\nabfofooF\nngfoofoofooff";
    let pattern = "foo";

    let re = RegExpr::new(pattern);
    assert_eq!(
        re.match_buf(buf),
        MatchResult::Found(vec![
            LineMatch {
                line: buf.split("\n").next().unwrap().to_string(),
                lineno: 1,
                matches: vec![MatchInstance::new(0, 2), MatchInstance::new(4, 6)]
            },
            LineMatch {
                line: buf.split("\n").nth(1).unwrap().to_string(),
                lineno: 2,
                matches: vec![MatchInstance::new(4, 6)]
            },
            LineMatch {
                line: buf.split("\n").last().unwrap().to_string(),
                lineno: 3,
                matches: vec![
                    MatchInstance::new(2, 4),
                    MatchInstance::new(5, 7),
                    MatchInstance::new(8, 10)
                ]
            }
        ])
    );
}

#[test]
fn scanning_twice_gives_the_same_outcome() {
    let re = RegExpr::new("foo");
    let buf = "fooffoo\nabfofooF\nngfoofoofooff";
    assert_eq!(re.match_buf(buf), re.match_buf(buf));
}

#[test]
fn empty_buffer_not_found_for_other_patterns() {
    assert_eq!(RegExpr::new("x").match_buf(""), MatchResult::NotFound);
    assert_eq!(RegExpr::new("a longer one").match_buf(""), MatchResult::NotFound);
}

#[test]
fn line_equal_to_pattern_has_one_whole_span() {
    let re = RegExpr::new("foo");
    let m = re.match_line("foo", 7).unwrap();
    assert_eq!(m.lineno, 7);
    assert_eq!(m.line, "foo");
    assert_eq!(m.matches, vec![MatchInstance::new(0, 2)]);
}

#[test]
fn spans_increase_without_overlap() {
    let re = RegExpr::new("foo");
    let m = re.match_line("fooffoofofoo", 1).unwrap();
    assert_eq!(
        m.matches,
        vec![MatchInstance::new(0, 2), MatchInstance::new(4, 6), MatchInstance::new(9, 11)]
    );
    for w in m.matches.windows(2) {
        assert!(w[0].end_indx < w[1].start_indx);
    }
}

#[test]
fn overlapping_occurrences_are_skipped() {
    let re = RegExpr::new("aa");
    assert_eq!(re.match_line("aaa", 1).unwrap().matches, vec![MatchInstance::new(0, 1)]);
    assert_eq!(
        re.match_line("aaaa", 1).unwrap().matches,
        vec![MatchInstance::new(0, 1), MatchInstance::new(2, 3)]
    );
    let re = RegExpr::new("aba");
    assert_eq!(
        re.match_line("ababa aba", 1).unwrap().matches,
        vec![MatchInstance::new(0, 2), MatchInstance::new(6, 8)]
    );
}

#[test]
fn restart_after_partial_match() {
    let re = RegExpr::new("aab");
    assert_eq!(re.match_line("aaab", 1).unwrap().matches, vec![MatchInstance::new(1, 3)]);
}

#[test]
fn line_without_match_gives_none() {
    let re = RegExpr::new("foo");
    assert_eq!(re.match_line("fo", 1), None);
    assert_eq!(re.match_line("", 1), None);
}

#[test]
fn empty_pattern_matches_nowhere() {
    let re = RegExpr::new("");
    assert_eq!(re.match_buf("abc\n\ndef"), MatchResult::NotFound);
    assert_eq!(re.match_line("abc", 1), None);
}

#[test]
fn offsets_count_characters() {
    let re = RegExpr::new("foo");
    let m = re.match_line("h\u{e9}foo", 1).unwrap();
    assert_eq!(m.matches, vec![MatchInstance::new(2, 4)]);
}

#[test]
fn unmatched_lines_are_omitted_and_numbers_kept() {
    let re = RegExpr::new("foo");
    assert_eq!(
        re.match_buf("bar\nfoo"),
        MatchResult::Found(vec![LineMatch {
            line: "foo".to_string(),
            lineno: 2,
            matches: vec![MatchInstance::new(0, 2)]
        }])
    );
    assert_eq!(
        re.match_buf("x\n\nafoo\n"),
        MatchResult::Found(vec![LineMatch {
            line: "afoo".to_string(),
            lineno: 3,
            matches: vec![MatchInstance::new(1, 3)]
        }])
    );
}

#[test]
fn crlf_terminators_are_not_part_of_lines() {
    let re = RegExpr::new("o\r");
    assert_eq!(re.match_buf("foo\r\nbar\r\n"), MatchResult::NotFound);
    let re = RegExpr::new("foo");
    assert_eq!(
        re.match_buf("foo\r\n"),
        MatchResult::Found(vec![LineMatch {
            line: "foo".to_string(),
            lineno: 1,
            matches: vec![MatchInstance::new(0, 2)]
        }])
    );
}

#[test]
fn read_error_is_passed_on() {
    let re = RegExpr::new("foo");
    assert_eq!(
        re.match_read(Err("No such file or directory (os error 2)".to_string())),
        MatchResult::Error("No such file or directory (os error 2)".to_string())
    );
}

#[test]
fn read_content_is_scanned() {
    let re = RegExpr::new("foo");
    assert_eq!(re.match_read(Ok("foo".to_string())), re.match_buf("foo"));
    assert_eq!(re.match_read(Ok(String::new())), MatchResult::NotFound);
}

#[test]
fn lines_are_split_on_terminators() {
    assert_eq!(split_lines(""), Vec::<String>::new());
    assert_eq!(split_lines("\n"), vec![String::new()]);
    assert_eq!(split_lines("a\r\nb\n"), vec!["a".to_string(), "b".to_string()]);
    assert_eq!(split_lines("a\n\nb"), vec!["a".to_string(), String::new(), "b".to_string()]);
    assert_eq!(split_lines("a\r"), vec!["a\r".to_string()]);
    assert_eq!(split_lines("\r\n\r"), vec![String::new(), "\r".to_string()]);
}
