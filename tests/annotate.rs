use file_viewer::annotate::{word_flags_of, Annotator, Mark, PassState, Run, Style};

fn texts(line: &str, runs: &[Run]) -> Vec<String> {
    let cs: Vec<char> = line.chars().collect();
    runs.iter().map(|r| cs[r.start..r.end].iter().collect()).collect()
}

fn annotate(hint: &str, query: &str, current: usize, syntax: bool, line: &str) -> Vec<Run> {
    let a = Annotator::new(hint, query, current, syntax);
    let mut st = PassState::new();
    a.annotate_line(line, &mut st)
}

#[test]
fn lossless_partition_on_mixed_lines() {
    let lines = [
        "",
        "fn main() { let x = \"a(b\" + 42; } // done",
        "def f(): return None  # note",
        "\"unterminated string (",
        "héllo wörld_1 {[()]}",
        "   \t ",
        "FooBar foobar FOO",
    ];
    for hint in ["rs", "py", "js", "toml", "txt"] {
        for query in ["", "o", "foo", "xyz"] {
            for syntax in [true, false] {
                let a = Annotator::new(hint, query, 1, syntax);
                let mut st = PassState::new();
                for line in lines.iter() {
                    let runs = a.annotate_line(line, &mut st);
                    assert_eq!(texts(line, &runs).concat(), *line);
                    for r in runs.iter() {
                        assert!(r.start < r.end);
                    }
                }
            }
        }
    }
}

#[test]
fn bracket_coloring_cycle() {
    let runs = annotate("rs", "", 0, true, "((()))");
    let styles: Vec<Style> = runs.iter().map(|r| r.style).collect();
    assert_eq!(
        styles,
        vec![
            Style::Bracket(0),
            Style::Bracket(1),
            Style::Bracket(2),
            Style::Bracket(2),
            Style::Bracket(1),
            Style::Bracket(0)
        ]
    );
}

#[test]
fn bracket_palette_wraps_after_five() {
    let runs = annotate("txt", "", 0, true, "((((((");
    let styles: Vec<Style> = runs.iter().map(|r| r.style).collect();
    assert_eq!(styles[4], Style::Bracket(4));
    assert_eq!(styles[5], Style::Bracket(0));
}

#[test]
fn depth_floor_at_zero() {
    let a = Annotator::new("rs", "", 0, true);
    let mut st = PassState::new();
    let runs = a.annotate_line(")))", &mut st);
    assert_eq!(runs.len(), 3);
    for r in runs.iter() {
        assert_eq!(r.style, Style::Bracket(0));
    }
    assert_eq!(st.depth, 0);
}

#[test]
fn depth_carries_across_lines_of_a_pass() {
    let a = Annotator::new("rs", "", 0, true);
    let mut st = PassState::new();
    let first = a.annotate_line("fn f() {", &mut st);
    assert_eq!(first.last().unwrap().style, Style::Bracket(0));
    assert_eq!(st.depth, 1);
    let second = a.annotate_line("    g(x)", &mut st);
    let brackets: Vec<Style> = second
        .iter()
        .filter(|r| matches!(r.style, Style::Bracket(_)))
        .map(|r| r.style)
        .collect();
    assert_eq!(brackets, vec![Style::Bracket(1), Style::Bracket(1)]);
    let third = a.annotate_line("}", &mut st);
    assert_eq!(third[0].style, Style::Bracket(0));
    assert_eq!(st.depth, 0);
}

#[test]
fn tokens_are_classified() {
    let line = "let n = 42; if TRUE { null }";
    let runs = annotate("rs", "", 0, true, line);
    let t = texts(line, &runs);
    let find = |w: &str| runs[t.iter().position(|x| x == w).unwrap()].style;
    assert_eq!(find("let"), Style::Keyword);
    assert_eq!(find("if"), Style::Keyword);
    assert_eq!(find("n"), Style::Text);
    assert_eq!(find("42"), Style::Number);
    assert_eq!(find("TRUE"), Style::Literal);
    assert_eq!(find("null"), Style::Literal);
    assert_eq!(find(";"), Style::Text);
    assert_eq!(find(" "), Style::Text);
}

#[test]
fn unicode_letters_stay_in_one_word() {
    let line = "héllo wörld_1";
    let runs = annotate("txt", "", 0, true, line);
    assert_eq!(texts(line, &runs), vec!["héllo", " ", "wörld_1"]);
}

#[test]
fn comment_tail_is_one_run() {
    let line = "let x = 1; // fn (x)";
    let runs = annotate("rs", "", 0, true, line);
    let last = runs.last().unwrap();
    assert_eq!(last.style, Style::Comment);
    assert_eq!(texts(line, &runs).last().unwrap(), "// fn (x)");
    assert_eq!(runs[0].style, Style::Keyword);
}

#[test]
fn python_comment_prefix() {
    let line = "x = 1 # note";
    let runs = annotate("py", "", 0, true, line);
    assert_eq!(runs.last().unwrap().style, Style::Comment);
    assert_eq!(texts(line, &runs).last().unwrap(), "# note");
    let plain = annotate("txt", "", 0, true, line);
    assert!(plain.iter().all(|r| r.style != Style::Comment));
}

#[test]
fn comment_is_not_searched() {
    let line = "foo // foo";
    let a = Annotator::new("rs", "foo", 0, true);
    let mut st = PassState::new();
    let runs = a.annotate_line(line, &mut st);
    assert_eq!(st.matches, 1);
    assert_eq!(runs.iter().filter(|r| r.mark != Mark::Clear).count(), 1);
}

#[test]
fn string_literals() {
    let line = "x = \"a(b\" + \"open";
    let runs = annotate("js", "", 0, true, line);
    let t = texts(line, &runs);
    assert!(t.contains(&"\"a(b\"".to_string()));
    assert_eq!(t.last().unwrap(), "\"open");
    assert_eq!(runs.last().unwrap().style, Style::Str);
    assert!(runs.iter().all(|r| !matches!(r.style, Style::Bracket(_))));
}

#[test]
fn search_inside_string_keeps_string_style() {
    let line = "\"xaby\"";
    let runs = annotate("rs", "ab", 0, true, line);
    assert_eq!(texts(line, &runs), vec!["\"x", "ab", "y\""]);
    assert!(runs.iter().all(|r| r.style == Style::Str));
    assert_eq!(runs[1].mark, Mark::Current);
}

#[test]
fn case_insensitive_with_case_preserved() {
    let line = "FooBar foobar";
    let a = Annotator::new("txt", "foo", 5, false);
    let mut st = PassState::new();
    let runs = a.annotate_line(line, &mut st);
    let t = texts(line, &runs);
    let marked: Vec<String> = runs
        .iter()
        .zip(t.iter())
        .filter(|(r, _)| r.mark != Mark::Clear)
        .map(|(_, s)| s.clone())
        .collect();
    assert_eq!(marked, vec!["Foo", "foo"]);
    assert_eq!(st.matches, 2);
    assert_eq!(t, vec!["Foo", "Bar ", "foo", "bar"]);
}

#[test]
fn current_match_is_emphasized() {
    let line = "ab ab ab";
    let a = Annotator::new("txt", "AB", 1, false);
    let mut st = PassState::new();
    let runs = a.annotate_line(line, &mut st);
    let marks: Vec<Mark> = runs.iter().filter(|r| r.mark != Mark::Clear).map(|r| r.mark).collect();
    assert_eq!(marks, vec![Mark::Match, Mark::Current, Mark::Match]);
}

#[test]
fn match_ordinals_continue_across_lines() {
    let a = Annotator::new("txt", "x", 2, false);
    let mut st = PassState::new();
    let first = a.annotate_line("x x", &mut st);
    assert!(first.iter().all(|r| r.mark != Mark::Current));
    let second = a.annotate_line("x", &mut st);
    assert_eq!(second[0].mark, Mark::Current);
    assert_eq!(st.matches, 3);
}

#[test]
fn empty_query_equals_no_search() {
    let lines = ["fn a(b) { \"c\" } // d", "plain text", ""];
    for syntax in [true, false] {
        let a = Annotator::new("rs", "", 0, syntax);
        let mut st = PassState::new();
        let mut depth: usize = 0;
        for line in lines.iter() {
            let runs = a.annotate_line(line, &mut st);
            let cs: Vec<char> = line.chars().collect();
            let spans = a.split_spans(&cs, &mut depth);
            assert_eq!(runs, spans);
            assert_eq!(st.depth, depth);
            assert_eq!(st.matches, 0);
        }
    }
}

#[test]
fn syntax_off_is_one_plain_run() {
    let line = "fn x() // y";
    let runs = annotate("rs", "", 0, false, line);
    assert_eq!(runs.len(), 1);
    assert_eq!(runs[0].style, Style::Text);
    assert_eq!((runs[0].start, runs[0].end), (0, 11));
    assert!(annotate("rs", "", 0, false, "").is_empty());
}

fn lower(s: &str) -> Vec<Vec<char>> {
    s.chars().map(|c| c.to_lowercase().collect()).collect()
}

#[test]
fn unicode_query_marks_original_characters() {
    let line = "Élan élan";
    let runs = annotate("txt", "É", 0, false, line);
    assert_eq!(texts(line, &runs), vec!["É", "lan ", "é", "lan"]);
    assert_eq!(runs[0].mark, Mark::Current);
    assert_eq!(runs[2].mark, Mark::Match);
}

#[test]
fn annotate_from_given_flags_and_lower_case_forms() {
    let a = Annotator::new("rs", "", 0, true);
    let line: Vec<char> = "((()))".chars().collect();
    let words = vec![false; 6];
    let mut st = PassState::new();
    let runs = a.annotate_with(&line, &words, &lower("((()))"), &[], &mut st);
    let styles: Vec<Style> = runs.iter().map(|r| r.style).collect();
    assert_eq!(
        styles,
        vec![
            Style::Bracket(0),
            Style::Bracket(1),
            Style::Bracket(2),
            Style::Bracket(2),
            Style::Bracket(1),
            Style::Bracket(0)
        ]
    );
    let word: Vec<char> = "ab cd".chars().collect();
    let flags = word_flags_of(&word);
    assert_eq!(flags, vec![true, true, false, true, true]);
    let q = lower("CD");
    let mut st = PassState::new();
    let runs = a.annotate_with(&word, &flags, &lower("ab cd"), &q, &mut st);
    assert_eq!(runs.len(), 3);
    assert_eq!(runs[2].mark, Mark::Current);
    assert_eq!(st.matches, 1);
}
