use llmtrim::provider::truncate::{
    assemble, cut_short, fit_units, identifier_density, is_code_like, select_salient_sentences,
    select_scored, truncate_chars, Density, ELISION,
};

fn trunc(s: &str, max: usize) -> String {
    let mut s = s.to_string();
    truncate_chars(&mut s, max);
    s
}

fn texts(parts: &[&str]) -> Vec<String> {
    parts.iter().map(|p| p.to_string()).collect()
}

#[test]
fn short_input_untouched() {
    assert_eq!(trunc("Short description.", 300), "Short description.");
}

#[test]
fn cuts_at_sentence_boundary() {
    let input = "First sentence here. Second sentence is longer. Third one overflows the budget.";
    // Budget admits the first two sentences but not the third.
    assert_eq!(trunc(input, 50), "First sentence here. Second sentence is longer.…");
}

#[test]
fn falls_back_to_line_boundary() {
    // One run-on "sentence" spread over lines: sentence segmentation can't
    // fit a unit, line fallback can.
    let input = "alpha beta gamma\ndelta epsilon zeta\neta theta iota kappa lambda";
    assert_eq!(trunc(input, 40), "alpha beta gamma\ndelta epsilon zeta…");
}

#[test]
fn single_long_sentence_falls_back_to_words() {
    let input = "one two three four five six seven eight nine ten eleven twelve";
    let out = trunc(input, 30);
    assert!(out.ends_with('…'), "{out}");
    let body = out.trim_end_matches('…');
    // Never mid-word: the kept prefix must end on a word from the input.
    assert!(input.starts_with(body));
    assert!(body.split_whitespace().all(|w| input.contains(w)));
    assert_eq!(body, "one two three four five six");
}

#[test]
fn no_mid_word_cut() {
    let out = trunc("Avoid cutting important words in the middle always", 20);
    assert_eq!(out, "Avoid cutting…");
}

#[test]
fn japanese_sentences() {
    let input = "これは最初の文です。これは二番目の文です。これは三番目のとても長い文です。";
    // 10 + 11 = 21 chars for the first two sentences; third doesn't fit.
    assert_eq!(trunc(input, 25), "これは最初の文です。これは二番目の文です。…");
}

#[test]
fn identifier_sentence_survives_mid_text() {
    let input = "Launches a specialized agent to handle the task. \
        The agent runs in its own context and reports back when finished. \
        Valid types: general-purpose, code-explorer, test-runner. \
        Results may take a while to arrive depending on the task.";
    // Budget can't hold everything: the enumeration sentence must win over
    // the prose sentences around it, with elision markers in between.
    let out = trunc(input, 120);
    assert!(out.starts_with("Launches a specialized agent to handle the task."));
    assert!(
        out.contains("Valid types: general-purpose, code-explorer, test-runner."),
        "{out}"
    );
    assert!(out.contains(" … "), "{out}");
    assert!(!out.contains("reports back"), "{out}");
    assert!(out.chars().count() <= 121, "{out}"); // budget + trailing …
}

#[test]
fn elision_marker_not_duplicated_when_tail_kept() {
    let input = "Tool identity sentence here. Some filler prose in the middle of it. \
        Use `run_command` with `--flag` and `path/to_file`.";
    let out = trunc(input, 105);
    // Identifier-heavy tail kept, prose middle elided; no trailing … since
    // the true ending is present and the gap is already marked.
    assert!(out.contains("`run_command`"), "{out}");
    assert!(out.contains(" … "), "{out}");
    assert!(!out.ends_with('…'), "{out}");
}

#[test]
fn degenerate_giant_word_hard_cuts() {
    let input = "a".repeat(50);
    let out = trunc(&input, 10);
    assert_eq!(out, format!("{}…", "a".repeat(10)));
}

#[test]
fn the_cut_text_in_full() {
    let input = "Launches a specialized agent to handle the task. \
        The agent runs in its own context and reports back when finished. \
        Valid types: general-purpose, code-explorer, test-runner. \
        Results may take a while to arrive depending on the task.";
    assert_eq!(
        trunc(input, 120),
        "Launches a specialized agent to handle the task. … \
         Valid types: general-purpose, code-explorer, test-runner.…"
    );
}

#[test]
fn sentences_are_ranked_by_density() {
    let sents = texts(&["One. ", "Two. ", "Three. ", "Four."]);
    let d = |hits: usize, total: usize| Density { hits, total };
    let scores = vec![d(0, 1), d(0, 1), d(1, 2), d(2, 4)];
    // 4 + (6 + 3) = 13 leaves no room for more.
    assert_eq!(select_scored(&sents, &scores, 15), Some("One. … Three.…".to_string()));
    // The tie between the last two is settled by their order.
    assert_eq!(
        select_scored(&sents, &scores, 21),
        Some("One. … Three. Four.".to_string())
    );
    assert_eq!(select_scored(&sents, &scores, 4), Some("One.…".to_string()));
    assert_eq!(select_scored(&sents, &scores, 3), None);
}

#[test]
fn kept_sentences_are_put_together() {
    let sents = texts(&["A. ", "B. ", "C. "]);
    assert_eq!(assemble(&sents, &vec![true, true, true]), "A. B. C.");
    assert_eq!(assemble(&sents, &vec![true, false, true]), "A. … C.");
    assert_eq!(assemble(&sents, &vec![true, false, false]), "A.…");
    assert_eq!(ELISION, " … ");
}

#[test]
fn the_budget_holds() {
    let texts = [
        "Alpha beta. Gamma `delta_x` here! Does it fit? Nobody knows, says foo::bar().",
        "One.          Two. And then comes a third one that is a good deal longer.",
        "A.  \n\n   B.      C!\t\t\tD?          E. F.",
    ];
    for text in texts {
        for max in 0..90 {
            let out = trunc(text, max);
            if text.chars().count() <= max {
                assert_eq!(out, text);
            } else {
                assert!(out.chars().count() <= max + 1, "{max}: {out}");
            }
        }
    }
    // White space between adjacent kept sentences counts.
    assert_eq!(trunc(texts[1], 12), "One.…");
    assert_eq!(trunc("A.          B. C.", 7), "A. … C.");
    assert_eq!(trunc("A.          B. C.", 16), "A.          B.…");
    // White space that a marker replaces does not.
    assert_eq!(trunc("A.    B.    C_.", 8), "A. … C_.");
}

#[test]
fn densities_count_code_like_tokens() {
    assert_eq!(identifier_density("call foo_bar and baz"), Density { hits: 1, total: 4 });
    assert_eq!(identifier_density(""), Density { hits: 0, total: 0 });
    assert!(is_code_like("run_command"));
    assert!(is_code_like("camelCase"));
    assert!(is_code_like("`x`"));
    assert!(is_code_like("std::vec"));
    assert!(is_code_like("member,"));
    assert!(is_code_like("v2"));
    assert!(is_code_like("kebab-case"));
    assert!(is_code_like("PascalÉtat"));
    assert!(!is_code_like("prose"));
    assert!(!is_code_like("HTTP"));
    assert!(!is_code_like("--flag"));
    assert!(!is_code_like("-,"));
    assert!(!is_code_like("Prose."));
}

#[test]
fn units_fit_from_the_front() {
    assert_eq!(fit_units(&texts(&["ab ", "cd", "ef"]), 6), Some(5));
    // Characters are counted against the budget, and bytes come out.
    assert_eq!(fit_units(&texts(&["né", "abc", "d"]), 4), Some(3));
    assert_eq!(fit_units(&texts(&["abc"]), 2), None);
    assert_eq!(fit_units(&texts(&[]), 2), None);
    assert_eq!(cut_short("abc def", 5, &texts(&["abc", " ", "def"])), "abc…");
    assert_eq!(cut_short("abcdef", 2, &texts(&["abcdef"])), "ab…");
    assert_eq!(select_salient_sentences("Too long to fit.", 3), None);
}
