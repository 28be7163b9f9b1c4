use fuzzy_matcher::skim::SkimMatcherV2;
use fuzzy_matcher::FuzzyMatcher;
use syscall_monitor::search::{fuzzy_score, rank, score_all, search, SCORABLE_LEN};
use syscall_monitor::syscalls::SyscallSet;

fn set_of(names: &[&str]) -> SyscallSet {
    let mut set = SyscallSet::new();
    for n in names {
        set.insert(n.to_string());
    }
    set
}

fn strings(raw: &[&str]) -> Vec<String> {
    raw.iter().map(|s| s.to_string()).collect()
}

#[test]
fn query_rd_ranks_read_first() {
    let set = set_of(&["read", "write", "openat"]);
    let found = search(&set, "rd");
    assert_eq!(found.first(), Some(&"read".to_string()));
    assert_eq!(found, strings(&["read"]));
}

#[test]
fn empty_query_returns_every_member_once() {
    let set = set_of(&["read", "write", "openat"]);
    assert_eq!(search(&set, ""), strings(&["read", "write", "openat"]));
}

#[test]
fn empty_query_on_empty_set() {
    assert_eq!(search(&SyscallSet::new(), ""), Vec::<String>::new());
}

#[test]
fn query_that_matches_nothing_returns_nothing() {
    let set = set_of(&["read", "write", "openat"]);
    assert_eq!(search(&set, "zzz"), Vec::<String>::new());
}

#[test]
fn results_come_by_falling_score() {
    let set = set_of(&["openat", "read", "readlink", "pread64", "write", "readv", "munmap"]);
    let found = search(&set, "re");
    assert!(!found.is_empty());
    let scores: Vec<i64> = found.iter().map(|n| fuzzy_score(n, "re").unwrap()).collect();
    for pair in scores.windows(2) {
        assert!(pair[0] >= pair[1]);
    }
    for n in set.names() {
        assert_eq!(found.contains(n), fuzzy_score(n, "re").is_some());
    }
}

#[test]
fn equal_scores_keep_the_order_of_the_set() {
    let set = set_of(&["abc", "abd", "abe"]);
    assert_eq!(fuzzy_score("abc", "ab"), fuzzy_score("abd", "ab"));
    assert_eq!(search(&set, "ab"), strings(&["abc", "abd", "abe"]));
    let set = set_of(&["abe", "abc", "abd"]);
    assert_eq!(search(&set, "ab"), strings(&["abe", "abc", "abd"]));
}

#[test]
fn fuzzy_score_is_the_matchers() {
    let matcher = SkimMatcherV2::default();
    for (choice, pattern) in [("read", "rd"), ("openat", "opn"), ("write", "w"), ("read", "x"), ("READ", "rd")] {
        assert_eq!(fuzzy_score(choice, pattern), matcher.fuzzy_match(choice, pattern));
    }
}

#[test]
fn fuzzy_score_of_a_subsequence_is_some() {
    assert!(fuzzy_score("read", "rd").is_some());
    assert!(fuzzy_score("write", "rd").is_none());
    assert!(fuzzy_score("openat", "rd").is_none());
}

#[test]
fn fuzzy_score_prefers_a_closer_match() {
    let close = fuzzy_score("read", "read").unwrap();
    let loose = fuzzy_score("r_e_a_d", "read").unwrap();
    assert!(close > loose);
}

#[test]
fn overlong_candidate_has_no_score() {
    let long: String = std::iter::repeat('a').take(SCORABLE_LEN + 1).collect();
    assert_eq!(fuzzy_score(&long, "a"), None);
    let fits: String = std::iter::repeat('a').take(4096).collect();
    assert!(fuzzy_score(&fits, "a").is_some());
}

#[test]
fn score_all_keeps_the_matches_in_order() {
    let set = set_of(&["read", "write", "readv"]);
    let entries = score_all(&set, "rd");
    let names: Vec<&str> = entries.iter().map(|e| e.1.as_str()).collect();
    assert_eq!(names, vec!["read", "readv"]);
    assert_eq!(entries[0].0, fuzzy_score("read", "rd").unwrap());
    assert_eq!(entries[1].0, fuzzy_score("readv", "rd").unwrap());
}

#[test]
fn rank_sorts_by_falling_score() {
    let entries = vec![
        (5, "a".to_string()),
        (9, "b".to_string()),
        (5, "c".to_string()),
        (7, "d".to_string()),
    ];
    assert_eq!(rank(entries), strings(&["b", "d", "a", "c"]));
}

#[test]
fn rank_of_negative_scores() {
    let entries = vec![(-3, "x".to_string()), (0, "y".to_string()), (-1, "z".to_string())];
    assert_eq!(rank(entries), strings(&["y", "z", "x"]));
}

#[test]
fn rank_of_nothing() {
    assert_eq!(rank(Vec::new()), Vec::<String>::new());
}

/// Whether the characters of `pattern` occur in `choice` in their order; case
/// counts exactly when the pattern holds an ASCII uppercase letter.
fn occurs_in_order(choice: &str, pattern: &str) -> bool {
    let exact = pattern.chars().any(|c| c.is_ascii_uppercase());
    let mut rest = pattern.chars().peekable();
    for c in choice.chars() {
        match rest.peek() {
            Some(&p) => {
                if (exact && c == p) || (!exact && c.to_ascii_lowercase() == p.to_ascii_lowercase()) {
                    rest.next();
                }
            }
            None => break,
        }
    }
    rest.peek().is_none()
}

#[test]
fn a_score_exists_exactly_where_the_pattern_occurs_in_order() {
    let choices = [
        "", "read", "READ", "Read", "write", "openat", "rt_sigaction", "pread64", "a", "aa",
        "\u{c9}cole", "\u{e9}cole", "r d", "dr", "rrdd", "clock_gettime",
    ];
    let patterns = [
        "", "rd", "RD", "Rd", "r", "d", "dr", "rdd", "rt", "ct", "e", "\u{e9}", "\u{c9}", "aa", "aaa",
        "64", "_", " ", "readx", "tm",
    ];
    for choice in choices {
        for pattern in patterns {
            assert_eq!(
                fuzzy_score(choice, pattern).is_some(),
                occurs_in_order(choice, pattern),
                "choice {:?}, pattern {:?}",
                choice,
                pattern
            );
        }
    }
}

#[test]
fn case_counts_when_the_pattern_has_an_uppercase_letter() {
    assert!(fuzzy_score("READ", "rd").is_some());
    assert!(fuzzy_score("read", "rd").is_some());
    assert!(fuzzy_score("read", "Rd").is_none());
    assert!(fuzzy_score("Read", "Rd").is_some());
    assert!(fuzzy_score("READ", "Rd").is_none());
}

#[test]
fn empty_pattern_matches_everything() {
    assert!(fuzzy_score("read", "").is_some());
    assert!(fuzzy_score("", "").is_some());
    assert!(fuzzy_score("", "a").is_none());
}
