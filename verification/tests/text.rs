use repo_check::text::{chars_of, count_entries, is_blank, is_whitespace, join, trim};

fn std_count(text: &str, skip_untracked: bool) -> usize {
    text.lines()
        .filter(|line| !line.is_empty())
        .filter(|line| !(skip_untracked && line.starts_with("??")))
        .count()
}

const SAMPLES: [&str; 24] = [
    "",
    "\n",
    "\n\n",
    "\r\n",
    "\r",
    "a",
    "a\n",
    "a\r\n",
    "a\r",
    "\ra\n",
    " M file.txt\n",
    "?? new.txt\n",
    "?? new.txt\n M old.txt\n",
    "?? a\n?? b\n",
    "??\n",
    "?\n",
    "?\r\n",
    "??\r\n",
    " \n",
    "\n\nx\n\n",
    "x\ny",
    "x\n\ry\n",
    "\u{3000}\n",
    "M  söme ünïcode\n?? ün\n",
];

#[test]
fn chars_of_gives_every_character() {
    assert_eq!(chars_of(""), Vec::<char>::new());
    assert_eq!(chars_of("a\nb"), vec!['a', '\n', 'b']);
    assert_eq!(chars_of("ü?"), vec!['ü', '?']);
}

#[test]
fn whitespace_is_that_of_the_standard_library() {
    let mut code: u32 = 0;
    while code <= 0x10FFFF {
        if let Some(c) = char::from_u32(code) {
            assert_eq!(is_whitespace(c), c.is_whitespace(), "U+{:04X}", code);
        }
        code += 1;
    }
}

#[test]
fn count_entries_counts_the_lines_of_the_standard_library() {
    for sample in SAMPLES {
        assert_eq!(count_entries(sample, false), std_count(sample, false), "{:?}", sample);
        assert_eq!(count_entries(sample, true), std_count(sample, true), "{:?}", sample);
    }
}

#[test]
fn count_entries_exact_values() {
    assert_eq!(count_entries("", false), 0);
    assert_eq!(count_entries("\n\n", false), 0);
    assert_eq!(count_entries("\r\n", false), 0);
    assert_eq!(count_entries("\r", false), 1);
    assert_eq!(count_entries(" M a\n M b\n?? c\n", false), 3);
    assert_eq!(count_entries(" M a\n M b\n?? c\n", true), 2);
    assert_eq!(count_entries("?? c", true), 0);
    assert_eq!(count_entries("? c\n", true), 1);
    assert_eq!(count_entries("a\n\nb", false), 2);
}

#[test]
fn trim_is_that_of_the_standard_library() {
    for sample in SAMPLES {
        assert_eq!(trim(sample), sample.trim(), "{:?}", sample);
    }
    assert_eq!(trim("  fatal: not a git repository \n"), "fatal: not a git repository");
    assert_eq!(trim("\u{2003}x y\u{a0}"), "x y");
    assert_eq!(trim(" \t\r\n"), "");
}

#[test]
fn blank_means_nothing_left_after_trimming() {
    for sample in SAMPLES {
        assert_eq!(is_blank(sample), sample.trim().is_empty(), "{:?}", sample);
    }
    assert!(is_blank(""));
    assert!(is_blank(" \n\t"));
    assert!(!is_blank(" M file\n"));
}

#[test]
fn join_puts_one_space_between_parts() {
    assert_eq!(join(&vec![]), "");
    assert_eq!(join(&vec![String::from("remote")]), "remote");
    assert_eq!(
        join(&vec![String::from("status"), String::from("--porcelain")]),
        "status --porcelain"
    );
    assert_eq!(join(&vec![String::from(""), String::from(""), String::from("x")]), "  x");
}
