use rust_mcp_exec::makefile::{make_targets, read_make_targets};
use rust_mcp_exec::names::{has_name, has_str, joined, order_of, NameSet, Order};
use rust_mcp_exec::text;

fn strings(list: &[&str]) -> Vec<String> {
    list.iter().map(|s| s.to_string()).collect()
}

fn cut(chars: &[char], ranges: &[(usize, usize)]) -> Vec<String> {
    ranges.iter().map(|r| chars[r.0..r.1].iter().collect()).collect()
}

const SAMPLES: &[&str] = &[
    "",
    " ",
    "\n",
    "\r\n",
    "a",
    "a\n",
    "a\r\n",
    "a\r",
    "\ra",
    "a\n\nb",
    "a\r\n\r\nb\r",
    "  a b\tc  ",
    "\u{a0}x\u{2003}y\u{3000}",
    "one: two three\n\tfour\r\nfive",
    "/",
    "//a//b/",
    "a/b",
    "✖ not ok\r\n\u{85}",
];

#[test]
fn white_space_is_the_unicode_property() {
    for n in 0..=0x10ffffu32 {
        if let Some(c) = char::from_u32(n) {
            assert_eq!(text::white_space(c), c.is_whitespace());
            assert_eq!(text::lower_char(c), c.to_ascii_lowercase());
        }
    }
}

#[test]
fn lines_words_and_trims_are_those_of_std() {
    for s in SAMPLES {
        let chars = text::chars_of(s);
        assert_eq!(chars, s.chars().collect::<Vec<char>>());
        assert_eq!(text::string_of(&chars), *s);
        let lines: Vec<String> = s.lines().map(|l| l.to_string()).collect();
        assert_eq!(cut(&chars, &text::line_ranges(&chars)), lines);
        let words: Vec<String> = s.split_whitespace().map(|w| w.to_string()).collect();
        assert_eq!(cut(&chars, &text::word_ranges(&chars)), words);
        let trimmed: String = text::trim_chars(&chars).iter().collect();
        assert_eq!(trimmed, s.trim());
        let parts: Vec<String> = s.split('/').map(|p| p.to_string()).collect();
        assert_eq!(cut(&chars, &text::split_ranges(&chars, '/')), parts);
        assert_eq!(parts.join("/"), *s);
    }
}

#[test]
fn searches_are_those_of_std() {
    for s in SAMPLES {
        for t in SAMPLES {
            let a = text::chars_of(s);
            let b = text::chars_of(t);
            assert_eq!(text::has_text(&a, &b), s.contains(t));
            assert_eq!(text::has_prefix(&a, &b), s.starts_with(t));
            assert_eq!(text::same_text(s, t), s == t);
            let many = vec![b.clone(), text::chars_of("zzz")];
            assert_eq!(text::has_any_text(&a, &many), s.contains(t) || s.contains("zzz"));
        }
        let a = text::chars_of(s);
        assert_eq!(text::has_char(&a, 'a'), s.contains('a'));
        assert_eq!(text::find_char(&a, 'b'), s.chars().position(|c| c == 'b').unwrap_or(a.len()));
    }
    assert!(text::matches_at(&text::chars_of("abc"), &text::chars_of("bc"), 1));
    assert!(!text::matches_at(&text::chars_of("abc"), &text::chars_of("bc"), 2));
    assert!(!text::matches_at(&text::chars_of("abc"), &text::chars_of(""), 4));
}

#[test]
fn decimal_numbers() {
    assert_eq!(text::decimal_text(0), "0");
    assert_eq!(text::decimal_text(9), "9");
    assert_eq!(text::decimal_text(10), "10");
    assert_eq!(text::decimal_text(120000), "120000");
    assert_eq!(text::decimal_text(u64::MAX), "18446744073709551615");
}

#[test]
fn order_is_that_of_strings() {
    for s in SAMPLES {
        for t in SAMPLES {
            let expected = if s < t {
                Order::Before
            } else if s == t {
                Order::Same
            } else {
                Order::After
            };
            assert_eq!(order_of(s, t), expected);
        }
    }
}

#[test]
fn name_set_is_sorted_and_without_repeats() {
    let mut set = NameSet::new();
    assert!(set.insert("b".to_string()));
    assert!(set.insert("a".to_string()));
    assert!(!set.insert("b".to_string()));
    assert!(set.insert("ab".to_string()));
    assert!(set.insert("".to_string()));
    assert_eq!(set.into_names(), strings(&["", "a", "ab", "b"]));
}

#[test]
fn lists_of_names() {
    let list = strings(&["rust", "go"]);
    assert!(has_name(&list, "go"));
    assert!(!has_name(&list, "g"));
    assert!(has_str(&["a", "b"], "b"));
    assert!(!has_str(&["a", "b"], ""));
    assert_eq!(joined(&list, ", "), "rust, go");
    assert_eq!(joined(&[], ", "), "");
}

#[test]
fn make_targets_are_simple_and_concrete() {
    let makefile = "# comment: no\n.PHONY: all\nCC := gcc\nX ::= y\nall: build test\n\techo hi: x\n  also: no\nbuild test: dep\n%.o: %.c\n$(X): y\nout/a-b_c.d : z\nlint:\r\nplain line\nVAR=1: odd\nbuild: again\n";
    assert_eq!(
        make_targets(makefile),
        strings(&["all", "build", "lint", "out/a-b_c.d", "test"])
    );
    assert_eq!(make_targets(""), strings(&[]));
    assert_eq!(make_targets("b a b: c\na: d"), strings(&["a", "b"]));
    assert_eq!(make_targets("caf\u{e9}: x"), strings(&[]));
}

#[test]
fn assignments_are_no_targets() {
    let makefile = "CC:=gcc\nX?=y\nURL = http://x\nall:\n";
    assert_eq!(make_targets(makefile), strings(&["all"]));
    assert_eq!(
        read_make_targets("m", &Ok("CC:=gcc\nURL = http://x\nall:\n".to_string())),
        Ok(strings(&["all"]))
    );
    for line in ["test:=x", "a::=b", "a:::=b", "A+=b:c", "A!=echo b:c", "export P=a:b", "a=b", "=: c"] {
        assert_eq!(make_targets(line), strings(&[]));
    }
    for line in ["A != b:c", "A ?= b:c", "override A=b:c", "override export A = b:c"] {
        assert_eq!(make_targets(line), strings(&[]));
    }
    assert_eq!(make_targets("all: X=1\nrun: ; a=b\nok:"), strings(&["all", "ok", "run"]));
}

#[test]
fn several_words_before_an_equals_sign_are_a_rule() {
    assert_eq!(make_targets("x a=b: c"), strings(&["x"]));
    assert_eq!(make_targets("a b = c: d"), strings(&["a", "b", "c"]));
    assert_eq!(make_targets("a b:=c"), strings(&["a", "b"]));
    assert_eq!(make_targets("x private=b: c"), strings(&["x"]));
}

#[test]
fn directives_are_no_targets() {
    for line in [
        "vpath %.c src:lib",
        "ifeq (a,b:c)",
        "ifneq (a,b:c)",
        "ifdef a:b",
        "ifndef a:b",
        "else ifeq (a,b:c)",
        "endif # a: b",
        "include a:b",
        "-include a:b",
        "sinclude a:b",
        "define a:b",
        "endef # a: b",
        "undefine a:b",
        "export a:b",
        "unexport a:b",
    ] {
        assert_eq!(make_targets(line), strings(&[]));
    }
    assert_eq!(
        make_targets("include: a\nexport: b\nvpaths else: c\n"),
        strings(&["else", "export", "include", "vpaths"])
    );
}

#[test]
fn makefile_that_cannot_be_read() {
    assert_eq!(
        read_make_targets("/w/Makefile", &Err("denied".to_string())),
        Err("cannot read /w/Makefile: denied".to_string())
    );
    assert_eq!(
        read_make_targets("/w/Makefile", &Ok("test:\n".to_string())),
        Ok(strings(&["test"]))
    );
}
