use regex::Regex;
use safe_package::directive::{
    escape_text, parse_bm_directive, split_words, unescape_text, BMDirective, ParseError,
};

fn chars(s: &str) -> Vec<char> {
    s.chars().collect()
}

fn text(v: &[char]) -> String {
    v.iter().collect()
}

fn directive(local: &str, mountpoint: &str, options: &[&str]) -> BMDirective {
    BMDirective {
        local: local.to_string(),
        mountpoint: mountpoint.to_string(),
        options: options.iter().map(|o| o.to_string()).collect(),
    }
}

#[test]
fn parses_source_mountpoint_and_options() {
    let d = parse_bm_directive("local: /usr/lib mountpoint: /usr/lib opts: ro").unwrap();
    assert_eq!(d, directive("/usr/lib", "/usr/lib", &["ro"]));
}

#[test]
fn absent_opts_gives_no_options() {
    let d = parse_bm_directive("local: /etc mountpoint: /etc").unwrap();
    assert_eq!(d, directive("/etc", "/etc", &[]));
}

#[test]
fn option_list_is_cut_at_commas_in_order() {
    let d = parse_bm_directive("local: /a mountpoint: /b opts: ro,noexec,default,rw").unwrap();
    assert_eq!(d.options, vec!["ro", "noexec", "default", "rw"]);
}

#[test]
fn empty_tokens_are_kept_for_the_option_model_to_refuse() {
    let d = parse_bm_directive("local: /a mountpoint: /b opts: ro,,rw,").unwrap();
    assert_eq!(d.options, vec!["ro", "", "rw", ""]);
}

#[test]
fn runs_of_spaces_and_tabs_separate_the_fields() {
    let d = parse_bm_directive(" \t local:\t\t/a   mountpoint: \t /b \t opts:\tro  \t").unwrap();
    assert_eq!(d, directive("/a", "/b", &["ro"]));
}

#[test]
fn escaped_space_and_tab_are_decoded_after_the_fields_were_cut() {
    let d = parse_bm_directive(
        "local: /my\\040files/a\\011b mountpoint: /mnt/my\\040files opts: ro",
    )
    .unwrap();
    assert_eq!(d.local, "/my files/a\tb");
    assert_eq!(d.mountpoint, "/mnt/my files");
}

#[test]
fn other_backslash_sequences_stand_for_themselves() {
    let d = parse_bm_directive("local: /a\\041b\\04 mountpoint: /c\\\\040").unwrap();
    assert_eq!(d.local, "/a\\041b\\04");
    assert_eq!(d.mountpoint, "/c\\ ");
}

#[test]
fn unescape_reads_left_to_right() {
    assert_eq!(text(&unescape_text(&chars("\\040\\011"))), " \t");
    assert_eq!(text(&unescape_text(&chars("\\0\\0400"))), "\\0 0");
    assert_eq!(text(&unescape_text(&chars("\\04"))), "\\04");
    assert_eq!(text(&unescape_text(&chars(""))), "");
}

#[test]
fn escape_encodes_space_and_tab_only() {
    assert_eq!(text(&escape_text(&chars("a b\tc\\d"))), "a\\040b\\011c\\d");
    assert_eq!(text(&escape_text(&chars(""))), "");
}

#[test]
fn words_are_the_maximal_runs_without_blanks() {
    let words: Vec<String> = split_words(&chars("  ab \t c\td  ")).iter().map(|w| text(w)).collect();
    assert_eq!(words, vec!["ab", "c", "d"]);
    assert!(split_words(&chars(" \t ")).is_empty());
    assert!(split_words(&chars("")).is_empty());
}

#[test]
fn empty_line_misses_local() {
    assert_eq!(parse_bm_directive("").unwrap_err(), ParseError::MissingLocal);
    assert_eq!(parse_bm_directive("   \t").unwrap_err(), ParseError::MissingLocal);
}

#[test]
fn line_that_does_not_begin_with_local_misses_local() {
    assert_eq!(parse_bm_directive("/etc /etc ro,noexec").unwrap_err(), ParseError::MissingLocal);
    assert_eq!(
        parse_bm_directive("x local: /a mountpoint: /b").unwrap_err(),
        ParseError::MissingLocal
    );
    assert_eq!(
        parse_bm_directive("local:/a mountpoint: /b").unwrap_err(),
        ParseError::MissingLocal
    );
}

#[test]
fn local_without_value_misses_source() {
    assert_eq!(parse_bm_directive("local:").unwrap_err(), ParseError::MissingSource);
    assert_eq!(parse_bm_directive("local:   ").unwrap_err(), ParseError::MissingSource);
}

#[test]
fn missing_mountpoint_keyword_is_reported() {
    assert_eq!(parse_bm_directive("local: /a").unwrap_err(), ParseError::MissingMountpoint);
    assert_eq!(parse_bm_directive("local: /a /b").unwrap_err(), ParseError::MissingMountpoint);
    assert_eq!(
        parse_bm_directive("local: /a mountpoint:/b").unwrap_err(),
        ParseError::MissingMountpoint
    );
    assert_eq!(
        parse_bm_directive("local: mountpoint: /b").unwrap_err(),
        ParseError::MissingMountpoint
    );
}

#[test]
fn mountpoint_without_value_misses_target() {
    assert_eq!(
        parse_bm_directive("local: /a mountpoint:").unwrap_err(),
        ParseError::MissingTarget
    );
}

#[test]
fn anything_but_one_opts_field_after_the_mountpoint_is_refused() {
    for line in [
        "local: /a mountpoint: /b opts:",
        "local: /a mountpoint: /b ro",
        "local: /a mountpoint: /b opts:ro",
        "local: /a mountpoint: /b opts: ro rw",
        "local: /a mountpoint: /b options: ro",
    ] {
        assert_eq!(parse_bm_directive(line).unwrap_err(), ParseError::BadOptions, "{}", line);
    }
}

#[test]
fn to_line_writes_the_documented_format() {
    assert_eq!(
        directive("/usr/lib", "/usr/lib", &["ro"]).to_line(),
        "local: /usr/lib mountpoint: /usr/lib opts: ro"
    );
    assert_eq!(directive("/etc", "/etc", &[]).to_line(), "local: /etc mountpoint: /etc");
    assert_eq!(
        directive("/my files", "/mnt/a\tb", &["ro", "noexec"]).to_line(),
        "local: /my\\040files mountpoint: /mnt/a\\011b opts: ro,noexec"
    );
}

#[test]
fn parse_then_write_then_parse_gives_the_same_directive() {
    for line in [
        "local: /usr/lib mountpoint: /usr/lib opts: ro",
        "  local:\t/a\\040b   mountpoint: /c\\011d  ",
        "local: /a mountpoint: /b opts: ro,,default,\\040x",
        "local: \\\\040 mountpoint: \\04\\0400 opts: a\\040b,c",
    ] {
        let first = parse_bm_directive(line).unwrap();
        let again = parse_bm_directive(&first.to_line()).unwrap();
        assert_eq!(first, again, "{}", line);
    }
}

#[test]
fn write_then_parse_gives_the_directive_back() {
    for d in [
        directive("/usr/lib", "/usr/lib", &["ro"]),
        directive("/etc", "/etc", &[]),
        directive("/my files/a\tb", "/mnt/\\ x", &["default", "rw"]),
        directive(" ", "\t", &["", "ro"]),
        directive("\\04", "\\0 40", &["a b"]),
    ] {
        assert_eq!(parse_bm_directive(&d.to_line()), Ok(d));
    }
}

#[test]
fn value_that_spells_an_escape_sequence_is_not_read_back() {
    let d = directive("/a\\040b", "/c", &[]);
    assert_eq!(d.to_line(), "local: /a\\040b mountpoint: /c");
    assert_eq!(parse_bm_directive(&d.to_line()).unwrap().local, "/a b");
}

#[test]
fn written_line_of_a_parsed_directive_has_single_spaces() {
    let d = parse_bm_directive("\tlocal:   /a\\040b \t mountpoint:\t/c   opts:   ro,rw ").unwrap();
    assert_eq!(d.to_line(), "local: /a\\040b mountpoint: /c opts: ro,rw");
}

#[test]
fn agrees_with_the_pattern_of_the_format_on_well_formed_lines() {
    let pattern = Regex::new(
        "^[ \t]*local:[ \t]+(?P<local>[^ \t]+)[ \t]+mountpoint:[ \t]+(?P<mountpoint>[^ \t]+)([ \t]+opts:[ \t]+(?P<options>[^ \t]+))?[ \t]*$",
    )
    .unwrap();
    let decode = |s: &str| s.replace("\\040", " ").replace("\\011", "\t");
    for line in [
        "local: /usr/lib mountpoint: /usr/lib opts: ro",
        "local: /etc mountpoint: /etc",
        " local:\t/a\\040b \t mountpoint: /c\\011d opts: ro,noexec ",
        "local: /x mountpoint: /y opts: default,rw",
        "local: /a mountpoint: /b c",
        "local: /a",
        "mountpoint: /b local: /a",
    ] {
        match (pattern.captures(line), parse_bm_directive(line)) {
            (Some(caps), Ok(d)) => {
                assert_eq!(d.local, decode(&caps["local"]));
                assert_eq!(d.mountpoint, decode(&caps["mountpoint"]));
                let options: Vec<String> = match caps.name("options") {
                    Some(m) => decode(m.as_str()).split(',').map(|o| o.to_string()).collect(),
                    None => Vec::new(),
                };
                assert_eq!(d.options, options);
            }
            (None, Err(_)) => {}
            (theirs, ours) => panic!("{}: {:?} against {:?}", line, theirs.is_some(), ours),
        }
    }
}
