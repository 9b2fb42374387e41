use k7s_lib::log_filter::{filter_or_default, is_sliceable, log_filter};
use tracing_subscriber::EnvFilter;

fn chosen(rust_log: Option<&str>) -> String {
    if let Some(text) = rust_log {
        assert!(is_sliceable(text));
    }
    log_filter(rust_log).to_string()
}

#[test]
fn the_level_is_info_without_the_variable() {
    assert_eq!(chosen(None), "info");
}

#[test]
fn the_variable_controls_the_level() {
    for level in ["off", "error", "warn", "info", "debug", "trace"] {
        assert_eq!(chosen(Some(level)), level);
    }
}

#[test]
fn directives_are_kept_the_most_specific_first() {
    assert_eq!(chosen(Some("info,kube=debug")), "kube=debug,info");
    assert_eq!(chosen(Some("WARN")), "warn");
    assert_eq!(chosen(Some("k7s")), "k7s=trace");
}

#[test]
fn one_invalid_directive_gives_the_default() {
    assert_eq!(chosen(Some("kube=loud")), "info");
    assert_eq!(chosen(Some("debug,kube=loud")), "info");
    assert_eq!(chosen(Some("!")), "info");
    assert_eq!(chosen(Some(" ")), "info");
}

#[test]
fn an_empty_variable_has_no_directives() {
    assert_eq!(chosen(Some("")), "");
    assert_eq!(chosen(Some(",")), "");
}

#[test]
fn a_parsed_filter_is_kept_and_a_missing_one_is_info() {
    let given = EnvFilter::try_new("kube=warn").unwrap();
    assert_eq!(filter_or_default(Some(given)).to_string(), "kube=warn");
    assert_eq!(filter_or_default(None).to_string(), "info");
}

#[test]
fn offsets_of_the_trimmed_text_must_not_split_a_character() {
    assert!(!is_sliceable("\u{3000}a=info"));
    assert!(!is_sliceable(" \u{e9}=info"));
    assert!(!is_sliceable("debug,\t[\u{e9}]"));
    assert!(!is_sliceable("\u{a0}[a]"));
    assert!(is_sliceable(""));
    assert!(is_sliceable(" a=info, [b]=debug"));
    assert!(is_sliceable("\u{e9}=info"));
    assert!(is_sliceable(" \u{e9}"));
    assert!(is_sliceable(" \u{e9}]"));
    assert!(is_sliceable(" ab=\u{e9}"));
    assert!(is_sliceable(" a=info,\u{e9}=debug"));
    assert!(is_sliceable("\u{3000}"));
    assert!(is_sliceable(" a=\u{e9}="));
    assert!(is_sliceable(" [\u{e9}=]"));
    assert!(!is_sliceable(" [a\u{e9}{b}]=info"));
    assert!(is_sliceable(" [{}\u{e9}]"));
}

#[test]
fn nothing_is_split_after_an_invalid_directive() {
    assert!(!is_sliceable("debug,\u{3000}a=info"));
    assert!(is_sliceable("!,\u{3000}a=info"));
    assert!(is_sliceable("\u{3000},\u{3000}a=info"));
    assert_eq!(chosen(Some("!,\u{3000}a=info")), "info");
}

#[test]
fn wide_characters_are_parsed_where_they_cannot_be_split() {
    assert_eq!(chosen(Some("\u{e9}=debug")), "\u{e9}=debug");
    assert_eq!(chosen(Some(" \u{e9}")), " \u{e9}=trace");
    assert_eq!(chosen(Some(" \u{e9}]")), " \u{e9}]=trace");
    assert_eq!(chosen(Some(" ab=\u{e9}")), "info");
    assert_eq!(chosen(Some("info, a=\u{e9}")), "info");
    assert_eq!(chosen(Some("\u{3000}")), "info");
    assert_eq!(chosen(Some(" a=\u{e9}=")), "info");
    assert_eq!(chosen(Some(" [\u{e9}=]")), "[[\u{e9}]=trace");
}

#[test]
fn every_short_sliceable_text_is_parsed() {
    let alphabet = [' ', '\u{e9}', '\u{3000}', '=', '[', ']', '{', '}', 'a', ','];
    let mut texts = vec![String::new()];
    let mut parsed = 0;
    for _ in 0..4 {
        let mut longer = Vec::new();
        for text in &texts {
            for c in alphabet {
                let mut next = text.clone();
                next.push(c);
                if is_sliceable(&next) {
                    log_filter(Some(&next));
                    parsed += 1;
                }
                longer.push(next);
            }
        }
        texts = longer;
    }
    assert_eq!(parsed, 10953);
}
