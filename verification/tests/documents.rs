use blurred::document::{
    converted_text, decode_document_text, document_text_from_read, is_rtf_extension,
    looks_like_rtf_junk, strip_basic_rtf, trimmed_text,
};

#[test]
fn plain_text_is_left_alone() {
    assert_eq!(decode_document_text("hello\n  world  \n"), "hello\n  world  \n");
    assert_eq!(decode_document_text("notes about {\\rtf"), "notes about {\\rtf");
    assert_eq!(decode_document_text(""), "");
}

#[test]
fn rtf_header_after_white_space_is_decoded() {
    assert_eq!(decode_document_text("  \n{\\rtf1 Hello}"), "Hello");
}

#[test]
fn font_table_and_control_words_are_dropped() {
    let raw = "{\\rtf1\\ansi{\\fonttbl\\f0\\fswiss Helvetica;}\\f0\\pard Hello\\par World}";
    assert_eq!(strip_basic_rtf(raw), "Hello\nWorld");
}

#[test]
fn hex_escapes_become_latin1_characters() {
    assert_eq!(strip_basic_rtf("{\\rtf1 caf\\'e9}"), "caf\u{e9}");
    assert_eq!(strip_basic_rtf("{\\rtf1 a\\'41b}"), "aAb");
    // an invalid escape is dropped
    assert_eq!(strip_basic_rtf("{\\rtf1 a\\'zzb}"), "ab");
    // a sign before one digit is read as the number
    assert_eq!(strip_basic_rtf("{\\rtf1 a\\'+9b}"), "a\tb");
}

#[test]
fn escaped_braces_and_backslashes_are_kept() {
    assert_eq!(strip_basic_rtf("{\\rtf1 a\\{b\\}c\\\\d}"), "a{b}c\\d");
}

#[test]
fn ignorable_and_destination_groups_are_skipped() {
    assert_eq!(strip_basic_rtf("{\\rtf1 {\\*\\generator Foo;}Text}"), "Text");
    // `\*` marks the group that opens after it
    assert_eq!(strip_basic_rtf("{\\rtf1 {\\*\\custom kept}Shown}"), "keptShown");
    assert_eq!(strip_basic_rtf("{\\rtf1 \\*{hidden}Shown}"), "Shown");
    assert_eq!(strip_basic_rtf("{\\rtf1 {\\info {\\title T}}Body}"), "Body");
}

#[test]
fn tab_and_line_control_words() {
    assert_eq!(strip_basic_rtf("{\\rtf1 a\\tab b\\line c}"), "a\tb\nc");
}

#[test]
fn junk_lines_are_removed() {
    assert_eq!(strip_basic_rtf("{\\rtf1 Times\\par Real  \\par ;;\\par\\par End}"), "Real\nEnd");
    assert_eq!(strip_basic_rtf("{\\rtf1 \\par\\par}"), "");
}

#[test]
fn carriage_returns_are_ignored() {
    assert_eq!(strip_basic_rtf("{\\rtf1 a\r\nb}"), "a\nb");
}

#[test]
fn junk_lines_are_recognised() {
    assert!(looks_like_rtf_junk(""));
    assert!(looks_like_rtf_junk("   \t"));
    assert!(looks_like_rtf_junk(";:;"));
    assert!(looks_like_rtf_junk(" HELVETICA "));
    assert!(looks_like_rtf_junk("times"));
    assert!(looks_like_rtf_junk("Courier"));
    assert!(!looks_like_rtf_junk("Courier New"));
    assert!(!looks_like_rtf_junk("hello"));
    assert!(!looks_like_rtf_junk("; a"));
}

#[test]
fn read_results_are_decoded_or_reported() {
    assert_eq!(
        document_text_from_read(Ok(String::from("{\\rtf1 Hi}"))),
        Ok(String::from("Hi"))
    );
    assert_eq!(
        document_text_from_read(Err(String::from("No such file"))),
        Err(String::from("Could not open file: No such file"))
    );
}

#[test]
fn converter_output_is_normalised() {
    assert_eq!(converted_text("a\r\nb  \r\n\n"), "a\nb");
    assert_eq!(converted_text("x\r\r\ny"), "x\r\ny");
    assert_eq!(trimmed_text("  error text \n"), "error text");
}

#[test]
fn rtf_extension_in_any_case() {
    assert!(is_rtf_extension("rtf"));
    assert!(is_rtf_extension("RTF"));
    assert!(is_rtf_extension("Rtf"));
    assert!(!is_rtf_extension("txt"));
    assert!(!is_rtf_extension("rtfd"));
}

#[test]
fn destination_groups_add_nothing() {
    let rest = "Body text\\par more}";
    for d in ["fonttbl", "colortbl", "stylesheet", "info", "pict", "expandedcolortbl", "generator"] {
        let with_group = format!("{{\\rtf1 {{\\{d} a {{b}} {{{{c}}}};}}{rest}");
        let without = format!("{{\\rtf1 {rest}");
        assert_eq!(strip_basic_rtf(&with_group), strip_basic_rtf(&without));
    }
    assert_eq!(strip_basic_rtf("{\\rtf1 {\\fonttbl x}Body}"), "Body");
}

#[test]
fn plain_text_in_minimal_rtf_round_trips() {
    let text = "First line\nSecond: line\n\tindented";
    assert_eq!(strip_basic_rtf(&format!("{{\\rtf1 {text}}}")), text);
}
