use musica::errors::Error;
use musica::grammar::parse_i32;
use musica::parser::MusicaParser;
use musica::parser::Rule;

#[test]
fn parse_i32_reads_decimal_digits() {
    assert_eq!(parse_i32("0"), Ok(0));
    assert_eq!(parse_i32("42"), Ok(42));
    assert_eq!(parse_i32("007"), Ok(7));
    assert_eq!(parse_i32("2147483647"), Ok(2147483647));
}

#[test]
fn parse_i32_rejects_empty_overflow_and_non_digits() {
    assert_eq!(parse_i32(""), Err(Error::ParseError));
    assert_eq!(parse_i32("2147483648"), Err(Error::ParseError));
    assert_eq!(parse_i32("12a"), Err(Error::ParseError));
    assert_eq!(parse_i32("-3"), Err(Error::ParseError));
    assert_eq!(parse_i32(" 1"), Err(Error::ParseError));
}

#[test]
fn parse_builds_one_node_per_nonempty_line_plus_eoi() {
    let tree = MusicaParser::parse(";a\n\nplain text\n").unwrap();
    assert_eq!(tree.rule, Rule::Musica);
    assert_eq!(tree.children.len(), 3);
    assert_eq!(tree.children[0].rule, Rule::IComment);
    assert_eq!(tree.children[0].text, ";a");
    assert_eq!(tree.children[1].rule, Rule::INonMessage);
    assert_eq!(tree.children[1].text, "plain text");
    assert_eq!(tree.children[2].rule, Rule::EOI);
}

#[test]
fn parse_classifies_directive_lines() {
    let tree = MusicaParser::parse("#import other.sc").unwrap();
    assert_eq!(tree.children[0].rule, Rule::IInclude);
    assert_eq!(tree.children[0].text, "#import other.sc");
}

#[test]
fn parse_named_message_line_yields_all_atoms() {
    let tree = MusicaParser::parse("1 Alice [happy] \"Hi there\"").unwrap();
    let msg = &tree.children[0];
    assert_eq!(msg.rule, Rule::IMessage);
    assert_eq!(msg.children.len(), 1);
    let inner = &msg.children[0];
    assert_eq!(inner.rule, Rule::IMessageNamed);
    let kinds: Vec<Rule> = inner.children.iter().map(|c| c.rule).collect();
    assert_eq!(
        kinds,
        vec![
            Rule::MessageNumber,
            Rule::MessageSpeakerName,
            Rule::MessageSpeakerTachie,
            Rule::MessageContentQuoted,
        ]
    );
    assert_eq!(inner.children[0].text, "1");
    assert_eq!(inner.children[1].text, "Alice");
    assert_eq!(inner.children[2].text, "happy");
    assert_eq!(inner.children[3].text, "Hi there");
}

#[test]
fn parse_unnamed_quoted_message_line() {
    let tree = MusicaParser::parse("7 \"just words\"").unwrap();
    let inner = &tree.children[0].children[0];
    assert_eq!(inner.rule, Rule::IMessageUnnamed);
    assert_eq!(inner.children.len(), 2);
    assert_eq!(inner.children[0].rule, Rule::MessageNumber);
    assert_eq!(inner.children[1].rule, Rule::MessageContentQuoted);
    assert_eq!(inner.children[1].text, "just words");
}

#[test]
fn parse_unquoted_message_line_takes_rest_as_content() {
    let tree = MusicaParser::parse("3 hello wide world  ").unwrap();
    let inner = &tree.children[0].children[0];
    assert_eq!(inner.rule, Rule::IMessageUnnamed);
    assert_eq!(inner.children.len(), 2);
    assert_eq!(inner.children[0].text, "3");
    assert_eq!(inner.children[1].rule, Rule::MessageContentUnquoted);
    assert_eq!(inner.children[1].text, "hello wide world");
}

#[test]
fn parse_message_line_without_number_keeps_name_and_content() {
    let tree = MusicaParser::parse("Alice \"No id\"").unwrap();
    let inner = &tree.children[0].children[0];
    assert_eq!(inner.rule, Rule::IMessageNamed);
    assert_eq!(inner.children.len(), 2);
    assert_eq!(inner.children[0].rule, Rule::MessageSpeakerName);
    assert_eq!(inner.children[0].text, "Alice");
    assert_eq!(inner.children[1].rule, Rule::MessageContentQuoted);
}

#[test]
fn parse_rejects_lone_quote() {
    assert_eq!(
        MusicaParser::parse("Alice \"unterminated").unwrap_err(),
        Error::ParseError
    );
}

#[test]
fn parse_rejects_text_after_closing_quote() {
    assert_eq!(
        MusicaParser::parse("1 \"hi\" trailing").unwrap_err(),
        Error::ParseError
    );
}

#[test]
fn parse_rejects_malformed_sprite_token() {
    assert_eq!(
        MusicaParser::parse("1 Alice [happy \"hi\"").unwrap_err(),
        Error::ParseError
    );
}

#[test]
fn parse_rejects_control_characters() {
    assert_eq!(MusicaParser::parse("ok\u{0007}line").unwrap_err(), Error::ParseError);
    assert_eq!(MusicaParser::parse("a\tb").unwrap_err(), Error::ParseError);
}

#[test]
fn parse_accepts_cjk_text() {
    let tree = MusicaParser::parse("こんにちは世界").unwrap();
    assert_eq!(tree.children[0].rule, Rule::INonMessage);
    assert_eq!(tree.children[0].text, "こんにちは世界");
}

#[test]
fn parse_empty_text_yields_only_eoi() {
    let tree = MusicaParser::parse("").unwrap();
    assert_eq!(tree.rule, Rule::Musica);
    assert_eq!(tree.children.len(), 1);
    assert_eq!(tree.children[0].rule, Rule::EOI);
}
