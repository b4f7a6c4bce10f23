use consolation::grammar::IrcError;
use consolation::irc::{IrcMessageRaw, Message, PrivMsg};

fn pair(k: &str, v: &str) -> (String, String) {
    (k.to_string(), v.to_string())
}

#[test]
fn parses_tags_prefix_command_and_trailing() {
    let raw = IrcMessageRaw::parse(
        "@badge-info=;color=#FF0000 :alice!alice@host PRIVMSG #chan :hello world\r\n",
    )
    .unwrap();
    assert_eq!(raw.tags, vec![pair("badge-info", ""), pair("color", "#FF0000")]);
    assert_eq!(raw.prefix, Some("alice!alice@host".to_string()));
    assert_eq!(raw.command_name, "PRIVMSG");
    assert_eq!(raw.command_params, vec!["#chan".to_string(), "hello world".to_string()]);
}

#[test]
fn tags_keep_order_and_duplicates() {
    let raw = IrcMessageRaw::parse("@a=1;b=2;a=3 PING\r\n").unwrap();
    assert_eq!(raw.tags, vec![pair("a", "1"), pair("b", "2"), pair("a", "3")]);
}

#[test]
fn tags_stop_at_empty_key() {
    let raw = IrcMessageRaw::parse("@a=1;=x;b=2 PING").unwrap();
    assert_eq!(raw.tags, vec![pair("a", "1")]);
    let raw = IrcMessageRaw::parse("@a=1;;b=2 PING").unwrap();
    assert_eq!(raw.tags, vec![pair("a", "1")]);
    let raw = IrcMessageRaw::parse("@a=1; PING").unwrap();
    assert_eq!(raw.tags, vec![pair("a", "1")]);
    let raw = IrcMessageRaw::parse("@ PING").unwrap();
    assert!(raw.tags.is_empty());
    assert_eq!(raw.command_name, "PING");
}

#[test]
fn tags_stop_at_piece_without_equals() {
    let raw = IrcMessageRaw::parse("@a=1;xyz;b=2 PING").unwrap();
    assert_eq!(raw.tags, vec![pair("a", "1")]);
    let raw = IrcMessageRaw::parse("@xyz PING").unwrap();
    assert!(raw.tags.is_empty());
    let raw = IrcMessageRaw::parse("@a=x=y;b=2 PING").unwrap();
    assert_eq!(raw.tags, vec![pair("a", "x=y"), pair("b", "2")]);
}

#[test]
fn tag_values_are_not_unescaped() {
    let raw = IrcMessageRaw::parse("@msg=a\\sb PING").unwrap();
    assert_eq!(raw.tags, vec![pair("msg", "a\\sb")]);
}

#[test]
fn plain_line_has_no_tags_or_prefix() {
    let raw = IrcMessageRaw::parse("PING :tmi.twitch.tv\r\n").unwrap();
    assert!(raw.tags.is_empty());
    assert_eq!(raw.prefix, None);
    assert_eq!(raw.command_name, "PING");
    assert_eq!(raw.command_params, vec!["tmi.twitch.tv".to_string()]);
}

#[test]
fn empty_and_blank_lines_lack_a_command() {
    assert_eq!(IrcMessageRaw::parse("").unwrap_err(), IrcError::MissingCommandName);
    assert_eq!(IrcMessageRaw::parse("   \t ").unwrap_err(), IrcError::MissingCommandName);
    assert_eq!(IrcMessageRaw::parse("\r\n").unwrap_err(), IrcError::MissingCommandName);
    assert_eq!(IrcMessageRaw::parse(":prefix.only ").unwrap_err(), IrcError::MissingCommandName);
}

#[test]
fn trailing_param_keeps_spaces() {
    let raw = IrcMessageRaw::parse("NOTICE * :a  b  c \r\n").unwrap();
    assert_eq!(raw.command_params, vec!["*".to_string(), "a  b  c ".to_string()]);
}

#[test]
fn trailing_param_with_each_terminator() {
    for end in ["", "\n", "\r\n"] {
        let line = format!("@k=v :n!u@h PRIVMSG #c x :a : b  {}", end);
        let raw = IrcMessageRaw::parse(&line).unwrap();
        assert_eq!(
            raw.command_params,
            vec!["#c".to_string(), "x".to_string(), "a : b  ".to_string()]
        );
    }
}

#[test]
fn empty_trailing_param_is_kept() {
    let raw = IrcMessageRaw::parse("TOPIC #chan :\r\n").unwrap();
    assert_eq!(raw.command_params, vec!["#chan".to_string(), String::new()]);
    let raw = IrcMessageRaw::parse("TOPIC :").unwrap();
    assert_eq!(raw.command_params, vec![String::new()]);
}

#[test]
fn line_without_terminator_parses() {
    let raw = IrcMessageRaw::parse(":srv 001 bot hi").unwrap();
    assert_eq!(raw.prefix, Some("srv".to_string()));
    assert_eq!(raw.command_name, "001");
    assert_eq!(raw.command_params, vec!["bot".to_string(), "hi".to_string()]);
}

#[test]
fn middle_params_skip_line_ends() {
    let raw = IrcMessageRaw::parse("MODE #c +o\r\n").unwrap();
    assert_eq!(raw.command_params, vec!["#c".to_string(), "+o".to_string()]);
}

#[test]
fn unicode_whitespace_separates() {
    let raw = IrcMessageRaw::parse("CMD\u{3000}é").unwrap();
    assert_eq!(raw.command_name, "CMD");
    assert_eq!(raw.command_params, vec!["é".to_string()]);
}

fn raw(prefix: Option<&str>, command: &str, params: &[&str]) -> IrcMessageRaw {
    IrcMessageRaw {
        tags: Vec::new(),
        prefix: prefix.map(|p| p.to_string()),
        command_name: command.to_string(),
        command_params: params.iter().map(|p| p.to_string()).collect(),
    }
}

#[test]
fn privmsg_maps_to_message() {
    let m = Message::from_raw_msg(raw(Some("bob!bob@h"), "PRIVMSG", &["#c", "hi there"]));
    assert_eq!(
        m.unwrap(),
        Some(Message::PrivMsg(PrivMsg {
            username: "bob".to_string(),
            message: "hi there".to_string()
        }))
    );
}

#[test]
fn privmsg_prefix_without_bang_is_whole_username() {
    let m = Message::from_raw_msg(raw(Some("server"), "PRIVMSG", &["#c", "x"])).unwrap();
    assert_eq!(
        m,
        Some(Message::PrivMsg(PrivMsg { username: "server".to_string(), message: "x".to_string() }))
    );
}

#[test]
fn privmsg_without_prefix_is_refused() {
    let m = Message::from_raw_msg(raw(None, "PRIVMSG", &["#c", "hi"]));
    assert_eq!(m.unwrap_err(), IrcError::MissingPrefix);
}

#[test]
fn privmsg_without_body_is_refused() {
    let m = Message::from_raw_msg(raw(Some("a!a@h"), "PRIVMSG", &["#c"]));
    assert_eq!(m.unwrap_err(), IrcError::MissingBody);
    let m = Message::from_raw_msg(raw(Some("a!a@h"), "PRIVMSG", &[]));
    assert_eq!(m.unwrap_err(), IrcError::MissingBody);
}

#[test]
fn other_commands_map_to_nothing() {
    assert_eq!(Message::from_raw_msg(raw(None, "001", &["bot", "Welcome"])).unwrap(), None);
    assert_eq!(Message::from_raw_msg(raw(None, "PING", &[])).unwrap(), None);
    assert_eq!(Message::from_raw_msg(raw(Some("a"), "privmsg", &["#c", "x"])).unwrap(), None);
}
