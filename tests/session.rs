use consolation::grammar::IrcError;
use consolation::irc::{join_command, receive_step, IrcBuilder, Message, PrivMsg, Step};

#[test]
fn end_to_end_privmsg() {
    let line = "@badge-info=;color=#FF0000 :alice!alice@host PRIVMSG #chan :hello world\r\n";
    let step = receive_step(line.len(), line).unwrap();
    assert_eq!(
        step,
        Step::Deliver(Message::PrivMsg(PrivMsg {
            username: "alice".to_string(),
            message: "hello world".to_string()
        }))
    );
}

#[test]
fn welcome_is_skipped_and_next_privmsg_delivered() {
    let lines = [":server 001 bot :Welcome\r\n", ":bob!bob@h PRIVMSG #chan :hey\r\n"];
    assert_eq!(receive_step(lines[0].len(), lines[0]).unwrap(), Step::ReadAgain);
    let mut delivered = None;
    for line in lines.iter() {
        match receive_step(line.len(), line).unwrap() {
            Step::ReadAgain => continue,
            Step::Deliver(m) => {
                delivered = Some(m);
                break;
            }
            Step::Closed => break,
        }
    }
    assert_eq!(
        delivered,
        Some(Message::PrivMsg(PrivMsg { username: "bob".to_string(), message: "hey".to_string() }))
    );
}

#[test]
fn zero_length_read_is_closed_every_time() {
    assert_eq!(receive_step(0, "").unwrap(), Step::Closed);
    assert_eq!(receive_step(0, "").unwrap(), Step::Closed);
    assert_eq!(receive_step(0, "PRIVMSG #c :x\r\n").unwrap(), Step::Closed);
}

#[test]
fn receive_errors_propagate() {
    assert_eq!(receive_step(2, "\r\n").unwrap_err(), IrcError::MissingCommandName);
    let line = "PRIVMSG #c :x\r\n";
    assert_eq!(receive_step(line.len(), line).unwrap_err(), IrcError::MissingPrefix);
    let line = ":a!a@h PRIVMSG #c\r\n";
    assert_eq!(receive_step(line.len(), line).unwrap_err(), IrcError::MissingBody);
}

#[test]
fn join_prepends_hash() {
    assert_eq!(join_command("channel"), "JOIN #channel");
}

#[test]
fn handshake_with_everything() {
    let b = IrcBuilder::default()
        .with_nickname("nickname")
        .with_password("my_password")
        .with_capability("twitch.tv/tags")
        .with_capability("twitch.tv/members");
    assert_eq!(
        b.handshake(),
        vec![
            "CAP REQ :twitch.tv/tags twitch.tv/members".to_string(),
            "PASS my_password".to_string(),
            "NICK nickname".to_string(),
        ]
    );
}

#[test]
fn handshake_with_nothing_is_empty() {
    assert!(IrcBuilder::default().handshake().is_empty());
}

#[test]
fn handshake_nick_only() {
    let b = IrcBuilder::default().with_nickname("n");
    assert_eq!(b.handshake(), vec!["NICK n".to_string()]);
}

#[test]
fn handshake_single_capability_and_password() {
    let b = IrcBuilder::default().with_capability("c1").with_password("p");
    assert_eq!(b.handshake(), vec!["CAP REQ :c1".to_string(), "PASS p".to_string()]);
}

#[test]
fn later_setting_replaces_earlier() {
    let b = IrcBuilder::default().with_password("a").with_password("b");
    assert_eq!(b.handshake(), vec!["PASS b".to_string()]);
}
