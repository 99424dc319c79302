use carlo::cache::Name;
use carlo::carlo::{Context, Event, IrcCommand, IrcMessage, OutMessage};
use carlo::jenkins::{BuildDuration, BuildNumber, BuildUrl};

fn ctx(owners: &[&str], uptime: u64) -> Context {
    Context {
        nickname: "carlo".to_string(),
        owners: owners.iter().map(|o| o.to_string()).collect(),
        uptime,
    }
}

fn privmsg(source: &str, target: &str, body: &str, response_target: &str) -> IrcMessage {
    IrcMessage {
        command: IrcCommand::Privmsg(target.to_string(), body.to_string()),
        source_nickname: Some(source.to_string()),
        response_target: Some(response_target.to_string()),
    }
}

fn pairs(out: &[OutMessage]) -> Vec<(String, String)> {
    out.iter().map(|m| (m.target.clone(), m.body.clone())).collect()
}

#[test]
fn uptime_in_channel() {
    let out = ctx(&[], 42).handle_irc(privmsg("bob", "#dev", "carlo uptime please", "#dev"));
    assert_eq!(pairs(&out), vec![("#dev".to_string(), "uptime = 42 seconds".to_string())]);
}

#[test]
fn uptime_in_direct_message() {
    let out = ctx(&[], 7).handle_irc(privmsg("bob", "carlo", "uptime", "bob"));
    assert_eq!(pairs(&out), vec![("bob".to_string(), "uptime = 7 seconds".to_string())]);
}

#[test]
fn uptime_zero_and_large() {
    let out = ctx(&[], 0).handle_irc(privmsg("bob", "carlo", "uptime", "bob"));
    assert_eq!(out[0].body, "uptime = 0 seconds");
    let out = ctx(&[], 1234567890).handle_irc(privmsg("bob", "carlo", "uptime", "bob"));
    assert_eq!(out[0].body, "uptime = 1234567890 seconds");
    let out = ctx(&[], u64::MAX).handle_irc(privmsg("bob", "carlo", "uptime", "bob"));
    assert_eq!(out[0].body, "uptime = 18446744073709551615 seconds");
}

#[test]
fn channel_message_not_addressed_is_ignored() {
    let out = ctx(&["alice"], 1).handle_irc(privmsg("bob", "#dev", "hello world", "#dev"));
    assert!(out.is_empty());
    let out = ctx(&["alice"], 1).handle_irc(privmsg("bob", "#dev", "what is the uptime", "#dev"));
    assert!(out.is_empty());
}

#[test]
fn leading_white_space_before_nickname() {
    let out = ctx(&[], 3).handle_irc(privmsg("bob", "#dev", "  \tcarlo uptime", "#dev"));
    assert_eq!(pairs(&out), vec![("#dev".to_string(), "uptime = 3 seconds".to_string())]);
}

#[test]
fn say_by_owner() {
    let out = ctx(&["alice"], 1).handle_irc(privmsg("alice", "#dev", "carlo say #ops deploy starting", "#dev"));
    assert_eq!(pairs(&out), vec![("#ops".to_string(), "deploy starting".to_string())]);
}

#[test]
fn say_by_non_owner() {
    let out = ctx(&["alice"], 1).handle_irc(privmsg("mallory", "#dev", "carlo say #ops drop tables", "#dev"));
    assert!(out.is_empty());
}

#[test]
fn say_without_text_is_dropped() {
    let out = ctx(&["alice"], 1).handle_irc(privmsg("alice", "carlo", "say #ops   ", "alice"));
    assert!(out.is_empty());
}

#[test]
fn say_in_direct_message_trims_text() {
    let out = ctx(&["alice"], 1).handle_irc(privmsg("alice", "carlo", "say  #ops   hi  there  ", "alice"));
    assert_eq!(pairs(&out), vec![("#ops".to_string(), "hi  there".to_string())]);
}

#[test]
fn unknown_command_is_ignored() {
    let out = ctx(&["alice"], 1).handle_irc(privmsg("alice", "carlo", "dance", "alice"));
    assert!(out.is_empty());
}

#[test]
fn other_commands_are_ignored() {
    let msg = IrcMessage { command: IrcCommand::Other, source_nickname: None, response_target: None };
    assert!(ctx(&[], 1).handle_irc(msg).is_empty());
}

#[test]
fn missing_source_nickname_is_not_an_owner() {
    let msg = IrcMessage {
        command: IrcCommand::Privmsg("carlo".to_string(), "say #ops hi".to_string()),
        source_nickname: None,
        response_target: Some("x".to_string()),
    };
    assert!(ctx(&["alice"], 1).handle_irc(msg).is_empty());
}

#[test]
fn announcement_goes_to_each_destination() {
    let event = Event::UpdatedJob(
        "ci-a".to_string(),
        Name("web".to_string()),
        "FAILURE".to_string(),
        BuildNumber(6),
        BuildDuration(12000),
        BuildUrl("u2".to_string()),
        vec!["#dev".to_string(), "#ops".to_string()],
    );
    let out = ctx(&[], 1).handle(event);
    let text = "New build for job 'web' on 'ci-a'! Result: FAILURE".to_string();
    assert_eq!(pairs(&out), vec![("#dev".to_string(), text.clone()), ("#ops".to_string(), text)]);
}

#[test]
fn announcement_without_destinations() {
    let event = Event::UpdatedJob(
        "ci-a".to_string(),
        Name("web".to_string()),
        "SUCCESS".to_string(),
        BuildNumber(1),
        BuildDuration(1),
        BuildUrl(String::new()),
        vec![],
    );
    assert!(ctx(&[], 1).handle(event).is_empty());
}

#[test]
fn incoming_event_is_dispatched() {
    let event = Event::IncomingIrcMessage(privmsg("bob", "#dev", "carlo uptime", "#dev"));
    let out = ctx(&[], 5).handle(event);
    assert_eq!(pairs(&out), vec![("#dev".to_string(), "uptime = 5 seconds".to_string())]);
}

#[test]
fn process_msg_directly() {
    let c = ctx(&["alice"], 9);
    assert_eq!(pairs(&c.process_msg("alice", "#dev", "say #ops hello")), vec![("#ops".to_string(), "hello".to_string())]);
    assert!(c.process_msg("alice", "#dev", "sayx #ops hello").is_empty());
    assert_eq!(c.process_msg("bob", "#dev", "my uptime").len(), 1);
}

#[test]
fn owner_check() {
    let c = ctx(&["alice", "bob"], 0);
    assert!(c.is_owner("bob"));
    assert!(!c.is_owner("bo"));
    assert!(!c.is_owner(""));
}
