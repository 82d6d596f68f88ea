use rustgl::client::game::{
    input_step, join_with_spaces, parse_chat, split_at_spaces, ChatCommand, InputAction, InputEvent, State,
};
use rustgl::formatting::str_chars;
use rustgl::model::player::commands::PlayerSubCommand;
use rustgl::model::world::character::CharacterType;
use rustgl::model::Subscription;

fn err(line: &str) -> String {
    match parse_chat(line) {
        Err(e) => e,
        Ok(_) => panic!("expected an error for {:?}", line),
    }
}

#[test]
fn plain_text_is_sent_as_a_message() {
    match parse_chat("hello there") {
        Ok(ChatCommand::Send(m)) => assert_eq!(m, " hello there"),
        _ => panic!(),
    }
    match parse_chat("") {
        Ok(ChatCommand::Send(m)) => assert_eq!(m, " "),
        _ => panic!(),
    }
    match parse_chat("/send a  b") {
        Ok(ChatCommand::Send(m)) => assert_eq!(m, " a  b"),
        _ => panic!(),
    }
    assert_eq!(err("/send"), "Unknown command or incorrect parameters.");
}

#[test]
fn simple_commands() {
    assert!(matches!(parse_chat("/hello world"), Ok(ChatCommand::HelloWorld)));
    assert!(matches!(parse_chat("/logout"), Ok(ChatCommand::Logout)));
    assert!(matches!(parse_chat("/logout now"), Ok(ChatCommand::Logout)));
    assert!(matches!(parse_chat("/get players"), Ok(ChatCommand::GetPlayers)));
    assert!(matches!(parse_chat("/gen icewiz"), Ok(ChatCommand::Generate(CharacterType::IceWiz))));
    assert!(matches!(parse_chat("/gen caster"), Ok(ChatCommand::Generate(CharacterType::CasterMinion))));
    assert!(matches!(parse_chat("/listchar"), Ok(ChatCommand::ListChar)));
    assert!(matches!(parse_chat("/clear world"), Ok(ChatCommand::ClearWorld)));
    match parse_chat("/zoom 2.5") {
        Ok(ChatCommand::Zoom(z)) => assert_eq!(z, "2.5"),
        _ => panic!(),
    }
    match parse_chat("/connect 1.2.3.4:5 1.2.3.4:6") {
        Ok(ChatCommand::Connect(u, t)) => {
            assert_eq!(u, "1.2.3.4:5");
            assert_eq!(t, "1.2.3.4:6");
        },
        _ => panic!(),
    }
}

#[test]
fn unknown_commands_are_refused() {
    assert_eq!(err("/"), "Unknown command or incorrect parameters.");
    assert_eq!(err("/hello"), "Unknown command or incorrect parameters.");
    assert_eq!(err("/hello world again"), "Unknown command or incorrect parameters.");
    assert_eq!(err("/gen dragon"), "Unknown command or incorrect parameters.");
    assert_eq!(err("/zoom"), "Unknown command or incorrect parameters.");
    assert_eq!(err("/connect a"), "Unknown command or incorrect parameters.");
    assert_eq!(err("/ hello world"), "Unknown command or incorrect parameters.");
}

#[test]
fn login_lines() {
    match parse_chat("/login") {
        Ok(ChatCommand::Login(l)) => {
            assert!(!l.existing);
            assert_eq!(l.name, None);
        },
        _ => panic!(),
    }
    match parse_chat("/login old Bob Smith") {
        Ok(ChatCommand::Login(l)) => {
            assert!(l.existing);
            assert_eq!(l.name, Some("Bob Smith".to_string()));
        },
        _ => panic!(),
    }
    match parse_chat("/purelogin new") {
        Ok(ChatCommand::PureLogin(l)) => {
            assert!(!l.existing);
            assert_eq!(l.name, None);
        },
        _ => panic!(),
    }
    match parse_chat("/purelogin new ") {
        Ok(ChatCommand::PureLogin(l)) => assert_eq!(l.name, None),
        _ => panic!(),
    }
    match parse_chat("/purelogin new  ") {
        Ok(ChatCommand::PureLogin(l)) => assert_eq!(l.name, Some(" ".to_string())),
        _ => panic!(),
    }
    assert_eq!(err("/login maybe"), "Unknown login type: maybe");
    assert_eq!(err("/purelogin x y"), "Unknown login type: x");
}

fn subs(line: &str) -> PlayerSubCommand {
    match parse_chat(line) {
        Ok(ChatCommand::Subs(s)) => s,
        _ => panic!("expected a subscription command for {:?}", line),
    }
}

#[test]
fn subscription_lines() {
    assert!(matches!(subs("/sub"), PlayerSubCommand::ListSubs));
    assert!(matches!(subs("/sub list"), PlayerSubCommand::ListSubs));
    assert!(matches!(subs("/sub list Chat"), PlayerSubCommand::ListSubs));
    match subs("/sub add Chat World") {
        PlayerSubCommand::AddSubs(l) => assert_eq!(l, vec![Subscription::Chat, Subscription::World]),
        _ => panic!(),
    }
    match subs("/sub del World") {
        PlayerSubCommand::DelSubs(l) => assert_eq!(l, vec![Subscription::World]),
        _ => panic!(),
    }
    match subs("/sub set") {
        PlayerSubCommand::SetSubs(l) => assert_eq!(l, vec![]),
        _ => panic!(),
    }
    assert_eq!(err("/sub add chat"), "Error parsing list: Matching variant not found");
    assert_eq!(err("/sub foo Chat World"), "Invalid option: foo");
    assert_eq!(err("/sub foo"), "Invalid option: foo");
    // a bad list is reported before a bad option
    assert_eq!(err("/sub foo Nope"), "Error parsing list: Matching variant not found");
}

#[test]
fn cutting_at_spaces_and_joining_gives_the_text_back() {
    let line = str_chars("/a  b c ");
    let pieces = split_at_spaces(&line, 1);
    let words: Vec<String> = pieces.iter().map(|p| p.iter().collect()).collect();
    assert_eq!(words, vec!["a", "", "b", "c", ""]);
    assert_eq!(join_with_spaces(&pieces, 0), "a  b c ");
    assert_eq!(join_with_spaces(&pieces, 2), "b c ");
    let empty = split_at_spaces(&line, line.len());
    assert_eq!(empty.len(), 1);
    assert!(empty[0].is_empty());
}

#[test]
fn enter_and_slash_start_typing_and_an_empty_enter_ends_it() {
    assert_eq!(input_step(State::DEFAULT, InputEvent::Enter, true), (State::TYPING, InputAction::StartTyping));
    assert_eq!(input_step(State::DEFAULT, InputEvent::Slash, true), (State::TYPING, InputAction::StartTyping));
    assert_eq!(input_step(State::TYPING, InputEvent::Char('a'), true), (State::TYPING, InputAction::Type('a')));
    assert_eq!(input_step(State::TYPING, InputEvent::Backspace, false), (State::TYPING, InputAction::Erase));
    assert_eq!(input_step(State::TYPING, InputEvent::Enter, false), (State::TYPING, InputAction::Submit));
    assert_eq!(input_step(State::TYPING, InputEvent::Enter, true), (State::DEFAULT, InputAction::StopTyping));
}

#[test]
fn escape_closes_and_playing_keys_do_not_type() {
    assert_eq!(input_step(State::TYPING, InputEvent::Escape, false), (State::DEFAULT, InputAction::Close));
    assert_eq!(input_step(State::DEFAULT, InputEvent::Char('a'), true), (State::DEFAULT, InputAction::Nothing));
    assert_eq!(input_step(State::DEFAULT, InputEvent::KeyY, true), (State::DEFAULT, InputAction::ToggleLock));
    assert_eq!(input_step(State::TYPING, InputEvent::KeyY, true), (State::TYPING, InputAction::Nothing));
    assert_eq!(input_step(State::TYPING, InputEvent::Resize(3, 4), true), (State::TYPING, InputAction::Resize(3, 4)));
}
