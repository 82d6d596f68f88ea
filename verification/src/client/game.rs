use vstd::prelude::*;

use crate::model::player::commands::{PlayerLogIn, PlayerSubCommand};
use crate::model::world::character::CharacterType;
use crate::formatting::{is_word, push_char, push_chars, str_chars, text_of, text_with};
use crate::model::world::player::viewed;
use crate::model::Subscription;

verus! {

/// The pieces of `s` between single spaces, as `str::split(' ')` cuts
/// them: two spaces in a row leave an empty piece between them, and there
/// is always at least one piece.
pub open spec fn split_spaces(s: Seq<char>) -> Seq<Seq<char>>
    decreases s.len(),
{
    if s.len() == 0 {
        seq![Seq::<char>::empty()]
    } else {
        let prev = split_spaces(s.drop_last());
        if s.last() == ' ' {
            prev.push(Seq::<char>::empty())
        } else {
            prev.update(prev.len() - 1, prev.last().push(s.last()))
        }
    }
}

/// The pieces `ts` put back together with a space between each two.
pub open spec fn join_spaces(ts: Seq<Seq<char>>) -> Seq<char>
    decreases ts.len(),
{
    if ts.len() == 0 {
        Seq::<char>::empty()
    } else if ts.len() == 1 {
        ts[0]
    } else {
        join_spaces(ts.drop_last()) + seq![' '] + ts.last()
    }
}

pub(crate) proof fn lemma_split_nonempty(s: Seq<char>)
    ensures
        split_spaces(s).len() >= 1,
    decreases s.len(),
{
    if s.len() > 0 {
        lemma_split_nonempty(s.drop_last());
    }
}

/// Cutting a text at its spaces and joining the pieces with spaces gives
/// the text back.
pub proof fn lemma_join_split(s: Seq<char>)
    ensures
        join_spaces(split_spaces(s)) == s,
    decreases s.len(),
{
    if s.len() > 0 {
        let prev = split_spaces(s.drop_last());
        lemma_split_nonempty(s.drop_last());
        lemma_join_split(s.drop_last());
        let ts = split_spaces(s);
        if s.last() == ' ' {
            assert(ts.drop_last() =~= prev);
            assert(s =~= s.drop_last() + seq![' '] + Seq::<char>::empty());
        } else {
            if prev.len() == 1 {
                assert(ts[0] =~= prev[0].push(s.last()));
                assert(s =~= s.drop_last().push(s.last()));
            } else {
                assert(ts.drop_last() =~= prev.drop_last());
                assert(join_spaces(prev) == join_spaces(prev.drop_last()) + seq![' '] + prev.last());
                let a = join_spaces(prev.drop_last());
                assert(s =~= s.drop_last().push(s.last()));
                assert((a + seq![' '] + prev.last()).push(s.last()) =~= a + seq![' '] + prev.last().push(s.last()));
                assert(ts.last() == prev.last().push(s.last()));
            }
        }
    }
}

/// Cuts `cs[from..]` at its spaces, as `split_spaces` says.
pub fn split_at_spaces(cs: &Vec<char>, from: usize) -> (r: Vec<Vec<char>>)
    requires
        from <= cs@.len(),
    ensures
        r@.map_values(|t: Vec<char>| t@) == split_spaces(cs@.subrange(from as int, cs@.len() as int)),
{
    let mut done: Vec<Vec<char>> = Vec::new();
    let mut cur: Vec<char> = Vec::new();
    let mut i = from;
    while i < cs.len()
        invariant
            from <= i <= cs@.len(),
            done@.map_values(|t: Vec<char>| t@).push(cur@) == split_spaces(cs@.subrange(from as int, i as int)),
        decreases cs@.len() - i,
    {
        let ghost before = cs@.subrange(from as int, i as int);
        let ghost after = cs@.subrange(from as int, i + 1);
        assert(after.drop_last() =~= before);
        proof {
            lemma_split_nonempty(before);
        }
        if cs[i] == ' ' {
            let piece = cur;
            cur = Vec::new();
            done.push(piece);
            assert(done@.map_values(|t: Vec<char>| t@).push(cur@) =~= split_spaces(before).push(
                Seq::<char>::empty(),
            ));
        } else {
            cur.push(cs[i]);
            let ghost prev = split_spaces(before);
            assert(done@.map_values(|t: Vec<char>| t@).push(cur@) =~= prev.update(
                prev.len() - 1,
                prev.last().push(cs@[i as int]),
            ));
        }
        i = i + 1;
    }
    done.push(cur);
    assert(done@.map_values(|t: Vec<char>| t@) =~= split_spaces(cs@.subrange(from as int, cs@.len() as int)));
    done
}

/// The pieces `ts[from..]` joined with spaces, as `join_spaces` says.
pub fn join_with_spaces(ts: &Vec<Vec<char>>, from: usize) -> (r: String)
    requires
        from <= ts@.len(),
    ensures
        r@ == join_spaces(ts@.map_values(|t: Vec<char>| t@).subrange(from as int, ts@.len() as int)),
{
    let mut out = String::new();
    let mut i = from;
    while i < ts.len()
        invariant
            from <= i <= ts@.len(),
            out@ == join_spaces(ts@.map_values(|t: Vec<char>| t@).subrange(from as int, i as int)),
        decreases ts@.len() - i,
    {
        let ghost words = ts@.map_values(|t: Vec<char>| t@);
        assert(words.subrange(from as int, i + 1).drop_last() =~= words.subrange(from as int, i as int));
        if i > from {
            push_char(&mut out, ' ');
        }
        let t = &ts[i];
        push_chars(&mut out, t, 0, t.len());
        assert(t@.subrange(0, t@.len() as int) =~= t@);
        if i == from {
            assert(out@ =~= words.subrange(from as int, i + 1)[0]);
        } else {
            assert(out@ =~= join_spaces(words.subrange(from as int, i as int)) + seq![' '] + words[i as int]);
        }
        i = i + 1;
    }
    out
}

pub(crate) proof fn lemma_join_len(ts: Seq<Seq<char>>)
    requires
        ts.len() >= 1,
    ensures
        join_spaces(ts).len() >= ts[0].len(),
        ts.len() >= 2 ==> join_spaces(ts).len() >= ts[0].len() + ts[1].len() + 1,
        ts.len() >= 3 ==> join_spaces(ts).len() >= ts[0].len() + ts[1].len() + 2,
    decreases ts.len(),
{
    if ts.len() >= 2 {
        lemma_join_len(ts.drop_last());
        assert(ts.drop_last()[0] == ts[0]);
        if ts.len() >= 3 {
            assert(ts.drop_last()[1] == ts[1]);
        }
    }
}

/// The subscription a word names, as its variant's name.
pub open spec fn subscription_named(t: Seq<char>) -> Option<Subscription> {
    if t == "Chat"@ {
        Some(Subscription::Chat)
    } else if t == "World"@ {
        Some(Subscription::World)
    } else {
        None
    }
}

/// The subscriptions the words `ts` name, if each names one.
pub open spec fn subscriptions_named(ts: Seq<Seq<char>>) -> Option<Seq<Subscription>>
    decreases ts.len(),
{
    if ts.len() == 0 {
        Some(Seq::<Subscription>::empty())
    } else {
        match (subscriptions_named(ts.drop_last()), subscription_named(ts.last())) {
            (Some(a), Some(b)) => Some(a.push(b)),
            _ => None,
        }
    }
}

/// What the words of a log-in line ask for: whether the player exists
/// (`new` or `old`, and new when not said), and the name made of the
/// remaining words, if they make one.
pub open spec fn login_request(ts: Seq<Seq<char>>) -> Result<(bool, Option<Seq<char>>), Seq<char>> {
    let existing = if ts.len() >= 2 {
        if ts[1] == "new"@ {
            Ok(false)
        } else if ts[1] == "old"@ {
            Ok(true)
        } else {
            Err("Unknown login type: "@ + ts[1])
        }
    } else {
        Ok(false)
    };
    let name = if ts.len() >= 3 && join_spaces(ts.subrange(2, ts.len() as int)).len() > 0 {
        Some(join_spaces(ts.subrange(2, ts.len() as int)))
    } else {
        None
    };
    match existing {
        Ok(e) => Ok((e, name)),
        Err(m) => Err(m),
    }
}

/// What a chat line asks the client to do.
pub enum ChatCommand {
    HelloWorld,
    /// Connect to the server at these UDP and TCP addresses, as typed.
    Connect(String, String),
    /// Log in only.
    PureLogin(PlayerLogIn),
    /// Log in, subscribe to chat and world, and ask for a character.
    Login(PlayerLogIn),
    Logout,
    /// Send this chat message.
    Send(String),
    GetPlayers,
    Generate(CharacterType),
    Subs(PlayerSubCommand),
    ListChar,
    /// Set the camera's zoom to this number, as typed.
    Zoom(String),
    ClearWorld,
}

/// What a chat line asks the client to do, with its texts as characters.
pub enum ChatRequest {
    HelloWorld,
    Connect(Seq<char>, Seq<char>),
    PureLogin(bool, Option<Seq<char>>),
    Login(bool, Option<Seq<char>>),
    Logout,
    Send(Seq<char>),
    GetPlayers,
    Generate(CharacterType),
    ListSubs,
    AddSubs(Seq<Subscription>),
    DelSubs(Seq<Subscription>),
    SetSubs(Seq<Subscription>),
    ListChar,
    Zoom(Seq<char>),
    ClearWorld,
}

impl View for ChatCommand {
    type V = ChatRequest;

    open spec fn view(&self) -> ChatRequest {
        match self {
            ChatCommand::HelloWorld => ChatRequest::HelloWorld,
            ChatCommand::Connect(udp, tcp) => ChatRequest::Connect(udp@, tcp@),
            ChatCommand::PureLogin(l) => ChatRequest::PureLogin(l.existing, viewed(l.name)),
            ChatCommand::Login(l) => ChatRequest::Login(l.existing, viewed(l.name)),
            ChatCommand::Logout => ChatRequest::Logout,
            ChatCommand::Send(m) => ChatRequest::Send(m@),
            ChatCommand::GetPlayers => ChatRequest::GetPlayers,
            ChatCommand::Generate(t) => ChatRequest::Generate(*t),
            ChatCommand::Subs(PlayerSubCommand::ListSubs) => ChatRequest::ListSubs,
            ChatCommand::Subs(PlayerSubCommand::AddSubs(l)) => ChatRequest::AddSubs(l@),
            ChatCommand::Subs(PlayerSubCommand::DelSubs(l)) => ChatRequest::DelSubs(l@),
            ChatCommand::Subs(PlayerSubCommand::SetSubs(l)) => ChatRequest::SetSubs(l@),
            ChatCommand::ListChar => ChatRequest::ListChar,
            ChatCommand::Zoom(z) => ChatRequest::Zoom(z@),
            ChatCommand::ClearWorld => ChatRequest::ClearWorld,
        }
    }
}

/// The line a chat entry stands for: a command as typed when it starts
/// with `/`, else a message to send.
pub open spec fn command_line(command: Seq<char>) -> Seq<char> {
    if command.len() > 0 && command[0] == '/' {
        command
    } else {
        "/send "@ + command
    }
}

/// What a chat entry asks for, or the error shown for it.
pub open spec fn chat_outcome(command: Seq<char>) -> Result<ChatRequest, Seq<char>> {
    let line = command_line(command);
    let ts = split_spaces(line.subrange(1, line.len() as int));
    if ts.len() == 2 && ts[0] == "hello"@ && ts[1] == "world"@ {
        Ok(ChatRequest::HelloWorld)
    } else if ts.len() == 3 && ts[0] == "connect"@ {
        Ok(ChatRequest::Connect(ts[1], ts[2]))
    } else if ts[0] == "purelogin"@ {
        match login_request(ts) {
            Ok((e, n)) => Ok(ChatRequest::PureLogin(e, n)),
            Err(m) => Err(m),
        }
    } else if ts[0] == "login"@ {
        match login_request(ts) {
            Ok((e, n)) => Ok(ChatRequest::Login(e, n)),
            Err(m) => Err(m),
        }
    } else if ts[0] == "logout"@ {
        Ok(ChatRequest::Logout)
    } else if ts.len() >= 2 && ts[0] == "send"@ {
        Ok(ChatRequest::Send(line.subrange(5, line.len() as int)))
    } else if ts.len() == 2 && ts[0] == "get"@ && ts[1] == "players"@ {
        Ok(ChatRequest::GetPlayers)
    } else if ts.len() == 2 && ts[0] == "gen"@ && ts[1] == "icewiz"@ {
        Ok(ChatRequest::Generate(CharacterType::IceWiz))
    } else if ts.len() == 2 && ts[0] == "gen"@ && ts[1] == "caster"@ {
        Ok(ChatRequest::Generate(CharacterType::CasterMinion))
    } else if ts[0] == "sub"@ && (ts.len() == 1 || ts[1] == "list"@) {
        Ok(ChatRequest::ListSubs)
    } else if ts[0] == "sub"@ {
        let list = if ts.len() <= 2 {
            Some(Seq::<Subscription>::empty())
        } else {
            subscriptions_named(ts.subrange(2, ts.len() as int))
        };
        match list {
            None => Err("Error parsing list: Matching variant not found"@),
            Some(l) => if ts[1] == "add"@ {
                Ok(ChatRequest::AddSubs(l))
            } else if ts[1] == "del"@ {
                Ok(ChatRequest::DelSubs(l))
            } else if ts[1] == "set"@ {
                Ok(ChatRequest::SetSubs(l))
            } else {
                Err("Invalid option: "@ + ts[1])
            },
        }
    } else if ts.len() == 1 && ts[0] == "listchar"@ {
        Ok(ChatRequest::ListChar)
    } else if ts.len() == 2 && ts[0] == "zoom"@ {
        Ok(ChatRequest::Zoom(ts[1]))
    } else if ts.len() == 2 && ts[0] == "clear"@ && ts[1] == "world"@ {
        Ok(ChatRequest::ClearWorld)
    } else {
        Err("Unknown command or incorrect parameters."@)
    }
}

/// The subscriptions the words `ts[from..]` name, as `subscriptions_named`
/// says.
fn parse_subscriptions(ts: &Vec<Vec<char>>, from: usize) -> (r: Option<Vec<Subscription>>)
    requires
        from <= ts@.len(),
    ensures
        match r {
            Some(l) => subscriptions_named(ts@.map_values(|t: Vec<char>| t@).subrange(from as int, ts@.len() as int))
                == Some(l@),
            None => subscriptions_named(ts@.map_values(|t: Vec<char>| t@).subrange(from as int, ts@.len() as int))
                is None,
        },
{
    let ghost words = ts@.map_values(|t: Vec<char>| t@);
    let mut out: Vec<Subscription> = Vec::new();
    let mut i = from;
    while i < ts.len()
        invariant
            from <= i <= ts@.len(),
            words == ts@.map_values(|t: Vec<char>| t@),
            subscriptions_named(words.subrange(from as int, i as int)) == Some(out@),
        decreases ts@.len() - i,
    {
        assert(words.subrange(from as int, i + 1).drop_last() =~= words.subrange(from as int, i as int));
        let s = if is_word(&ts[i], "Chat") {
            Subscription::Chat
        } else if is_word(&ts[i], "World") {
            Subscription::World
        } else {
            proof {
                assert(subscription_named(words[i as int]) is None);
            }
            let mut j = i + 1;
            while j < ts.len()
                invariant
                    from <= i < j <= ts@.len(),
                    words == ts@.map_values(|t: Vec<char>| t@),
                    subscriptions_named(words.subrange(from as int, j as int)) is None,
                decreases ts@.len() - j,
            {
                assert(words.subrange(from as int, j + 1).drop_last() =~= words.subrange(from as int, j as int));
                j = j + 1;
            }
            return None;
        };
        out.push(s);
        i = i + 1;
    }
    Some(out)
}

/// The log-in that the words `ts` ask for, as `login_request` says.
fn parse_login(ts: &Vec<Vec<char>>) -> (r: Result<PlayerLogIn, String>)
    ensures
        match r {
            Ok(l) => login_request(ts@.map_values(|t: Vec<char>| t@)) == Ok::<_, Seq<char>>(
                (l.existing, viewed(l.name)),
            ),
            Err(e) => login_request(ts@.map_values(|t: Vec<char>| t@)) == Err::<(bool, Option<Seq<char>>), _>(
                e@,
            ),
        },
{
    let existing = if ts.len() >= 2 {
        if is_word(&ts[1], "new") {
            false
        } else if is_word(&ts[1], "old") {
            true
        } else {
            return Err(text_with("Unknown login type: ", &ts[1]));
        }
    } else {
        false
    };
    let name = if ts.len() >= 3 {
        let x = join_with_spaces(ts, 2);
        if x.as_str().unicode_len() > 0 {
            Some(x)
        } else {
            None
        }
    } else {
        None
    };
    Ok(PlayerLogIn { existing, name })
}

/// What the chat entry `command` asks for, or the error to show for it,
/// as `chat_outcome` says.
pub fn parse_chat(command: &str) -> (r: Result<ChatCommand, String>)
    ensures
        match r {
            Ok(c) => chat_outcome(command@) == Ok::<ChatRequest, Seq<char>>(c@),
            Err(e) => chat_outcome(command@) == Err::<ChatRequest, Seq<char>>(e@),
        },
{
    let cs = str_chars(command);
    let line: Vec<char> = if cs.len() > 0 && cs[0] == '/' {
        cs
    } else {
        let mut l = str_chars("/send ");
        let mut rest = cs;
        l.append(&mut rest);
        l
    };
    proof {
        reveal_strlit("/send ");
    }
    assert(line@ =~= command_line(command@));
    let ts = split_at_spaces(&line, 1);
    let ghost rest = line@.subrange(1, line@.len() as int);
    let ghost words = ts@.map_values(|t: Vec<char>| t@);
    proof {
        lemma_split_nonempty(rest);
    }
    assert(ts@.len() == words.len());
    if ts.len() == 2 && is_word(&ts[0], "hello") && is_word(&ts[1], "world") {
        Ok(ChatCommand::HelloWorld)
    } else if ts.len() == 3 && is_word(&ts[0], "connect") {
        Ok(ChatCommand::Connect(text_of(&ts[1]), text_of(&ts[2])))
    } else if is_word(&ts[0], "purelogin") {
        match parse_login(&ts) {
            Ok(l) => Ok(ChatCommand::PureLogin(l)),
            Err(e) => Err(e),
        }
    } else if is_word(&ts[0], "login") {
        match parse_login(&ts) {
            Ok(l) => Ok(ChatCommand::Login(l)),
            Err(e) => Err(e),
        }
    } else if is_word(&ts[0], "logout") {
        Ok(ChatCommand::Logout)
    } else if ts.len() >= 2 && is_word(&ts[0], "send") {
        proof {
            reveal_strlit("send");
            lemma_join_split(rest);
            lemma_join_len(words);
        }
        let mut m = String::new();
        push_chars(&mut m, &line, 5, line.len());
        Ok(ChatCommand::Send(m))
    } else if ts.len() == 2 && is_word(&ts[0], "get") && is_word(&ts[1], "players") {
        Ok(ChatCommand::GetPlayers)
    } else if ts.len() == 2 && is_word(&ts[0], "gen") && is_word(&ts[1], "icewiz") {
        Ok(ChatCommand::Generate(CharacterType::IceWiz))
    } else if ts.len() == 2 && is_word(&ts[0], "gen") && is_word(&ts[1], "caster") {
        Ok(ChatCommand::Generate(CharacterType::CasterMinion))
    } else if is_word(&ts[0], "sub") && (ts.len() == 1 || is_word(&ts[1], "list")) {
        Ok(ChatCommand::Subs(PlayerSubCommand::ListSubs))
    } else if is_word(&ts[0], "sub") {
        let list = if ts.len() <= 2 {
            Some(Vec::new())
        } else {
            parse_subscriptions(&ts, 2)
        };
        match list {
            None => Err(String::from_str("Error parsing list: Matching variant not found")),
            Some(l) => {
                if is_word(&ts[1], "add") {
                    Ok(ChatCommand::Subs(PlayerSubCommand::AddSubs(l)))
                } else if is_word(&ts[1], "del") {
                    Ok(ChatCommand::Subs(PlayerSubCommand::DelSubs(l)))
                } else if is_word(&ts[1], "set") {
                    Ok(ChatCommand::Subs(PlayerSubCommand::SetSubs(l)))
                } else {
                    Err(text_with("Invalid option: ", &ts[1]))
                }
            },
        }
    } else if ts.len() == 1 && is_word(&ts[0], "listchar") {
        Ok(ChatCommand::ListChar)
    } else if ts.len() == 2 && is_word(&ts[0], "zoom") {
        Ok(ChatCommand::Zoom(text_of(&ts[1])))
    } else if ts.len() == 2 && is_word(&ts[0], "clear") && is_word(&ts[1], "world") {
        Ok(ChatCommand::ClearWorld)
    } else {
        Err(String::from_str("Unknown command or incorrect parameters."))
    }
}

/// What the keyboard is for: playing, or typing a chat line.
#[allow(non_camel_case_types)]
#[derive(Clone, Copy, Debug, PartialEq, Eq, Structural)]
pub enum State {
    DEFAULT,
    TYPING,
}

/// A window event, as far as the keyboard mode cares.
#[derive(Clone, Copy, Debug, PartialEq, Eq, Structural)]
pub enum InputEvent {
    /// Escape was pressed.
    Escape,
    /// The window now has this width and height.
    Resize(i32, i32),
    /// A character was typed.
    Char(char),
    /// Backspace was pressed or held.
    Backspace,
    /// Enter was pressed.
    Enter,
    /// The slash key was pressed.
    Slash,
    /// The Y key was pressed.
    KeyY,
    Other,
}

/// What the game does about an event.
#[derive(Clone, Copy, Debug, PartialEq, Eq, Structural)]
pub enum InputAction {
    /// Close the window.
    Close,
    Resize(i32, i32),
    /// Add the character to the line being typed.
    Type(char),
    /// Take the last character off the line being typed.
    Erase,
    /// Take the line being typed and run it as a chat command.
    Submit,
    /// Show the typing cursor.
    StartTyping,
    /// Hide the typing cursor.
    StopTyping,
    /// Lock or unlock the camera.
    ToggleLock,
    Nothing,
}

/// The keyboard mode after an event, and what to do about it: Escape closes
/// the window and leaves typing; a resize is passed on in either mode; while
/// typing, characters and backspaces edit the line, and Enter runs the line,
/// or leaves typing if the line is empty; while playing, Enter or slash
/// start typing and Y locks or unlocks the camera; anything else is ignored.
pub open spec fn spec_input_step(state: State, event: InputEvent, line_empty: bool) -> (State, InputAction) {
    match (state, event) {
        (_, InputEvent::Escape) => (State::DEFAULT, InputAction::Close),
        (_, InputEvent::Resize(w, h)) => (state, InputAction::Resize(w, h)),
        (State::TYPING, InputEvent::Char(c)) => (state, InputAction::Type(c)),
        (State::TYPING, InputEvent::Backspace) => (state, InputAction::Erase),
        (State::TYPING, InputEvent::Enter) => if line_empty {
            (State::DEFAULT, InputAction::StopTyping)
        } else {
            (state, InputAction::Submit)
        },
        (State::DEFAULT, InputEvent::Enter) => (State::TYPING, InputAction::StartTyping),
        (State::DEFAULT, InputEvent::Slash) => (State::TYPING, InputAction::StartTyping),
        (State::DEFAULT, InputEvent::KeyY) => (state, InputAction::ToggleLock),
        _ => (state, InputAction::Nothing),
    }
}

/// One step of the keyboard mode, as `spec_input_step` says; `line_empty`
/// tells whether the line being typed is empty.
pub fn input_step(state: State, event: InputEvent, line_empty: bool) -> (r: (State, InputAction))
    ensures
        r == spec_input_step(state, event, line_empty),
{
    match (state, event) {
        (_, InputEvent::Escape) => (State::DEFAULT, InputAction::Close),
        (_, InputEvent::Resize(w, h)) => (state, InputAction::Resize(w, h)),
        (State::TYPING, InputEvent::Char(c)) => (state, InputAction::Type(c)),
        (State::TYPING, InputEvent::Backspace) => (state, InputAction::Erase),
        (State::TYPING, InputEvent::Enter) => if line_empty {
            (State::DEFAULT, InputAction::StopTyping)
        } else {
            (state, InputAction::Submit)
        },
        (State::DEFAULT, InputEvent::Enter) => (State::TYPING, InputAction::StartTyping),
        (State::DEFAULT, InputEvent::Slash) => (State::TYPING, InputAction::StartTyping),
        (State::DEFAULT, InputEvent::KeyY) => (state, InputAction::ToggleLock),
        _ => (state, InputAction::Nothing),
    }
}

/// Typing is left only by Escape or by Enter on an empty line, and nothing
/// typed while playing reaches the chat line.
pub proof fn lemma_input_modes(state: State, event: InputEvent, line_empty: bool)
    ensures
        state == State::TYPING && spec_input_step(state, event, line_empty).0 == State::DEFAULT ==> event
            == InputEvent::Escape || (event == InputEvent::Enter && line_empty),
        state == State::DEFAULT ==> !(spec_input_step(state, event, line_empty).1 is Type)
            && !(spec_input_step(state, event, line_empty).1 is Erase)
            && !(spec_input_step(state, event, line_empty).1 is Submit),
{
}

} // verus!
