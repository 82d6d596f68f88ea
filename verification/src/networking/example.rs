use vstd::prelude::*;

use crate::client::game::{
    join_spaces, lemma_join_len, lemma_join_split, lemma_split_nonempty, split_at_spaces, split_spaces,
};
use crate::formatting::{is_word, push_chars, str_chars, text_of};

verus! {

/// What a line typed into the console client of the networking examples
/// asks for.
pub enum ConsoleCommand {
    Stop,
    Disconnect,
    /// Ask the server, over UDP, for the address it sees.
    GetAddr,
    /// Tell the server this UDP address.
    SetAddr(String),
    UdpEcho(String),
    TcpEcho(String),
    /// Have this many bytes echoed over TCP; the count as typed.
    TcpBig(String),
    /// Connect to these UDP and TCP addresses, as typed.
    Connect(String, String),
    Invalid,
}

/// What a console line asks for, with its texts as characters.
pub enum ConsoleRequest {
    Stop,
    Disconnect,
    GetAddr,
    SetAddr(Seq<char>),
    UdpEcho(Seq<char>),
    TcpEcho(Seq<char>),
    TcpBig(Seq<char>),
    Connect(Seq<char>, Seq<char>),
    Invalid,
}

impl View for ConsoleCommand {
    type V = ConsoleRequest;

    open spec fn view(&self) -> ConsoleRequest {
        match self {
            ConsoleCommand::Stop => ConsoleRequest::Stop,
            ConsoleCommand::Disconnect => ConsoleRequest::Disconnect,
            ConsoleCommand::GetAddr => ConsoleRequest::GetAddr,
            ConsoleCommand::SetAddr(a) => ConsoleRequest::SetAddr(a@),
            ConsoleCommand::UdpEcho(m) => ConsoleRequest::UdpEcho(m@),
            ConsoleCommand::TcpEcho(m) => ConsoleRequest::TcpEcho(m@),
            ConsoleCommand::TcpBig(n) => ConsoleRequest::TcpBig(n@),
            ConsoleCommand::Connect(u, t) => ConsoleRequest::Connect(u@, t@),
            ConsoleCommand::Invalid => ConsoleRequest::Invalid,
        }
    }
}

/// What a console line asks for: by its first words, with the rest of the
/// line, after the command's words and a space, as the text to send.
pub open spec fn console_outcome(msg: Seq<char>) -> ConsoleRequest {
    let ts = split_spaces(msg);
    if ts[0] == "stop"@ {
        ConsoleRequest::Stop
    } else if ts[0] == "disconnect"@ {
        ConsoleRequest::Disconnect
    } else if ts.len() == 1 && ts[0] == "getaddr"@ {
        ConsoleRequest::GetAddr
    } else if ts.len() >= 2 && ts[0] == "setaddr"@ {
        ConsoleRequest::SetAddr(msg.subrange(8, msg.len() as int))
    } else if ts.len() >= 3 && ts[0] == "udp"@ && ts[1] == "echo"@ {
        ConsoleRequest::UdpEcho(msg.subrange(9, msg.len() as int))
    } else if ts.len() >= 3 && ts[0] == "tcp"@ && ts[1] == "echo"@ {
        ConsoleRequest::TcpEcho(msg.subrange(9, msg.len() as int))
    } else if ts.len() == 3 && ts[0] == "tcp"@ && ts[1] == "big"@ {
        ConsoleRequest::TcpBig(ts[2])
    } else if ts.len() == 3 && ts[0] == "connect"@ {
        ConsoleRequest::Connect(ts[1], ts[2])
    } else {
        ConsoleRequest::Invalid
    }
}

/// The characters `cs[from..]` as a text.
fn text_from(cs: &Vec<char>, from: usize) -> (r: String)
    requires
        from <= cs@.len(),
    ensures
        r@ == cs@.subrange(from as int, cs@.len() as int),
{
    let mut out = String::new();
    push_chars(&mut out, cs, from, cs.len());
    out
}

/// What the console line `msg` asks for, as `console_outcome` says.
pub fn parse_console_command(msg: &str) -> (r: ConsoleCommand)
    ensures
        r@ == console_outcome(msg@),
{
    let cs = str_chars(msg);
    let ts = split_at_spaces(&cs, 0);
    let ghost words = ts@.map_values(|t: Vec<char>| t@);
    proof {
        assert(cs@.subrange(0, cs@.len() as int) =~= cs@);
        lemma_split_nonempty(cs@);
        lemma_join_split(cs@);
    }
    assert(ts@.len() == words.len());
    if is_word(&ts[0], "stop") {
        ConsoleCommand::Stop
    } else if is_word(&ts[0], "disconnect") {
        ConsoleCommand::Disconnect
    } else if ts.len() == 1 && is_word(&ts[0], "getaddr") {
        ConsoleCommand::GetAddr
    } else if ts.len() >= 2 && is_word(&ts[0], "setaddr") {
        proof {
            reveal_strlit("setaddr");
            lemma_join_len(words);
        }
        ConsoleCommand::SetAddr(text_from(&cs, 8))
    } else if ts.len() >= 3 && is_word(&ts[0], "udp") && is_word(&ts[1], "echo") {
        proof {
            reveal_strlit("udp");
            reveal_strlit("echo");
            lemma_join_len(words);
        }
        ConsoleCommand::UdpEcho(text_from(&cs, 9))
    } else if ts.len() >= 3 && is_word(&ts[0], "tcp") && is_word(&ts[1], "echo") {
        proof {
            reveal_strlit("tcp");
            reveal_strlit("echo");
            lemma_join_len(words);
        }
        ConsoleCommand::TcpEcho(text_from(&cs, 9))
    } else if ts.len() == 3 && is_word(&ts[0], "tcp") && is_word(&ts[1], "big") {
        ConsoleCommand::TcpBig(text_of(&ts[2]))
    } else if ts.len() == 3 && is_word(&ts[0], "connect") {
        ConsoleCommand::Connect(text_of(&ts[1]), text_of(&ts[2]))
    } else {
        ConsoleCommand::Invalid
    }
}

} // verus!
