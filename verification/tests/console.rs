use rustgl::networking::example::{parse_console_command, ConsoleCommand};

#[test]
fn console_lines_are_read_by_their_first_words() {
    assert!(matches!(parse_console_command("stop"), ConsoleCommand::Stop));
    assert!(matches!(parse_console_command("stop now"), ConsoleCommand::Stop));
    assert!(matches!(parse_console_command("disconnect"), ConsoleCommand::Disconnect));
    assert!(matches!(parse_console_command("getaddr"), ConsoleCommand::GetAddr));
    assert!(matches!(parse_console_command("getaddr x"), ConsoleCommand::Invalid));
    assert!(matches!(parse_console_command(""), ConsoleCommand::Invalid));
    assert!(matches!(parse_console_command("tcp echo"), ConsoleCommand::Invalid));
    assert!(matches!(parse_console_command("tcp big"), ConsoleCommand::Invalid));
}

#[test]
fn console_texts_are_the_rest_of_the_line() {
    match parse_console_command("setaddr 1.2.3.4:5 extra") {
        ConsoleCommand::SetAddr(a) => assert_eq!(a, "1.2.3.4:5 extra"),
        _ => panic!(),
    }
    match parse_console_command("udp echo hello  world") {
        ConsoleCommand::UdpEcho(m) => assert_eq!(m, "hello  world"),
        _ => panic!(),
    }
    match parse_console_command("tcp echo x") {
        ConsoleCommand::TcpEcho(m) => assert_eq!(m, "x"),
        _ => panic!(),
    }
    match parse_console_command("tcp big 100") {
        ConsoleCommand::TcpBig(n) => assert_eq!(n, "100"),
        _ => panic!(),
    }
    match parse_console_command("connect a:1 b:2") {
        ConsoleCommand::Connect(u, t) => {
            assert_eq!(u, "a:1");
            assert_eq!(t, "b:2");
        },
        _ => panic!(),
    }
}
