use hasuchanbot::command::{admin_id_of, execute_command, Action, Command, Data, ParseError};
use hasuchanbot::file_data::FileData;

fn data(admins: &str, quotes: &str) -> Data {
    Data::new(
        FileData::new("admins.lst".to_string(), admins, true),
        FileData::new("quotes.lst".to_string(), quotes, true),
    )
}

#[test]
fn commands_parse() {
    assert_eq!(Command::parse("/menu", ""), Ok(Command::Menu));
    assert_eq!(Command::parse("/start", ""), Ok(Command::Start));
    assert_eq!(Command::parse("/startw", ""), Ok(Command::Startw));
    assert_eq!(Command::parse("/stopw", ""), Ok(Command::Stopw));
    assert_eq!(Command::parse("/stop", ""), Ok(Command::Stop));
    assert_eq!(Command::parse("/yuru 3", ""), Ok(Command::Yuru(3)));
    assert_eq!(Command::parse("/yuru +3", ""), Ok(Command::Yuru(3)));
    assert_eq!(Command::parse("/menu extra words", ""), Ok(Command::Menu));
    assert_eq!(Command::parse("/menu@", ""), Ok(Command::Menu));
    assert_eq!(Command::parse("/menu@bot", "bot"), Ok(Command::Menu));
}

#[test]
fn command_errors() {
    assert_eq!(Command::parse("/menu@other", ""), Err(ParseError::WrongBotName("other".to_string())));
    assert_eq!(Command::parse("/menu@a@b", "b"), Err(ParseError::WrongBotName("a".to_string())));
    assert_eq!(Command::parse("/Menu", ""), Err(ParseError::UnknownCommand("/Menu".to_string())));
    assert_eq!(Command::parse("hello", ""), Err(ParseError::UnknownCommand("hello".to_string())));
    assert_eq!(Command::parse("/yuru", ""), Err(ParseError::IncorrectFormat("".to_string())));
    assert_eq!(Command::parse("/yuru x", ""), Err(ParseError::IncorrectFormat("x".to_string())));
    assert_eq!(Command::parse("/yuru  3", ""), Err(ParseError::IncorrectFormat("".to_string())));
    assert_eq!(
        Command::parse("/yuru 3 4 5", ""),
        Err(ParseError::TooManyArguments { expected: 1, found: 2, message: "Excess argument: 4".to_string() })
    );
}

#[test]
fn administrators_are_the_ids_in_their_file() {
    let d = data(" 12 \n+7\n-3\nabc\n\n99999999999999999999\n", "");
    assert!(d.is_admin(12));
    assert!(d.is_admin(7));
    assert!(d.is_admin(-3));
    assert!(!d.is_admin(0));
    assert_eq!(d.is_admin.len(), 3);
    assert!(!d.is_collecting_quotes);
}

#[test]
fn startw_and_stopw_need_an_administrator() {
    let mut d = data("5\n", "");
    let r = execute_command(&mut d, &Command::Startw, Some(6), false);
    assert!(matches!(r, Some(Action::Reply(ref s)) if s == "缺少收集語錄權限^ ^"));
    assert!(!d.is_collecting_quotes);
    let r = execute_command(&mut d, &Command::Startw, None, false);
    assert!(matches!(r, Some(Action::Reply(ref s)) if s == "缺少收集語錄權限^ ^"));
    let r = execute_command(&mut d, &Command::Startw, Some(5), false);
    assert!(matches!(r, Some(Action::Reply(ref s)) if s == "開始收集語錄^ ^"));
    assert!(d.is_collecting_quotes);
    let r = execute_command(&mut d, &Command::Stopw, Some(6), false);
    assert!(matches!(r, Some(Action::Reply(ref s)) if s == "缺少收集語錄權限^ ^"));
    assert!(d.is_collecting_quotes);
    let r = execute_command(&mut d, &Command::Stopw, None, true);
    assert!(matches!(r, Some(Action::Reply(ref s)) if s == "停止收集語錄^ ^"));
    assert!(!d.is_collecting_quotes);
}

#[test]
fn yuru_shows_the_quote_at_its_place() {
    // Stored sorted: "aGk=" ("hi"), "plain".
    let mut d = data("", "plain\naGk=\n");
    let r = execute_command(&mut d, &Command::Yuru(1), None, false);
    assert!(matches!(r, Some(Action::Answer(ref s)) if s == "hi"));
    let r = execute_command(&mut d, &Command::Yuru(2), None, false);
    assert!(matches!(r, Some(Action::Answer(ref s)) if s == "plain"));
    for i in [0, 3, usize::MAX] {
        let r = execute_command(&mut d, &Command::Yuru(i), None, false);
        assert!(matches!(r, Some(Action::Reply(ref s)) if s == "下標溢出或不存在。"));
    }
}

#[test]
fn menu_start_and_stop() {
    let mut d = data("", "");
    assert!(matches!(execute_command(&mut d, &Command::Menu, None, false), Some(Action::Menu)));
    assert!(execute_command(&mut d, &Command::Start, None, false).is_none());
    assert!(execute_command(&mut d, &Command::Stop, Some(1), false).is_none());
}

#[test]
fn admin_lines_read_as_ids() {
    assert_eq!(admin_id_of(" 12\t"), Some(12));
    assert_eq!(admin_id_of("-5"), Some(-5));
    assert_eq!(admin_id_of("x1"), None);
    assert_eq!(admin_id_of(""), None);
}
