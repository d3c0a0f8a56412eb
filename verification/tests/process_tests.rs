use hasuchanbot::command::{execute_command, Action, Command, Data};
use hasuchanbot::file_data::{split_lines_of, FileData};
use hasuchanbot::process::{
    asks_for_hug, check_send_quotes, collect_quote, command_of, handle_message, pick_quote,
    print_message, quote_saved_reply, send_quotes, MessageOutcome,
};
use hasuchanbot::terminal::handle_terminal;

fn data(admins: &str, quotes: &str) -> Data {
    Data::new(
        FileData::new("admins.lst".to_string(), admins, true),
        FileData::new("quotes.lst".to_string(), quotes, true),
    )
}

#[test]
fn commands_come_from_texts_that_start_with_a_slash() {
    assert_eq!(command_of("/yuru 2  "), Some(Command::Yuru(2)));
    assert_eq!(command_of("/menu"), Some(Command::Menu));
    assert_eq!(command_of(" /menu"), None);
    assert_eq!(command_of("/nothing"), None);
    assert_eq!(command_of("/menu@somebot"), None);
    assert_eq!(command_of(""), None);
}

#[test]
fn hugs_are_asked_for_in_either_script() {
    assert!(asks_for_hug("來貼貼"));
    assert!(asks_for_hug("贴贴!"));
    assert!(!asks_for_hug("貼 貼"));
}

#[test]
fn quotes_are_sent_where_the_bot_is_addressed() {
    assert!(check_send_quotes(9, Some(Some(9)), true));
    assert!(!check_send_quotes(9, Some(Some(8)), false));
    assert!(!check_send_quotes(9, Some(None), false));
    assert!(check_send_quotes(9, None, false));
    assert!(!check_send_quotes(9, None, true));
}

#[test]
fn a_quote_is_picked_modulo_their_number() {
    let d = data("", "aGk=\nplain\n");
    assert_eq!(pick_quote(&d, 0), Some("hi".to_string()));
    assert_eq!(pick_quote(&d, 3), Some("plain".to_string()));
    assert_eq!(pick_quote(&data("", ""), 3), None);
    let r = send_quotes(&d).unwrap();
    assert!(r == "hi" || r == "plain");
    assert_eq!(send_quotes(&data("", "")), None);
}

#[test]
fn only_administrators_add_quotes_while_collecting() {
    let mut d = data("5\n", "");
    assert_eq!(collect_quote(&mut d, 5, "hello"), None);
    execute_command(&mut d, &Command::Startw, Some(5), false);
    assert_eq!(collect_quote(&mut d, 6, "hello"), None);
    assert_eq!(collect_quote(&mut d, 5, ""), None);
    assert_eq!(collect_quote(&mut d, 5, "hello"), Some("aGVsbG8=\n".to_string()));
    assert_eq!(d.quotes.content, vec!["aGVsbG8=".to_string()]);
}

#[test]
fn a_collected_quote_is_shown_back() {
    let mut d = data("5\n", "plain\n");
    execute_command(&mut d, &Command::Startw, Some(5), false);
    let text = collect_quote(&mut d, 5, "貼貼 quote\twith tab").unwrap();
    let n = d.quotes.content.len();
    let r = execute_command(&mut d, &Command::Yuru(n), None, false);
    assert!(matches!(r, Some(Action::Answer(ref s)) if s == "貼貼 quote\twith tab"));
    // The file text written reads back as the same lines.
    assert_eq!(split_lines_of(&text), d.quotes.content);
}

#[test]
fn saving_is_reported() {
    assert_eq!(quote_saved_reply(None), "已保存語錄^ ^");
    assert_eq!(quote_saved_reply(Some("disk full")), "保存語錄失敗- -:disk full");
}

#[test]
fn messages_print_with_their_sender() {
    assert_eq!(print_message(Some("Ann"), Some("hi")), "Ann:hi");
    assert_eq!(print_message(None, None), "Could not get the name of the user.:");
}

#[test]
fn the_terminal_runs_commands_as_administrator() {
    let mut d = data("", "");
    assert!(handle_terminal(&mut d, &Command::Startw));
    assert!(d.is_collecting_quotes);
    assert!(handle_terminal(&mut d, &Command::Stopw));
    assert!(!d.is_collecting_quotes);
    assert!(!handle_terminal(&mut d, &Command::Stop));
}

#[test]
fn a_command_message_runs_the_command() {
    let mut d = data("5\n", "");
    let r = handle_message(&mut d, Some("/startw"), Some(5), 9, None, true);
    assert!(matches!(r, MessageOutcome::Command(Command::Startw, Some(Action::Reply(ref s))) if s == "開始收集語錄^ ^"));
    assert!(d.is_collecting_quotes);
    let r = handle_message(&mut d, Some("/start"), Some(5), 9, None, true);
    assert!(matches!(r, MessageOutcome::Command(Command::Start, None)));
}

#[test]
fn a_chat_message_gets_a_hug_a_quote_and_is_collected() {
    let mut d = data("5\n", "aGk=\n");
    execute_command(&mut d, &Command::Startw, Some(5), false);
    let r = handle_message(&mut d, Some("貼貼"), Some(5), 9, Some(Some(9)), true);
    match r {
        MessageOutcome::Chat { replies, quotes_file } => {
            assert_eq!(replies, vec!["貼貼^ ^".to_string(), "hi".to_string()]);
            assert_eq!(quotes_file, Some("aGk=\n6LK86LK8\n".to_string()));
        }
        _ => panic!("no chat outcome"),
    }
    assert_eq!(d.quotes.content.len(), 2);
}

#[test]
fn a_plain_message_in_a_public_chat_gets_nothing() {
    let mut d = data("5\n", "aGk=\n");
    let r = handle_message(&mut d, Some("hello"), Some(6), 9, None, true);
    match r {
        MessageOutcome::Chat { replies, quotes_file } => {
            assert!(replies.is_empty());
            assert!(quotes_file.is_none());
        }
        _ => panic!("no chat outcome"),
    }
    let r = handle_message(&mut d, None, None, 9, None, true);
    assert!(matches!(r, MessageOutcome::Chat { ref replies, quotes_file: None } if replies.is_empty()));
}
