//! The bot's commands: how a command line is read, and what a command does
//! to the bot's data and answers.

use vstd::prelude::*;
use std::collections::HashSet;
use crate::codec::{decode_quote, quote_text};
use crate::file_data::FileData;
use crate::text::{chars_of, string_of, push_chars, parse_usize, spec_parse_usize, parse_i64, spec_parse_i64, trim, trim_chars};

verus! {

/// A command of the bot, written `/menu`, `/start`, `/startw`, `/stopw`,
/// `/yuru N` or `/stop`.
#[derive(Clone, Copy, Debug, PartialEq, Eq, Structural)]
pub enum Command {
    Menu,
    Start,
    Startw,
    Stopw,
    Yuru(usize),
    Stop,
}

/// Why a command line is no command.
#[derive(Debug, PartialEq, Eq)]
pub enum ParseError {
    /// The command was addressed to another bot, named here.
    WrongBotName(String),
    /// No command has this name.
    UnknownCommand(String),
    /// The argument, given here, is no number.
    IncorrectFormat(String),
    /// More arguments than the command takes.
    TooManyArguments { expected: usize, found: usize, message: String },
}

/// A `ParseError` with its strings taken as character sequences.
pub enum ParseFailure {
    WrongBotName(Seq<char>),
    UnknownCommand(Seq<char>),
    IncorrectFormat(Seq<char>),
    TooManyArguments { expected: usize, found: usize, message: Seq<char> },
}

impl View for ParseError {
    type V = ParseFailure;

    open spec fn view(&self) -> ParseFailure {
        match self {
            ParseError::WrongBotName(s) => ParseFailure::WrongBotName(s@),
            ParseError::UnknownCommand(s) => ParseFailure::UnknownCommand(s@),
            ParseError::IncorrectFormat(s) => ParseFailure::IncorrectFormat(s@),
            ParseError::TooManyArguments { expected, found, message } =>
                ParseFailure::TooManyArguments {
                expected: *expected,
                found: *found,
                message: message@,
            },
        }
    }
}

/// `s` cut at the first `c`: the part before it, and the part after it where
/// `s` holds a `c`.
pub open spec fn split_first(s: Seq<char>, c: char) -> (Seq<char>, Option<Seq<char>>)
    decreases s.len(),
{
    if s.len() == 0 {
        (s, None)
    } else if s[0] == c {
        (seq![], Some(s.drop_first()))
    } else {
        let (head, tail) = split_first(s.drop_first(), c);
        (seq![s[0]] + head, tail)
    }
}

/// The bot name that a command line names after `@` in its first word.
pub open spec fn addressed_bot(head: Seq<char>) -> Option<Seq<char>> {
    match split_first(head, '@').1 {
        Some(after) => Some(split_first(after, '@').0),
        None => None,
    }
}

/// What the argument of `/yuru` gives: one number and nothing after it.
pub open spec fn spec_parse_yuru(args: Seq<char>) -> Result<Command, ParseFailure> {
    let (first, more) = split_first(args, ' ');
    match spec_parse_usize(first) {
        None => Err(ParseFailure::IncorrectFormat(first)),
        Some(n) => match more {
            Some(rest) => Err(
                ParseFailure::TooManyArguments {
                    expected: 1,
                    found: 2,
                    message: "Excess argument: "@ + split_first(rest, ' ').0,
                },
            ),
            None => Ok(Command::Yuru(n)),
        },
    }
}

/// What a command line `s` means for the bot named `bot_name`. The first word
/// up to a space is the command, optionally followed by `@` and the bot's name;
/// the rest is the argument. Every command but `/yuru` ignores its argument.
pub open spec fn spec_parse_command(s: Seq<char>, bot_name: Seq<char>) -> Result<
    Command,
    ParseFailure,
> {
    let (head, rest) = split_first(s, ' ');
    let name = split_first(head, '@').0;
    let args = match rest {
        Some(r) => r,
        None => Seq::<char>::empty(),
    };
    match addressed_bot(head) {
        Some(b) if b != bot_name => Err(ParseFailure::WrongBotName(b)),
        _ => if name == "/menu"@ {
            Ok(Command::Menu)
        } else if name == "/start"@ {
            Ok(Command::Start)
        } else if name == "/startw"@ {
            Ok(Command::Startw)
        } else if name == "/stopw"@ {
            Ok(Command::Stopw)
        } else if name == "/yuru"@ {
            spec_parse_yuru(args)
        } else if name == "/stop"@ {
            Ok(Command::Stop)
        } else {
            Err(ParseFailure::UnknownCommand(name))
        },
    }
}

/// A parse result with its error taken by its view.
pub open spec fn parse_result_view(r: Result<Command, ParseError>) -> Result<Command, ParseFailure> {
    match r {
        Ok(c) => Ok(c),
        Err(e) => Err(e@),
    }
}

pub proof fn lemma_split_first_at(s: Seq<char>, c: char, i: int)
    requires
        0 <= i <= s.len(),
        forall|k: int| 0 <= k < i ==> #[trigger] s[k] != c,
        i == s.len() || s[i] == c,
    ensures
        split_first(s, c) == (s.take(i), if i < s.len() {
            Some(s.skip(i + 1))
        } else {
            None
        }),
    decreases i,
{
    if s.len() == 0 {
        assert(s.take(i) =~= s);
    } else if i == 0 {
        assert(s.take(0) =~= seq![]);
        assert(s.skip(1) =~= s.drop_first());
    } else {
        lemma_split_first_at(s.drop_first(), c, i - 1);
        assert(seq![s[0]] + s.drop_first().take(i - 1) =~= s.take(i));
        if i < s.len() {
            assert(s.drop_first().skip(i) =~= s.skip(i + 1));
        }
    }
}

/// `s` cut at the first `c`.
pub fn split_first_chars(s: &[char], c: char) -> (r: (Vec<char>, Option<Vec<char>>))
    ensures
        r.0@ == split_first(s@, c).0,
        r.1 is Some <==> split_first(s@, c).1 is Some,
        r.1 is Some ==> r.1->0@ == split_first(s@, c).1->0,
{
    let n = s.len();
    let mut i: usize = 0;
    while i < n && s[i] != c
        invariant
            n == s@.len(),
            i <= n,
            forall|k: int| 0 <= k < i ==> #[trigger] s@[k] != c,
        decreases n - i,
    {
        i = i + 1;
    }
    proof {
        lemma_split_first_at(s@, c, i as int);
    }
    let mut head: Vec<char> = Vec::new();
    for k in 0..i
        invariant
            i <= n,
            n == s@.len(),
            head@ == s@.take(k as int),
    {
        head.push(s[k]);
        assert(s@.take(k + 1) =~= s@.take(k as int).push(s@[k as int]));
    }
    if i < n {
        let mut tail: Vec<char> = Vec::new();
        let mut k: usize = i + 1;
        while k < n
            invariant
                i < k <= n,
                n == s@.len(),
                tail@ == s@.subrange(i + 1, k as int),
            decreases n - k,
        {
            tail.push(s[k]);
            assert(s@.subrange(i + 1, k + 1) =~= s@.subrange(i + 1, k as int).push(s@[k as int]));
            k = k + 1;
        }
        assert(tail@ =~= s@.skip(i + 1));
        (head, Some(tail))
    } else {
        (head, None)
    }
}

/// Whether `a` and `b` hold the same characters.
fn same_chars(a: &[char], b: &[char]) -> (r: bool)
    ensures
        r == (a@ == b@),
{
    if a.len() != b.len() {
        return false;
    }
    let n = a.len();
    for i in 0..n
        invariant
            n == a@.len(),
            n == b@.len(),
            forall|k: int| 0 <= k < i ==> a@[k] == b@[k],
    {
        if a[i] != b[i] {
            return false;
        }
    }
    assert(a@ =~= b@);
    true
}

/// Whether `a` holds the characters of `b`.
fn is_word(a: &[char], b: &str) -> (r: bool)
    ensures
        r == (a@ == b@),
{
    let w = chars_of(b);
    same_chars(a, w.as_slice())
}

impl Command {
    /// Reads the command line `s` for the bot named `bot_name`.
    pub fn parse(s: &str, bot_name: &str) -> (r: Result<Command, ParseError>)
        ensures
            parse_result_view(r) == spec_parse_command(s@, bot_name@),
    {
        let chars = chars_of(s);
        let (head, rest) = split_first_chars(chars.as_slice(), ' ');
        let (name, after) = split_first_chars(head.as_slice(), '@');
        if let Some(a) = after {
            let (bot, _) = split_first_chars(a.as_slice(), '@');
            if !is_word(bot.as_slice(), bot_name) {
                return Err(ParseError::WrongBotName(string_of(bot.as_slice())));
            }
        }
        let args: Vec<char> = match rest {
            Some(r) => r,
            None => Vec::new(),
        };
        let name_s = name.as_slice();
        if is_word(name_s, "/menu") {
            Ok(Command::Menu)
        } else if is_word(name_s, "/start") {
            Ok(Command::Start)
        } else if is_word(name_s, "/startw") {
            Ok(Command::Startw)
        } else if is_word(name_s, "/stopw") {
            Ok(Command::Stopw)
        } else if is_word(name_s, "/yuru") {
            Command::parse_yuru(args.as_slice())
        } else if is_word(name_s, "/stop") {
            Ok(Command::Stop)
        } else {
            Err(ParseError::UnknownCommand(string_of(name_s)))
        }
    }

    /// Reads the argument of `/yuru`.
    fn parse_yuru(args: &[char]) -> (r: Result<Command, ParseError>)
        ensures
            parse_result_view(r) == spec_parse_yuru(args@),
    {
        let (first, more) = split_first_chars(args, ' ');
        match parse_usize(first.as_slice()) {
            None => Err(ParseError::IncorrectFormat(string_of(first.as_slice()))),
            Some(n) => match more {
                Some(rest) => {
                    let (excess, _) = split_first_chars(rest.as_slice(), ' ');
                    let mut message = "Excess argument: ".to_owned();
                    push_chars(&mut message, excess.as_slice());
                    Err(ParseError::TooManyArguments { expected: 1, found: 2, message })
                },
                None => Ok(Command::Yuru(n)),
            },
        }
    }
}

/// The command line that `/yuru` with a number makes reads back as that
/// command.
pub proof fn law_yuru_reads_back(n: usize)
    ensures
        spec_parse_command("/yuru "@ + crate::text::decimal(n as nat), ""@) == Ok::<Command, ParseFailure>(Command::Yuru(n)),
{
    reveal_strlit("/yuru ");
    reveal_strlit("/yuru");
    reveal_strlit("/menu");
    reveal_strlit("/start");
    reveal_strlit("/startw");
    reveal_strlit("/stopw");
    reveal_strlit("");
    crate::text::lemma_decimal_digits(n as nat);
    crate::text::law_decimal_reads_back(n);
    let d = crate::text::decimal(n as nat);
    let s = "/yuru "@ + d;
    assert(s[5] == ' ');
    lemma_split_first_at(s, ' ', 5);
    let head = s.take(5);
    assert(head =~= "/yuru"@);
    lemma_split_first_at(head, '@', 5);
    assert(head.take(5) =~= head);
    assert(s.skip(6) =~= d);
    lemma_digits_have_no_space(d);
    assert(split_first(s, ' ') == (head, Some(d)));
    assert(addressed_bot(head) is None);
    assert(head[1] == 'y');
    assert(head != "/menu"@) by {
        assert("/menu"@[1] == 'm');
    }
    assert(head != "/start"@ && head != "/startw"@ && head != "/stopw"@) by {
        assert("/start"@.len() == 6);
        assert("/startw"@.len() == 7);
        assert("/stopw"@.len() == 6);
    }
    assert(spec_parse_yuru(d) == Ok::<Command, ParseFailure>(Command::Yuru(n)));
}

proof fn lemma_split_first_whole(s: Seq<char>, c: char)
    requires
        !s.contains(c),
    ensures
        split_first(s, c) == (s, None::<Seq<char>>),
{
    assert forall|k: int| 0 <= k < s.len() implies #[trigger] s[k] != c by {
        if s[k] == c {
            assert(s.contains(c));
        }
    }
    lemma_split_first_at(s, c, s.len() as int);
    assert(s.take(s.len() as int) =~= s);
}

/// Only `/yuru` reads its argument: for any first word `head` that is not
/// `/yuru` (before an `@`), adding a space and any argument after it does not
/// change what the line reads as.
pub proof fn law_arguments_only_matter_to_yuru(head: Seq<char>, rest: Seq<char>, bot_name: Seq<char>)
    requires
        !head.contains(' '),
        split_first(head, '@').0 != "/yuru"@,
    ensures
        spec_parse_command(head + seq![' '] + rest, bot_name) == spec_parse_command(head, bot_name),
{
    let s = head + seq![' '] + rest;
    assert forall|k: int| 0 <= k < head.len() implies #[trigger] s[k] != ' ' by {
        assert(s[k] == head[k]);
        if head[k] == ' ' {
            assert(head.contains(' '));
        }
    }
    lemma_split_first_at(s, ' ', head.len() as int);
    assert(s.take(head.len() as int) =~= head);
    assert(s.skip(head.len() as int + 1) =~= rest);
    lemma_split_first_whole(head, ' ');
}

proof fn lemma_no_space_no_at(s: Seq<char>)
    requires
        forall|k: int| 0 <= k < s.len() ==> #[trigger] s[k] != ' ' && s[k] != '@',
    ensures
        !s.contains(' '),
        !s.contains('@'),
{
    if s.contains(' ') {
        let k = choose|k: int| 0 <= k < s.len() && s[k] == ' ';
        assert(s[k] != ' ');
    }
    if s.contains('@') {
        let k = choose|k: int| 0 <= k < s.len() && s[k] == '@';
        assert(s[k] != '@');
    }
}

/// The command names read as their commands, for any bot name, and the
/// commands without an argument ignore whatever follows a space.
pub proof fn law_command_names(rest: Seq<char>, bot_name: Seq<char>)
    ensures
        spec_parse_command("/menu"@, bot_name) == Ok::<Command, ParseFailure>(Command::Menu),
        spec_parse_command("/start"@, bot_name) == Ok::<Command, ParseFailure>(Command::Start),
        spec_parse_command("/startw"@, bot_name) == Ok::<Command, ParseFailure>(Command::Startw),
        spec_parse_command("/stopw"@, bot_name) == Ok::<Command, ParseFailure>(Command::Stopw),
        spec_parse_command("/stop"@, bot_name) == Ok::<Command, ParseFailure>(Command::Stop),
        spec_parse_command("/menu"@ + seq![' '] + rest, bot_name) == Ok::<Command, ParseFailure>(Command::Menu),
        spec_parse_command("/start"@ + seq![' '] + rest, bot_name) == Ok::<Command, ParseFailure>(Command::Start),
        spec_parse_command("/startw"@ + seq![' '] + rest, bot_name) == Ok::<Command, ParseFailure>(Command::Startw),
        spec_parse_command("/stopw"@ + seq![' '] + rest, bot_name) == Ok::<Command, ParseFailure>(Command::Stopw),
        spec_parse_command("/stop"@ + seq![' '] + rest, bot_name) == Ok::<Command, ParseFailure>(Command::Stop),
{
    reveal_strlit("/menu");
    reveal_strlit("/start");
    reveal_strlit("/startw");
    reveal_strlit("/stopw");
    reveal_strlit("/stop");
    reveal_strlit("/yuru");
    let names = seq!["/menu"@, "/start"@, "/startw"@, "/stopw"@, "/stop"@];
    assert forall|j: int| 0 <= j < 5 implies {
        &&& !(#[trigger] names[j]).contains(' ')
        &&& split_first(names[j], '@') == (names[j], None::<Seq<char>>)
        &&& names[j] != "/yuru"@
    } by {
        let n = names[j];
        assert forall|k: int| 0 <= k < n.len() implies #[trigger] n[k] != ' ' && n[k] != '@' by {}
        lemma_no_space_no_at(n);
        lemma_split_first_whole(n, '@');
        assert(n[1] != "/yuru"@[1]);
    }
    assert("/menu"@ == names[0]);
    assert("/start"@ == names[1]);
    assert("/startw"@ == names[2]);
    assert("/stopw"@ == names[3]);
    assert("/stop"@ == names[4]);
    lemma_split_first_whole("/menu"@, ' ');
    lemma_split_first_whole("/start"@, ' ');
    lemma_split_first_whole("/startw"@, ' ');
    lemma_split_first_whole("/stopw"@, ' ');
    lemma_split_first_whole("/stop"@, ' ');
    assert("/start"@ != "/menu"@) by { assert("/start"@[1] != "/menu"@[1]); }
    assert("/startw"@ != "/menu"@) by { assert("/startw"@[1] != "/menu"@[1]); }
    assert("/stopw"@ != "/menu"@) by { assert("/stopw"@[1] != "/menu"@[1]); }
    assert("/stop"@ != "/menu"@) by { assert("/stop"@[1] != "/menu"@[1]); }
    assert("/startw"@ != "/start"@) by { assert("/startw"@.len() != "/start"@.len()); }
    assert("/stopw"@ != "/start"@) by { assert("/stopw"@[3] != "/start"@[3]); }
    assert("/stop"@ != "/start"@) by { assert("/stop"@.len() != "/start"@.len()); }
    assert("/stopw"@ != "/startw"@) by { assert("/stopw"@.len() != "/startw"@.len()); }
    assert("/stop"@ != "/startw"@) by { assert("/stop"@.len() != "/startw"@.len()); }
    assert("/stop"@ != "/stopw"@) by { assert("/stop"@.len() != "/stopw"@.len()); }
    law_arguments_only_matter_to_yuru("/menu"@, rest, bot_name);
    law_arguments_only_matter_to_yuru("/start"@, rest, bot_name);
    law_arguments_only_matter_to_yuru("/startw"@, rest, bot_name);
    law_arguments_only_matter_to_yuru("/stopw"@, rest, bot_name);
    law_arguments_only_matter_to_yuru("/stop"@, rest, bot_name);
}

/// A run of digits holds no space to cut at.
pub proof fn lemma_digits_have_no_space(s: Seq<char>)
    requires
        crate::text::all_digits(s),
    ensures
        split_first(s, ' ') == (s, None::<Seq<char>>),
    decreases s.len(),
{
    if s.len() > 0 {
        assert(crate::text::is_digit(s[0]));
        assert forall|i: int| 0 <= i < s.drop_first().len() implies crate::text::is_digit(
            #[trigger] s.drop_first()[i],
        ) by {
            assert(s.drop_first()[i] == s[i + 1]);
        }
        lemma_digits_have_no_space(s.drop_first());
        assert(seq![s[0]] + s.drop_first() =~= s);
    }
}

/// The bot's data: the administrators' file, the quotes' file, the ids of
/// the administrators, and whether quotes are being collected.
pub struct Data {
    pub admins: FileData,
    pub quotes: FileData,
    pub is_admin: HashSet<i64>,
    pub is_collecting_quotes: bool,
}

/// The ids that the lines of an administrators' file name: each line that,
/// trimmed, reads as an `i64`.
pub open spec fn admin_ids(lines: Seq<Seq<char>>) -> Set<i64> {
    Set::new(|id: i64| exists|i: int| 0 <= i < lines.len() && spec_parse_i64(trim(#[trigger] lines[i])) == Some(id))
}

/// Whoever gave a command may run the administrators' commands: the terminal
/// always, a chat user where the user's id is an administrator's.
pub open spec fn may_administer(ids: Set<i64>, user: Option<i64>, is_terminal: bool) -> bool {
    if is_terminal {
        true
    } else {
        match user {
            Some(id) => ids.contains(id),
            None => false,
        }
    }
}

/// What the bot sends in answer to a command.
pub enum Action {
    /// A reply to the command's message.
    Reply(String),
    /// A message in the command's chat.
    Answer(String),
    /// The menu (see `print_menu`).
    Menu,
}

/// An `Action` with its text taken as a character sequence.
pub enum ActionView {
    Reply(Seq<char>),
    Answer(Seq<char>),
    Menu,
}

impl View for Action {
    type V = ActionView;

    open spec fn view(&self) -> ActionView {
        match self {
            Action::Reply(s) => ActionView::Reply(s@),
            Action::Answer(s) => ActionView::Answer(s@),
            Action::Menu => ActionView::Menu,
        }
    }
}

/// An optional action taken by its view.
pub open spec fn action_view(a: Option<Action>) -> Option<ActionView> {
    match a {
        Some(x) => Some(x@),
        None => None,
    }
}

/// The administrator's id that a line of the administrators' file names: the
/// line, trimmed, read as an `i64`.
pub fn admin_id_of(line: &str) -> (r: Option<i64>)
    ensures
        r == spec_parse_i64(trim(line@)),
{
    let chars = chars_of(line);
    let t = trim_chars(chars.as_slice());
    parse_i64(t.as_slice())
}

impl Data {
    /// The bot's data over the administrators' file `admins` and the quotes'
    /// file `quotes`; not collecting quotes.
    pub fn new(admins: FileData, quotes: FileData) -> (d: Data)
        ensures
            d.admins == admins,
            d.quotes == quotes,
            d.is_admin@ == admin_ids(admins.lines()),
            !d.is_collecting_quotes,
    {
        broadcast use vstd::std_specs::hash::group_hash_axioms;

        let mut ids: HashSet<i64> = HashSet::new();
        let n = admins.content.len();
        for i in 0..n
            invariant
                n == admins.lines().len(),
                ids@ == Set::new(
                    |id: i64|
                        exists|k: int|
                            0 <= k < i && spec_parse_i64(trim(#[trigger] admins.lines()[k]))
                                == Some(id),
                ),
        {
            let ghost before = ids@;
            assert(admins.lines()[i as int] == admins.content@[i as int]@);
            match admin_id_of(admins.content[i].as_str()) {
                Some(id) => {
                    ids.insert(id);
                },
                None => {},
            }
            assert(ids@ =~= Set::new(
                |id: i64|
                    exists|k: int|
                        0 <= k < i + 1 && spec_parse_i64(trim(#[trigger] admins.lines()[k]))
                            == Some(id),
            )) by {
                assert forall|id: i64| #[trigger] ids@.contains(id) implies exists|k: int|
                    0 <= k < i + 1 && spec_parse_i64(trim(#[trigger] admins.lines()[k])) == Some(
                        id,
                    ) by {
                    if !before.contains(id) {
                        assert(spec_parse_i64(trim(admins.lines()[i as int])) == Some(id));
                    }
                }
            }
        }
        assert(admin_ids(admins.lines()) =~= ids@);
        Data { admins, quotes, is_admin: ids, is_collecting_quotes: false }
    }

    /// Whether `userid` is an administrator's id.
    pub fn is_admin(&self, userid: i64) -> (r: bool)
        ensures
            r == self.is_admin@.contains(userid),
    {
        broadcast use vstd::std_specs::hash::group_hash_axioms;

        self.is_admin.contains(&userid)
    }
}

/// What running `command` does: the bot's data afterwards, and what the bot
/// sends in answer. `/startw` and `/stopw` switch quote collecting on and off
/// for administrators, and refuse others; `/yuru N` shows the N-th quote
/// (counting from 1) as `quote_text` shows it, or says that there is none;
/// `/menu` shows the menu; `/start` and `/stop` do nothing here.
pub open spec fn command_outcome(data: Data, command: Command, user: Option<i64>, is_terminal: bool) -> (Data, Option<ActionView>) {
    let admin = may_administer(data.is_admin@, user, is_terminal);
    let refused = ActionView::Reply("缺少收集語錄權限^ ^"@);
    match command {
        Command::Startw => if admin {
            (Data { is_collecting_quotes: true, ..data }, Some(ActionView::Reply("開始收集語錄^ ^"@)))
        } else {
            (data, Some(refused))
        },
        Command::Stopw => if admin {
            (Data { is_collecting_quotes: false, ..data }, Some(ActionView::Reply("停止收集語錄^ ^"@)))
        } else {
            (data, Some(refused))
        },
        Command::Yuru(index) => if 1 <= index <= data.quotes.lines().len() {
            (data, Some(ActionView::Answer(quote_text(data.quotes.lines()[index - 1]))))
        } else {
            (data, Some(ActionView::Reply("下標溢出或不存在。"@)))
        },
        Command::Menu => (data, Some(ActionView::Menu)),
        Command::Start | Command::Stop => (data, None),
    }
}

/// An administrator in a chat has the terminal's rights: `/startw` switches
/// collecting on and `/stopw` switches it off, with the same replies as on the
/// terminal; anyone else in a chat is refused and changes nothing.
pub proof fn law_administrators_switch_collecting(data: Data, id: i64)
    ensures
        data.is_admin@.contains(id) ==> command_outcome(data, Command::Startw, Some(id), false) == (
            Data { is_collecting_quotes: true, ..data },
            Some(ActionView::Reply("開始收集語錄^ ^"@)),
        ),
        data.is_admin@.contains(id) ==> command_outcome(data, Command::Stopw, Some(id), false) == (
            Data { is_collecting_quotes: false, ..data },
            Some(ActionView::Reply("停止收集語錄^ ^"@)),
        ),
        data.is_admin@.contains(id) ==> command_outcome(data, Command::Startw, Some(id), false)
            == command_outcome(data, Command::Startw, None, true),
        data.is_admin@.contains(id) ==> command_outcome(data, Command::Stopw, Some(id), false)
            == command_outcome(data, Command::Stopw, None, true),
        command_outcome(data, Command::Stopw, None, true).0.is_collecting_quotes == false,
        command_outcome(data, Command::Startw, None, true).0.is_collecting_quotes == true,
        !data.is_admin@.contains(id) ==> command_outcome(data, Command::Startw, Some(id), false) == (
            data,
            Some(ActionView::Reply("缺少收集語錄權限^ ^"@)),
        ),
        !data.is_admin@.contains(id) ==> command_outcome(data, Command::Stopw, Some(id), false) == (
            data,
            Some(ActionView::Reply("缺少收集語錄權限^ ^"@)),
        ),
        command_outcome(data, Command::Stopw, None, false) == (
            data,
            Some(ActionView::Reply("缺少收集語錄權限^ ^"@)),
        ),
{
}

/// `/yuru N` shows the N-th quote (counting from 1) for anyone, and changes
/// nothing; other numbers get the reply that there is no such quote.
pub proof fn law_yuru_shows_quote(data: Data, index: usize, user: Option<i64>, is_terminal: bool)
    ensures
        command_outcome(data, Command::Yuru(index), user, is_terminal).0 == data,
        1 <= index <= data.quotes.lines().len() ==> command_outcome(data, Command::Yuru(index), user, is_terminal).1
            == Some(ActionView::Answer(quote_text(data.quotes.lines()[index - 1]))),
        !(1 <= index <= data.quotes.lines().len()) ==> command_outcome(data, Command::Yuru(index), user, is_terminal).1
            == Some(ActionView::Reply("下標溢出或不存在。"@)),
{
}

/// Runs `command`, given by the chat user with id `user` (if known) or by the
/// terminal, on the bot's data, and gives what the bot sends in answer, as
/// `command_outcome` says.
pub fn execute_command(data: &mut Data, command: &Command, user: Option<i64>, is_terminal: bool) -> (r: Option<Action>)
    ensures
        (*final(data), action_view(r)) == command_outcome(*old(data), *command, user, is_terminal),
{
    let admin = if is_terminal {
        true
    } else {
        match user {
            Some(id) => data.is_admin(id),
            None => false,
        }
    };
    match *command {
        Command::Startw => {
            if admin {
                data.is_collecting_quotes = true;
                Some(Action::Reply("開始收集語錄^ ^".to_owned()))
            } else {
                Some(Action::Reply("缺少收集語錄權限^ ^".to_owned()))
            }
        },
        Command::Stopw => {
            if admin {
                data.is_collecting_quotes = false;
                Some(Action::Reply("停止收集語錄^ ^".to_owned()))
            } else {
                Some(Action::Reply("缺少收集語錄權限^ ^".to_owned()))
            }
        },
        Command::Yuru(index) => {
            if index >= 1 && index <= data.quotes.content.len() {
                let line = &data.quotes.content[index - 1];
                assert(data.quotes.lines()[index - 1] == line@);
                Some(Action::Answer(decode_quote(line)))
            } else {
                Some(Action::Reply("下標溢出或不存在。".to_owned()))
            }
        },
        Command::Menu => Some(Action::Menu),
        Command::Start | Command::Stop => None,
    }
}

} // verus!
