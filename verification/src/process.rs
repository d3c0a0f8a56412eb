//! How the bot answers a chat message that is no command: a hug for a hug, a
//! random quote where it is addressed, and collecting quotes from
//! administrators.

use vstd::prelude::*;
use crate::codec::{decode_quote, encode_quote, quote_text, stored_quote, law_stored_quote_reads_back};
use crate::command::{Action, ActionView, Command, Data, action_view, command_outcome, execute_command, spec_parse_command};
use crate::file_data::file_text;
use crate::text::{chars_of, contains_chars, spec_contains, trim, trim_chars, string_of, push_str};

verus! {

/// The command that a message's text gives: where the text begins with `/`
/// and, trimmed, reads as a command for any bot name.
pub open spec fn spec_command_of(text: Seq<char>) -> Option<Command> {
    if text.len() > 0 && text[0] == '/' {
        match spec_parse_command(trim(text), Seq::<char>::empty()) {
            Ok(c) => Some(c),
            Err(_) => None,
        }
    } else {
        None
    }
}

/// The command that the text of a message gives, if any.
pub fn command_of(text: &str) -> (r: Option<Command>)
    ensures
        r == spec_command_of(text@),
{
    let chars = chars_of(text);
    if chars.len() > 0 && chars[0] == '/' {
        let t = trim_chars(chars.as_slice());
        let trimmed = string_of(t.as_slice());
        proof {
            reveal_strlit("");
            assert(""@ =~= Seq::<char>::empty());
        }
        match Command::parse(trimmed.as_str(), "") {
            Ok(c) => Some(c),
            Err(_) => None,
        }
    } else {
        None
    }
}

/// The text asks for a hug: it holds `貼貼` or `贴贴`.
pub open spec fn spec_asks_for_hug(text: Seq<char>) -> bool {
    spec_contains(text, "貼貼"@) || spec_contains(text, "贴贴"@)
}

/// Whether the text asks for a hug, to be answered with `貼貼^ ^`.
pub fn asks_for_hug(text: &str) -> (r: bool)
    ensures
        r == spec_asks_for_hug(text@),
{
    let chars = chars_of(text);
    let a = chars_of("貼貼");
    let b = chars_of("贴贴");
    contains_chars(chars.as_slice(), a.as_slice()) || contains_chars(chars.as_slice(), b.as_slice())
}

/// Whether a message is addressed to the bot, so that it is answered with a
/// random quote. `reply_to` is `None` for a message that replies to none,
/// and otherwise holds the id of the sender of the message replied to, if
/// known. A reply is addressed to the bot where it replies to the bot's own
/// message; another message, where its chat is not public.
pub fn check_send_quotes(bot_id: i64, reply_to: Option<Option<i64>>, chat_is_public: bool) -> (r: bool)
    ensures
        r == check_quote_wanted(bot_id, reply_to, chat_is_public),
{
    match reply_to {
        Some(m) => {
            if let Some(u) = m {
                if u != bot_id {
                    return false;
                }
            } else {
                return false;
            }
        },
        None => {
            if chat_is_public {
                return false;
            }
        },
    }
    true
}

/// The quote at place `random` modulo the number of quotes, shown as
/// `quote_text`; `None` where there is no quote.
pub fn pick_quote(data: &Data, random: usize) -> (r: Option<String>)
    ensures
        data.quotes.lines().len() == 0 ==> r is None,
        data.quotes.lines().len() > 0 ==> r is Some && r->0@ == quote_text(
            data.quotes.lines()[(random as int) % (data.quotes.lines().len() as int)],
        ),
{
    let n = data.quotes.content.len();
    if n == 0 {
        return None;
    }
    let k = random % n;
    assert(data.quotes.lines()[k as int] == data.quotes.content@[k as int]@);
    Some(decode_quote(&data.quotes.content[k]))
}

/// `rand::random::<usize>()`: any number.
#[verifier::external_body]
fn random_usize() -> (r: usize) {
    rand::random::<usize>()
}

/// A quote chosen at random, shown as `quote_text`; `None` where there is no
/// quote.
pub fn send_quotes(data: &Data) -> (r: Option<String>)
    ensures
        data.quotes.lines().len() == 0 ==> r is None,
        data.quotes.lines().len() > 0 ==> r is Some && exists|k: int|
            0 <= k < data.quotes.lines().len() && r->0@ == quote_text(
                #[trigger] data.quotes.lines()[k],
            ),
{
    let random = random_usize();
    pick_quote(data, random)
}

/// A message is kept as a quote: quotes are being collected, and its
/// nonempty text comes from an administrator (id 0 stands for an unknown
/// sender).
pub open spec fn collects(data: Data, userid: i64, text: Seq<char>) -> bool {
    data.is_collecting_quotes && userid != 0 && data.is_admin@.contains(userid) && text.len() > 0
}

/// `after` is `before` with the message `text` from `userid` kept as a quote
/// where `collects` says so: its stored line appended to the quotes, nothing
/// else changed; otherwise `after` is `before`.
pub open spec fn collected(before: Data, after: Data, userid: i64, text: Seq<char>) -> bool {
    if collects(before, userid, text) {
        &&& after.quotes.lines() == before.quotes.lines().push(stored_quote(text))
        &&& after.quotes.file_name == before.quotes.file_name
        &&& after.quotes.if_unique == before.quotes.if_unique
        &&& (Data { quotes: after.quotes, ..before }) == after
    } else {
        after == before
    }
}

/// Keeps the text of a message from `userid` as a new last quote where
/// `collects` says so, and gives the text that the quotes' file is then to
/// hold; otherwise changes nothing and gives `None`.
pub fn collect_quote(data: &mut Data, userid: i64, text: &str) -> (r: Option<String>)
    ensures
        collected(*old(data), *final(data), userid, text@),
        collects(*old(data), userid, text@) ==> r is Some && r->0@ == file_text(
            final(data).quotes.lines(),
        ),
        !collects(*old(data), userid, text@) ==> r is None,
{
    if data.is_collecting_quotes && userid != 0 && data.is_admin(userid) && !text.is_empty() {
        let line = encode_quote(text);
        let file = data.quotes.save(line);
        assert((Data { quotes: data.quotes, ..*old(data) }) == *data);
        Some(file)
    } else {
        None
    }
}

/// The reply once a collected quote was written: success, or the failure
/// with the error's text.
pub fn quote_saved_reply(error: Option<&str>) -> (s: String)
    ensures
        error is None ==> s@ == "已保存語錄^ ^"@,
        error is Some ==> s@ == "保存語錄失敗- -:"@ + error->0@,
{
    match error {
        None => "已保存語錄^ ^".to_owned(),
        Some(e) => {
            let mut s = "保存語錄失敗- -:".to_owned();
            push_str(&mut s, e);
            s
        },
    }
}

/// The line that shows a message on the console: its sender's first name
/// (or a note that it is unknown), a colon, and its text (empty where it has
/// none).
pub fn print_message(first_name: Option<&str>, text: Option<&str>) -> (s: String)
    ensures
        s@ == match first_name {
            Some(n) => n@,
            None => "Could not get the name of the user."@,
        } + ":"@ + match text {
            Some(t) => t@,
            None => Seq::<char>::empty(),
        },
{
    let mut s = match first_name {
        Some(n) => n.to_owned(),
        None => "Could not get the name of the user.".to_owned(),
    };
    push_str(&mut s, ":");
    match text {
        Some(t) => push_str(&mut s, t),
        None => {
            assert(s@ + Seq::<char>::empty() =~= s@);
        },
    }
    s
}

/// What the bot does with a chat message.
pub enum MessageOutcome {
    /// The message was the command given here; what the bot sends in answer.
    Command(Command, Option<Action>),
    /// The message was no command: the replies to send, in order, and, where
    /// the message was kept as a quote, the text that the quotes' file is then
    /// to hold (its writing is to be reported with `quote_saved_reply`).
    Chat { replies: Vec<String>, quotes_file: Option<String> },
}

/// Handles a chat message with text `text` (if any) from the user with id
/// `sender` (if known), to the bot with id `bot_id`. `reply_to` and
/// `chat_is_public` are as for `check_send_quotes`. A command is run as
/// `command_outcome` says. Another message is answered with a hug where it
/// asks for one, then with a random quote where it is addressed to the bot
/// and there are quotes; and it is kept as a quote where `collects` says so.
pub fn handle_message(
    data: &mut Data,
    text: Option<&str>,
    sender: Option<i64>,
    bot_id: i64,
    reply_to: Option<Option<i64>>,
    chat_is_public: bool,
) -> (r: MessageOutcome)
    ensures
        ({
            let t = match text {
                Some(t) => t@,
                None => Seq::<char>::empty(),
            };
            let userid = match sender {
                Some(id) => id,
                None => 0,
            };
            let hug = spec_asks_for_hug(t);
            let quoting = check_quote_wanted(bot_id, reply_to, chat_is_public) && old(data).quotes.lines().len() > 0;
            match spec_command_of(t) {
                Some(c) => r matches MessageOutcome::Command(rc, a) && rc == c && (
                    *final(data),
                    action_view(a),
                ) == command_outcome(*old(data), c, sender, false),
                None => r matches MessageOutcome::Chat { replies, quotes_file } && {
                    &&& replies@.len() == (if hug { 1int } else { 0int }) + (if quoting { 1int } else { 0int })
                    &&& hug ==> replies@[0]@ == "貼貼^ ^"@
                    &&& quoting ==> exists|k: int| 0 <= k < old(data).quotes.lines().len()
                        && replies@.last()@ == quote_text(#[trigger] old(data).quotes.lines()[k])
                    &&& collected(*old(data), *final(data), userid, t)
                    &&& collects(*old(data), userid, t) ==> (quotes_file is Some && quotes_file->0@
                        == file_text(final(data).quotes.lines()))
                    &&& !collects(*old(data), userid, t) ==> quotes_file is None
                },
            }
        }),
{
    let t: &str = match text {
        Some(t) => t,
        None => "",
    };
    proof {
        reveal_strlit("");
        assert(""@ =~= Seq::<char>::empty());
    }
    let userid: i64 = match sender {
        Some(id) => id,
        None => 0,
    };
    if let Some(command) = command_of(t) {
        let a = execute_command(data, &command, sender, false);
        return MessageOutcome::Command(command, a);
    }
    let mut replies: Vec<String> = Vec::new();
    if asks_for_hug(t) {
        replies.push("貼貼^ ^".to_owned());
    }
    if check_send_quotes(bot_id, reply_to, chat_is_public) {
        if let Some(q) = send_quotes(data) {
            replies.push(q);
        }
    }
    let quotes_file = collect_quote(data, userid, t);
    MessageOutcome::Chat { replies, quotes_file }
}

/// A message is kept as a quote exactly when quotes are being collected, its
/// sender is a known administrator, and its text is not empty: no one else's
/// message, no empty message, and nothing while collecting is off.
pub proof fn law_who_adds_quotes(data: Data, userid: i64, text: Seq<char>)
    ensures
        !data.is_collecting_quotes ==> !collects(data, userid, text),
        !data.is_admin@.contains(userid) ==> !collects(data, userid, text),
        userid == 0 ==> !collects(data, userid, text),
        text.len() == 0 ==> !collects(data, userid, text),
        data.is_collecting_quotes && userid != 0 && data.is_admin@.contains(userid) && text.len() > 0
            ==> collects(data, userid, text),
{
}

/// A hug is answered wherever `貼貼` or `贴贴` stands in the text, and
/// nowhere else.
pub proof fn law_hugs_wherever_they_stand(text: Seq<char>, i: int)
    ensures
        0 <= i && i + 2 <= text.len() && text.subrange(i, i + 2) == "貼貼"@ ==> spec_asks_for_hug(text),
        0 <= i && i + 2 <= text.len() && text.subrange(i, i + 2) == "贴贴"@ ==> spec_asks_for_hug(text),
        !crate::text::spec_contains(text, "貼貼"@) && !crate::text::spec_contains(text, "贴贴"@)
            ==> !spec_asks_for_hug(text),
{
    reveal_strlit("貼貼");
    reveal_strlit("贴贴");
    crate::text::law_contains_where_it_stands(text, "貼貼"@, i);
    crate::text::law_contains_where_it_stands(text, "贴贴"@, i);
}

/// Who gets a random quote: a reply to the bot's own message, in any chat;
/// never a reply to someone else's message (or to one whose sender is not
/// known), in any chat; a message that replies to none, only outside public
/// chats.
pub proof fn law_quotes_go_to_the_addressed(bot_id: i64, other: i64, chat_is_public: bool)
    ensures
        check_quote_wanted(bot_id, Some(Some(bot_id)), chat_is_public),
        other != bot_id ==> !check_quote_wanted(bot_id, Some(Some(other)), chat_is_public),
        !check_quote_wanted(bot_id, Some(None), chat_is_public),
        check_quote_wanted(bot_id, None, true) == false,
        check_quote_wanted(bot_id, None, false) == true,
{
}

/// Whether a message is addressed to the bot, as `check_send_quotes` decides.
pub open spec fn check_quote_wanted(bot_id: i64, reply_to: Option<Option<i64>>, chat_is_public: bool) -> bool {
    match reply_to {
        Some(Some(sender)) => sender == bot_id,
        Some(None) => false,
        None => !chat_is_public,
    }
}

/// Collecting quotes over several messages loses none: where each of a
/// run of messages, in the order they were handled, was kept as a quote
/// (`states[i]` to `states[i + 1]` as `collected` says, with `collects`
/// holding), the quotes at the end are those at the start followed by the
/// stored lines of all the messages, in that order.
pub proof fn law_collecting_loses_no_quote(states: Seq<Data>, users: Seq<i64>, texts: Seq<Seq<char>>)
    requires
        states.len() == texts.len() + 1,
        users.len() == texts.len(),
        forall|i: int|
            0 <= i < texts.len() ==> collects(#[trigger] states[i], users[i], texts[i])
                && collected(states[i], states[i + 1], users[i], texts[i]),
    ensures
        states.last().quotes.lines() == states[0].quotes.lines() + texts.map_values(
            |t: Seq<char>| stored_quote(t),
        ),
    decreases texts.len(),
{
    let n = texts.len() as int;
    if n == 0 {
        assert(states[0].quotes.lines() + texts.map_values(|t: Seq<char>| stored_quote(t))
            =~= states[0].quotes.lines());
    } else {
        let s1 = states.drop_last();
        let u1 = users.drop_last();
        let t1 = texts.drop_last();
        assert forall|i: int| 0 <= i < t1.len() implies collects(#[trigger] s1[i], u1[i], t1[i])
            && collected(s1[i], s1[i + 1], u1[i], t1[i]) by {
            assert(s1[i] == states[i] && s1[i + 1] == states[i + 1]);
            assert(collects(states[i], users[i], texts[i]));
        }
        law_collecting_loses_no_quote(s1, u1, t1);
        assert(collects(states[n - 1], users[n - 1], texts[n - 1]));
        assert(states[n] == states.last());
        assert(texts.map_values(|t: Seq<char>| stored_quote(t)) =~= t1.map_values(
            |t: Seq<char>| stored_quote(t),
        ).push(stored_quote(texts[n - 1])));
    }
}

/// A collected quote is shown back: after a message with text `text` was
/// kept as a quote, `/yuru N` for its place `N` answers with `text`.
pub proof fn law_collected_quote_is_shown(before: Data, after: Data, userid: i64, text: Seq<char>, user: Option<i64>, is_terminal: bool)
    requires
        collects(before, userid, text),
        collected(before, after, userid, text),
        after.quotes.lines().len() <= usize::MAX,
    ensures
        command_outcome(after, Command::Yuru(after.quotes.lines().len() as usize), user, is_terminal).1
            == Some(ActionView::Answer(text)),
{
    let n = after.quotes.lines().len();
    assert(after.quotes.lines()[n - 1] == stored_quote(text));
    law_stored_quote_reads_back(text);
}

} // verus!
