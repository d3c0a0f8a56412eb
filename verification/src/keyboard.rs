//! The menu and the paged list of quotes, each with its buttons.

use vstd::prelude::*;
use crate::codec::{decode_quote, quote_text};
use crate::command::split_first;
use crate::file_data::FileData;
use crate::text::{lemma_decimal_digits, law_decimal_reads_back, chars_of, decimal, parse_usize, spec_parse_usize, push_str, push_chars, decimal_chars, usize_to_string, starts_with_chars, spec_starts_with, string_of};

verus! {

/// A button under a message: its label, and the data its press sends back.
pub struct Button {
    pub text: String,
    pub callback_data: String,
}

impl View for Button {
    type V = (Seq<char>, Seq<char>);

    open spec fn view(&self) -> (Seq<char>, Seq<char>) {
        (self.text@, self.callback_data@)
    }
}

/// Rows of buttons under a message.
pub struct Keyboard {
    pub rows: Vec<Vec<Button>>,
}

impl View for Keyboard {
    type V = Seq<Seq<(Seq<char>, Seq<char>)>>;

    open spec fn view(&self) -> Seq<Seq<(Seq<char>, Seq<char>)>> {
        self.rows@.map_values(|row: Vec<Button>| row@.map_values(|b: Button| b@))
    }
}

/// A message with buttons under it.
pub struct KeyboardMessage {
    pub text: String,
    pub keyboard: Keyboard,
}

/// Makes a button.
fn button(text: &str, callback_data: String) -> (b: Button)
    ensures
        b@ == (text@, callback_data@),
{
    Button { text: text.to_owned(), callback_data }
}

/// The menu: the text `菜單` with one button, `語錄列表`, that opens the
/// first page of quotes.
pub fn print_menu(_is_admin: bool) -> (m: KeyboardMessage)
    ensures
        m.text@ == "菜單"@,
        m.keyboard@ == seq![seq![("語錄列表"@, "qtsto 1"@)]],
{
    let b = button("語錄列表", "qtsto 1".to_owned());
    let mut row: Vec<Button> = Vec::new();
    row.push(b);
    let mut rows: Vec<Vec<Button>> = Vec::new();
    rows.push(row);
    let keyboard = Keyboard { rows };
    let ghost row0 = keyboard.rows@[0]@.map_values(|b: Button| b@);
    assert(row0 =~= seq![("語錄列表"@, "qtsto 1"@)]);
    assert(keyboard@ =~= seq![row0]);
    KeyboardMessage { text: "菜單".to_owned(), keyboard }
}

/// Whether the data of a pressed button asks for a page of quotes.
pub fn is_page_request(callback_data: &str) -> (r: bool)
    ensures
        r == spec_starts_with(callback_data@, "qtsto "@),
{
    let d = chars_of(callback_data);
    let p = chars_of("qtsto ");
    starts_with_chars(d.as_slice(), p.as_slice())
}

/// How many pages of ten quotes `n` quotes fill.
pub open spec fn page_count(n: nat) -> nat {
    (n + 9) / 10
}

/// The page number that button data asks for: the second word of the data
/// split at spaces, read as a number.
pub open spec fn requested_page(data: Seq<char>) -> Option<usize> {
    match page_word(data) {
        Some(w) => spec_parse_usize(w),
        None => None,
    }
}

/// The second word of button data split at spaces, where it has one.
pub open spec fn page_word(data: Seq<char>) -> Option<Seq<char>> {
    match split_first(data, ' ').1 {
        Some(rest) => Some(split_first(rest, ' ').0),
        None => None,
    }
}

/// What button data asks for, as a page request.
pub enum PageRequest {
    /// The data has no second word.
    NoIndex,
    /// The second word, given here, is no number.
    InvalidNumber(String),
    /// The page with this number.
    Page(usize),
}

/// Reads the page number from button data (`None` counting as empty data):
/// the second word of the data split at spaces.
pub fn page_request(callback_data: Option<&str>) -> (r: PageRequest)
    ensures
        ({
            let data = match callback_data {
                Some(d) => d@,
                None => Seq::<char>::empty(),
            };
            match page_word(data) {
                None => r is NoIndex,
                Some(w) => match spec_parse_usize(w) {
                    None => r matches PageRequest::InvalidNumber(s) && s@ == w,
                    Some(n) => r == PageRequest::Page(n),
                },
            }
        }),
{
    let data: Vec<char> = match callback_data {
        Some(d) => chars_of(d),
        None => Vec::new(),
    };
    let (_, rest) = crate::command::split_first_chars(data.as_slice(), ' ');
    let rest = match rest {
        Some(r) => r,
        None => {
            return PageRequest::NoIndex;
        },
    };
    let (word, _) = crate::command::split_first_chars(rest.as_slice(), ' ');
    match parse_usize(word.as_slice()) {
        Some(i) => PageRequest::Page(i),
        None => PageRequest::InvalidNumber(string_of(word.as_slice())),
    }
}

/// The line of a page that shows quote `k` (counting from 0).
pub open spec fn page_entry(lines: Seq<Seq<char>>, k: int) -> Seq<char> {
    decimal((k + 1) as nat) + "."@ + quote_text(lines[k]) + "\n"@
}

/// The lines of a page that show the `count` quotes from `start` on.
pub open spec fn page_entries(lines: Seq<Seq<char>>, start: int, count: nat) -> Seq<char>
    decreases count,
{
    if count == 0 {
        seq![]
    } else {
        page_entries(lines, start, (count - 1) as nat) + page_entry(lines, start + count - 1)
    }
}

/// How many quotes page `index` (counting from 1) of `n` quotes shows: ten,
/// or the rest on the last page.
pub open spec fn page_size(n: nat, index: nat) -> int {
    let start = (index - 1) * 10;
    if n - start < 10 {
        n - start
    } else {
        10
    }
}

/// The numbered quotes that page `index` (counting from 1) shows, ten to a
/// page.
pub open spec fn page_body(lines: Seq<Seq<char>>, index: nat) -> Seq<char> {
    page_entries(lines, (index - 1) * 10, page_size(lines.len(), index) as nat)
}

/// The text of page `index` (counting from 1): a heading, then the page's
/// numbered quotes.
pub open spec fn page_text(lines: Seq<Seq<char>>, index: nat) -> Seq<char> {
    "語錄\n"@ + page_body(lines, index)
}

/// The numbered quotes of pages 1 to `p`, one page after the other.
pub open spec fn pages_up_to(lines: Seq<Seq<char>>, p: nat) -> Seq<char>
    decreases p,
{
    if p == 0 {
        seq![]
    } else {
        pages_up_to(lines, (p - 1) as nat) + page_body(lines, p)
    }
}

/// The buttons of page `index`: to the page before, the page's number, and
/// to the page after.
pub open spec fn page_keyboard(index: nat) -> Seq<Seq<(Seq<char>, Seq<char>)>> {
    seq![
        seq![
            ("<<"@, "qtsto "@ + decimal((index - 1) as nat)),
            (decimal(index), "blackhole"@),
            (">>"@, "qtsto "@ + decimal(index + 1)),
        ],
    ]
}

proof fn lemma_page_bounds(n: int, index: int)
    requires
        0 <= n,
        1 <= index,
        index * 10 <= n + 9,
    ensures
        0 <= (index - 1) * 10 < n,
{
    assert((index - 1) * 10 == index * 10 - 10) by (nonlinear_arith);
}

/// "qtsto " followed by the number `n`.
fn page_callback(n: usize) -> (s: String)
    ensures
        s@ == "qtsto "@ + decimal(n as nat),
{
    let mut s = "qtsto ".to_owned();
    let d = decimal_chars(n);
    push_chars(&mut s, d.as_slice());
    s
}

/// The page of quotes that the button data `callback_data` asks for, or
/// `None` where it asks for no page that exists.
pub fn display_qts(quotes: &FileData, callback_data: Option<&str>) -> (r: Option<KeyboardMessage>)
    ensures
        ({
            let data = match callback_data {
                Some(d) => d@,
                None => Seq::<char>::empty(),
            };
            match requested_page(data) {
                Some(index) if 1 <= index <= page_count(quotes.lines().len()) => {
                    &&& r is Some
                    &&& r->0.text@ == page_text(quotes.lines(), index as nat)
                    &&& r->0.keyboard@ == page_keyboard(index as nat)
                },
                _ => r is None,
            }
        }),
{
    let index = match page_request(callback_data) {
        PageRequest::Page(i) => i,
        _ => {
            return None;
        },
    };
    let len = quotes.content.len();
    let pages = len / 10 + if len % 10 == 0 { 0 } else { 1 };
    assert(pages == page_count(len as nat));
    if index < 1 || index > pages {
        return None;
    }
    proof {
        lemma_page_bounds(len as int, index as int);
    }
    let names_mid = usize_to_string(index);
    let b0 = button("<<", page_callback(index - 1));
    let b1 = Button { text: names_mid, callback_data: "blackhole".to_owned() };
    let b2 = button(">>", page_callback(index + 1));
    let mut row: Vec<Button> = Vec::new();
    row.push(b0);
    row.push(b1);
    row.push(b2);
    let mut rows: Vec<Vec<Button>> = Vec::new();
    rows.push(row);
    let keyboard = Keyboard { rows };
    let ghost row0 = keyboard.rows@[0]@.map_values(|b: Button| b@);
    assert(row0 =~= page_keyboard(index as nat)[0]);
    assert(keyboard@ =~= page_keyboard(index as nat));
    let start = (index - 1) * 10;
    let mut text = "語錄\n".to_owned();
    let mut i: usize = 0;
    while i + start < len && i < 10
        invariant
            start < len,
            len == quotes.lines().len(),
            i <= 10,
            start + i <= len,
            text@ == "語錄\n"@ + page_entries(quotes.lines(), start as int, i as nat),
        decreases 10 - i,
    {
        let k = i + start;
        let number = decimal_chars(k + 1);
        push_chars(&mut text, number.as_slice());
        push_str(&mut text, ".");
        assert(quotes.lines()[k as int] == quotes.content@[k as int]@);
        let shown = decode_quote(&quotes.content[k]);
        push_str(&mut text, shown.as_str());
        push_str(&mut text, "\n");
        i = i + 1;
        assert(text@ =~= "語錄\n"@ + page_entries(quotes.lines(), start as int, i as nat));
    }
    Some(KeyboardMessage { text, keyboard })
}

/// The buttons of a page lead where they say: the data `qtsto N` of a button
/// asks for page `N`.
pub proof fn law_page_button_requests_page(n: usize)
    ensures
        requested_page("qtsto "@ + decimal(n as nat)) == Some(n),
{
    reveal_strlit("qtsto ");
    lemma_decimal_digits(n as nat);
    law_decimal_reads_back(n);
    let d = decimal(n as nat);
    let s = "qtsto "@ + d;
    assert(s[5] == ' ');
    assert(s.skip(6) =~= d);
    crate::command::lemma_split_first_at(s, ' ', 5);
    crate::command::lemma_digits_have_no_space(d);
}

/// The buttons of page `index` lead to its neighbours: the first asks for
/// page `index - 1`, the last for page `index + 1`, and the middle one is
/// labelled with the page's own number and asks for no page.
pub proof fn law_page_buttons_lead_to_neighbours(index: usize)
    requires
        1 <= index < usize::MAX,
    ensures
        page_keyboard(index as nat).len() == 1,
        page_keyboard(index as nat)[0].len() == 3,
        requested_page(page_keyboard(index as nat)[0][0].1) == Some((index - 1) as usize),
        requested_page(page_keyboard(index as nat)[0][2].1) == Some((index + 1) as usize),
        page_keyboard(index as nat)[0][1].0 == decimal(index as nat),
        page_keyboard(index as nat)[0][1].1 == "blackhole"@,
        page_keyboard(index as nat)[0][0].0 == "<<"@,
        page_keyboard(index as nat)[0][2].0 == ">>"@,
{
    law_page_button_requests_page((index - 1) as usize);
    law_page_button_requests_page((index + 1) as usize);
}

/// Every quote stands on a page that exists: quote `q` (counting from 0) of
/// `n` stands on page `q / 10 + 1`, among the ten quotes from
/// `(q / 10) * 10` on.
pub proof fn law_every_quote_on_a_page(n: nat, q: nat)
    requires
        q < n,
    ensures
        1 <= q / 10 + 1 <= page_count(n),
        (q / 10) * 10 <= q < (q / 10) * 10 + 10,
{
}

proof fn lemma_entries_concat(lines: Seq<Seq<char>>, start: int, a: nat, b: nat)
    ensures
        page_entries(lines, start, a) + page_entries(lines, start + a, b) == page_entries(
            lines,
            start,
            a + b,
        ),
    decreases b,
{
    if b == 0 {
        assert(page_entries(lines, start, a) + Seq::<char>::empty() =~= page_entries(lines, start, a));
    } else {
        lemma_entries_concat(lines, start, a, (b - 1) as nat);
        assert(page_entries(lines, start, a) + page_entries(lines, start + a, (b - 1) as nat)
            + page_entry(lines, start + a + b - 1) =~= page_entries(lines, start, a)
            + page_entries(lines, start + a, b));
    }
}

proof fn lemma_pages_up_to(lines: Seq<Seq<char>>, p: nat)
    requires
        p <= page_count(lines.len()),
    ensures
        pages_up_to(lines, p) == page_entries(
            lines,
            0,
            (if 10 * p < lines.len() {
                10 * p
            } else {
                lines.len()
            }),
        ),
    decreases p,
{
    if p > 0 {
        lemma_pages_up_to(lines, (p - 1) as nat);
        let start: int = (p - 1) * 10;
        assert(start < lines.len());
        lemma_entries_concat(lines, 0, start as nat, page_size(lines.len(), p) as nat);
    }
}

/// The pages of quotes, taken one after the other, list every quote exactly
/// once and in order; each page lists at most ten.
pub proof fn law_pages_list_every_quote_once(lines: Seq<Seq<char>>)
    ensures
        pages_up_to(lines, page_count(lines.len())) == page_entries(lines, 0, lines.len()),
        forall|p: nat| 1 <= p <= page_count(lines.len()) ==> 1 <= #[trigger] page_size(lines.len(), p) <= 10,
{
    lemma_pages_up_to(lines, page_count(lines.len()));
}

} // verus!
