use hasuchanbot::codec::encode_quote;
use hasuchanbot::file_data::FileData;
use hasuchanbot::keyboard::{display_qts, is_page_request, page_request, print_menu, KeyboardMessage, PageRequest};

fn quotes(n: usize) -> FileData {
    let mut d = FileData::new("q.lst".to_string(), "", false);
    for i in 0..n {
        d.save(encode_quote(&format!("q{}", i)));
    }
    d
}

fn buttons(m: &KeyboardMessage) -> Vec<Vec<(String, String)>> {
    m.keyboard
        .rows
        .iter()
        .map(|r| r.iter().map(|b| (b.text.clone(), b.callback_data.clone())).collect())
        .collect()
}

#[test]
fn menu_has_one_button_to_the_first_page() {
    let m = print_menu(true);
    assert_eq!(m.text, "菜單");
    assert_eq!(buttons(&m), vec![vec![("語錄列表".to_string(), "qtsto 1".to_string())]]);
}

#[test]
fn page_requests_start_with_qtsto() {
    assert!(is_page_request("qtsto 1"));
    assert!(!is_page_request("blackhole"));
    assert!(!is_page_request("qtsto"));
}

#[test]
fn first_page_lists_ten_quotes() {
    let q = quotes(12);
    let m = display_qts(&q, Some("qtsto 1")).unwrap();
    let mut expected = String::from("語錄\n");
    for i in 0..10 {
        expected.push_str(&format!("{}.q{}\n", i + 1, i));
    }
    assert_eq!(m.text, expected);
    assert_eq!(
        buttons(&m),
        vec![vec![
            ("<<".to_string(), "qtsto 0".to_string()),
            ("1".to_string(), "blackhole".to_string()),
            (">>".to_string(), "qtsto 2".to_string()),
        ]]
    );
}

#[test]
fn last_page_lists_the_rest() {
    let q = quotes(12);
    let m = display_qts(&q, Some("qtsto 2")).unwrap();
    assert_eq!(m.text, "語錄\n11.q10\n12.q11\n");
    assert_eq!(buttons(&m)[0][2], (">>".to_string(), "qtsto 3".to_string()));
}

#[test]
fn pages_that_do_not_exist_show_nothing() {
    let q = quotes(12);
    assert!(display_qts(&q, Some("qtsto 3")).is_none());
    assert!(display_qts(&q, Some("qtsto 0")).is_none());
    assert!(display_qts(&q, Some("qtsto x")).is_none());
    assert!(display_qts(&q, Some("qtsto")).is_none());
    assert!(display_qts(&q, None).is_none());
    assert!(display_qts(&quotes(0), Some("qtsto 1")).is_none());
}

#[test]
fn the_next_page_button_leads_to_the_next_page() {
    let q = quotes(25);
    let m = display_qts(&q, Some("qtsto 2")).unwrap();
    let next = buttons(&m)[0][2].1.clone();
    let m3 = display_qts(&q, Some(&next)).unwrap();
    assert!(m3.text.starts_with("語錄\n21.q20\n"));
}

#[test]
fn page_requests_read_the_second_word() {
    assert!(matches!(page_request(Some("qtsto 4")), PageRequest::Page(4)));
    assert!(matches!(page_request(Some("qtsto 4 5")), PageRequest::Page(4)));
    assert!(matches!(page_request(Some("qtsto x")), PageRequest::InvalidNumber(ref s) if s == "x"));
    assert!(matches!(page_request(Some("qtsto")), PageRequest::NoIndex));
    assert!(matches!(page_request(None), PageRequest::NoIndex));
}

#[test]
fn the_pages_together_list_every_quote_once() {
    for n in [1usize, 9, 10, 11, 20, 25] {
        let q = quotes(n);
        let pages = (n + 9) / 10;
        let mut all = String::new();
        for p in 1..=pages {
            let m = display_qts(&q, Some(&format!("qtsto {}", p))).unwrap();
            let body = m.text.strip_prefix("語錄\n").unwrap().to_string();
            assert!(body.lines().count() <= 10);
            all.push_str(&body);
        }
        let expected: String = (0..n).map(|k| format!("{}.q{}\n", k + 1, k)).collect();
        assert_eq!(all, expected);
    }
}
