use crablit::card::COUNTER_MAX;
use crablit::number::{counter_at, digit, digit_to_char, push_digits};
use crablit::source::{to_text, DeckError};
use crablit::{init, Card};

#[test]
fn init_reads_one_card_per_line() {
    let deck = init("haus;house\nbaum;tree\n", ';');
    assert_eq!(deck, Ok(vec![Card::new("haus", "house", None), Card::new("baum", "tree", None)]));
}

#[test]
fn init_passes_over_blank_lines_and_comments() {
    let text = "# [deck]\n\n   \nhaus ; house\r\n  # a comment\n\tbaum\t;\ttree\t\n";
    let deck = init(text, ';');
    assert_eq!(deck, Ok(vec![Card::new("haus", "house", None), Card::new("baum", "tree", None)]));
}

#[test]
fn init_reads_the_annotation() {
    let deck = init("haus;house;das\nbaum;tree; \nsee;lake;der;;more", ';');
    assert_eq!(
        deck,
        Ok(vec![
            Card::new("haus", "house", Some("das")),
            Card::new("baum", "tree", None),
            Card::new("see", "lake", Some("der")),
        ])
    );
}

#[test]
fn init_of_nothing_is_an_empty_deck() {
    assert_eq!(init("", ';'), Ok(Vec::new()));
    assert_eq!(init("\n\n", ';'), Ok(Vec::new()));
    assert_eq!(init("# only a comment", ';'), Ok(Vec::new()));
}

#[test]
fn init_reports_the_first_line_without_a_card() {
    let text = "haus;house\n# comment\n  baum  \nsee;\n";
    assert_eq!(init(text, ';'), Err(DeckError { line: 3, text: String::from("baum") }));
    assert_eq!(init(";house", ';'), Err(DeckError { line: 1, text: String::from(";house") }));
    assert_eq!(init("\nhaus; ;das", ';'), Err(DeckError { line: 2, text: String::from("haus; ;das") }));
    assert_eq!(init("haus,house", ';'), Err(DeckError { line: 1, text: String::from("haus,house") }));
}

#[test]
fn init_with_another_delimiter() {
    let deck = init("haus | house | das\nél|life", '|');
    assert_eq!(deck, Ok(vec![Card::new("haus", "house", Some("das")), Card::new("él", "life", None)]));
    let deck = init("a;b\tc", '\t');
    assert_eq!(deck, Ok(vec![Card::new("a;b", "c", None)]));
}

#[test]
fn init_gives_new_cards() {
    let deck = init("haus;house", ';').unwrap();
    assert_eq!(deck[0].counter(), 0);
}

#[test]
fn init_reads_the_counter() {
    let deck = init("haus;house;das;2\nbaum;tree;;1\nsee;lake;der; 007 \nél;life;;", ';').unwrap();
    assert_eq!(deck[0], Card::new("haus", "house", Some("das")).with_counter(2));
    assert_eq!(deck[1], Card::new("baum", "tree", None).with_counter(1));
    assert_eq!(deck[2], Card::new("see", "lake", Some("der")).with_counter(7));
    assert_eq!(deck[3], Card::new("él", "life", None));
    let deck = init("haus;house;;4294967295", ';').unwrap();
    assert_eq!(deck[0].counter(), COUNTER_MAX);
}

#[test]
fn init_refuses_a_counter_that_is_none() {
    for field in ["x", "-1", "+1", "1.5", "1 2", "4294967296", "99999999999999999999999", "١"] {
        let text = format!("a;b\nhaus;house;das;{field}\n");
        let line = format!("haus;house;das;{field}");
        assert_eq!(init(&text, ';'), Err(DeckError { line: 2, text: line }));
    }
}

#[test]
fn line_writes_what_there_is_to_write() {
    assert_eq!(Card::new("haus", "house", None).line(';'), "haus;house");
    assert_eq!(Card::new("haus", "house", Some("das")).line(';'), "haus;house;das");
    assert_eq!(Card::new("haus", "house", None).with_counter(2).line(';'), "haus;house;;2");
    assert_eq!(Card::new("haus", "house", Some("das")).with_counter(12).line('|'), "haus|house|das|12");
    assert_eq!(
        Card::new("haus", "house", None).with_counter(COUNTER_MAX).line(';'),
        "haus;house;;4294967295"
    );
}

#[test]
fn to_text_writes_one_line_per_card() {
    let deck = vec![
        Card::new("haus", "house", Some("das")).with_counter(1),
        Card::new("baum", "tree", None),
        Card::new("él", "life", None).with_counter(30),
    ];
    assert_eq!(to_text(&deck, ';'), "haus;house;das;1\nbaum;tree\nél;life;;30\n");
    assert_eq!(to_text(&Vec::new(), ';'), "");
}

#[test]
fn what_to_text_writes_init_reads() {
    let deck = vec![
        Card::new("haus", "house", Some("das")).with_counter(1),
        Card::new("baum", "tree", None),
        Card::new("él", "life", None).with_counter(30),
        Card::new("two words", "zwei Wörter", Some("a note, with a comma")),
    ];
    assert_eq!(init(&to_text(&deck, ';'), ';'), Ok(deck.clone()));
    assert_eq!(init(&to_text(&deck, '\t'), '\t'), Ok(deck));
}

#[test]
fn digits_and_counters() {
    for (d, c) in ('0'..='9').enumerate() {
        assert_eq!(digit(c), Some(d as u32));
        assert_eq!(digit_to_char(d as u32), c);
    }
    assert_eq!(digit('a'), None);
    assert_eq!(digit('/'), None);
    assert_eq!(digit(':'), None);
    let v: Vec<char> = "12;0;4294967295;4294967296;;1x".chars().collect();
    assert_eq!(counter_at(&v, 0, 2), Some(12));
    assert_eq!(counter_at(&v, 3, 4), Some(0));
    assert_eq!(counter_at(&v, 5, 15), Some(4294967295));
    assert_eq!(counter_at(&v, 16, 26), None);
    assert_eq!(counter_at(&v, 27, 27), Some(0));
    assert_eq!(counter_at(&v, 28, 30), None);
    for n in [0u32, 7, 10, 99, 100, 4096, COUNTER_MAX] {
        let mut text = String::from("n=");
        push_digits(&mut text, n);
        assert_eq!(text, format!("n={n}"));
    }
}

#[test]
fn deser_reads_one_line() {
    assert_eq!(Card::deser("haus;house", ';'), Some(Card::new("haus", "house", None)));
    assert_eq!(Card::deser(" haus ; house ; das ", ';'), Some(Card::new("haus", "house", Some("das"))));
    assert_eq!(Card::deser("haus;house;;;x", ';'), Some(Card::new("haus", "house", None)));
    assert_eq!(Card::deser("haus;house;;3", ';'), Some(Card::new("haus", "house", None).with_counter(3)));
    assert_eq!(Card::deser("haus;house;;x", ';'), None);
    assert_eq!(Card::deser("haus", ';'), None);
    assert_eq!(Card::deser("haus;", ';'), None);
    assert_eq!(Card::deser(";house", ';'), None);
    assert_eq!(Card::deser("", ';'), None);
}

#[test]
fn what_ser_writes_deser_reads() {
    let card = Card::new("haus", "house", None);
    assert_eq!(Card::deser(&card.ser(";"), ';'), Some(card));
}
