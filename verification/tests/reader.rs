use lc3_toolchain::assembler::lexer::Token;
use lc3_toolchain::assembler::reader::Reader;
use lc3_toolchain::assembler::symbols::SymbolTable;

fn chars(text: &str) -> Reader<char> {
    Reader::from(text.chars().collect())
}

#[test]
fn reader_reads_in_order() {
    let mut reader = chars("ab");
    assert_eq!(reader.peek(), Some('a'));
    assert_eq!(reader.peek(), Some('a'));
    assert_eq!(reader.next(), Some('a'));
    assert_eq!(reader.offset(), 1);
    assert_eq!(reader.next(), Some('b'));
    assert!(reader.at_end());
    assert_eq!(reader.peek(), None);
    assert_eq!(reader.next(), None);
    assert_eq!(reader.next(), None);
    assert_eq!(reader.offset(), 2);
}

#[test]
fn reader_of_nothing() {
    let mut reader = chars("");
    assert!(reader.at_end());
    assert_eq!(reader.peek(), None);
    assert_eq!(reader.next(), None);
    assert_eq!(reader.get(0), None);
    assert_eq!((reader.offset(), reader.line(), reader.item_in_line()), (0, 0, 0));
}

#[test]
fn reader_counts_each_line_end_once() {
    let mut reader = chars("a\n\nbc\n");
    let mut places = Vec::new();
    while reader.next().is_some() {
        places.push((reader.line(), reader.item_in_line()));
    }
    assert_eq!(places, vec![(0, 1), (1, 0), (2, 0), (2, 1), (2, 2), (3, 0)]);
}

#[test]
fn reader_get_looks_anywhere() {
    let reader = chars("abc");
    assert_eq!(reader.get(0), Some('a'));
    assert_eq!(reader.get(2), Some('c'));
    assert_eq!(reader.get(3), None);
    assert_eq!(reader.offset(), 0);
}

#[test]
fn reader_reset_goes_back_to_the_start() {
    let mut reader = chars("a\nb");
    while reader.next().is_some() {}
    assert_eq!((reader.offset(), reader.line(), reader.item_in_line()), (3, 1, 1));
    reader.reset();
    assert_eq!((reader.offset(), reader.line(), reader.item_in_line()), (0, 0, 0));
    assert_eq!(reader.next(), Some('a'));
}

#[test]
fn reader_skips_and_takes_runs() {
    let mut reader = chars("  ab1 c");
    reader.skip_while(|c: char| c == ' ');
    assert_eq!(reader.offset(), 2);
    assert_eq!(reader.take_while(|c: char| c.is_alphabetic()), vec!['a', 'b']);
    assert_eq!(reader.take_while(|c: char| c.is_alphabetic()), Vec::<char>::new());
    assert_eq!(reader.offset(), 4);
    reader.skip_while(|_| true);
    assert!(reader.at_end());
    assert_eq!(reader.take_while(|_| true), Vec::<char>::new());
}

#[test]
fn reader_takes_line_ends_along() {
    let mut reader = chars("a\nb\nc");
    assert_eq!(reader.take_while(|c: char| c != 'c'), vec!['a', '\n', 'b', '\n']);
    assert_eq!((reader.offset(), reader.line(), reader.item_in_line()), (4, 2, 0));
}

#[test]
fn reader_of_tokens_counts_newline_tokens() {
    let mut reader = Reader::from(vec![
        Token::symbol("a", 0),
        Token::newline(1),
        Token::number(7, 2),
    ]);
    assert_eq!(reader.next(), Some(Token::symbol("a", 0)));
    assert_eq!((reader.line(), reader.item_in_line()), (0, 1));
    assert_eq!(reader.next(), Some(Token::newline(1)));
    assert_eq!((reader.line(), reader.item_in_line()), (1, 0));
    assert_eq!(reader.peek(), Some(Token::number(7, 2)));
    assert_eq!(reader.next(), Some(Token::number(7, 2)));
    assert_eq!((reader.line(), reader.item_in_line()), (1, 1));
}

#[test]
fn symbol_table_keeps_the_last_line() {
    let mut table = SymbolTable::new();
    assert_eq!(table.get(&"a".to_string()), None);
    table.insert("a".to_string(), 1);
    table.insert("b".to_string(), 2);
    assert_eq!(table.get(&"a".to_string()), Some(1));
    assert_eq!(table.get(&"b".to_string()), Some(2));
    assert_eq!(table.get(&"A".to_string()), None);
    table.insert("a".to_string(), 3);
    assert_eq!(table.get(&"a".to_string()), Some(3));
    assert_eq!(table.get(&"b".to_string()), Some(2));
    table.clear();
    assert_eq!(table.get(&"a".to_string()), None);
}
