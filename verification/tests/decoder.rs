use radis::io::{Command, InvalidCommand};
use radis::plaintext::{parse_command, tokenize, PlainTextReader};

#[test]
fn read_get() {
    let input = "get key";
    let mut commands = PlainTextReader::new(input.as_bytes().to_vec());
    assert_eq!(
        commands.next(),
        Some(Ok(Command::Get { key: b"key".to_vec() }))
    );
}

#[test]
fn read_from_empty_stream() {
    let input = "";
    let mut commands = PlainTextReader::new(input.as_bytes().to_vec());
    assert_eq!(commands.next(), None);
}

#[test]
fn read_set() {
    let input = "set 1 2";
    let mut commands = PlainTextReader::new(input.as_bytes().to_vec());
    assert_eq!(
        commands.next(),
        Some(Ok(Command::Put {
            key: b"1".to_vec(),
            val: b"2".to_vec()
        }))
    );
}

#[test]
fn read_unknown_command() {
    let input = "unknown 1 2";
    let mut commands = PlainTextReader::new(input.as_bytes().to_vec());
    assert_eq!(commands.next(), Some(Err(InvalidCommand::UnknownCommand)));
}

#[test]
fn test_get_command_wrong_number_of_args() {
    let input = "get 1 2\nget";
    let mut commands = PlainTextReader::new(input.as_bytes().to_vec());
    assert_eq!(commands.next(), Some(Err(InvalidCommand::WrongNumberOfArgs)));
    assert_eq!(commands.next(), Some(Err(InvalidCommand::WrongNumberOfArgs)));
}

#[test]
fn test_set_command_wrong_number_of_args() {
    let input = "set\nset 1\nset 1 2 3";
    let mut commands = PlainTextReader::new(input.as_bytes().to_vec());
    assert_eq!(commands.next(), Some(Err(InvalidCommand::WrongNumberOfArgs)));
    assert_eq!(commands.next(), Some(Err(InvalidCommand::WrongNumberOfArgs)));
    assert_eq!(commands.next(), Some(Err(InvalidCommand::WrongNumberOfArgs)));
}

#[test]
fn read_empty_command() {
    let input = "\n";
    let mut commands = PlainTextReader::new(input.as_bytes().to_vec());
    assert_eq!(commands.next(), Some(Err(InvalidCommand::EmptyCommand)));
}

#[test]
fn read_multiple_commands() {
    let input = "set 4 5\nget 6";
    let mut commands = PlainTextReader::new(input.as_bytes().to_vec());
    assert_eq!(
        commands.next(),
        Some(Ok(Command::Put {
            key: b"4".to_vec(),
            val: b"5".to_vec()
        }))
    );
    assert_eq!(
        commands.next(),
        Some(Ok(Command::Get { key: b"6".to_vec() }))
    );
}

#[test]
fn read_stays_exhausted() {
    let input = "get key\n";
    let mut commands = PlainTextReader::new(input.as_bytes().to_vec());
    assert_eq!(
        commands.next(),
        Some(Ok(Command::Get { key: b"key".to_vec() }))
    );
    assert_eq!(commands.next(), None);
    assert_eq!(commands.next(), None);
}

#[test]
fn read_blank_line_between_commands() {
    let input = "get a\n   \nget b\n";
    let mut commands = PlainTextReader::new(input.as_bytes().to_vec());
    assert_eq!(
        commands.next(),
        Some(Ok(Command::Get { key: b"a".to_vec() }))
    );
    assert_eq!(commands.next(), Some(Err(InvalidCommand::EmptyCommand)));
    assert_eq!(
        commands.next(),
        Some(Ok(Command::Get { key: b"b".to_vec() }))
    );
    assert_eq!(commands.next(), None);
}

#[test]
fn parse_trims_and_splits_on_whitespace_runs() {
    let line = b" \t set  k \t v \r\n".to_vec();
    assert_eq!(
        parse_command(&line),
        Ok(Command::Put {
            key: b"k".to_vec(),
            val: b"v".to_vec()
        })
    );
}

#[test]
fn parse_rejects_uppercase_verb() {
    let line = b"GET key\n".to_vec();
    assert_eq!(parse_command(&line), Err(InvalidCommand::UnknownCommand));
}

#[test]
fn tokenize_splits_in_order() {
    let line = b"set 4 5\n".to_vec();
    assert_eq!(
        tokenize(&line),
        vec![b"set".to_vec(), b"4".to_vec(), b"5".to_vec()]
    );
}

#[test]
fn tokenize_empty_line_has_no_tokens() {
    let line = b" \t \n".to_vec();
    assert_eq!(tokenize(&line), Vec::<Vec<u8>>::new());
}
