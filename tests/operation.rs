use pdf_title::operation::{Error, Operand, Operation, TextItem};

fn read(name: &str, operands: Vec<Operand>) -> Result<Operation, Error> {
    Operation::from_operator(String::from(name), operands)
}

#[test]
fn reads_operators_without_operands() {
    assert!(matches!(read("BT", vec![]), Ok(Operation::BeginText)));
    assert!(matches!(read("T*", vec![]), Ok(Operation::TextNewline)));
}

#[test]
fn reads_numeric_operators() {
    assert!(matches!(read("TL", vec![Operand::Number(14000)]), Ok(Operation::SetLeading(14000))));
    assert!(matches!(
        read("Td", vec![Operand::Number(1), Operand::Number(-2)]),
        Ok(Operation::MoveTextPosition(1, -2))
    ));
    assert!(matches!(
        read("TD", vec![Operand::Number(0), Operand::Number(-12000)]),
        Ok(Operation::MoveTextPosition(0, -12000))
    ));
    let m: Vec<Operand> = (1..=6).map(Operand::Number).collect();
    assert!(matches!(read("Tm", m), Ok(Operation::SetTextMatrix(1, 2, 3, 4, 5, 6))));
}

#[test]
fn reads_font_operators() {
    match read("Tf", vec![Operand::Name(String::from("F1")), Operand::Number(12000)]) {
        Ok(Operation::SetFont(name, size)) => {
            assert_eq!(name, "F1");
            assert_eq!(size, 12000);
        }
        _ => panic!("expected a font"),
    }
    match read("gs", vec![Operand::Name(String::from("GS0"))]) {
        Ok(Operation::SetGraphicsStateFont(name)) => assert_eq!(name, "GS0"),
        _ => panic!("expected a graphics state"),
    }
}

#[test]
fn reads_text_operators() {
    match read("Tj", vec![Operand::Bytes(b"Hi".to_vec())]) {
        Ok(Operation::ShowText(b)) => assert_eq!(b, b"Hi".to_vec()),
        _ => panic!("expected text"),
    }
    let array = Operand::Array(vec![
        Operand::Bytes(b"A".to_vec()),
        Operand::Number(-250000),
        Operand::Bytes(b"B".to_vec()),
    ]);
    match read("TJ", vec![array]) {
        Ok(Operation::ShowTextAdjusted(items)) => {
            assert_eq!(items.len(), 3);
            assert!(matches!(&items[0], TextItem::Text(b) if b == b"A"));
            assert!(matches!(items[1], TextItem::Spacing(-250000)));
            assert!(matches!(&items[2], TextItem::Text(b) if b == b"B"));
        }
        _ => panic!("expected a text array"),
    }
}

#[test]
fn wrong_operands_are_parse_errors() {
    assert_eq!(read("TL", vec![]).err(), Some(Error::ParseError(String::from("TL"))));
    assert_eq!(
        read("Tf", vec![Operand::Number(1), Operand::Number(2)]).err(),
        Some(Error::ParseError(String::from("Tf")))
    );
    let five: Vec<Operand> = (1..=5).map(Operand::Number).collect();
    assert_eq!(read("Tm", five).err(), Some(Error::ParseError(String::from("Tm"))));
    assert_eq!(
        read("Tj", vec![Operand::Other]).err(),
        Some(Error::ParseError(String::from("Tj")))
    );
    let bad_array = Operand::Array(vec![Operand::Bytes(b"A".to_vec()), Operand::Other]);
    assert_eq!(read("TJ", vec![bad_array]).err(), Some(Error::ParseError(String::from("TJ"))));
}

#[test]
fn unknown_operators_are_not_implemented() {
    assert_eq!(read("re", vec![]).err(), Some(Error::NotImplemented(String::from("re"))));
    assert_eq!(read("cm", vec![]).err(), Some(Error::NotImplemented(String::from("cm"))));
}
