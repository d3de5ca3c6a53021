//! The drawing operators of a content stream that the text extraction reads.
//!
//! Every number is held in thousandths of a unit: a font size of 12 is `12000`.
use vstd::prelude::*;

verus! {

/// One element of a text array drawn with per-element adjustment.
pub enum TextItem {
    /// The raw bytes of a string.
    Text(Vec<u8>),
    /// A spacing adjustment, in thousandths of glyph space.
    Spacing(i64),
}

/// An operand of a content-stream operator.
pub enum Operand {
    /// A number, in thousandths of a unit.
    Number(i64),
    Name(String),
    /// The raw bytes of a string.
    Bytes(Vec<u8>),
    Array(Vec<Operand>),
    /// Any other kind of operand.
    Other,
}

/// A drawing operator of a content stream.
pub enum Operation {
    /// `BT`: begins a text object.
    BeginText,
    /// `TL`: sets the leading.
    SetLeading(i64),
    /// `Tf`: selects a font resource by name, with a size.
    SetFont(String, i64),
    /// `gs`: selects an extended graphics state, which may select a font.
    SetGraphicsStateFont(String),
    /// `Td` / `TD`: moves the text position by `(dx, dy)`.
    MoveTextPosition(i64, i64),
    /// `Tm`: sets the text matrix `a b c d e f`.
    SetTextMatrix(i64, i64, i64, i64, i64, i64),
    /// `T*`: moves to the next line.
    TextNewline,
    /// `Tj`: draws a string.
    ShowText(Vec<u8>),
    /// `TJ`: draws strings with spacing adjustments between them.
    ShowTextAdjusted(Vec<TextItem>),
    /// Any operator that text extraction ignores.
    Other,
}

/// What can go wrong while reading an operator from its name and operands.
#[derive(Debug, PartialEq, Eq)]
pub enum Error {
    /// The operator is not one that text extraction reads.
    NotImplemented(String),
    /// The operator's operands do not have the expected kinds.
    ParseError(String),
}

/// The number at position `i`, if there is one.
pub open spec fn number_at(args: Seq<Operand>, i: int) -> Option<i64> {
    if 0 <= i < args.len() {
        match args[i] {
            Operand::Number(n) => Some(n),
            _ => None,
        }
    } else {
        None
    }
}

/// The name at position `i`, if there is one.
pub open spec fn name_at(args: Seq<Operand>, i: int) -> Option<String> {
    if 0 <= i < args.len() {
        match args[i] {
            Operand::Name(n) => Some(n),
            _ => None,
        }
    } else {
        None
    }
}

/// The string at position `i`, if there is one.
pub open spec fn bytes_at(args: Seq<Operand>, i: int) -> Option<Vec<u8>> {
    if 0 <= i < args.len() {
        match args[i] {
            Operand::Bytes(b) => Some(b),
            _ => None,
        }
    } else {
        None
    }
}

/// The elements of a text array: strings and spacings; `None` where an
/// element is of another kind.
pub open spec fn text_items(a: Seq<Operand>) -> Option<Seq<TextItem>>
    decreases a.len(),
{
    if a.len() == 0 {
        Some(seq![])
    } else {
        match text_items(a.drop_last()) {
            None => None,
            Some(prev) => match a.last() {
                Operand::Number(n) => Some(prev.push(TextItem::Spacing(n))),
                Operand::Bytes(b) => Some(prev.push(TextItem::Text(b))),
                _ => None,
            },
        }
    }
}

/// The text array at position `i`, if there is one with only strings and spacings.
pub open spec fn items_at(args: Seq<Operand>, i: int) -> Option<Seq<TextItem>> {
    if 0 <= i < args.len() {
        match args[i] {
            Operand::Array(a) => text_items(a@),
            _ => None,
        }
    } else {
        None
    }
}

/// The operator names that are read.
pub open spec fn is_known(name: Seq<char>) -> bool {
    ||| name == "BT"@
    ||| name == "TL"@
    ||| name == "Tf"@
    ||| name == "gs"@
    ||| name == "Td"@
    ||| name == "TD"@
    ||| name == "Tm"@
    ||| name == "T*"@
    ||| name == "Tj"@
    ||| name == "TJ"@
}

/// Whether `op` is what operator `name` with operands `args` reads as; never
/// true where the operands are not of the kinds the operator takes.
pub open spec fn reads_as(name: Seq<char>, args: Seq<Operand>, op: Operation) -> bool {
    if name == "BT"@ {
        op == Operation::BeginText
    } else if name == "TL"@ {
        number_at(args, 0) is Some && op == Operation::SetLeading(number_at(args, 0)->0)
    } else if name == "Tf"@ {
        name_at(args, 0) is Some && number_at(args, 1) is Some && op == Operation::SetFont(
            name_at(args, 0)->0,
            number_at(args, 1)->0,
        )
    } else if name == "gs"@ {
        name_at(args, 0) is Some && op == Operation::SetGraphicsStateFont(name_at(args, 0)->0)
    } else if name == "Td"@ || name == "TD"@ {
        number_at(args, 0) is Some && number_at(args, 1) is Some && op
            == Operation::MoveTextPosition(number_at(args, 0)->0, number_at(args, 1)->0)
    } else if name == "Tm"@ {
        (forall|i: int| 0 <= i < 6 ==> (#[trigger] number_at(args, i)) is Some) && op
            == Operation::SetTextMatrix(
            number_at(args, 0)->0,
            number_at(args, 1)->0,
            number_at(args, 2)->0,
            number_at(args, 3)->0,
            number_at(args, 4)->0,
            number_at(args, 5)->0,
        )
    } else if name == "T*"@ {
        op == Operation::TextNewline
    } else if name == "Tj"@ {
        bytes_at(args, 0) is Some && op == Operation::ShowText(bytes_at(args, 0)->0)
    } else if name == "TJ"@ {
        items_at(args, 0) is Some && (op matches Operation::ShowTextAdjusted(v) && v@ == items_at(
            args,
            0,
        )->0)
    } else {
        false
    }
}

/// Whether a known operator has operands of the kinds it takes.
pub open spec fn well_formed(name: Seq<char>, args: Seq<Operand>) -> bool {
    if name == "TL"@ {
        number_at(args, 0) is Some
    } else if name == "Tf"@ {
        name_at(args, 0) is Some && number_at(args, 1) is Some
    } else if name == "gs"@ {
        name_at(args, 0) is Some
    } else if name == "Td"@ || name == "TD"@ {
        number_at(args, 0) is Some && number_at(args, 1) is Some
    } else if name == "Tm"@ {
        forall|i: int| 0 <= i < 6 ==> (#[trigger] number_at(args, i)) is Some
    } else if name == "Tj"@ {
        bytes_at(args, 0) is Some
    } else if name == "TJ"@ {
        items_at(args, 0) is Some
    } else {
        true
    }
}

fn named(operator: &String, name: &str) -> (r: bool)
    ensures
        r == (operator@ == name@),
{
    *operator == String::from_str(name)
}

fn number_arg(args: &Vec<Operand>, i: usize) -> (r: Option<i64>)
    ensures
        r == number_at(args@, i as int),
{
    if i < args.len() {
        match &args[i] {
            Operand::Number(n) => Some(*n),
            _ => None,
        }
    } else {
        None
    }
}

fn take_name(args: Vec<Operand>, i: usize) -> (r: Option<String>)
    ensures
        r == name_at(args@, i as int),
{
    let mut args = args;
    if i < args.len() {
        match args.remove(i) {
            Operand::Name(n) => Some(n),
            _ => None,
        }
    } else {
        None
    }
}

fn take_bytes(args: Vec<Operand>, i: usize) -> (r: Option<Vec<u8>>)
    ensures
        r == bytes_at(args@, i as int),
{
    let mut args = args;
    if i < args.len() {
        match args.remove(i) {
            Operand::Bytes(b) => Some(b),
            _ => None,
        }
    } else {
        None
    }
}

proof fn lemma_items_prefix_fails(a: Seq<Operand>, k: int)
    requires
        0 <= k <= a.len(),
        text_items(a.take(k)) is None,
    ensures
        text_items(a) is None,
    decreases a.len() - k,
{
    if k < a.len() {
        assert(a.take(k + 1).drop_last() =~= a.take(k));
        lemma_items_prefix_fails(a, k + 1);
    } else {
        assert(a.take(k) =~= a);
    }
}

fn take_items(args: Vec<Operand>, i: usize) -> (r: Option<Vec<TextItem>>)
    ensures
        r is Some <==> items_at(args@, i as int) is Some,
        r matches Some(v) ==> v@ == items_at(args@, i as int)->0,
{
    let ghost old_args = args@;
    let mut rest = args;
    if i >= rest.len() {
        return None;
    }
    let mut a = match rest.remove(i) {
        Operand::Array(a) => a,
        _ => return None,
    };
    let ghost whole = a@;
    let n: usize = a.len();
    assert(whole.len() == n);
    let mut items: Vec<TextItem> = Vec::new();
    let mut k: usize = 0;
    while a.len() > 0
        invariant
            whole.len() <= usize::MAX,
            old_args == args@,
            items_at(old_args, i as int) == text_items(whole),
            k + a@.len() == whole.len(),
            a@ == whole.subrange(k as int, whole.len() as int),
            text_items(whole.take(k as int)) == Some(items@),
        decreases a.len(),
    {
        assert(whole.take(k + 1).drop_last() =~= whole.take(k as int));
        let x = a.remove(0);
        assert(x == whole[k as int]);
        match x {
            Operand::Number(n) => items.push(TextItem::Spacing(n)),
            Operand::Bytes(b) => items.push(TextItem::Text(b)),
            _ => {
                assert(whole.take(k + 1).last() == whole[k as int]);
                proof {
                    lemma_items_prefix_fails(whole, k + 1);
                }
                return None;
            },
        }
        k += 1;
        assert(a@ =~= whole.subrange(k as int, whole.len() as int));
    }
    assert(whole.take(k as int) =~= whole);
    Some(items)
}

impl Operation {
    /// Reads an operator from its name and operands. Operators that text
    /// extraction does not read are `NotImplemented`; operands of the wrong
    /// kinds are a `ParseError`. Both errors carry the operator's name.
    pub fn from_operator(operator: String, operands: Vec<Operand>) -> (r: Result<Operation, Error>)
        ensures
            r is Ok <==> is_known(operator@) && well_formed(operator@, operands@),
            r matches Ok(op) ==> reads_as(operator@, operands@, op),
            r matches Err(e) ==> (if is_known(operator@) {
                e == Error::ParseError(operator)
            } else {
                e == Error::NotImplemented(operator)
            }),
    {
        proof {
            reveal_strlit("BT");
            assert("BT"@[0] == 'B' && "BT"@[1] == 'T');
            reveal_strlit("TL");
            assert("TL"@[0] == 'T' && "TL"@[1] == 'L');
            reveal_strlit("Tf");
            assert("Tf"@[0] == 'T' && "Tf"@[1] == 'f');
            reveal_strlit("gs");
            assert("gs"@[0] == 'g' && "gs"@[1] == 's');
            reveal_strlit("Td");
            assert("Td"@[0] == 'T' && "Td"@[1] == 'd');
            reveal_strlit("TD");
            assert("TD"@[0] == 'T' && "TD"@[1] == 'D');
            reveal_strlit("Tm");
            assert("Tm"@[0] == 'T' && "Tm"@[1] == 'm');
            reveal_strlit("T*");
            assert("T*"@[0] == 'T' && "T*"@[1] == '*');
            reveal_strlit("Tj");
            assert("Tj"@[0] == 'T' && "Tj"@[1] == 'j');
            reveal_strlit("TJ");
            assert("TJ"@[0] == 'T' && "TJ"@[1] == 'J');
        }
        let read = if named(&operator, "BT") {
            Some(Operation::BeginText)
        } else if named(&operator, "TL") {
            match number_arg(&operands, 0) {
                Some(a) => Some(Operation::SetLeading(a)),
                None => None,
            }
        } else if named(&operator, "Tf") {
            match number_arg(&operands, 1) {
                Some(size) => match take_name(operands, 0) {
                    Some(n) => Some(Operation::SetFont(n, size)),
                    None => None,
                },
                None => None,
            }
        } else if named(&operator, "gs") {
            match take_name(operands, 0) {
                Some(n) => Some(Operation::SetGraphicsStateFont(n)),
                None => None,
            }
        } else if named(&operator, "Td") || named(&operator, "TD") {
            match (number_arg(&operands, 0), number_arg(&operands, 1)) {
                (Some(dx), Some(dy)) => Some(Operation::MoveTextPosition(dx, dy)),
                _ => None,
            }
        } else if named(&operator, "Tm") {
            match (
                number_arg(&operands, 0),
                number_arg(&operands, 1),
                number_arg(&operands, 2),
                number_arg(&operands, 3),
                number_arg(&operands, 4),
                number_arg(&operands, 5),
            ) {
                (Some(a), Some(b), Some(c), Some(d), Some(e), Some(f)) => {
                    assert(forall|i: int| 0 <= i < 6 ==> (#[trigger] number_at(operands@, i)) is Some) by {
                        assert forall|i: int| 0 <= i < 6 implies (#[trigger] number_at(operands@, i)) is Some by {
                            assert(i == 0 || i == 1 || i == 2 || i == 3 || i == 4 || i == 5);
                        }
                    }
                    Some(Operation::SetTextMatrix(a, b, c, d, e, f))
                },
                _ => None,
            }
        } else if named(&operator, "T*") {
            Some(Operation::TextNewline)
        } else if named(&operator, "Tj") {
            match take_bytes(operands, 0) {
                Some(b) => Some(Operation::ShowText(b)),
                None => None,
            }
        } else if named(&operator, "TJ") {
            match take_items(operands, 0) {
                Some(v) => Some(Operation::ShowTextAdjusted(v)),
                None => None,
            }
        } else {
            return Err(Error::NotImplemented(operator));
        };
        match read {
            Some(op) => Ok(op),
            None => Err(Error::ParseError(operator)),
        }
    }
}

} // verus!
