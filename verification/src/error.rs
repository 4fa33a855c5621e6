//! The errors of reading, and the text that they carry.

use arrow_schema::ArrowError;
use vstd::prelude::*;
use vstd::string::*;

verus! {

/// What can go wrong when a data file is read.
pub enum Error {
    /// The file, or the request on it, is at fault.
    IO(String),
    /// Arrow refused to build an array or a record batch.
    Arrow(ArrowError),
}

/// The view of an [`Error`].
pub enum ErrorView {
    IO(Seq<char>),
    Arrow(ArrowError),
}

impl View for Error {
    type V = ErrorView;

    open spec fn view(&self) -> ErrorView {
        match *self {
            Error::IO(message) => ErrorView::IO(message@),
            Error::Arrow(error) => ErrorView::Arrow(error),
        }
    }
}

/// The decimal digit of a number below ten.
pub open spec fn digit(n: nat) -> char {
    (n + '0' as nat) as char
}

/// The decimal digits of a number, without leading zeros.
pub open spec fn digits(n: nat) -> Seq<char>
    decreases n,
{
    if n < 10 {
        seq![digit(n)]
    } else {
        digits(n / 10).push(digit(n % 10))
    }
}

/// A number in decimal, with a minus sign where it is negative.
pub open spec fn decimal(n: int) -> Seq<char> {
    if n < 0 {
        seq!['-'] + digits((-n) as nat)
    } else {
        digits(n as nat)
    }
}

/// The decimal digit of a number below ten, as text.
fn digit_text(n: u32) -> (text: &'static str)
    requires
        n < 10,
    ensures
        text@ == seq![digit(n as nat)],
{
    proof {
        reveal_strlit("0");
        reveal_strlit("1");
        reveal_strlit("2");
        reveal_strlit("3");
        reveal_strlit("4");
        reveal_strlit("5");
        reveal_strlit("6");
        reveal_strlit("7");
        reveal_strlit("8");
        reveal_strlit("9");
    }
    match n {
        0 => "0",
        1 => "1",
        2 => "2",
        3 => "3",
        4 => "4",
        5 => "5",
        6 => "6",
        7 => "7",
        8 => "8",
        _ => "9",
    }
}

/// Appends the decimal digits of `n` to `text`.
fn append_digits(text: &mut String, n: u32)
    ensures
        final(text)@ == old(text)@ + digits(n as nat),
    decreases n,
{
    if n >= 10 {
        append_digits(text, n / 10);
    }
    text.append(digit_text(n % 10));
}

/// Appends `n` in decimal to `text`.
pub fn append_decimal(text: &mut String, n: i32)
    ensures
        final(text)@ == old(text)@ + decimal(n as int),
{
    if n < 0 {
        proof {
            reveal_strlit("-");
        }
        text.append("-");
        append_digits(text, (-(n as i64)) as u32);
    } else {
        append_digits(text, n as u32);
    }
}

/// What is said of a batch that the file does not hold.
pub open spec fn missing_batch_message(batch_id: i32) -> Seq<char> {
    "batch "@ + decimal(batch_id as int) + " does not exist"@
}

/// What is said of a page that the page table does not list.
pub open spec fn missing_page_message(name: Seq<char>, field_id: i32, batch_id: i32) -> Seq<char> {
    "No page info found for field: "@ + name + ", field_id="@ + decimal(field_id as int)
        + " batch="@ + decimal(batch_id as int)
}

/// The error for a batch that the file does not hold.
pub fn missing_batch(batch_id: i32) -> (error: Error)
    ensures
        error@ == ErrorView::IO(missing_batch_message(batch_id)),
{
    let mut text = String::new();
    text.append("batch ");
    append_decimal(&mut text, batch_id);
    text.append(" does not exist");
    assert(text@ =~= missing_batch_message(batch_id));
    Error::IO(text)
}

/// The error for a page that the page table does not list.
pub fn missing_page(name: &String, field_id: i32, batch_id: i32) -> (error: Error)
    ensures
        error@ == ErrorView::IO(missing_page_message(name@, field_id, batch_id)),
{
    let mut text = String::new();
    text.append("No page info found for field: ");
    text.append(name.as_str());
    text.append(", field_id=");
    append_decimal(&mut text, field_id);
    text.append(" batch=");
    append_decimal(&mut text, batch_id);
    assert(text@ =~= missing_page_message(name@, field_id, batch_id));
    Error::IO(text)
}

} // verus!
