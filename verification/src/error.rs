//! What the lexer reports when the source cannot be turned into tokens.

use vstd::prelude::*;
use vstd::string::*;
use crate::position::{Place, Position};

verus! {

/// A text that is close to a word of the vocabulary, with the words it may
/// have been meant to be.
#[derive(Debug, Clone, PartialEq, Eq)]
pub struct Mistake {
    /// The text as it stands in the source.
    pub written: String,
    /// The closest word.
    pub potential: String,
    /// The other words that are close enough, closest first.
    pub other_potentials: Vec<String>,
}

/// The mathematical counterpart of [`Mistake`].
pub struct MistakeView {
    pub written: Seq<char>,
    pub potential: Seq<char>,
    pub other_potentials: Seq<Seq<char>>,
}

/// The views of a list of texts, in order.
pub open spec fn text_views(texts: Seq<String>) -> Seq<Seq<char>> {
    Seq::new(texts.len(), |i: int| texts[i]@)
}

impl View for Mistake {
    type V = MistakeView;

    open spec fn view(&self) -> MistakeView {
        MistakeView {
            written: self.written@,
            potential: self.potential@,
            other_potentials: text_views(self.other_potentials@),
        }
    }
}

/// Why a source was not turned into tokens.
#[derive(Debug, Clone, PartialEq, Eq)]
pub enum ParsingError {
    /// A text that is close to an operator.
    InvalidOperator(Mistake),
    /// A text that is close to a keyword.
    InvalidKeyword(Mistake),
    /// The source could not be delivered at all. The lexer itself never
    /// reports this: it is for the caller that fetches the buffer.
    IoError,
    /// The source holds nothing but separators.
    EmptyFile,
    /// The buffer is not well-formed UTF-8.
    DecodeError,
    /// A text that no rule accepts and that is close to no word.
    UnknownToken(String),
    /// A run of digits whose value does not fit the number type.
    NumericOverflow(String),
    /// A string literal that the source ends before closing.
    UnterminatedString(String),
}

/// The mathematical counterpart of [`ParsingError`].
pub enum ErrorView {
    InvalidOperator(MistakeView),
    InvalidKeyword(MistakeView),
    IoError,
    EmptyFile,
    DecodeError,
    UnknownToken(Seq<char>),
    NumericOverflow(Seq<char>),
    UnterminatedString(Seq<char>),
}

impl View for ParsingError {
    type V = ErrorView;

    open spec fn view(&self) -> ErrorView {
        match self {
            ParsingError::InvalidOperator(m) => ErrorView::InvalidOperator(m@),
            ParsingError::InvalidKeyword(m) => ErrorView::InvalidKeyword(m@),
            ParsingError::IoError => ErrorView::IoError,
            ParsingError::EmptyFile => ErrorView::EmptyFile,
            ParsingError::DecodeError => ErrorView::DecodeError,
            ParsingError::UnknownToken(t) => ErrorView::UnknownToken(t@),
            ParsingError::NumericOverflow(t) => ErrorView::NumericOverflow(t@),
            ParsingError::UnterminatedString(t) => ErrorView::UnterminatedString(t@),
        }
    }
}

/// An error together with the place of the text it is about.
#[derive(Debug, Clone, PartialEq, Eq)]
pub struct Diagnostic {
    pub error: ParsingError,
    pub position: Position,
}

/// The mathematical counterpart of [`Diagnostic`].
pub struct DiagnosticView {
    pub error: ErrorView,
    pub position: Place,
}

impl View for Diagnostic {
    type V = DiagnosticView;

    open spec fn view(&self) -> DiagnosticView {
        DiagnosticView { error: self.error@, position: self.position@ }
    }
}

/// The texts of `items` from `from` on, each on a line of its own behind
/// four blanks.
pub open spec fn listed(items: Seq<Seq<char>>, from: int) -> Seq<char>
    decreases items.len() - from,
{
    if from < 0 || from >= items.len() {
        Seq::empty()
    } else {
        "    "@ + items[from] + "\n"@ + listed(items, from + 1)
    }
}

/// What is said of a mistake about a word of the class `what`: a first
/// line with the closest word and what was written, a header line, which is
/// the same for every class, and the other close words, one on each line.
pub open spec fn mistake_text(what: Seq<char>, mistake: MistakeView) -> Seq<char> {
    "Invalid "@ + what + ": expected "@ + mistake.potential + ", found "@ + mistake.written
        + "\n"@ + "Similar Valid Operators: \n"@ + listed(mistake.other_potentials, 0)
}

/// The message for an error. Every line of it ends with a line feed, the
/// last one too.
pub open spec fn message_text(error: ErrorView) -> Seq<char> {
    match error {
        ErrorView::InvalidOperator(m) => mistake_text("Operator"@, m),
        ErrorView::InvalidKeyword(m) => mistake_text("Keyword"@, m),
        ErrorView::IoError => "The file could not be read\n"@,
        ErrorView::EmptyFile => "The file is currently empty, please add code\n"@,
        ErrorView::DecodeError => "Invalid Source Code; Not UTF-8 Valid\n"@,
        ErrorView::UnknownToken(t) => "Unknown token: "@ + t + "\n"@,
        ErrorView::NumericOverflow(t) => "Number out of range: "@ + t + "\n"@,
        ErrorView::UnterminatedString(_) => "Unterminated string literal\n"@,
    }
}

/// The character for a digit below ten.
pub open spec fn digit_char(d: nat) -> char {
    if d == 0 {
        '0'
    } else if d == 1 {
        '1'
    } else if d == 2 {
        '2'
    } else if d == 3 {
        '3'
    } else if d == 4 {
        '4'
    } else if d == 5 {
        '5'
    } else if d == 6 {
        '6'
    } else if d == 7 {
        '7'
    } else if d == 8 {
        '8'
    } else {
        '9'
    }
}

/// A number written in decimal, without leading zeros.
pub open spec fn decimal(n: nat) -> Seq<char>
    decreases n,
{
    if n < 10 {
        seq![digit_char(n)]
    } else {
        decimal(n / 10).push(digit_char(n % 10))
    }
}

/// The message for a diagnostic: the place, then the message of the error.
pub open spec fn located_text(diagnostic: DiagnosticView) -> Seq<char> {
    "line "@ + decimal(diagnostic.position.line) + ", column "@ + decimal(
        diagnostic.position.column,
    ) + ": "@ + message_text(diagnostic.error)
}

/// The views of a list of diagnostics, in order.
pub open spec fn diagnostic_views(diagnostics: Seq<Diagnostic>) -> Seq<DiagnosticView> {
    Seq::new(diagnostics.len(), |i: int| diagnostics[i]@)
}

/// Writes `n` in decimal.
pub fn decimal_string(n: usize) -> (out: String)
    ensures
        out@ == decimal(n as nat),
{
    let mut digits: Vec<char> = Vec::new();
    let mut rest: usize = n;
    while rest >= 10
        invariant
            decimal(rest as nat) + digits@.reverse() == decimal(n as nat),
        decreases rest,
    {
        let ghost before = digits@;
        let ghost whole = rest;
        let c = digit_of(rest % 10);
        digits.push(c);
        rest = rest / 10;
        proof {
            assert(digits@.reverse() =~= seq![c] + before.reverse());
            assert(decimal(whole as nat) == decimal(rest as nat).push(c));
            assert(decimal(rest as nat) + (seq![c] + before.reverse()) =~= decimal(
                rest as nat,
            ).push(c) + before.reverse());
        }
    }
    let mut out = String::new();
    out.push(digit_of(rest));
    let ghost head = out@;
    proof {
        assert(head =~= decimal(rest as nat));
    }
    let mut i: usize = digits.len();
    while i > 0
        invariant
            i <= digits@.len(),
            head + digits@.reverse() == decimal(n as nat),
            out@ == head + digits@.reverse().subrange(0, digits@.len() - i),
        decreases i,
    {
        i = i - 1;
        out.push(digits[i]);
        proof {
            let r = digits@.reverse();
            let k = digits@.len() - i;
            assert(r.subrange(0, k) =~= r.subrange(0, k - 1).push(r[k - 1]));
            assert(r[k - 1] == digits@[i as int]);
            assert(head + r.subrange(0, k - 1).push(r[k - 1]) =~= (head + r.subrange(
                0,
                k - 1,
            )).push(r[k - 1]));
        }
    }
    proof {
        assert(digits@.reverse().subrange(0, digits@.len() as int) =~= digits@.reverse());
    }
    out
}

/// The character for a digit below ten.
pub fn digit_of(d: usize) -> (c: char)
    requires
        d < 10,
    ensures
        c == digit_char(d as nat),
{
    if d == 0 {
        '0'
    } else if d == 1 {
        '1'
    } else if d == 2 {
        '2'
    } else if d == 3 {
        '3'
    } else if d == 4 {
        '4'
    } else if d == 5 {
        '5'
    } else if d == 6 {
        '6'
    } else if d == 7 {
        '7'
    } else if d == 8 {
        '8'
    } else {
        '9'
    }
}

impl Mistake {
    /// What is said of this mistake about a word of the class `what`.
    pub fn message(&self, what: &str) -> (out: String)
        ensures
            out@ == mistake_text(what@, self@),
    {
        let mut out = String::from_str("Invalid ");
        out.append(what);
        out.append(": expected ");
        out.append(self.potential.as_str());
        out.append(", found ");
        out.append(self.written.as_str());
        out.append("\n");
        out.append("Similar Valid Operators: \n");
        let ghost head = out@;
        let ghost others = text_views(self.other_potentials@);
        let mut i: usize = 0;
        proof {
            assert(out@ + listed(others, 0) == head + listed(others, 0));
        }
        while i < self.other_potentials.len()
            invariant
                i <= self.other_potentials@.len(),
                others == text_views(self.other_potentials@),
                out@ + listed(others, i as int) == head + listed(others, 0),
            decreases self.other_potentials@.len() - i,
        {
            let ghost before = out@;
            out.append("    ");
            out.append(self.other_potentials[i].as_str());
            out.append("\n");
            proof {
                assert(others[i as int] == self.other_potentials@[i as int]@);
                assert(before + "    "@ + others[i as int] + "\n"@ + listed(others, i + 1)
                    =~= before + ("    "@ + others[i as int] + "\n"@ + listed(others, i + 1)));
            }
            i = i + 1;
        }
        proof {
            assert(out@ + listed(others, i as int) =~= out@);
        }
        out
    }
}

impl ParsingError {
    /// The message for this error, each line of it with its line feed.
    pub fn message(&self) -> (out: String)
        ensures
            out@ == message_text(self@),
    {
        match self {
            ParsingError::InvalidOperator(m) => m.message("Operator"),
            ParsingError::InvalidKeyword(m) => m.message("Keyword"),
            ParsingError::IoError => String::from_str("The file could not be read\n"),
            ParsingError::EmptyFile => String::from_str(
                "The file is currently empty, please add code\n",
            ),
            ParsingError::DecodeError => String::from_str("Invalid Source Code; Not UTF-8 Valid\n"),
            ParsingError::UnknownToken(t) => {
                let mut out = String::from_str("Unknown token: ");
                out.append(t.as_str());
                out.append("\n");
                out
            },
            ParsingError::NumericOverflow(t) => {
                let mut out = String::from_str("Number out of range: ");
                out.append(t.as_str());
                out.append("\n");
                out
            },
            ParsingError::UnterminatedString(_) => String::from_str(
                "Unterminated string literal\n",
            ),
        }
    }
}

impl Diagnostic {
    /// The message for this diagnostic: the place, then the message of the
    /// error.
    pub fn message(&self) -> (out: String)
        ensures
            out@ == located_text(self@),
    {
        let mut out = String::from_str("line ");
        out.append(decimal_string(self.position.line).as_str());
        out.append(", column ");
        out.append(decimal_string(self.position.column).as_str());
        out.append(": ");
        out.append(self.error.message().as_str());
        out
    }
}

} // verus!
