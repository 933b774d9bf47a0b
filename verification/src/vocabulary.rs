//! The vocabulary: every spelling of a keyword or an operator, with what it
//! stands for. It is built once and handed by reference to whoever matches
//! or suggests words.

use vstd::prelude::*;
use crate::chars::{in_class, is_word_char, CharClass};
use crate::token::{Keywords, Operators};

verus! {

/// What a spelling of the vocabulary stands for.
#[derive(Debug, Clone, Copy, PartialEq, Eq, Structural)]
pub enum Word {
    Keyword(Keywords),
    Operator(Operators),
}

/// One spelling of the vocabulary.
#[derive(Debug, Clone, PartialEq, Eq)]
pub struct Entry {
    pub spelling: Vec<char>,
    pub word: Word,
}

/// The mathematical counterpart of [`Entry`].
pub struct EntryView {
    pub spelling: Seq<char>,
    pub word: Word,
}

impl View for Entry {
    type V = EntryView;

    open spec fn view(&self) -> EntryView {
        EntryView { spelling: self.spelling@, word: self.word }
    }
}

/// The number of spellings in the vocabulary.
pub open spec fn vocabulary_len() -> nat {
    28
}

/// The spelling at `index`, in lexicographic order of spellings.
pub open spec fn spelling_at(index: int) -> Seq<char> {
    if index == 0 {
        seq!['!', '=']
    } else if index == 1 {
        seq!['(']
    } else if index == 2 {
        seq![')']
    } else if index == 3 {
        seq!['*']
    } else if index == 4 {
        seq!['*', '*']
    } else if index == 5 {
        seq!['+']
    } else if index == 6 {
        seq!['-']
    } else if index == 7 {
        seq!['-', '>']
    } else if index == 8 {
        seq!['/']
    } else if index == 9 {
        seq![';']
    } else if index == 10 {
        seq!['=']
    } else if index == 11 {
        seq!['=', '=']
    } else if index == 12 {
        seq!['[']
    } else if index == 13 {
        seq![']']
    } else if index == 14 {
        seq!['e', 'l', 's', 'e']
    } else if index == 15 {
        seq!['f', 'u', 'n', 'c']
    } else if index == 16 {
        seq!['i', 'f']
    } else if index == 17 {
        seq!['i', 'n', 't', 'e', 'r', 'f', 'a', 'c', 'e']
    } else if index == 18 {
        seq!['l', 'e', 't']
    } else if index == 19 {
        seq!['m', 'u', 't']
    } else if index == 20 {
        seq!['n', 'u', 'l', 'l']
    } else if index == 21 {
        seq!['n', 'u', 'l', 'l', 'p', 't', 'r']
    } else if index == 22 {
        seq!['p', 'r', 'i', 'v', 'a', 't', 'e']
    } else if index == 23 {
        seq!['p', 'u', 'b', 'l', 'i', 'c']
    } else if index == 24 {
        seq!['r', 'e', 't', 'u', 'r', 'n']
    } else if index == 25 {
        seq!['w', 'h', 'i', 'l', 'e']
    } else if index == 26 {
        seq!['{']
    } else {
        seq!['}']
    }
}

/// What the spelling at `index` stands for.
pub open spec fn word_at(index: int) -> Word {
    if index == 0 {
        Word::Operator(Operators::Ne)
    } else if index == 1 {
        Word::Operator(Operators::OpenParen)
    } else if index == 2 {
        Word::Operator(Operators::CloseParen)
    } else if index == 3 {
        Word::Operator(Operators::Asterisk)
    } else if index == 4 {
        Word::Operator(Operators::Power)
    } else if index == 5 {
        Word::Operator(Operators::Add)
    } else if index == 6 {
        Word::Operator(Operators::Subtract)
    } else if index == 7 {
        Word::Operator(Operators::Return)
    } else if index == 8 {
        Word::Operator(Operators::Divide)
    } else if index == 9 {
        Word::Operator(Operators::EndLine)
    } else if index == 10 {
        Word::Operator(Operators::Assign)
    } else if index == 11 {
        Word::Operator(Operators::Eq)
    } else if index == 12 {
        Word::Operator(Operators::OpenBrace)
    } else if index == 13 {
        Word::Operator(Operators::CloseBrace)
    } else if index == 14 {
        Word::Keyword(Keywords::Else)
    } else if index == 15 {
        Word::Keyword(Keywords::Function)
    } else if index == 16 {
        Word::Keyword(Keywords::If)
    } else if index == 17 {
        Word::Keyword(Keywords::Publicity)
    } else if index == 18 {
        Word::Keyword(Keywords::Define)
    } else if index == 19 {
        Word::Keyword(Keywords::Mutable)
    } else if index == 20 {
        Word::Keyword(Keywords::Null)
    } else if index == 21 {
        Word::Keyword(Keywords::Null)
    } else if index == 22 {
        Word::Keyword(Keywords::Publicity)
    } else if index == 23 {
        Word::Keyword(Keywords::Publicity)
    } else if index == 24 {
        Word::Keyword(Keywords::Return)
    } else if index == 25 {
        Word::Keyword(Keywords::While)
    } else if index == 26 {
        Word::Operator(Operators::OpenBracket)
    } else {
        Word::Operator(Operators::CloseBracket)
    }
}

/// Lexicographic order on texts from index `k` on, where the texts agree
/// before `k`: `a` comes before `b` if it ends first, or if at the first
/// difference its character is the smaller.
pub open spec fn text_before_from(a: Seq<char>, b: Seq<char>, k: int) -> bool
    decreases a.len() - k,
{
    if k < 0 || k >= b.len() {
        false
    } else if k >= a.len() {
        true
    } else if a[k] != b[k] {
        a[k] < b[k]
    } else {
        text_before_from(a, b, k + 1)
    }
}

/// Strict lexicographic order on texts.
pub open spec fn text_before(a: Seq<char>, b: Seq<char>) -> bool {
    text_before_from(a, b, 0)
}

/// The whole vocabulary, keywords and operators together.
pub open spec fn vocabulary() -> Seq<EntryView> {
    Seq::new(vocabulary_len(), |i: int| EntryView { spelling: spelling_at(i), word: word_at(i) })
}

/// The vocabulary as a value that is built once and shared.
pub struct Vocabulary {
    pub entries: Vec<Entry>,
}

/// Whether `p` is a place from `k` on up to which `a` and `b` agree and at
/// which `a` has ended, while `b` has not, or holds the smaller character.
pub open spec fn decides_before(a: Seq<char>, b: Seq<char>, k: int, p: int) -> bool {
    &&& k <= p < b.len()
    &&& p <= a.len()
    &&& forall|i: int| k <= i < p ==> a[i] == b[i]
    &&& (p == a.len() || a[p] < b[p])
}

/// Where two texts agree before `k`, `a` comes before `b` exactly when some
/// place from `k` on decides it.
pub proof fn lemma_text_before_decided(a: Seq<char>, b: Seq<char>, k: int)
    requires
        0 <= k <= a.len(),
    ensures
        text_before_from(a, b, k) <==> exists|p: int| decides_before(a, b, k, p),
    decreases a.len() - k,
{
    if k >= b.len() {
    } else if k >= a.len() {
        assert(decides_before(a, b, k, k));
    } else if a[k] != b[k] {
        if a[k] < b[k] {
            assert(decides_before(a, b, k, k));
        } else {
            assert forall|p: int| !decides_before(a, b, k, p) by {
                if decides_before(a, b, k, p) && p > k {
                    assert(a[k] == b[k]);
                }
            }
        }
    } else {
        let next = k + 1;
        lemma_text_before_decided(a, b, next);
        if text_before_from(a, b, next) {
            let p = choose|p: int| decides_before(a, b, next, p);
            assert(decides_before(a, b, k, p));
        }
        if exists|p: int| decides_before(a, b, k, p) {
            let p = choose|p: int| decides_before(a, b, k, p);
            assert(decides_before(a, b, next, p));
        }
    }
}

/// The lexicographic order is transitive.
pub proof fn lemma_text_before_transitive(a: Seq<char>, b: Seq<char>, c: Seq<char>)
    requires
        text_before(a, b),
        text_before(b, c),
    ensures
        text_before(a, c),
{
    lemma_text_before_decided(a, b, 0);
    lemma_text_before_decided(b, c, 0);
    lemma_text_before_decided(a, c, 0);
    let p = choose|p: int| decides_before(a, b, 0, p);
    let q = choose|q: int| decides_before(b, c, 0, q);
    let r = if p <= q {
        p
    } else {
        q
    };
    assert(decides_before(a, c, 0, r));
}

/// A text does not come before itself.
pub proof fn lemma_text_before_irreflexive(a: Seq<char>)
    ensures
        !text_before(a, a),
{
    lemma_text_before_decided(a, a, 0);
}

/// Each spelling comes before the next one.
proof fn lemma_neighbours_sorted(i: int)
    requires
        0 <= i,
        i + 1 < vocabulary_len(),
    ensures
        text_before(spelling_at(i), spelling_at(i + 1)),
{
    reveal_with_fuel(text_before_from, 10);
}

/// The vocabulary is sorted: an earlier spelling comes before a later one
/// in lexicographic order. So no spelling occurs twice.
pub proof fn lemma_vocabulary_sorted(i: int, j: int)
    requires
        0 <= i < j < vocabulary_len(),
    ensures
        text_before(spelling_at(i), spelling_at(j)),
        spelling_at(i) != spelling_at(j),
    decreases j - i,
{
    lemma_neighbours_sorted(j - 1);
    if i + 1 < j {
        lemma_vocabulary_sorted(i, j - 1);
        lemma_text_before_transitive(spelling_at(i), spelling_at(j - 1), spelling_at(j));
    }
    lemma_text_before_irreflexive(spelling_at(i));
}

/// No spelling of the vocabulary holds a separator or a quote, and none is
/// empty.
pub proof fn lemma_spelling_chars(index: int, i: int)
    requires
        0 <= index < vocabulary_len(),
        0 <= i < spelling_at(index).len(),
    ensures
        is_word_char(spelling_at(index)[i]),
{
}

/// Every spelling has at least one character.
pub proof fn lemma_spelling_not_empty(index: int)
    requires
        0 <= index < vocabulary_len(),
    ensures
        spelling_at(index).len() >= 1,
{
}

/// Every spelling of a keyword is the spelling of an identifier: it starts
/// with a letter and goes on with letters.
pub proof fn lemma_keyword_spelling(index: int, i: int)
    requires
        0 <= index < vocabulary_len(),
        word_at(index) is Keyword,
        0 <= i < spelling_at(index).len(),
    ensures
        in_class(CharClass::IdentStart, spelling_at(index)[i]),
{
}

/// No spelling of an operator or a punctuation mark starts as an identifier
/// does.
pub proof fn lemma_operator_spelling(index: int)
    requires
        0 <= index < vocabulary_len(),
        word_at(index) is Operator,
    ensures
        spelling_at(index).len() >= 1,
        !in_class(CharClass::IdentPart, spelling_at(index)[0]),
{
}

impl Vocabulary {
    /// The entries are exactly those of [`vocabulary`], in its order.
    pub open spec fn wf(&self) -> bool {
        &&& self.entries@.len() == vocabulary_len()
        &&& forall|i: int| 0 <= i < vocabulary_len() ==> (#[trigger] self.entries@[i])@ == vocabulary()[i]
    }

    /// Builds the vocabulary.
    pub fn new() -> (v: Vocabulary)
        ensures
            v.wf(),
    {
        let mut entries: Vec<Entry> = Vec::new();
        entries.push(Entry { spelling: vec!['!', '='], word: Word::Operator(Operators::Ne) });
        assert(entries@[0]@.spelling =~= spelling_at(0));
        entries.push(Entry { spelling: vec!['('], word: Word::Operator(Operators::OpenParen) });
        assert(entries@[1]@.spelling =~= spelling_at(1));
        entries.push(Entry { spelling: vec![')'], word: Word::Operator(Operators::CloseParen) });
        assert(entries@[2]@.spelling =~= spelling_at(2));
        entries.push(Entry { spelling: vec!['*'], word: Word::Operator(Operators::Asterisk) });
        assert(entries@[3]@.spelling =~= spelling_at(3));
        entries.push(Entry { spelling: vec!['*', '*'], word: Word::Operator(Operators::Power) });
        assert(entries@[4]@.spelling =~= spelling_at(4));
        entries.push(Entry { spelling: vec!['+'], word: Word::Operator(Operators::Add) });
        assert(entries@[5]@.spelling =~= spelling_at(5));
        entries.push(Entry { spelling: vec!['-'], word: Word::Operator(Operators::Subtract) });
        assert(entries@[6]@.spelling =~= spelling_at(6));
        entries.push(Entry { spelling: vec!['-', '>'], word: Word::Operator(Operators::Return) });
        assert(entries@[7]@.spelling =~= spelling_at(7));
        entries.push(Entry { spelling: vec!['/'], word: Word::Operator(Operators::Divide) });
        assert(entries@[8]@.spelling =~= spelling_at(8));
        entries.push(Entry { spelling: vec![';'], word: Word::Operator(Operators::EndLine) });
        assert(entries@[9]@.spelling =~= spelling_at(9));
        entries.push(Entry { spelling: vec!['='], word: Word::Operator(Operators::Assign) });
        assert(entries@[10]@.spelling =~= spelling_at(10));
        entries.push(Entry { spelling: vec!['=', '='], word: Word::Operator(Operators::Eq) });
        assert(entries@[11]@.spelling =~= spelling_at(11));
        entries.push(Entry { spelling: vec!['['], word: Word::Operator(Operators::OpenBrace) });
        assert(entries@[12]@.spelling =~= spelling_at(12));
        entries.push(Entry { spelling: vec![']'], word: Word::Operator(Operators::CloseBrace) });
        assert(entries@[13]@.spelling =~= spelling_at(13));
        entries.push(Entry { spelling: vec!['e', 'l', 's', 'e'], word: Word::Keyword(Keywords::Else) });
        assert(entries@[14]@.spelling =~= spelling_at(14));
        entries.push(Entry { spelling: vec!['f', 'u', 'n', 'c'], word: Word::Keyword(Keywords::Function) });
        assert(entries@[15]@.spelling =~= spelling_at(15));
        entries.push(Entry { spelling: vec!['i', 'f'], word: Word::Keyword(Keywords::If) });
        assert(entries@[16]@.spelling =~= spelling_at(16));
        entries.push(Entry { spelling: vec!['i', 'n', 't', 'e', 'r', 'f', 'a', 'c', 'e'], word: Word::Keyword(Keywords::Publicity) });
        assert(entries@[17]@.spelling =~= spelling_at(17));
        entries.push(Entry { spelling: vec!['l', 'e', 't'], word: Word::Keyword(Keywords::Define) });
        assert(entries@[18]@.spelling =~= spelling_at(18));
        entries.push(Entry { spelling: vec!['m', 'u', 't'], word: Word::Keyword(Keywords::Mutable) });
        assert(entries@[19]@.spelling =~= spelling_at(19));
        entries.push(Entry { spelling: vec!['n', 'u', 'l', 'l'], word: Word::Keyword(Keywords::Null) });
        assert(entries@[20]@.spelling =~= spelling_at(20));
        entries.push(Entry { spelling: vec!['n', 'u', 'l', 'l', 'p', 't', 'r'], word: Word::Keyword(Keywords::Null) });
        assert(entries@[21]@.spelling =~= spelling_at(21));
        entries.push(Entry { spelling: vec!['p', 'r', 'i', 'v', 'a', 't', 'e'], word: Word::Keyword(Keywords::Publicity) });
        assert(entries@[22]@.spelling =~= spelling_at(22));
        entries.push(Entry { spelling: vec!['p', 'u', 'b', 'l', 'i', 'c'], word: Word::Keyword(Keywords::Publicity) });
        assert(entries@[23]@.spelling =~= spelling_at(23));
        entries.push(Entry { spelling: vec!['r', 'e', 't', 'u', 'r', 'n'], word: Word::Keyword(Keywords::Return) });
        assert(entries@[24]@.spelling =~= spelling_at(24));
        entries.push(Entry { spelling: vec!['w', 'h', 'i', 'l', 'e'], word: Word::Keyword(Keywords::While) });
        assert(entries@[25]@.spelling =~= spelling_at(25));
        entries.push(Entry { spelling: vec!['{'], word: Word::Operator(Operators::OpenBracket) });
        assert(entries@[26]@.spelling =~= spelling_at(26));
        entries.push(Entry { spelling: vec!['}'], word: Word::Operator(Operators::CloseBracket) });
        assert(entries@[27]@.spelling =~= spelling_at(27));
        Vocabulary { entries }
    }
}

} // verus!
