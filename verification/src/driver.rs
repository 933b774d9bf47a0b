//! The driver: from a buffer of bytes to the tokens of the source it holds.

use vstd::prelude::*;
use vstd::utf8::{decode_utf8, valid_utf8};
use crate::chars::{is_space, lemma_run_to_end, scan_run, CharClass};
use crate::error::{diagnostic_views, DiagnosticView, ErrorView, ParsingError};
use crate::laws::{lemma_coverage, lemma_problems_are_lexical};
use crate::scanner::{problems_from, tokens_from, Scan};
use crate::text::decode;
use crate::token::{
    all_meaningful, all_placed, concat_texts, in_source_order, token_views, visible, Token,
    TokenView,
};
use crate::vocabulary::Vocabulary;

verus! {

/// Whether `s` holds nothing but separators. The empty source is blank.
pub open spec fn is_blank(s: Seq<char>) -> bool {
    forall|i: int| 0 <= i < s.len() ==> is_space(#[trigger] s[i])
}

/// What strict tokenizing makes of a buffer: an error if the bytes are not
/// UTF-8, if the text is blank, or if any lexeme has a problem, of which the
/// first is reported; else the tokens in source order, without those of kind
/// `Ignore`.
pub open spec fn strict_outcome(bytes: Seq<u8>) -> Result<Seq<TokenView>, ErrorView> {
    if !valid_utf8(bytes) {
        Err(ErrorView::DecodeError)
    } else if is_blank(decode_utf8(bytes)) {
        Err(ErrorView::EmptyFile)
    } else if problems_from(decode_utf8(bytes), 0).len() > 0 {
        Err(problems_from(decode_utf8(bytes), 0)[0].error)
    } else {
        Ok(tokens_from(decode_utf8(bytes), 0, false))
    }
}

/// What lenient tokenizing makes of a buffer: an error if the bytes are not
/// UTF-8 or if the text is blank; else every token in source order, without
/// those of kind `Ignore`, and every problem with its place.
pub open spec fn lenient_outcome(bytes: Seq<u8>) -> Result<
    (Seq<TokenView>, Seq<DiagnosticView>),
    ErrorView,
> {
    if !valid_utf8(bytes) {
        Err(ErrorView::DecodeError)
    } else if is_blank(decode_utf8(bytes)) {
        Err(ErrorView::EmptyFile)
    } else {
        Ok((tokens_from(decode_utf8(bytes), 0, false), problems_from(decode_utf8(bytes), 0)))
    }
}

/// The view of what [`tokenize`] hands back.
pub open spec fn strict_result_view(r: Result<Vec<Token>, ParsingError>) -> Result<
    Seq<TokenView>,
    ErrorView,
> {
    match r {
        Ok(tokens) => Ok(token_views(tokens@)),
        Err(e) => Err(e@),
    }
}

/// The view of what [`tokenize_lenient`] hands back.
pub open spec fn lenient_result_view(r: Result<Scan, ParsingError>) -> Result<
    (Seq<TokenView>, Seq<DiagnosticView>),
    ErrorView,
> {
    match r {
        Ok(scan) => Ok((token_views(scan.tokens@), diagnostic_views(scan.diagnostics@))),
        Err(e) => Err(e@),
    }
}

/// Whether `tokens` are what is left of the full scan of `s` when whitespace
/// and comments are taken out, and the texts of that full scan make up `s`.
pub open spec fn covers(s: Seq<char>, tokens: Seq<TokenView>) -> bool {
    tokens == visible(tokens_from(s, 0, true)) && concat_texts(tokens_from(s, 0, true)) == s
}

/// Tells whether `source` holds nothing but separators.
pub fn blank(source: &Vec<char>) -> (r: bool)
    ensures
        r == is_blank(source@),
{
    proof {
        lemma_run_to_end(CharClass::Space, source@, 0);
    }
    scan_run(CharClass::Space, source, 0) == source.len()
}

/// Turns a buffer into tokens and stops at the first problem.
///
/// The buffer must decode as UTF-8 and hold more than separators. The
/// tokens come in source order, each with its exact text and the place
/// where it starts; whitespace and comments are left out. Nothing is
/// handed back of a source that has a problem but the first problem.
pub fn tokenize(buffer: &[u8]) -> (r: Result<Vec<Token>, ParsingError>)
    ensures
        strict_result_view(r) == strict_outcome(buffer@),
        r matches Ok(tokens) ==> {
            &&& covers(decode_utf8(buffer@), token_views(tokens@))
            &&& in_source_order(token_views(tokens@))
            &&& all_placed(token_views(tokens@))
            &&& all_meaningful(token_views(tokens@))
        },
        r matches Err(e) ==> !(e is IoError),
{
    let source = match decode(buffer) {
        Some(chars) => chars,
        None => {
            return Err(ParsingError::DecodeError);
        },
    };
    if blank(&source) {
        return Err(ParsingError::EmptyFile);
    }
    proof {
        lemma_problems_are_lexical(source@, 0);
        lemma_coverage(source@);
    }
    let words = Vocabulary::new();
    match words.scan_strict(&source, false) {
        Ok(tokens) => Ok(tokens),
        Err(diagnostic) => Err(diagnostic.error),
    }
}

/// Turns a buffer into tokens and collects every problem on the way.
///
/// The buffer must decode as UTF-8 and hold more than separators. A lexeme
/// with a problem is handed out as a token of kind `Unknown`, and the
/// problem is listed with the place of that lexeme.
pub fn tokenize_lenient(buffer: &[u8]) -> (r: Result<Scan, ParsingError>)
    ensures
        lenient_result_view(r) == lenient_outcome(buffer@),
        r matches Ok(scan) ==> {
            &&& covers(decode_utf8(buffer@), token_views(scan.tokens@))
            &&& in_source_order(token_views(scan.tokens@))
            &&& all_placed(token_views(scan.tokens@))
        },
        r matches Err(e) ==> e is DecodeError || e is EmptyFile,
{
    let source = match decode(buffer) {
        Some(chars) => chars,
        None => {
            return Err(ParsingError::DecodeError);
        },
    };
    if blank(&source) {
        return Err(ParsingError::EmptyFile);
    }
    proof {
        lemma_coverage(source@);
    }
    let words = Vocabulary::new();
    Ok(words.scan_lenient(&source, false))
}

impl Token {
    /// Turns the source held in `buffer` into tokens, as [`tokenize`] does.
    pub fn parse_source(self, buffer: &[u8]) -> (r: Result<Vec<Token>, ParsingError>)
        ensures
            strict_result_view(r) == strict_outcome(buffer@),
            r matches Ok(tokens) ==> {
                &&& covers(decode_utf8(buffer@), token_views(tokens@))
                &&& in_source_order(token_views(tokens@))
                &&& all_placed(token_views(tokens@))
                &&& all_meaningful(token_views(tokens@))
            },
            r matches Err(e) ==> !(e is IoError),
    {
        tokenize(buffer)
    }
}

} // verus!
