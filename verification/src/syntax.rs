//! Comment syntax: which file extensions have comment rules, and the comments
//! that the rules find in a text. Both are the `comment_parser` crate's work;
//! this module gives its results a name and passes them on.

use crate::file::supported_extension;
use comment_parser::{CommentParser, LanguageError, SyntaxRule};
use vstd::prelude::*;

verus! {

/// A rule of `comment_parser` for one comment or string delimiter. Nothing
/// here looks inside it.
#[verifier::external_type_specification]
#[verifier::external_body]
pub struct ExSyntaxRule<'a>(comment_parser::SyntaxRule<'a>);

/// The error of `comment_parser` for an extension without rules.
#[verifier::external_type_specification]
#[verifier::external_body]
pub struct ExLanguageError(comment_parser::LanguageError);

/// The rule set that `comment_parser::get_syntax_from_extension` finds for a
/// file extension, `None` where it knows no language or has no rules for it.
pub uninterp spec fn syntax_of_extension(extension: Seq<char>) -> Option<
    Seq<SyntaxRule<'static>>,
>;

/// The texts of the comments that a `comment_parser::CommentParser` yields for
/// `text` under `rules`, delimiters stripped, in the order they stand in `text`.
pub uninterp spec fn comment_texts(text: Seq<char>, rules: Seq<SyntaxRule<'static>>) -> Seq<
    Seq<char>,
>;

/// Whether `rules` is one of the rule sets that `comment_parser` ships: the
/// one it finds for some extension.
pub open spec fn is_predefined(rules: Seq<SyntaxRule<'static>>) -> bool {
    exists|extension: Seq<char>| #[trigger] syntax_of_extension(extension) == Some(rules)
}

/// Calls `comment_parser::get_syntax_from_extension`.
///
/// Trusted: the outcome is the one named by [`syntax_of_extension`], and the
/// lookup succeeds for each of the supported extensions. (In the tables of
/// `detect-lang` and `comment_parser`, `c` and `h` are C, `cpp` and `cxx` are
/// C++, `rs` is Rust, and all three languages have rules.)
#[verifier::external_body]
pub(crate) fn syntax_from_extension(extension: &str) -> (found: Result<
    &'static [SyntaxRule<'static>],
    LanguageError,
>)
    ensures
        match found {
            Ok(rules) => syntax_of_extension(extension@) == Some(rules@),
            Err(_) => syntax_of_extension(extension@) is None,
        },
        supported_extension(extension@) ==> found is Ok,
{
    comment_parser::get_syntax_from_extension(extension)
}

/// Runs a `comment_parser::CommentParser` over `text` and collects the text of
/// each event it yields.
///
/// Trusted: the result is the sequence named by [`comment_texts`]. The parser
/// panics on an empty rule set or an empty delimiter, and it cuts `text` at
/// the byte where a delimiter was found. The rule sets that the crate ships
/// are non-empty and their delimiters are non-empty ASCII without line breaks,
/// so for those it returns on every text; no other rule set is let in.
#[verifier::external_body]
pub(crate) fn parse_comments(text: &str, rules: &'static [SyntaxRule<'static>]) -> (texts: Vec<
    String,
>)
    requires
        is_predefined(rules@),
    ensures
        texts.deep_view() == comment_texts(text@, rules@),
{
    CommentParser::new(text, rules).map(|event| event.text().to_string()).collect()
}

} // verus!
