//! File records: what is kept of one scanned file and of each of its comments.

use crate::hash::{digest_hex, sha3_512_digest, to_hex, HASH_LEN};
use crate::syntax::{comment_texts, parse_comments, syntax_from_extension, syntax_of_extension};
use vstd::prelude::*;
use vstd::utf8::{decode_utf8, encode_utf8, encode_utf8_decode_utf8, valid_utf8};

verus! {

/// The least number of bytes a comment's text must have to be kept.
pub const MIN_COMMENT_LEN: usize = 5;

/// One comment kept from a file.
#[derive(Debug, Clone, PartialEq, Eq)]
pub struct Comment {
    /// The comment's text, delimiters stripped.
    pub comment: String,
    /// Fingerprint of the text's bytes.
    pub hash: String,
    /// Fingerprint of the file the comment stands in.
    pub file_hash: String,
}

/// One scanned file.
#[derive(Debug, Clone, PartialEq, Eq)]
pub struct FileData {
    /// The file's path as the directory walk showed it.
    pub path: String,
    /// Fingerprint of the file's bytes.
    pub hash: String,
    /// The comments kept from the file, in the order they stand in it.
    pub comments: Vec<Comment>,
}

/// Why a file gave no record.
#[derive(Debug, Clone, PartialEq, Eq)]
pub enum ProcessingError {
    /// The file at `path` could not be read.
    ReadError { path: String },
    /// No comment rules exist for the type of the file at `path`.
    UnsupportedSyntax { path: String },
}

/// What a [`Comment`] holds.
pub struct CommentView {
    pub comment: Seq<char>,
    pub hash: Seq<char>,
    pub file_hash: Seq<char>,
}

/// What a [`FileData`] holds.
pub struct FileDataView {
    pub path: Seq<char>,
    pub hash: Seq<char>,
    pub comments: Seq<CommentView>,
}

/// What a [`ProcessingError`] holds.
pub enum ProcessingErrorView {
    ReadError { path: Seq<char> },
    UnsupportedSyntax { path: Seq<char> },
}

impl View for Comment {
    type V = CommentView;

    open spec fn view(&self) -> CommentView {
        CommentView { comment: self.comment@, hash: self.hash@, file_hash: self.file_hash@ }
    }
}

impl DeepView for Comment {
    type V = CommentView;

    open spec fn deep_view(&self) -> CommentView {
        self@
    }
}

impl View for FileData {
    type V = FileDataView;

    open spec fn view(&self) -> FileDataView {
        FileDataView { path: self.path@, hash: self.hash@, comments: self.comments.deep_view() }
    }
}

impl DeepView for FileData {
    type V = FileDataView;

    open spec fn deep_view(&self) -> FileDataView {
        self@
    }
}

impl View for ProcessingError {
    type V = ProcessingErrorView;

    open spec fn view(&self) -> ProcessingErrorView {
        match self {
            ProcessingError::ReadError { path } => ProcessingErrorView::ReadError { path: path@ },
            ProcessingError::UnsupportedSyntax { path } => ProcessingErrorView::UnsupportedSyntax {
                path: path@,
            },
        }
    }
}

impl DeepView for ProcessingError {
    type V = ProcessingErrorView;

    open spec fn deep_view(&self) -> ProcessingErrorView {
        self@
    }
}

/// The text that `String::from_utf8_lossy` makes of `bytes`.
pub uninterp spec fn utf8_lossy(bytes: Seq<u8>) -> Seq<char>;

/// Calls `String::from_utf8_lossy` and takes the text it returns.
///
/// Trusted: the result is the text named by [`utf8_lossy`], and bytes that are
/// valid UTF-8 decode to the text they encode. (Other bytes are replaced with
/// U+FFFD; how many replacements a run of them gives is not stated here.)
#[verifier::external_body]
fn decode_lossy(bytes: &[u8]) -> (text: String)
    ensures
        text@ == utf8_lossy(bytes@),
        valid_utf8(bytes@) ==> text@ == decode_utf8(bytes@),
{
    String::from_utf8_lossy(bytes).into_owned()
}

/// Whether a comment with this text is kept: its UTF-8 form has at least
/// [`MIN_COMMENT_LEN`] bytes.
pub open spec fn is_retained(text: Seq<char>) -> bool {
    encode_utf8(text).len() >= MIN_COMMENT_LEN
}

/// The record of the comment `text` in the file with fingerprint `file_hash`.
pub open spec fn comment_record(text: Seq<char>, file_hash: Seq<char>) -> CommentView {
    CommentView { comment: text, hash: digest_hex(encode_utf8(text)), file_hash }
}

/// The records of those of `texts` that are kept, in the order of `texts`.
pub open spec fn retained_comments(texts: Seq<Seq<char>>, file_hash: Seq<char>) -> Seq<
    CommentView,
> {
    texts.filter_map(
        |text: Seq<char>|
            if is_retained(text) {
                Some(comment_record(text, file_hash))
            } else {
                None
            },
    )
}

/// The comments kept from a file with text `contents`, extension `extension`
/// and fingerprint `file_hash`; `None` where the extension has no comment rules.
pub open spec fn file_comments(
    contents: Seq<char>,
    extension: Seq<char>,
    file_hash: Seq<char>,
) -> Option<Seq<CommentView>> {
    match syntax_of_extension(extension) {
        Some(rules) => Some(retained_comments(comment_texts(contents, rules), file_hash)),
        None => None,
    }
}

/// What processing one file gives: `read` is the file's bytes, `None` where
/// it could not be read.
pub open spec fn process(path: Seq<char>, extension: Seq<char>, read: Option<Seq<u8>>) -> Result<
    FileDataView,
    ProcessingErrorView,
> {
    match read {
        None => Err(ProcessingErrorView::ReadError { path }),
        Some(bytes) => match file_comments(utf8_lossy(bytes), extension, digest_hex(bytes)) {
            Some(comments) => Ok(FileDataView { path, hash: digest_hex(bytes), comments }),
            None => Err(ProcessingErrorView::UnsupportedSyntax { path }),
        },
    }
}

impl CommentView {
    /// Whether this is the record of a kept comment of the file with
    /// fingerprint `file_hash`: the text is long enough, the comment's
    /// fingerprint is that of the text's bytes, and `file_hash` is stamped on.
    pub open spec fn is_record_in(self, file_hash: Seq<char>) -> bool {
        &&& is_retained(self.comment)
        &&& self.hash == digest_hex(encode_utf8(self.comment))
        &&& self.file_hash == file_hash
    }
}

impl FileDataView {
    /// Whether every comment of the record is a kept comment of this file.
    pub open spec fn well_formed(self) -> bool {
        forall|i: int|
            0 <= i < self.comments.len() ==> (#[trigger] self.comments[i]).is_record_in(self.hash)
    }

    /// Whether the fingerprints in the record, the file's and each comment's,
    /// have the length of a fingerprint.
    pub open spec fn hashes_sized(self) -> bool {
        &&& self.hash.len() == HASH_LEN
        &&& comment_hashes_sized(self.comments)
    }
}

/// Whether the fingerprint of each of `comments` has the length of a
/// fingerprint.
pub open spec fn comment_hashes_sized(comments: Seq<CommentView>) -> bool {
    forall|i: int| 0 <= i < comments.len() ==> (#[trigger] comments[i]).hash.len() == HASH_LEN
}

/// No comment shorter than [`MIN_COMMENT_LEN`] bytes is kept, and each kept
/// comment carries the fingerprint of its own text and that of its file.
pub proof fn lemma_retained_comments_are_records(texts: Seq<Seq<char>>, file_hash: Seq<char>)
    ensures
        forall|i: int|
            0 <= i < retained_comments(texts, file_hash).len() ==> (#[trigger] retained_comments(
                texts,
                file_hash,
            )[i]).is_record_in(file_hash),
{
    let keep = |text: Seq<char>|
        if is_retained(text) {
            Some(comment_record(text, file_hash))
        } else {
            None
        };
    let kept = retained_comments(texts, file_hash);
    assert forall|i: int| 0 <= i < kept.len() implies (#[trigger] kept[i]).is_record_in(
        file_hash,
    ) by {
        assert(kept.contains(kept[i]));
        texts.lemma_filter_map_contains(keep, kept[i]);
        let text = choose|text: Seq<char>| #[trigger]
            texts.contains(text) && keep(text) == Some(kept[i]);
        assert(kept[i] == comment_record(text, file_hash));
    }
}

/// A comment is kept exactly when its text has at least [`MIN_COMMENT_LEN`]
/// bytes: a text of exactly that many is kept, a shorter one is dropped.
pub proof fn lemma_retained_at_the_limit(text: Seq<char>, file_hash: Seq<char>)
    ensures
        retained_comments(seq![text], file_hash) == if encode_utf8(text).len() >= 5 {
            seq![comment_record(text, file_hash)]
        } else {
            Seq::<CommentView>::empty()
        },
{
    let keep = |text: Seq<char>|
        if is_retained(text) {
            Some(comment_record(text, file_hash))
        } else {
            None
        };
    Seq::lemma_filter_map_singleton(text, keep);
}

/// The record of a file that was read carries the path it was given and the
/// fingerprint of the bytes as they were read, whatever their decoding, and
/// every comment in it is a kept comment of this file.
pub proof fn lemma_record_of_file(path: Seq<char>, extension: Seq<char>, bytes: Seq<u8>)
    ensures
        process(path, extension, Some(bytes)) matches Ok(record) ==> {
            &&& record.path == path
            &&& record.hash == digest_hex(bytes)
            &&& record.well_formed()
        },
        process(path, extension, Some(bytes)) is Ok <==> syntax_of_extension(extension) is Some,
{
    if let Some(rules) = syntax_of_extension(extension) {
        lemma_retained_comments_are_records(
            comment_texts(utf8_lossy(bytes), rules),
            digest_hex(bytes),
        );
    }
}

/// The view of a file's outcome.
pub open spec fn outcome_view(outcome: Result<FileData, ProcessingError>) -> Result<
    FileDataView,
    ProcessingErrorView,
> {
    match outcome {
        Ok(record) => Ok(record@),
        Err(error) => Err(error@),
    }
}

/// The view of the bytes read, if any.
pub open spec fn read_view(read: Option<Vec<u8>>) -> Option<Seq<u8>> {
    match read {
        Some(bytes) => Some(bytes@),
        None => None,
    }
}

/// The file extensions whose files are scanned. The match is exact and
/// case-sensitive.
pub open spec fn supported_extension(extension: Seq<char>) -> bool {
    ||| extension == "c"@
    ||| extension == "cpp"@
    ||| extension == "cxx"@
    ||| extension == "h"@
    ||| extension == "rs"@
}

/// Two texts with the same UTF-8 bytes are the same text.
pub proof fn lemma_same_bytes_same_text(a: Seq<char>, b: Seq<char>)
    requires
        encode_utf8(a) == encode_utf8(b),
    ensures
        a == b,
{
    encode_utf8_decode_utf8(a);
    encode_utf8_decode_utf8(b);
}

/// Whether two texts are equal, compared byte by byte.
fn same_text(a: &str, b: &str) -> (same: bool)
    ensures
        same == (a@ == b@),
{
    let x = a.as_bytes();
    let y = b.as_bytes();
    if x.len() != y.len() {
        return false;
    }
    let mut i: usize = 0;
    while i < x.len()
        invariant
            i <= x.len(),
            x.len() == y.len(),
            x@ == encode_utf8(a@),
            y@ == encode_utf8(b@),
            forall|j: int| 0 <= j < i ==> x@[j] == y@[j],
        decreases x.len() - i,
    {
        if x[i] != y[i] {
            return false;
        }
        i += 1;
    }
    proof {
        assert(x@ =~= y@);
        lemma_same_bytes_same_text(a@, b@);
    }
    true
}

/// Whether files with this extension are scanned.
pub fn is_supported_extension(extension: &str) -> (supported: bool)
    ensures
        supported == supported_extension(extension@),
{
    same_text(extension, "c") || same_text(extension, "cpp") || same_text(extension, "cxx")
        || same_text(extension, "h") || same_text(extension, "rs")
}

/// Keeps the comments that are long enough and makes a record of each: the
/// text, the fingerprint of its bytes, and the fingerprint of the file.
pub fn retain_comments(texts: Vec<String>, file_hash: &str) -> (comments: Vec<Comment>)
    ensures
        comments.deep_view() == retained_comments(texts.deep_view(), file_hash@),
        comment_hashes_sized(comments.deep_view()),
{
    let ghost all = texts.deep_view();
    let ghost keep = |text: Seq<char>|
        if is_retained(text) {
            Some(comment_record(text, file_hash@))
        } else {
            None
        };
    let mut comments: Vec<Comment> = Vec::new();
    let mut i: usize = 0;
    proof {
        assert(comments.deep_view() =~= all.take(0).filter_map(keep));
    }
    while i < texts.len()
        invariant
            i <= texts.len(),
            all == texts.deep_view(),
            keep == |text: Seq<char>|
                if is_retained(text) {
                    Some(comment_record(text, file_hash@))
                } else {
                    None
                },
            comments.deep_view() == all.take(i as int).filter_map(keep),
            comment_hashes_sized(comments.deep_view()),
        decreases texts.len() - i,
    {
        let text: &str = texts[i].as_str();
        let bytes = text.as_bytes();
        let ghost before = comments.deep_view();
        proof {
            all.lemma_filter_map_take_succ(keep, i as int);
            assert(all[i as int] == text@);
        }
        if bytes.len() >= MIN_COMMENT_LEN {
            let comment = Comment {
                comment: text.to_owned(),
                hash: FileData::get_hash(bytes),
                file_hash: file_hash.to_owned(),
            };
            comments.push(comment);
            proof {
                assert(keep(text@) == Some(comment_record(text@, file_hash@)));
                assert(comments.deep_view() =~= before + seq![comment_record(text@, file_hash@)]);
            }
        } else {
            proof {
                assert(keep(text@) is None);
                assert(before + Seq::<CommentView>::empty() =~= before);
            }
        }
        i += 1;
    }
    proof {
        assert(all.take(i as int) =~= all);
    }
    comments
}

impl ProcessingError {
    /// The path of the file that gave no record.
    pub fn path(&self) -> (path: &str)
        ensures
            path@ == match self@ {
                ProcessingErrorView::ReadError { path } => path,
                ProcessingErrorView::UnsupportedSyntax { path } => path,
            },
    {
        match self {
            ProcessingError::ReadError { path } => path.as_str(),
            ProcessingError::UnsupportedSyntax { path } => path.as_str(),
        }
    }

    /// A short description of the failure.
    pub fn message(&self) -> (message: &'static str)
        ensures
            message@ == match self@ {
                ProcessingErrorView::ReadError { .. } => "Could not read file"@,
                ProcessingErrorView::UnsupportedSyntax { .. } => "Could not get comments"@,
            },
    {
        match self {
            ProcessingError::ReadError { .. } => "Could not read file",
            ProcessingError::UnsupportedSyntax { .. } => "Could not get comments",
        }
    }
}

impl FileData {
    /// The fingerprint of `buf`: its SHA3-512 digest as 128 lower-case
    /// hexadecimal digits.
    pub fn get_hash(buf: &[u8]) -> (hash: String)
        ensures
            hash@ == digest_hex(buf@),
            hash@.len() == HASH_LEN,
    {
        let digest = sha3_512_digest(buf);
        to_hex(digest.as_slice())
    }

    /// The text and the fingerprint of a file with bytes `buf`. The text is
    /// decoded leniently; the fingerprint is taken of the bytes as they are.
    pub fn read_contents(buf: &[u8]) -> (read: (String, String))
        ensures
            read.0@ == utf8_lossy(buf@),
            valid_utf8(buf@) ==> read.0@ == decode_utf8(buf@),
            read.1@ == digest_hex(buf@),
            read.1@.len() == HASH_LEN,
    {
        let contents = decode_lossy(buf);
        let hash = Self::get_hash(buf);
        (contents, hash)
    }

    /// The comments kept from a file with text `file_contents`, whose comment
    /// syntax is that of `extension`. Fails where the extension has no comment
    /// rules; `file_path` is passed on in the error.
    pub fn get_comments(
        file_contents: &str,
        file_path: &str,
        extension: &str,
        file_hash: &str,
    ) -> (found: Result<Vec<Comment>, ProcessingError>)
        ensures
            match file_comments(file_contents@, extension@, file_hash@) {
                Some(comments) => found is Ok && found->Ok_0.deep_view() == comments,
                None => found is Err && found->Err_0@ == (ProcessingErrorView::UnsupportedSyntax {
                    path: file_path@,
                }),
            },
            supported_extension(extension@) ==> found is Ok,
            found matches Ok(comments) ==> comment_hashes_sized(comments.deep_view()),
    {
        match syntax_from_extension(extension) {
            Ok(rules) => {
                let texts = parse_comments(file_contents, rules);
                Ok(retain_comments(texts, file_hash))
            },
            Err(_) => Err(ProcessingError::UnsupportedSyntax { path: file_path.to_owned() }),
        }
    }

    /// Makes the record of one file. `path` is the file's path as shown,
    /// `extension` the extension of its name, and `contents` the bytes that
    /// were read from it, `None` where reading failed.
    ///
    /// A file that could not be read gives `ReadError`; one whose extension has
    /// no comment rules gives `UnsupportedSyntax`. Otherwise the record holds
    /// the path, the fingerprint of the bytes, and the comments kept from the
    /// leniently decoded text.
    pub fn new(path: String, extension: &str, contents: Option<Vec<u8>>) -> (made: Result<
        FileData,
        ProcessingError,
    >)
        ensures
            outcome_view(made) == process(path@, extension@, read_view(contents)),
            contents is Some && supported_extension(extension@) ==> made is Ok,
            contents is None ==> made is Err,
            made matches Ok(record) ==> record@.well_formed() && record@.hashes_sized(),
            made matches Ok(record) ==> contents matches Some(bytes) && record@.hash == digest_hex(
                bytes@,
            ),
    {
        proof {
            if contents is Some {
                lemma_record_of_file(path@, extension@, contents->Some_0@);
            }
        }
        let buf = match contents {
            Some(buf) => buf,
            None => {
                return Err(ProcessingError::ReadError { path });
            },
        };
        let (file_contents, file_hash) = Self::read_contents(buf.as_slice());
        let comments = match Self::get_comments(
            file_contents.as_str(),
            path.as_str(),
            extension,
            file_hash.as_str(),
        ) {
            Ok(comments) => comments,
            Err(error) => {
                return Err(error);
            },
        };
        Ok(FileData { comments, path, hash: file_hash })
    }
}

} // verus!
