//! The store: the statements that set up the database and write the records
//! to it, and the order in which a session performs them.
//!
//! This module performs nothing. A [`Session`] names one action at a time; the
//! caller performs it against the database and reports whether it succeeded.

use crate::file::{Comment, CommentView, FileData, FileDataView};
use crate::scan::lemma_flat_map_whatever_the_order;
use crate::session::{first_step, Kind, Session, SessionView};
use vstd::prelude::*;

verus! {

/// SQL that creates the table of comments.
pub const CREATE_COMMENTS: &'static str =
    "CREATE TABLE comments (id TEXT, comment TEXT, filehash TEXT)";

/// SQL that creates the table of files.
pub const CREATE_FILES: &'static str = "CREATE TABLE files (id TEXT, filename TEXT)";

/// SQL that inserts one comment; its parameters are named after the fields of
/// [`Comment`].
pub const INSERT_COMMENT: &'static str =
    "INSERT INTO comments (id, comment, filehash) VALUES (:hash, :comment, :file_hash)";

/// SQL that inserts one file; its parameters are the file's fingerprint and
/// its path, by position.
pub const INSERT_FILE: &'static str = "INSERT INTO files (id, filename) VALUES (?1, ?2)";

/// One statement to run against the database.
#[derive(Debug, Clone, PartialEq, Eq)]
pub enum Statement {
    /// Creates the table `comments(id, comment, filehash)`.
    CreateComments,
    /// Creates the table `files(id, filename)`.
    CreateFiles,
    /// Inserts the row of one comment.
    InsertComment(Comment),
    /// Inserts the row of one file.
    InsertFile { hash: String, path: String },
}

/// What a [`Statement`] does, with the rows it inserts written by column.
pub enum StatementView {
    CreateComments,
    CreateFiles,
    InsertComment { id: Seq<char>, comment: Seq<char>, filehash: Seq<char> },
    InsertFile { id: Seq<char>, filename: Seq<char> },
}

impl StatementView {
    /// The SQL text of the statement.
    pub open spec fn sql(self) -> Seq<char> {
        match self {
            StatementView::CreateComments => CREATE_COMMENTS@,
            StatementView::CreateFiles => CREATE_FILES@,
            StatementView::InsertComment { .. } => INSERT_COMMENT@,
            StatementView::InsertFile { .. } => INSERT_FILE@,
        }
    }
}

impl StatementView {
    /// The values bound to the statement, each with the name of its
    /// parameter in the SQL text: a comment's row takes the comment's
    /// fingerprint, its text and its file's fingerprint; a file's row takes the
    /// file's fingerprint and its path.
    pub open spec fn parameters(self) -> Seq<(Seq<char>, Seq<char>)> {
        match self {
            StatementView::CreateComments => Seq::empty(),
            StatementView::CreateFiles => Seq::empty(),
            StatementView::InsertComment { id, comment, filehash } => seq![
                (":hash"@, id),
                (":comment"@, comment),
                (":file_hash"@, filehash),
            ],
            StatementView::InsertFile { id, filename } => seq![("?1"@, id), ("?2"@, filename)],
        }
    }
}

impl View for Statement {
    type V = StatementView;

    open spec fn view(&self) -> StatementView {
        match self {
            Statement::CreateComments => StatementView::CreateComments,
            Statement::CreateFiles => StatementView::CreateFiles,
            Statement::InsertComment(comment) => comment_row(comment@),
            Statement::InsertFile { hash, path } => StatementView::InsertFile {
                id: hash@,
                filename: path@,
            },
        }
    }
}

impl DeepView for Statement {
    type V = StatementView;

    open spec fn deep_view(&self) -> StatementView {
        self@
    }
}

/// The insert of one comment: the row's identity is the comment's fingerprint.
pub open spec fn comment_row(comment: CommentView) -> StatementView {
    StatementView::InsertComment {
        id: comment.hash,
        comment: comment.comment,
        filehash: comment.file_hash,
    }
}

/// The insert of one file: the row's identity is the file's fingerprint.
pub open spec fn file_row(file: FileDataView) -> StatementView {
    StatementView::InsertFile { id: file.hash, filename: file.path }
}

/// The statements that create the schema: the comments table, then the files
/// table.
pub open spec fn schema() -> Seq<StatementView> {
    seq![StatementView::CreateComments, StatementView::CreateFiles]
}

/// The statements that write one file: its comments in order, then the file.
pub open spec fn file_statements(file: FileDataView) -> Seq<StatementView> {
    file.comments.map_values(|comment: CommentView| comment_row(comment)).push(file_row(file))
}

/// The statements that write `files`: those of each file, file after file.
pub open spec fn insert_plan(files: Seq<FileDataView>) -> Seq<StatementView> {
    files.flat_map(|file: FileDataView| file_statements(file))
}

impl Statement {
    /// The SQL text of the statement.
    pub fn sql(&self) -> (text: &'static str)
        ensures
            text@ == self@.sql(),
    {
        match self {
            Statement::CreateComments => CREATE_COMMENTS,
            Statement::CreateFiles => CREATE_FILES,
            Statement::InsertComment(_) => INSERT_COMMENT,
            Statement::InsertFile { .. } => INSERT_FILE,
        }
    }

    /// The values to bind, each with the name of its parameter in the SQL
    /// text, in the order the text names them.
    pub fn parameters(&self) -> (bound: Vec<(&'static str, &str)>)
        ensures
            bound.deep_view() == self@.parameters(),
    {
        let mut bound: Vec<(&'static str, &str)> = Vec::new();
        match self {
            Statement::CreateComments => {},
            Statement::CreateFiles => {},
            Statement::InsertComment(comment) => {
                bound.push((":hash", comment.hash.as_str()));
                bound.push((":comment", comment.comment.as_str()));
                bound.push((":file_hash", comment.file_hash.as_str()));
            },
            Statement::InsertFile { hash, path } => {
                bound.push(("?1", hash.as_str()));
                bound.push(("?2", path.as_str()));
            },
        }
        proof {
            assert(bound.deep_view() =~= self@.parameters());
        }
        bound
    }
}

/// The statements that create the schema.
pub fn create_table() -> (statements: Vec<Statement>)
    ensures
        statements.deep_view() == schema(),
{
    let mut statements: Vec<Statement> = Vec::new();
    statements.push(Statement::CreateComments);
    statements.push(Statement::CreateFiles);
    proof {
        assert(statements.deep_view() =~= schema());
    }
    statements
}

/// The statements that write `filedata`: one insert for each of its comments,
/// in order, then the insert of the file itself.
pub fn add_filedata_sql(filedata: &FileData) -> (statements: Vec<Statement>)
    ensures
        statements.deep_view() == file_statements(filedata@),
{
    let ghost rows = filedata@.comments.map_values(|comment: CommentView| comment_row(comment));
    let mut statements: Vec<Statement> = Vec::new();
    let mut i: usize = 0;
    while i < filedata.comments.len()
        invariant
            i <= filedata.comments.len(),
            rows == filedata@.comments.map_values(|comment: CommentView| comment_row(comment)),
            statements.deep_view() == rows.take(i as int),
        decreases filedata.comments.len() - i,
    {
        let comment = &filedata.comments[i];
        let ghost before = statements.deep_view();
        let copy = Comment {
            comment: comment.comment.clone(),
            hash: comment.hash.clone(),
            file_hash: comment.file_hash.clone(),
        };
        statements.push(Statement::InsertComment(copy));
        proof {
            assert(copy@ == comment@);
            assert(filedata@.comments[i as int] == comment@);
            assert(rows[i as int] == comment_row(comment@));
            assert(statements.deep_view() =~= before.push(comment_row(comment@)));
            assert(rows.take(i + 1) =~= rows.take(i as int).push(rows[i as int]));
        }
        i += 1;
    }
    statements.push(
        Statement::InsertFile { hash: filedata.hash.clone(), path: filedata.path.clone() },
    );
    proof {
        assert(rows.take(i as int) =~= rows);
        assert(statements.deep_view() =~= file_statements(filedata@));
    }
    statements
}

/// The statements that write `datas`: those of each file, file after file.
pub fn insert_statements(datas: &Vec<FileData>) -> (statements: Vec<Statement>)
    ensures
        statements.deep_view() == insert_plan(datas.deep_view()),
{
    let ghost files = datas.deep_view();
    let ghost of_file = |file: FileDataView| file_statements(file);
    let mut statements: Vec<Statement> = Vec::new();
    let mut i: usize = 0;
    proof {
        assert(files.take(0).flat_map(of_file) =~= Seq::<StatementView>::empty());
        assert(statements.deep_view() =~= files.take(0).flat_map(of_file));
    }
    while i < datas.len()
        invariant
            i <= datas.len(),
            files == datas.deep_view(),
            of_file == |file: FileDataView| file_statements(file),
            statements.deep_view() == files.take(i as int).flat_map(of_file),
        decreases datas.len() - i,
    {
        let ghost before = statements.deep_view();
        let mut more = add_filedata_sql(&datas[i]);
        let ghost added = more.deep_view();
        statements.append(&mut more);
        proof {
            files.lemma_flat_map_take_append(of_file, i as int);
            assert(statements.deep_view() =~= before + added);
        }
        i += 1;
    }
    proof {
        assert(files.take(i as int) =~= files);
    }
    statements
}

/// The rows of the files, one for each, in order.
pub open spec fn file_rows(files: Seq<FileDataView>) -> Seq<StatementView> {
    files.map_values(|file: FileDataView| file_row(file))
}

/// The rows of the comments of the files, one for each comment, file after
/// file.
pub open spec fn comment_rows(files: Seq<FileDataView>) -> Seq<StatementView> {
    files.flat_map(
        |file: FileDataView| file.comments.map_values(|comment: CommentView| comment_row(comment)),
    )
}

/// A filter leaves a sequence as it is when every item passes.
proof fn lemma_filter_keeps_all<A>(items: Seq<A>, pred: spec_fn(A) -> bool)
    requires
        forall|i: int| 0 <= i < items.len() ==> pred(#[trigger] items[i]),
    ensures
        items.filter(pred) == items,
    decreases items.len(),
{
    reveal(Seq::filter);
    if items.len() > 0 {
        lemma_filter_keeps_all(items.drop_last(), pred);
        assert(items.drop_last().push(items.last()) =~= items);
    }
}

/// A filter leaves nothing of a sequence when no item passes.
proof fn lemma_filter_drops_all<A>(items: Seq<A>, pred: spec_fn(A) -> bool)
    requires
        forall|i: int| 0 <= i < items.len() ==> !pred(#[trigger] items[i]),
    ensures
        items.filter(pred) == Seq::<A>::empty(),
    decreases items.len(),
{
    reveal(Seq::filter);
    if items.len() > 0 {
        lemma_filter_drops_all(items.drop_last(), pred);
    } else {
        assert(items =~= Seq::<A>::empty());
    }
}

/// The statements of one file hold one row for the file and one for each of
/// its comments.
proof fn lemma_rows_of_file(file: FileDataView)
    ensures
        file_statements(file).filter(|statement: StatementView| statement is InsertFile) == seq![
            file_row(file),
        ],
        file_statements(file).filter(|statement: StatementView| statement is InsertComment)
            == file.comments.map_values(|comment: CommentView| comment_row(comment)),
{
    let of_file = |statement: StatementView| statement is InsertFile;
    let of_comment = |statement: StatementView| statement is InsertComment;
    let rows = file.comments.map_values(|comment: CommentView| comment_row(comment));
    rows.lemma_filter_push(file_row(file), of_file);
    rows.lemma_filter_push(file_row(file), of_comment);
    lemma_filter_drops_all(rows, of_file);
    lemma_filter_keeps_all(rows, of_comment);
    assert(Seq::<StatementView>::empty().push(file_row(file)) =~= seq![file_row(file)]);
}

/// What is written is one row for each file and one row for each comment of
/// each file, in the order of the files, and nothing else.
pub proof fn lemma_plan_rows(files: Seq<FileDataView>)
    ensures
        insert_plan(files).filter(|statement: StatementView| statement is InsertFile) == file_rows(
            files,
        ),
        insert_plan(files).filter(|statement: StatementView| statement is InsertComment)
            == comment_rows(files),
        insert_plan(files).filter(
            |statement: StatementView|
                !(statement is InsertFile) && !(statement is InsertComment),
        ) == Seq::<StatementView>::empty(),
    decreases files.len(),
{
    let of_file = |statement: StatementView| statement is InsertFile;
    let of_comment = |statement: StatementView| statement is InsertComment;
    let of_other = |statement: StatementView|
        !(statement is InsertFile) && !(statement is InsertComment);
    let statements = |file: FileDataView| file_statements(file);
    let rows = |file: FileDataView|
        file.comments.map_values(|comment: CommentView| comment_row(comment));
    if files.len() == 0 {
        assert(insert_plan(files) =~= Seq::<StatementView>::empty());
        assert(comment_rows(files) =~= Seq::<StatementView>::empty());
        assert(file_rows(files) =~= Seq::<StatementView>::empty());
        lemma_filter_drops_all(insert_plan(files), of_file);
        lemma_filter_drops_all(insert_plan(files), of_comment);
        lemma_filter_drops_all(insert_plan(files), of_other);
    } else {
        let rest = files.drop_last();
        let last = files.last();
        lemma_plan_rows(rest);
        assert(files =~= rest.push(last));
        rest.lemma_flat_map_push(statements, last);
        rest.lemma_flat_map_push(rows, last);
        Seq::filter_distributes_over_add(insert_plan(rest), file_statements(last), of_file);
        Seq::filter_distributes_over_add(insert_plan(rest), file_statements(last), of_comment);
        Seq::filter_distributes_over_add(insert_plan(rest), file_statements(last), of_other);
        lemma_rows_of_file(last);
        lemma_filter_drops_all(file_statements(last), of_other);
        assert(file_rows(files) =~= file_rows(rest) + seq![file_row(last)]);
    }
}

/// What is written does not depend on the order in which the workers
/// report: records that differ in order alone give statements that differ in
/// order alone.
pub proof fn lemma_plan_whatever_the_order(one: Seq<FileDataView>, other: Seq<FileDataView>)
    requires
        one.to_multiset() == other.to_multiset(),
    ensures
        insert_plan(one).to_multiset() == insert_plan(other).to_multiset(),
{
    lemma_flat_map_whatever_the_order(one, other, |file: FileDataView| file_statements(file));
}

/// The session that sets the database up: what an earlier run left is
/// removed, then the schema is created in a database opened afresh. Where an
/// earlier database is there and cannot be removed, the session fails before
/// it opens anything. The tables are created in one transaction, so that no
/// part of the schema is left where one of them cannot be created.
pub fn setup_database() -> (session: Session)
    ensures
        session@ == (SessionView {
            kind: Kind::Setup,
            plan: schema(),
            step: first_step(Kind::Setup),
        }),
{
    Session::setup(create_table())
}

/// The session that writes `datas` to the database in one transaction: for
/// each file its comments, then the file. Either all of it is committed or
/// none.
pub fn write_to_db(datas: Vec<FileData>) -> (session: Session)
    ensures
        session@ == (SessionView {
            kind: Kind::Persist,
            plan: insert_plan(datas.deep_view()),
            step: first_step(Kind::Persist),
        }),
{
    Session::persist(insert_statements(&datas))
}

} // verus!
