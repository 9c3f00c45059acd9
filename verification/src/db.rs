//! What the persistence actor decides: the rows of a finished file, the
//! order of the commands that write it, and what a lookup in the store
//! means.

use crate::embedding::Embedding;
use crate::file_context::{all_filled, FileContext};
use vstd::prelude::*;

verus! {

/// A span row, as it is handed to the store.
#[derive(Debug, Clone, PartialEq, Eq)]
pub struct Span {
    pub start_byte: usize,
    pub end_byte: usize,
    pub sha: Vec<u8>,
    pub embedding: Embedding,
}

/// A span row as a mathematical value.
pub struct Row {
    pub start_byte: usize,
    pub end_byte: usize,
    pub sha: Seq<u8>,
    pub embedding: Seq<u32>,
}

impl View for Span {
    type V = Row;

    open spec fn view(&self) -> Row {
        Row {
            start_byte: self.start_byte,
            end_byte: self.end_byte,
            sha: self.sha@,
            embedding: self.embedding@,
        }
    }
}

/// One step of a write to the store.
#[derive(Debug, Clone, PartialEq, Eq)]
pub enum StoreCommand {
    /// Delete the file row with this path, its span rows and their links.
    DeleteFileAndSpans { path: String },
    /// Insert a file row and link it to its directory.
    CreateFile { path: String, directory_id: String },
    /// Insert a span row and link it to the file row that was inserted last.
    CreateSpan { span: Span },
}

/// A command as a mathematical value.
pub enum Command {
    DeleteFileAndSpans { path: Seq<char> },
    CreateFile { path: Seq<char>, directory_id: Seq<char> },
    CreateSpan { row: Row },
}

impl View for StoreCommand {
    type V = Command;

    open spec fn view(&self) -> Command {
        match self {
            StoreCommand::DeleteFileAndSpans { path } => Command::DeleteFileAndSpans { path: path@ },
            StoreCommand::CreateFile { path, directory_id } => Command::CreateFile {
                path: path@,
                directory_id: directory_id@,
            },
            StoreCommand::CreateSpan { span } => Command::CreateSpan { row: span@ },
        }
    }
}

/// Why nothing was written, or what the store failed to give.
#[derive(Debug, Clone, Copy, PartialEq, Eq, Structural)]
pub enum StoreError {
    /// A span of the file has no embedding yet.
    EmptyEmbedding,
    /// An embedding is not of the length that the store holds.
    DimensionMismatch,
    /// The store gave no directory row.
    DirectoryNotCreated,
    /// The store gave no file row.
    FileNotCreated,
    /// The store gave no span row.
    SpanNotCreated,
}

/// What to do after the store was asked for the directory rows of a path.
#[derive(Debug, Clone, PartialEq, Eq)]
pub enum DirectoryLookup {
    /// The directory is known under this id.
    Existing { id: String },
    /// A directory row is to be inserted.
    Create,
}

/// The rows as mathematical values.
pub open spec fn rows_view(rows: Seq<Span>) -> Seq<Row> {
    Seq::new(rows.len(), |i: int| rows[i]@)
}

/// The commands as mathematical values.
pub open spec fn commands_view(commands: Seq<StoreCommand>) -> Seq<Command> {
    Seq::new(commands.len(), |i: int| commands[i]@)
}

/// The rows of a file: one per span, in the order of the spans, each with
/// the span's range and digest and the embedding of its slot.
pub open spec fn rows_of(file: FileContext) -> Seq<Row> {
    Seq::new(
        file.documents.len() as nat,
        |i: int|
            Row {
                start_byte: file.documents[i].start_byte,
                end_byte: file.documents[i].end_byte,
                sha: file.documents[i].sha@,
                embedding: file.embeddings[i]@,
            },
    )
}

/// Every slot holds a vector of the given length.
pub open spec fn all_of_dimension(slots: Seq<Seq<u32>>, dimension: usize) -> bool {
    forall|i: int| 0 <= i < slots.len() ==> (#[trigger] slots[i]).len() == dimension
}

/// The commands that write a file: the old version goes first, then the
/// file row, then one span row per span.
pub open spec fn write_commands(file: FileContext) -> Seq<Command> {
    seq![
        Command::DeleteFileAndSpans { path: file.details.path@ },
        Command::CreateFile { path: file.details.path@, directory_id: file.details.directory_id@ },
    ] + Seq::new(rows_of(file).len(), |i: int| Command::CreateSpan { row: rows_of(file)[i] })
}

/// No two rows have the same byte range.
pub open spec fn distinct_ranges(rows: Seq<Row>) -> bool {
    forall|i: int, j: int|
        0 <= i < j < rows.len() ==> !((#[trigger] rows[i]).start_byte == (#[trigger] rows[j]).start_byte
            && rows[i].end_byte == rows[j].end_byte)
}

/// The rows of a finished file. A file with an empty slot, or with an
/// embedding that is not of the store's length, gives no rows.
pub fn span_rows(file: &FileContext, dimension: usize) -> (r: Result<Vec<Span>, StoreError>)
    requires
        file.wf(),
    ensures
        match r {
            Ok(rows) => {
                &&& all_filled(file.slots())
                &&& all_of_dimension(file.slots(), dimension)
                &&& rows_view(rows@) == rows_of(*file)
                &&& forall|i: int|
                    0 <= i < rows.len() ==> (#[trigger] rows[i]).embedding.len() == dimension
                        && rows[i].embedding.len() > 0
            },
            Err(e) => e == (if !all_filled(file.slots()) {
                StoreError::EmptyEmbedding
            } else {
                StoreError::DimensionMismatch
            }) && !(all_filled(file.slots()) && all_of_dimension(file.slots(), dimension)),
        },
{
    if !file.complete() {
        return Err(StoreError::EmptyEmbedding);
    }
    let mut rows: Vec<Span> = Vec::new();
    let mut i: usize = 0;
    while i < file.documents.len()
        invariant
            i <= file.documents.len(),
            file.wf(),
            all_filled(file.slots()),
            rows.len() == i,
            forall|j: int| 0 <= j < i ==> (#[trigger] rows[j])@ == rows_of(*file)[j],
            forall|j: int| 0 <= j < i ==> (#[trigger] file.slots()[j]).len() == dimension,
        decreases file.documents.len() - i,
    {
        let document = &file.documents[i];
        let embedding = &file.embeddings[i];
        assert(file.slots()[i as int] == embedding@);
        if embedding.len() != dimension {
            return Err(StoreError::DimensionMismatch);
        }
        let sha = document.sha.clone();
        let vector = embedding.clone();
        assert(sha@ =~= document.sha@);
        assert(vector@ =~= embedding@);
        rows.push(
            Span { start_byte: document.start_byte, end_byte: document.end_byte, sha, embedding: vector },
        );
        i = i + 1;
    }
    assert(rows_view(rows@) =~= rows_of(*file));
    assert forall|i: int| 0 <= i < rows.len() implies (#[trigger] rows[i]).embedding.len()
        == dimension && rows[i].embedding.len() > 0 by {
        assert(rows[i]@ == rows_of(*file)[i]);
        assert(file.slots()[i].len() > 0);
    }
    Ok(rows)
}

/// The commands that write a finished file over its old version.
pub fn create_file_and_spans(file: &FileContext, dimension: usize) -> (r: Result<
    Vec<StoreCommand>,
    StoreError,
>)
    requires
        file.wf(),
    ensures
        match r {
            Ok(commands) => {
                &&& all_filled(file.slots())
                &&& all_of_dimension(file.slots(), dimension)
                &&& commands_view(commands@) == write_commands(*file)
            },
            Err(e) => e == (if !all_filled(file.slots()) {
                StoreError::EmptyEmbedding
            } else {
                StoreError::DimensionMismatch
            }) && !(all_filled(file.slots()) && all_of_dimension(file.slots(), dimension)),
        },
{
    let rows = match span_rows(file, dimension) {
        Ok(rows) => rows,
        Err(e) => {
            return Err(e);
        },
    };
    let ghost row_views = rows_view(rows@);
    let mut commands: Vec<StoreCommand> = Vec::new();
    commands.push(StoreCommand::DeleteFileAndSpans { path: file.details.path.clone() });
    commands.push(
        StoreCommand::CreateFile {
            path: file.details.path.clone(),
            directory_id: file.details.directory_id.clone(),
        },
    );
    let mut rows = rows;
    let ghost target = write_commands(*file);
    assert(commands_view(commands@) =~= target.take(2));
    let n = rows.len();
    let mut i: usize = 0;
    while i < n
        invariant
            i <= n,
            n == rows.len(),
            n == row_views.len(),
            row_views == rows_of(*file),
            target == write_commands(*file),
            forall|j: int| i <= j < n ==> (#[trigger] rows[j])@ == row_views[j],
            commands.len() == 2 + i,
            commands_view(commands@) == target.take(2 + i),
        decreases n - i,
    {
        let ghost earlier = commands@;
        let mut span = Span {
            start_byte: 0,
            end_byte: 0,
            sha: Vec::new(),
            embedding: Vec::new(),
        };
        std::mem::swap(&mut rows[i], &mut span);
        let command = StoreCommand::CreateSpan { span };
        assert(command@ == target[2 + i]);
        commands.push(command);
        assert(commands_view(commands@) =~= commands_view(earlier).push(command@));
        assert(target.take(2 + i).push(target[2 + i]) =~= target.take(2 + i + 1));
        i = i + 1;
    }
    assert(target.take(2 + n) =~= target);
    Ok(commands)
}

/// The commands that remove the files that have gone from the directory.
pub fn delete_stale_files(stale_paths: &Vec<String>) -> (commands: Vec<StoreCommand>)
    ensures
        commands_view(commands@) == Seq::new(
            stale_paths.len() as nat,
            |i: int| Command::DeleteFileAndSpans { path: stale_paths[i]@ },
        ),
{
    let mut commands: Vec<StoreCommand> = Vec::new();
    let mut i: usize = 0;
    while i < stale_paths.len()
        invariant
            i <= stale_paths.len(),
            commands.len() == i,
            forall|j: int|
                0 <= j < i ==> (#[trigger] commands[j])@ == (Command::DeleteFileAndSpans {
                    path: stale_paths[j]@,
                }),
        decreases stale_paths.len() - i,
    {
        commands.push(StoreCommand::DeleteFileAndSpans { path: stale_paths[i].clone() });
        i = i + 1;
    }
    assert(commands_view(commands@) =~= Seq::new(
        stale_paths.len() as nat,
        |i: int| Command::DeleteFileAndSpans { path: stale_paths[i]@ },
    ));
    commands
}

/// What the directory rows that the store holds for a path mean: exactly
/// one row is the directory; anything else asks for a new row.
pub fn get_or_create_directory(existing_ids: &Vec<String>) -> (r: DirectoryLookup)
    ensures
        match r {
            DirectoryLookup::Existing { id } => existing_ids.len() == 1 && id@ == existing_ids[0]@,
            DirectoryLookup::Create => existing_ids.len() != 1,
        },
{
    if existing_ids.len() == 1 {
        DirectoryLookup::Existing { id: existing_ids[0].clone() }
    } else {
        DirectoryLookup::Create
    }
}

/// The id of the row that an insert gave: that of the first row, or the
/// given error where the store gave none.
pub fn created_id(rows: &Vec<String>, missing: StoreError) -> (r: Result<String, StoreError>)
    ensures
        match r {
            Ok(id) => rows.len() > 0 && id@ == rows[0]@,
            Err(e) => rows.len() == 0 && e == missing,
        },
{
    if rows.len() > 0 {
        Ok(rows[0].clone())
    } else {
        Err(missing)
    }
}

/// The rows of one write do not share a byte range, where the spans of the
/// file do not.
pub proof fn lemma_rows_keep_ranges_apart(file: FileContext)
    requires
        file.wf(),
        forall|i: int, j: int|
            0 <= i < j < file.documents.len() ==> !((#[trigger] file.documents[i]).start_byte == (
            #[trigger] file.documents[j]).start_byte && file.documents[i].end_byte
                == file.documents[j].end_byte),
    ensures
        distinct_ranges(rows_of(file)),
{
    let rows = rows_of(file);
    assert forall|i: int, j: int| 0 <= i < j < rows.len() implies !((#[trigger] rows[i]).start_byte
        == (#[trigger] rows[j]).start_byte && rows[i].end_byte == rows[j].end_byte) by {
        assert(file.documents[i].start_byte == rows[i].start_byte);
        assert(file.documents[j].start_byte == rows[j].start_byte);
    }
}

} // verus!
