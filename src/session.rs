use vstd::prelude::*;

verus! {

/// Why the filesystem refused a read, a listing or a write.
#[derive(Clone, Copy, Debug, PartialEq, Eq, Structural)]
pub enum IoErrorKind {
    NotFound,
    PermissionDenied,
    Other,
}

/// Why a session operation did not go through.
#[derive(Clone, Copy, Debug, PartialEq, Eq, Structural)]
pub enum EditorError {
    /// The filesystem refused the operation.
    Io(IoErrorKind),
    /// A save was asked for while no file is open.
    NoOpenFile,
}

/// The session as plain values: the open file's path and its buffer, or
/// nothing when no file is open.
pub type SessionView = Option<(Seq<char>, Seq<char>)>;

/// The outcome of reading a file, as plain values.
pub open spec fn read_view(read: Result<String, IoErrorKind>) -> Result<Seq<char>, IoErrorKind> {
    match read {
        Ok(c) => Ok(c@),
        Err(e) => Err(e),
    }
}

/// The session after opening `path`, whose read gave `read`: a successful
/// read replaces path and buffer whatever was there; a failed one changes
/// nothing.
pub open spec fn opened(s: SessionView, path: Seq<char>, read: Result<Seq<char>, IoErrorKind>) -> SessionView {
    match read {
        Ok(c) => Some((path, c)),
        Err(_) => s,
    }
}

/// The session after the buffer was replaced by `text`; with no file open
/// there is no buffer to replace.
pub open spec fn edited(s: SessionView, text: Seq<char>) -> SessionView {
    match s {
        Some((p, _)) => Some((p, text)),
        None => None,
    }
}

/// What a save writes: the whole buffer to the open path, or nothing at all
/// when no file is open.
pub open spec fn save_target(s: SessionView) -> Result<(Seq<char>, Seq<char>), EditorError> {
    match s {
        Some(f) => Ok(f),
        None => Err(EditorError::NoOpenFile),
    }
}

/// A write to perform: `contents` replaces whatever `path` held.
pub struct WriteRequest {
    pub path: String,
    pub contents: String,
}

/// The single open file and its text buffer.
pub struct EditorSession {
    file: Option<(String, String)>,
}

impl View for EditorSession {
    type V = SessionView;

    closed spec fn view(&self) -> SessionView {
        match self.file {
            Some((p, b)) => Some((p@, b@)),
            None => None,
        }
    }
}

impl EditorSession {
    /// A session with no file open.
    pub fn new() -> (r: EditorSession)
        ensures
            r@ is None,
    {
        EditorSession { file: None }
    }

    pub fn is_open(&self) -> (r: bool)
        ensures
            r == self@ is Some,
    {
        self.file.is_some()
    }

    /// The path of the open file.
    pub fn open_path(&self) -> (r: Option<&String>)
        ensures
            r is None <==> self@ is None,
            r matches Some(p) ==> (self@ matches Some(f) && p@ == f.0),
    {
        match &self.file {
            Some((p, _)) => Some(p),
            None => None,
        }
    }

    /// The buffer of the open file.
    pub fn contents(&self) -> (r: Option<&String>)
        ensures
            r is None <==> self@ is None,
            r matches Some(b) ==> (self@ matches Some(f) && b@ == f.1),
    {
        match &self.file {
            Some((_, b)) => Some(b),
            None => None,
        }
    }

    /// Takes in the outcome of reading `path`. On success the file becomes the
    /// open one, and unsaved edits to the previous file are dropped; on
    /// failure the session stays as it was and the error is handed back.
    /// Text is held as UTF-8 and never transformed: a file whose bytes are
    /// not valid UTF-8 is a failed read, handed in as `Err(Other)`.
    pub fn open_file(&mut self, path: String, read: Result<String, IoErrorKind>) -> (r: Result<(), EditorError>)
        ensures
            final(self)@ == opened(old(self)@, path@, read_view(read)),
            r == (match read {
                Ok(_) => Ok::<(), EditorError>(()),
                Err(e) => Err(EditorError::Io(e)),
            }),
    {
        match read {
            Ok(contents) => {
                self.file = Some((path, contents));
                Ok(())
            },
            Err(e) => Err(EditorError::Io(e)),
        }
    }

    /// Replaces the buffer of the open file by `text`.
    pub fn edit(&mut self, text: String)
        ensures
            final(self)@ == edited(old(self)@, text@),
    {
        match &mut self.file {
            Some(f) => {
                f.1 = text;
            },
            None => {},
        }
    }

    /// The write that saves the open file: its whole buffer, verbatim, to its
    /// path. Saving changes nothing in the session, so a failed write can be
    /// retried.
    pub fn save_file(&self) -> (r: Result<WriteRequest, EditorError>)
        ensures
            match (r, save_target(self@)) {
                (Ok(w), Ok(t)) => w.path@ == t.0 && w.contents@ == t.1,
                (Err(e), Err(f)) => e == f,
                _ => false,
            },
    {
        match &self.file {
            Some((p, b)) => Ok(WriteRequest { path: p.clone(), contents: b.clone() }),
            None => Err(EditorError::NoOpenFile),
        }
    }
}

/// Opening a file and saving it straight away writes back exactly what was
/// read, to the same path.
pub proof fn lemma_open_then_save(s: SessionView, path: Seq<char>, text: Seq<char>)
    ensures
        save_target(opened(s, path, Ok(text))) == Ok::<(Seq<char>, Seq<char>), EditorError>(
            (path, text),
        ),
{
}

/// After two edits a save writes the second text alone, to the open path.
pub proof fn lemma_last_edit_wins(s: SessionView, x: Seq<char>, y: Seq<char>)
    ensures
        save_target(edited(edited(s, x), y)) == (match s {
            Some((p, _)) => Ok::<(Seq<char>, Seq<char>), EditorError>((p, y)),
            None => Err(EditorError::NoOpenFile),
        }),
{
}

/// Until a read succeeds, no file is open: edits and failed opens leave the
/// empty session empty, and a save on it is refused with `NoOpenFile`, so
/// nothing is written.
pub proof fn lemma_nothing_open_nothing_saved(path: Seq<char>, e: IoErrorKind, text: Seq<char>)
    ensures
        edited(None, text) is None,
        opened(None, path, Err(e)) is None,
        save_target(None) == Err::<(Seq<char>, Seq<char>), EditorError>(EditorError::NoOpenFile),
{
}

/// Opening `b` while `a` is open with unsaved edits drops those edits: the
/// session then holds `b` as read, and opening writes nothing.
pub proof fn lemma_open_discards_edits(
    s: SessionView,
    a: Seq<char>,
    a_text: Seq<char>,
    edit: Seq<char>,
    b: Seq<char>,
    b_text: Seq<char>,
)
    ensures
        opened(edited(opened(s, a, Ok(a_text)), edit), b, Ok(b_text)) == Some((b, b_text)),
{
}

/// A read that fails leaves the session, path and buffer, as it was.
pub proof fn lemma_failed_open_keeps_session(s: SessionView, path: Seq<char>, e: IoErrorKind)
    ensures
        opened(s, path, Err(e)) == s,
{
}

} // verus!
