//! The data of an edit (fragments, comments, transformations) and the working tree
//! that edits are applied to.

use crate::error::ApplyError;
use crate::text::{
    decimal_digits, decimal_string, join_lines, joined, lines_of, rename_tokens, renamed,
    split_lines, texts,
};
use vstd::prelude::*;
use vstd::string::StringExecFns;

verus! {

/// A half-open span `[start, end)` of zero-based line numbers.
pub type LineRange = (usize, usize);

/// A span of lines in a named file.
#[derive(Debug, PartialEq, Eq)]
pub struct Fragment {
    pub filepath: String,
    pub line_range: LineRange,
}

/// What a [`Fragment`] stands for.
pub struct FragmentView {
    pub filepath: Seq<char>,
    pub line_range: LineRange,
}

impl View for Fragment {
    type V = FragmentView;

    open spec fn view(&self) -> FragmentView {
        FragmentView { filepath: self.filepath@, line_range: self.line_range }
    }
}

impl Clone for Fragment {
    fn clone(&self) -> (copy: Self)
        ensures
            copy == *self,
    {
        Fragment { filepath: self.filepath.clone(), line_range: self.line_range }
    }
}

/// The views of a sequence of fragments, in order.
pub open spec fn fragment_views(fragments: Seq<Fragment>) -> Seq<FragmentView> {
    Seq::new(fragments.len(), |i: int| fragments[i]@)
}

/// A unit of requested work: free text, anchored to zero or more fragments.
#[derive(Debug, PartialEq, Eq)]
pub struct Comment {
    pub message: String,
    pub fragments: Vec<Fragment>,
}

/// What a [`Comment`] stands for.
pub struct CommentView {
    pub message: Seq<char>,
    pub fragments: Seq<FragmentView>,
}

impl View for Comment {
    type V = CommentView;

    open spec fn view(&self) -> CommentView {
        CommentView { message: self.message@, fragments: fragment_views(self.fragments@) }
    }
}

impl Clone for Comment {
    fn clone(&self) -> (copy: Self)
        ensures
            copy@ == self@,
    {
        let mut fragments: Vec<Fragment> = Vec::new();
        let mut i: usize = 0;
        while i < self.fragments.len()
            invariant
                i <= self.fragments.len(),
                fragments@ == self.fragments@.take(i as int),
            decreases self.fragments.len() - i,
        {
            fragments.push(self.fragments[i].clone());
            i += 1;
        }
        assert(fragments@ == self.fragments@);
        Comment { message: self.message.clone(), fragments }
    }
}

/// One structured edit.
#[derive(Debug, PartialEq, Eq)]
pub enum Transformation {
    /// Rewrite the identifier `old` to `new` in every file of the working tree.
    RenameSymbol { old: String, new: String },
    /// Create an empty file.
    CreateFile { path: String },
    /// Remove a file.
    DeleteFile { path: String },
    /// Give a file another path.
    MoveFile { old: String, new: String },
    /// Replace the lines of a fragment.
    UpdateFragment { fragment: Fragment, updated_lines: Vec<String> },
    /// Insert lines before a line of the file in work, removing none.
    InsertFragment { line_no: usize, content: Vec<String> },
}

/// What a [`Transformation`] stands for.
pub enum TransformationView {
    RenameSymbol { old: Seq<char>, new: Seq<char> },
    CreateFile { path: Seq<char> },
    DeleteFile { path: Seq<char> },
    MoveFile { old: Seq<char>, new: Seq<char> },
    UpdateFragment { fragment: FragmentView, updated_lines: Seq<Seq<char>> },
    InsertFragment { line_no: usize, content: Seq<Seq<char>> },
}

impl View for Transformation {
    type V = TransformationView;

    open spec fn view(&self) -> TransformationView {
        match *self {
            Transformation::RenameSymbol { old, new } => TransformationView::RenameSymbol {
                old: old@,
                new: new@,
            },
            Transformation::CreateFile { path } => TransformationView::CreateFile { path: path@ },
            Transformation::DeleteFile { path } => TransformationView::DeleteFile { path: path@ },
            Transformation::MoveFile { old, new } => TransformationView::MoveFile {
                old: old@,
                new: new@,
            },
            Transformation::UpdateFragment {
                fragment,
                updated_lines,
            } => TransformationView::UpdateFragment {
                fragment: fragment@,
                updated_lines: texts(updated_lines@),
            },
            Transformation::InsertFragment { line_no, content } => TransformationView::InsertFragment {
                line_no,
                content: texts(content@),
            },
        }
    }
}

impl Clone for Transformation {
    fn clone(&self) -> (copy: Self)
        ensures
            copy@ == self@,
    {
        match self {
            Transformation::RenameSymbol { old, new } => Transformation::RenameSymbol {
                old: old.clone(),
                new: new.clone(),
            },
            Transformation::CreateFile { path } => Transformation::CreateFile { path: path.clone() },
            Transformation::DeleteFile { path } => Transformation::DeleteFile { path: path.clone() },
            Transformation::MoveFile { old, new } => Transformation::MoveFile {
                old: old.clone(),
                new: new.clone(),
            },
            Transformation::UpdateFragment {
                fragment,
                updated_lines,
            } => Transformation::UpdateFragment {
                fragment: fragment.clone(),
                updated_lines: copy_lines(updated_lines),
            },
            Transformation::InsertFragment { line_no, content } => Transformation::InsertFragment {
                line_no: *line_no,
                content: copy_lines(content),
            },
        }
    }
}

/// The views of a sequence of transformations, in order.
pub open spec fn transformation_views(ts: Seq<Transformation>) -> Seq<TransformationView> {
    Seq::new(ts.len(), |i: int| ts[i]@)
}

/// Copies a sequence of lines.
pub fn copy_lines(lines: &Vec<String>) -> (copy: Vec<String>)
    ensures
        copy@ == lines@,
{
    let mut copy: Vec<String> = Vec::new();
    let mut i: usize = 0;
    while i < lines.len()
        invariant
            i <= lines.len(),
            copy@ == lines@.take(i as int),
        decreases lines.len() - i,
    {
        copy.push(lines[i].clone());
        i += 1;
    }
    assert(lines@.take(lines.len() as int) == lines@);
    copy
}

/// The outcome of a splice as a result over views.
pub open spec fn lines_result(r: Result<Vec<String>, ApplyError>) -> Result<
    Seq<Seq<char>>,
    ApplyError,
> {
    match r {
        Ok(lines) => Ok(texts(lines@)),
        Err(e) => Err(e),
    }
}

/// Whether `path` is one of `paths`.
pub open spec fn listed(paths: Seq<String>, path: Seq<char>) -> bool {
    exists|i: int| 0 <= i < paths.len() && (#[trigger] paths[i])@ == path
}

/// Whether no path stands twice in `paths`.
pub open spec fn each_once(paths: Seq<String>) -> bool {
    forall|i: int, j: int|
        0 <= i < j < paths.len() ==> (#[trigger] paths[i])@ != (#[trigger] paths[j])@
}

/// Whether two sequences of lines read the same.
pub fn same_lines(a: &Vec<String>, b: &Vec<String>) -> (same: bool)
    ensures
        same == (texts(a@) == texts(b@)),
{
    if a.len() != b.len() {
        assert(texts(a@).len() != texts(b@).len());
        return false;
    }
    let mut i: usize = 0;
    while i < a.len()
        invariant
            i <= a.len(),
            a.len() == b.len(),
            forall|k: int| 0 <= k < i ==> a@[k]@ == b@[k]@,
        decreases a.len() - i,
    {
        if a[i] != b[i] {
            assert(texts(a@)[i as int] != texts(b@)[i as int]);
            return false;
        }
        i += 1;
    }
    assert(texts(a@) =~= texts(b@));
    true
}

/// A text result over views.
pub open spec fn text_result(r: Result<String, ApplyError>) -> Result<Seq<char>, ApplyError> {
    match r {
        Ok(text) => Ok(text@),
        Err(e) => Err(e),
    }
}

/// Whether `[start, end)` is a span of a file of `len` lines.
pub open spec fn in_bounds(range: LineRange, len: nat) -> bool {
    range.0 <= range.1 <= len
}

/// `lines` with the span `range` replaced by `new`.
pub open spec fn spliced(lines: Seq<Seq<char>>, range: LineRange, new: Seq<Seq<char>>) -> Seq<
    Seq<char>,
> {
    lines.take(range.0 as int) + new + lines.skip(range.1 as int)
}

/// What replacing the span `range` of `lines` by `new` gives: the new lines, or the
/// bounds error where `range` is no span of `lines`.
pub open spec fn splice_outcome(
    lines: Seq<Seq<char>>,
    range: LineRange,
    new: Seq<Seq<char>>,
) -> Result<Seq<Seq<char>>, ApplyError> {
    if in_bounds(range, lines.len()) {
        Ok(spliced(lines, range, new))
    } else {
        Err(ApplyError::OutOfBounds { requested: range, actual_len: lines.len() as usize })
    }
}

/// Replaces the span `range` of `lines` by `new`. Lines outside the span are kept; a
/// span that is out of bounds replaces nothing.
pub fn splice_lines(lines: &Vec<String>, range: LineRange, new: &Vec<String>) -> (r: Result<
    Vec<String>,
    ApplyError,
>)
    ensures
        lines_result(r) == splice_outcome(texts(lines@), range, texts(new@)),
{
    let (start, end) = range;
    if !(start <= end && end <= lines.len()) {
        return Err(ApplyError::OutOfBounds { requested: range, actual_len: lines.len() });
    }
    let mut out: Vec<String> = Vec::new();
    let mut i: usize = 0;
    while i < start
        invariant
            i <= start <= end <= lines.len(),
            out@ == lines@.take(i as int),
        decreases start - i,
    {
        out.push(lines[i].clone());
        i += 1;
    }
    let mut j: usize = 0;
    while j < new.len()
        invariant
            j <= new.len(),
            start <= end <= lines.len(),
            out@ == lines@.take(start as int) + new@.take(j as int),
        decreases new.len() - j,
    {
        out.push(new[j].clone());
        j += 1;
    }
    assert(new@.take(new.len() as int) == new@);
    let mut k: usize = end;
    while k < lines.len()
        invariant
            start <= end <= k <= lines.len(),
            out@ == lines@.take(start as int) + new@ + lines@.subrange(end as int, k as int),
        decreases lines.len() - k,
    {
        out.push(lines[k].clone());
        k += 1;
    }
    assert(lines@.subrange(end as int, lines.len() as int) == lines@.skip(end as int));
    assert(texts(out@) =~= spliced(texts(lines@), range, texts(new@)));
    Ok(out)
}

/// A splice keeps every line outside the span, in place, and puts the new lines
/// where the span was.
pub proof fn lemma_spliced(lines: Seq<Seq<char>>, range: LineRange, new: Seq<Seq<char>>)
    requires
        in_bounds(range, lines.len()),
    ensures
        spliced(lines, range, new).len() == lines.len() - (range.1 - range.0) + new.len(),
        spliced(lines, range, new).take(range.0 as int) == lines.take(range.0 as int),
        spliced(lines, range, new).subrange(range.0 as int, range.0 + new.len()) == new,
        spliced(lines, range, new).skip(range.0 + new.len()) == lines.skip(range.1 as int),
{
    let after = spliced(lines, range, new);
    assert(after.take(range.0 as int) =~= lines.take(range.0 as int));
    assert(after.subrange(range.0 as int, range.0 + new.len()) =~= new);
    assert(after.skip(range.0 + new.len()) =~= lines.skip(range.1 as int));
}

impl Transformation {
    /// What the transformation makes of the lines of one file. `UpdateFragment`
    /// replaces its span, whatever file it names; `InsertFragment` puts its content
    /// before the line `line_no`, which may be the end of the file. The other
    /// transformations act on files, not on lines.
    pub open spec fn on_lines(t: TransformationView, lines: Seq<Seq<char>>) -> Result<
        Seq<Seq<char>>,
        ApplyError,
    > {
        match t {
            TransformationView::UpdateFragment { fragment, updated_lines } => splice_outcome(
                lines,
                fragment.line_range,
                updated_lines,
            ),
            TransformationView::InsertFragment { line_no, content } => splice_outcome(
                lines,
                (line_no, line_no),
                content,
            ),
            _ => Err(ApplyError::Unsupported),
        }
    }

    /// Applies the transformation to the lines of one file and returns the new lines.
    pub fn apply_to_lines(&self, lines: &Vec<String>) -> (r: Result<Vec<String>, ApplyError>)
        ensures
            lines_result(r) == Transformation::on_lines(self@, texts(lines@)),
    {
        match self {
            Transformation::UpdateFragment { fragment, updated_lines } => splice_lines(
                lines,
                fragment.line_range,
                updated_lines,
            ),
            Transformation::InsertFragment { line_no, content } => splice_lines(
                lines,
                (*line_no, *line_no),
                content,
            ),
            _ => Err(ApplyError::Unsupported),
        }
    }
}

/// An insertion removes no line: the lines before `line_no` stay, the content
/// follows, and the lines from `line_no` on follow the content.
pub proof fn lemma_insert_keeps_lines(lines: Seq<Seq<char>>, line_no: usize, content: Seq<Seq<char>>)
    requires
        line_no <= lines.len(),
    ensures
        Transformation::on_lines(TransformationView::InsertFragment { line_no, content }, lines)
            == Ok::<Seq<Seq<char>>, ApplyError>(
            lines.take(line_no as int) + content + lines.skip(line_no as int),
        ),
        (lines.take(line_no as int) + content + lines.skip(line_no as int)).len() == lines.len()
            + content.len(),
{
}

/// An insertion at the end of the file appends.
pub proof fn lemma_insert_at_end(lines: Seq<Seq<char>>, content: Seq<Seq<char>>)
    requires
        lines.len() <= usize::MAX,
    ensures
        Transformation::on_lines(
            TransformationView::InsertFragment { line_no: lines.len() as usize, content },
            lines,
        ) == Ok::<Seq<Seq<char>>, ApplyError>(lines + content),
{
    let at = lines.len() as int;
    assert(lines.take(at) + content + lines.skip(at) =~= lines + content);
}

/// The lines with each identifier that reads `old` replaced by `new`.
pub open spec fn renamed_lines(lines: Seq<Seq<char>>, old: Seq<char>, new: Seq<char>) -> Seq<
    Seq<char>,
> {
    Seq::new(lines.len(), |i: int| renamed(lines[i], old, new))
}

/// Replaces each identifier that reads `old` by `new`, line by line.
pub fn rename_in_lines(lines: &Vec<String>, old: &str, new: &str) -> (out: Vec<String>)
    ensures
        texts(out@) == renamed_lines(texts(lines@), old@, new@),
{
    let mut out: Vec<String> = Vec::new();
    let mut i: usize = 0;
    while i < lines.len()
        invariant
            i <= lines.len(),
            out@.len() == i,
            forall|k: int| 0 <= k < i ==> (#[trigger] out@[k])@ == renamed(lines@[k]@, old@, new@),
        decreases lines.len() - i,
    {
        out.push(rename_tokens(lines[i].as_str(), old, new));
        i += 1;
    }
    assert(texts(out@) =~= renamed_lines(texts(lines@), old@, new@));
    out
}

/// The tree with each identifier that reads `old` replaced by `new`, in every file.
pub open spec fn renamed_tree(
    tree: Map<Seq<char>, Seq<Seq<char>>>,
    old: Seq<char>,
    new: Seq<char>,
) -> Map<Seq<char>, Seq<Seq<char>>> {
    Map::new(
        |p: Seq<char>| tree.dom().contains(p),
        |p: Seq<char>| renamed_lines(tree[p], old, new),
    )
}

/// What applying `t` to `tree` gives, where `in_work` is the file in work: the new
/// tree, or the reason why `t` does not apply.
///
/// - `UpdateFragment` replaces the fragment's span in its file; the file must exist
///   and the span must lie within it.
/// - `InsertFragment` names no file: its content goes into the file in work, before
///   the line `line_no`, which may be the end of the file. The file must exist and
///   `line_no` must not lie beyond its end. Without a file in work there is nothing
///   to insert into.
/// - `CreateFile` adds an empty file under a path that is not in use.
/// - `DeleteFile` removes an existing file.
/// - `MoveFile` gives an existing file a path that is not in use.
/// - `RenameSymbol` rewrites an identifier in every file, and always applies.
pub open spec fn transformed(
    tree: Map<Seq<char>, Seq<Seq<char>>>,
    in_work: Option<Seq<char>>,
    t: TransformationView,
) -> Result<Map<Seq<char>, Seq<Seq<char>>>, ApplyError> {
    match t {
        TransformationView::UpdateFragment { fragment, updated_lines } => {
            if !tree.dom().contains(fragment.filepath) {
                Err(ApplyError::NotFound)
            } else {
                match splice_outcome(tree[fragment.filepath], fragment.line_range, updated_lines) {
                    Ok(lines) => Ok(tree.insert(fragment.filepath, lines)),
                    Err(e) => Err(e),
                }
            }
        },
        TransformationView::InsertFragment { line_no, content } => match in_work {
            Some(path) => transformed_file(tree, path, t),
            None => Err(ApplyError::Unsupported),
        },
        TransformationView::CreateFile { path } => {
            if tree.dom().contains(path) {
                Err(ApplyError::AlreadyExists)
            } else {
                Ok(tree.insert(path, Seq::empty()))
            }
        },
        TransformationView::DeleteFile { path } => {
            if !tree.dom().contains(path) {
                Err(ApplyError::NotFound)
            } else {
                Ok(tree.remove(path))
            }
        },
        TransformationView::MoveFile { old, new } => {
            if !tree.dom().contains(old) {
                Err(ApplyError::NotFound)
            } else if tree.dom().contains(new) {
                Err(ApplyError::AlreadyExists)
            } else {
                Ok(tree.remove(old).insert(new, tree[old]))
            }
        },
        TransformationView::RenameSymbol { old, new } => Ok(renamed_tree(tree, old, new)),
    }
}

/// A span that is not within its file is never replaced: the update fails as out of
/// bounds, with the span that was asked for and the length of the file.
pub proof fn lemma_update_out_of_bounds(
    tree: Map<Seq<char>, Seq<Seq<char>>>,
    in_work: Option<Seq<char>>,
    fragment: FragmentView,
    updated_lines: Seq<Seq<char>>,
)
    requires
        tree.dom().contains(fragment.filepath),
        !(fragment.line_range.0 <= fragment.line_range.1 <= tree[fragment.filepath].len()),
    ensures
        transformed(tree, in_work, TransformationView::UpdateFragment { fragment, updated_lines })
            == Err::<Map<Seq<char>, Seq<Seq<char>>>, ApplyError>(
            ApplyError::OutOfBounds {
                requested: fragment.line_range,
                actual_len: tree[fragment.filepath].len() as usize,
            },
        ),
{
}

/// What applying `t` to the file under `path` gives: the tree with the new lines of
/// that file, where the file exists and `t` applies to its lines.
pub open spec fn transformed_file(
    tree: Map<Seq<char>, Seq<Seq<char>>>,
    path: Seq<char>,
    t: TransformationView,
) -> Result<Map<Seq<char>, Seq<Seq<char>>>, ApplyError> {
    if !tree.dom().contains(path) {
        Err(ApplyError::NotFound)
    } else {
        match Transformation::on_lines(t, tree[path]) {
            Ok(lines) => Ok(tree.insert(path, lines)),
            Err(e) => Err(e),
        }
    }
}

/// An insertion into the file in work removes no line of it and touches no other
/// file: the lines before `line_no` stay, the content follows, and the lines from
/// `line_no` on follow the content. At the end of the file it appends. Beyond the
/// end it fails as out of bounds.
pub proof fn lemma_insert_in_work(
    tree: Map<Seq<char>, Seq<Seq<char>>>,
    path: Seq<char>,
    line_no: usize,
    content: Seq<Seq<char>>,
)
    requires
        tree.dom().contains(path),
    ensures
        ({
            let lines = tree[path];
            let outcome = transformed(
                tree,
                Some(path),
                TransformationView::InsertFragment { line_no, content },
            );
            &&& line_no <= lines.len() ==> outcome == Ok::<
                Map<Seq<char>, Seq<Seq<char>>>,
                ApplyError,
            >(
                tree.insert(
                    path,
                    lines.take(line_no as int) + content + lines.skip(line_no as int),
                ),
            )
            &&& line_no == lines.len() ==> outcome == Ok::<
                Map<Seq<char>, Seq<Seq<char>>>,
                ApplyError,
            >(tree.insert(path, lines + content))
            &&& line_no > lines.len() ==> outcome == Err::<
                Map<Seq<char>, Seq<Seq<char>>>,
                ApplyError,
            >(
                ApplyError::OutOfBounds {
                    requested: (line_no, line_no),
                    actual_len: lines.len() as usize,
                },
            )
        }),
{
    let lines = tree[path];
    if line_no == lines.len() {
        assert(lines.take(line_no as int) + content + lines.skip(line_no as int) =~= lines
            + content);
    }
}

/// What applying the transformations `ts[from..]` in order gives, where `in_work` is
/// the file in work. The first one that does not apply ends the run with its error;
/// those before it stay applied, which the second part of the result shows: the tree
/// as the run left it.
pub open spec fn transformed_all(
    tree: Map<Seq<char>, Seq<Seq<char>>>,
    in_work: Option<Seq<char>>,
    ts: Seq<TransformationView>,
    from: int,
) -> (Result<(), ApplyError>, Map<Seq<char>, Seq<Seq<char>>>)
    decreases ts.len() - from,
{
    if from < 0 || from >= ts.len() {
        (Ok(()), tree)
    } else {
        match transformed(tree, in_work, ts[from]) {
            Ok(next) => transformed_all(next, in_work, ts, from + 1),
            Err(e) => (Err(e), tree),
        }
    }
}

/// The text of a fragment in `tree`: the lines of its span, joined by line feeds. The
/// file must exist and the span must lie within it.
pub open spec fn fragment_text(tree: Map<Seq<char>, Seq<Seq<char>>>, fragment: FragmentView) -> Result<
    Seq<char>,
    ApplyError,
> {
    if !tree.dom().contains(fragment.filepath) {
        Err(ApplyError::NotFound)
    } else {
        let lines = tree[fragment.filepath];
        if in_bounds(fragment.line_range, lines.len()) {
            Ok(joined(lines.subrange(fragment.line_range.0 as int, fragment.line_range.1 as int)))
        } else {
            Err(
                ApplyError::OutOfBounds {
                    requested: fragment.line_range,
                    actual_len: lines.len() as usize,
                },
            )
        }
    }
}

/// The lines, each behind its number and a space. Numbers count from zero.
pub open spec fn numbered(lines: Seq<Seq<char>>) -> Seq<Seq<char>> {
    Seq::new(lines.len(), |i: int| decimal_digits(i as nat) + seq![' '] + lines[i])
}

/// The excerpt that shows the oracle the text of a fragment: a heading, the path of
/// the file, and the numbered lines of the text between two markers.
pub open spec fn excerpt(filepath: Seq<char>, text: Seq<char>) -> Seq<char> {
    "The existing lines of code are:\n\n"@ + filepath + "\n>>>>\n"@ + joined(
        numbered(lines_of(text)),
    ) + "\n<<<<"@
}

/// Puts its number and a space before each line. Numbers count from zero.
pub fn number_lines(lines: &Vec<String>) -> (out: Vec<String>)
    ensures
        texts(out@) == numbered(texts(lines@)),
{
    let mut out: Vec<String> = Vec::new();
    let mut i: usize = 0;
    while i < lines.len()
        invariant
            i <= lines.len(),
            out@.len() == i,
            forall|k: int|
                0 <= k < i ==> (#[trigger] out@[k])@ == decimal_digits(k as nat) + seq![' ']
                    + lines@[k]@,
        decreases lines.len() - i,
    {
        let mut line = decimal_string(i);
        line.push(' ');
        line.append(lines[i].as_str());
        out.push(line);
        i += 1;
    }
    assert(texts(out@) =~= numbered(texts(lines@)));
    out
}

/// One file of the working tree.
pub struct StoredFile {
    path: String,
    lines: Vec<String>,
}

/// Whether one of `files` has the path `path`.
pub closed spec fn holds(files: Seq<StoredFile>, path: Seq<char>) -> bool {
    exists|i: int| 0 <= i < files.len() && #[trigger] files[i].path@ == path
}

/// The place in `files` of the file with the path `path`.
pub closed spec fn slot(files: Seq<StoredFile>, path: Seq<char>) -> int {
    choose|i: int| 0 <= i < files.len() && #[trigger] files[i].path@ == path
}

/// Whether no two of `files` share a path.
pub closed spec fn distinct(files: Seq<StoredFile>) -> bool {
    forall|i: int, j: int|
        0 <= i < j < files.len() ==> (#[trigger] files[i]).path@ != (#[trigger] files[j]).path@
}

/// The files as a map from path to lines.
pub closed spec fn tree_of(files: Seq<StoredFile>) -> Map<Seq<char>, Seq<Seq<char>>> {
    Map::new(|p: Seq<char>| holds(files, p), |p: Seq<char>| texts(files[slot(files, p)].lines@))
}

/// Where paths are distinct, the file at place `i` is the one found under its path.
proof fn lemma_slot(files: Seq<StoredFile>, i: int)
    requires
        distinct(files),
        0 <= i < files.len(),
    ensures
        holds(files, files[i].path@),
        slot(files, files[i].path@) == i,
        tree_of(files).dom().contains(files[i].path@),
        tree_of(files)[files[i].path@] == texts(files[i].lines@),
{
    let j = slot(files, files[i].path@);
    assert(files[j].path@ == files[i].path@);
    if j < i {
        assert(files[j].path@ != files[i].path@);
    } else if i < j {
        assert(files[i].path@ != files[j].path@);
    }
}

/// A path that the tree holds has a place among the files.
proof fn lemma_held(files: Seq<StoredFile>, path: Seq<char>)
    requires
        holds(files, path),
    ensures
        0 <= slot(files, path) < files.len(),
        files[slot(files, path)].path@ == path,
{
}

/// Adding a file under a new path adds one entry to the map.
proof fn lemma_push(files: Seq<StoredFile>, f: StoredFile)
    requires
        distinct(files),
        !holds(files, f.path@),
    ensures
        distinct(files.push(f)),
        tree_of(files.push(f)) == tree_of(files).insert(f.path@, texts(f.lines@)),
{
    let new = files.push(f);
    assert forall|i: int, j: int| 0 <= i < j < new.len() implies (#[trigger] new[i]).path@ != (
    #[trigger] new[j]).path@ by {
        if j == files.len() {
            assert(files[i].path@ != f.path@);
        } else {
            assert(files[i].path@ != files[j].path@);
        }
    }
    assert(distinct(new));
    assert forall|p: Seq<char>| holds(new, p) <==> (holds(files, p) || p == f.path@) by {
        if holds(new, p) {
            lemma_held(new, p);
            let k = slot(new, p);
            if k < files.len() {
                assert(files[k].path@ == p);
            }
        }
        if holds(files, p) {
            lemma_held(files, p);
            assert(new[slot(files, p)].path@ == p);
        }
        if p == f.path@ {
            assert(new[files.len() as int].path@ == p);
        }
    }
    assert forall|p: Seq<char>| holds(new, p) implies #[trigger] tree_of(new)[p] == tree_of(
        files,
    ).insert(f.path@, texts(f.lines@))[p] by {
        if p == f.path@ {
            lemma_slot(new, files.len() as int);
        } else {
            lemma_held(files, p);
            let k = slot(files, p);
            lemma_slot(new, k);
        }
    }
    assert(tree_of(new) =~= tree_of(files).insert(f.path@, texts(f.lines@)));
}

/// Replacing a file by one of the same path replaces its entry in the map.
proof fn lemma_update(files: Seq<StoredFile>, i: int, f: StoredFile)
    requires
        distinct(files),
        0 <= i < files.len(),
        f.path@ == files[i].path@,
    ensures
        distinct(files.update(i, f)),
        tree_of(files.update(i, f)) == tree_of(files).insert(f.path@, texts(f.lines@)),
{
    let new = files.update(i, f);
    assert forall|a: int, b: int| 0 <= a < b < new.len() implies (#[trigger] new[a]).path@ != (
    #[trigger] new[b]).path@ by {
        assert(files[a].path@ != files[b].path@);
    }
    assert(distinct(new));
    assert forall|p: Seq<char>| holds(new, p) <==> (holds(files, p) || p == f.path@) by {
        if holds(new, p) {
            lemma_held(new, p);
            assert(files[slot(new, p)].path@ == p);
        }
        if holds(files, p) {
            lemma_held(files, p);
            assert(new[slot(files, p)].path@ == p);
        }
        if p == f.path@ {
            assert(new[i].path@ == p);
        }
    }
    assert forall|p: Seq<char>| holds(new, p) implies #[trigger] tree_of(new)[p] == tree_of(
        files,
    ).insert(f.path@, texts(f.lines@))[p] by {
        if p == f.path@ {
            lemma_slot(new, i);
        } else {
            lemma_held(files, p);
            let k = slot(files, p);
            lemma_slot(new, k);
        }
    }
    assert(tree_of(new) =~= tree_of(files).insert(f.path@, texts(f.lines@)));
}

/// Taking a file out takes its entry out of the map.
proof fn lemma_remove(files: Seq<StoredFile>, i: int)
    requires
        distinct(files),
        0 <= i < files.len(),
    ensures
        distinct(files.remove(i)),
        tree_of(files.remove(i)) == tree_of(files).remove(files[i].path@),
{
    let new = files.remove(i);
    let gone = files[i].path@;
    assert forall|a: int, b: int| 0 <= a < b < new.len() implies (#[trigger] new[a]).path@ != (
    #[trigger] new[b]).path@ by {
        let a0 = if a < i { a } else { a + 1 };
        let b0 = if b < i { b } else { b + 1 };
        assert(files[a0].path@ != files[b0].path@);
    }
    assert(distinct(new));
    assert forall|p: Seq<char>| holds(new, p) <==> (holds(files, p) && p != gone) by {
        if holds(new, p) {
            lemma_held(new, p);
            let k = slot(new, p);
            let k0 = if k < i { k } else { k + 1 };
            assert(files[k0].path@ == p);
            if k0 < i {
                assert(files[k0].path@ != files[i].path@);
            } else {
                assert(files[i].path@ != files[k0].path@);
            }
        }
        if holds(files, p) && p != gone {
            lemma_held(files, p);
            let k = slot(files, p);
            let k1 = if k < i { k } else { k - 1 };
            assert(new[k1].path@ == p);
        }
    }
    assert forall|p: Seq<char>| holds(new, p) implies #[trigger] tree_of(new)[p] == tree_of(
        files,
    ).remove(gone)[p] by {
        lemma_held(files, p);
        let k = slot(files, p);
        let k1 = if k < i { k } else { k - 1 };
        lemma_slot(new, k1);
    }
    assert(tree_of(new) =~= tree_of(files).remove(gone));
}

/// Giving a file a path that is not in use moves its entry in the map.
proof fn lemma_repath(files: Seq<StoredFile>, i: int, f: StoredFile)
    requires
        distinct(files),
        0 <= i < files.len(),
        !holds(files, f.path@),
        f.lines@ == files[i].lines@,
    ensures
        distinct(files.update(i, f)),
        tree_of(files.update(i, f)) == tree_of(files).remove(files[i].path@).insert(
            f.path@,
            tree_of(files)[files[i].path@],
        ),
{
    let new = files.update(i, f);
    let gone = files[i].path@;
    lemma_slot(files, i);
    assert forall|a: int, b: int| 0 <= a < b < new.len() implies (#[trigger] new[a]).path@ != (
    #[trigger] new[b]).path@ by {
        assert(files[a].path@ != files[b].path@);
        assert(files[a].path@ != f.path@);
        assert(files[b].path@ != f.path@);
    }
    assert(distinct(new));
    assert forall|p: Seq<char>| holds(new, p) <==> ((holds(files, p) && p != gone) || p
        == f.path@) by {
        if holds(new, p) {
            lemma_held(new, p);
            let k = slot(new, p);
            if k != i {
                assert(files[k].path@ == p);
                if k < i {
                    assert(files[k].path@ != files[i].path@);
                } else {
                    assert(files[i].path@ != files[k].path@);
                }
            }
        }
        if holds(files, p) && p != gone {
            lemma_held(files, p);
            assert(new[slot(files, p)].path@ == p);
        }
        if p == f.path@ {
            assert(new[i].path@ == p);
        }
    }
    assert forall|p: Seq<char>| holds(new, p) implies #[trigger] tree_of(new)[p] == tree_of(
        files,
    ).remove(gone).insert(f.path@, tree_of(files)[gone])[p] by {
        if p == f.path@ {
            lemma_slot(new, i);
        } else {
            lemma_held(files, p);
            let k = slot(files, p);
            lemma_slot(new, k);
        }
    }
    assert(tree_of(new) =~= tree_of(files).remove(gone).insert(f.path@, tree_of(files)[gone]));
}

/// Rewriting the lines of every file, paths kept, rewrites every entry of the map.
proof fn lemma_renamed(before: Seq<StoredFile>, after: Seq<StoredFile>, old: Seq<char>, new: Seq<char>)
    requires
        distinct(before),
        after.len() == before.len(),
        forall|k: int| 0 <= k < before.len() ==> (#[trigger] after[k]).path@ == before[k].path@,
        forall|k: int|
            0 <= k < before.len() ==> texts((#[trigger] after[k]).lines@) == renamed_lines(
                texts(before[k].lines@),
                old,
                new,
            ),
    ensures
        distinct(after),
        tree_of(after) == renamed_tree(tree_of(before), old, new),
{
    assert forall|a: int, b: int| 0 <= a < b < after.len() implies (#[trigger] after[a]).path@ != (
    #[trigger] after[b]).path@ by {
        assert(before[a].path@ != before[b].path@);
    }
    assert(distinct(after));
    assert forall|p: Seq<char>| holds(after, p) <==> holds(before, p) by {
        if holds(after, p) {
            lemma_held(after, p);
            assert(before[slot(after, p)].path@ == p);
        }
        if holds(before, p) {
            lemma_held(before, p);
            assert(after[slot(before, p)].path@ == p);
        }
    }
    assert forall|p: Seq<char>| holds(after, p) implies #[trigger] tree_of(after)[p]
        == renamed_tree(tree_of(before), old, new)[p] by {
        lemma_held(before, p);
        let k = slot(before, p);
        lemma_slot(before, k);
        assert(after[k].path@ == p);
        lemma_slot(after, k);
    }
    assert(tree_of(after) =~= renamed_tree(tree_of(before), old, new));
}

/// Files with the same paths and the same lines, place by place, make the same map.
proof fn lemma_same(before: Seq<StoredFile>, after: Seq<StoredFile>)
    requires
        distinct(before),
        after.len() == before.len(),
        forall|k: int| 0 <= k < before.len() ==> (#[trigger] after[k]).path@ == before[k].path@,
        forall|k: int|
            0 <= k < before.len() ==> texts((#[trigger] after[k]).lines@) == texts(
                before[k].lines@,
            ),
    ensures
        distinct(after),
        tree_of(after) == tree_of(before),
{
    assert forall|a: int, b: int| 0 <= a < b < after.len() implies (#[trigger] after[a]).path@ != (
    #[trigger] after[b]).path@ by {
        assert(before[a].path@ != before[b].path@);
    }
    assert(distinct(after));
    assert forall|p: Seq<char>| holds(after, p) <==> holds(before, p) by {
        if holds(after, p) {
            lemma_held(after, p);
            assert(before[slot(after, p)].path@ == p);
        }
        if holds(before, p) {
            lemma_held(before, p);
            assert(after[slot(before, p)].path@ == p);
        }
    }
    assert forall|p: Seq<char>| holds(after, p) implies #[trigger] tree_of(after)[p] == tree_of(
        before,
    )[p] by {
        lemma_held(before, p);
        let k = slot(before, p);
        lemma_slot(before, k);
        assert(after[k].path@ == p);
        lemma_slot(after, k);
    }
    assert(tree_of(after) =~= tree_of(before));
}

/// A snapshot of the working tree: its files, each a sequence of lines, the revision
/// it was taken at (`None` for uncommitted work), and the file in work, if any.
///
/// Edits are applied to the snapshot; reading the tree from disk and writing it back
/// are left to the caller.
pub struct GitRepository {
    revision: Option<String>,
    in_work: Option<String>,
    files: Vec<StoredFile>,
}

impl View for GitRepository {
    type V = Map<Seq<char>, Seq<Seq<char>>>;

    /// The files of the tree, from path to lines.
    closed spec fn view(&self) -> Map<Seq<char>, Seq<Seq<char>>> {
        tree_of(self.files@)
    }
}

impl GitRepository {
    /// Whether the snapshot is a tree: no two of its files share a path. Every
    /// snapshot that this module hands out is one.
    pub closed spec fn wf(&self) -> bool {
        distinct(self.files@)
    }

    /// The revision of the snapshot, `None` for uncommitted work.
    pub closed spec fn revision_view(&self) -> Option<Seq<char>> {
        match self.revision {
            Some(r) => Some(r@),
            None => None,
        }
    }

    /// The file in work: the file that an `InsertFragment` inserts into, if any.
    pub closed spec fn in_work_view(&self) -> Option<Seq<char>> {
        match self.in_work {
            Some(path) => Some(path@),
            None => None,
        }
    }

    /// A tree without files, at no revision, with no file in work.
    pub fn new() -> (repository: Self)
        ensures
            repository.wf(),
            repository.in_work_view() is None,
            repository@ == Map::<Seq<char>, Seq<Seq<char>>>::empty(),
            repository.revision_view() is None,
    {
        let repository = GitRepository { revision: None, in_work: None, files: Vec::new() };
        assert(repository@ =~= Map::<Seq<char>, Seq<Seq<char>>>::empty());
        repository
    }

    /// The place of the file with the path `path`, if the tree holds one.
    fn find(&self, path: &String) -> (place: Option<usize>)
        requires
            self.wf(),
        ensures
            match place {
                Some(i) => i < self.files@.len() && self.files@[i as int].path@ == path@
                    && self@.dom().contains(path@) && self@[path@] == texts(
                    self.files@[i as int].lines@,
                ),
                None => !self@.dom().contains(path@),
            },
    {
        let mut i: usize = 0;
        while i < self.files.len()
            invariant
                i <= self.files.len(),
                distinct(self.files@),
                forall|k: int| 0 <= k < i ==> self.files@[k].path@ != path@,
            decreases self.files.len() - i,
        {
            if self.files[i].path == *path {
                proof {
                    lemma_slot(self.files@, i as int);
                }
                return Some(i);
            }
            i += 1;
        }
        proof {
            if holds(self.files@, path@) {
                lemma_held(self.files@, path@);
            }
        }
        None
    }

    /// Whether the tree holds a file with the path `path`.
    pub fn contains(&self, path: &str) -> (held: bool)
        requires
            self.wf(),
        ensures
            held == self@.dom().contains(path@),
    {
        self.find(&path.to_owned()).is_some()
    }

    /// The lines of the file under `path`.
    pub fn file_lines(&self, path: &str) -> (r: Result<Vec<String>, ApplyError>)
        requires
            self.wf(),
        ensures
            lines_result(r) == (if self@.dom().contains(path@) {
                Ok(self@[path@])
            } else {
                Err(ApplyError::NotFound)
            }),
    {
        match self.find(&path.to_owned()) {
            Some(i) => Ok(copy_lines(&self.files[i].lines)),
            None => Err(ApplyError::NotFound),
        }
    }

    /// The text of the file under `path`: its lines, joined by line feeds.
    pub fn read_file(&self, path: &str) -> (r: Result<String, ApplyError>)
        requires
            self.wf(),
        ensures
            text_result(r) == (if self@.dom().contains(path@) {
                Ok(joined(self@[path@]))
            } else {
                Err(ApplyError::NotFound)
            }),
    {
        match self.find(&path.to_owned()) {
            Some(i) => Ok(join_lines(&self.files[i].lines)),
            None => Err(ApplyError::NotFound),
        }
    }

    /// The paths of all files of the tree, each once.
    pub fn paths(&self) -> (paths: Vec<String>)
        requires
            self.wf(),
        ensures
            forall|p: Seq<char>|
                self@.dom().contains(p) <==> exists|i: int|
                    0 <= i < paths@.len() && (#[trigger] paths@[i])@ == p,
            forall|i: int, j: int|
                0 <= i < j < paths@.len() ==> (#[trigger] paths@[i])@ != (#[trigger] paths@[j])@,
    {
        let mut paths: Vec<String> = Vec::new();
        let mut i: usize = 0;
        while i < self.files.len()
            invariant
                i <= self.files.len(),
                paths@.len() == i,
                forall|k: int| 0 <= k < i ==> (#[trigger] paths@[k])@ == self.files@[k].path@,
            decreases self.files.len() - i,
        {
            paths.push(self.files[i].path.clone());
            i += 1;
        }
        proof {
            assert forall|p: Seq<char>| self@.dom().contains(p) <==> exists|i: int|
                0 <= i < paths@.len() && (#[trigger] paths@[i])@ == p by {
                if holds(self.files@, p) {
                    lemma_held(self.files@, p);
                    assert(paths@[slot(self.files@, p)]@ == p);
                }
                if exists|i: int| 0 <= i < paths@.len() && (#[trigger] paths@[i])@ == p {
                    let i = choose|i: int| 0 <= i < paths@.len() && (#[trigger] paths@[i])@ == p;
                    assert(self.files@[i].path@ == p);
                }
            }
            assert forall|i: int, j: int| 0 <= i < j < paths@.len() implies (#[trigger] paths@[i])@
                != (#[trigger] paths@[j])@ by {
                assert(self.files@[i].path@ != self.files@[j].path@);
            }
        }
        paths
    }

    /// The paths of the files that `other` lacks, or holds with other lines, each once
    /// and in the order of this tree.
    fn differing(&self, other: &GitRepository, lacking_only: bool) -> (paths: Vec<String>)
        requires
            self.wf(),
            other.wf(),
        ensures
            each_once(paths@),
            forall|p: Seq<char>|
                listed(paths@, p) <==> self@.dom().contains(p) && (!other@.dom().contains(p) || (
                !lacking_only && other@[p] != self@[p])),
    {
        let mut paths: Vec<String> = Vec::new();
        let ghost mut from: Seq<int> = Seq::empty();
        let mut i: usize = 0;
        while i < self.files.len()
            invariant
                i <= self.files.len(),
                self.wf(),
                other.wf(),
                from.len() == paths@.len(),
                forall|k: int|
                    0 <= k < from.len() ==> 0 <= #[trigger] from[k] < i && paths@[k]@
                        == self.files@[from[k]].path@,
                forall|k: int, l: int| 0 <= k < l < from.len() ==> from[k] < from[l],
                forall|k: int|
                    0 <= k < from.len() ==> {
                        let p = self.files@[#[trigger] from[k]].path@;
                        !other@.dom().contains(p) || (!lacking_only && other@[p] != self@[p])
                    },
                forall|f: int|
                    0 <= f < i ==> {
                        let p = (#[trigger] self.files@[f]).path@;
                        (!other@.dom().contains(p) || (!lacking_only && other@[p] != self@[p]))
                            ==> listed(paths@, p)
                    },
            decreases self.files.len() - i,
        {
            let file = &self.files[i];
            proof {
                lemma_slot(self.files@, i as int);
            }
            let differs = match other.find(&file.path) {
                None => true,
                Some(j) => !lacking_only && !same_lines(&other.files[j].lines, &file.lines),
            };
            if differs {
                let ghost before = paths@;
                paths.push(file.path.clone());
                proof {
                    from = from.push(i as int);
                    assert forall|f: int| 0 <= f < i && listed(before, self.files@[f].path@) implies
                        listed(paths@, (#[trigger] self.files@[f]).path@) by {
                        let k = choose|k: int|
                            0 <= k < before.len() && (#[trigger] before[k])@
                                == self.files@[f].path@;
                        assert(paths@[k]@ == self.files@[f].path@);
                    }
                    assert(paths@[before.len() as int]@ == file.path@);
                }
            }
            i += 1;
        }
        proof {
            assert forall|k: int, l: int| 0 <= k < l < paths@.len() implies (#[trigger] paths@[k])@
                != (#[trigger] paths@[l])@ by {
                assert(from[k] < from[l]);
                assert(self.files@[from[k]].path@ != self.files@[from[l]].path@);
            }
            assert forall|p: Seq<char>| listed(paths@, p) <==> self@.dom().contains(p) && (
            !other@.dom().contains(p) || (!lacking_only && other@[p] != self@[p])) by {
                if listed(paths@, p) {
                    let k = choose|k: int| 0 <= k < paths@.len() && (#[trigger] paths@[k])@ == p;
                    lemma_slot(self.files@, from[k]);
                }
                if holds(self.files@, p) {
                    lemma_held(self.files@, p);
                    let f = slot(self.files@, p);
                    assert(self.files@[f].path@ == p);
                }
            }
        }
        paths
    }

    /// What has to happen to files that are in line with `on_disk` to bring them in
    /// line with this tree: first the paths of the files to remove, which `on_disk`
    /// holds and this tree does not; then the paths of the files to write, which this
    /// tree holds and `on_disk` lacks or holds with other lines. Each path stands
    /// once; a file that is the same in both trees stands in neither list.
    pub fn changed_files(&self, on_disk: &GitRepository) -> (r: (Vec<String>, Vec<String>))
        requires
            self.wf(),
            on_disk.wf(),
        ensures
            each_once(r.0@),
            each_once(r.1@),
            forall|p: Seq<char>|
                listed(r.0@, p) <==> on_disk@.dom().contains(p) && !self@.dom().contains(p),
            forall|p: Seq<char>|
                listed(r.1@, p) <==> self@.dom().contains(p) && (!on_disk@.dom().contains(p)
                    || on_disk@[p] != self@[p]),
    {
        (on_disk.differing(self, true), self.differing(on_disk, false))
    }

    /// Puts a file with the lines of `content` under `path`, in place of the file that
    /// was there, if any.
    pub fn insert_file(&mut self, path: &str, content: &str)
        requires
            old(self).wf(),
        ensures
            final(self).wf(),
            final(self)@ == old(self)@.insert(path@, lines_of(content@)),
            final(self).revision_view() == old(self).revision_view(),
            final(self).in_work_view() == old(self).in_work_view(),
    {
        let path = path.to_owned();
        let lines = split_lines(content);
        let place = self.find(&path);
        let file = StoredFile { path, lines };
        match place {
            Some(i) => {
                proof {
                    lemma_update(self.files@, i as int, file);
                }
                self.files.set(i, file);
            },
            None => {
                proof {
                    lemma_push(self.files@, file);
                }
                self.files.push(file);
            },
        }
    }

    /// The revision of the snapshot, `None` for uncommitted work.
    pub fn revision(&self) -> (revision: Option<String>)
        ensures
            match revision {
                Some(r) => self.revision_view() == Some(r@),
                None => self.revision_view() is None,
            },
    {
        match &self.revision {
            Some(r) => Some(r.clone()),
            None => None,
        }
    }

    /// The file in work, if any.
    pub fn in_work(&self) -> (path: Option<String>)
        ensures
            match path {
                Some(p) => self.in_work_view() == Some(p@),
                None => self.in_work_view() is None,
            },
    {
        match &self.in_work {
            Some(p) => Some(p.clone()),
            None => None,
        }
    }

    /// Makes `path` the file in work, or leaves the tree without one. The files and
    /// the revision stay as they are; the file need not exist yet.
    pub fn work_on(&mut self, path: Option<String>)
        ensures
            final(self).in_work_view() == (match path {
                Some(p) => Some(p@),
                None => None,
            }),
            final(self)@ == old(self)@,
            final(self).revision_view() == old(self).revision_view(),
            final(self).wf() == old(self).wf(),
    {
        self.in_work = path;
    }

    /// Notes that the tree was committed as `revision`. The files stay as they are.
    pub fn record_commit(&mut self, revision: String)
        ensures
            final(self).revision_view() == Some(revision@),
            final(self).in_work_view() == old(self).in_work_view(),
            final(self)@ == old(self)@,
            final(self).wf() == old(self).wf(),
    {
        self.revision = Some(revision);
    }

    /// Applies one transformation to the tree. Where it does not apply, the tree stays
    /// as it was and the error says why.
    pub fn transform(&mut self, transformation: &Transformation) -> (r: Result<(), ApplyError>)
        requires
            old(self).wf(),
        ensures
            final(self).wf(),
            final(self).revision_view() == old(self).revision_view(),
            final(self).in_work_view() == old(self).in_work_view(),
            match transformed(old(self)@, old(self).in_work_view(), transformation@) {
                Ok(tree) => r is Ok && final(self)@ == tree,
                Err(e) => r == Err::<(), ApplyError>(e) && final(self)@ == old(self)@,
            },
    {
        match transformation {
            Transformation::UpdateFragment { fragment, updated_lines } => {
                match self.find(&fragment.filepath) {
                    None => Err(ApplyError::NotFound),
                    Some(i) => {
                        match splice_lines(&self.files[i].lines, fragment.line_range, updated_lines) {
                            Err(e) => Err(e),
                            Ok(lines) => {
                                let file = StoredFile { path: fragment.filepath.clone(), lines };
                                proof {
                                    lemma_update(self.files@, i as int, file);
                                }
                                self.files.set(i, file);
                                Ok(())
                            },
                        }
                    },
                }
            },
            Transformation::InsertFragment { line_no, content } => {
                match self.in_work() {
                    Some(path) => self.transform_file(path.as_str(), transformation),
                    None => Err(ApplyError::Unsupported),
                }
            },
            Transformation::CreateFile { path } => {
                match self.find(path) {
                    Some(_) => Err(ApplyError::AlreadyExists),
                    None => {
                        let file = StoredFile { path: path.clone(), lines: Vec::new() };
                        proof {
                            lemma_push(self.files@, file);
                            assert(texts(file.lines@) =~= Seq::<Seq<char>>::empty());
                        }
                        self.files.push(file);
                        Ok(())
                    },
                }
            },
            Transformation::DeleteFile { path } => {
                match self.find(path) {
                    None => Err(ApplyError::NotFound),
                    Some(i) => {
                        proof {
                            lemma_remove(self.files@, i as int);
                        }
                        self.files.remove(i);
                        Ok(())
                    },
                }
            },
            Transformation::MoveFile { old: from, new: to } => {
                match self.find(from) {
                    None => Err(ApplyError::NotFound),
                    Some(i) => {
                        if self.find(to).is_some() {
                            Err(ApplyError::AlreadyExists)
                        } else {
                            let file = StoredFile {
                                path: to.clone(),
                                lines: copy_lines(&self.files[i].lines),
                            };
                            proof {
                                lemma_repath(self.files@, i as int, file);
                            }
                            self.files.set(i, file);
                            Ok(())
                        }
                    },
                }
            },
            Transformation::RenameSymbol { old: from, new: to } => {
                let ghost before = self.files@;
                let mut i: usize = 0;
                while i < self.files.len()
                    invariant
                        i <= self.files@.len(),
                        self.files@.len() == before.len(),
                        self.revision == old(self).revision,
                        self.in_work == old(self).in_work,
                        distinct(before),
                        distinct(self.files@),
                        forall|k: int|
                            0 <= k < before.len() ==> (#[trigger] self.files@[k]).path@
                                == before[k].path@,
                        forall|k: int|
                            0 <= k < i ==> texts((#[trigger] self.files@[k]).lines@)
                                == renamed_lines(texts(before[k].lines@), from@, to@),
                        forall|k: int|
                            i <= k < before.len() ==> (#[trigger] self.files@[k]).lines@
                                == before[k].lines@,
                    decreases self.files@.len() - i,
                {
                    let file = StoredFile {
                        path: self.files[i].path.clone(),
                        lines: rename_in_lines(&self.files[i].lines, from.as_str(), to.as_str()),
                    };
                    proof {
                        lemma_update(self.files@, i as int, file);
                    }
                    self.files.set(i, file);
                    i += 1;
                }
                proof {
                    lemma_renamed(before, self.files@, from@, to@);
                }
                Ok(())
            },
        }
    }

    /// Applies a transformation of lines to the file under `path`: an `UpdateFragment`
    /// replaces its span there, an `InsertFragment` puts its content there. Where it
    /// does not apply, the tree stays as it was.
    pub fn transform_file(&mut self, path: &str, transformation: &Transformation) -> (r: Result<
        (),
        ApplyError,
    >)
        requires
            old(self).wf(),
        ensures
            final(self).wf(),
            final(self).revision_view() == old(self).revision_view(),
            final(self).in_work_view() == old(self).in_work_view(),
            match transformed_file(old(self)@, path@, transformation@) {
                Ok(tree) => r is Ok && final(self)@ == tree,
                Err(e) => r == Err::<(), ApplyError>(e) && final(self)@ == old(self)@,
            },
    {
        let path = path.to_owned();
        match self.find(&path) {
            None => Err(ApplyError::NotFound),
            Some(i) => {
                match transformation.apply_to_lines(&self.files[i].lines) {
                    Err(e) => Err(e),
                    Ok(lines) => {
                        let file = StoredFile { path, lines };
                        proof {
                            lemma_update(self.files@, i as int, file);
                        }
                        self.files.set(i, file);
                        Ok(())
                    },
                }
            },
        }
    }

    /// Applies the transformations in order and stops at the first that does not
    /// apply. Those before it stay applied.
    pub fn transform_all(&mut self, transformations: &Vec<Transformation>) -> (r: Result<
        (),
        ApplyError,
    >)
        requires
            old(self).wf(),
        ensures
            final(self).wf(),
            final(self).revision_view() == old(self).revision_view(),
            final(self).in_work_view() == old(self).in_work_view(),
            (r, final(self)@) == transformed_all(
                old(self)@,
                old(self).in_work_view(),
                transformation_views(transformations@),
                0,
            ),
    {
        let ghost views = transformation_views(transformations@);
        let mut i: usize = 0;
        while i < transformations.len()
            invariant
                i <= transformations.len(),
                self.wf(),
                self.revision_view() == old(self).revision_view(),
                self.in_work_view() == old(self).in_work_view(),
                views == transformation_views(transformations@),
                transformed_all(self@, self.in_work_view(), views, i as int) == transformed_all(
                    old(self)@,
                    old(self).in_work_view(),
                    views,
                    0,
                ),
            decreases transformations.len() - i,
        {
            match self.transform(&transformations[i]) {
                Ok(()) => {},
                Err(e) => {
                    return Err(e);
                },
            }
            i += 1;
        }
        Ok(())
    }

    /// What earlier revisions say about a fragment. No history is kept, so this is
    /// always empty.
    pub fn temporal_context(&self, fragment: &Fragment) -> (r: Result<Vec<String>, ApplyError>)
        ensures
            lines_result(r) == Ok::<Seq<Seq<char>>, ApplyError>(Seq::empty()),
    {
        let context: Vec<String> = Vec::new();
        assert(texts(context@) =~= Seq::<Seq<char>>::empty());
        Ok(context)
    }

    /// What the tree says about a fragment: one excerpt that shows its lines, numbered
    /// from zero.
    pub fn spatial_context(&self, fragment: &Fragment) -> (r: Result<Vec<String>, ApplyError>)
        requires
            self.wf(),
        ensures
            lines_result(r) == (match fragment_text(self@, fragment@) {
                Ok(text) => Ok(seq![excerpt(fragment@.filepath, text)]),
                Err(e) => Err(e),
            }),
    {
        let text = match fragment.read_lines(self) {
            Ok(text) => text,
            Err(e) => { return Err(e); },
        };
        let shown = join_lines(&number_lines(&split_lines(text.as_str())));
        let mut context = String::from_str("The existing lines of code are:\n\n");
        context.append(fragment.filepath.as_str());
        context.append("\n>>>>\n");
        context.append(shown.as_str());
        context.append("\n<<<<");
        let mut contexts: Vec<String> = Vec::new();
        contexts.push(context);
        assert(texts(contexts@) =~= seq![excerpt(fragment@.filepath, text@)]);
        Ok(contexts)
    }
}

impl Clone for GitRepository {
    fn clone(&self) -> (copy: Self)
        ensures
            self.wf() ==> copy.wf() && copy@ == self@,
            copy.revision_view() == self.revision_view(),
            copy.in_work_view() == self.in_work_view(),
    {
        let mut files: Vec<StoredFile> = Vec::new();
        let mut i: usize = 0;
        while i < self.files.len()
            invariant
                i <= self.files.len(),
                files@.len() == i,
                forall|k: int| 0 <= k < i ==> (#[trigger] files@[k]).path@ == self.files@[k].path@,
                forall|k: int|
                    0 <= k < i ==> texts((#[trigger] files@[k]).lines@) == texts(
                        self.files@[k].lines@,
                    ),
            decreases self.files.len() - i,
        {
            files.push(
                StoredFile {
                    path: self.files[i].path.clone(),
                    lines: copy_lines(&self.files[i].lines),
                },
            );
            i += 1;
        }
        proof {
            if self.wf() {
                lemma_same(self.files@, files@);
            }
        }
        GitRepository { revision: self.revision(), in_work: self.in_work(), files }
    }
}

impl Default for GitRepository {
    fn default() -> (repository: Self)
        ensures
            repository.wf(),
            repository@ == Map::<Seq<char>, Seq<Seq<char>>>::empty(),
            repository.revision_view() is None,
            repository.in_work_view() is None,
    {
        GitRepository::new()
    }
}

impl Fragment {
    /// The whole text of the fragment's file: its lines, joined by line feeds.
    pub fn read_file(&self, repository: &GitRepository) -> (r: Result<String, ApplyError>)
        requires
            repository.wf(),
        ensures
            text_result(r) == (if repository@.dom().contains(self.filepath@) {
                Ok(joined(repository@[self.filepath@]))
            } else {
                Err(ApplyError::NotFound)
            }),
    {
        repository.read_file(self.filepath.as_str())
    }

    /// The text of the fragment: the lines of its span, joined by line feeds.
    pub fn read_lines(&self, repository: &GitRepository) -> (r: Result<String, ApplyError>)
        requires
            repository.wf(),
        ensures
            text_result(r) == fragment_text(repository@, self@),
    {
        let lines = match repository.file_lines(self.filepath.as_str()) {
            Ok(lines) => lines,
            Err(e) => { return Err(e); },
        };
        let (start, end) = self.line_range;
        if !(start <= end && end <= lines.len()) {
            return Err(
                ApplyError::OutOfBounds { requested: self.line_range, actual_len: lines.len() },
            );
        }
        let mut span: Vec<String> = Vec::new();
        let mut i: usize = start;
        while i < end
            invariant
                start <= i <= end <= lines.len(),
                span@ == lines@.subrange(start as int, i as int),
            decreases end - i,
        {
            span.push(lines[i].clone());
            i += 1;
        }
        assert(texts(span@) =~= texts(lines@).subrange(start as int, end as int));
        Ok(join_lines(&span))
    }
}

} // verus!
