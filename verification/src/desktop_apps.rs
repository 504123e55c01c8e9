//! Finds the `.desktop` file that stands for a client's program, for clients
//! whose own application id matches no installed file.
//!
//! A desktop shell looks an application id up among the installed files.  Where
//! the id a client sends is not there, the id of the file that runs the
//! client's program is sent in its place.  An id that is installed is never
//! second-guessed.  Of several files that run one program the first one counts.
use crate::schema::same_text;
use crate::text;
use crate::text::{chars_of, is_whitespace, stands_at, string_of, trim_range};
use std::sync::Arc;
use vstd::prelude::*;

verus! {

/// One file of an application directory.
pub struct DesktopFile {
    pub file_name: String,
    /// What it holds, if it could be read.
    pub content: Option<String>,
}

/// What a [`DesktopFile`] is.
#[verifier::ext_equal]
pub struct FileModel {
    pub file_name: Seq<char>,
    pub content: Option<Seq<char>>,
}

impl View for DesktopFile {
    type V = FileModel;

    open spec fn view(&self) -> FileModel {
        FileModel {
            file_name: self.file_name@,
            content: match self.content {
                Some(c) => Some(c@),
                None => None,
            },
        }
    }
}

/// The id of a `.desktop` file: its name without the extension.
pub open spec fn desktop_id(file_name: Seq<char>) -> Option<Seq<char>> {
    let ext = ".desktop"@;
    if file_name.len() > ext.len() && file_name.skip(file_name.len() - ext.len()) == ext {
        Some(file_name.take(file_name.len() - ext.len()))
    } else {
        None
    }
}

/// A line without the white space around it.
pub open spec fn trimmed_line(s: Seq<char>, from: int) -> Seq<char> {
    let end = text::line_end(s, from);
    let start = text::space_end(s, from, end);
    s.subrange(start, text::trim_end(s, start, end))
}

/// Whether a line is a group header.
pub open spec fn is_group(line: Seq<char>) -> bool {
    line.len() >= 2 && line[0] == '[' && line.last() == ']'
}

/// The value of the first `Exec=` in the `[Desktop Entry]` group, from the line
/// that starts at `from` on; `in_main` says whether that line is in the group.
pub open spec fn exec_from(s: Seq<char>, from: int, in_main: bool) -> Option<Seq<char>>
    decreases s.len() - from + 1,
    when 0 <= from
    via exec_from_decreases
{
    if from >= s.len() {
        None
    } else {
        let line = trimmed_line(s, from);
        let next = text::line_end(s, from) + 1;
        if is_group(line) {
            exec_from(s, next, line.subrange(1, line.len() - 1) == "Desktop Entry"@)
        } else if in_main && line.len() >= 5 && line.take(5) == "Exec="@ {
            Some(line.skip(5))
        } else {
            exec_from(s, next, in_main)
        }
    }
}

#[via_fn]
proof fn exec_from_decreases(s: Seq<char>, from: int, in_main: bool) {
    text::lemma_line_end(s, from);
}

/// The `Exec=` value of a `.desktop` file.
pub open spec fn main_exec(content: Seq<char>) -> Option<Seq<char>> {
    exec_from(content, 0, false)
}

/// Where the word that starts at `from` ends.
pub open spec fn word_end(s: Seq<char>, from: int) -> int
    decreases s.len() - from,
{
    if from < s.len() && !text::is_space(s[from]) {
        word_end(s, from + 1)
    } else {
        from
    }
}

/// The start of the path component that ends at `end`.
pub open spec fn component_start(s: Seq<char>, end: int) -> int
    decreases end,
{
    if end > 0 && s[end - 1] != '/' {
        component_start(s, end - 1)
    } else {
        end
    }
}

/// The last component of the path `s.take(end)`: empty components and `.` do
/// not count, and `..` names no file.
pub open spec fn file_name_before(s: Seq<char>, end: int) -> Option<Seq<char>>
    decreases end,
    when 0 <= end <= s.len()
    via file_name_before_decreases
{
    if end == 0 {
        None
    } else {
        let start = component_start(s, end);
        let name = s.subrange(start, end);
        if name == ".."@ {
            None
        } else if name.len() == 0 || name == "."@ {
            if start == 0 {
                None
            } else {
                file_name_before(s, start - 1)
            }
        } else {
            Some(name)
        }
    }
}

#[via_fn]
proof fn file_name_before_decreases(s: Seq<char>, end: int) {
    lemma_component_start(s, end);
}

/// A component starts at the front, or behind a slash.
proof fn lemma_component_start(s: Seq<char>, end: int)
    requires
        0 <= end <= s.len(),
    ensures
        0 <= component_start(s, end) <= end,
    decreases end,
{
    if end > 0 && s[end - 1] != '/' {
        lemma_component_start(s, end - 1);
    }
}

/// The program that an `Exec=` value runs: its first word, without the path.
pub open spec fn binary_of(exec: Seq<char>) -> Option<Seq<char>> {
    let start = text::space_end(exec, 0, exec.len() as int);
    let end = word_end(exec, start);
    if start == end {
        None
    } else {
        let word = exec.subrange(start, end);
        file_name_before(word, word.len() as int)
    }
}

/// The program that a `.desktop` file runs, if it can be told.
pub open spec fn file_binary(file: FileModel) -> Option<Seq<char>> {
    match file.content {
        Some(content) => match main_exec(content) {
            Some(exec) => binary_of(exec),
            None => None,
        },
        None => None,
    }
}

/// What the index is made of: ids, and programs with the id of their file.
#[verifier::ext_equal]
pub struct IndexModel {
    pub ids: Seq<Seq<char>>,
    pub by_binary: Seq<(Seq<char>, Seq<char>)>,
}

/// The index of the first `n` files, in order.
pub open spec fn index_of(files: Seq<FileModel>, n: int) -> IndexModel
    decreases n,
{
    if n <= 0 {
        IndexModel { ids: Seq::empty(), by_binary: Seq::empty() }
    } else {
        let before = index_of(files, n - 1);
        match desktop_id(files[n - 1].file_name) {
            None => before,
            Some(id) => IndexModel {
                ids: before.ids.push(id),
                by_binary: match file_binary(files[n - 1]) {
                    Some(binary) => before.by_binary.push((binary, id)),
                    None => before.by_binary,
                },
            },
        }
    }
}

/// The id of the first file, from `from` on, that runs a program.
pub open spec fn resolved_from(
    by_binary: Seq<(Seq<char>, Seq<char>)>,
    binary: Seq<char>,
    from: int,
) -> Option<Seq<char>>
    decreases by_binary.len() - from,
{
    if from >= by_binary.len() {
        None
    } else if by_binary[from].0 == binary {
        Some(by_binary[from].1)
    } else {
        resolved_from(by_binary, binary, from + 1)
    }
}

impl IndexModel {
    /// The id of the first file that runs a program.
    pub open spec fn resolve(self, binary: Seq<char>) -> Option<Seq<char>> {
        resolved_from(self.by_binary, binary, 0)
    }

    /// The id to send in place of `app_id`, if it is to be replaced.
    pub open spec fn replacement(self, app_id: Seq<char>, binary: Option<Seq<char>>) -> Option<
        Seq<char>,
    > {
        match binary {
            Some(binary) if !self.ids.contains(app_id) => self.resolve(binary),
            _ => None,
        }
    }
}

/// The installed `.desktop` files.
pub struct DesktopAppIndex {
    ids: Vec<String>,
    by_binary: Vec<(String, String)>,
}

impl View for DesktopAppIndex {
    type V = IndexModel;

    closed spec fn view(&self) -> IndexModel {
        IndexModel {
            ids: self.ids@.map_values(|s: String| s@),
            by_binary: self.by_binary@.map_values(|p: (String, String)| (p.0@, p.1@)),
        }
    }
}

/// What is in a list of directories, one file after the other.
pub open spec fn all_files(dirs: Seq<Vec<DesktopFile>>, n: int) -> Seq<FileModel>
    decreases n,
{
    if n <= 0 {
        Seq::empty()
    } else {
        all_files(dirs, n - 1) + dirs[n - 1]@.map_values(|f: DesktopFile| f@)
    }
}

/// The id of a `.desktop` file; see [`desktop_id`].
fn id_of(file_name: &str) -> (r: Option<String>)
    ensures
        match r {
            Some(id) => desktop_id(file_name@) == Some(id@),
            None => desktop_id(file_name@) is None,
        },
{
    let name = chars_of(file_name);
    let ext = chars_of(".desktop");
    if name.len() <= ext.len() {
        return None;
    }
    let stem: usize = name.len() - ext.len();
    assert(name@.subrange(stem as int, stem + ext@.len()) =~= name@.skip(stem as int));
    if stands_at(&name, stem, &ext) {
        assert(name@.subrange(0, stem as int) =~= name@.take(stem as int));
        Some(string_of(&name, 0, stem))
    } else {
        None
    }
}

/// The `[Desktop Entry]` group's own `Exec=` value; see [`main_exec`].
pub fn main_entry_exec(content: &str) -> (r: Option<String>)
    ensures
        match r {
            Some(exec) => main_exec(content@) == Some(exec@),
            None => main_exec(content@) is None,
        },
{
    let s = chars_of(content);
    let main_group = chars_of("Desktop Entry");
    let key = chars_of("Exec=");
    proof {
        reveal_strlit("Exec=");
        reveal_strlit("Desktop Entry");
    }
    let mut from: usize = 0;
    let mut in_main = false;
    while from < s.len()
        invariant
            s@ == content@,
            main_group@ == "Desktop Entry"@,
            key@ == "Exec="@,
            key@.len() == 5,
            main_group@.len() == 13,
            main_exec(content@) == exec_from(s@, from as int, in_main),
        decreases s.len() - from,
    {
        let mut end: usize = from;
        while end < s.len() && s[end] != '\n'
            invariant
                from <= end <= s@.len(),
                text::line_end(s@, from as int) == text::line_end(s@, end as int),
            decreases s.len() - end,
        {
            end += 1;
        }
        let (start, stop) = trim_range(&s, from, end);
        let ghost line = trimmed_line(s@, from as int);
        assert(line == s@.subrange(start as int, stop as int));
        if stop - start >= 2 && s[start] == '[' && s[stop - 1] == ']' {
            assert(is_group(line));
            assert(line.subrange(1, line.len() - 1) =~= s@.subrange(start + 1, stop - 1));
            in_main = stop - start - 2 == main_group.len() && stands_at(
                &s,
                start + 1,
                &main_group,
            );
        } else if in_main && stop - start >= 5 {
            assert(line.take(5) =~= s@.subrange(start as int, start + 5));
            if stands_at(&s, start, &key) {
                assert(line.skip(5) =~= s@.subrange(start + 5, stop as int));
                return Some(string_of(&s, start + 5, stop));
            }
        }
        assert(main_exec(content@) == exec_from(s@, end + 1, in_main));
        if end >= s.len() {
            assert(exec_from(s@, end + 1, in_main) is None);
            return None;
        }
        from = end + 1;
    }
    None
}

/// The last component of a path; see [`file_name_before`].
fn last_component(word: &Vec<char>) -> (r: Option<String>)
    ensures
        match r {
            Some(name) => file_name_before(word@, word@.len() as int) == Some(name@),
            None => file_name_before(word@, word@.len() as int) is None,
        },
{
    let here = chars_of(".");
    let parent = chars_of("..");
    let mut end: usize = word.len();
    while end > 0
        invariant
            end <= word@.len(),
            here@ == "."@,
            parent@ == ".."@,
            file_name_before(word@, word@.len() as int) == file_name_before(word@, end as int),
        decreases end,
    {
        proof {
            lemma_component_start(word@, end as int);
        }
        let mut start: usize = end;
        while start > 0 && word[start - 1] != '/'
            invariant
                start <= end <= word@.len(),
                component_start(word@, end as int) == component_start(word@, start as int),
            decreases start,
        {
            start -= 1;
        }
        let ghost name = word@.subrange(start as int, end as int);
        let n: usize = end - start;
        let is_here = n == here.len() && stands_at(word, start, &here);
        let is_parent = n == parent.len() && stands_at(word, start, &parent);
        assert(is_here == (name == "."@));
        assert(is_parent == (name == ".."@));
        if is_parent {
            return None;
        }
        if n == 0 || is_here {
            if start == 0 {
                return None;
            }
            end = start - 1;
        } else {
            return Some(string_of(word, start, end));
        }
    }
    None
}

/// The program that an `Exec=` value runs; see [`binary_of`].
pub fn exec_binary_name(exec: &str) -> (r: Option<String>)
    ensures
        match r {
            Some(binary) => binary_of(exec@) == Some(binary@),
            None => binary_of(exec@) is None,
        },
{
    let s = chars_of(exec);
    let (start, _) = trim_range(&s, 0, s.len());
    let mut word: Vec<char> = Vec::new();
    let mut end: usize = start;
    assert(word@ =~= s@.subrange(start as int, start as int));
    while end < s.len() && !is_whitespace(s[end])
        invariant
            start <= end <= s@.len(),
            word_end(s@, start as int) == word_end(s@, end as int),
            word@ == s@.subrange(start as int, end as int),
        decreases s.len() - end,
    {
        word.push(s[end]);
        end += 1;
        assert(word@ =~= s@.subrange(start as int, end as int));
    }
    if end == start {
        return None;
    }
    last_component(&word)
}

/// The program that a `.desktop` file runs; see [`file_binary`].
fn binary_in(file: &DesktopFile) -> (r: Option<String>)
    ensures
        match r {
            Some(binary) => file_binary(file@) == Some(binary@),
            None => file_binary(file@) is None,
        },
{
    match &file.content {
        Some(content) => match main_entry_exec(content.as_str()) {
            Some(exec) => exec_binary_name(exec.as_str()),
            None => None,
        },
        None => None,
    }
}

impl DesktopAppIndex {
    /// Adds one file; see [`index_of`].
    fn add_file(&mut self, file: &DesktopFile)
        ensures
            forall|files: Seq<FileModel>, n: int|
                0 <= n < files.len() && files[n] == file@ && old(self)@ == #[trigger] index_of(
                    files,
                    n,
                ) ==> final(self)@ == index_of(files, n + 1),
    {
        let ghost before = self@;
        if let Some(id) = id_of(file.file_name.as_str()) {
            if let Some(binary) = binary_in(file) {
                self.by_binary.push((binary, id.clone()));
                assert(self@.by_binary =~= before.by_binary.push((binary@, id@)));
            }
            let ghost text = id@;
            self.ids.push(id);
            assert(self@.ids =~= before.ids.push(text));
        }
    }

    /// Indexes the given directories, each with its files, in order.
    pub fn build_from_dirs(dirs: &Vec<Vec<DesktopFile>>) -> (r: DesktopAppIndex)
        ensures
            ({
                let files = all_files(dirs@, dirs@.len() as int);
                r@ == index_of(files, files.len() as int)
            }),
    {
        let mut index = DesktopAppIndex { ids: Vec::new(), by_binary: Vec::new() };
        let ghost files = all_files(dirs@, dirs@.len() as int);
        assert(index@ =~= index_of(files, 0));
        let mut d: usize = 0;
        let ghost mut seen: int = 0;
        while d < dirs.len()
            invariant
                d <= dirs@.len(),
                files == all_files(dirs@, dirs@.len() as int),
                seen == all_files(dirs@, d as int).len(),
                index@ == index_of(files, seen),
            decreases dirs.len() - d,
        {
            proof {
                lemma_files_prefix(dirs@, d + 1, dirs@.len() as int);
            }
            let dir = &dirs[d];
            let mut i: usize = 0;
            while i < dir.len()
                invariant
                    i <= dir@.len(),
                    d < dirs@.len(),
                    *dir == dirs@[d as int],
                    files == all_files(dirs@, dirs@.len() as int),
                    seen == all_files(dirs@, d as int).len(),
                    all_files(dirs@, d + 1).len() <= files.len(),
                    forall|k: int|
                        0 <= k < all_files(dirs@, d + 1).len() ==> files[k] == #[trigger] all_files(
                            dirs@,
                            d + 1,
                        )[k],
                    index@ == index_of(files, seen + i),
                decreases dir.len() - i,
            {
                assert(all_files(dirs@, d + 1)[seen + i] == dir@[i as int]@);
                index.add_file(&dir[i]);
                i += 1;
            }
            proof {
                seen = seen + dir@.len();
            }
            d += 1;
        }
        index
    }

    /// Whether `app_id` is the id of an installed file.
    pub fn has_id(&self, app_id: &str) -> (r: bool)
        ensures
            r == self@.ids.contains(app_id@),
    {
        let mut i: usize = 0;
        while i < self.ids.len()
            invariant
                i <= self.ids@.len(),
                forall|j: int| 0 <= j < i ==> self@.ids[j] != app_id@,
            decreases self.ids.len() - i,
        {
            if same_text(self.ids[i].as_str(), app_id) {
                assert(self@.ids[i as int] == app_id@);
                return true;
            }
            i += 1;
        }
        false
    }

    /// The id of the first file that runs the program.
    pub fn resolve_by_binary(&self, binary_name: &str) -> (r: Option<&str>)
        ensures
            match r {
                Some(id) => self@.resolve(binary_name@) == Some(id@),
                None => self@.resolve(binary_name@) is None,
            },
    {
        let mut i: usize = 0;
        while i < self.by_binary.len()
            invariant
                i <= self.by_binary@.len(),
                self@.resolve(binary_name@) == resolved_from(
                    self@.by_binary,
                    binary_name@,
                    i as int,
                ),
            decreases self.by_binary.len() - i,
        {
            if same_text(self.by_binary[i].0.as_str(), binary_name) {
                return Some(self.by_binary[i].1.as_str());
            }
            i += 1;
        }
        None
    }
}

/// The files of the first directories come first among all files.
proof fn lemma_files_prefix(dirs: Seq<Vec<DesktopFile>>, d: int, n: int)
    requires
        0 <= d <= n <= dirs.len(),
    ensures
        all_files(dirs, d).len() <= all_files(dirs, n).len(),
        forall|k: int|
            0 <= k < all_files(dirs, d).len() ==> all_files(dirs, n)[k] == #[trigger] all_files(
                dirs,
                d,
            )[k],
    decreases n,
{
    if d < n {
        lemma_files_prefix(dirs, d, n - 1);
    }
}

/// Who a client is, as far as the installed files tell.
pub struct ClientIdentity {
    pub index: Arc<DesktopAppIndex>,
    /// The program that the client's process runs, if that is known.
    pub binary_name: Option<String>,
}

/// What a [`ClientIdentity`] says.
#[verifier::ext_equal]
pub struct IdentityModel {
    pub index: IndexModel,
    pub binary_name: Option<Seq<char>>,
}

impl View for ClientIdentity {
    type V = IdentityModel;

    open spec fn view(&self) -> IdentityModel {
        IdentityModel {
            index: self.index@,
            binary_name: match self.binary_name {
                Some(b) => Some(b@),
                None => None,
            },
        }
    }
}

impl ClientIdentity {
    /// The id to send in place of `app_id`, if it is to be replaced: it is not
    /// installed, and a file that runs the client's program is.
    pub fn replacement(&self, app_id: &str) -> (r: Option<String>)
        ensures
            match r {
                Some(id) => self@.index.replacement(app_id@, self@.binary_name) == Some(id@),
                None => self@.index.replacement(app_id@, self@.binary_name) is None,
            },
    {
        match &self.binary_name {
            Some(binary) => {
                if self.index.has_id(app_id) {
                    None
                } else {
                    match self.index.resolve_by_binary(binary.as_str()) {
                        Some(id) => Some(id.to_owned()),
                        None => None,
                    }
                }
            },
            None => None,
        }
    }
}

/// An installed id is never second-guessed, and a replacement is always an
/// installed id.
pub proof fn lemma_replacement_is_installed(
    files: Seq<FileModel>,
    app_id: Seq<char>,
    binary: Option<Seq<char>>,
)
    ensures
        ({
            let index = index_of(files, files.len() as int);
            &&& index.ids.contains(app_id) ==> index.replacement(app_id, binary) is None
            &&& index.replacement(app_id, binary) matches Some(id) ==> index.ids.contains(id)
        }),
{
    let index = index_of(files, files.len() as int);
    if let Some(binary) = binary {
        lemma_resolved_is_listed(index.by_binary, binary, 0);
        if let Some(id) = index.resolve(binary) {
            let k = choose|k: int|
                0 <= k < index.by_binary.len() && (#[trigger] index.by_binary[k]).1 == id;
            lemma_listed_is_installed(files, files.len() as int, k);
        }
    }
}

/// What is resolved is in the list.
proof fn lemma_resolved_is_listed(
    by_binary: Seq<(Seq<char>, Seq<char>)>,
    binary: Seq<char>,
    from: int,
)
    requires
        0 <= from,
    ensures
        resolved_from(by_binary, binary, from) matches Some(id) ==> exists|k: int|
            0 <= k < by_binary.len() && (#[trigger] by_binary[k]).1 == id,
    decreases by_binary.len() - from,
{
    if from < by_binary.len() {
        if by_binary[from].0 != binary {
            lemma_resolved_is_listed(by_binary, binary, from + 1);
        } else {
            assert(by_binary[from].1 == resolved_from(by_binary, binary, from)->0);
        }
    }
}

/// Every file in the list of programs is an installed one.
proof fn lemma_listed_is_installed(files: Seq<FileModel>, n: int, k: int)
    requires
        0 <= n <= files.len(),
        0 <= k < index_of(files, n).by_binary.len(),
    ensures
        index_of(files, n).ids.contains(index_of(files, n).by_binary[k].1),
    decreases n,
{
    let now = index_of(files, n);
    let before = index_of(files, n - 1);
    if k < before.by_binary.len() {
        lemma_listed_is_installed(files, n - 1, k);
        let j = choose|j: int| 0 <= j < before.ids.len() && before.ids[j] == before.by_binary[k].1;
        assert(now.ids[j] == now.by_binary[k].1);
    } else {
        assert(now.ids[before.ids.len() as int] == now.by_binary[k].1);
    }
}

} // verus!
