//! The GitHub gist API as this program uses it: the requests it sends and
//! the replies it reads.

use vstd::prelude::*;
use vstd::string::*;
use crate::json::{join, join_strings, lemma_join_contains_part, lemma_join_single};

verus! {

/// Root of the GitHub REST API.
pub const GITHUB_API: &'static str = "https://api.github.com";

/// Description given to a gist when it is created.
pub const NEW_GIST_DESCRIPTION: &'static str = "";

/// Description given to a gist when a watched file changes.
pub const UPDATE_GIST_DESCRIPTION: &'static str = "this is update test";

/// Index of the last `/` in `path`, or -1 when there is none.
pub open spec fn last_slash(path: Seq<char>) -> int
    decreases path.len(),
{
    if path.len() == 0 {
        -1
    } else if path.last() == '/' {
        path.len() - 1
    } else {
        last_slash(path.drop_last())
    }
}

/// The final component of `path` as `std::path::Path::file_name` finds it
/// on Unix: split the path at `/`, leave out empty and `.` segments, and
/// take the last segment left, unless it is `..`; `None` when no segment
/// is left or the last one is `..`.
pub open spec fn file_name_of(path: Seq<char>) -> Option<Seq<char>>
    decreases path.len(),
{
    let i = last_slash(path);
    let segment = path.skip(i + 1);
    if segment.len() == 0 || segment == seq!['.'] {
        if 0 <= i < path.len() {
            file_name_of(path.take(i))
        } else {
            None
        }
    } else if segment == seq!['.', '.'] {
        None
    } else {
        Some(segment)
    }
}

/// True when `name` can be a normal component of a path: it is not empty,
/// holds no `/`, and is neither `.` nor `..`.
pub open spec fn normal_component(name: Seq<char>) -> bool {
    &&& name.len() > 0
    &&& !name.contains('/')
    &&& name != seq!['.']
    &&& name != seq!['.', '.']
}

/// True when `name` stands in `path` as one whole `/`-separated segment.
pub open spec fn is_segment_of(name: Seq<char>, path: Seq<char>) -> bool {
    exists|i: int|
        #![trigger path.subrange(i, i + name.len())]
        0 <= i && i + name.len() <= path.len() && path.subrange(i, i + name.len()) == name && (i
            == 0 || path[i - 1] == '/') && (i + name.len() == path.len() || path[i
            + name.len()] == '/')
}

/// Calls `Path::file_name` on `path` and turns the component it returns
/// into text.  The contract states the rule of `Path::components` and
/// `Path::file_name` for Unix paths, the only ones this program handles
/// (it talks to its daemon over a Unix socket): repeated separators and
/// `.` segments are left out, and the last component is the file name
/// unless it is `..`.  A component of a `&str` is always text, so the
/// conversion with `to_str` does not fail.
#[verifier::external_body]
fn path_file_name(path: &str) -> (r: Option<String>)
    ensures
        r matches Some(n) ==> file_name_of(path@) == Some(n@),
        r is None ==> file_name_of(path@) is None,
{
    match std::path::Path::new(path).file_name() {
        Some(name) => name.to_str().map(str::to_owned),
        None => None,
    }
}

/// `last_slash` finds the last `/`: every character after it is another.
proof fn lemma_last_slash(path: Seq<char>)
    ensures
        -1 <= last_slash(path) < path.len(),
        last_slash(path) >= 0 ==> path[last_slash(path)] == '/',
        forall|j: int| last_slash(path) < j < path.len() ==> path[j] != '/',
    decreases path.len(),
{
    if path.len() > 0 && path.last() != '/' {
        lemma_last_slash(path.drop_last());
        assert forall|j: int| last_slash(path) < j < path.len() implies path[j] != '/' by {
            if j < path.len() - 1 {
                assert(path[j] == path.drop_last()[j]);
            }
        }
    }
}

/// The last `/` of `front + name`, where `front` ends in `/` and `name`
/// holds none, is the one that ends `front`.
proof fn lemma_last_slash_before(front: Seq<char>, name: Seq<char>)
    requires
        front.len() > 0,
        front.last() == '/',
        !name.contains('/'),
    ensures
        last_slash(front + name) == front.len() - 1,
    decreases name.len(),
{
    if name.len() == 0 {
        assert(front + name =~= front);
    } else {
        assert((front + name).drop_last() =~= front + name.drop_last());
        assert(name.last() == name[name.len() - 1]);
        assert(!name.drop_last().contains('/')) by {
            if name.drop_last().contains('/') {
                let k = choose|k: int| 0 <= k < name.drop_last().len() && name.drop_last()[k] == '/';
                assert(name[k] == '/');
            }
        }
        lemma_last_slash_before(front, name.drop_last());
    }
}

/// A file name found in a path is a normal component, and it stands in the
/// path as one whole `/`-separated segment.
pub proof fn lemma_file_name_is_segment(path: Seq<char>)
    ensures
        file_name_of(path) matches Some(n) ==> normal_component(n) && is_segment_of(n, path),
    decreases path.len(),
{
    let i = last_slash(path);
    lemma_last_slash(path);
    let segment = path.skip(i + 1);
    if segment.len() == 0 || segment == seq!['.'] {
        if 0 <= i < path.len() {
            let front = path.take(i);
            lemma_file_name_is_segment(front);
            if let Some(n) = file_name_of(front) {
                let j = choose|j: int|
                    #![trigger front.subrange(j, j + n.len())]
                    0 <= j && j + n.len() <= front.len() && front.subrange(j, j + n.len()) == n
                        && (j == 0 || front[j - 1] == '/') && (j + n.len() == front.len()
                        || front[j + n.len()] == '/');
                assert(path.subrange(j, j + n.len()) =~= front.subrange(j, j + n.len()));
                if j + n.len() == front.len() {
                    assert(path[j + n.len()] == '/');
                } else {
                    assert(path[j + n.len()] == front[j + n.len()]);
                }
                if j > 0 {
                    assert(path[j - 1] == front[j - 1]);
                }
            }
        }
    } else if segment != seq!['.', '.'] {
        assert(!segment.contains('/')) by {
            if segment.contains('/') {
                let k = choose|k: int| 0 <= k < segment.len() && segment[k] == '/';
                assert(path[i + 1 + k] == '/');
            }
        }
        assert(path.subrange(i + 1, i + 1 + segment.len()) =~= segment);
    }
}

/// A normal component is its own file name.
pub proof fn lemma_file_name_of_component(name: Seq<char>)
    requires
        normal_component(name),
    ensures
        file_name_of(name) == Some(name),
{
    lemma_last_slash(name);
    if last_slash(name) >= 0 {
        assert(name.contains('/'));
    }
    assert(name.skip(0) =~= name);
}

/// The directory part of a path never changes its file name: a normal
/// component after any directory text and a `/` is the file name.
pub proof fn lemma_file_name_after_directory(directory: Seq<char>, name: Seq<char>)
    requires
        normal_component(name),
    ensures
        file_name_of(directory + seq!['/'] + name) == Some(name),
{
    let front = directory + seq!['/'];
    let path = front + name;
    assert(directory + seq!['/'] + name == path);
    lemma_last_slash_before(front, name);
    assert(path.skip(front.len() as int) =~= name);
}

/// A path's gist file name is its file name whenever it has one, and
/// empty only when it has none.
pub proof fn lemma_gist_file_name_is_file_name(path: Seq<char>)
    ensures
        file_name_of(path) matches Some(n) ==> gist_file_name(path) == n,
        file_name_of(path) is None ==> gist_file_name(path).len() == 0,
{
}

/// A file stored under a directory keeps its whole name in the gist: for
/// every directory text and normal component, the gist file name of
/// `directory/name` is `name`, and so is that of `name` alone.
pub proof fn lemma_gist_file_name_after_directory(directory: Seq<char>, name: Seq<char>)
    requires
        normal_component(name),
    ensures
        gist_file_name(directory + seq!['/'] + name) == name,
        gist_file_name(name) == name,
{
    lemma_file_name_after_directory(directory, name);
    lemma_file_name_of_component(name);
}

/// Taking the file name twice gives the same as taking it once.
pub proof fn lemma_gist_file_name_idempotent(path: Seq<char>)
    ensures
        gist_file_name(gist_file_name(path)) == gist_file_name(path),
{
    lemma_file_name_is_segment(path);
    match file_name_of(path) {
        Some(n) => lemma_file_name_of_component(n),
        None => {
            let e = Seq::<char>::empty();
            assert(last_slash(e) == -1);
            assert(e.skip(0) =~= e);
        },
    }
}

/// The name under which a file is stored in a gist: the last component of
/// its path, or the empty text when there is none.
pub open spec fn gist_file_name(path: Seq<char>) -> Seq<char> {
    match file_name_of(path) {
        Some(n) => n,
        None => Seq::empty(),
    }
}

/// The last component of the path, or the empty text when there is none.
pub fn path_to_file_name(path_to_file: String) -> (name: String)
    ensures
        name@ == gist_file_name(path_to_file@),
        name@.len() == 0 || (normal_component(name@) && is_segment_of(name@, path_to_file@)),
        file_name_of(path_to_file@) matches Some(n) ==> name@ == n,
        file_name_of(path_to_file@) is None ==> name@.len() == 0,
{
    proof {
        lemma_file_name_is_segment(path_to_file@);
    }
    match path_file_name(path_to_file.as_str()) {
        Some(n) => n,
        None => String::new(),
    }
}

/// URL of the gist collection.
pub open spec fn gists_url_spec() -> Seq<char> {
    GITHUB_API@ + "/gists"@
}

/// URL of one gist.
pub open spec fn gist_url_spec(gist_id: Seq<char>) -> Seq<char> {
    GITHUB_API@ + "/gists/"@ + gist_id
}

/// URL of the gist collection.
pub fn gists_url() -> (url: String)
    ensures
        url@ == gists_url_spec(),
{
    let mut url = GITHUB_API.to_owned();
    url.append("/gists");
    url
}

/// URL of the gist `gist_id`.
pub fn gist_url(gist_id: &str) -> (url: String)
    ensures
        url@ == gist_url_spec(gist_id@),
        url@ == "https://api.github.com/gists/"@ + gist_id@,
{
    proof {
        lemma_gist_url_ends_with_id(gist_id@);
    }
    let mut url = GITHUB_API.to_owned();
    url.append("/gists/");
    url.append(gist_id);
    url
}

/// The URL of a gist is the API's gist address followed by the whole id:
/// 29 characters of `https://api.github.com/gists/`, then every character
/// of the id.
pub proof fn lemma_gist_url_ends_with_id(gist_id: Seq<char>)
    ensures
        gist_url_spec(gist_id) == "https://api.github.com/gists/"@ + gist_id,
        gist_url_spec(gist_id).len() == 29 + gist_id.len(),
        gist_url_spec(gist_id).skip(29) == gist_id,
{
    reveal_strlit("https://api.github.com");
    reveal_strlit("/gists/");
    reveal_strlit("https://api.github.com/gists/");
    assert(gist_url_spec(gist_id) =~= "https://api.github.com/gists/"@ + gist_id);
    assert(gist_url_spec(gist_id).skip(29) =~= gist_id);
}

/// Different gists have different URLs.
pub proof fn lemma_gist_url_injective(a: Seq<char>, b: Seq<char>)
    requires
        gist_url_spec(a) == gist_url_spec(b),
    ensures
        a == b,
{
    lemma_gist_url_ends_with_id(a);
    lemma_gist_url_ends_with_id(b);
}

/// Value of the `Authorization` header for the given access token.
pub fn authorization_value(access_token: &str) -> (value: String)
    ensures
        value@ == "token "@ + access_token@,
{
    let mut value = "token ".to_owned();
    value.append(access_token);
    value
}

/// One file of a gist as GitHub reports it.
#[derive(Debug, PartialEq, Eq)]
pub struct GistFile {
    size: i32,
    language: String,
    content: String,
}

/// One file of a gist as a mathematical value.
pub struct GistFileView {
    pub size: i32,
    pub language: Seq<char>,
    pub content: Seq<char>,
}

impl View for GistFile {
    type V = GistFileView;

    closed spec fn view(&self) -> GistFileView {
        GistFileView { size: self.size, language: self.language@, content: self.content@ }
    }
}

impl GistFile {
    /// A gist file of the given size, language and content.
    pub fn new(size: i32, language: String, content: String) -> (f: Self)
        ensures
            f@ == (GistFileView { size, language: language@, content: content@ }),
    {
        GistFile { size, language, content }
    }
}

/// A gist: its id and its files, each under a name that occurs once.
#[derive(Debug)]
pub struct GistFiles {
    id: String,
    files: Vec<(String, GistFile)>,
}

/// A gist as a mathematical value: its id and its named files in the
/// order they were added.
pub struct GistFilesView {
    pub id: Seq<char>,
    pub entries: Seq<(Seq<char>, GistFileView)>,
}

impl GistFilesView {
    /// The file names of the gist, in order.
    pub open spec fn names(self) -> Seq<Seq<char>> {
        self.entries.map_values(|e: (Seq<char>, GistFileView)| e.0)
    }

    /// The files of the gist by name.
    pub open spec fn file_map(self) -> Map<Seq<char>, GistFileView> {
        entries_map(self.entries)
    }
}

/// Named files as a map from name to file; a later entry wins over an
/// earlier one of the same name.
pub open spec fn entries_map(entries: Seq<(Seq<char>, GistFileView)>) -> Map<Seq<char>, GistFileView>
    decreases entries.len(),
{
    if entries.len() == 0 {
        Map::empty()
    } else {
        entries_map(entries.drop_last()).insert(entries.last().0, entries.last().1)
    }
}

/// The gist after `insert_file(name, file)`: the file of that name is
/// replaced in place, or the file is added at the end.
pub open spec fn inserted(g: GistFilesView, name: Seq<char>, file: GistFileView) -> GistFilesView {
    GistFilesView {
        id: g.id,
        entries: if g.names().contains(name) {
            g.entries.update(g.names().index_of(name), (name, file))
        } else {
            g.entries.push((name, file))
        },
    }
}

/// Replacing the entry of a name that occurs once is a map update.
proof fn lemma_update_is_map_insert(
    entries: Seq<(Seq<char>, GistFileView)>,
    k: int,
    name: Seq<char>,
    file: GistFileView,
)
    requires
        0 <= k < entries.len(),
        entries[k].0 == name,
        forall|i: int, j: int| 0 <= i < j < entries.len() ==> entries[i].0 != entries[j].0,
    ensures
        entries_map(entries.update(k, (name, file))) == entries_map(entries).insert(name, file),
    decreases entries.len(),
{
    let updated = entries.update(k, (name, file));
    let front = entries.drop_last();
    if k == entries.len() - 1 {
        assert(updated.drop_last() =~= front);
        assert(entries_map(updated) =~= entries_map(entries).insert(name, file));
    } else {
        assert(updated.drop_last() =~= front.update(k, (name, file)));
        lemma_update_is_map_insert(front, k, name, file);
        assert(entries.last().0 != name);
        assert(entries_map(updated) =~= entries_map(entries).insert(name, file));
    }
}

/// `insert_file` acts on the files by name as a map insert does, and keeps
/// every name occurring once.
pub proof fn lemma_insert_file_is_map_insert(g: GistFilesView, name: Seq<char>, file: GistFileView)
    requires
        g.names().no_duplicates(),
    ensures
        inserted(g, name, file).file_map() == g.file_map().insert(name, file),
        inserted(g, name, file).names().no_duplicates(),
{
    let after = inserted(g, name, file);
    if g.names().contains(name) {
        let k = g.names().index_of(name);
        assert(g.names()[k] == name);
        assert forall|i: int, j: int| 0 <= i < j < g.entries.len() implies g.entries[i].0 != g.entries[j].0 by {
            assert(g.names()[i] == g.entries[i].0);
            assert(g.names()[j] == g.entries[j].0);
        }
        lemma_update_is_map_insert(g.entries, k, name, file);
        assert(after.names() =~= g.names().update(k, name));
    } else {
        assert(after.entries.drop_last() =~= g.entries);
        assert(after.names() =~= g.names().push(name));
        assert forall|i: int, j: int| 0 <= i < after.names().len() && 0 <= j < after.names().len() && i != j implies after.names()[i] != after.names()[j] by {
            if j == g.names().len() {
                assert(g.names().contains(g.names()[i]));
            } else if i == g.names().len() {
                assert(g.names().contains(g.names()[j]));
            }
        }
    }
}

impl View for GistFiles {
    type V = GistFilesView;

    closed spec fn view(&self) -> GistFilesView {
        GistFilesView {
            id: self.id@,
            entries: self.files@.map_values(|e: (String, GistFile)| (e.0@, e.1@)),
        }
    }
}

impl GistFiles {
    #[verifier::type_invariant]
    spec fn names_distinct(&self) -> bool {
        forall|i: int, j: int|
            0 <= i < j < self.files@.len() ==> self.files@[i].0@ != self.files@[j].0@
    }

    /// A gist with the given id and no files yet.
    pub fn new(id: String) -> (g: Self)
        ensures
            g@.id == id@,
            g@.entries == Seq::<(Seq<char>, GistFileView)>::empty(),
            g@.names().no_duplicates(),
    {
        let g = GistFiles { id, files: Vec::new() };
        assert(g@.entries =~= Seq::<(Seq<char>, GistFileView)>::empty());
        g
    }

    /// The id of the gist.
    pub fn id(&self) -> (id: &str)
        ensures
            id@ == self@.id,
    {
        self.id.as_str()
    }

    /// The file names of the gist, in order.
    pub fn file_names(&self) -> (names: Vec<String>)
        ensures
            names@.map_values(|n: String| n@) == self@.names(),
            self@.names().no_duplicates(),
    {
        proof {
            use_type_invariant(self);
            assert forall|i: int, j: int|
                0 <= i < self@.names().len() && 0 <= j < self@.names().len() && i != j
                implies self@.names()[i] != self@.names()[j] by {
                assert(self@.names()[i] == self.files@[i].0@);
                assert(self@.names()[j] == self.files@[j].0@);
            }
        }
        let mut names: Vec<String> = Vec::new();
        let mut i: usize = 0;
        while i < self.files.len()
            invariant
                i <= self.files.len(),
                names@.len() == i,
                forall|j: int| 0 <= j < i ==> #[trigger] names@[j]@ == self.files@[j].0@,
            decreases self.files.len() - i,
        {
            names.push(self.files[i].0.clone());
            i = i + 1;
        }
        assert(names@.map_values(|n: String| n@) =~= self@.names());
        names
    }

    /// Adds the file `name`, replacing the file of that name if there is one.
    pub fn insert_file(&mut self, name: String, file: GistFile)
        ensures
            final(self)@ == inserted(old(self)@, name@, file@),
            final(self)@.names().no_duplicates(),
    {
        proof {
            use_type_invariant(&*self);
        }
        let ghost old_view = self@;
        let mut k: usize = 0;
        let mut found = false;
        while k < self.files.len()
            invariant_except_break
                k <= self.files.len(),
                !found,
                forall|j: int| 0 <= j < k ==> self.files@[j].0@ != name@,
            ensures
                k <= self.files.len(),
                found ==> k < self.files.len() && self.files@[k as int].0@ == name@,
                !found ==> forall|j: int| 0 <= j < self.files.len() ==> self.files@[j].0@ != name@,
            decreases self.files.len() - k,
        {
            if self.files[k].0 == name {
                found = true;
                break;
            }
            k = k + 1;
        }
        let mut files: Vec<(String, GistFile)> = Vec::new();
        std::mem::swap(&mut files, &mut self.files);
        if found {
            proof {
                assert(old_view.names()[k as int] == name@);
                assert(old_view.names().contains(name@));
                let idx = old_view.names().index_of(name@);
                assert(old_view.names()[idx] == name@);
                assert(idx == k as int);
            }
            files.set(k, (name, file));
        } else {
            proof {
                assert forall|j: int| 0 <= j < old_view.names().len() implies old_view.names()[j] != name@ by {
                    assert(old_view.names()[j] == files@[j].0@);
                }
            }
            files.push((name, file));
        }
        self.files = files;
        assert(self@.entries =~= inserted(old_view, name@, file@).entries);
        proof {
            use_type_invariant(&*self);
            assert forall|i: int, j: int|
                0 <= i < self@.names().len() && 0 <= j < self@.names().len() && i != j
                implies self@.names()[i] != self@.names()[j] by {
                if i < j {
                    assert(self@.names()[i] == self.files@[i].0@);
                    assert(self@.names()[j] == self.files@[j].0@);
                } else {
                    assert(self@.names()[i] == self.files@[i].0@);
                    assert(self@.names()[j] == self.files@[j].0@);
                }
            }
        }
    }
}

/// GitHub's reply to a gist request: the gist, or a message saying why
/// there is none.
#[derive(Debug)]
pub enum GistResponse {
    Success(GistFiles),
    NotFound { message: String },
}

/// A reply to a gist request as a mathematical value.
pub enum GistResponseView {
    Success(GistFilesView),
    NotFound(Seq<char>),
}

impl View for GistResponse {
    type V = GistResponseView;

    open spec fn view(&self) -> GistResponseView {
        match self {
            GistResponse::Success(g) => GistResponseView::Success(g@),
            GistResponse::NotFound { message } => GistResponseView::NotFound(message@),
        }
    }
}

/// The one-line description of a reply: for a gist its id and its file
/// names joined by `/`, otherwise GitHub's message.
pub open spec fn describe_spec(r: GistResponseView) -> Seq<char> {
    match r {
        GistResponseView::Success(g) => "gist id: ["@ + g.id + "] file name: ["@ + join(
            g.names(),
            "/"@,
        ) + "]"@,
        GistResponseView::NotFound(message) => message,
    }
}

/// True when `part` stands whole somewhere in `text`.
pub open spec fn occurs_in(part: Seq<char>, text: Seq<char>) -> bool {
    exists|k: int|
        0 <= k && k + part.len() <= text.len() && #[trigger] text.subrange(k, k + part.len())
            == part
}

/// The description of a gist names its id and every one of its files: it
/// starts with `gist id: [`, the id and `] file name: [`, ends with `]`,
/// and each file name stands in it whole; for a gist of one file it is
/// exactly `gist id: [<id>] file name: [<name>]`.  A missing gist is
/// described by GitHub's message.
pub proof fn lemma_describe_names_every_file(g: GistFilesView, message: Seq<char>)
    ensures
        describe_spec(GistResponseView::Success(g)).take(
            ("gist id: ["@ + g.id + "] file name: ["@).len() as int,
        ) == "gist id: ["@ + g.id + "] file name: ["@,
        describe_spec(GistResponseView::Success(g)).last() == ']',
        forall|i: int|
            0 <= i < g.names().len() ==> occurs_in(
                #[trigger] g.names()[i],
                describe_spec(GistResponseView::Success(g)),
            ),
        g.names().len() == 1 ==> describe_spec(GistResponseView::Success(g)) == "gist id: ["@
            + g.id + "] file name: ["@ + g.names()[0] + "]"@,
        describe_spec(GistResponseView::NotFound(message)) == message,
{
    reveal_strlit("]");
    let pre = "gist id: ["@ + g.id + "] file name: ["@;
    let names = g.names();
    let joined = join(names, "/"@);
    let text = describe_spec(GistResponseView::Success(g));
    assert(text == pre + joined + "]"@);
    assert(text.take(pre.len() as int) =~= pre);
    assert forall|i: int| 0 <= i < names.len() implies occurs_in(#[trigger] names[i], text) by {
        lemma_join_contains_part(names, "/"@, i);
        let k = choose|k: int|
            0 <= k && k + names[i].len() <= joined.len() && #[trigger] joined.subrange(
                k,
                k + names[i].len(),
            ) == names[i];
        let w: int = pre.len() + k;
        assert(text.subrange(w, w + names[i].len()) =~= joined.subrange(k, k + names[i].len()));
    }
    if names.len() == 1 {
        assert(names =~= seq![names[0]]);
        lemma_join_single(names[0], "/"@);
    }
}

impl GistResponse {
    /// The one-line description of the reply that the daemon logs; a
    /// gist's file names appear in it once each.
    pub fn describe(&self) -> (text: String)
        ensures
            text@ == describe_spec(self@),
            self@ matches GistResponseView::Success(g) ==> g.names().no_duplicates(),
            self@ matches GistResponseView::Success(g) ==> text@ == "gist id: ["@ + g.id
                + "] file name: ["@ + join(g.names(), "/"@) + "]"@,
            self@ matches GistResponseView::NotFound(message) ==> text@ == message,
    {
        match self {
            GistResponse::Success(g) => {
                let mut text = "gist id: [".to_owned();
                text.append(g.id());
                text.append("] file name: [");
                text.append(join_strings(&g.file_names(), "/").as_str());
                text.append("]");
                text
            },
            GistResponse::NotFound { message } => message.clone(),
        }
    }
}

/// The content of one file in a gist request.
#[derive(Debug, PartialEq, Eq)]
pub struct Content {
    pub content: String,
}

/// The body of a request that creates or updates a gist.
#[derive(Debug, PartialEq, Eq)]
pub struct CreateGist {
    pub description: String,
    pub public: bool,
    pub files: Vec<(String, Content)>,
}

/// The body of a gist request as a mathematical value.
pub struct CreateGistView {
    pub description: Seq<char>,
    pub public: bool,
    pub files: Seq<(Seq<char>, Seq<char>)>,
}

impl View for CreateGist {
    type V = CreateGistView;

    open spec fn view(&self) -> CreateGistView {
        CreateGistView {
            description: self.description@,
            public: self.public,
            files: self.files@.map_values(|f: (String, Content)| (f.0@, f.1.content@)),
        }
    }
}

/// The HTTP method of a gist request.
#[derive(Debug, Clone, Copy, PartialEq, Eq, Structural)]
pub enum HttpMethod {
    Get,
    Post,
    Patch,
}

/// A request to the gist API: method, URL and, for writes, the body.
#[derive(Debug, PartialEq, Eq)]
pub struct GistRequest {
    pub method: HttpMethod,
    pub url: String,
    pub body: Option<CreateGist>,
}

/// A gist request as a mathematical value.
pub struct GistRequestView {
    pub method: HttpMethod,
    pub url: Seq<char>,
    pub body: Option<CreateGistView>,
}

impl View for GistRequest {
    type V = GistRequestView;

    open spec fn view(&self) -> GistRequestView {
        GistRequestView {
            method: self.method,
            url: self.url@,
            body: match self.body {
                Some(b) => Some(b@),
                None => None,
            },
        }
    }
}

/// A private gist with the given description holding one file: the file at
/// `path`, stored under its last path component.
pub open spec fn gist_body(description: Seq<char>, path: Seq<char>, content: Seq<char>) -> CreateGistView {
    CreateGistView {
        description,
        public: false,
        files: seq![(gist_file_name(path), content)],
    }
}

/// A gist request body holds exactly one file: it is stored under the
/// gist file name of the path and carries the given content unchanged;
/// the gist is private and has the given description.
pub proof fn lemma_gist_body_carries_content(
    description: Seq<char>,
    path: Seq<char>,
    content: Seq<char>,
)
    ensures
        gist_body(description, path, content).files.len() == 1,
        gist_body(description, path, content).files[0].1 == content,
        gist_body(description, path, content).files[0].0 == gist_file_name(path),
        gist_body(description, path, content).description == description,
        !gist_body(description, path, content).public,
{
}

/// The body of a private gist with the given description holding the file
/// at `path` under its last path component.
fn private_gist(description: &str, path: String, content: String) -> (body: CreateGist)
    ensures
        body@ == gist_body(description@, path@, content@),
        body@ == (CreateGistView {
            description: description@,
            public: false,
            files: seq![(gist_file_name(path@), content@)],
        }),
{
    let mut files: Vec<(String, Content)> = Vec::new();
    files.push((path_to_file_name(path), Content { content }));
    let body = CreateGist { description: description.to_owned(), public: false, files };
    assert(body@.files =~= seq![(gist_file_name(path@), content@)]);
    body
}

/// The request that creates a private gist holding the file at
/// `path_to_file` with the given content.
pub fn create_gist_request(path_to_file: String, content: String) -> (r: GistRequest)
    ensures
        r@ == (GistRequestView {
            method: HttpMethod::Post,
            url: gists_url_spec(),
            body: Some(gist_body(NEW_GIST_DESCRIPTION@, path_to_file@, content@)),
        }),
        r@.url == "https://api.github.com/gists"@,
        r@.body == Some(
            CreateGistView {
                description: Seq::<char>::empty(),
                public: false,
                files: seq![(gist_file_name(path_to_file@), content@)],
            },
        ),
{
    proof {
        reveal_strlit("");
        reveal_strlit("https://api.github.com");
        reveal_strlit("/gists");
        reveal_strlit("https://api.github.com/gists");
        assert(gists_url_spec() =~= "https://api.github.com/gists"@);
        assert(NEW_GIST_DESCRIPTION@ =~= Seq::<char>::empty());
    }
    GistRequest {
        method: HttpMethod::Post,
        url: gists_url(),
        body: Some(private_gist(NEW_GIST_DESCRIPTION, path_to_file, content)),
    }
}

/// The request that replaces the file at `file_name` in the gist `gist_id`
/// with the given contents.
pub fn modify_gist_request(gist_id: &str, file_name: String, contents: String) -> (r: GistRequest)
    ensures
        r@ == (GistRequestView {
            method: HttpMethod::Patch,
            url: gist_url_spec(gist_id@),
            body: Some(gist_body(UPDATE_GIST_DESCRIPTION@, file_name@, contents@)),
        }),
        r@.url == "https://api.github.com/gists/"@ + gist_id@,
        r@.body == Some(
            CreateGistView {
                description: "this is update test"@,
                public: false,
                files: seq![(gist_file_name(file_name@), contents@)],
            },
        ),
{
    GistRequest {
        method: HttpMethod::Patch,
        url: gist_url(gist_id),
        body: Some(private_gist(UPDATE_GIST_DESCRIPTION, file_name, contents)),
    }
}

/// The request that fetches the gist `gist_id`.
pub fn get_gist_request(gist_id: &str) -> (r: GistRequest)
    ensures
        r@ == (GistRequestView { method: HttpMethod::Get, url: gist_url_spec(gist_id@), body: None }),
        r@.url == "https://api.github.com/gists/"@ + gist_id@,
{
    GistRequest { method: HttpMethod::Get, url: gist_url(gist_id), body: None }
}

} // verus!
