//! The files the daemon keeps in sync, each paired with the gist that holds
//! its copy.

use vstd::prelude::*;

verus! {

/// A synced file: the local path and the id of the gist that mirrors it.
#[derive(Debug, Clone, PartialEq, Eq)]
pub struct WatchFile {
    gist_id: String,
    file_path: String,
}

/// A synced file as a mathematical value.
pub struct WatchFileView {
    pub gist_id: Seq<char>,
    pub file_path: Seq<char>,
}

impl View for WatchFile {
    type V = WatchFileView;

    closed spec fn view(&self) -> WatchFileView {
        WatchFileView { gist_id: self.gist_id@, file_path: self.file_path@ }
    }
}

impl WatchFile {
    /// The file at `file_path`, mirrored by the gist `gist_id`.
    pub fn new(gist_id: String, file_path: String) -> (w: Self)
        ensures
            w@ == (WatchFileView { gist_id: gist_id@, file_path: file_path@ }),
    {
        WatchFile { gist_id, file_path }
    }

    /// The id of the gist that mirrors the file.
    pub fn gist_id(&self) -> (id: &str)
        ensures
            id@ == self@.gist_id,
    {
        self.gist_id.as_str()
    }

    /// The local path of the file.
    pub fn file_path(&self) -> (path: &str)
        ensures
            path@ == self@.file_path,
    {
        self.file_path.as_str()
    }
}

/// The daemon's list of synced files, as read from its settings file when
/// the daemon starts.
#[derive(Debug)]
pub struct FileHandler {
    path_to_setting: String,
    files: Vec<WatchFile>,
}

/// The list of synced files as a mathematical value.
pub struct FileHandlerView {
    pub path_to_setting: Seq<char>,
    pub files: Seq<WatchFileView>,
}

impl View for FileHandler {
    type V = FileHandlerView;

    closed spec fn view(&self) -> FileHandlerView {
        FileHandlerView {
            path_to_setting: self.path_to_setting@,
            files: self.files@.map_values(|w: WatchFile| w@),
        }
    }
}

/// The gist ids of the given files, in the same order.
pub open spec fn gist_ids(files: Seq<WatchFileView>) -> Seq<Seq<char>> {
    files.map_values(|w: WatchFileView| w.gist_id)
}

impl FileHandler {
    /// The handler of the files listed in the settings file at
    /// `path_to_setting`, whose contents were read as `files`.
    pub fn new(path_to_setting: String, files: Vec<WatchFile>) -> (h: Self)
        ensures
            h@.path_to_setting == path_to_setting@,
            h@.files == files@.map_values(|w: WatchFile| w@),
    {
        FileHandler { path_to_setting, files }
    }

    /// The path of the settings file.
    pub fn path_to_setting(&self) -> (p: &str)
        ensures
            p@ == self@.path_to_setting,
    {
        self.path_to_setting.as_str()
    }

    /// The synced files, in the order of the settings file.
    pub fn files(&self) -> (f: &Vec<WatchFile>)
        ensures
            f@.map_values(|w: WatchFile| w@) == self@.files,
    {
        &self.files
    }

    /// The gist id of every synced file, in the order of the settings file.
    pub fn get_file_ids(&self) -> (ids: Vec<String>)
        ensures
            ids@.map_values(|s: String| s@) == gist_ids(self@.files),
            ids@.len() == self@.files.len(),
            forall|i: int| 0 <= i < ids@.len() ==> #[trigger] ids@[i]@ == self@.files[i].gist_id,
    {
        let mut ids: Vec<String> = Vec::new();
        let mut i: usize = 0;
        while i < self.files.len()
            invariant
                i <= self.files.len(),
                ids@.len() == i,
                forall|j: int| 0 <= j < i ==> #[trigger] ids@[j]@ == self.files@[j]@.gist_id,
            decreases self.files.len() - i,
        {
            ids.push(self.files[i].gist_id().to_owned());
            i = i + 1;
        }
        assert(ids@.map_values(|s: String| s@) =~= gist_ids(self@.files));
        ids
    }
}

/// The list to write back to the settings file after a file was added:
/// the saved list with the new file at its end.
pub fn settings_after_add(saved: Vec<WatchFile>, added: WatchFile) -> (r: Vec<WatchFile>)
    ensures
        r@.map_values(|w: WatchFile| w@) == saved@.map_values(|w: WatchFile| w@).push(added@),
{
    let mut r = saved;
    r.push(added);
    assert(r@.map_values(|w: WatchFile| w@) =~= saved@.map_values(|w: WatchFile| w@).push(added@));
    r
}

} // verus!
