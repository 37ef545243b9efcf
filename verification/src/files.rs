use crate::app_path::AbsFilePath;
use vstd::prelude::*;

verus! {

/// What processing `include` statements needs from the outside world:
/// reading a file's text, and finding the home directory. Nothing is
/// assumed of either answer; the pipeline states what holds of every
/// outcome.
pub trait FileSource {
    /// The contents of the file at `path`, or None when it cannot be read.
    fn read_file(&mut self, path: &AbsFilePath) -> Option<String>;

    /// The home directory as text, or None when there is none.
    fn home_dir(&mut self) -> Option<String>;
}

/// An in-memory file source: a fixed table of files and an optional home
/// directory text.
pub struct MemFileSource {
    files: Vec<(AbsFilePath, String)>,
    home: Option<String>,
}

impl MemFileSource {
    pub fn new() -> Self {
        MemFileSource { files: Vec::new(), home: None }
    }

    pub fn set_home(&mut self, home: String) {
        self.home = Some(home);
    }

    pub fn add_file(&mut self, path: AbsFilePath, text: String) {
        self.files.push((path, text));
    }
}

impl FileSource for MemFileSource {
    fn read_file(&mut self, path: &AbsFilePath) -> Option<String> {
        let mut i: usize = 0;
        while i < self.files.len()
            decreases self.files.len() - i,
        {
            if self.files[i].0.same_file(path) {
                return Some(self.files[i].1.clone());
            }
            i = i + 1;
        }
        None
    }

    fn home_dir(&mut self) -> Option<String> {
        match &self.home {
            Some(h) => Some(h.clone()),
            None => None,
        }
    }
}

} // verus!
