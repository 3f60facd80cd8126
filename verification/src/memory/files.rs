//! The files of a store, held as a table from key to content.
use vstd::prelude::*;

use crate::table::Table;
use crate::text::labelled;

verus! {

/// The contents of files by their keys.
pub type Files = Map<Seq<char>, Seq<char>>;

/// Why a file operation was refused.
#[derive(Debug, PartialEq)]
pub enum FsError {
    AlreadyExists(String),
}

/// The message of a refusal to write over a file.
pub open spec fn exists_message(key: Seq<char>) -> Seq<char> {
    "file already exists: "@ + key
}

impl FsError {
    /// The key that the operation was about.
    pub open spec fn key(&self) -> Seq<char> {
        match self {
            FsError::AlreadyExists(key) => key@,
        }
    }

    /// The refusal as a sentence for people.
    pub fn message(&self) -> (r: String)
        ensures
            r@ == exists_message(self.key()),
    {
        match self {
            FsError::AlreadyExists(key) => labelled("file already exists: ", key.as_str()),
        }
    }
}

/// Files held in memory. A file is created once; to overwrite it, delete it first.
#[derive(Debug)]
pub struct MemoryFs {
    files: Table<String>,
}

impl View for MemoryFs {
    type V = Files;

    closed spec fn view(&self) -> Files {
        self.files@.map_values(|content: String| content@)
    }
}

impl MemoryFs {
    /// No files.
    pub fn new() -> (r: MemoryFs)
        ensures
            r@ == Files::empty(),
    {
        let r = MemoryFs { files: Table::new() };
        assert(r@ =~= Map::empty());
        r
    }

    /// The content of a file.
    pub fn read(&self, key: &str) -> (r: Option<&String>)
        ensures
            match r {
                Some(content) => self@.contains_key(key@) && content@ == self@[key@],
                None => !self@.contains_key(key@),
            },
    {
        self.files.get(key)
    }

    /// Creates a file.
    pub fn write(&mut self, key: &str, content: &str) -> (r: Result<(), FsError>)
        ensures
            match r {
                Ok(_) => !old(self)@.contains_key(key@) && final(self)@ == old(self)@.insert(
                    key@,
                    content@,
                ),
                Err(error) => old(self)@.contains_key(key@) && error.key() == key@ && final(self)@
                    == old(self)@,
            },
    {
        let ghost before = self@;
        if self.files.has(key) {
            return Err(FsError::AlreadyExists(key.to_owned()));
        }
        self.files.insert(key, content.to_owned());
        assert(self@ =~= before.insert(key@, content@));
        Ok(())
    }

    /// Deletes a file, where there is one.
    pub fn delete(&mut self, key: &str)
        ensures
            final(self)@ == old(self)@.remove(key@),
    {
        let ghost before = self@;
        let _ = self.files.remove(key);
        assert(self@ =~= before.remove(key@));
    }
}

} // verus!
