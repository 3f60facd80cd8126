//! Whole objects by key, written only where they are still what the writer saw.
use std::collections::hash_map::DefaultHasher;
use std::hash::Hasher;

use vstd::prelude::*;
use vstd::std_specs::hash::DefaultHasherAdditionalSpecFns;
use vstd::string::StringSliceAdditionalSpecFns;
use vstd::utf8::encode_utf8;

use crate::memory::files::Files;
use crate::table::Table;
use crate::text::{hex_of, hex_padded, labelled, same};

verus! {

/// What an object looked like when it was read.
#[derive(Debug, PartialEq, Eq)]
pub struct MemoryRevision(String);

impl View for MemoryRevision {
    type V = Seq<char>;

    closed spec fn view(&self) -> Seq<char> {
        self.0@
    }
}

impl DeepView for MemoryRevision {
    type V = Seq<char>;

    open spec fn deep_view(&self) -> Seq<char> {
        self@
    }
}

impl Clone for MemoryRevision {
    fn clone(&self) -> (r: MemoryRevision)
        ensures
            r@ == self@,
    {
        MemoryRevision(self.0.clone())
    }
}

impl MemoryRevision {
    /// A revision of the given value.
    pub fn new(value: String) -> (r: MemoryRevision)
        ensures
            r@ == value@,
    {
        MemoryRevision(value)
    }

    /// The value of the revision.
    pub fn as_str(&self) -> (r: &str)
        ensures
            r@ == self@,
    {
        self.0.as_str()
    }
}

/// An object and its revision.
#[derive(Debug, PartialEq, Eq)]
pub struct MemoryObject {
    pub content: String,
    pub revision: MemoryRevision,
}

/// Why a read or a write failed.
#[derive(Debug, PartialEq)]
pub enum MemoryStorageError {
    Io(String),
    Conflict { key: String },
}

impl MemoryStorageError {
    /// The message of the error.
    pub open spec fn text(&self) -> Seq<char> {
        match *self {
            MemoryStorageError::Io(m) => "storage io error: "@ + m@,
            MemoryStorageError::Conflict { key } => "write conflict for "@ + key@,
        }
    }

    /// The error as a sentence for people.
    pub fn message(&self) -> (r: String)
        ensures
            r@ == self.text(),
    {
        match self {
            MemoryStorageError::Io(m) => labelled("storage io error: ", m.as_str()),
            MemoryStorageError::Conflict { key } => labelled(
                "write conflict for ",
                key.as_str(),
            ),
        }
    }
}

/// The bytes that are hashed for a content: its own, and one that ends it.
pub open spec fn hashed_writes(content: Seq<char>) -> Seq<Seq<u8>> {
    Seq::empty().push(encode_utf8(content)).push(Seq::empty().push(0xffu8))
}

/// The revision of a content: the hash of the content in sixteen hexadecimal digits.
pub open spec fn revision_of(content: Seq<char>) -> Seq<char> {
    hex_padded(DefaultHasher::spec_finish(hashed_writes(content)) as nat, 16, false)
}

/// The revision of a content.
pub fn revision_for(content: &str) -> (r: MemoryRevision)
    ensures
        r@ == revision_of(content@),
{
    let mut h = DefaultHasher::new();
    h.write(content.as_bytes());
    let mut end: Vec<u8> = Vec::new();
    end.push(0xff);
    h.write(end.as_slice());
    proof {
        assert(h@ =~= hashed_writes(content@));
    }
    MemoryRevision::new(hex_of(h.finish(), 16, false))
}

/// Whether an object that holds `current`, or that is missing, may be written by someone
/// who saw `expected`, or nothing.
pub open spec fn may_write(current: Option<Seq<char>>, expected: Option<Seq<char>>) -> bool {
    match current {
        Some(content) => expected == Some(revision_of(content)),
        None => expected is None,
    }
}

/// Decides whether an object may be written: created where it is missing and nothing was
/// expected, replaced where it is still at the expected revision.
pub fn check_revision(
    key: &str,
    current: Option<&str>,
    expected: Option<&MemoryRevision>,
) -> (r: Result<(), MemoryStorageError>)
    ensures
        match r {
            Ok(_) => may_write(current.deep_view(), expected.deep_view()),
            Err(error) => !may_write(current.deep_view(), expected.deep_view())
                && (error matches MemoryStorageError::Conflict { key: k } && k@ == key@),
        },
{
    let fits = match current {
        Some(content) => match expected {
            Some(revision) => {
                let now = revision_for(content);
                same(revision.as_str(), now.as_str())
            },
            None => false,
        },
        None => expected.is_none(),
    };
    if fits {
        Ok(())
    } else {
        Err(MemoryStorageError::Conflict { key: key.to_owned() })
    }
}

/// A store of whole objects by key.
pub trait MemoryStorage {
    /// The objects of the store.
    spec fn objects(&self) -> Files;

    /// Reads an object; `None` where there is none.
    fn read(&self, key: &str) -> (r: Result<Option<MemoryObject>, MemoryStorageError>)
        ensures
            r matches Ok(found) ==> match found {
                Some(object) => self.objects().contains_key(key@) && object.content@
                    == self.objects()[key@] && object.revision@ == revision_of(
                    self.objects()[key@],
                ),
                None => !self.objects().contains_key(key@),
            },
    ;

    /// Writes an object, where it is still what the writer expects: nothing at all for
    /// `None`, else the given revision.
    fn write(&mut self, key: &str, content: &str, expected: Option<&MemoryRevision>) -> (r: Result<
        MemoryRevision,
        MemoryStorageError,
    >)
        ensures
            match r {
                Ok(revision) => {
                    &&& may_write(object_at(old(self).objects(), key@), expected.deep_view())
                    &&& final(self).objects() == old(self).objects().insert(key@, content@)
                    &&& revision@ == revision_of(content@)
                },
                Err(_) => final(self).objects() == old(self).objects(),
            },
            !may_write(object_at(old(self).objects(), key@), expected.deep_view()) ==> r is Err,
    ;
}

/// The object under `key`, where there is one.
pub open spec fn object_at(objects: Files, key: Seq<char>) -> Option<Seq<char>> {
    if objects.contains_key(key) {
        Some(objects[key])
    } else {
        None
    }
}

/// A store in memory.
#[derive(Debug)]
pub struct MemStorage {
    files: Table<String>,
}

impl MemStorage {
    /// An empty store.
    pub fn new() -> (r: MemStorage)
        ensures
            r.objects() == Files::empty(),
    {
        let r = MemStorage { files: Table::new() };
        assert(r.objects() =~= Map::empty());
        r
    }
}

impl MemoryStorage for MemStorage {
    closed spec fn objects(&self) -> Files {
        self.files@.map_values(|content: String| content@)
    }

    fn read(&self, key: &str) -> (r: Result<Option<MemoryObject>, MemoryStorageError>)
        ensures
            r is Ok,
    {
        match self.files.get(key) {
            Some(content) => Ok(
                Some(
                    MemoryObject {
                        content: content.clone(),
                        revision: revision_for(content.as_str()),
                    },
                ),
            ),
            None => Ok(None),
        }
    }

    fn write(&mut self, key: &str, content: &str, expected: Option<&MemoryRevision>) -> (r: Result<
        MemoryRevision,
        MemoryStorageError,
    >)
        ensures
            r is Ok <==> may_write(object_at(old(self).objects(), key@), expected.deep_view()),
            r matches Err(error) ==> (error matches MemoryStorageError::Conflict { key: k } && k@
                == key@),
    {
        let ghost before = self.objects();
        let checked = match self.files.get(key) {
            Some(current) => check_revision(key, Some(current.as_str()), expected),
            None => check_revision(key, None, expected),
        };
        match checked {
            Ok(_) => {
                self.files.insert(key, content.to_owned());
                assert(self.objects() =~= before.insert(key@, content@));
                Ok(revision_for(content))
            },
            Err(error) => Err(error),
        }
    }
}

/// A write that rests on what was seen before someone else wrote is refused: once an
/// object was replaced by a content of another revision, the revision of the old content
/// does not open it any more.
pub proof fn stale_revisions_conflict(first: Seq<char>, second: Seq<char>)
    requires
        revision_of(first) != revision_of(second),
    ensures
        may_write(Some(first), Some(revision_of(first))),
        !may_write(Some(second), Some(revision_of(first))),
        !may_write(Some(second), None),
        may_write(Some(second), Some(revision_of(second))),
{
}

} // verus!
