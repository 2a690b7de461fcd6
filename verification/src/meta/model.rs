//! People, root folders and per-file metadata.
//!
//! Both collections hand out their identifiers in increasing order and key
//! their entries by the identifier's number.

use crate::meta::path::{is_prefix, AbsolutePath};
use std::collections::hash_map::Entry;
use std::collections::{HashMap, HashSet};
use vstd::prelude::*;

verus! {

broadcast use vstd::std_specs::hash::group_hash_axioms;

/// The identifier of a person.
#[derive(Debug, PartialEq, Eq, Hash, Copy, Clone)]
pub struct PersonId(pub usize);

/// A person that files can be tagged with.
#[derive(Debug)]
pub struct Person {
    pub name: String,
    pub pronouns: Option<String>,
    pub comment: Option<String>,
    pub tags: HashMap<String, Vec<String>>,
}

/// The people known to the organiser, by identifier.
#[derive(Debug)]
pub struct PersonCollection {
    /// The identifier that the next new person gets.
    pub next_id: PersonId,
    /// The people, by the number of their identifier.
    pub persons: HashMap<usize, Person>,
    /// Tags that have been used for a person before. A tag in this set need
    /// not be set on any person at present.
    pub used_tags: HashSet<String>,
}

/// The identifier of a root folder.
#[derive(Debug, PartialEq, Eq, Hash, Copy, Clone)]
pub struct RootFolderId(pub usize);

/// The folders whose files are organised, by identifier.
pub struct RootFolderCollection {
    /// The identifier that the next new root folder gets.
    pub next_id: RootFolderId,
    /// The root folders, by the number of their identifier.
    pub root_folders: HashMap<usize, AbsolutePath>,
    /// Tags that have been used for a file before.
    pub file_tags: HashSet<String>,
}

/// What is recorded about one file.
#[derive(Debug)]
pub struct MetaFile {
    pub hash: Option<String>,
    pub persons: HashSet<usize>,
    pub tags: HashMap<String, Vec<String>>,
}

impl Person {
    /// A person with a name and pronouns, without comment or tags.
    pub fn new(name: String, pronouns: Option<String>) -> (person: Person)
        ensures
            person.name == name,
            person.pronouns == pronouns,
            person.comment is None,
            person.tags@ == Map::<String, Vec<String>>::empty(),
    {
        Person { name, pronouns, comment: None, tags: HashMap::with_capacity(0) }
    }
}

impl MetaFile {
    /// The record of a file about which nothing is known yet.
    pub fn new() -> (file: MetaFile)
        ensures
            file.hash is None,
            file.persons@ == Set::<usize>::empty(),
            file.tags@ == Map::<String, Vec<String>>::empty(),
    {
        MetaFile { hash: None, persons: HashSet::with_capacity(0), tags: HashMap::with_capacity(0) }
    }
}

impl Default for PersonCollection {
    /// An empty collection that starts numbering at 0.
    fn default() -> (collection: PersonCollection)
        ensures
            collection.wf(),
            collection.next_id.0 == 0,
            collection.persons@ == Map::<usize, Person>::empty(),
            collection.used_tags@ == Set::<String>::empty(),
    {
        PersonCollection {
            next_id: PersonId(0),
            persons: HashMap::new(),
            used_tags: HashSet::new(),
        }
    }
}

impl PersonCollection {
    /// Every identifier in use was handed out before: the next one is new.
    pub open spec fn wf(&self) -> bool {
        forall|k: usize| self.persons@.contains_key(k) ==> k < self.next_id.0
    }

    /// All people of the collection.
    pub fn entries(&self) -> (entries: &HashMap<usize, Person>)
        ensures
            entries@ == self.persons@,
    {
        &self.persons
    }

    /// Adds a person under the next identifier and returns the identifier.
    pub fn add(&mut self, person: Person) -> (id: PersonId)
        requires
            old(self).next_id.0 < usize::MAX,
        ensures
            id.0 == old(self).next_id.0,
            final(self).next_id.0 == old(self).next_id.0 + 1,
            final(self).persons@ == old(self).persons@.insert(id.0, person),
            final(self).used_tags == old(self).used_tags,
            old(self).wf() ==> final(self).wf() && !old(self).persons@.contains_key(id.0),
    {
        let id = self.next_id;
        self.persons.insert(id.0, person);
        self.next_id = PersonId(id.0 + 1);
        id
    }

    /// Takes the person with the given identifier out of the collection.
    pub fn remove(&mut self, id: &PersonId) -> (removed: Option<Person>)
        ensures
            removed == old(self).persons@.get(id.0),
            final(self).persons@ == old(self).persons@.remove(id.0),
            final(self).next_id.0 == old(self).next_id.0,
            final(self).used_tags == old(self).used_tags,
            old(self).wf() ==> final(self).wf(),
    {
        self.persons.remove(&id.0)
    }

    /// The person with the given identifier.
    pub fn person(&self, id: &PersonId) -> (person: Option<&Person>)
        ensures
            match person {
                Some(p) => self.persons@.contains_key(id.0) && *p == self.persons@[id.0],
                None => !self.persons@.contains_key(id.0),
            },
    {
        self.persons.get(&id.0)
    }

    /// The person with the given identifier, to be changed in place.
    pub fn person_mut(&mut self, id: &mut PersonId) -> (person: Option<&mut Person>)
        ensures
            *final(id) == *old(id),
            match person {
                Some(p) => {
                    &&& old(self).persons@.contains_key(old(id).0)
                    &&& *p == old(self).persons@[old(id).0]
                    &&& final(self).persons@ == old(self).persons@.insert(
                        old(id).0,
                        *final(p),
                    )
                },
                None => {
                    &&& !old(self).persons@.contains_key(old(id).0)
                    &&& final(self).persons@ == old(self).persons@
                },
            },
            final(self).next_id.0 == old(self).next_id.0,
            final(self).used_tags == old(self).used_tags,
    {
        match self.persons.entry(id.0) {
            Entry::Occupied(entry) => Some(entry.into_mut()),
            Entry::Vacant(_) => None,
        }
    }
}

impl Default for RootFolderCollection {
    /// An empty collection that starts numbering at 0.
    fn default() -> (collection: RootFolderCollection)
        ensures
            collection.wf(),
            collection.next_id.0 == 0,
            collection.root_folders@ == Map::<usize, AbsolutePath>::empty(),
            collection.file_tags@ == Set::<String>::empty(),
    {
        RootFolderCollection {
            next_id: RootFolderId(0),
            root_folders: HashMap::new(),
            file_tags: HashSet::new(),
        }
    }
}

impl RootFolderCollection {
    /// Every identifier in use was handed out before: the next one is new.
    pub open spec fn wf(&self) -> bool {
        forall|k: usize| self.root_folders@.contains_key(k) ==> k < self.next_id.0
    }

    /// Whether `path` is one of the root folders or lies in one.
    pub open spec fn covers(&self, path: Seq<Seq<char>>) -> bool {
        exists|k: usize| #[trigger]
            self.root_folders@.contains_key(k) && is_prefix(self.root_folders@[k]@, path)
    }

    /// All root folders of the collection.
    pub fn entries(&self) -> (entries: &HashMap<usize, AbsolutePath>)
        ensures
            entries@ == self.root_folders@,
    {
        &self.root_folders
    }

    /// The identifier of a root folder that `path` is or lies in. Where there
    /// is none, `path` becomes a root folder under the next identifier.
    pub fn get_or_create(&mut self, path: AbsolutePath) -> (id: RootFolderId)
        requires
            !old(self).covers(path@) ==> old(self).next_id.0 < usize::MAX,
        ensures
            old(self).covers(path@) ==> {
                &&& old(self).root_folders@.contains_key(id.0)
                &&& is_prefix(old(self).root_folders@[id.0]@, path@)
                &&& final(self).root_folders@ == old(self).root_folders@
                &&& final(self).next_id == old(self).next_id
            },
            !old(self).covers(path@) ==> {
                &&& id == old(self).next_id
                &&& final(self).root_folders@ == old(self).root_folders@.insert(id.0, path)
                &&& final(self).next_id.0 == old(self).next_id.0 + 1
            },
            final(self).file_tags == old(self).file_tags,
            old(self).wf() ==> final(self).wf(),
    {
        for entry in it: self.root_folders.iter()
            invariant
                forall|l: int|
                    0 <= l < it.index() ==> !is_prefix((#[trigger] it.seq()[l]).1@, path@),
        {
            if path.starts_with(entry.1) {
                return RootFolderId(*entry.0);
            }
        }
        let id = self.next_id;
        self.root_folders.insert(id.0, path);
        self.next_id = RootFolderId(id.0 + 1);
        id
    }

    /// Takes the root folder with the given identifier out of the collection.
    pub fn remove(&mut self, id: &RootFolderId) -> (removed: Option<AbsolutePath>)
        ensures
            removed == old(self).root_folders@.get(id.0),
            final(self).root_folders@ == old(self).root_folders@.remove(id.0),
            final(self).next_id == old(self).next_id,
            final(self).file_tags == old(self).file_tags,
            old(self).wf() ==> final(self).wf(),
    {
        self.root_folders.remove(&id.0)
    }

    /// The root folder with the given identifier.
    pub fn root_folder(&self, id: &RootFolderId) -> (folder: Option<&AbsolutePath>)
        ensures
            match folder {
                Some(f) => self.root_folders@.contains_key(id.0) && *f == self.root_folders@[id.0],
                None => !self.root_folders@.contains_key(id.0),
            },
    {
        self.root_folders.get(&id.0)
    }

    /// The root folder with the given identifier, to be changed in place.
    pub fn root_folder_mut(&mut self, id: &RootFolderId) -> (folder: Option<&mut AbsolutePath>)
        ensures
            match folder {
                Some(f) => {
                    &&& old(self).root_folders@.contains_key(id.0)
                    &&& *f == old(self).root_folders@[id.0]
                    &&& final(self).root_folders@ == old(self).root_folders@.insert(
                        id.0,
                        *final(f),
                    )
                },
                None => {
                    &&& !old(self).root_folders@.contains_key(id.0)
                    &&& final(self).root_folders@ == old(self).root_folders@
                },
            },
            final(self).next_id == old(self).next_id,
            final(self).file_tags == old(self).file_tags,
    {
        match self.root_folders.entry(id.0) {
            Entry::Occupied(entry) => Some(entry.into_mut()),
            Entry::Vacant(_) => None,
        }
    }
}

} // verus!
