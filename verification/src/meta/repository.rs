//! The metadata repository: people, root folders, and the folders whose file
//! records are held in memory.

use crate::meta::model::{MetaFile, PersonCollection, RootFolderCollection, RootFolderId};
use crate::meta::path::{is_prefix, AbsolutePath};
use vstd::prelude::*;

verus! {

/// Why a file cannot be found in the repository.
#[derive(Debug, Clone, Copy, PartialEq, Eq, Structural)]
pub enum Error {
    /// The given root folder does not exist, or the file is the root of the
    /// file system.
    InvalidRootFolder,
    /// The given file is not inside the given root folder.
    FileNotInRootFolder,
}

/// Where the record of a file is kept: the folder that holds the file, and
/// the file's name in it.
pub struct FileLocation {
    pub folder: AbsolutePath,
    pub file_name: String,
}

/// The record of one file of a folder.
pub struct FileEntry {
    pub name: String,
    pub meta: MetaFile,
}

/// The file records of one folder.
pub struct Folder {
    pub path: AbsolutePath,
    pub root_folder: RootFolderId,
    pub files: Vec<FileEntry>,
}

/// How a folder changes when the record of the file `name` is opened in it:
/// `file` is the record as it was found or made, and `changed` is the record
/// as it is left.
pub open spec fn opened(
    before: Folder,
    after: Folder,
    name: String,
    file: MetaFile,
    changed: MetaFile,
) -> bool {
    &&& after.path == before.path
    &&& after.root_folder == before.root_folder
    &&& before.has_file(name@) ==> exists|i: int|
        {
            &&& 0 <= i < before.files@.len()
            &&& (#[trigger] before.files@[i]).name@ == name@
            &&& file == before.files@[i].meta
            &&& after.files@ =~= before.files@.update(
                i,
                FileEntry { name: before.files@[i].name, meta: changed },
            )
        }
    &&& !before.has_file(name@) ==> {
        &&& file.hash is None
        &&& file.persons@ == Set::<usize>::empty()
        &&& file.tags@ == Map::<String, Vec<String>>::empty()
        &&& after.files@ =~= before.files@.push(FileEntry { name, meta: changed })
    }
}

impl Folder {
    /// No two records are for the same file.
    pub open spec fn wf(&self) -> bool {
        forall|i: int, j: int|
            0 <= i < j < self.files@.len() ==> (#[trigger] self.files@[i]).name@ != (
            #[trigger] self.files@[j]).name@
    }

    /// Whether the folder has a record for the file of the given name.
    pub open spec fn has_file(&self, name: Seq<char>) -> bool {
        exists|i: int| 0 <= i < self.files@.len() && (#[trigger] self.files@[i]).name@ == name
    }

    /// A folder without file records.
    pub fn new(path: AbsolutePath, root_folder: RootFolderId) -> (folder: Folder)
        ensures
            folder.path == path,
            folder.root_folder == root_folder,
            folder.files@.len() == 0,
            folder.wf(),
    {
        Folder { path, root_folder, files: Vec::new() }
    }

    /// The index of the record for the file of the given name.
    pub fn position(&self, name: &String) -> (found: Option<usize>)
        ensures
            found is Some <==> self.has_file(name@),
            found matches Some(i) ==> i < self.files@.len() && self.files@[i as int].name@ == name@,
    {
        let mut index: usize = 0;
        while index < self.files.len()
            invariant
                index <= self.files@.len(),
                forall|i: int| 0 <= i < index ==> (#[trigger] self.files@[i]).name@ != name@,
            decreases self.files@.len() - index,
        {
            if self.files[index].name == *name {
                return Some(index);
            }
            index += 1;
        }
        None
    }

    /// The record for the file of the given name, to be changed in place.
    /// Where there is none yet, an empty record is added for it.
    pub fn file_mut(&mut self, name: String) -> (file: &mut MetaFile)
        ensures
            opened(*old(self), *final(self), name, *file, *final(file)),
            old(self).wf() ==> final(self).wf(),
    {
        let index = match self.position(&name) {
            Some(index) => index,
            None => {
                self.files.push(FileEntry { name, meta: MetaFile::new() });
                self.files.len() - 1
            },
        };
        &mut self.files[index].meta
    }
}

/// The people, the root folders, and the folders whose records are loaded.
pub struct Repository {
    pub persons: PersonCollection,
    pub root_folders: RootFolderCollection,
    /// The folders whose records are held in memory. Not every folder is
    /// loaded when the repository is set up.
    pub folders: Vec<Folder>,
}

/// Where the record of the file `path` is kept, for a file that is to lie in
/// the root folder `root`.
pub open spec fn location_of(root: Option<AbsolutePath>, path: Seq<Seq<char>>) -> Result<
    (Seq<Seq<char>>, Seq<char>),
    Error,
> {
    match root {
        None => Err(Error::InvalidRootFolder),
        Some(root) => if !is_prefix(root@, path) {
            Err(Error::FileNotInRootFolder)
        } else if path.len() < 2 {
            Err(Error::InvalidRootFolder)
        } else {
            Ok((path.drop_last(), path.last()))
        },
    }
}

impl Repository {
    /// A repository of the given people and root folders, with no folder
    /// loaded.
    pub fn new(persons: PersonCollection, root_folders: RootFolderCollection) -> (repository:
        Repository)
        ensures
            repository.persons == persons,
            repository.root_folders == root_folders,
            repository.folders@.len() == 0,
    {
        Repository { persons, root_folders, folders: Vec::new() }
    }

    /// The people of the repository.
    pub fn persons(&self) -> (persons: &PersonCollection)
        ensures
            *persons == self.persons,
    {
        &self.persons
    }

    /// The people of the repository, to be changed in place.
    pub fn persons_mut(&mut self) -> (persons: &mut PersonCollection)
        ensures
            *persons == old(self).persons,
            final(self).persons == *final(persons),
            final(self).root_folders == old(self).root_folders,
            final(self).folders == old(self).folders,
    {
        &mut self.persons
    }

    /// The root folders of the repository.
    pub fn root_folders(&self) -> (root_folders: &RootFolderCollection)
        ensures
            *root_folders == self.root_folders,
    {
        &self.root_folders
    }

    /// The root folders of the repository, to be changed in place.
    pub fn root_folders_mut(&mut self) -> (root_folders: &mut RootFolderCollection)
        ensures
            *root_folders == old(self).root_folders,
            final(self).root_folders == *final(root_folders),
            final(self).persons == old(self).persons,
            final(self).folders == old(self).folders,
    {
        &mut self.root_folders
    }

    /// Finds where the record of the file at the absolute path `path` is
    /// kept, for a file of the given root folder.
    pub fn locate(&self, root_folder_id: &RootFolderId, path: &AbsolutePath) -> (location: Result<
        FileLocation,
        Error,
    >)
        requires
            path.wf(),
        ensures
            match location {
                Ok(found) => location_of(
                    self.root_folders.root_folders@.get(root_folder_id.0),
                    path@,
                ) == Ok::<_, Error>((found.folder@, found.file_name@)) && found.folder.wf(),
                Err(error) => location_of(
                    self.root_folders.root_folders@.get(root_folder_id.0),
                    path@,
                ) == Err::<(Seq<Seq<char>>, Seq<char>), _>(error),
            },
    {
        let root_folder = match self.root_folders.root_folder(root_folder_id) {
            Some(root_folder) => root_folder,
            None => {
                return Err(Error::InvalidRootFolder);
            },
        };
        if !path.starts_with(root_folder) {
            return Err(Error::FileNotInRootFolder);
        }
        match path.split() {
            Some((folder, file_name)) => Ok(FileLocation { folder, file_name }),
            None => Err(Error::InvalidRootFolder),
        }
    }

    /// Whether the records of the folder at `path` are loaded.
    pub open spec fn has_folder(&self, path: Seq<Seq<char>>) -> bool {
        exists|i: int| 0 <= i < self.folders@.len() && (#[trigger] self.folders@[i]).path@ == path
    }

    /// The index of the loaded folder at `path`.
    pub fn loaded_folder(&self, path: &AbsolutePath) -> (found: Option<usize>)
        ensures
            found is Some <==> self.has_folder(path@),
            found matches Some(i) ==> i < self.folders@.len() && self.folders@[i as int].path@
                == path@,
    {
        let mut index: usize = 0;
        while index < self.folders.len()
            invariant
                index <= self.folders@.len(),
                forall|i: int| 0 <= i < index ==> (#[trigger] self.folders@[i]).path@ != path@,
            decreases self.folders@.len() - index,
        {
            let candidate = &self.folders[index].path;
            if candidate.starts_with(path) && path.starts_with(candidate) {
                assert(candidate@ =~= path@);
                return Some(index);
            }
            index += 1;
        }
        None
    }

    /// The record of the file at `location`, to be changed in place. The
    /// folder's records are taken from memory where they are loaded; else
    /// `loaded` is kept as the folder's records. An empty record is added
    /// where the folder has none for the file.
    pub fn load_or_create_file(&mut self, location: FileLocation, loaded: Folder) -> (file:
        &mut MetaFile)
        requires
            loaded.path@ == location.folder@,
        ensures
            final(self).persons == old(self).persons,
            final(self).root_folders == old(self).root_folders,
            old(self).has_folder(location.folder@) ==> exists|at: int|
                {
                    &&& 0 <= at < old(self).folders@.len()
                    &&& (#[trigger] old(self).folders@[at]).path@ == location.folder@
                    &&& final(self).folders@ == old(self).folders@.update(
                        at,
                        final(self).folders@[at],
                    )
                    &&& opened(
                        old(self).folders@[at],
                        final(self).folders@[at],
                        location.file_name,
                        *file,
                        *final(file),
                    )
                },
            !old(self).has_folder(location.folder@) ==> {
                &&& final(self).folders@ == old(self).folders@.push(final(self).folders@.last())
                &&& opened(
                    loaded,
                    final(self).folders@.last(),
                    location.file_name,
                    *file,
                    *final(file),
                )
            },
    {
        let index = match self.loaded_folder(&location.folder) {
            Some(index) => index,
            None => {
                self.folders.push(loaded);
                self.folders.len() - 1
            },
        };
        assert(self.folders@[index as int].path@ == location.folder@);
        self.folders[index].file_mut(location.file_name)
    }
}

} // verus!
