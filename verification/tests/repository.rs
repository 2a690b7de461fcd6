use file_manager_core::meta::model::{
    PersonCollection, Person, PersonId, RootFolderCollection, RootFolderId,
};
use file_manager_core::meta::path::AbsolutePath;
use file_manager_core::meta::repository::{Error, FileLocation, Folder, Repository};

fn path(components: &[&str]) -> AbsolutePath {
    AbsolutePath::new(components.iter().map(|c| c.to_string()).collect()).unwrap()
}

fn repository() -> (Repository, RootFolderId) {
    let mut roots = RootFolderCollection::default();
    let pictures = roots.get_or_create(path(&["/", "home", "pictures"]));
    (Repository::new(PersonCollection::default(), roots), pictures)
}

#[test]
fn strip_prefix_gives_the_names_below_the_base() {
    let file = path(&["/", "home", "pictures", "may", "a.png"]);
    let base = path(&["/", "home", "pictures"]);
    assert_eq!(
        Some(vec!["may".to_string(), "a.png".to_string()]),
        file.strip_prefix(&base)
    );
    assert_eq!(Some(Vec::new()), base.strip_prefix(&base));
    assert_eq!(None, base.strip_prefix(&file));
    assert_eq!(None, file.strip_prefix(&path(&["/", "home", "music"])));
}

#[test]
fn a_file_in_a_root_folder_is_located_in_its_folder() {
    let (repository, pictures) = repository();
    let file = path(&["/", "home", "pictures", "may", "a.png"]);
    let location = repository.locate(&pictures, &file).unwrap();
    assert_eq!(
        &vec!["/".to_string(), "home".to_string(), "pictures".to_string(), "may".to_string()],
        location.folder.components()
    );
    assert_eq!("a.png", location.file_name);
}

#[test]
fn locating_fails_for_an_unknown_root_folder() {
    let (repository, _) = repository();
    let file = path(&["/", "home", "pictures", "a.png"]);
    assert_eq!(Some(Error::InvalidRootFolder), repository.locate(&RootFolderId(5), &file).err());
}

#[test]
fn locating_fails_for_a_file_outside_the_root_folder() {
    let (repository, pictures) = repository();
    let file = path(&["/", "home", "music", "a.mp3"]);
    assert_eq!(Some(Error::FileNotInRootFolder), repository.locate(&pictures, &file).err());
    let above = path(&["/", "home"]);
    assert_eq!(Some(Error::FileNotInRootFolder), repository.locate(&pictures, &above).err());
}

#[test]
fn locating_fails_for_the_root_of_the_file_system() {
    let mut roots = RootFolderCollection::default();
    let everything = roots.get_or_create(path(&["/"]));
    let repository = Repository::new(PersonCollection::default(), roots);
    assert_eq!(
        Some(Error::InvalidRootFolder),
        repository.locate(&everything, &path(&["/"])).err()
    );
    assert!(repository.locate(&everything, &path(&["/", "a.png"])).is_ok());
}

#[test]
fn a_new_file_gets_an_empty_record() {
    let (mut repository, pictures) = repository();
    let folder = path(&["/", "home", "pictures"]);
    let location = FileLocation { folder: folder.duplicate(), file_name: "a.png".to_string() };
    assert_eq!(None, repository.loaded_folder(&folder));
    let file = repository.load_or_create_file(location, Folder::new(folder.duplicate(), pictures));
    assert_eq!(None, file.hash);
    assert!(file.persons.is_empty());
    assert!(file.tags.is_empty());
    file.persons.insert(4);
    assert_eq!(Some(0), repository.loaded_folder(&folder));
    assert_eq!(1, repository.folders.len());
    assert_eq!(1, repository.folders[0].files.len());
    assert_eq!("a.png", repository.folders[0].files[0].name);
}

#[test]
fn a_known_file_keeps_its_record() {
    let (mut repository, pictures) = repository();
    let folder = path(&["/", "home", "pictures"]);
    let location = FileLocation { folder: folder.duplicate(), file_name: "a.png".to_string() };
    repository
        .load_or_create_file(location, Folder::new(folder.duplicate(), pictures))
        .persons
        .insert(4);
    let other = FileLocation { folder: folder.duplicate(), file_name: "b.png".to_string() };
    repository.load_or_create_file(other, Folder::new(folder.duplicate(), pictures));
    // The folder is in memory now: what is handed in for it is not used.
    let mut stale = Folder::new(folder.duplicate(), pictures);
    stale.file_mut("a.png".to_string()).hash = Some("stale".to_string());
    let again = FileLocation { folder: folder.duplicate(), file_name: "a.png".to_string() };
    let file = repository.load_or_create_file(again, stale);
    assert_eq!(None, file.hash);
    assert!(file.persons.contains(&4));
    assert_eq!(1, repository.folders.len());
    assert_eq!(2, repository.folders[0].files.len());
}

#[test]
fn a_folder_read_from_elsewhere_is_kept_with_its_records() {
    let (mut repository, pictures) = repository();
    let folder = path(&["/", "home", "pictures", "may"]);
    let mut read = Folder::new(folder.duplicate(), pictures);
    read.file_mut("a.png".to_string()).hash = Some("abc".to_string());
    assert_eq!(Some(0), read.position(&"a.png".to_string()));
    assert_eq!(None, read.position(&"b.png".to_string()));
    let location = FileLocation { folder: folder.duplicate(), file_name: "a.png".to_string() };
    let file = repository.load_or_create_file(location, read);
    assert_eq!(Some("abc".to_string()), file.hash);
}

#[test]
fn the_repository_hands_out_its_collections() {
    let (mut repository, pictures) = repository();
    let id = repository.persons_mut().add(Person::new("Jo".to_string(), None));
    assert_eq!(PersonId(0), id);
    assert_eq!("Jo", repository.persons().person(&id).unwrap().name);
    assert!(repository.root_folders().root_folder(&pictures).is_some());
    let music = repository.root_folders_mut().get_or_create(path(&["/", "home", "music"]));
    assert_eq!(RootFolderId(1), music);
    assert_eq!(2, repository.root_folders().entries().len());
}
