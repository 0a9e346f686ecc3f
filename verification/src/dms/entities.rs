use vstd::prelude::*;

use crate::dms::persistent_objects::{File, Folder};

verus! {

/// A folder in the tree: the folder, the handles of its sub folders in the
/// aggregate (in the order they were created) and its files.
#[derive(Clone)]
pub struct FolderEntity {
    pub folder: Folder,
    pub sub_folders: Vec<usize>,
    pub files: Vec<File>,
}

/// The abstract value of a folder entity.
pub struct FolderNode {
    pub folder: Folder,
    pub sub_folders: Seq<usize>,
    pub files: Seq<File>,
}

impl View for FolderEntity {
    type V = FolderNode;

    open spec fn view(&self) -> FolderNode {
        FolderNode { folder: self.folder, sub_folders: self.sub_folders@, files: self.files@ }
    }
}

/// A folder with no sub folders and no files.
pub open spec fn empty_folder_node(folder: Folder) -> FolderNode {
    FolderNode { folder, sub_folders: Seq::empty(), files: Seq::empty() }
}

impl FolderEntity {
    /// Creates the entity of a folder with no sub folders and no files.
    pub fn new(folder: Folder) -> (e: FolderEntity)
        ensures
            e@ == empty_folder_node(folder),
    {
        FolderEntity { folder, sub_folders: Vec::new(), files: Vec::new() }
    }
}

impl core::ops::Deref for FolderEntity {
    type Target = Folder;

    /// The folder of the entity.
    fn deref(&self) -> (f: &Folder)
        ensures
            *f == self.folder,
    {
        &self.folder
    }
}

/// A folder with everything under it: its sub folders (in the order they
/// were created) and its files.
pub struct FolderTree {
    pub folder: Folder,
    pub sub_folders: Vec<FolderTree>,
    pub files: Vec<File>,
}

} // verus!
