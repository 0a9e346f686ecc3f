use vstd::prelude::*;

use std::collections::HashMap;

use crate::dms::entities::{empty_folder_node, FolderEntity, FolderNode, FolderTree};
use crate::dms::persistent_objects::{duplicate_files, File, Folder};
use crate::error::Error;

verus! {

broadcast use vstd::std_specs::hash::group_hash_axioms;

/// The message of the error that creating something in a missing folder gives.
pub open spec fn parent_not_found_message() -> Seq<char> {
    "Parent folder was not found"@
}

/// The abstract state of the folder tree: the folder entities by handle
/// (every entity is created once and never moves), the handle of the folder
/// created last with each id, and the handle of the root folder (0).
pub struct FolderStore {
    pub nodes: Seq<FolderNode>,
    pub index: Map<u32, usize>,
    pub root: usize,
}

impl FolderStore {
    /// The entity with handle `h` exists.
    pub open spec fn has_handle(self, h: usize) -> bool {
        h < self.nodes.len()
    }

    /// A folder with id `id` has been created (the root folder has id 0).
    pub open spec fn has_folder(self, id: u32) -> bool {
        self.index.contains_key(id)
    }

    /// The well-formedness of the tree: handles point at entities, the root
    /// folder is the first entity, the folder registered under an id has that
    /// id, a sub folder is never created before its parent and has the id of
    /// its parent as parent id, and the sub folders of a folder come in the
    /// order they were created.
    pub open spec fn wf(self) -> bool {
        &&& self.root == 0
        &&& self.nodes.len() >= 1
        &&& self.nodes[0].folder.id == 0
        &&& self.nodes[0].folder.parent_id == 0
        &&& self.nodes[0].folder.name@ == "root"@
        &&& forall|id: u32| #[trigger]
            self.index.contains_key(id) ==> self.has_handle(self.index[id])
                && self.nodes[self.index[id] as int].folder.id == id
        &&& forall|h: int, j: int|
            0 <= h < self.nodes.len() && 0 <= j < self.nodes[h].sub_folders.len() ==> {
                &&& 1 <= #[trigger] self.nodes[h].sub_folders[j]
                &&& h <= self.nodes[h].sub_folders[j] < self.nodes.len()
                &&& self.nodes[self.nodes[h].sub_folders[j] as int].folder.parent_id
                    == self.nodes[h].folder.id
            }
        &&& forall|h: int, j: int, k: int|
            0 <= h < self.nodes.len() && 0 <= j < k < self.nodes[h].sub_folders.len() ==> #[trigger] self.nodes[h].sub_folders[j]
                < #[trigger] self.nodes[h].sub_folders[k]
        &&& self.children_unique()
    }

    /// Every entity is the sub folder of at most one folder, once.
    pub open spec fn children_unique(self) -> bool {
        forall|h1: int, j1: int, h2: int, j2: int|
            0 <= h1 < self.nodes.len() && 0 <= j1 < self.nodes[h1].sub_folders.len() && 0 <= h2
                < self.nodes.len() && 0 <= j2 < self.nodes[h2].sub_folders.len() && (h1 != h2 || j1
                != j2) ==> #[trigger] self.nodes[h1].sub_folders[j1]
                != #[trigger] self.nodes[h2].sub_folders[j2]
    }

    /// Creating `folder`: a new entity is added and becomes the folder with its
    /// id, then it is added to the sub folders of the folder with its parent
    /// id, if there is one (which is the new folder itself when both ids are
    /// equal).
    pub open spec fn create_folder(self, folder: Folder) -> FolderStore {
        let n = self.nodes.len() as usize;
        let index = self.index.insert(folder.id, n);
        let nodes = self.nodes.push(empty_folder_node(folder));
        if index.contains_key(folder.parent_id) {
            let p = index[folder.parent_id] as int;
            FolderStore {
                nodes: nodes.update(
                    p,
                    FolderNode { sub_folders: nodes[p].sub_folders.push(n), ..nodes[p] },
                ),
                index,
                root: self.root,
            }
        } else {
            FolderStore { nodes, index, root: self.root }
        }
    }

    /// Creating `file` in the folder with its folder id, which exists.
    pub open spec fn create_file(self, file: File) -> FolderStore {
        let h = self.index[file.folder_id] as int;
        FolderStore {
            nodes: self.nodes.update(
                h,
                FolderNode { files: self.nodes[h].files.push(file), ..self.nodes[h] },
            ),
            index: self.index,
            root: self.root,
        }
    }
}

/// Whether `tree` is the folder with handle `h` in `store`, with everything
/// under it.
pub open spec fn is_folder_tree(store: FolderStore, h: int, tree: FolderTree) -> bool
    decreases tree,
{
    &&& 0 <= h < store.nodes.len()
    &&& tree.folder == store.nodes[h].folder
    &&& tree.files@ == store.nodes[h].files
    &&& tree.sub_folders@.len() == store.nodes[h].sub_folders.len()
    &&& forall|j: int|
        0 <= j < tree.sub_folders@.len() ==> is_folder_tree(
            store,
            store.nodes[h].sub_folders[j] as int,
            #[trigger] tree.sub_folders@[j],
        )
}

/// Creating a file in an existing folder adds it at the end of that folder's
/// files, keeping the files already there; the folder itself, its sub
/// folders, every other folder and the registered ids stay as they were.
pub proof fn law_create_file_appends(s: FolderStore, file: File)
    requires
        s.wf(),
        s.has_folder(file.folder_id),
    ensures
        ({
            let t = s.create_file(file);
            let h = s.index[file.folder_id] as int;
            &&& t.index == s.index
            &&& t.root == s.root
            &&& t.nodes.len() == s.nodes.len()
            &&& t.nodes[h].files.len() == s.nodes[h].files.len() + 1
            &&& t.nodes[h].files.take(s.nodes[h].files.len() as int) == s.nodes[h].files
            &&& t.nodes[h].files.last() == file
            &&& t.nodes[h].folder == s.nodes[h].folder
            &&& t.nodes[h].sub_folders == s.nodes[h].sub_folders
            &&& forall|g: int| 0 <= g < s.nodes.len() && g != h ==> #[trigger] t.nodes[g] == s.nodes[g]
        }),
{
    let t = s.create_file(file);
    let h = s.index[file.folder_id] as int;
    assert(t.nodes[h].files.take(s.nodes[h].files.len() as int) =~= s.nodes[h].files);
}

/// Creating a folder adds a new entity for it with no sub folders and no
/// files, and registers it under its id. When a folder is registered under
/// its parent id (the new folder itself when both ids are equal), the new
/// folder is added at the end of that folder's sub folders; no other sub
/// folder list changes. Every folder that existed keeps its folder and its
/// files.
pub proof fn law_create_folder_adds_under_parent(s: FolderStore, folder: Folder)
    requires
        s.wf(),
        s.nodes.len() < usize::MAX,
    ensures
        ({
            let t = s.create_folder(folder);
            let n = s.nodes.len() as int;
            &&& t.nodes.len() == n + 1
            &&& t.index == s.index.insert(folder.id, n as usize)
            &&& t.root == s.root
            &&& t.nodes[n].folder == folder
            &&& t.nodes[n].files.len() == 0
            &&& forall|g: int| 0 <= g < n ==> (#[trigger] t.nodes[g]).folder == s.nodes[g].folder
                && t.nodes[g].files == s.nodes[g].files
            &&& if folder.parent_id == folder.id {
                &&& t.nodes[n].sub_folders == seq![n as usize]
                &&& forall|g: int| 0 <= g < n ==> (#[trigger] t.nodes[g]).sub_folders == s.nodes[g].sub_folders
            } else if s.has_folder(folder.parent_id) {
                let p = s.index[folder.parent_id] as int;
                &&& t.nodes[n].sub_folders.len() == 0
                &&& t.nodes[p].sub_folders.len() == s.nodes[p].sub_folders.len() + 1
                &&& t.nodes[p].sub_folders.take(s.nodes[p].sub_folders.len() as int) == s.nodes[p].sub_folders
                &&& t.nodes[p].sub_folders.last() == n as usize
                &&& forall|g: int| 0 <= g < n && g != p ==> (#[trigger] t.nodes[g]).sub_folders == s.nodes[g].sub_folders
            } else {
                &&& t.nodes[n].sub_folders.len() == 0
                &&& forall|g: int| 0 <= g < n ==> (#[trigger] t.nodes[g]).sub_folders == s.nodes[g].sub_folders
            }
        }),
{
    let t = s.create_folder(folder);
    let n = s.nodes.len() as int;
    if folder.parent_id != folder.id && s.has_folder(folder.parent_id) {
        let p = s.index[folder.parent_id] as int;
        assert(0 <= p < n);
        assert(t.nodes[p].sub_folders.take(s.nodes[p].sub_folders.len() as int) =~= s.nodes[p].sub_folders);
    }
    if folder.parent_id == folder.id {
        assert(t.nodes[n].sub_folders =~= seq![n as usize]);
    }
}

/// The folders and files of the document management system. A clone is a
/// copy of its own: creating in it leaves the original as it was.
#[derive(Clone)]
pub struct Aggregate {
    entities: Vec<FolderEntity>,
    all_folders: HashMap<u32, usize>,
    root_folder: usize,
}

impl View for Aggregate {
    type V = FolderStore;

    closed spec fn view(&self) -> FolderStore {
        FolderStore {
            nodes: self.entities@.map_values(|e: FolderEntity| e@),
            index: self.all_folders@,
            root: self.root_folder,
        }
    }
}

impl Aggregate {
    /// The aggregate is well formed.
    pub open spec fn wf(&self) -> bool {
        self@.wf()
    }

    /// An aggregate holding only the root folder, with id 0 and parent id 0.
    pub fn default() -> (a: Aggregate)
        ensures
            a.wf(),
            a@.root == 0,
            a@.nodes.len() == 1,
            a@.nodes[0].folder.id == 0,
            a@.nodes[0].folder.parent_id == 0,
            a@.nodes[0].folder.name@ == "root"@,
            a@.nodes[0].sub_folders.len() == 0,
            a@.nodes[0].files.len() == 0,
            a@.index == Map::<u32, usize>::empty().insert(0, 0),
    {
        let root = FolderEntity::new(Folder { id: 0, name: "root".to_owned(), parent_id: 0 });
        let mut entities: Vec<FolderEntity> = Vec::new();
        entities.push(root);
        let mut all_folders: HashMap<u32, usize> = HashMap::new();
        all_folders.insert(0, 0);
        let a = Aggregate { entities, all_folders, root_folder: 0 };
        assert(a@.nodes =~= seq![empty_folder_node(a.entities@[0].folder)]);
        a
    }

    /// Creates a folder in the folder with its parent id. The folder is
    /// registered under its id even when no folder has its parent id; then
    /// the error is returned.
    pub fn create_folder(&mut self, folder: Folder) -> (r: Result<(), Error>)
        requires
            old(self).wf(),
        ensures
            final(self).wf(),
            final(self)@ == old(self)@.create_folder(folder),
            r is Ok <==> (folder.parent_id == folder.id || old(self)@.has_folder(folder.parent_id)),
            r matches Err(e) ==> e.message@ == parent_not_found_message(),
    {
        let ghost old_view = self@;
        let ghost f = folder;
        let id = folder.id;
        let parent_id = folder.parent_id;
        let n = self.entities.len();
        self.entities.push(FolderEntity::new(folder));
        self.all_folders.insert(id, n);
        assert(self.entities@.map_values(|e: FolderEntity| e@) =~= old_view.nodes.push(
            empty_folder_node(f),
        ));
        assert forall|k: u32| #[trigger] self@.index.contains_key(k) implies self@.has_handle(
            self@.index[k],
        ) by {
            if k != id {
                assert(old_view.index.contains_key(k));
            }
        }
        match self.all_folders.get(&parent_id) {
            None => {
                assert(self@.nodes[0] == old_view.nodes[0]);
                assert forall|h: int, j: int|
                    0 <= h < self@.nodes.len() && 0 <= j
                        < self@.nodes[h].sub_folders.len() implies h
                    <= #[trigger] self@.nodes[h].sub_folders[j] < self@.nodes.len() by {
                    if h < n {
                        assert(self@.nodes[h] == old_view.nodes[h]);
                    }
                }
                Err(Error::new("Parent folder was not found"))
            },
            Some(p) => {
                let p = *p;
                assert(self.all_folders@.contains_key(parent_id));
                assert(self@.index.contains_key(parent_id));
                assert(self@.has_handle(p));
                self.entities[p].sub_folders.push(n);
                proof {
                    let expected = old_view.create_folder(f);
                    assert(self@.nodes =~= expected.nodes);
                    assert forall|h: int, j: int|
                        0 <= h < self@.nodes.len() && 0 <= j
                            < self@.nodes[h].sub_folders.len() implies h
                        <= #[trigger] self@.nodes[h].sub_folders[j] < self@.nodes.len() by {
                        if h != p {
                            if h < n {
                                assert(self@.nodes[h] == old_view.nodes[h]);
                            }
                        } else if h < n {
                            if j < old_view.nodes[h].sub_folders.len() {
                                assert(self@.nodes[h].sub_folders[j]
                                    == old_view.nodes[h].sub_folders[j]);
                            }
                        }
                    }
                }
                Ok(())
            },
        }
    }

    /// Creates a file in the folder with its folder id; when no folder has
    /// that id an error is returned and nothing changes.
    pub fn create_file(&mut self, file: File) -> (r: Result<(), Error>)
        requires
            old(self).wf(),
        ensures
            final(self).wf(),
            r is Ok <==> old(self)@.has_folder(file.folder_id),
            r is Ok ==> final(self)@ == old(self)@.create_file(file),
            r matches Err(e) ==> e.message@ == parent_not_found_message() && final(self)@ == old(
                self,
            )@,
    {
        let ghost old_view = self@;
        let ghost f = file;
        match self.all_folders.get(&file.folder_id) {
            None => Err(Error::new("Parent folder was not found")),
            Some(h) => {
                let h = *h;
                assert(self.all_folders@.contains_key(file.folder_id));
                assert(self@.index.contains_key(file.folder_id));
                assert(self@.has_handle(h));
                self.entities[h].files.push(file);
                proof {
                    let expected = old_view.create_file(f);
                    assert(self@.nodes =~= expected.nodes);
                    assert forall|k: int, j: int|
                        0 <= k < self@.nodes.len() && 0 <= j
                            < self@.nodes[k].sub_folders.len() implies k
                        <= #[trigger] self@.nodes[k].sub_folders[j] < self@.nodes.len() by {
                        assert(self@.nodes[k].sub_folders == old_view.nodes[k].sub_folders);
                    }
                }
                Ok(())
            },
        }
    }

    /// The tree of the folder with handle `h`, which is not its own sub folder.
    fn tree_at(&self, h: usize) -> (tree: FolderTree)
        requires
            self.wf(),
            self@.has_handle(h),
            forall|j: int| 0 <= j < self@.nodes[h as int].sub_folders.len() ==> #[trigger] self@.nodes[h as int].sub_folders[j] != h,
        ensures
            is_folder_tree(self@, h as int, tree),
        decreases self@.nodes.len() - h,
    {
        let entity = &self.entities[h];
        assert(entity@ == self@.nodes[h as int]);
        let mut sub_folders: Vec<FolderTree> = Vec::new();
        let mut j: usize = 0;
        while j < entity.sub_folders.len()
            invariant
                self.wf(),
                self@.has_handle(h),
                entity@ == self@.nodes[h as int],
                forall|k: int| 0 <= k < self@.nodes[h as int].sub_folders.len() ==> #[trigger] self@.nodes[h as int].sub_folders[k] != h,
                j <= entity.sub_folders@.len(),
                sub_folders@.len() == j,
                forall|k: int|
                    0 <= k < j ==> is_folder_tree(
                        self@,
                        self@.nodes[h as int].sub_folders[k] as int,
                        #[trigger] sub_folders@[k],
                    ),
            decreases entity.sub_folders@.len() - j,
        {
            let c = entity.sub_folders[j];
            assert(self@.nodes[h as int].sub_folders[j as int] == c);
            assert(h <= c < self@.nodes.len());
            assert forall|k: int| 0 <= k < self@.nodes[c as int].sub_folders.len() implies #[trigger] self@.nodes[c as int].sub_folders[k] != c by {
                assert(self@.nodes[h as int].sub_folders[j as int] != self@.nodes[c as int].sub_folders[k]);
            }
            let tree = self.tree_at(c);
            sub_folders.push(tree);
            j = j + 1;
        }
        FolderTree {
            folder: entity.folder.duplicate(),
            sub_folders,
            files: duplicate_files(&entity.files),
        }
    }

    /// The tree of folders and files, from the root folder.
    pub fn get_folder_tree(&self) -> (tree: FolderTree)
        requires
            self.wf(),
        ensures
            is_folder_tree(self@, self@.root as int, tree),
    {
        assert forall|j: int| 0 <= j < self@.nodes[0].sub_folders.len() implies #[trigger] self@.nodes[0].sub_folders[j] != 0 by {
            assert(1 <= self@.nodes[0].sub_folders[j]);
        }
        self.tree_at(self.root_folder)
    }

    /// The folder entity with handle `handle`, if there is one.
    pub fn folder_entity(&self, handle: usize) -> (e: Option<&FolderEntity>)
        ensures
            match e {
                Some(e) => self@.has_handle(handle) && e@ == self@.nodes[handle as int],
                None => !self@.has_handle(handle),
            },
    {
        if handle < self.entities.len() {
            Some(&self.entities[handle])
        } else {
            None
        }
    }
}

} // verus!
