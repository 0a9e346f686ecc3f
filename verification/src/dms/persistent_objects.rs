use vstd::prelude::*;

verus! {

/// A folder as it is stored: its id, the id of its parent and its name.
#[derive(Debug, Clone, PartialEq, Eq)]
pub struct Folder {
    pub id: u32,
    pub parent_id: u32,
    pub name: String,
}

/// A file as it is stored: its id, the id of its folder and its name.
#[derive(Debug, Clone, PartialEq, Eq)]
pub struct File {
    pub id: u32,
    pub folder_id: u32,
    pub name: String,
}

impl Folder {
    /// A copy of the folder.
    pub fn duplicate(&self) -> (f: Folder)
        ensures
            f == *self,
    {
        Folder { id: self.id, parent_id: self.parent_id, name: self.name.clone() }
    }
}

impl File {
    /// A copy of the file.
    pub fn duplicate(&self) -> (f: File)
        ensures
            f == *self,
    {
        File { id: self.id, folder_id: self.folder_id, name: self.name.clone() }
    }
}

/// Copies of the files `files`, in the same order.
pub fn duplicate_files(files: &Vec<File>) -> (r: Vec<File>)
    ensures
        r@ == files@,
{
    let mut r: Vec<File> = Vec::new();
    let mut i: usize = 0;
    while i < files.len()
        invariant
            i <= files@.len(),
            r@ == files@.subrange(0, i as int),
        decreases files@.len() - i,
    {
        r.push(files[i].duplicate());
        i = i + 1;
        assert(r@ =~= files@.subrange(0, i as int));
    }
    assert(files@.subrange(0, i as int) =~= files@);
    r
}

} // verus!
