use vstd::prelude::*;

verus! {

/// A category as it is stored: its id, the id of its parent (0 for a top
/// level category) and its name.
#[derive(Debug, Clone, PartialEq, Eq)]
pub struct Category {
    pub id: u32,
    pub parent_id: u32,
    pub name: String,
}

/// A contact as it is stored: its id, the id of its category, its name and
/// its phone number.
#[derive(Debug, Clone, PartialEq, Eq)]
pub struct Contact {
    pub id: u32,
    pub category_id: u32,
    pub name: String,
    pub phone_number: String,
}

impl Category {
    /// A copy of the category.
    pub fn duplicate(&self) -> (c: Category)
        ensures
            c == *self,
    {
        Category { id: self.id, parent_id: self.parent_id, name: self.name.clone() }
    }
}

impl Contact {
    /// A copy of the contact.
    pub fn duplicate(&self) -> (c: Contact)
        ensures
            c == *self,
    {
        Contact {
            id: self.id,
            category_id: self.category_id,
            name: self.name.clone(),
            phone_number: self.phone_number.clone(),
        }
    }
}

/// Copies of the contacts `contacts`, in the same order.
pub fn duplicate_contacts(contacts: &Vec<Contact>) -> (r: Vec<Contact>)
    ensures
        r@ == contacts@,
{
    let mut r: Vec<Contact> = Vec::new();
    let mut i: usize = 0;
    while i < contacts.len()
        invariant
            i <= contacts@.len(),
            r@ == contacts@.subrange(0, i as int),
        decreases contacts@.len() - i,
    {
        r.push(contacts[i].duplicate());
        i = i + 1;
        assert(r@ =~= contacts@.subrange(0, i as int));
    }
    assert(contacts@.subrange(0, i as int) =~= contacts@);
    r
}

} // verus!
