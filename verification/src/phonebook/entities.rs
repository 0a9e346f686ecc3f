use vstd::prelude::*;

use crate::phonebook::persistent_objects::{Category, Contact};

verus! {

/// A category in the tree: the category, the handles of its sub categories
/// in the aggregate (in the order they were created) and its contacts.
pub struct CategoryEntity {
    pub category: Category,
    pub sub_categories: Vec<usize>,
    pub contacts: Vec<Contact>,
}

/// The abstract value of a category entity.
pub struct CategoryNode {
    pub category: Category,
    pub sub_categories: Seq<usize>,
    pub contacts: Seq<Contact>,
}

impl View for CategoryEntity {
    type V = CategoryNode;

    open spec fn view(&self) -> CategoryNode {
        CategoryNode {
            category: self.category,
            sub_categories: self.sub_categories@,
            contacts: self.contacts@,
        }
    }
}

/// A category with no sub categories and no contacts.
pub open spec fn empty_category_node(category: Category) -> CategoryNode {
    CategoryNode { category, sub_categories: Seq::empty(), contacts: Seq::empty() }
}

impl CategoryEntity {
    /// Creates the entity of a category with no sub categories and no contacts.
    pub fn new(category: Category) -> (e: CategoryEntity)
        ensures
            e@ == empty_category_node(category),
    {
        CategoryEntity { category, sub_categories: Vec::new(), contacts: Vec::new() }
    }
}

impl core::ops::Deref for CategoryEntity {
    type Target = Category;

    /// The category of the entity.
    fn deref(&self) -> (c: &Category)
        ensures
            *c == self.category,
    {
        &self.category
    }
}

/// A category with everything under it: its sub categories (in the order
/// they were created) and its contacts.
pub struct CategoryTree {
    pub category: Category,
    pub sub_categories: Vec<CategoryTree>,
    pub contacts: Vec<Contact>,
}

} // verus!
