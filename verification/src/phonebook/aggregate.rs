use vstd::prelude::*;

use std::collections::HashMap;

use crate::error::Error;
use crate::phonebook::entities::{empty_category_node, CategoryEntity, CategoryNode, CategoryTree};
use crate::phonebook::persistent_objects::{duplicate_contacts, Category, Contact};

verus! {

broadcast use vstd::std_specs::hash::group_hash_axioms;

/// The abstract state of the phone book: the category entities by handle
/// (every entity is created once and never moves), the handle of the
/// category created last with each id, and the handles of the top level
/// categories in the order they were created.
pub struct CategoryStore {
    pub nodes: Seq<CategoryNode>,
    pub index: Map<u32, usize>,
    pub roots: Seq<usize>,
}

impl CategoryStore {
    /// The entity with handle `h` exists.
    pub open spec fn has_handle(self, h: usize) -> bool {
        h < self.nodes.len()
    }

    /// A category with id `id` has been created.
    pub open spec fn has_category(self, id: u32) -> bool {
        self.index.contains_key(id)
    }

    /// Whether a category can be created: a top level one always, another one
    /// when its parent exists.
    pub open spec fn can_create_category(self, category: Category) -> bool {
        category.parent_id == 0 || self.has_category(category.parent_id)
    }

    /// The entity with handle `h` is a top level category.
    pub open spec fn is_root(self, h: int) -> bool {
        exists|i: int| 0 <= i < self.roots.len() && self.roots[i] == h
    }

    /// The entity with handle `h` is a sub category of some category.
    pub open spec fn is_child(self, h: int) -> bool {
        exists|p: int, j: int|
            0 <= p < self.nodes.len() && 0 <= j < self.nodes[p].sub_categories.len()
                && self.nodes[p].sub_categories[j] == h
    }

    /// Every entity has exactly one place in the forest: once among the top
    /// level categories, or once among the sub categories of one category.
    pub open spec fn placed_once(self) -> bool {
        &&& forall|h: int| 0 <= h < self.nodes.len() ==> #[trigger] self.is_root(h) || self.is_child(h)
        &&& forall|i: int, k: int| 0 <= i < k < self.roots.len() ==> #[trigger] self.roots[i] < #[trigger] self.roots[k]
        &&& forall|h1: int, j1: int, h2: int, j2: int|
            0 <= h1 < self.nodes.len() && 0 <= j1 < self.nodes[h1].sub_categories.len() && 0 <= h2
                < self.nodes.len() && 0 <= j2 < self.nodes[h2].sub_categories.len() && (h1 != h2 || j1
                != j2) ==> #[trigger] self.nodes[h1].sub_categories[j1]
                != #[trigger] self.nodes[h2].sub_categories[j2]
        &&& forall|i: int, h: int, j: int|
            0 <= i < self.roots.len() && 0 <= h < self.nodes.len() && 0 <= j
                < self.nodes[h].sub_categories.len() ==> #[trigger] self.roots[i]
                != #[trigger] self.nodes[h].sub_categories[j]
    }

    /// The well-formedness of the forest, which is the law of the phone book:
    /// handles point at entities; the category registered under an id has
    /// that id; every category has exactly one place, at the top level when
    /// its parent id is 0 and otherwise among the sub categories of a
    /// category whose id is its parent id, created before it; categories at
    /// one place come in the order they were created; and every contact is in
    /// a category with its category id.
    pub open spec fn wf(self) -> bool {
        &&& forall|id: u32| #[trigger]
            self.index.contains_key(id) ==> self.has_handle(self.index[id])
                && self.nodes[self.index[id] as int].category.id == id
        &&& forall|i: int|
            0 <= i < self.roots.len() ==> self.has_handle(#[trigger] self.roots[i])
                && self.nodes[self.roots[i] as int].category.parent_id == 0
        &&& forall|h: int, j: int|
            0 <= h < self.nodes.len() && 0 <= j < self.nodes[h].sub_categories.len() ==> {
                &&& h < #[trigger] self.nodes[h].sub_categories[j] < self.nodes.len()
                &&& self.nodes[self.nodes[h].sub_categories[j] as int].category.parent_id
                    == self.nodes[h].category.id
                &&& self.nodes[self.nodes[h].sub_categories[j] as int].category.parent_id != 0
            }
        &&& forall|h: int, j: int, k: int|
            0 <= h < self.nodes.len() && 0 <= j < k < self.nodes[h].sub_categories.len() ==> #[trigger] self.nodes[h].sub_categories[j]
                < #[trigger] self.nodes[h].sub_categories[k]
        &&& forall|h: int, k: int|
            0 <= h < self.nodes.len() && 0 <= k < self.nodes[h].contacts.len() ==> #[trigger] self.nodes[h].contacts[k].category_id
                == self.nodes[h].category.id
        &&& self.placed_once()
    }

    /// Creating `category`: a new entity is added to the sub categories of its
    /// parent (or to the top level when its parent id is 0), then it becomes
    /// the category with its id.
    pub open spec fn create_category(self, category: Category) -> CategoryStore {
        let n = self.nodes.len() as usize;
        let nodes = self.nodes.push(empty_category_node(category));
        let index = self.index.insert(category.id, n);
        if category.parent_id != 0 {
            let p = self.index[category.parent_id] as int;
            CategoryStore {
                nodes: nodes.update(
                    p,
                    CategoryNode { sub_categories: nodes[p].sub_categories.push(n), ..nodes[p] },
                ),
                index,
                roots: self.roots,
            }
        } else {
            CategoryStore { nodes, index, roots: self.roots.push(n) }
        }
    }

    /// Creating `contact` in the category with its category id.
    pub open spec fn create_contact(self, contact: Contact) -> CategoryStore {
        let h = self.index[contact.category_id] as int;
        CategoryStore {
            nodes: self.nodes.update(
                h,
                CategoryNode { contacts: self.nodes[h].contacts.push(contact), ..self.nodes[h] },
            ),
            ..self
        }
    }
}

/// Creating a category keeps the forest well formed.
pub proof fn lemma_create_category_keeps_wf(s: CategoryStore, c: Category)
    requires
        s.wf(),
        s.can_create_category(c),
        s.nodes.len() <= usize::MAX,
    ensures
        s.create_category(c).wf(),
{
    let t = s.create_category(c);
    let n = s.nodes.len() as int;
    assert(t.nodes.len() == n + 1);
    let p = if c.parent_id != 0 { s.index[c.parent_id] as int } else { -1 };
    if c.parent_id != 0 {
        assert(s.index.contains_key(c.parent_id));
        assert(0 <= p < n);
        assert(s.nodes[p].category.id == c.parent_id);
    }
    assert(t.nodes[n] == empty_category_node(c));
    assert forall|h: int| 0 <= h < n implies #[trigger] t.nodes[h].category == s.nodes[h].category
        && t.nodes[h].contacts == s.nodes[h].contacts && (h != p ==> t.nodes[h] == s.nodes[h]) && (h
        == p ==> t.nodes[h].sub_categories == s.nodes[h].sub_categories.push(n as usize)) by {}
    // The index.
    assert forall|id: u32| #[trigger] t.index.contains_key(id) implies t.has_handle(t.index[id])
        && t.nodes[t.index[id] as int].category.id == id by {
        if id != c.id {
            assert(s.index.contains_key(id));
            assert(t.nodes[s.index[id] as int].category == s.nodes[s.index[id] as int].category);
        }
    }
    // The top level.
    assert forall|i: int| 0 <= i < t.roots.len() implies t.has_handle(#[trigger] t.roots[i])
        && t.nodes[t.roots[i] as int].category.parent_id == 0 by {
        if i < s.roots.len() {
            assert(t.roots[i] == s.roots[i]);
            assert(t.nodes[s.roots[i] as int].category == s.nodes[s.roots[i] as int].category);
        }
    }
    // The sub categories.
    assert forall|h: int, j: int|
        0 <= h < t.nodes.len() && 0 <= j < t.nodes[h].sub_categories.len() implies {
        &&& h < #[trigger] t.nodes[h].sub_categories[j] < t.nodes.len()
        &&& t.nodes[t.nodes[h].sub_categories[j] as int].category.parent_id == t.nodes[h].category.id
        &&& t.nodes[t.nodes[h].sub_categories[j] as int].category.parent_id != 0
    } by {
        if h < n && j < s.nodes[h].sub_categories.len() {
            assert(t.nodes[h].sub_categories[j] == s.nodes[h].sub_categories[j]);
            let x = s.nodes[h].sub_categories[j] as int;
            assert(t.nodes[x].category == s.nodes[x].category);
        }
    }
    assert forall|h: int, j: int, k: int|
        0 <= h < t.nodes.len() && 0 <= j < k < t.nodes[h].sub_categories.len() implies #[trigger] t.nodes[h].sub_categories[j]
        < #[trigger] t.nodes[h].sub_categories[k] by {
        if h < n {
            assert(t.nodes[h].sub_categories[j] == s.nodes[h].sub_categories[j]);
            if k < s.nodes[h].sub_categories.len() {
                assert(t.nodes[h].sub_categories[k] == s.nodes[h].sub_categories[k]);
            }
        }
    }
    assert forall|h: int, k: int|
        0 <= h < t.nodes.len() && 0 <= k < t.nodes[h].contacts.len() implies #[trigger] t.nodes[h].contacts[k].category_id
        == t.nodes[h].category.id by {
        if h < n {
            assert(t.nodes[h].contacts[k] == s.nodes[h].contacts[k]);
        }
    }
    // Every entity has its one place.
    assert forall|h: int| 0 <= h < t.nodes.len() implies #[trigger] t.is_root(h) || t.is_child(h) by {
        if h == n {
            if c.parent_id == 0 {
                assert(t.roots[s.roots.len() as int] == n);
            } else {
                assert(t.nodes[p].sub_categories[s.nodes[p].sub_categories.len() as int] == n);
            }
        } else if s.is_root(h) {
            let i = choose|i: int| 0 <= i < s.roots.len() && s.roots[i] == h;
            assert(t.roots[i] == h);
        } else {
            assert(s.is_child(h));
            let (q, j) = choose|q: int, j: int|
                0 <= q < s.nodes.len() && 0 <= j < s.nodes[q].sub_categories.len()
                    && s.nodes[q].sub_categories[j] == h;
            assert(t.nodes[q].sub_categories[j] == h);
        }
    }
    assert forall|i: int, k: int| 0 <= i < k < t.roots.len() implies #[trigger] t.roots[i]
        < #[trigger] t.roots[k] by {
        assert(t.roots[i] == s.roots[i]);
        if k < s.roots.len() {
            assert(t.roots[k] == s.roots[k]);
        }
    }
    assert forall|h1: int, j1: int, h2: int, j2: int|
        0 <= h1 < t.nodes.len() && 0 <= j1 < t.nodes[h1].sub_categories.len() && 0 <= h2
            < t.nodes.len() && 0 <= j2 < t.nodes[h2].sub_categories.len() && (h1 != h2 || j1 != j2)
        implies #[trigger] t.nodes[h1].sub_categories[j1]
        != #[trigger] t.nodes[h2].sub_categories[j2] by {
        let old1 = h1 < n && j1 < s.nodes[h1].sub_categories.len();
        let old2 = h2 < n && j2 < s.nodes[h2].sub_categories.len();
        if old1 {
            assert(t.nodes[h1].sub_categories[j1] == s.nodes[h1].sub_categories[j1]);
        }
        if old2 {
            assert(t.nodes[h2].sub_categories[j2] == s.nodes[h2].sub_categories[j2]);
        }
    }
    assert forall|i: int, h: int, j: int|
        0 <= i < t.roots.len() && 0 <= h < t.nodes.len() && 0 <= j < t.nodes[h].sub_categories.len()
        implies #[trigger] t.roots[i] != #[trigger] t.nodes[h].sub_categories[j] by {
        if i < s.roots.len() {
            assert(t.roots[i] == s.roots[i]);
        }
        if h < n && j < s.nodes[h].sub_categories.len() {
            assert(t.nodes[h].sub_categories[j] == s.nodes[h].sub_categories[j]);
        }
    }
}

/// Creating a contact keeps the forest well formed.
pub proof fn lemma_create_contact_keeps_wf(s: CategoryStore, c: Contact)
    requires
        s.wf(),
        s.has_category(c.category_id),
    ensures
        s.create_contact(c).wf(),
{
    let t = s.create_contact(c);
    let g = s.index[c.category_id] as int;
    assert(0 <= g < s.nodes.len());
    assert forall|h: int| 0 <= h < s.nodes.len() implies #[trigger] t.nodes[h].category
        == s.nodes[h].category && t.nodes[h].sub_categories == s.nodes[h].sub_categories by {}
    assert forall|h: int, k: int|
        0 <= h < t.nodes.len() && 0 <= k < t.nodes[h].contacts.len() implies #[trigger] t.nodes[h].contacts[k].category_id
        == t.nodes[h].category.id by {
        if h != g || k < s.nodes[h].contacts.len() {
            assert(t.nodes[h].contacts[k] == s.nodes[h].contacts[k]);
        }
    }
    assert forall|h: int| 0 <= h < t.nodes.len() implies #[trigger] t.is_root(h) || t.is_child(h) by {
        if !s.is_root(h) {
            assert(s.is_child(h));
            let (q, j) = choose|q: int, j: int|
                0 <= q < s.nodes.len() && 0 <= j < s.nodes[q].sub_categories.len()
                    && s.nodes[q].sub_categories[j] == h;
            assert(t.nodes[q].sub_categories[j] == h);
        } else {
            assert(t.roots == s.roots);
        }
    }
    assert forall|id: u32| #[trigger] t.index.contains_key(id) implies t.has_handle(t.index[id])
        && t.nodes[t.index[id] as int].category.id == id by {
        assert(s.index.contains_key(id));
    }
    assert forall|i: int| 0 <= i < t.roots.len() implies t.has_handle(#[trigger] t.roots[i])
        && t.nodes[t.roots[i] as int].category.parent_id == 0 by {
        assert(t.roots[i] == s.roots[i]);
    }
    assert forall|h: int, j: int|
        0 <= h < t.nodes.len() && 0 <= j < t.nodes[h].sub_categories.len() implies {
        &&& h < #[trigger] t.nodes[h].sub_categories[j] < t.nodes.len()
        &&& t.nodes[t.nodes[h].sub_categories[j] as int].category.parent_id == t.nodes[h].category.id
        &&& t.nodes[t.nodes[h].sub_categories[j] as int].category.parent_id != 0
    } by {
        let x = s.nodes[h].sub_categories[j] as int;
        assert(t.nodes[h].sub_categories[j] == s.nodes[h].sub_categories[j]);
        assert(t.nodes[x].category == s.nodes[x].category);
    }
}

/// Creating a category adds a new entity for it with no sub categories and
/// no contacts, and registers it under its id. A top level category is
/// added at the end of the top level categories; another one at the end of
/// the sub categories of its parent, and no other list changes. Every
/// category that existed keeps its category and its contacts.
pub proof fn law_create_category_adds_under_parent(s: CategoryStore, c: Category)
    requires
        s.wf(),
        s.can_create_category(c),
        s.nodes.len() < usize::MAX,
    ensures
        ({
            let t = s.create_category(c);
            let n = s.nodes.len() as int;
            &&& t.nodes.len() == n + 1
            &&& t.index == s.index.insert(c.id, n as usize)
            &&& t.nodes[n].category == c
            &&& t.nodes[n].sub_categories.len() == 0
            &&& t.nodes[n].contacts.len() == 0
            &&& forall|g: int| 0 <= g < n ==> (#[trigger] t.nodes[g]).category == s.nodes[g].category
                && t.nodes[g].contacts == s.nodes[g].contacts
            &&& if c.parent_id == 0 {
                &&& t.roots.len() == s.roots.len() + 1
                &&& t.roots.take(s.roots.len() as int) == s.roots
                &&& t.roots.last() == n as usize
                &&& forall|g: int| 0 <= g < n ==> (#[trigger] t.nodes[g]).sub_categories == s.nodes[g].sub_categories
            } else {
                let p = s.index[c.parent_id] as int;
                &&& t.roots == s.roots
                &&& t.nodes[p].sub_categories.len() == s.nodes[p].sub_categories.len() + 1
                &&& t.nodes[p].sub_categories.take(s.nodes[p].sub_categories.len() as int)
                    == s.nodes[p].sub_categories
                &&& t.nodes[p].sub_categories.last() == n as usize
                &&& forall|g: int| 0 <= g < n && g != p ==> (#[trigger] t.nodes[g]).sub_categories == s.nodes[g].sub_categories
            }
        }),
{
    let t = s.create_category(c);
    if c.parent_id == 0 {
        assert(t.roots.take(s.roots.len() as int) =~= s.roots);
    } else {
        let p = s.index[c.parent_id] as int;
        assert(0 <= p < s.nodes.len());
        assert(t.nodes[p].sub_categories.take(s.nodes[p].sub_categories.len() as int)
            =~= s.nodes[p].sub_categories);
    }
}

/// Creating a contact adds it at the end of the contacts of the category
/// with its category id, keeping the contacts already there; that
/// category's place and sub categories, every other category, the top level
/// and the registered ids stay as they were.
pub proof fn law_create_contact_appends(s: CategoryStore, c: Contact)
    requires
        s.wf(),
        s.has_category(c.category_id),
    ensures
        ({
            let t = s.create_contact(c);
            let h = s.index[c.category_id] as int;
            &&& t.index == s.index
            &&& t.roots == s.roots
            &&& t.nodes.len() == s.nodes.len()
            &&& t.nodes[h].contacts.len() == s.nodes[h].contacts.len() + 1
            &&& t.nodes[h].contacts.take(s.nodes[h].contacts.len() as int) == s.nodes[h].contacts
            &&& t.nodes[h].contacts.last() == c
            &&& t.nodes[h].category == s.nodes[h].category
            &&& t.nodes[h].sub_categories == s.nodes[h].sub_categories
            &&& forall|g: int| 0 <= g < s.nodes.len() && g != h ==> #[trigger] t.nodes[g] == s.nodes[g]
        }),
{
    let t = s.create_contact(c);
    let h = s.index[c.category_id] as int;
    assert(t.nodes[h].contacts.take(s.nodes[h].contacts.len() as int) =~= s.nodes[h].contacts);
}

/// Whether `tree` is the category with handle `h` in `store`, with
/// everything under it.
pub open spec fn is_category_tree(store: CategoryStore, h: int, tree: CategoryTree) -> bool
    decreases tree,
{
    &&& 0 <= h < store.nodes.len()
    &&& tree.category == store.nodes[h].category
    &&& tree.contacts@ == store.nodes[h].contacts
    &&& tree.sub_categories@.len() == store.nodes[h].sub_categories.len()
    &&& forall|j: int|
        0 <= j < tree.sub_categories@.len() ==> is_category_tree(
            store,
            store.nodes[h].sub_categories[j] as int,
            #[trigger] tree.sub_categories@[j],
        )
}

/// The categories and contacts of the phone book.
pub struct Aggregate {
    entities: Vec<CategoryEntity>,
    categories: HashMap<u32, usize>,
    root_categories: Vec<usize>,
}

impl View for Aggregate {
    type V = CategoryStore;

    closed spec fn view(&self) -> CategoryStore {
        CategoryStore {
            nodes: self.entities@.map_values(|e: CategoryEntity| e@),
            index: self.categories@,
            roots: self.root_categories@,
        }
    }
}

impl Aggregate {
    /// The aggregate is well formed.
    pub open spec fn wf(&self) -> bool {
        self@.wf()
    }

    /// An empty phone book.
    pub fn default() -> (a: Aggregate)
        ensures
            a.wf(),
            a@.nodes.len() == 0,
            a@.index == Map::<u32, usize>::empty(),
            a@.roots.len() == 0,
    {
        let a = Aggregate {
            entities: Vec::new(),
            categories: HashMap::new(),
            root_categories: Vec::new(),
        };
        assert(a@.nodes =~= Seq::<CategoryNode>::empty());
        a
    }

    /// Creates a category, under its parent or at the top level when its
    /// parent id is 0. The parent must exist.
    pub fn create_category(&mut self, category: Category) -> (r: Result<(), Error>)
        requires
            old(self).wf(),
            old(self)@.can_create_category(category),
        ensures
            final(self).wf(),
            final(self)@ == old(self)@.create_category(category),
            r == Ok::<(), Error>(()),
    {
        let ghost old_view = self@;
        let ghost c = category;
        let id = category.id;
        let parent_id = category.parent_id;
        let n = self.entities.len();
        self.entities.push(CategoryEntity::new(category));
        assert(self@.nodes =~= old_view.nodes.push(empty_category_node(c)));
        if parent_id != 0 {
            let p = *self.categories.get(&parent_id).unwrap();
            assert(self.categories@.contains_key(parent_id));
            assert(old_view.index.contains_key(parent_id));
            self.entities[p].sub_categories.push(n);
        } else {
            self.root_categories.push(n);
        }
        self.categories.insert(id, n);
        proof {
            let expected = old_view.create_category(c);
            assert(self@.nodes =~= expected.nodes);
            assert(self@.roots =~= expected.roots);
            assert(self@.index =~= expected.index);
            lemma_create_category_keeps_wf(old_view, c);
        }
        Ok(())
    }

    /// Creates a contact in the category with its category id, which must
    /// exist.
    pub fn create_contact(&mut self, contact: Contact) -> (r: Result<(), Error>)
        requires
            old(self).wf(),
            old(self)@.has_category(contact.category_id),
        ensures
            final(self).wf(),
            final(self)@ == old(self)@.create_contact(contact),
            r == Ok::<(), Error>(()),
    {
        let ghost old_view = self@;
        let ghost c = contact;
        let h = *self.categories.get(&contact.category_id).unwrap();
        assert(self.categories@.contains_key(contact.category_id));
        assert(self@.has_handle(h));
        self.entities[h].contacts.push(contact);
        proof {
            let expected = old_view.create_contact(c);
            assert(self@.nodes =~= expected.nodes);
            lemma_create_contact_keeps_wf(old_view, c);
        }
        Ok(())
    }

    /// Whether a category with id `id` has been created.
    pub fn has_category(&self, id: u32) -> (r: bool)
        ensures
            r == self@.has_category(id),
    {
        self.categories.contains_key(&id)
    }

    /// The tree of the category with handle `h`.
    fn tree_at(&self, h: usize) -> (tree: CategoryTree)
        requires
            self.wf(),
            self@.has_handle(h),
        ensures
            is_category_tree(self@, h as int, tree),
        decreases self@.nodes.len() - h,
    {
        let entity = &self.entities[h];
        assert(entity@ == self@.nodes[h as int]);
        let mut sub_categories: Vec<CategoryTree> = Vec::new();
        let mut j: usize = 0;
        while j < entity.sub_categories.len()
            invariant
                self.wf(),
                self@.has_handle(h),
                entity@ == self@.nodes[h as int],
                j <= entity.sub_categories@.len(),
                sub_categories@.len() == j,
                forall|k: int|
                    0 <= k < j ==> is_category_tree(
                        self@,
                        self@.nodes[h as int].sub_categories[k] as int,
                        #[trigger] sub_categories@[k],
                    ),
            decreases entity.sub_categories@.len() - j,
        {
            let c = entity.sub_categories[j];
            assert(self@.nodes[h as int].sub_categories[j as int] == c);
            assert(h < c < self@.nodes.len());
            let tree = self.tree_at(c);
            sub_categories.push(tree);
            j = j + 1;
        }
        CategoryTree {
            category: entity.category.duplicate(),
            sub_categories,
            contacts: duplicate_contacts(&entity.contacts),
        }
    }

    /// The top level categories, in the order they were created, each with
    /// everything under it.
    pub fn get_categorized_contacts(&self) -> (trees: Vec<CategoryTree>)
        requires
            self.wf(),
        ensures
            trees@.len() == self@.roots.len(),
            forall|i: int|
                0 <= i < trees@.len() ==> is_category_tree(
                    self@,
                    self@.roots[i] as int,
                    #[trigger] trees@[i],
                ),
    {
        let mut trees: Vec<CategoryTree> = Vec::new();
        let mut i: usize = 0;
        while i < self.root_categories.len()
            invariant
                self.wf(),
                i <= self@.roots.len(),
                trees@.len() == i,
                forall|k: int|
                    0 <= k < i ==> is_category_tree(self@, self@.roots[k] as int, #[trigger] trees@[k]),
            decreases self@.roots.len() - i,
        {
            let h = self.root_categories[i];
            assert(self@.roots[i as int] == h);
            trees.push(self.tree_at(h));
            i = i + 1;
        }
        trees
    }

    /// The handles of the top level categories, in the order they were
    /// created; `category_entity` resolves them.
    pub fn root_handles(&self) -> (roots: &Vec<usize>)
        ensures
            roots@ == self@.roots,
    {
        &self.root_categories
    }

    /// The category entity with handle `handle`, if there is one.
    pub fn category_entity(&self, handle: usize) -> (e: Option<&CategoryEntity>)
        ensures
            match e {
                Some(e) => self@.has_handle(handle) && e@ == self@.nodes[handle as int],
                None => !self@.has_handle(handle),
            },
    {
        if handle < self.entities.len() {
            Some(&self.entities[handle])
        } else {
            None
        }
    }
}

} // verus!
