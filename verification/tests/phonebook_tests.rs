use serde_json::Value;
use socrates::error::Error;
use socrates::event::Event;
use socrates::phonebook::aggregate::Aggregate;
use socrates::phonebook::entities::CategoryTree;
use socrates::phonebook::persistent_objects::{Category, Contact};
use socrates::phonebook::phonebook_api::PhonebookApi;

fn object(s: &str) -> Result<serde_json::Map<String, Value>, Error> {
    match serde_json::from_str::<Value>(s) {
        Ok(Value::Object(m)) => Ok(m),
        _ => Err(Error::new("expected a JSON object")),
    }
}

fn field_u32(o: &serde_json::Map<String, Value>, name: &str) -> Result<u32, Error> {
    match o.get(name).and_then(|v| v.as_u64()) {
        Some(n) if n <= u32::MAX as u64 => Ok(n as u32),
        _ => Err(Error::new(&format!("missing field `{}`", name))),
    }
}

fn field_string(o: &serde_json::Map<String, Value>, name: &str) -> Result<String, Error> {
    match o.get(name).and_then(|v| v.as_str()) {
        Some(s) => Ok(s.to_string()),
        None => Err(Error::new(&format!("missing field `{}`", name))),
    }
}

fn category_from_json(s: &str) -> Result<Category, Error> {
    let o = object(s)?;
    Ok(Category {
        id: field_u32(&o, "id")?,
        parent_id: field_u32(&o, "parent_id")?,
        name: field_string(&o, "name")?,
    })
}

fn contact_from_json(s: &str) -> Result<Contact, Error> {
    let o = object(s)?;
    Ok(Contact {
        id: field_u32(&o, "id")?,
        category_id: field_u32(&o, "category_id")?,
        name: field_string(&o, "name")?,
        phone_number: field_string(&o, "phone_number")?,
    })
}

fn tree_value(tree: &CategoryTree) -> Value {
    let mut category = serde_json::Map::new();
    category.insert("id".to_string(), Value::from(tree.category.id));
    category.insert("parent_id".to_string(), Value::from(tree.category.parent_id));
    category.insert("name".to_string(), Value::from(tree.category.name.clone()));
    let mut m = serde_json::Map::new();
    m.insert("category".to_string(), Value::Object(category));
    let subs: Vec<Value> = tree.sub_categories.iter().map(tree_value).collect();
    m.insert("sub_categories".to_string(), Value::Array(subs));
    let contacts: Vec<Value> = tree
        .contacts
        .iter()
        .map(|c| {
            let mut o = serde_json::Map::new();
            o.insert("id".to_string(), Value::from(c.id));
            o.insert("category_id".to_string(), Value::from(c.category_id));
            o.insert("name".to_string(), Value::from(c.name.clone()));
            o.insert("phone_number".to_string(), Value::from(c.phone_number.clone()));
            Value::Object(o)
        })
        .collect();
    m.insert("contacts".to_string(), Value::Array(contacts));
    Value::Object(m)
}

fn to_json(trees: &Vec<CategoryTree>) -> String {
    serde_json::to_string(&Value::Array(trees.iter().map(tree_value).collect())).unwrap()
}

#[test]
fn test_create_phonebook() {
    let mut aggregate = Aggregate::default();

    aggregate.create_category(category_from_json(r#"{"id":1,"parent_id":0,"name":"Private"}"#).unwrap()).unwrap();
    aggregate.create_category(category_from_json(r#"{"id":2,"parent_id":1,"name":"Friends"}"#).unwrap()).unwrap();
    aggregate.create_contact(contact_from_json(r#"{"id":1,"category_id":2,"name":"John Smith","phone_number":"+1-212-456-7890"}"#).unwrap()).unwrap();

    let result = to_json(&aggregate.get_categorized_contacts());

    assert_eq!(
        result,
        r#"[{"category":{"id":1,"parent_id":0,"name":"Private"},"sub_categories":[{"category":{"id":2,"parent_id":1,"name":"Friends"},"sub_categories":[],"contacts":[{"id":1,"category_id":2,"name":"John Smith","phone_number":"+1-212-456-7890"}]}],"contacts":[]}]"#
    );
}

#[test]
fn empty_phonebook_has_no_categories() {
    let aggregate = Aggregate::default();
    assert!(aggregate.get_categorized_contacts().is_empty());
    assert!(aggregate.root_handles().is_empty());
    assert!(!aggregate.has_category(0));
    assert!(aggregate.category_entity(0).is_none());
    assert_eq!(to_json(&aggregate.get_categorized_contacts()), "[]");
}

#[test]
fn top_level_categories_keep_their_order() {
    let mut aggregate = Aggregate::default();
    aggregate.create_category(Category { id: 4, parent_id: 0, name: "Work".to_string() }).unwrap();
    aggregate.create_category(Category { id: 2, parent_id: 0, name: "Home".to_string() }).unwrap();
    assert_eq!(aggregate.root_handles(), &vec![0, 1]);
    assert!(aggregate.has_category(4));
    assert!(aggregate.has_category(2));
}

#[test]
fn api_reports_a_missing_parent_category() {
    let mut aggregate = Aggregate::default();
    let event = Event::Text(
        "CreateCategory".to_string(),
        r#"{"id":2,"parent_id":1,"name":"Friends"}"#.to_string(),
    );
    let r = PhonebookApi::create_category(&event, &mut aggregate, |t: String| category_from_json(&t));
    assert_eq!(r, None);
    assert!(!aggregate.has_category(2));
}

#[test]
fn api_reports_a_missing_contact_category() {
    let mut aggregate = Aggregate::default();
    let event = Event::Text(
        "CreateContact".to_string(),
        r#"{"id":1,"category_id":2,"name":"John Smith","phone_number":"1"}"#.to_string(),
    );
    let r = PhonebookApi::create_contact(&event, &mut aggregate, |t: String| contact_from_json(&t));
    assert_eq!(r, None);
}

#[test]
fn api_creates_categories_and_contacts() {
    let mut aggregate = Aggregate::default();
    let event = Event::Text(
        "CreateCategory".to_string(),
        r#"{"id":1,"parent_id":0,"name":"Private"}"#.to_string(),
    );
    let r = PhonebookApi::create_category(&event, &mut aggregate, |t: String| category_from_json(&t));
    assert_eq!(r, Some(Ok(())));
    let event = Event::Text(
        "CreateContact".to_string(),
        r#"{"id":9,"category_id":1,"name":"Ann","phone_number":"5"}"#.to_string(),
    );
    let r = PhonebookApi::create_contact(&event, &mut aggregate, |t: String| contact_from_json(&t));
    assert_eq!(r, Some(Ok(())));
    assert_eq!(aggregate.category_entity(0).unwrap().contacts[0].name, "Ann");
}

#[test]
fn api_refuses_binary_events_and_passes_on_parse_errors() {
    let mut aggregate = Aggregate::default();
    let event = Event::Binary("CreateCategory".to_string(), vec![0]);
    let r = PhonebookApi::create_category(&event, &mut aggregate, |t: String| category_from_json(&t));
    assert_eq!(r, Some(Err(Error::new("Text can't be returned from a binary message."))));
    let event = Event::Text("CreateContact".to_string(), "[]".to_string());
    let r = PhonebookApi::create_contact(&event, &mut aggregate, |t: String| contact_from_json(&t));
    assert_eq!(r, Some(Err(Error::new("expected a JSON object"))));
}

#[test]
fn sub_categories_come_after_their_parent() {
    let mut aggregate = Aggregate::default();
    aggregate.create_category(Category { id: 1, parent_id: 0, name: "A".to_string() }).unwrap();
    aggregate.create_category(Category { id: 2, parent_id: 1, name: "B".to_string() }).unwrap();
    aggregate.create_category(Category { id: 1, parent_id: 2, name: "C".to_string() }).unwrap();
    for handle in 0..3usize {
        let entity = aggregate.category_entity(handle).unwrap();
        for sub in &entity.sub_categories {
            assert!(*sub > handle);
        }
    }
    assert_eq!(aggregate.category_entity(1).unwrap().sub_categories, vec![2]);
}

#[test]
fn a_category_entity_reads_as_its_category() {
    let mut aggregate = Aggregate::default();
    aggregate.create_category(Category { id: 7, parent_id: 0, name: "Friends".to_string() }).unwrap();
    let entity = aggregate.category_entity(0).unwrap();
    assert_eq!(entity.id, 7);
    assert_eq!(entity.parent_id, 0);
    assert_eq!(entity.name, "Friends");
}

#[test]
fn every_category_and_contact_appears_once_in_the_forest() {
    let mut aggregate = Aggregate::default();
    aggregate.create_category(Category { id: 1, parent_id: 0, name: "A".to_string() }).unwrap();
    aggregate.create_category(Category { id: 2, parent_id: 1, name: "B".to_string() }).unwrap();
    aggregate.create_category(Category { id: 3, parent_id: 0, name: "C".to_string() }).unwrap();
    aggregate.create_category(Category { id: 4, parent_id: 1, name: "D".to_string() }).unwrap();
    aggregate.create_contact(Contact { id: 1, category_id: 2, name: "x".to_string(), phone_number: "1".to_string() }).unwrap();
    aggregate.create_contact(Contact { id: 2, category_id: 3, name: "y".to_string(), phone_number: "2".to_string() }).unwrap();
    let forest = aggregate.get_categorized_contacts();
    assert_eq!(forest.len(), 2);
    assert_eq!(forest[0].category.id, 1);
    assert_eq!(forest[1].category.id, 3);
    assert_eq!(forest[0].sub_categories.len(), 2);
    assert_eq!(forest[0].sub_categories[0].category.id, 2);
    assert_eq!(forest[0].sub_categories[1].category.id, 4);
    assert_eq!(forest[0].sub_categories[0].contacts.len(), 1);
    assert_eq!(forest[0].sub_categories[0].contacts[0].id, 1);
    assert!(forest[0].contacts.is_empty());
    assert_eq!(forest[1].contacts.len(), 1);
    assert_eq!(forest[1].contacts[0].id, 2);
}
