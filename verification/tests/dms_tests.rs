use serde_json::Value;
use socrates::dms::aggregate::Aggregate;
use socrates::dms::commands::Commands;
use socrates::dms::dms_api::DmsApi;
use socrates::dms::entities::FolderTree;
use socrates::dms::persistent_objects::{File, Folder};
use socrates::error::Error;
use socrates::event::Event;

fn field_u32(object: &serde_json::Map<String, Value>, name: &str) -> Result<u32, Error> {
    match object.get(name).and_then(|v| v.as_u64()) {
        Some(n) if n <= u32::MAX as u64 => Ok(n as u32),
        _ => Err(Error::new(&format!("missing field `{}`", name))),
    }
}

fn field_string(object: &serde_json::Map<String, Value>, name: &str) -> Result<String, Error> {
    match object.get(name).and_then(|v| v.as_str()) {
        Some(s) => Ok(s.to_string()),
        None => Err(Error::new(&format!("missing field `{}`", name))),
    }
}

fn object(s: &str) -> Result<serde_json::Map<String, Value>, Error> {
    match serde_json::from_str::<Value>(s) {
        Ok(Value::Object(m)) => Ok(m),
        _ => Err(Error::new("expected a JSON object")),
    }
}

fn folder_from_json(s: &str) -> Result<Folder, Error> {
    let o = object(s)?;
    Ok(Folder {
        id: field_u32(&o, "id")?,
        parent_id: field_u32(&o, "parent_id")?,
        name: field_string(&o, "name")?,
    })
}

fn file_from_json(s: &str) -> Result<File, Error> {
    let o = object(s)?;
    Ok(File {
        id: field_u32(&o, "id")?,
        folder_id: field_u32(&o, "folder_id")?,
        name: field_string(&o, "name")?,
    })
}

fn folder_value(folder: &Folder) -> Value {
    let mut m = serde_json::Map::new();
    m.insert("id".to_string(), Value::from(folder.id));
    m.insert("parent_id".to_string(), Value::from(folder.parent_id));
    m.insert("name".to_string(), Value::from(folder.name.clone()));
    Value::Object(m)
}

fn file_value(file: &File) -> Value {
    let mut m = serde_json::Map::new();
    m.insert("id".to_string(), Value::from(file.id));
    m.insert("folder_id".to_string(), Value::from(file.folder_id));
    m.insert("name".to_string(), Value::from(file.name.clone()));
    Value::Object(m)
}

fn tree_value(tree: &FolderTree) -> Value {
    let mut m = serde_json::Map::new();
    m.insert("folder".to_string(), folder_value(&tree.folder));
    let subs: Vec<Value> = tree.sub_folders.iter().map(tree_value).collect();
    m.insert("sub_folders".to_string(), Value::Array(subs));
    let files: Vec<Value> = tree.files.iter().map(file_value).collect();
    m.insert("files".to_string(), Value::Array(files));
    Value::Object(m)
}

fn to_json(tree: &FolderTree) -> String {
    serde_json::to_string(&tree_value(tree)).unwrap()
}

#[test]
fn test_folder_tree() {
    let mut aggregate = Aggregate::default();

    aggregate
        .create_folder(folder_from_json(r#"{"id":1,"parent_id":0,"name":"folder-1"}"#).unwrap())
        .unwrap();
    aggregate
        .create_folder(folder_from_json(r#"{"id":2,"parent_id":1,"name":"folder-2"}"#).unwrap())
        .unwrap();
    aggregate
        .create_file(file_from_json(r#"{"id":1,"folder_id":2,"name":"test.txt"}"#).unwrap())
        .unwrap();

    let result = to_json(&aggregate.get_folder_tree());

    assert_eq!(
        result,
        r#"{"folder":{"id":0,"parent_id":0,"name":"root"},"sub_folders":[{"folder":{"id":1,"parent_id":0,"name":"folder-1"},"sub_folders":[{"folder":{"id":2,"parent_id":1,"name":"folder-2"},"sub_folders":[],"files":[{"id":1,"folder_id":2,"name":"test.txt"}]}],"files":[]}],"files":[]}"#
    );
}

#[test]
fn default_holds_only_the_root_folder() {
    let aggregate = Aggregate::default();
    let root = aggregate.get_folder_tree();
    assert_eq!(root.folder, Folder { id: 0, parent_id: 0, name: "root".to_string() });
    assert!(root.sub_folders.is_empty());
    assert!(root.files.is_empty());
    assert!(aggregate.folder_entity(1).is_none());
    assert_eq!(to_json(&root), r#"{"folder":{"id":0,"parent_id":0,"name":"root"},"sub_folders":[],"files":[]}"#);
}

#[test]
fn folder_in_missing_parent_is_refused_but_registered() {
    let mut aggregate = Aggregate::default();
    let r = aggregate.create_folder(Folder { id: 5, parent_id: 9, name: "lost".to_string() });
    assert_eq!(r, Err(Error::new("Parent folder was not found")));
    // The folder is not in the tree, but files can be created in it.
    assert!(aggregate.get_folder_tree().sub_folders.is_empty());
    assert_eq!(aggregate.folder_entity(1).unwrap().folder.name, "lost");
    let r = aggregate.create_file(File { id: 1, folder_id: 5, name: "a.txt".to_string() });
    assert_eq!(r, Ok(()));
    assert_eq!(aggregate.folder_entity(1).unwrap().files.len(), 1);
}

#[test]
fn file_in_missing_folder_is_refused() {
    let mut aggregate = Aggregate::default();
    let r = aggregate.create_file(File { id: 1, folder_id: 3, name: "a.txt".to_string() });
    assert_eq!(r, Err(Error::new("Parent folder was not found")));
    assert!(aggregate.get_folder_tree().files.is_empty());
    assert!(aggregate.folder_entity(1).is_none());
}

#[test]
fn folder_created_again_replaces_the_registered_one() {
    let mut aggregate = Aggregate::default();
    aggregate.create_folder(Folder { id: 1, parent_id: 0, name: "first".to_string() }).unwrap();
    aggregate.create_folder(Folder { id: 1, parent_id: 0, name: "second".to_string() }).unwrap();
    aggregate.create_file(File { id: 7, folder_id: 1, name: "f".to_string() }).unwrap();
    assert_eq!(aggregate.folder_entity(0).unwrap().sub_folders, vec![1, 2]);
    assert!(aggregate.folder_entity(1).unwrap().files.is_empty());
    assert_eq!(aggregate.folder_entity(2).unwrap().files.len(), 1);
}

#[test]
fn folder_that_is_its_own_parent_becomes_its_own_sub_folder() {
    let mut aggregate = Aggregate::default();
    let r = aggregate.create_folder(Folder { id: 3, parent_id: 3, name: "loop".to_string() });
    assert_eq!(r, Ok(()));
    assert_eq!(aggregate.folder_entity(1).unwrap().sub_folders, vec![1]);
}

#[test]
fn commands_read_the_text_of_the_event() {
    let mut aggregate = Aggregate::default();
    let event = Event::Text(
        "create_folder".to_string(),
        r#"{"id":1,"parent_id":0,"name":"docs"}"#.to_string(),
    );
    let r = Commands::create_folder(&event, &mut aggregate, |t: String| folder_from_json(&t));
    assert_eq!(r, Ok(()));
    let event = Event::Text(
        "create_file".to_string(),
        r#"{"id":4,"folder_id":1,"name":"a.txt"}"#.to_string(),
    );
    let r = DmsApi::create_file(&event, &mut aggregate, |t: String| file_from_json(&t));
    assert_eq!(r, Ok(()));
    assert_eq!(aggregate.folder_entity(1).unwrap().files[0].name, "a.txt");
}

#[test]
fn commands_refuse_binary_events() {
    let mut aggregate = Aggregate::default();
    let event = Event::Binary("create_folder".to_string(), vec![1, 2, 3]);
    let r = DmsApi::create_folder(&event, &mut aggregate, |t: String| folder_from_json(&t));
    assert_eq!(r, Err(Error::new("Text can't be returned from a binary message.")));
    let r = Commands::create_file(&event, &mut aggregate, |t: String| file_from_json(&t));
    assert_eq!(r, Err(Error::new("Text can't be returned from a binary message.")));
    assert!(aggregate.folder_entity(1).is_none());
}

#[test]
fn commands_pass_on_parse_errors() {
    let mut aggregate = Aggregate::default();
    let event = Event::Text("create_folder".to_string(), "not json".to_string());
    let r = Commands::create_folder(&event, &mut aggregate, |t: String| folder_from_json(&t));
    assert_eq!(r, Err(Error::new("expected a JSON object")));
    assert!(aggregate.folder_entity(1).is_none());
}

#[test]
fn a_folder_that_is_its_own_parent_stays_out_of_the_tree() {
    let mut aggregate = Aggregate::default();
    aggregate.create_folder(Folder { id: 0, parent_id: 0, name: "again".to_string() }).unwrap();
    aggregate.create_folder(Folder { id: 1, parent_id: 0, name: "under".to_string() }).unwrap();
    // The root folder's tree is finite and does not show them.
    assert_eq!(
        to_json(&aggregate.get_folder_tree()),
        r#"{"folder":{"id":0,"parent_id":0,"name":"root"},"sub_folders":[],"files":[]}"#
    );
}

#[test]
fn a_file_can_be_created_in_the_root_folder() {
    let mut aggregate = Aggregate::default();
    let event = Event::Text(
        "create_file".to_string(),
        r#"{"id":1,"folder_id":0,"name":"a.txt"}"#.to_string(),
    );
    let r = Commands::create_file(&event, &mut aggregate, |t: String| file_from_json(&t));
    assert_eq!(r, Ok(()));
    assert_eq!(
        to_json(&aggregate.get_folder_tree()),
        r#"{"folder":{"id":0,"parent_id":0,"name":"root"},"sub_folders":[],"files":[{"id":1,"folder_id":0,"name":"a.txt"}]}"#
    );
}

#[test]
fn a_folder_entity_reads_as_its_folder() {
    let mut aggregate = Aggregate::default();
    aggregate.create_folder(Folder { id: 3, parent_id: 0, name: "docs".to_string() }).unwrap();
    let entity = aggregate.folder_entity(1).unwrap();
    assert_eq!(entity.id, 3);
    assert_eq!(entity.parent_id, 0);
    assert_eq!(entity.name, "docs");
}

#[test]
fn a_cloned_aggregate_holds_the_same_tree() {
    let mut aggregate = Aggregate::default();
    aggregate.create_folder(Folder { id: 3, parent_id: 0, name: "docs".to_string() }).unwrap();
    aggregate.create_file(File { id: 1, folder_id: 3, name: "a.txt".to_string() }).unwrap();
    let copy = aggregate.clone();
    assert_eq!(to_json(&copy.get_folder_tree()), to_json(&aggregate.get_folder_tree()));
    assert_eq!(copy.folder_entity(1).unwrap().files.len(), 1);
}
