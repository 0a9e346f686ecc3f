use vstd::prelude::*;

use crate::error::Error;
use crate::event::{binary_text_message, Event};
use crate::phonebook::aggregate::Aggregate;
use crate::phonebook::persistent_objects::{Category, Contact};

verus! {

/// The commands that the REST interface of the phone book registers (as
/// `CreateCategory` and `CreateContact`). Each takes an event whose text
/// describes the category or contact to create; `parse` reads that text (in
/// JSON). When the category to create in does not exist the command cannot
/// be carried out: it returns `None` and changes nothing.
pub struct PhonebookApi {}

impl PhonebookApi {
    /// Creates the category that the text of `event` describes.
    pub fn create_category<P: Fn(String) -> Result<Category, Error>>(
        event: &Event,
        aggregate: &mut Aggregate,
        parse: P,
    ) -> (r: Option<Result<(), Error>>)
        requires
            old(aggregate).wf(),
            forall|t: String| parse.requires((t,)),
        ensures
            final(aggregate).wf(),
            match *event {
                Event::Binary(_, _) => {
                    &&& r is Some
                    &&& r->0 matches Err(e) && e.message@ == binary_text_message()
                    &&& final(aggregate)@ == old(aggregate)@
                },
                Event::Text(_, text) => exists|p: Result<Category, Error>|
                    {
                        &&& #[trigger] parse.ensures((text,), p)
                        &&& match p {
                            Err(e) => r == Some(Err::<(), Error>(e)) && final(aggregate)@ == old(
                                aggregate,
                            )@,
                            Ok(category) => if old(aggregate)@.can_create_category(category) {
                                &&& r == Some(Ok::<(), Error>(()))
                                &&& final(aggregate)@ == old(aggregate)@.create_category(category)
                            } else {
                                &&& r is None
                                &&& final(aggregate)@ == old(aggregate)@
                            },
                        }
                    },
            },
    {
        let text = match event.text() {
            Ok(text) => text,
            Err(e) => return Some(Err(e)),
        };
        let parsed = parse(text);
        let category = match parsed {
            Ok(category) => category,
            Err(e) => return Some(Err(e)),
        };
        if category.parent_id != 0 && !aggregate.has_category(category.parent_id) {
            return None;
        }
        Some(aggregate.create_category(category))
    }

    /// Creates the contact that the text of `event` describes.
    pub fn create_contact<P: Fn(String) -> Result<Contact, Error>>(
        event: &Event,
        aggregate: &mut Aggregate,
        parse: P,
    ) -> (r: Option<Result<(), Error>>)
        requires
            old(aggregate).wf(),
            forall|t: String| parse.requires((t,)),
        ensures
            final(aggregate).wf(),
            match *event {
                Event::Binary(_, _) => {
                    &&& r is Some
                    &&& r->0 matches Err(e) && e.message@ == binary_text_message()
                    &&& final(aggregate)@ == old(aggregate)@
                },
                Event::Text(_, text) => exists|p: Result<Contact, Error>|
                    {
                        &&& #[trigger] parse.ensures((text,), p)
                        &&& match p {
                            Err(e) => r == Some(Err::<(), Error>(e)) && final(aggregate)@ == old(
                                aggregate,
                            )@,
                            Ok(contact) => if old(aggregate)@.has_category(contact.category_id) {
                                &&& r == Some(Ok::<(), Error>(()))
                                &&& final(aggregate)@ == old(aggregate)@.create_contact(contact)
                            } else {
                                &&& r is None
                                &&& final(aggregate)@ == old(aggregate)@
                            },
                        }
                    },
            },
    {
        let text = match event.text() {
            Ok(text) => text,
            Err(e) => return Some(Err(e)),
        };
        let parsed = parse(text);
        let contact = match parsed {
            Ok(contact) => contact,
            Err(e) => return Some(Err(e)),
        };
        if !aggregate.has_category(contact.category_id) {
            return None;
        }
        Some(aggregate.create_contact(contact))
    }
}

} // verus!
