use vstd::prelude::*;

use crate::dms::aggregate::{parent_not_found_message, Aggregate};
use crate::dms::persistent_objects::{File, Folder};
use crate::error::Error;
use crate::event::{binary_text_message, Event};

verus! {

/// The commands of the document management system. Each takes an event
/// whose text describes the folder or file to create; `parse` reads that
/// text (in JSON).
pub struct Commands {}

impl Commands {
    /// Creates the folder that the text of `event` describes.
    pub fn create_folder<P: Fn(String) -> Result<Folder, Error>>(
        event: &Event,
        aggregate: &mut Aggregate,
        parse: P,
    ) -> (r: Result<(), Error>)
        requires
            old(aggregate).wf(),
            forall|t: String| parse.requires((t,)),
        ensures
            final(aggregate).wf(),
            match *event {
                Event::Binary(_, _) => {
                    &&& r matches Err(e) && e.message@ == binary_text_message()
                    &&& final(aggregate)@ == old(aggregate)@
                },
                Event::Text(_, text) => exists|p: Result<Folder, Error>|
                    {
                        &&& #[trigger] parse.ensures((text,), p)
                        &&& match p {
                            Err(e) => r == Err::<(), Error>(e) && final(aggregate)@ == old(
                                aggregate,
                            )@,
                            Ok(folder) => {
                                &&& final(aggregate)@ == old(aggregate)@.create_folder(folder)
                                &&& r is Ok <==> (folder.parent_id == folder.id || old(
                                    aggregate,
                                )@.has_folder(folder.parent_id))
                                &&& r matches Err(e) ==> e.message@ == parent_not_found_message()
                            },
                        }
                    },
            },
    {
        let text = event.text()?;
        let folder = parse(text)?;
        aggregate.create_folder(folder)
    }

    /// Creates the file that the text of `event` describes.
    pub fn create_file<P: Fn(String) -> Result<File, Error>>(
        event: &Event,
        aggregate: &mut Aggregate,
        parse: P,
    ) -> (r: Result<(), Error>)
        requires
            old(aggregate).wf(),
            forall|t: String| parse.requires((t,)),
        ensures
            final(aggregate).wf(),
            match *event {
                Event::Binary(_, _) => {
                    &&& r matches Err(e) && e.message@ == binary_text_message()
                    &&& final(aggregate)@ == old(aggregate)@
                },
                Event::Text(_, text) => exists|p: Result<File, Error>|
                    {
                        &&& #[trigger] parse.ensures((text,), p)
                        &&& match p {
                            Err(e) => r == Err::<(), Error>(e) && final(aggregate)@ == old(
                                aggregate,
                            )@,
                            Ok(file) => {
                                &&& r is Ok <==> old(aggregate)@.has_folder(file.folder_id)
                                &&& r is Ok ==> final(aggregate)@ == old(aggregate)@.create_file(
                                    file,
                                )
                                &&& r matches Err(e) ==> e.message@ == parent_not_found_message()
                                    && final(aggregate)@ == old(aggregate)@
                            },
                        }
                    },
            },
    {
        let text = event.text()?;
        let file = parse(text)?;
        aggregate.create_file(file)
    }
}

} // verus!
