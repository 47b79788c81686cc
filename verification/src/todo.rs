//! Task lists as they are exported: each list with all of its tasks.

use vstd::prelude::*;
use crate::reader::CollectionReader;

verus! {

/// A task list and its tasks. `K` is the kind of well-known list that the
/// server says it is, `T` a task.
#[derive(Debug)]
pub struct OutputList<K, T> {
    pub display_name: String,
    pub id: String,
    pub wellknown_list_name: K,
    pub children: Vec<T>,
}

impl<K, T> OutputList<K, T> {
    /// The list of this name, id and kind, whose tasks are all that `reader`
    /// has accumulated, each once and in the order of the pages.
    pub fn collect(
        display_name: String,
        id: String,
        wellknown_list_name: K,
        reader: CollectionReader<T>,
    ) -> (r: Self)
        ensures
            r.display_name == display_name,
            r.id == id,
            r.wellknown_list_name == wellknown_list_name,
            r.children@ == reader@.items,
    {
        OutputList { display_name, id, wellknown_list_name, children: reader.into_items() }
    }
}

} // verus!
