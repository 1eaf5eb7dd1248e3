//! One record as the table-structured formats store it.

use vstd::prelude::*;

verus! {

/// A record placed in a table: `class` names the table, `name` is the key
/// under which the record stands there, `content` is its text.
pub struct Log {
    pub class: String,
    pub content: String,
    pub name: String,
}

impl Log {
    /// A record of the table `class`, with the text `content`, under `name`.
    pub fn new(class: String, content: String, name: String) -> (log: Log)
        ensures
            log.class == class,
            log.content == content,
            log.name == name,
    {
        Log { class, content, name }
    }
}

} // verus!
