//! The values of the store and the entries of its journal.

use vstd::prelude::*;

verus! {

/// A stored value. Both forms carry the JSON text that is written to the log.
#[derive(Debug)]
pub enum DBEntry {
    /// A value that the host owns: its cached JSON text and the host's handle
    /// for it, which the host releases when the value leaves the store.
    Reference(String, u64),
    /// A value that the store owns, as JSON text.
    Native(String),
}

/// A stored value as contracts see it.
pub enum EntryView {
    Reference(Seq<char>, u64),
    Native(Seq<char>),
}

impl EntryView {
    /// The JSON text of the value.
    pub open spec fn text(self) -> Seq<char> {
        match self {
            EntryView::Reference(text, _) => text,
            EntryView::Native(text) => text,
        }
    }
}

impl View for DBEntry {
    type V = EntryView;

    open spec fn view(&self) -> EntryView {
        match self {
            DBEntry::Reference(text, handle) => EntryView::Reference(text@, *handle),
            DBEntry::Native(text) => EntryView::Native(text@),
        }
    }
}

impl DeepView for DBEntry {
    type V = EntryView;

    open spec fn deep_view(&self) -> EntryView {
        self@
    }
}

impl DBEntry {
    /// The JSON text of the value.
    pub fn text(&self) -> (r: &str)
        ensures
            r@ == self@.text(),
    {
        match self {
            DBEntry::Reference(text, _) => text.as_str(),
            DBEntry::Native(text) => text.as_str(),
        }
    }

    /// A copy of the value.
    pub fn duplicate(&self) -> (r: DBEntry)
        ensures
            r@ == self@,
    {
        match self {
            DBEntry::Reference(text, handle) => DBEntry::Reference(text.clone(), *handle),
            DBEntry::Native(text) => DBEntry::Native(text.clone()),
        }
    }
}

/// A write that has not reached the log yet.
#[derive(Debug)]
pub enum JournalEntry {
    /// The key was set; the value is looked up when the journal is written.
    Put(String),
    /// The key was deleted.
    Delete(String),
    /// The whole store was cleared.
    Clear,
}

/// A journal entry as contracts see it.
pub enum JournalView {
    Put(Seq<char>),
    Delete(Seq<char>),
    Clear,
}

impl JournalView {
    /// Whether the entry is a `Put` or a `Delete` of `key`.
    pub open spec fn touches(self, key: Seq<char>) -> bool {
        match self {
            JournalView::Put(k) => k == key,
            JournalView::Delete(k) => k == key,
            JournalView::Clear => false,
        }
    }
}

impl View for JournalEntry {
    type V = JournalView;

    open spec fn view(&self) -> JournalView {
        match self {
            JournalEntry::Put(k) => JournalView::Put(k@),
            JournalEntry::Delete(k) => JournalView::Delete(k@),
            JournalEntry::Clear => JournalView::Clear,
        }
    }
}

impl DeepView for JournalEntry {
    type V = JournalView;

    open spec fn deep_view(&self) -> JournalView {
        self@
    }
}

impl JournalEntry {
    /// A copy of the entry.
    pub fn duplicate(&self) -> (r: JournalEntry)
        ensures
            r@ == self@,
    {
        match self {
            JournalEntry::Put(k) => JournalEntry::Put(k.clone()),
            JournalEntry::Delete(k) => JournalEntry::Delete(k.clone()),
            JournalEntry::Clear => JournalEntry::Clear,
        }
    }

    /// Whether the entry is a `Put` or a `Delete` of `key`.
    pub fn touches(&self, key: &String) -> (r: bool)
        ensures
            r == self@.touches(key@),
    {
        match self {
            JournalEntry::Put(k) => *k == *key,
            JournalEntry::Delete(k) => *k == *key,
            JournalEntry::Clear => false,
        }
    }
}

} // verus!
