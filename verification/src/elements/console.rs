//! Bounded message history of the console element.
use vstd::prelude::*;
use std::collections::VecDeque;
use crate::text::document::{Text, is_plain_text};

verus! {

/// Entry in the console history
#[derive(Debug)]
pub enum Entry {
    Info(String),
    Warn(String),
    Error(String),
}

impl Entry {
    /// The message of the entry.
    pub open spec fn message(&self) -> Seq<char> {
        match self {
            Entry::Info(t) => t@,
            Entry::Warn(t) => t@,
            Entry::Error(t) => t@,
        }
    }

    /// Returns the [text](Text) representation of the entry: its message as a plain text,
    /// shown on up to `terminal_rows` lines when that is known.
    pub fn as_text(&self, terminal_rows: Option<u16>) -> (r: Text)
        ensures
            is_plain_text(r, self.message(), terminal_rows),
    {
        match self {
            Entry::Info(t) => Text::plain(t.as_str(), terminal_rows),
            Entry::Warn(t) => Text::plain(t.as_str(), terminal_rows),
            Entry::Error(t) => Text::plain(t.as_str(), terminal_rows),
        }
    }
}

/// History for the console: the most recent entries, at most `size` of them after each push,
/// and a version that changes on every modification.
#[derive(Debug)]
pub struct History {
    store: VecDeque<Entry>,
    version: usize,
    size: u16,
}

/// The entries kept after appending `entry` to `store` with room for `size` entries: the last
/// `size` of them.
pub open spec fn keep_last(store: Seq<Entry>, entry: Entry, size: u16) -> Seq<Entry> {
    let all = store.push(entry);
    if all.len() > size { all.skip(all.len() - size) } else { all }
}

/// The version after one more modification, wrapping around at `usize::MAX`.
pub open spec fn next_version(v: usize) -> usize {
    if v == usize::MAX { 0 } else { (v + 1) as usize }
}

impl History {
    /// The stored entries, oldest first.
    pub closed spec fn entries(&self) -> Seq<Entry> {
        self.store@
    }

    /// The modification counter.
    pub closed spec fn spec_version(&self) -> usize {
        self.version
    }

    /// The maximum number of entries kept by a push.
    pub closed spec fn spec_size(&self) -> u16 {
        self.size
    }

    /// New, empty console history keeping up to 38 entries.
    pub fn new() -> (r: Self)
        ensures
            r.entries() == Seq::<Entry>::empty(),
            r.spec_version() == 0,
            r.spec_size() == 38,
    {
        Self { store: VecDeque::new(), version: 0, size: 38 }
    }

    /// Ticks the version
    pub fn tick(&mut self)
        ensures
            final(self).entries() == old(self).entries(),
            final(self).spec_size() == old(self).spec_size(),
            final(self).spec_version() == next_version(old(self).spec_version()),
    {
        self.version = self.version.wrapping_add(1);
    }

    /// Sets the maximum number of entries kept by later pushes, and ticks the version.
    pub fn set_size(&mut self, size: u16)
        ensures
            final(self).entries() == old(self).entries(),
            final(self).spec_size() == size,
            final(self).spec_version() == next_version(old(self).spec_version()),
    {
        self.size = size;
        self.tick();
    }

    /// The stored entries, oldest first.
    pub fn store(&self) -> (r: &VecDeque<Entry>)
        ensures
            r@ == self.entries(),
    {
        &self.store
    }

    /// The modification counter.
    pub fn version(&self) -> (r: usize)
        ensures
            r == self.spec_version(),
    {
        self.version
    }

    /// The maximum number of entries kept by a push.
    pub fn size(&self) -> (r: u16)
        ensures
            r == self.spec_size(),
    {
        self.size
    }
}

/// Push a new `entry` to the console history, ticking the version and dropping the oldest
/// entries beyond the history's size.
pub fn push_history(history: &mut History, entry: Entry)
    ensures
        final(history).entries() == keep_last(old(history).entries(), entry, old(history).spec_size()),
        final(history).spec_size() == old(history).spec_size(),
        final(history).spec_version() == next_version(old(history).spec_version()),
{
    history.store.push_back(entry);
    history.tick();
    let len = history.store.len();
    let size = history.size as usize;
    let new_start = if len > size { len - size } else { 0 };
    if new_start > 0 {
        let kept = history.store.split_off(new_start);
        history.store = kept;
    }
    proof {
        let all = old(history).entries().push(entry);
        assert(history.store@ =~= keep_last(old(history).entries(), entry, old(history).spec_size()));
    }
}

/// The console element: its operations on a console history.
pub struct Console;

impl Console {
    /// Sets the max console history size
    pub fn set_history_size(history: &mut History, size: u16)
        ensures
            final(history).entries() == old(history).entries(),
            final(history).spec_size() == size,
            final(history).spec_version() == next_version(old(history).spec_version()),
    {
        history.set_size(size);
    }

    /// Logs a message to console
    pub fn log(history: &mut History, text: String)
        ensures
            final(history).entries() == keep_last(old(history).entries(), Entry::Info(text), old(history).spec_size()),
            final(history).spec_size() == old(history).spec_size(),
            final(history).spec_version() == next_version(old(history).spec_version()),
    {
        push_history(history, Entry::Info(text))
    }

    /// Prints a message to console
    pub fn print(history: &mut History, text: String)
        ensures
            final(history).entries() == keep_last(old(history).entries(), Entry::Info(text), old(history).spec_size()),
            final(history).spec_size() == old(history).spec_size(),
            final(history).spec_version() == next_version(old(history).spec_version()),
    {
        push_history(history, Entry::Info(text))
    }

    /// Prints a warning message to console
    pub fn warn(history: &mut History, text: String)
        ensures
            final(history).entries() == keep_last(old(history).entries(), Entry::Warn(text), old(history).spec_size()),
            final(history).spec_size() == old(history).spec_size(),
            final(history).spec_version() == next_version(old(history).spec_version()),
    {
        push_history(history, Entry::Warn(text))
    }

    /// Prints an error message to console
    pub fn error(history: &mut History, text: String)
        ensures
            final(history).entries() == keep_last(old(history).entries(), Entry::Error(text), old(history).spec_size()),
            final(history).spec_size() == old(history).spec_size(),
            final(history).spec_version() == next_version(old(history).spec_version()),
    {
        push_history(history, Entry::Error(text))
    }
}

/// Keeping the last entries never leaves more than the history's size, and the newest entry
/// is kept whenever the size is not zero.
pub proof fn lemma_keep_last_bounded(store: Seq<Entry>, entry: Entry, size: u16)
    ensures
        keep_last(store, entry, size).len() == if store.len() + 1 > size {
            size as int
        } else {
            (store.len() + 1) as int
        },
        size > 0 ==> keep_last(store, entry, size).last() == entry,
{
}

/// State of the console's open/close toggle: whether it is open, and the size and border it
/// had before it was closed.
#[derive(Debug, Clone, Copy)]
pub struct ConsoleToggle {
    pub last_size: crate::style::Size,
    pub last_border: (bool, bool, bool, bool, Option<crate::code::Color>),
    pub opened: bool,
}

impl ConsoleToggle {
    /// An open console's toggle.
    pub fn new() -> (r: Self)
        ensures
            r.opened,
            r.last_size == (crate::style::Size {
                width: crate::style::SizeValue::Auto(0),
                height: crate::style::SizeValue::Auto(0),
            }),
            r.last_border == (false, false, false, false, None::<crate::code::Color>),
    {
        ConsoleToggle {
            last_size: crate::style::Size::default(),
            last_border: (false, false, false, false, None),
            opened: true,
        }
    }

    /// The toggle and the console's style after a toggle: closing saves the size and border and
    /// collapses the console to nothing; opening restores them.
    pub open spec fn spec_toggle(self, style: crate::style::Style) -> (ConsoleToggle, crate::style::Style) {
        if self.opened {
            (
                ConsoleToggle { last_size: style.size, last_border: style.border, opened: false },
                crate::style::Style {
                    size: crate::style::Size {
                        width: crate::style::SizeValue::Cells(0),
                        height: crate::style::SizeValue::Cells(0),
                    },
                    border: (false, false, false, false, None),
                    ..style
                },
            )
        } else {
            (
                ConsoleToggle { opened: true, ..self },
                crate::style::Style { size: self.last_size, border: self.last_border, ..style },
            )
        }
    }

    /// Toggles the console whose style is `style` (see [`ConsoleToggle::spec_toggle`]). Returns
    /// whether it was open.
    pub fn toggle(&mut self, style: &mut crate::style::Style) -> (r: bool)
        ensures
            r == old(self).opened,
            (*final(self), *final(style)) == old(self).spec_toggle(*old(style)),
    {
        let was_open = self.opened;
        if self.opened {
            self.last_size = style.size;
            self.last_border = style.border;
            style.size = crate::style::Size::from_cells(0, 0);
            style.border = (false, false, false, false, None);
        } else {
            style.size = self.last_size;
            style.border = self.last_border;
        }
        self.opened = !self.opened;
        was_open
    }
}

/// Closing an open console and opening it again gives back its style, and the toggle is open
/// again.
pub proof fn lemma_toggle_twice(toggle: ConsoleToggle, style: crate::style::Style)
    requires
        toggle.opened,
    ensures
        ({
            let (closed, hidden) = toggle.spec_toggle(style);
            let (reopened, shown) = closed.spec_toggle(hidden);
            &&& !closed.opened
            &&& reopened.opened
            &&& shown == style
        }),
{
}

} // verus!
