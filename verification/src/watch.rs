//! Files that are read again when they change: when to look at them, and what
//! was read from them.
//!
//! The modification time of a file is looked at once every two seconds at most.
//! Looking and reading is left to the caller, who is told when to look, and tells
//! what came of it.

use vstd::prelude::*;
use crate::blocklist::{Blocklist, BlocklistView};
use crate::blocklist;
use crate::clock::NANOS_PER_SEC;
use crate::config;
use crate::leases::{LeaseTable, LeaseView};
use crate::leases;
use crate::text;

verus! {

/// How long a file is not looked at again, in nanoseconds.
pub const RELOAD_INTERVAL: u64 = 2_000_000_000;

/// A file that may change.
pub struct FileWatch {
    path: Option<String>,
    /// When the file was last looked at, in nanoseconds of the server's clock.
    last_check: u64,
    /// The modification time of what was read: nanoseconds since the Unix epoch.
    last_mtime: Option<i128>,
}

/// What a [`FileWatch`] holds.
pub struct FileWatchView {
    pub path: Option<Seq<char>>,
    pub last_check: u64,
    pub last_mtime: Option<i128>,
}

impl View for FileWatch {
    type V = FileWatchView;

    closed spec fn view(&self) -> FileWatchView {
        FileWatchView {
            path: config::text_of(self.path),
            last_check: self.last_check,
            last_mtime: self.last_mtime,
        }
    }
}

impl FileWatchView {
    /// Whether the file is to be looked at: there is one, and the last look is at
    /// least two seconds ago.
    pub open spec fn due(self, now: u64) -> bool {
        self.path is Some && now - self.last_check >= RELOAD_INTERVAL
    }

    /// The same file, looked at now.
    pub open spec fn checked(self, now: u64) -> Self {
        FileWatchView { last_check: now, ..self }
    }

    /// The same file, read when its modification time was `mtime`.
    pub open spec fn read(self, mtime: Option<i128>) -> Self {
        FileWatchView { last_mtime: mtime, ..self }
    }
}

impl FileWatch {
    /// A file that was not read yet, or none.
    pub fn new(path: Option<String>, now: u64) -> (r: Self)
        ensures
            r@ == (FileWatchView {
                path: config::text_of(path),
                last_check: now,
                last_mtime: None,
            }),
    {
        FileWatch { path, last_check: now, last_mtime: None }
    }

    /// The file to look at now, if its time has come.
    pub fn check(&mut self, now: u64) -> (r: Option<String>)
        ensures
            old(self)@.due(now) ==> config::text_of(r) == old(self)@.path && final(self)@ == old(self)@.checked(now),
            !old(self)@.due(now) ==> r is None && final(self)@ == old(self)@,
    {
        if now < self.last_check || now - self.last_check < RELOAD_INTERVAL {
            return None;
        }
        match &self.path {
            Some(path) => {
                let path = path.clone();
                self.last_check = now;
                Some(path)
            },
            None => None,
        }
    }

    /// Whether a modification time is another than that of what was read.
    pub fn changed(&self, mtime: Option<i128>) -> (r: bool)
        ensures
            r == (mtime != self@.last_mtime),
    {
        match (mtime, self.last_mtime) {
            (Some(a), Some(b)) => a != b,
            (None, None) => false,
            _ => true,
        }
    }

    /// Note the modification time of what was read.
    fn note(&mut self, mtime: Option<i128>)
        ensures
            final(self)@ == old(self)@.read(mtime),
    {
        self.last_mtime = mtime;
    }
}

/// The leases and the file they come from.
pub struct LeaseStore {
    pub watch: FileWatch,
    pub table: LeaseTable,
}

/// What a [`LeaseStore`] holds.
pub struct LeaseStoreView {
    pub watch: FileWatchView,
    pub table: Map<Seq<char>, LeaseView>,
}

impl View for LeaseStore {
    type V = LeaseStoreView;

    open spec fn view(&self) -> LeaseStoreView {
        LeaseStoreView { watch: self.watch@, table: self.table@ }
    }
}

impl LeaseStore {
    /// No leases yet.
    pub fn new(path: Option<String>, now: u64) -> (r: Self)
        ensures
            r@.table == Map::<Seq<char>, LeaseView>::empty(),
            r@.watch == (FileWatchView {
                path: config::text_of(path),
                last_check: now,
                last_mtime: None,
            }),
    {
        LeaseStore { watch: FileWatch::new(path, now), table: LeaseTable::new() }
    }

    /// The lease file to look at now, if its time has come.
    pub fn maybe_reload(&mut self, now: u64) -> (r: Option<String>)
        ensures
            final(self)@.table == old(self)@.table,
            old(self)@.watch.due(now) ==> config::text_of(r) == old(self)@.watch.path && final(self)@.watch == old(self)@.watch.checked(now),
            !old(self)@.watch.due(now) ==> r is None && final(self)@.watch == old(self)@.watch,
    {
        self.watch.check(now)
    }

    /// Take over what the file holds, which could be read or not: its leases that
    /// have not expired at the moment `unix_now`. `mtime` is its modification time.
    pub fn reload(&mut self, mtime: Option<i128>, contents: Option<&str>, unix_now: u64)
        ensures
            final(self)@ == (LeaseStoreView {
                watch: old(self)@.watch.read(mtime),
                table: match contents {
                    Some(t) => leases::leases_of(text::lines(t@), unix_now),
                    None => Map::empty(),
                },
            }),
    {
        self.table = leases::load(contents, unix_now);
        self.watch.note(mtime);
    }
}

/// The list of blocked domains and the file it comes from.
pub struct BlockStore {
    pub watch: FileWatch,
    pub list: Blocklist,
}

/// What a [`BlockStore`] holds.
pub struct BlockStoreView {
    pub watch: FileWatchView,
    pub list: BlocklistView,
}

impl View for BlockStore {
    type V = BlockStoreView;

    open spec fn view(&self) -> BlockStoreView {
        BlockStoreView { watch: self.watch@, list: self.list@ }
    }
}

impl BlockStore {
    /// Nothing blocked yet.
    pub fn new(path: Option<String>, now: u64) -> (r: Self)
        ensures
            r.list.wf(),
            r@.list == BlocklistView::empty(),
            r@.watch == (FileWatchView {
                path: config::text_of(path),
                last_check: now,
                last_mtime: None,
            }),
    {
        BlockStore { watch: FileWatch::new(path, now), list: Blocklist::default() }
    }

    /// The block file to look at now, if its time has come.
    pub fn maybe_reload(&mut self, now: u64) -> (r: Option<String>)
        ensures
            final(self).list == old(self).list,
            old(self)@.watch.due(now) ==> config::text_of(r) == old(self)@.watch.path && final(self)@.watch == old(self)@.watch.checked(now),
            !old(self)@.watch.due(now) ==> r is None && final(self)@.watch == old(self)@.watch,
    {
        self.watch.check(now)
    }

    /// Take over what the file holds, which could be read or not. `mtime` is its
    /// modification time.
    pub fn reload(&mut self, mtime: Option<i128>, contents: Option<&str>)
        ensures
            final(self).list.wf(),
            final(self)@ == (BlockStoreView {
                watch: old(self)@.watch.read(mtime),
                list: match contents {
                    Some(t) => blocklist::list_of(text::lines(t@)),
                    None => BlocklistView::empty(),
                },
            }),
    {
        self.list = blocklist::load(contents);
        self.watch.note(mtime);
    }
}

// ---------------------------------------------------------------------------
// What holds of the looks
// ---------------------------------------------------------------------------

/// After a look, no other is due before two seconds have passed.
pub proof fn law_looks_are_two_seconds_apart(watch: FileWatchView, now: u64, later: u64)
    requires
        watch.due(now),
    ensures
        watch.checked(now).due(later) ==> later - now >= 2 * NANOS_PER_SEC,
        later - now >= 2 * NANOS_PER_SEC ==> watch.checked(now).due(later),
{
}

} // verus!
