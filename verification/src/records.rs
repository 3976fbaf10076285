//! The metadata store: descriptions, hashes and locations of the files
//! that hold the versions.
//!
//! A record is looked up by its key before it is read. The store remembers
//! the last lookup: looking the same record up again does not scan the
//! table again.
use vstd::prelude::*;
use crate::text::{same_text, same_text_exec, to_chars};

verus! {

/// What is looked up: the description record or the file record of a key.
#[derive(Clone, Copy, Debug, PartialEq, Eq, Structural)]
pub enum Lookup {
    Desc(usize),
    VerFile(usize),
}

impl Lookup {
    /// The key that is looked up.
    pub open spec fn key(self) -> usize {
        match self {
            Lookup::Desc(k) => k,
            Lookup::VerFile(k) => k,
        }
    }
}

/// One hash of a file: the name of the algorithm and the digest.
#[derive(Debug)]
pub struct FileHash {
    pub algorithm: String,
    pub digest: String,
}

/// One record of the store.
#[derive(Debug)]
pub struct Record {
    pub description: String,
    pub summary: String,
    pub uri: String,
    pub hashes: Vec<FileHash>,
}

/// The store.
#[derive(Debug)]
pub struct Records {
    pub(crate) table: Vec<Record>,
    pub(crate) last: Option<Lookup>,
    pub(crate) scans: u64,
}

/// The digest of the first of `hashes`, from position `k` on, whose
/// algorithm is `name`, letters compared without regard to case.
pub open spec fn digest_of(hashes: Seq<FileHash>, name: Seq<char>, k: int) -> Option<Seq<char>>
    decreases hashes.len() - k,
{
    if k < 0 || k >= hashes.len() {
        None
    } else if same_text(hashes[k].algorithm@, name) {
        Some(hashes[k].digest@)
    } else {
        digest_of(hashes, name, k + 1)
    }
}

/// The last lookup and the number of scans after `record` is looked up.
pub open spec fn after_lookup(last: Option<Lookup>, scans: u64, record: Lookup) -> (Option<Lookup>, u64) {
    (
        Some(record),
        if last == Some(record) || scans == u64::MAX {
            scans
        } else {
            (scans + 1) as u64
        },
    )
}

/// The last lookup and the number of scans after the file records of
/// `files`, from position `k` on, are looked up in order.
pub open spec fn after_lookups(last: Option<Lookup>, scans: u64, files: Seq<usize>, k: int) -> (
    Option<Lookup>,
    u64,
)
    decreases files.len() - k,
{
    if k < 0 || k >= files.len() {
        (last, scans)
    } else {
        let next = after_lookup(last, scans, Lookup::VerFile(files[k]));
        after_lookups(next.0, next.1, files, k + 1)
    }
}

/// The location that the table holds for the key `f`; empty where it holds
/// no such record.
pub open spec fn uri_of(table: Seq<Record>, f: usize) -> Seq<char> {
    if f < table.len() {
        table[f as int].uri@
    } else {
        Seq::empty()
    }
}

/// The locations of `files`, from position `k` on, that do not point into
/// the local file system.
pub open spec fn remote_uris(table: Seq<Record>, files: Seq<usize>, k: int) -> Seq<Seq<char>>
    decreases files.len() - k,
{
    if k < 0 || k >= files.len() {
        Seq::empty()
    } else if crate::text::starts_with(uri_of(table, files[k]), "file:"@) {
        remote_uris(table, files, k + 1)
    } else {
        seq![uri_of(table, files[k])] + remote_uris(table, files, k + 1)
    }
}

impl Records {
    pub open(crate) spec fn table(&self) -> Seq<Record> {
        self.table@
    }

    /// The last lookup.
    pub open(crate) spec fn last(&self) -> Option<Lookup> {
        self.last
    }

    /// The number of times that the table was scanned.
    pub open(crate) spec fn scans(&self) -> u64 {
        self.scans
    }

    /// The record that was looked up last, if the table holds it.
    pub open spec fn current(&self) -> Option<Record> {
        match self.last() {
            Some(l) => if l.key() < self.table().len() {
                Some(self.table()[l.key() as int])
            } else {
                None
            },
            None => None,
        }
    }

    /// A store over `table`; nothing has been looked up.
    pub fn new(table: Vec<Record>) -> (records: Records)
        ensures
            records.table() == table@,
            records.last().is_none(),
            records.scans() == 0,
    {
        Records { table, last: None, scans: 0 }
    }

    /// Looks a record up. Where it is the record that was looked up last,
    /// nothing happens; else the table is scanned, which is counted.
    pub fn lookup(&mut self, record: Lookup)
        ensures
            final(self).table() == old(self).table(),
            (final(self).last(), final(self).scans()) == after_lookup(
                old(self).last(),
                old(self).scans(),
                record,
            ),
    {
        match self.last {
            Some(last) => {
                if last == record {
                    return;
                }
            },
            None => {},
        }
        if self.scans < u64::MAX {
            self.scans = self.scans + 1;
        }
        self.last = Some(record);
    }

    fn current_index(&self) -> (at: Option<usize>)
        ensures
            match at {
                Some(i) => i < self.table().len() && self.current() == Some(self.table()[i as int]),
                None => self.current().is_none(),
            },
    {
        let key = match self.last {
            Some(Lookup::Desc(k)) => k,
            Some(Lookup::VerFile(k)) => k,
            None => {
                return None;
            },
        };
        if key < self.table.len() {
            Some(key)
        } else {
            None
        }
    }

    /// The long description of the record looked up last; empty where there
    /// is no such record.
    pub fn description(&self) -> (text: String)
        ensures
            text@ == match self.current() {
                Some(r) => r.description@,
                None => Seq::empty(),
            },
    {
        match self.current_index() {
            Some(i) => self.table[i].description.clone(),
            None => String::new(),
        }
    }

    /// The short description of the record looked up last; empty where
    /// there is no such record.
    pub fn summary(&self) -> (text: String)
        ensures
            text@ == match self.current() {
                Some(r) => r.summary@,
                None => Seq::empty(),
            },
    {
        match self.current_index() {
            Some(i) => self.table[i].summary.clone(),
            None => String::new(),
        }
    }

    /// The location of the file of the record looked up last; empty where
    /// there is no such record.
    pub fn uri(&self) -> (text: String)
        ensures
            text@ == match self.current() {
                Some(r) => r.uri@,
                None => Seq::empty(),
            },
    {
        match self.current_index() {
            Some(i) => self.table[i].uri.clone(),
            None => String::new(),
        }
    }

    /// The digest that the record looked up last holds for the algorithm
    /// `hash_type`, if it holds one.
    pub fn hash_find(&self, hash_type: &str) -> (digest: Option<String>)
        ensures
            match digest {
                Some(d) => self.current().is_some() && digest_of(self.current().unwrap().hashes@, hash_type@, 0)
                    == Some(d@),
                None => self.current().is_none() || digest_of(
                    self.current().unwrap().hashes@,
                    hash_type@,
                    0,
                ).is_none(),
            },
    {
        let i = match self.current_index() {
            Some(i) => i,
            None => {
                return None;
            },
        };
        let name = to_chars(hash_type);
        let hashes = &self.table[i].hashes;
        let mut k: usize = 0;
        while k < hashes.len()
            invariant
                k <= hashes.len(),
                name@ == hash_type@,
                i < self.table().len(),
                self.current() == Some(self.table()[i as int]),
                hashes@ == self.table()[i as int].hashes@,
                digest_of(hashes@, hash_type@, k as int) == digest_of(hashes@, hash_type@, 0),
            decreases hashes.len() - k,
        {
            let algorithm = to_chars(hashes[k].algorithm.as_str());
            if same_text_exec(&algorithm, &name) {
                return Some(hashes[k].digest.clone());
            }
            k += 1;
        }
        None
    }

    /// The number of times that the table was scanned.
    pub fn scan_count(&self) -> (n: u64)
        ensures
            n == self.scans(),
    {
        self.scans
    }
}

} // verus!
