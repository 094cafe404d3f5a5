//! An engine that fails on demand, for trying out what a program does when
//! its storage lets it down.

use crate::backend::memory::{Mem, MemIter};
use crate::backend::{
    Backend, BackendIter, RawBound, RawEntry, RawMap, RawOp, ReversibleIter,
};
use vstd::prelude::*;
use vstd::string::*;

verus! {

/// An in-memory engine that can be told to fail: reads fail while they are
/// switched off, and writes fail once a given number of them were made.
pub struct Flaky {
    inner: Mem,
    reads: bool,
    writes: usize,
}

/// What a flaky engine is opened with.
#[derive(Clone, Copy, Debug)]
pub struct FlakyConf {
    /// Whether reads succeed.
    pub reads: bool,
    /// How many writes succeed before the engine begins to fail.
    pub writes: usize,
}

/// A walk over entries that were read from a flaky engine.
pub struct FlakyIter {
    inner: MemIter,
}

/// What a flaky engine says when it fails.
pub open spec fn out_of_order_text() -> Seq<char> {
    "the engine is out of order"@
}

/// The message of a flaky engine that fails.
fn out_of_order() -> (message: String)
    ensures
        message@ == out_of_order_text(),
{
    String::from_str("the engine is out of order")
}

impl BackendIter for FlakyIter {
    closed spec fn remaining(&self) -> Seq<RawEntry> {
        self.inner.remaining()
    }

    open spec fn reliable(&self) -> bool {
        false
    }

    fn next_entry(&mut self) -> (r: Option<Result<(Vec<u8>, Vec<u8>), String>>) {
        self.inner.next_entry()
    }
}

impl ReversibleIter for FlakyIter {
    fn reverse(self) -> (r: Self) {
        FlakyIter { inner: self.inner.reverse() }
    }
}

impl Flaky {
    /// Whether reads succeed.
    pub closed spec fn reads(&self) -> bool {
        self.reads
    }

    /// How many writes succeed before the engine begins to fail.
    pub closed spec fn writes(&self) -> nat {
        self.writes as nat
    }

    /// An engine that holds what `inner` holds, on which reads succeed if
    /// `reads` says so, and `writes` writes succeed.
    pub fn new(inner: Mem, reads: bool, writes: usize) -> (engine: Self)
        ensures
            engine.entries() == inner.entries(),
            engine.reads() == reads,
            engine.writes() == writes,
    {
        Flaky { inner, reads, writes }
    }

    /// Says anew which reads and how many writes succeed from now on.
    pub fn mend(&mut self, reads: bool, writes: usize)
        ensures
            final(self).entries() == old(self).entries(),
            final(self).reads() == reads,
            final(self).writes() == writes,
    {
        self.reads = reads;
        self.writes = writes;
    }

    /// Counts one write, if one is left.
    fn spend(&mut self) -> (ok: bool)
        ensures
            final(self).entries() == old(self).entries(),
            final(self).reads() == old(self).reads(),
            ok == (old(self).writes() > 0),
            ok ==> final(self).writes() == old(self).writes() - 1,
            !ok ==> final(self).writes() == 0,
    {
        if self.writes == 0 {
            false
        } else {
            self.writes = self.writes - 1;
            true
        }
    }
}

impl Backend for Flaky {
    type Conf = FlakyConf;

    type Iter = FlakyIter;

    closed spec fn entries(&self) -> RawMap {
        self.inner.entries()
    }

    open spec fn reliable(&self) -> bool {
        false
    }

    fn open(conf: FlakyConf) -> (r: Result<Self, String>)
        ensures
            r matches Ok(engine) && engine.entries() == RawMap::empty() && engine.reads()
                == conf.reads && engine.writes() == conf.writes,
    {
        Ok(Flaky::new(Mem::new(), conf.reads, conf.writes))
    }

    fn get(&self, key: &[u8]) -> (r: Result<Option<Vec<u8>>, String>)
        ensures
            r is Ok == self.reads(),
            r matches Err(message) ==> message@ == out_of_order_text(),
    {
        if self.reads {
            self.inner.get(key)
        } else {
            Err(out_of_order())
        }
    }

    fn put(&mut self, key: Vec<u8>, value: Vec<u8>) -> (r: Result<(), String>)
        ensures
            r is Ok == (old(self).writes() > 0),
            r matches Err(message) ==> message@ == out_of_order_text(),
            final(self).reads() == old(self).reads(),
            final(self).writes() == if old(self).writes() > 0 {
                old(self).writes() - 1
            } else {
                0
            },
    {
        if self.spend() {
            self.inner.put(key, value)
        } else {
            Err(out_of_order())
        }
    }

    fn delete(&mut self, key: &[u8]) -> (r: Result<(), String>)
        ensures
            r is Ok == (old(self).writes() > 0),
            r matches Err(message) ==> message@ == out_of_order_text(),
            final(self).reads() == old(self).reads(),
            final(self).writes() == if old(self).writes() > 0 {
                old(self).writes() - 1
            } else {
                0
            },
    {
        if self.spend() {
            self.inner.delete(key)
        } else {
            Err(out_of_order())
        }
    }

    fn clear(&mut self) -> (r: Result<(), String>)
        ensures
            r is Ok == (old(self).writes() > 0),
            r matches Err(message) ==> message@ == out_of_order_text(),
            final(self).reads() == old(self).reads(),
            final(self).writes() == if old(self).writes() > 0 {
                old(self).writes() - 1
            } else {
                0
            },
    {
        if self.spend() {
            self.inner.clear()
        } else {
            Err(out_of_order())
        }
    }

    fn count(&self) -> (r: Result<usize, String>)
        ensures
            r is Ok == self.reads(),
            r matches Err(message) ==> message@ == out_of_order_text(),
    {
        if self.reads {
            self.inner.count()
        } else {
            Err(out_of_order())
        }
    }

    fn scan(&self, lo: &RawBound, hi: &RawBound) -> (r: Result<FlakyIter, String>)
        ensures
            r is Ok == self.reads(),
            r matches Err(message) ==> message@ == out_of_order_text(),
    {
        if self.reads {
            match self.inner.scan(lo, hi) {
                Ok(inner) => Ok(FlakyIter { inner }),
                Err(e) => Err(e),
            }
        } else {
            Err(out_of_order())
        }
    }

    fn apply_batch(&mut self, ops: &Vec<RawOp>) -> (r: Result<(), String>)
        ensures
            r is Ok == (old(self).writes() > 0),
            r matches Err(message) ==> message@ == out_of_order_text(),
            final(self).reads() == old(self).reads(),
            final(self).writes() == if old(self).writes() > 0 {
                old(self).writes() - 1
            } else {
                0
            },
    {
        if self.spend() {
            self.inner.apply_batch(ops)
        } else {
            Err(out_of_order())
        }
    }

    fn close(self) {
    }
}

} // verus!
