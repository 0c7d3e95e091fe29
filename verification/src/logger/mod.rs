//! Log capture: bounded buffers of lines and bytes, and the logs of the
//! programs that run for each package.

pub mod logbuffer;
pub mod ringbuffer;
pub mod ui;

use self::ringbuffer::RingBuffer;
use crate::text::str_eq;
use crate::workspace::package::PackageIndex;
use vstd::prelude::*;
use vstd::string::StringExecFns;

verus! {

/// The log of one program that runs for one package.
pub struct ProcessLog {
    pub index: PackageIndex,
    pub process: String,
    pub buffer: RingBuffer<String>,
}

/// The logs of the programs that run for the packages of a workspace.
pub struct Logger {
    logs: Vec<ProcessLog>,
}

/// The log at position `i` is the one of the program `process` of the
/// package `index`.
pub open spec fn is_log_of(logs: Seq<ProcessLog>, i: int, index: PackageIndex, process: Seq<char>) -> bool {
    0 <= i < logs.len() && logs[i].index == index && logs[i].process@ == process
}

impl Logger {
    /// The logs that are kept.
    pub closed spec fn spec_logs(&self) -> Seq<ProcessLog> {
        self.logs@
    }

    /// A log is kept for the program `process` of the package `index`.
    pub open spec fn registered(&self, index: PackageIndex, process: Seq<char>) -> bool {
        exists|i: int| is_log_of(self.spec_logs(), i, index, process)
    }

    /// What the log of the program `process` of the package `index` holds.
    pub open spec fn log_of(&self, index: PackageIndex, process: Seq<char>) -> Seq<String> {
        self.spec_logs()[choose|i: int| is_log_of(self.spec_logs(), i, index, process)].buffer@
    }

    /// No program of a package has two logs.
    pub open spec fn wf(&self) -> bool {
        forall|i: int, j: int|
            0 <= i < j < self.spec_logs().len() ==> !((#[trigger] self.spec_logs()[i]).index == (#[trigger] self.spec_logs()[j]).index
                && self.spec_logs()[i].process@ == self.spec_logs()[j].process@)
    }

    /// A logger without logs.
    pub fn new() -> (r: Self)
        ensures
            r.wf(),
            r.spec_logs().len() == 0,
    {
        Logger { logs: Vec::new() }
    }

    fn position(&self, index: PackageIndex, process: &str) -> (r: Option<usize>)
        requires
            self.wf(),
        ensures
            match r {
                Some(i) => is_log_of(self.spec_logs(), i as int, index, process@) && self.log_of(index, process@) == self.spec_logs()[i as int].buffer@,
                None => !self.registered(index, process@),
            },
    {
        let mut i: usize = 0;
        while i < self.logs.len()
            invariant
                i <= self.logs@.len(),
                self.wf(),
                forall|k: int| 0 <= k < i ==> !is_log_of(self.logs@, k, index, process@),
            decreases self.logs.len() - i,
        {
            if self.logs[i].index == index && str_eq(self.logs[i].process.as_str(), process) {
                proof {
                    assert(is_log_of(self.spec_logs(), i as int, index, process@));
                    let c = choose|c: int| is_log_of(self.spec_logs(), c, index, process@);
                    assert(c == i);
                }
                return Some(i);
            }
            i += 1;
        }
        None
    }

    /// Starts an empty log for the program `process` of the package `index`,
    /// in place of the one that may be kept already.
    pub fn register_log(&mut self, index: PackageIndex, process: &str)
        requires
            old(self).wf(),
        ensures
            final(self).wf(),
            final(self).registered(index, process@),
            final(self).log_of(index, process@) == Seq::<String>::empty(),
            forall|i: PackageIndex, p: Seq<char>|
                !(i == index && p == process@) ==> (#[trigger] final(self).registered(i, p) == old(self).registered(i, p)),
            forall|i: PackageIndex, p: Seq<char>|
                !(i == index && p == process@) && old(self).registered(i, p) ==> #[trigger] final(self).log_of(i, p) == old(self).log_of(i, p),
    {
        let entry = ProcessLog { index, process: String::from_str(process), buffer: RingBuffer::new() };
        let found = self.position(index, process);
        let ghost was_there = found is Some;
        let at = match found {
            Some(at) => {
                self.logs.set(at, entry);
                at
            },
            None => {
                self.logs.push(entry);
                self.logs.len() - 1
            },
        };
        proof {
            let after = self.spec_logs();
            let before = old(self).spec_logs();
            if was_there {
                assert(after =~= before.update(at as int, entry));
            } else {
                assert(after =~= before.push(entry));
                assert(!old(self).registered(index, process@));
            }
            assert(after[at as int] == entry);
            assert(is_log_of(after, at as int, index, process@));
            assert forall|k: int|
                0 <= k < before.len() && k != at implies
                after[k] == before[k] && !is_log_of(before, k, index, process@) by {
                if was_there {
                    assert(is_log_of(before, at as int, index, process@));
                    if is_log_of(before, k, index, process@) {
                        if k < at {
                            assert(!(before[k].index
                                == before[at as int].index && before[k].process@ == before[at as int].process@));
                        } else {
                            assert(!(before[at as int].index
                                == before[k].index && before[at as int].process@ == before[k].process@));
                        }
                    }
                }
            }
            assert forall|i: int, j: int|
                0 <= i < j < after.len() implies
                !((#[trigger] after[i]).index == (#[trigger] after[j]).index && after[i].process@
                == after[j].process@) by {
                if i != at && j != at {
                    assert(!((#[trigger] before[i]).index
                        == (#[trigger] before[j]).index && before[i].process@ == before[j].process@));
                } else if i == at {
                    assert(!is_log_of(before, j, index, process@));
                } else {
                    assert(!is_log_of(before, i, index, process@));
                }
            }
            let c = choose|c: int| is_log_of(after, c, index, process@);
            assert(c == at) by {
                if c != at {
                    assert(is_log_of(before, c, index, process@));
                }
            }
            assert forall|i: PackageIndex, p: Seq<char>|
                !(i == index && p == process@) implies
                (#[trigger] self.registered(i, p) == old(self).registered(
                i,
                p,
            )) by {
                if old(self).registered(i, p) {
                    let k = choose|k: int| is_log_of(before, k, i, p);
                    if k == at {
                        assert(is_log_of(before, at as int, index, process@));
                    }
                    assert(after[k] == before[k]);
                    assert(is_log_of(after, k, i, p));
                }
                if self.registered(i, p) {
                    let k = choose|k: int| is_log_of(after, k, i, p);
                    assert(k != at);
                    assert(after[k] == before[k]);
                    assert(is_log_of(before, k, i, p));
                }
            }
            assert forall|i: PackageIndex, p: Seq<char>|
                !(i == index && p == process@) && old(self).registered(i, p) implies
                #[trigger] self.log_of(i, p)
                == old(self).log_of(i, p) by {
                let k = choose|k: int| is_log_of(before, k, i, p);
                if k == at {
                    assert(is_log_of(before, at as int, index, process@));
                }
                assert(after[k] == before[k]);
                assert(is_log_of(after, k, i, p));
                let k2 = choose|k2: int| is_log_of(after, k2, i, p);
                assert(k2 == k) by {
                    if k2 < k {
                        assert(!((#[trigger] after[k2]).index
                            == (#[trigger] after[k]).index && after[k2].process@ == after[k].process@));
                    }
                    if k < k2 {
                        assert(!((#[trigger] after[k]).index
                            == (#[trigger] after[k2]).index && after[k].process@ == after[k2].process@));
                    }
                }
            }
        }
    }

    /// The log of the program `process` of the package `index`, to write to.
    pub fn logger(&mut self, index: PackageIndex, process: &str) -> (r: &mut RingBuffer<String>)
        requires
            old(self).wf(),
            old(self).registered(index, process@),
        ensures
            r@ == old(self).log_of(index, process@),
            final(self).spec_logs().len() == old(self).spec_logs().len(),
            forall|k: int|
                0 <= k < old(self).spec_logs().len() ==> {
                    &&& (#[trigger] final(self).spec_logs()[k]).index == old(self).spec_logs()[k].index
                    &&& final(self).spec_logs()[k].process == old(self).spec_logs()[k].process
                    &&& if is_log_of(old(self).spec_logs(), k, index, process@) {
                        final(self).spec_logs()[k].buffer == *final(r)
                    } else {
                        final(self).spec_logs()[k].buffer == old(self).spec_logs()[k].buffer
                    }
                },
    {
        let at = match self.position(index, process) {
            Some(at) => at,
            None => {
                proof {
                    assert(false);
                }
                0
            },
        };
        &mut self.logs[at].buffer
    }
}

} // verus!
