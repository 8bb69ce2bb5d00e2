//! Run-time settings.

use crate::bgrid::Charset;
use vstd::prelude::*;

verus! {

/// What a run is started with.
#[derive(Debug)]
pub struct Args {
    /// Where the image that seeds the board is kept.
    pub input: String,
    /// How many workers share a generation; the machine decides where none
    /// is named.
    pub threads: Option<u16>,
    /// The character drawn where nothing is alive.
    pub background: char,
    /// The glyphs to draw with.
    pub charset: Charset,
}

/// The workers that a machine with `cpus` processors gets where no count
/// is named: all but two of the processors, no fewer than none and no more
/// than a count can hold.
pub open spec fn spare_workers(cpus: int) -> int {
    if cpus <= 2 {
        0
    } else if cpus - 2 >= u16::MAX {
        u16::MAX as int
    } else {
        cpus - 2
    }
}

impl Args {
    /// The settings for `input` with every default: braille glyphs over a
    /// blank background, and the worker count left to the machine.
    pub fn new(input: String) -> (args: Args)
        ensures
            args.input == input,
            args.threads.is_none(),
            args.background == ' ',
            args.charset == Charset::Braille,
    {
        Args { input, threads: None, background: ' ', charset: Charset::Braille }
    }

    /// The worker count on a machine with `cpus` processors: the count that
    /// was named, or else all but two of the processors.
    pub fn workers_on(&self, cpus: usize) -> (workers: u16)
        ensures
            workers == match self.threads {
                Some(named) => named as int,
                None => spare_workers(cpus as int),
            },
    {
        match self.threads {
            Some(named) => named,
            None => {
                if cpus <= 2 {
                    0
                } else if cpus - 2 >= 0xffff {
                    0xffff
                } else {
                    (cpus - 2) as u16
                }
            },
        }
    }

    /// The worker count on this machine: the count that was named, or else
    /// all but two of the processors that the machine reports.
    pub fn workers(&self) -> (workers: u16)
        ensures
            match self.threads {
                Some(named) => workers == named,
                None => exists|cpus: int| 0 <= cpus && workers == #[trigger] spare_workers(cpus),
            },
    {
        let cpus = available_cpus();
        let workers = self.workers_on(cpus);
        assert(workers == spare_workers(cpus as int) || self.threads.is_some());
        workers
    }
}

/// `num_cpus::get`: the number of processors this process may run on.
/// Nothing is claimed of it: it differs from machine to machine.
#[verifier::external_body]
fn available_cpus() -> usize {
    num_cpus::get()
}

} // verus!
