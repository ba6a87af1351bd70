//! The collection endpoint's core: what gets appended to the results
//! file for each accepted submission. The first accepted submission into
//! an empty file brings the header line with it; every submission brings
//! its record line. The surrounding server holds a lock around one whole
//! `accept`, so accepts apply in some sequence; this module proves what
//! any such sequence writes.

use vstd::prelude::*;
use crate::submission::{submission_csv, submission_header, Submission};

verus! {

/// The text one accepted submission appends: header line first if the
/// file is still empty, then the submission's record line.
pub open spec fn accept_chunk(file_empty: bool, s: Submission) -> Seq<char> {
    if file_empty {
        submission_header(s) + seq!['\n'] + submission_csv(s) + seq!['\n']
    } else {
        submission_csv(s) + seq!['\n']
    }
}

/// Renders what accepting `sub` must append to a results file that is
/// empty or not. The check for emptiness, this rendering and the write
/// must happen under one lock.
pub fn submission_chunk(file_empty: bool, sub: &Submission) -> (r: String)
    ensures
        r@ == accept_chunk(file_empty, *sub),
{
    let mut r = String::new();
    if file_empty {
        r.append(sub.csv_header().as_str());
        r.append("\n");
    }
    r.append(sub.csv_line().as_str());
    r.append("\n");
    proof {
        reveal_strlit("\n");
        assert("\n"@ =~= seq!['\n']);
    }
    r
}

/// The collection endpoint's state: whether anything was written yet.
pub struct Dropbox {
    /// True once a submission was accepted (the header is then present).
    pub started: bool,
}

impl Dropbox {
    /// A dropbox over a still-empty results file.
    pub fn new() -> (d: Dropbox)
        ensures
            d.started == false,
    {
        Dropbox { started: false }
    }

    /// Accepts one submission: yields the text to append and remembers
    /// that the file is no longer empty.
    pub fn accept(&mut self, sub: &Submission) -> (r: String)
        ensures
            r@ == accept_chunk(!old(self).started, *sub),
            final(self).started == true,
    {
        let chunk = submission_chunk(!self.started, sub);
        self.started = true;
        chunk
    }
}

/// Everything a fresh dropbox writes for this sequence of submissions,
/// in order: the first accept sees the empty file, later ones do not.
pub open spec fn collected(subs: Seq<Submission>) -> Seq<char>
    decreases subs.len(),
{
    if subs.len() == 0 {
        Seq::empty()
    } else {
        collected(subs.drop_last()) + accept_chunk(subs.len() == 1, subs.last())
    }
}

/// The record lines of these submissions, each with its newline.
pub open spec fn record_lines(subs: Seq<Submission>) -> Seq<char>
    decreases subs.len(),
{
    if subs.len() == 0 {
        Seq::empty()
    } else {
        record_lines(subs.drop_last()) + submission_csv(subs.last()) + seq!['\n']
    }
}

/// Submissions accepted in any one order into an initially empty results
/// file produce exactly one header line — the first submission's —
/// followed by one record line per submission, in order.
pub proof fn lemma_one_header(subs: Seq<Submission>)
    requires
        subs.len() > 0,
    ensures
        collected(subs) == submission_header(subs[0]) + seq!['\n'] + record_lines(subs),
    decreases subs.len(),
{
    if subs.len() == 1 {
        assert(collected(subs.drop_last()) =~= Seq::<char>::empty());
        assert(record_lines(subs.drop_last()) =~= Seq::<char>::empty());
        assert(collected(subs) =~= submission_header(subs[0]) + seq!['\n'] + record_lines(subs));
    } else {
        lemma_one_header(subs.drop_last());
        assert(subs.drop_last()[0] == subs[0]);
        assert(collected(subs) =~= submission_header(subs[0]) + seq!['\n'] + record_lines(subs));
    }
}

} // verus!
