//! Per-file processing of CDR lines.
//!
//! A file is a sequence of lines. Each line is decoded independently:
//! a line that decodes increments the file's record count, a line that
//! does not is reported by its 1-based line number. No failed line aborts
//! the file; the summary always covers every line.

use vstd::prelude::*;
use crate::cdr::CdrRecord;
use crate::cdr::spec_parse;

verus! {

/// The number of lines of the file that decode into records.
pub open spec fn spec_record_count(lines: Seq<Seq<u8>>) -> int
    decreases lines.len(),
{
    if lines.len() == 0 {
        0
    } else {
        spec_record_count(lines.drop_last()) + if spec_parse(lines.last()) is Some {
            1int
        } else {
            0int
        }
    }
}

/// The 1-based numbers of the lines of the file that do not decode,
/// in ascending order.
pub open spec fn spec_failed_lines(lines: Seq<Seq<u8>>) -> Seq<int>
    decreases lines.len(),
{
    if lines.len() == 0 {
        Seq::empty()
    } else if spec_parse(lines.last()) is Some {
        spec_failed_lines(lines.drop_last())
    } else {
        spec_failed_lines(lines.drop_last()).push(lines.len() as int)
    }
}

/// The line numbers of a summary as mathematical integers.
pub open spec fn spec_line_numbers(s: Seq<usize>) -> Seq<int> {
    s.map_values(|x: usize| x as int)
}

/// Every line of a file is either decoded and counted or reported as a
/// failed line: the record count and the number of failed line reports
/// always add up to the number of lines.
pub proof fn lemma_counts_partition_lines(lines: Seq<Seq<u8>>)
    ensures
        spec_record_count(lines) + spec_failed_lines(lines).len() == lines.len(),
    decreases lines.len(),
{
    if lines.len() > 0 {
        lemma_counts_partition_lines(lines.drop_last());
    }
}

/// The outcome of processing one file: how many lines decoded into
/// records, and the 1-based numbers of the lines that did not.
pub struct FileSummary {
    pub record_count: usize,
    pub failed_lines: Vec<usize>,
}

/// Decodes every line of a file and accumulates the summary: the count
/// of lines that decode, and the 1-based number of each line that does
/// not. A failed line never aborts the file.
pub fn process_lines(lines: &Vec<Vec<u8>>) -> (summary: FileSummary)
    ensures
        summary.record_count == spec_record_count(lines.deep_view()),
        spec_line_numbers(summary.failed_lines@) == spec_failed_lines(lines.deep_view()),
{
    let mut count: usize = 0;
    let mut failed: Vec<usize> = Vec::new();
    let mut i: usize = 0;
    proof {
        assert(lines.deep_view().take(0) =~= Seq::<Seq<u8>>::empty());
        assert(spec_line_numbers(failed@) =~= Seq::<int>::empty());
    }
    while i < lines.len()
        invariant
            i <= lines@.len(),
            lines.deep_view().len() == lines@.len(),
            count <= i,
            count == spec_record_count(lines.deep_view().take(i as int)),
            spec_line_numbers(failed@) == spec_failed_lines(
                lines.deep_view().take(i as int),
            ),
        decreases lines@.len() - i,
    {
        let line: &Vec<u8> = &lines[i];
        proof {
            assert(lines.deep_view().take(i + 1).drop_last() =~= lines.deep_view().take(
                i as int,
            ));
            assert(lines.deep_view()[i as int] =~= line@);
        }
        if CdrRecord::parse(line.as_slice()).is_some() {
            count = count + 1;
        } else {
            let ghost old_failed = failed@;
            failed.push(i + 1);
            proof {
                assert(spec_line_numbers(failed@) =~= spec_line_numbers(old_failed).push(
                    i + 1,
                ));
            }
        }
        i = i + 1;
    }
    proof {
        assert(lines.deep_view().take(i as int) =~= lines.deep_view());
    }
    FileSummary { record_count: count, failed_lines: failed }
}

} // verus!
