//! Reconstructing a process's command line from its NUL-delimited arguments.

use vstd::prelude::*;
use vstd::utf8::{decode_utf8, valid_utf8};

use crate::error::InspectError;
use crate::segments::{segments, split_segments};
use crate::text::decode_text;

verus! {

/// The ASCII space that separates arguments in the reconstructed line.
pub const SPACE: u8 = 32;

/// `parts` joined with a single space between neighbours.
pub open spec fn join_spaces(parts: Seq<Seq<u8>>) -> Seq<u8>
    decreases parts.len(),
{
    if parts.len() == 0 {
        Seq::empty()
    } else if parts.len() == 1 {
        parts[0]
    } else {
        join_spaces(parts.drop_last()) + seq![SPACE] + parts.last()
    }
}

/// The bytes of the command line that `blob` holds: its non-empty segments
/// joined by spaces.
pub open spec fn cmdline_bytes(blob: Seq<u8>) -> Seq<u8> {
    join_spaces(segments(blob))
}

/// What reconstructing the command line of `blob` gives: the text of its
/// bytes, or the failure when they are not valid UTF-8.
pub open spec fn cmdline_outcome(blob: Seq<u8>) -> Result<Seq<char>, InspectError> {
    if valid_utf8(cmdline_bytes(blob)) {
        Ok(decode_utf8(cmdline_bytes(blob)))
    } else {
        Err(InspectError::CommandLineNotText)
    }
}

/// The view of a reconstructed command line, or of its failure.
pub open spec fn text_result_view(r: Result<String, InspectError>) -> Result<
    Seq<char>,
    InspectError,
> {
    match r {
        Ok(s) => Ok(s@),
        Err(e) => Err(e),
    }
}

/// Rebuilds the command line from the content of a command-line pseudo-file:
/// the non-empty NUL-delimited arguments, joined by single spaces, as text.
pub fn load_cmdline(blob: &[u8]) -> (r: Result<String, InspectError>)
    ensures
        text_result_view(r) == cmdline_outcome(blob@),
{
    let parts = split_segments(blob);
    let mut joined: Vec<u8> = Vec::new();
    let mut i: usize = 0;
    while i < parts.len()
        invariant
            0 <= i <= parts@.len(),
            parts.deep_view() == segments(blob@),
            joined@ == join_spaces(parts.deep_view().take(i as int)),
        decreases parts.len() - i,
    {
        let ghost before = joined@;
        let part = &parts[i];
        proof {
            assert(part@ =~= parts.deep_view()[i as int]);
            assert(parts.deep_view().take(i + 1).drop_last() =~= parts.deep_view().take(
                i as int,
            ));
        }
        if i > 0 {
            joined.push(SPACE);
        }
        let mut j: usize = 0;
        let ghost mid = joined@;
        while j < part.len()
            invariant
                0 <= j <= part@.len(),
                joined@ == mid + part@.take(j as int),
            decreases part.len() - j,
        {
            joined.push(part[j]);
            proof {
                assert(part@.take(j + 1) =~= part@.take(j as int).push(part@[j as int]));
            }
            j = j + 1;
        }
        proof {
            assert(part@.take(j as int) =~= part@);
            if i == 0 {
                assert(joined@ =~= join_spaces(parts.deep_view().take(1)));
            } else {
                assert(mid =~= before + seq![SPACE]);
            }
        }
        i = i + 1;
    }
    proof {
        assert(parts.deep_view().take(i as int) =~= parts.deep_view());
    }
    match decode_text(joined.as_slice()) {
        Some(line) => Ok(line),
        None => Err(InspectError::CommandLineNotText),
    }
}

} // verus!
