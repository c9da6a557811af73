//! Inspecting one process: its command line and the environment entries
//! that match a pattern.

use vstd::prelude::*;
use vstd::utf8::valid_utf8;

use crate::cmdline::{cmdline_outcome, load_cmdline};
use crate::entry::{entry_outcome, lemma_entry_rejoins, parse_entry, rejoined, EQ};
use crate::error::InspectError;
use crate::pattern::{regex_is_match, MatchPattern};
use crate::segments::{segments, split_segments};

verus! {

/// One environment variable: the bytes before the first `=` of its segment,
/// and those after it.
#[derive(Debug)]
pub struct EnvVariable {
    pub key: String,
    pub value: String,
}

impl View for EnvVariable {
    type V = (Seq<char>, Seq<char>);

    open spec fn view(&self) -> (Seq<char>, Seq<char>) {
        (self.key@, self.value@)
    }
}

/// What inspecting one process found: its command line, and the variables of
/// its environment that matched, in the order of the environment.
#[derive(Debug)]
pub struct Process {
    pub cmdline: String,
    pub variables: Vec<EnvVariable>,
}

impl View for Process {
    type V = (Seq<char>, Seq<(Seq<char>, Seq<char>)>);

    open spec fn view(&self) -> (Seq<char>, Seq<(Seq<char>, Seq<char>)>) {
        (self.cmdline@, self.variables@.map_values(|v: EnvVariable| v@))
    }
}

/// Whether the pattern matches a segment.
pub open spec fn matches_segment(pattern: Seq<char>, case_insensitive: bool) -> spec_fn(
    Seq<u8>,
) -> bool {
    |s: Seq<u8>| regex_is_match(pattern, case_insensitive, s)
}

/// The segments among `segs` that the pattern matches, in order.
pub open spec fn matching(segs: Seq<Seq<u8>>, pattern: Seq<char>, case_insensitive: bool) -> Seq<
    Seq<u8>,
> {
    segs.filter(matches_segment(pattern, case_insensitive))
}

/// The entries of `segs` decoded in order, or the failure of the first
/// segment that does not decode.
pub open spec fn entries_outcome(segs: Seq<Seq<u8>>) -> Result<
    Seq<(Seq<char>, Seq<char>)>,
    InspectError,
>
    decreases segs.len(),
{
    if segs.len() == 0 {
        Ok(Seq::empty())
    } else {
        match entries_outcome(segs.drop_last()) {
            Err(e) => Err(e),
            Ok(entries) => match entry_outcome(segs.last()) {
                Err(e) => Err(e),
                Ok(entry) => Ok(entries.push(entry)),
            },
        }
    }
}

/// What inspecting a process gives, from the content of its command-line
/// and environment pseudo-files: the command line first, then the entries of
/// the matching environment segments.
pub open spec fn inspection(
    cmdline_blob: Seq<u8>,
    environ_blob: Seq<u8>,
    pattern: Seq<char>,
    case_insensitive: bool,
) -> Result<(Seq<char>, Seq<(Seq<char>, Seq<char>)>), InspectError> {
    match cmdline_outcome(cmdline_blob) {
        Err(e) => Err(e),
        Ok(line) => match entries_outcome(
            matching(segments(environ_blob), pattern, case_insensitive),
        ) {
            Err(e) => Err(e),
            Ok(entries) => Ok((line, entries)),
        },
    }
}

/// Once a prefix of the segments fails to decode, nothing after it changes
/// the failure.
proof fn lemma_entries_error_extends(s: Seq<Seq<u8>>, t: Seq<Seq<u8>>)
    requires
        entries_outcome(s) is Err,
    ensures
        entries_outcome(s + t) == entries_outcome(s),
    decreases t.len(),
{
    if t.len() == 0 {
        assert(s + t =~= s);
    } else {
        assert((s + t).drop_last() =~= s + t.drop_last());
        lemma_entries_error_extends(s, t.drop_last());
    }
}

/// Every segment of `segs` holds an `=` and is valid UTF-8.
pub open spec fn well_formed(segs: Seq<Seq<u8>>) -> bool {
    forall|k: int| 0 <= k < segs.len() ==> segs[k].contains(EQ) && valid_utf8(#[trigger] segs[k])
}

/// Well-formed segments decode, one entry each, and each entry joined again
/// with `=` is its segment.
pub proof fn lemma_entries_rejoin(segs: Seq<Seq<u8>>)
    requires
        well_formed(segs),
    ensures
        entries_outcome(segs) is Ok,
        entries_outcome(segs)->Ok_0.len() == segs.len(),
        forall|k: int|
            0 <= k < segs.len() ==> rejoined(#[trigger] entries_outcome(segs)->Ok_0[k]) == segs[k],
    decreases segs.len(),
{
    if segs.len() > 0 {
        let prior = segs.drop_last();
        assert(well_formed(prior)) by {
            assert forall|k: int| 0 <= k < prior.len() implies prior[k].contains(EQ) && valid_utf8(
                #[trigger] prior[k],
            ) by {
                assert(prior[k] == segs[k]);
            }
        }
        lemma_entries_rejoin(prior);
        lemma_entry_rejoins(segs.last());
        let entries = entries_outcome(segs)->Ok_0;
        assert forall|k: int| 0 <= k < segs.len() implies rejoined(#[trigger] entries[k])
            == segs[k] by {
            if k < segs.len() - 1 {
                assert(segs[k] == prior[k]);
            }
        }
    }
}

/// Parsing an environment blob made of well-formed `KEY=VALUE` segments
/// succeeds with one entry per segment, and joining each entry's key and
/// value with `=` gives back its segment exactly; the same holds of the
/// segments that any pattern keeps.
pub proof fn lemma_blob_round_trip(blob: Seq<u8>, pattern: Seq<char>, case_insensitive: bool)
    requires
        well_formed(segments(blob)),
    ensures
        entries_outcome(segments(blob)) is Ok,
        entries_outcome(segments(blob))->Ok_0.len() == segments(blob).len(),
        forall|k: int|
            0 <= k < segments(blob).len() ==> rejoined(
                #[trigger] entries_outcome(segments(blob))->Ok_0[k],
            ) == segments(blob)[k],
        ({
            let kept = matching(segments(blob), pattern, case_insensitive);
            &&& entries_outcome(kept) is Ok
            &&& entries_outcome(kept)->Ok_0.len() == kept.len()
            &&& forall|k: int|
                0 <= k < kept.len() ==> rejoined(#[trigger] entries_outcome(kept)->Ok_0[k])
                    == kept[k]
        }),
{
    let segs = segments(blob);
    lemma_entries_rejoin(segs);
    let kept = matching(segs, pattern, case_insensitive);
    assert(well_formed(kept)) by {
        assert forall|k: int| 0 <= k < kept.len() implies kept[k].contains(EQ) && valid_utf8(
            #[trigger] kept[k],
        ) by {
            assert(kept.contains(kept[k]));
            segs.lemma_filter_contains_rev(matches_segment(pattern, case_insensitive), kept[k]);
            let j = choose|j: int| 0 <= j < segs.len() && segs[j] == kept[k];
            assert(segs[j].contains(EQ) && valid_utf8(segs[j]));
        }
    }
    lemma_entries_rejoin(kept);
}

/// The view of the result of an inspection.
pub open spec fn process_result_view(r: Result<Process, InspectError>) -> Result<
    (Seq<char>, Seq<(Seq<char>, Seq<char>)>),
    InspectError,
> {
    match r {
        Ok(p) => Ok(p@),
        Err(e) => Err(e),
    }
}

/// Inspects one process from the content of its command-line and environment
/// pseudo-files: rebuilds the command line, then keeps, in order, each
/// non-empty environment segment that `pattern` matches, split into key and
/// value at its first `=`.
pub fn grep_file(cmdline_blob: &[u8], environ_blob: &[u8], pattern: &MatchPattern) -> (r: Result<
    Process,
    InspectError,
>)
    ensures
        process_result_view(r) == inspection(
            cmdline_blob@,
            environ_blob@,
            pattern.pattern(),
            pattern.is_case_insensitive(),
        ),
{
    let cmdline = match load_cmdline(cmdline_blob) {
        Ok(line) => line,
        Err(e) => {
            return Err(e);
        },
    };
    let segs = split_segments(environ_blob);
    let ghost all = segs.deep_view();
    let ghost pred = matches_segment(pattern.pattern(), pattern.is_case_insensitive());
    let mut variables: Vec<EnvVariable> = Vec::new();
    let mut i: usize = 0;
    proof {
        reveal(Seq::filter);
        assert(all.take(0) =~= Seq::<Seq<u8>>::empty());
        assert(variables@.map_values(|v: EnvVariable| v@) =~= Seq::empty());
    }
    while i < segs.len()
        invariant
            0 <= i <= segs@.len(),
            all == segs.deep_view(),
            all == segments(environ_blob@),
            cmdline_outcome(cmdline_blob@) == Ok::<_, InspectError>(cmdline@),
            pred == matches_segment(pattern.pattern(), pattern.is_case_insensitive()),
            entries_outcome(all.take(i as int).filter(pred)) == Ok::<_, InspectError>(
                variables@.map_values(|v: EnvVariable| v@),
            ),
        decreases segs.len() - i,
    {
        let bytes = segs[i].as_slice();
        let ghost seg = all[i as int];
        let ghost kept = all.take(i as int).filter(pred);
        proof {
            assert(bytes@ =~= seg);
            assert(all.take(i + 1) =~= all.take(i as int).push(seg));
            all.take(i as int).lemma_filter_push(seg, pred);
        }
        if pattern.matches(bytes) {
            proof {
                assert(kept.push(seg).drop_last() =~= kept);
            }
            match parse_entry(bytes) {
                Ok((key, value)) => {
                    let ghost before = variables@.map_values(|v: EnvVariable| v@);
                    let ghost entry = (key@, value@);
                    variables.push(EnvVariable { key, value });
                    proof {
                        assert(variables@.map_values(|v: EnvVariable| v@) =~= before.push(entry));
                    }
                },
                Err(e) => {
                    proof {
                        let rest = all.skip(i + 1);
                        assert(all =~= all.take(i + 1) + rest);
                        Seq::filter_distributes_over_add(all.take(i + 1), rest, pred);
                        lemma_entries_error_extends(kept.push(seg), rest.filter(pred));
                    }
                    return Err(e);
                },
            }
        }
        i = i + 1;
    }
    proof {
        assert(all.take(i as int) =~= all);
    }
    Ok(Process { cmdline, variables })
}

} // verus!
