//! Cutting a NUL-delimited blob into its non-empty segments.

use vstd::prelude::*;

verus! {

/// The NUL byte that separates segments of a blob.
pub const NUL: u8 = 0;

/// All fields of `blob` between NUL bytes, empty ones included: a blob with
/// `n` NUL bytes has `n + 1` fields.
pub open spec fn fields(blob: Seq<u8>) -> Seq<Seq<u8>>
    decreases blob.len(),
{
    if blob.len() == 0 {
        seq![Seq::empty()]
    } else {
        let prior = fields(blob.drop_last());
        if blob.last() == NUL {
            prior.push(Seq::empty())
        } else {
            prior.update(prior.len() - 1, prior.last().push(blob.last()))
        }
    }
}

/// A segment survives the split when it holds at least one byte.
pub open spec fn nonempty(s: Seq<u8>) -> bool {
    s.len() > 0
}

/// The non-empty fields of `blob`, in order.
pub open spec fn segments(blob: Seq<u8>) -> Seq<Seq<u8>> {
    fields(blob).filter(|s: Seq<u8>| nonempty(s))
}

/// Splits `blob` on NUL bytes and keeps the non-empty segments, in order.
pub fn split_segments(blob: &[u8]) -> (r: Vec<Vec<u8>>)
    ensures
        r.deep_view() == segments(blob@),
{
    let mut out: Vec<Vec<u8>> = Vec::new();
    let mut cur: Vec<u8> = Vec::new();
    let mut i: usize = 0;
    proof {
        assert(blob@.take(0) =~= Seq::<u8>::empty());
        reveal(Seq::filter);
        assert(fields(blob@.take(0)).drop_last() =~= Seq::<Seq<u8>>::empty());
    }
    while i < blob.len()
        invariant
            0 <= i <= blob@.len(),
            fields(blob@.take(i as int)).len() >= 1,
            out.deep_view() == fields(blob@.take(i as int)).drop_last().filter(
                |s: Seq<u8>| nonempty(s),
            ),
            cur@ == fields(blob@.take(i as int)).last(),
        decreases blob.len() - i,
    {
        let b = blob[i];
        let ghost f = fields(blob@.take(i as int));
        let ghost pred = |s: Seq<u8>| nonempty(s);
        proof {
            assert(blob@.take(i + 1).drop_last() =~= blob@.take(i as int));
            assert(f =~= f.drop_last().push(f.last()));
            f.drop_last().lemma_filter_push(f.last(), pred);
        }
        if b == NUL {
            if cur.len() > 0 {
                let ghost before = out.deep_view();
                proof {
                    assert(cur.deep_view() =~= cur@);
                }
                out.push(cur);
                proof {
                    assert(out.deep_view() =~= before.push(f.last()));
                }
            }
            cur = Vec::new();
            proof {
                assert(fields(blob@.take(i + 1)).drop_last() =~= f);
                assert(cur@ =~= fields(blob@.take(i + 1)).last());
            }
        } else {
            cur.push(b);
            proof {
                assert(fields(blob@.take(i + 1)).drop_last() =~= f.drop_last());
            }
        }
        i = i + 1;
    }
    proof {
        assert(blob@.take(i as int) =~= blob@);
        let f = fields(blob@);
        assert(f =~= f.drop_last().push(f.last()));
        f.drop_last().lemma_filter_push(f.last(), |s: Seq<u8>| nonempty(s));
    }
    if cur.len() > 0 {
        let ghost before = out.deep_view();
        proof {
            assert(cur.deep_view() =~= cur@);
        }
        out.push(cur);
        proof {
            assert(out.deep_view() =~= before.push(fields(blob@).last()));
        }
    }
    out
}

} // verus!
