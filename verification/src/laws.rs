//! The laws of the engine: round-trip, idempotence in effect, rejection
//! of modified regions, bounds failures, and associativity of composition.

use vstd::prelude::*;

use crate::errors::PatchError;
use crate::patch::Action;
use crate::patch::Patch;
use crate::patch::PatchDescriptor;
use crate::patch::desc_patch_outcome;
use crate::patch::desc_unpatch_outcome;
use crate::patch::region_outcome;
use crate::patch::seq_outcome;
use crate::patch::tree_outcome;

verus! {

/// Substituting `repl` for `expect` and then `expect` for `repl` restores
/// the buffer: when the region at `loc` holds exactly `expect`, the first
/// substitution succeeds, and reversing it on the result succeeds and
/// gives back the original buffer.
proof fn lemma_substitute_roundtrip(
    buf: Seq<u8>,
    loc: nat,
    expect: Seq<u8>,
    repl: Seq<u8>,
    e1: PatchError,
    e2: PatchError,
)
    requires
        loc + expect.len() <= buf.len(),
        buf.subrange(loc as int, loc + expect.len() as int) == expect,
    ensures
        region_outcome(buf, loc, expect, repl, e1).1 is Ok,
        region_outcome(region_outcome(buf, loc, expect, repl, e1).0, loc, repl, expect, e2).1
            is Ok,
        region_outcome(region_outcome(buf, loc, expect, repl, e1).0, loc, repl, expect, e2).0
            == buf,
{
    let li = loc as int;
    let el = expect.len() as int;
    let rl = repl.len() as int;
    let b1 = region_outcome(buf, loc, expect, repl, e1).0;
    assert(b1 == buf.subrange(0, li) + repl + buf.subrange(li + el, buf.len() as int));
    assert(b1.len() == buf.len() - el + rl);
    assert(b1.subrange(li, li + rl) =~= repl);
    let b2 = region_outcome(b1, loc, repl, expect, e2).0;
    assert(b2 == b1.subrange(0, li) + expect + b1.subrange(li + rl, b1.len() as int));
    assert(b1.subrange(0, li) =~= buf.subrange(0, li));
    assert(b1.subrange(li + rl, b1.len() as int) =~= buf.subrange(li + el, buf.len() as int));
    assert forall|k: int| 0 <= k < buf.len() implies b2[k] == buf[k] by {
        if li <= k < li + el {
            assert(buf.subrange(li, li + el)[k - li] == buf[k]);
        }
    }
    assert(b2 =~= buf);
}

/// Round trip: unpatching a freshly patched buffer restores it. When the
/// region of a descriptor holds exactly its `before` bytes, `patch`
/// succeeds, and `unpatch` of the patched buffer succeeds and returns the
/// buffer to its original byte content.
pub proof fn lemma_patch_roundtrip(d: PatchDescriptor, buf: Seq<u8>)
    requires
        d.location + d.before@.len() <= buf.len(),
        buf.subrange(d.location as int, d.location + d.before@.len() as int) == d.before@,
    ensures
        desc_patch_outcome(d, buf).1 is Ok,
        desc_unpatch_outcome(d, desc_patch_outcome(d, buf).0).1 is Ok,
        desc_unpatch_outcome(d, desc_patch_outcome(d, buf).0).0 == buf,
{
    lemma_substitute_roundtrip(
        buf,
        d.location as nat,
        d.before@,
        d.after@,
        PatchError::AlreadyPatched,
        PatchError::AlreadyUnpatched,
    );
}

/// Substituting twice only mutates once: when the region holds `expect`
/// and `expect` and `repl` are distinct sequences of one length, the
/// first substitution succeeds and the second reports `already` and
/// leaves the buffer exactly as the first left it.
proof fn lemma_substitute_twice(
    buf: Seq<u8>,
    loc: nat,
    expect: Seq<u8>,
    repl: Seq<u8>,
    already: PatchError,
)
    requires
        expect.len() == repl.len(),
        expect != repl,
        loc + expect.len() <= buf.len(),
        buf.subrange(loc as int, loc + expect.len() as int) == expect,
    ensures
        region_outcome(buf, loc, expect, repl, already).1 is Ok,
        region_outcome(region_outcome(buf, loc, expect, repl, already).0, loc, expect, repl,
        already).0 == region_outcome(buf, loc, expect, repl, already).0,
        region_outcome(region_outcome(buf, loc, expect, repl, already).0, loc, expect, repl,
        already).1 == Err::<(), PatchError>(already),
{
    let li = loc as int;
    let el = expect.len() as int;
    let b1 = region_outcome(buf, loc, expect, repl, already).0;
    assert(b1.len() == buf.len());
    assert(b1.subrange(li, li + el) =~= repl);
}

/// Patching is idempotent in effect but not in result: on a buffer whose
/// region holds `before`, `patch` succeeds once, and a second `patch`
/// reports `AlreadyPatched` without mutating the buffer again. Stated for
/// descriptors whose `before` and `after` are distinct sequences of one
/// length.
pub proof fn lemma_patch_idempotent(d: PatchDescriptor, buf: Seq<u8>)
    requires
        d.before@.len() == d.after@.len(),
        d.before@ != d.after@,
        d.location + d.before@.len() <= buf.len(),
        buf.subrange(d.location as int, d.location + d.before@.len() as int) == d.before@,
    ensures
        desc_patch_outcome(d, buf).1 is Ok,
        desc_patch_outcome(d, desc_patch_outcome(d, buf).0).0 == desc_patch_outcome(d, buf).0,
        desc_patch_outcome(d, desc_patch_outcome(d, buf).0).1 == Err::<(), PatchError>(
            PatchError::AlreadyPatched,
        ),
{
    lemma_substitute_twice(
        buf,
        d.location as nat,
        d.before@,
        d.after@,
        PatchError::AlreadyPatched,
    );
}

/// Unpatching is idempotent in effect but not in result: on a buffer
/// whose region holds `after`, `unpatch` succeeds once, and a second
/// `unpatch` reports `AlreadyUnpatched` without mutating the buffer
/// again. Stated for descriptors whose `before` and `after` are distinct
/// sequences of one length.
pub proof fn lemma_unpatch_idempotent(d: PatchDescriptor, buf: Seq<u8>)
    requires
        d.before@.len() == d.after@.len(),
        d.before@ != d.after@,
        d.location + d.after@.len() <= buf.len(),
        buf.subrange(d.location as int, d.location + d.after@.len() as int) == d.after@,
    ensures
        desc_unpatch_outcome(d, buf).1 is Ok,
        desc_unpatch_outcome(d, desc_unpatch_outcome(d, buf).0).0 == desc_unpatch_outcome(
            d,
            buf,
        ).0,
        desc_unpatch_outcome(d, desc_unpatch_outcome(d, buf).0).1 == Err::<(), PatchError>(
            PatchError::AlreadyUnpatched,
        ),
{
    lemma_substitute_twice(
        buf,
        d.location as nat,
        d.after@,
        d.before@,
        PatchError::AlreadyUnpatched,
    );
}

/// A region that holds neither `before` nor `after` is rejected: both
/// `patch` and `unpatch` report `BinaryModified` and leave the buffer
/// unchanged. The region is read at the width of `before` by `patch` and
/// at the width of `after` by `unpatch`, so both readings must differ
/// from both byte sequences.
pub proof fn lemma_modified_rejected(d: PatchDescriptor, buf: Seq<u8>)
    requires
        d.location + d.before@.len() <= buf.len(),
        d.location + d.after@.len() <= buf.len(),
        buf.subrange(d.location as int, d.location + d.before@.len() as int) != d.before@,
        buf.subrange(d.location as int, d.location + d.before@.len() as int) != d.after@,
        buf.subrange(d.location as int, d.location + d.after@.len() as int) != d.after@,
        buf.subrange(d.location as int, d.location + d.after@.len() as int) != d.before@,
    ensures
        desc_patch_outcome(d, buf).0 == buf,
        desc_patch_outcome(d, buf).1 == Err::<(), PatchError>(PatchError::BinaryModified),
        desc_unpatch_outcome(d, buf).0 == buf,
        desc_unpatch_outcome(d, buf).1 == Err::<(), PatchError>(PatchError::BinaryModified),
{
}

/// A region that runs past the end of the buffer is never read or
/// written: `patch` reports `ReadFail` when `location + before.len()`
/// exceeds the buffer's length, `unpatch` when `location + after.len()`
/// does, and in either case the buffer is unchanged.
pub proof fn lemma_out_of_bounds(d: PatchDescriptor, buf: Seq<u8>)
    ensures
        d.location + d.before@.len() > buf.len() ==> desc_patch_outcome(d, buf).0 == buf
            && desc_patch_outcome(d, buf).1 == Err::<(), PatchError>(PatchError::ReadFail),
        d.location + d.after@.len() > buf.len() ==> desc_unpatch_outcome(d, buf).0 == buf
            && desc_unpatch_outcome(d, buf).1 == Err::<(), PatchError>(PatchError::ReadFail),
{
}

/// Composition is associative: running the members `ms1 + ms2` is the
/// same as running `ms1` and, if every member of it succeeded, running
/// `ms2` on the buffer it left behind.
pub proof fn lemma_seq_outcome_concat(act: Action, ms1: Seq<Patch>, ms2: Seq<Patch>, buf: Seq<u8>)
    ensures
        seq_outcome(act, ms1 + ms2, buf) == ({
            let prev = seq_outcome(act, ms1, buf);
            if prev.1 is Ok {
                seq_outcome(act, ms2, prev.0)
            } else {
                prev
            }
        }),
    decreases ms2.len(),
{
    if ms2.len() == 0 {
        assert(ms1 + ms2 =~= ms1);
        let prev = seq_outcome(act, ms1, buf);
        if prev.1 is Ok {
            assert(prev.1 == Ok::<(), PatchError>(prev.1->Ok_0));
            assert(prev == (prev.0, Ok::<(), PatchError>(())));
        }
    } else {
        lemma_seq_outcome_concat(act, ms1, ms2.drop_last(), buf);
        let whole = ms1 + ms2;
        let prev1 = seq_outcome(act, ms1, buf);
        let pd = seq_outcome(act, ms1 + ms2.drop_last(), buf);
        assert(whole.drop_last() =~= ms1 + ms2.drop_last());
        assert(whole.last() == ms2.last());
        assert(seq_outcome(act, whole, buf) == if pd.1 is Ok {
            tree_outcome(act, ms2.last(), pd.0)
        } else {
            pd
        });
        if prev1.1 is Ok {
            let pdi = seq_outcome(act, ms2.drop_last(), prev1.0);
            assert(seq_outcome(act, ms2, prev1.0) == if pdi.1 is Ok {
                tree_outcome(act, ms2.last(), pdi.0)
            } else {
                pdi
            });
        }
    }
}

/// A nested composite behaves as if spliced flat into its parent: when
/// member `i` of a sequence is a composite with members `w`, replacing it
/// by `w` in place gives the same outcome, for patching and unpatching
/// alike.
pub proof fn lemma_flatten_nested(act: Action, ms: Seq<Patch>, i: int, w: Seq<Patch>, buf: Seq<u8>)
    requires
        0 <= i < ms.len(),
        ms[i] is Composite,
        ms[i]->Composite_0@ == w,
    ensures
        seq_outcome(act, ms, buf) == seq_outcome(act, ms.take(i) + w + ms.skip(i + 1), buf),
{
    let a = ms.take(i);
    let b = seq![ms[i]];
    let c = ms.skip(i + 1);
    assert(ms =~= (a + b) + c);
    lemma_seq_outcome_concat(act, a + b, c, buf);
    lemma_seq_outcome_concat(act, a, b, buf);
    let pa = seq_outcome(act, a, buf);
    assert(b.drop_last() =~= Seq::<Patch>::empty());
    assert(b.last() == ms[i]);
    if pa.1 is Ok {
        let pe = seq_outcome(act, Seq::<Patch>::empty(), pa.0);
        assert(pe.0 == pa.0 && pe.1 is Ok);
        assert(seq_outcome(act, b, pa.0) == tree_outcome(act, ms[i], pa.0));
        assert(tree_outcome(act, ms[i], pa.0) == seq_outcome(act, w, pa.0));
    }
    lemma_seq_outcome_concat(act, a + w, c, buf);
    lemma_seq_outcome_concat(act, a, w, buf);
    assert(ms.take(i) + w + ms.skip(i + 1) =~= (a + w) + c);
}

} // verus!
