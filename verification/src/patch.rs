//! The patch engine: a single region substitution (verify-then-overwrite)
//! and ordered, fail-fast composition of many substitutions.

use vstd::prelude::*;

use crate::errors::PatchError;

verus! {

/// The atomic unit of patching: a fixed offset into the binary plus the
/// expected original bytes (`before`) and the replacement bytes (`after`)
/// of that region. A descriptor is immutable configuration; applying one
/// verifies the region's current content before overwriting it.
pub struct PatchDescriptor {
    /// Byte offset of the region inside the binary.
    pub location: usize,
    /// Expected original byte sequence at `location` prior to patching.
    pub before: Vec<u8>,
    /// Replacement byte sequence written when patching.
    pub after: Vec<u8>,
}

/// The outcome of one region substitution on `buf`: the checked region of
/// width `expect.len()` starts at `loc`; if it holds `expect` it is replaced
/// by `repl`, if it already holds `repl` the operation reports `already`,
/// and if it holds neither the operation reports `BinaryModified`. On any
/// failure the buffer is returned unchanged.
pub open spec fn region_outcome(
    buf: Seq<u8>,
    loc: nat,
    expect: Seq<u8>,
    repl: Seq<u8>,
    already: PatchError,
) -> (Seq<u8>, Result<(), PatchError>) {
    if loc + expect.len() > buf.len() {
        (buf, Err(PatchError::ReadFail))
    } else if buf.subrange(loc as int, loc + expect.len() as int) == expect {
        (
            buf.subrange(0, loc as int) + repl + buf.subrange(
                loc + expect.len() as int,
                buf.len() as int,
            ),
            Ok(()),
        )
    } else if buf.subrange(loc as int, loc + expect.len() as int) == repl {
        (buf, Err(already))
    } else {
        (buf, Err(PatchError::BinaryModified))
    }
}

/// The outcome of patching one descriptor: its region, sized by `before`,
/// must hold `before` and is overwritten with `after`.
pub open spec fn desc_patch_outcome(d: PatchDescriptor, buf: Seq<u8>) -> (Seq<u8>, Result<
    (),
    PatchError,
>) {
    region_outcome(buf, d.location as nat, d.before@, d.after@, PatchError::AlreadyPatched)
}

/// The outcome of unpatching one descriptor: its region, sized by `after`,
/// must hold `after` and is restored to `before`.
pub open spec fn desc_unpatch_outcome(d: PatchDescriptor, buf: Seq<u8>) -> (Seq<u8>, Result<
    (),
    PatchError,
>) {
    region_outcome(buf, d.location as nat, d.after@, d.before@, PatchError::AlreadyUnpatched)
}

/// True when the bytes of `buf` starting at `loc` are exactly `pat`.
fn region_eq(buf: &Vec<u8>, loc: usize, pat: &Vec<u8>) -> (r: bool)
    requires
        loc + pat@.len() <= buf@.len(),
    ensures
        r == (buf@.subrange(loc as int, loc as int + pat@.len()) == pat@),
{
    let n = buf.len();
    let mut i: usize = 0;
    while i < pat.len()
        invariant
            loc + pat@.len() <= buf@.len(),
            n == buf@.len(),
            i <= pat@.len(),
            forall|k: int| 0 <= k < i ==> buf@[loc + k] == pat@[k],
        decreases pat@.len() - i,
    {
        if buf[loc + i] != pat[i] {
            proof {
                let ii = i as int;
                assert(buf@.subrange(loc as int, loc as int + pat@.len())[ii] != pat@[ii]);
            }
            return false;
        }
        i += 1;
    }
    proof {
        assert(buf@.subrange(loc as int, loc as int + pat@.len()) =~= pat@);
    }
    true
}

/// Replaces the `cut` bytes of `buf` starting at `loc` with the bytes of
/// `repl`, leaving everything before and after that region as it was.
fn splice(buf: &mut Vec<u8>, loc: usize, cut: usize, repl: &Vec<u8>)
    requires
        loc + cut <= old(buf)@.len(),
    ensures
        final(buf)@ == old(buf)@.subrange(0, loc as int) + repl@ + old(buf)@.subrange(
            loc as int + cut as int,
            old(buf)@.len() as int,
        ),
{
    let mut out: Vec<u8> = Vec::new();
    let mut i: usize = 0;
    while i < loc
        invariant
            loc + cut <= buf@.len(),
            i <= loc,
            out@ == buf@.subrange(0, i as int),
        decreases loc - i,
    {
        let b = buf[i];
        out.push(b);
        proof {
            assert(out@ =~= buf@.subrange(0, i + 1));
        }
        i += 1;
    }
    let mut j: usize = 0;
    while j < repl.len()
        invariant
            loc + cut <= buf@.len(),
            j <= repl@.len(),
            out@ == buf@.subrange(0, loc as int) + repl@.subrange(0, j as int),
        decreases repl@.len() - j,
    {
        let b = repl[j];
        out.push(b);
        proof {
            assert(out@ =~= buf@.subrange(0, loc as int) + repl@.subrange(0, j + 1));
        }
        j += 1;
    }
    proof {
        assert(repl@.subrange(0, repl@.len() as int) =~= repl@);
    }
    let n = buf.len();
    let mut k: usize = loc + cut;
    while k < n
        invariant
            loc + cut <= buf@.len(),
            n == buf@.len(),
            loc + cut <= k <= buf@.len(),
            out@ == buf@.subrange(0, loc as int) + repl@ + buf@.subrange(
                loc as int + cut as int,
                k as int,
            ),
        decreases buf@.len() - k,
    {
        let b = buf[k];
        out.push(b);
        proof {
            assert(out@ =~= buf@.subrange(0, loc as int) + repl@ + buf@.subrange(
                loc as int + cut as int,
                k + 1,
            ));
        }
        k += 1;
    }
    *buf = out;
}

/// Performs one region substitution on `buf`, exactly as `region_outcome`
/// describes: check the region of width `expect.len()` at `loc`, overwrite
/// it with `repl` when it holds `expect`, otherwise fail and leave the
/// buffer untouched.
fn substitute(
    buf: &mut Vec<u8>,
    loc: usize,
    expect: &Vec<u8>,
    repl: &Vec<u8>,
    already: PatchError,
) -> (r: Result<(), PatchError>)
    ensures
        ({
            let (b, res) = region_outcome(old(buf)@, loc as nat, expect@, repl@, already);
            final(buf)@ == b && r == res
        }),
{
    if loc > buf.len() || expect.len() > buf.len() - loc {
        return Err(PatchError::ReadFail);
    }
    if region_eq(buf, loc, expect) {
        splice(buf, loc, expect.len(), repl);
        Ok(())
    } else if repl.len() == expect.len() && region_eq(buf, loc, repl) {
        Err(already)
    } else {
        proof {
            if repl@.len() != expect@.len() {
                assert(buf@.subrange(loc as int, loc as int + expect@.len()).len()
                    != repl@.len());
            }
        }
        Err(PatchError::BinaryModified)
    }
}

/// The direction of an operation on the binary: apply the replacement
/// bytes, or restore the original bytes.
#[derive(Clone, Copy, Debug, PartialEq, Eq, Structural)]
pub enum Action {
    /// Apply each descriptor's `after` bytes over its `before` bytes.
    Patch,
    /// Restore each descriptor's `before` bytes over its `after` bytes.
    Unpatch,
}

/// A patch: either a single region substitution, or an ordered aggregate
/// of patches applied as one logical unit, in declared order, stopping at
/// the first failure. Aggregates nest to arbitrary depth.
pub enum Patch {
    /// A single region substitution.
    Leaf(PatchDescriptor),
    /// An ordered aggregate of member patches.
    Composite(Vec<Patch>),
}

/// The outcome of running one descriptor in the given direction.
pub open spec fn leaf_outcome(act: Action, d: PatchDescriptor, buf: Seq<u8>) -> (Seq<u8>, Result<
    (),
    PatchError,
>) {
    match act {
        Action::Patch => desc_patch_outcome(d, buf),
        Action::Unpatch => desc_unpatch_outcome(d, buf),
    }
}

/// The outcome of running a whole patch tree in the given direction:
/// the buffer it leaves behind and the result it reports. A composite
/// runs its members in declared order and stops at the first failure,
/// leaving the effects of the members that already succeeded in place.
pub open spec fn tree_outcome(act: Action, p: Patch, buf: Seq<u8>) -> (Seq<u8>, Result<
    (),
    PatchError,
>)
    decreases p,
{
    match p {
        Patch::Leaf(d) => leaf_outcome(act, d, buf),
        Patch::Composite(ms) => seq_outcome(act, ms@, buf),
    }
}

/// The outcome of running a sequence of patches left to right, fail-fast:
/// each member runs on the buffer its predecessors left behind, and the
/// first failure ends the run with that member's error.
pub open spec fn seq_outcome(act: Action, ms: Seq<Patch>, buf: Seq<u8>) -> (Seq<u8>, Result<
    (),
    PatchError,
>)
    decreases ms,
{
    if ms.len() == 0 {
        (buf, Ok(()))
    } else {
        let prev = seq_outcome(act, ms.drop_last(), buf);
        if prev.1 is Ok {
            tree_outcome(act, ms.last(), prev.0)
        } else {
            prev
        }
    }
}

/// Decides the direction of a run from the first character of the user's
/// answer: `p` or `P` selects patching, `u` or `U` selects unpatching, and
/// anything else — an empty answer included — is rejected.
pub fn choose_action(c: Option<char>) -> (r: Result<Action, PatchError>)
    ensures
        r == (match c {
            Some(ch) => {
                if ch == 'p' || ch == 'P' {
                    Ok::<Action, PatchError>(Action::Patch)
                } else if ch == 'u' || ch == 'U' {
                    Ok::<Action, PatchError>(Action::Unpatch)
                } else {
                    Err::<Action, PatchError>(PatchError::StrangeInputError)
                }
            },
            None => Err::<Action, PatchError>(PatchError::StrangeInputError),
        }),
{
    match c {
        Some(ch) => {
            if ch == 'p' || ch == 'P' {
                Ok(Action::Patch)
            } else if ch == 'u' || ch == 'U' {
                Ok(Action::Unpatch)
            } else {
                Err(PatchError::StrangeInputError)
            }
        },
        None => Err(PatchError::StrangeInputError),
    }
}

/// Running one more member of a sequence extends the outcome of the
/// members before it: when they all succeeded, the next member runs on
/// the buffer they left; when one of them failed, the outcome stands.
proof fn lemma_seq_outcome_step(act: Action, ms: Seq<Patch>, buf: Seq<u8>, i: int)
    requires
        0 <= i < ms.len(),
    ensures
        seq_outcome(act, ms.take(i + 1), buf) == ({
            let prev = seq_outcome(act, ms.take(i), buf);
            if prev.1 is Ok {
                tree_outcome(act, ms[i], prev.0)
            } else {
                prev
            }
        }),
{
    assert(ms.take(i + 1).drop_last() =~= ms.take(i));
    assert(ms.take(i + 1).last() == ms[i]);
}

/// Fail-fast: once a prefix of the members has failed, the members after
/// it are never consulted — the whole sequence has the prefix's outcome.
pub proof fn lemma_seq_outcome_fail_fast(act: Action, ms: Seq<Patch>, buf: Seq<u8>, i: int)
    requires
        0 <= i <= ms.len(),
        seq_outcome(act, ms.take(i), buf).1 is Err,
    ensures
        seq_outcome(act, ms, buf) == seq_outcome(act, ms.take(i), buf),
    decreases ms.len() - i,
{
    if i == ms.len() {
        assert(ms.take(i) =~= ms);
    } else {
        lemma_seq_outcome_step(act, ms, buf, i);
        lemma_seq_outcome_fail_fast(act, ms, buf, i + 1);
    }
}

impl Patch {
    /// Runs this patch tree on `buf` in the given direction: members in
    /// declared order, stopping at the first failure and reporting that
    /// exact error. On failure the buffer keeps the effects of the
    /// members that succeeded before the failing one.
    pub fn run(&self, act: Action, buf: &mut Vec<u8>) -> (r: Result<(), PatchError>)
        ensures
            ({
                let out = tree_outcome(act, *self, old(buf)@);
                final(buf)@ == out.0 && r == out.1
            }),
        decreases *self,
    {
        match self {
            Patch::Leaf(d) => match act {
                Action::Patch => d.patch(buf),
                Action::Unpatch => d.unpatch(buf),
            },
            Patch::Composite(ms) => {
                let ghost buf0 = buf@;
                let mut i: usize = 0;
                while i < ms.len()
                    invariant
                        *self == Patch::Composite(*ms),
                        buf0 == old(buf)@,
                        i <= ms@.len(),
                        seq_outcome(act, ms@.take(i as int), buf0) == (buf@, Ok::<
                            (),
                            PatchError,
                        >(())),
                    decreases ms@.len() - i,
                {
                    let member = &ms[i];
                    let res = member.run(act, buf);
                    proof {
                        lemma_seq_outcome_step(act, ms@, buf0, i as int);
                    }
                    match res {
                        Ok(()) => {
                            proof {
                                // `res` is `Ok` with the unit value: spell the
                                // constructor out so the tuple in the invariant
                                // closes.
                                assert(res == Ok::<(), PatchError>(res->Ok_0));
                            }
                        },
                        Err(e) => {
                            proof {
                                lemma_seq_outcome_fail_fast(act, ms@, buf0, i + 1);
                            }
                            return Err(e);
                        },
                    }
                    i += 1;
                }
                proof {
                    assert(ms@.take(ms@.len() as int) =~= ms@);
                }
                Ok(())
            },
        }
    }

    /// Applies this patch tree to `buf`: every descriptor's region is
    /// verified to hold its `before` bytes and overwritten with its
    /// `after` bytes, in declared order, stopping at the first failure.
    pub fn patch(&self, buf: &mut Vec<u8>) -> (r: Result<(), PatchError>)
        ensures
            ({
                let out = tree_outcome(Action::Patch, *self, old(buf)@);
                final(buf)@ == out.0 && r == out.1
            }),
    {
        self.run(Action::Patch, buf)
    }

    /// Reverses this patch tree on `buf`: every descriptor's region is
    /// verified to hold its `after` bytes and restored to its `before`
    /// bytes, in declared order, stopping at the first failure.
    pub fn unpatch(&self, buf: &mut Vec<u8>) -> (r: Result<(), PatchError>)
        ensures
            ({
                let out = tree_outcome(Action::Unpatch, *self, old(buf)@);
                final(buf)@ == out.0 && r == out.1
            }),
    {
        self.run(Action::Unpatch, buf)
    }
}

impl PatchDescriptor {
    /// Applies this descriptor to `buf`: verifies that the region at
    /// `location` still holds `before`, then overwrites it with `after`.
    /// On failure the buffer is left exactly as it was.
    pub fn patch(&self, buf: &mut Vec<u8>) -> (r: Result<(), PatchError>)
        ensures
            ({
                let (b, res) = desc_patch_outcome(*self, old(buf)@);
                final(buf)@ == b && r == res
            }),
    {
        substitute(buf, self.location, &self.before, &self.after, PatchError::AlreadyPatched)
    }

    /// Reverses this descriptor on `buf`: verifies that the region at
    /// `location` holds `after`, then restores `before`. On failure the
    /// buffer is left exactly as it was.
    pub fn unpatch(&self, buf: &mut Vec<u8>) -> (r: Result<(), PatchError>)
        ensures
            ({
                let (b, res) = desc_unpatch_outcome(*self, old(buf)@);
                final(buf)@ == b && r == res
            }),
    {
        substitute(buf, self.location, &self.after, &self.before, PatchError::AlreadyUnpatched)
    }
}

} // verus!
