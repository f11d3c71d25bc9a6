//! The fault-tolerant compile loop's decisions.
//!
//! The loop itself is driven by the caller, who owns the external compiler:
//! submit the session's current synthesized text, then report the outcome.
//! On success the session finishes. On failure the session maps the reported
//! diagnostic spans back to user ranges, finds the first block that overlaps
//! one and has not been neutralized yet, and replaces that block's bytes in
//! the synthesized text with an equal-length run of inert spaces, so no
//! downstream offset shifts; the caller then resubmits. When no such block
//! exists the session aborts: the failure is unrecoverable and no fragments
//! are produced. Each failure report either finishes the session or
//! permanently neutralizes one more block, so the session accepts at most one
//! outcome report per block plus one. On exit the synthesized text is reset
//! to the original, so callers never observe a partially blanked state.

use vstd::prelude::*;

use crate::diag::{DiagRecord, TypstDiagnosticSeverity, spec_map_main_span, map_main_span};
use crate::index_mapper::{
    IndexMapper, lemma_translate_nonneg, translate_aux_to_main, translate_main_to_aux,
};
use crate::synth::{AstBlock, SynthOutput, append_range};

verus! {

/// Number of `true` entries.
pub open spec fn count_true(s: Seq<bool>) -> int
    decreases s.len(),
{
    if s.len() == 0 {
        0
    } else {
        count_true(s.drop_last()) + if s.last() {
            1int
        } else {
            0int
        }
    }
}

pub proof fn lemma_count_true_bounds(s: Seq<bool>)
    ensures
        0 <= count_true(s) <= s.len(),
    decreases s.len(),
{
    if s.len() > 0 {
        lemma_count_true_bounds(s.drop_last());
    }
}

pub proof fn lemma_count_true_update(s: Seq<bool>, k: int)
    requires
        0 <= k < s.len(),
        !s[k],
    ensures
        count_true(s.update(k, true)) == count_true(s) + 1,
    decreases s.len(),
{
    if k == s.len() - 1 {
        assert(s.update(k, true).drop_last() =~= s.drop_last());
    } else {
        assert(s.update(k, true).drop_last() =~= s.drop_last().update(k, true));
        lemma_count_true_update(s.drop_last(), k);
    }
}

/// The user-document byte range a diagnostic's attributed span translates to;
/// nothing when it has no attributable span or a translation does not fit the
/// machine word.
pub open spec fn spec_diag_aux_range(d: DiagRecord, mapper: Seq<(usize, usize)>) -> Option<
    (usize, usize),
> {
    match spec_map_main_span(d.main_range, d.severity is Error, d.trace_ranges@) {
        Some((ms, me)) => {
            let a1 = translate_main_to_aux(mapper, ms as int);
            let a2 = translate_main_to_aux(mapper, me as int);
            if a1 <= usize::MAX && a2 <= usize::MAX {
                Some((a1 as usize, a2 as usize))
            } else {
                None
            }
        },
        None => None,
    }
}

/// The user-document ranges of a diagnostic list, one entry per diagnostic.
pub open spec fn spec_diag_ranges(diags: Seq<DiagRecord>, mapper: Seq<(usize, usize)>) -> Seq<
    Option<(usize, usize)>,
> {
    Seq::new(diags.len(), |i: int| spec_diag_aux_range(diags[i], mapper))
}

/// Some resolved range overlaps the block's user range.
pub open spec fn hits(ranges: Seq<Option<(usize, usize)>>, b: AstBlock) -> bool {
    exists|i: int|
        0 <= i < ranges.len() && ((#[trigger] ranges[i]) matches Some(rg) && rg.0 <= b.end
            && b.start <= rg.1)
}

/// First block at or after `k` that is not yet neutralized and overlaps a
/// resolved diagnostic range.
pub open spec fn first_errant_from(
    blocks: Seq<AstBlock>,
    blanked: Seq<bool>,
    ranges: Seq<Option<(usize, usize)>>,
    k: int,
) -> Option<int>
    decreases blocks.len() - k,
    when 0 <= k <= blocks.len() && blanked.len() == blocks.len()
{
    if k >= blocks.len() {
        None
    } else if !blanked[k] && hits(ranges, blocks[k]) {
        Some(k)
    } else {
        first_errant_from(blocks, blanked, ranges, k + 1)
    }
}

pub proof fn lemma_first_errant_some(
    blocks: Seq<AstBlock>,
    blanked: Seq<bool>,
    ranges: Seq<Option<(usize, usize)>>,
    from: int,
    k: int,
)
    requires
        0 <= from <= blocks.len(),
        blanked.len() == blocks.len(),
        first_errant_from(blocks, blanked, ranges, from) == Some(k),
    ensures
        from <= k < blocks.len(),
        !blanked[k],
        hits(ranges, blocks[k]),
    decreases blocks.len() - from,
{
    if from < blocks.len() && !(!blanked[from] && hits(ranges, blocks[from])) {
        lemma_first_errant_some(blocks, blanked, ranges, from + 1, k);
    }
}

/// An all-space run of the given length: the inert placeholder content.
pub open spec fn spaces(n: int) -> Seq<u8> {
    Seq::new(n as nat, |i: int| 32u8)
}

/// `ir` with the bytes in `[p, p + len)` replaced by spaces.
pub open spec fn blank_range(ir: Seq<u8>, p: int, len: int) -> Seq<u8> {
    ir.subrange(0, p) + spaces(len) + ir.subrange(p + len, ir.len() as int)
}

/// What the caller does after reporting a failure: resubmit the session's
/// current text, or stop because the failure is unrecoverable.
#[derive(Clone, Copy, Debug, PartialEq, Eq, Structural)]
pub enum FailureAction {
    Retry,
    Abort,
}

/// One fault-tolerant compilation pass over one synthesized document.
pub struct CompileSession {
    blocks: Vec<AstBlock>,
    mapper: IndexMapper,
    original_ir: Vec<u8>,
    ir: Vec<u8>,
    blanked: Vec<bool>,
    invocations: usize,
    finished: bool,
    aborted: bool,
}

impl CompileSession {
    pub closed spec fn spec_blocks(&self) -> Seq<AstBlock> {
        self.blocks@
    }

    pub closed spec fn spec_mapper(&self) -> Seq<(usize, usize)> {
        self.mapper@
    }

    pub closed spec fn spec_ir(&self) -> Seq<u8> {
        self.ir@
    }

    pub closed spec fn spec_original_ir(&self) -> Seq<u8> {
        self.original_ir@
    }

    pub closed spec fn spec_blanked(&self) -> Seq<bool> {
        self.blanked@
    }

    pub closed spec fn spec_invocations(&self) -> int {
        self.invocations as int
    }

    pub closed spec fn spec_finished(&self) -> bool {
        self.finished
    }

    pub closed spec fn spec_aborted(&self) -> bool {
        self.aborted
    }

    /// Session invariant: one neutralization flag per block, blocks ordered
    /// with start at or before end, and the outcome count bounded by the
    /// neutralizations performed plus one final report.
    pub open spec fn wf(&self) -> bool {
        &&& self.spec_blanked().len() == self.spec_blocks().len()
        &&& self.spec_blocks().len() < usize::MAX
        &&& forall|i: int|
            0 <= i < self.spec_blocks().len() ==> (#[trigger] self.spec_blocks()[i]).start
                <= self.spec_blocks()[i].end
        &&& self.spec_invocations() <= count_true(self.spec_blanked()) + if self.spec_finished() {
            1int
        } else {
            0int
        }
    }

    /// Starts a session over one synthesis result.
    pub fn new(out: SynthOutput) -> (r: CompileSession)
        requires
            out.blocks@.len() < usize::MAX,
            forall|i: int|
                0 <= i < out.blocks@.len() ==> (#[trigger] out.blocks@[i]).start
                    <= out.blocks@[i].end,
        ensures
            r.wf(),
            r.spec_blocks() == out.blocks@,
            r.spec_mapper() == out.mapper@,
            r.spec_ir() == out.ir@,
            r.spec_original_ir() == out.ir@,
            r.spec_blanked() =~= Seq::new(out.blocks@.len(), |i: int| false),
            r.spec_invocations() == 0,
            !r.spec_finished(),
            !r.spec_aborted(),
    {
        let SynthOutput { ir, blocks, mapper } = out;
        let mut original_ir: Vec<u8> = Vec::new();
        append_range(&mut original_ir, &ir, 0, ir.len());
        proof {
            assert(original_ir@ =~= ir@);
        }
        let mut blanked: Vec<bool> = Vec::new();
        let n: usize = blocks.len();
        let mut i: usize = 0;
        while i < n
            invariant
                i <= n,
                blanked@.len() == i,
                count_true(blanked@) == 0,
                forall|j: int| 0 <= j < i ==> !(#[trigger] blanked@[j]),
            decreases n - i,
        {
            let ghost bv0 = blanked@;
            blanked.push(false);
            proof {
                assert(blanked@.drop_last() =~= bv0);
            }
            i = i + 1;
        }
        let r = CompileSession {
            blocks,
            mapper,
            original_ir,
            ir,
            blanked,
            invocations: 0,
            finished: false,
            aborted: false,
        };
        proof {
            assert(r.spec_blanked() =~= Seq::new(r.spec_blocks().len(), |j: int| false));
        }
        r
    }

    /// The synthesized text to submit to the compiler: possibly partially
    /// blanked while the loop runs, the original once the session finished.
    pub fn current_ir(&self) -> (r: &Vec<u8>)
        ensures
            r@ == self.spec_ir(),
    {
        &self.ir
    }

    /// The block partition the session isolates faults against.
    pub fn blocks(&self) -> (r: &Vec<AstBlock>)
        ensures
            r@ == self.spec_blocks(),
    {
        &self.blocks
    }

    /// How many compiler outcomes were reported so far.
    pub fn invocations(&self) -> (r: usize)
        ensures
            r == self.spec_invocations(),
    {
        self.invocations
    }

    /// Whether the session accepts no further outcome.
    pub fn finished(&self) -> (r: bool)
        ensures
            r == self.spec_finished(),
    {
        self.finished
    }

    /// Whether the session ended without a compiled document.
    pub fn aborted(&self) -> (r: bool)
        ensures
            r == self.spec_aborted(),
    {
        self.aborted
    }

    /// Whether the block was neutralized by a failure report.
    pub fn is_blanked(&self, k: usize) -> (r: bool)
        requires
            k < self.spec_blanked().len(),
        ensures
            r == self.spec_blanked()[k as int],
    {
        self.blanked[k]
    }

    /// Resets the synthesized text to the original.
    fn reset_ir(&mut self)
        ensures
            final(self).spec_ir() == old(self).spec_original_ir(),
            final(self).spec_blocks() == old(self).spec_blocks(),
            final(self).spec_mapper() == old(self).spec_mapper(),
            final(self).spec_original_ir() == old(self).spec_original_ir(),
            final(self).spec_blanked() == old(self).spec_blanked(),
            final(self).spec_invocations() == old(self).spec_invocations(),
            final(self).spec_finished() == old(self).spec_finished(),
            final(self).spec_aborted() == old(self).spec_aborted(),
    {
        let mut nir: Vec<u8> = Vec::new();
        append_range(&mut nir, &self.original_ir, 0, self.original_ir.len());
        proof {
            assert(nir@ =~= self.original_ir@);
        }
        self.ir = nir;
    }

    /// Reports that the compiler succeeded on the current text: the session
    /// finishes and the text is reset to the original.
    pub fn on_success(&mut self)
        requires
            old(self).wf(),
            !old(self).spec_finished(),
        ensures
            final(self).wf(),
            final(self).spec_finished(),
            !final(self).spec_aborted(),
            final(self).spec_invocations() == old(self).spec_invocations() + 1,
            final(self).spec_blocks() == old(self).spec_blocks(),
            final(self).spec_mapper() == old(self).spec_mapper(),
            final(self).spec_blanked() == old(self).spec_blanked(),
            final(self).spec_ir() == old(self).spec_original_ir(),
            final(self).spec_original_ir() == old(self).spec_original_ir(),
    {
        proof {
            lemma_count_true_bounds(self.blanked@);
        }
        self.invocations = self.invocations + 1;
        self.finished = true;
        self.aborted = false;
        self.reset_ir();
    }

    /// Reports that the compiler failed on the current text, with its
    /// diagnostics resolved against the synthesized document. The first block
    /// that overlaps a diagnostic's user range and was not neutralized yet is
    /// blanked in place; when none exists, or the block's mapped range does
    /// not lie within the text, the failure is unrecoverable and the session
    /// aborts.
    pub fn on_failure(&mut self, diags: &Vec<DiagRecord>) -> (r: FailureAction)
        requires
            old(self).wf(),
            !old(self).spec_finished(),
        ensures
            final(self).wf(),
            failure_transition(*old(self), *final(self), diags@, r),
    {
        let ranges = compute_ranges(diags, &self.mapper);
        proof {
            lemma_count_true_bounds(self.blanked@);
        }
        self.invocations = self.invocations + 1;
        let errant = find_errant(&self.blocks, &self.blanked, &ranges);
        match errant {
            None => {
                self.finished = true;
                self.aborted = true;
                self.reset_ir();
                FailureAction::Abort
            },
            Some(k) => {
                proof {
                    lemma_first_errant_some(self.blocks@, self.blanked@, ranges@, 0, k as int);
                }
                let b = self.blocks[k];
                let len: usize = b.end - b.start;
                proof {
                    lemma_translate_nonneg(self.mapper@, b.start as int);
                }
                let mapped = self.mapper.try_aux_to_main(b.start);
                let ir_len: usize = self.ir.len();
                let in_bounds: bool = match mapped {
                    Some(p) => len <= ir_len && p <= ir_len - len,
                    None => false,
                };
                if in_bounds {
                    let p = match mapped {
                        Some(p) => p,
                        None => 0,
                    };
                    let mut nir: Vec<u8> = Vec::new();
                    append_range(&mut nir, &self.ir, 0, p);
                    let ghost pref = nir@;
                    let mut q: usize = 0;
                    while q < len
                        invariant
                            q <= len,
                            nir@ == pref + spaces(q as int),
                        decreases len - q,
                    {
                        nir.push(32u8);
                        proof {
                            assert(pref + spaces(q + 1) =~= (pref + spaces(q as int)).push(32u8));
                        }
                        q = q + 1;
                    }
                    append_range(&mut nir, &self.ir, p + len, ir_len);
                    proof {
                        assert(nir@ =~= blank_range(self.ir@, p as int, len as int));
                    }
                    self.ir = nir;
                    let ghost bl0 = self.blanked@;
                    self.blanked.remove(k);
                    self.blanked.insert(k, true);
                    proof {
                        assert(self.blanked@ =~= bl0.update(k as int, true));
                        lemma_count_true_update(bl0, k as int);
                    }
                    FailureAction::Retry
                } else {
                    self.finished = true;
                    self.aborted = true;
                    self.reset_ir();
                    FailureAction::Abort
                }
            },
        }
    }
}

/// How one failure report changes the session: the outcome count advances;
/// the first not-yet-neutralized overlapping block, if any with its mapped
/// range inside the text, is blanked and the caller retries; otherwise the
/// session aborts with the text reset to the original.
pub open spec fn failure_transition(
    pre: CompileSession,
    post: CompileSession,
    diags: Seq<DiagRecord>,
    r: FailureAction,
) -> bool {
    &&& post.spec_blocks() == pre.spec_blocks()
    &&& post.spec_mapper() == pre.spec_mapper()
    &&& post.spec_original_ir() == pre.spec_original_ir()
    &&& post.spec_invocations() == pre.spec_invocations() + 1
    &&& match first_errant_from(
        pre.spec_blocks(),
        pre.spec_blanked(),
        spec_diag_ranges(diags, pre.spec_mapper()),
        0,
    ) {
        None => {
            &&& r is Abort
            &&& post.spec_finished()
            &&& post.spec_aborted()
            &&& post.spec_blanked() == pre.spec_blanked()
            &&& post.spec_ir() == pre.spec_original_ir()
        },
        Some(k) => {
            let b = pre.spec_blocks()[k];
            let p = translate_aux_to_main(pre.spec_mapper(), b.start as int);
            if p + (b.end - b.start) <= pre.spec_ir().len() {
                &&& r is Retry
                &&& !post.spec_finished()
                &&& post.spec_aborted() == pre.spec_aborted()
                &&& post.spec_blanked() == pre.spec_blanked().update(k, true)
                &&& post.spec_ir() == blank_range(pre.spec_ir(), p, b.end - b.start)
            } else {
                &&& r is Abort
                &&& post.spec_finished()
                &&& post.spec_aborted()
                &&& post.spec_blanked() == pre.spec_blanked()
                &&& post.spec_ir() == pre.spec_original_ir()
            }
        },
    }
}

/// The outcome count never exceeds the number of blocks plus one: the
/// termination bound of the compile loop.
pub proof fn lemma_invocation_bound(s: CompileSession)
    requires
        s.wf(),
    ensures
        s.spec_invocations() <= s.spec_blocks().len() + 1,
{
    lemma_count_true_bounds(s.spec_blanked());
}

/// Resolves each diagnostic's user-document byte range.
fn compute_ranges(diags: &Vec<DiagRecord>, mapper: &IndexMapper) -> (r: Vec<
    Option<(usize, usize)>,
>)
    ensures
        r@ == spec_diag_ranges(diags@, mapper@),
{
    let n: usize = diags.len();
    let mut out: Vec<Option<(usize, usize)>> = Vec::new();
    let mut i: usize = 0;
    while i < n
        invariant
            i <= n,
            n == diags@.len(),
            out@.len() == i,
            forall|j: int|
                0 <= j < i ==> out@[j] == spec_diag_aux_range(#[trigger] diags@[j], mapper@),
        decreases n - i,
    {
        let d = &diags[i];
        let is_error = d.severity == TypstDiagnosticSeverity::Error;
        let entry: Option<(usize, usize)> = match map_main_span(
            &d.main_range,
            is_error,
            &d.trace_ranges,
        ) {
            Some((ms, me)) => {
                proof {
                    lemma_translate_nonneg(mapper@, ms as int);
                    lemma_translate_nonneg(mapper@, me as int);
                }
                match (mapper.try_main_to_aux(ms), mapper.try_main_to_aux(me)) {
                    (Some(a1), Some(a2)) => Some((a1, a2)),
                    _ => None,
                }
            },
            None => None,
        };
        out.push(entry);
        i = i + 1;
    }
    proof {
        assert(out@ =~= spec_diag_ranges(diags@, mapper@));
    }
    out
}

/// Whether any resolved range overlaps the block.
fn hits_block(ranges: &Vec<Option<(usize, usize)>>, b: &AstBlock) -> (r: bool)
    ensures
        r == hits(ranges@, *b),
{
    let n: usize = ranges.len();
    let mut i: usize = 0;
    while i < n
        invariant
            i <= n,
            n == ranges@.len(),
            forall|j: int|
                0 <= j < i ==> !((#[trigger] ranges@[j]) matches Some(rg) && rg.0 <= b.end
                    && b.start <= rg.1),
        decreases n - i,
    {
        if let Some(rg) = &ranges[i] {
            if rg.0 <= b.end && b.start <= rg.1 {
                proof {
                    assert(0 <= i < ranges@.len() && (ranges@[i as int] matches Some(r2)
                        && r2.0 <= b.end && b.start <= r2.1));
                }
                return true;
            }
        }
        i = i + 1;
    }
    false
}

/// First block that is not yet neutralized and overlaps a resolved range.
fn find_errant(
    blocks: &Vec<AstBlock>,
    blanked: &Vec<bool>,
    ranges: &Vec<Option<(usize, usize)>>,
) -> (r: Option<usize>)
    requires
        blanked@.len() == blocks@.len(),
    ensures
        (r is None) == (first_errant_from(blocks@, blanked@, ranges@, 0) is None),
        r matches Some(k) ==> first_errant_from(blocks@, blanked@, ranges@, 0) == Some(k as int),
{
    let n: usize = blocks.len();
    let mut k: usize = 0;
    while k < n
        invariant
            k <= n,
            n == blocks@.len(),
            blanked@.len() == blocks@.len(),
            first_errant_from(blocks@, blanked@, ranges@, 0) == first_errant_from(
                blocks@,
                blanked@,
                ranges@,
                k as int,
            ),
        decreases n - k,
    {
        if !blanked[k] && hits_block(ranges, &blocks[k]) {
            return Some(k);
        }
        k = k + 1;
    }
    None
}

} // verus!
