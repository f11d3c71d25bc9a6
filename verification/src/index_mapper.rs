//! Bidirectional offset translation between the two coordinate spaces of a
//! document pair: the user document (the "aux" source, the text the user
//! edits) and the synthesized document (the "main" source, the compilable
//! text derived from it).
//!
//! The mapper is an ordered sequence of inflection pairs `(aux, main)`,
//! strictly increasing in both components, recorded at every point where the
//! synthesized document diverges structurally from the user document. Within
//! the half-open interval between two consecutive inflections the two spaces
//! advance 1:1, so a lookup is a backward search for the governing inflection
//! followed by linear offset arithmetic. A query before the first inflection
//! maps to 0.

use vstd::prelude::*;

verus! {

/// Last-recorded inflection whose aux component is at or before `x`, applied
/// linearly; 0 when no inflection governs `x`.
pub open spec fn translate_aux_to_main(s: Seq<(usize, usize)>, x: int) -> int
    decreases s.len(),
{
    if s.len() == 0 {
        0
    } else if s.last().0 <= x {
        s.last().1 + (x - s.last().0)
    } else {
        translate_aux_to_main(s.drop_last(), x)
    }
}

/// Last-recorded inflection whose main component is at or before `x`, applied
/// linearly; 0 when no inflection governs `x`.
pub open spec fn translate_main_to_aux(s: Seq<(usize, usize)>, x: int) -> int
    decreases s.len(),
{
    if s.len() == 0 {
        0
    } else if s.last().1 <= x {
        s.last().0 + (x - s.last().1)
    } else {
        translate_main_to_aux(s.drop_last(), x)
    }
}

/// Variant of [`translate_aux_to_main`] whose governing inflection must lie
/// strictly before `x`: the boundary position itself is still attributed to
/// the preceding interval.
pub open spec fn translate_aux_to_main_strict(s: Seq<(usize, usize)>, x: int) -> int
    decreases s.len(),
{
    if s.len() == 0 {
        0
    } else if s.last().0 < x {
        s.last().1 + (x - s.last().0)
    } else {
        translate_aux_to_main_strict(s.drop_last(), x)
    }
}

/// The inflection sequence is strictly increasing in both components.
pub open spec fn inflections_wf(s: Seq<(usize, usize)>) -> bool {
    forall|i: int, j: int|
        0 <= i < j < s.len() ==> (#[trigger] s[i]).0 < (#[trigger] s[j]).0 && s[i].1 < s[j].1
}

/// Records correspondence points between the user ("aux") document and the
/// synthesized ("main") document and translates offsets between the two.
///
/// Recording must be monotone: every new pair is strictly beyond the last in
/// both components. Violating this is a caller bug, so it is a precondition
/// rather than handled defensively.
pub struct IndexMapper {
    inflections: Vec<(usize, usize)>,
}

impl View for IndexMapper {
    type V = Seq<(usize, usize)>;

    closed spec fn view(&self) -> Seq<(usize, usize)> {
        self.inflections@
    }
}

impl IndexMapper {
    /// An empty mapper: every query on it yields 0.
    pub fn new() -> (r: IndexMapper)
        ensures
            r@ == Seq::<(usize, usize)>::empty(),
    {
        IndexMapper { inflections: Vec::new() }
    }

    /// Appends the inflection pair `(aux, main)`.
    pub fn add_main_to_aux(&mut self, aux: usize, main: usize)
        requires
            old(self)@.len() > 0 ==> old(self)@.last().0 < aux && old(self)@.last().1 < main,
        ensures
            final(self)@ == old(self)@.push((aux, main)),
    {
        self.inflections.push((aux, main));
    }

    /// Appends the inflection pair `(aux, main)`; same operation as
    /// [`Self::add_main_to_aux`] under the name used by offset-oriented
    /// callers.
    pub fn add_change(&mut self, aux: usize, main: usize)
        requires
            old(self)@.len() > 0 ==> old(self)@.last().0 < aux && old(self)@.last().1 < main,
        ensures
            final(self)@ == old(self)@.push((aux, main)),
    {
        self.inflections.push((aux, main));
    }

    /// Translates a synthesized-document offset to a user-document offset.
    pub fn main_to_aux(&self, main_idx: usize) -> (r: usize)
        requires
            translate_main_to_aux(self@, main_idx as int) <= usize::MAX,
        ensures
            r == translate_main_to_aux(self@, main_idx as int),
    {
        let n: usize = self.inflections.len();
        let mut i: usize = n;
        proof {
            assert(self@.take(n as int) =~= self@);
        }
        while i > 0
            invariant
                i <= n,
                n == self@.len(),
                translate_main_to_aux(self@, main_idx as int) <= usize::MAX,
                translate_main_to_aux(self@.take(i as int), main_idx as int)
                    == translate_main_to_aux(self@, main_idx as int),
            decreases i,
        {
            let (aux, main) = self.inflections[i - 1];
            proof {
                assert(self@.take(i as int).last() == self@[i - 1]);
                assert(self@.take(i as int).drop_last() =~= self@.take(i - 1));
            }
            if main <= main_idx {
                return aux + (main_idx - main);
            }
            i = i - 1;
        }
        proof {
            assert(self@.take(0) =~= Seq::<(usize, usize)>::empty());
        }
        0
    }

    /// Translates a user-document offset to a synthesized-document offset.
    pub fn aux_to_main(&self, aux_idx: usize) -> (r: usize)
        requires
            translate_aux_to_main(self@, aux_idx as int) <= usize::MAX,
        ensures
            r == translate_aux_to_main(self@, aux_idx as int),
    {
        let n: usize = self.inflections.len();
        let mut i: usize = n;
        proof {
            assert(self@.take(n as int) =~= self@);
        }
        while i > 0
            invariant
                i <= n,
                n == self@.len(),
                translate_aux_to_main(self@, aux_idx as int) <= usize::MAX,
                translate_aux_to_main(self@.take(i as int), aux_idx as int)
                    == translate_aux_to_main(self@, aux_idx as int),
            decreases i,
        {
            let (aux, main) = self.inflections[i - 1];
            proof {
                assert(self@.take(i as int).last() == self@[i - 1]);
                assert(self@.take(i as int).drop_last() =~= self@.take(i - 1));
            }
            if aux <= aux_idx {
                return main + (aux_idx - aux);
            }
            i = i - 1;
        }
        proof {
            assert(self@.take(0) =~= Seq::<(usize, usize)>::empty());
        }
        0
    }

    /// Translates a user-document offset to a synthesized-document offset,
    /// attributing an offset that sits exactly on an inflection to the
    /// preceding interval. Used when re-entering a partially rewritten
    /// document after an error-driven edit.
    pub fn rmap_aux_to_main(&self, aux_idx: usize) -> (r: usize)
        requires
            translate_aux_to_main_strict(self@, aux_idx as int) <= usize::MAX,
        ensures
            r == translate_aux_to_main_strict(self@, aux_idx as int),
    {
        let n: usize = self.inflections.len();
        let mut i: usize = n;
        proof {
            assert(self@.take(n as int) =~= self@);
        }
        while i > 0
            invariant
                i <= n,
                n == self@.len(),
                translate_aux_to_main_strict(self@, aux_idx as int) <= usize::MAX,
                translate_aux_to_main_strict(self@.take(i as int), aux_idx as int)
                    == translate_aux_to_main_strict(self@, aux_idx as int),
            decreases i,
        {
            let (aux, main) = self.inflections[i - 1];
            proof {
                assert(self@.take(i as int).last() == self@[i - 1]);
                assert(self@.take(i as int).drop_last() =~= self@.take(i - 1));
            }
            if aux < aux_idx {
                return main + (aux_idx - aux);
            }
            i = i - 1;
        }
        proof {
            assert(self@.take(0) =~= Seq::<(usize, usize)>::empty());
        }
        0
    }

    /// Translates a synthesized-document offset to a user-document offset,
    /// reporting a translation that does not fit the machine word instead of
    /// overflowing.
    pub fn try_main_to_aux(&self, main_idx: usize) -> (r: Option<usize>)
        ensures
            r == if translate_main_to_aux(self@, main_idx as int) <= usize::MAX {
                Some(translate_main_to_aux(self@, main_idx as int) as usize)
            } else {
                None::<usize>
            },
    {
        let n: usize = self.inflections.len();
        let mut i: usize = n;
        proof {
            assert(self@.take(n as int) =~= self@);
        }
        while i > 0
            invariant
                i <= n,
                n == self@.len(),
                translate_main_to_aux(self@.take(i as int), main_idx as int)
                    == translate_main_to_aux(self@, main_idx as int),
            decreases i,
        {
            let (aux, main) = self.inflections[i - 1];
            proof {
                assert(self@.take(i as int).last() == self@[i - 1]);
                assert(self@.take(i as int).drop_last() =~= self@.take(i - 1));
            }
            if main <= main_idx {
                if main_idx - main <= usize::MAX - aux {
                    return Some(aux + (main_idx - main));
                }
                return None;
            }
            i = i - 1;
        }
        proof {
            assert(self@.take(0) =~= Seq::<(usize, usize)>::empty());
        }
        Some(0)
    }

    /// Translates a user-document offset to a synthesized-document offset,
    /// reporting a translation that does not fit the machine word instead of
    /// overflowing.
    pub fn try_aux_to_main(&self, aux_idx: usize) -> (r: Option<usize>)
        ensures
            r == if translate_aux_to_main(self@, aux_idx as int) <= usize::MAX {
                Some(translate_aux_to_main(self@, aux_idx as int) as usize)
            } else {
                None::<usize>
            },
    {
        let n: usize = self.inflections.len();
        let mut i: usize = n;
        proof {
            assert(self@.take(n as int) =~= self@);
        }
        while i > 0
            invariant
                i <= n,
                n == self@.len(),
                translate_aux_to_main(self@.take(i as int), aux_idx as int)
                    == translate_aux_to_main(self@, aux_idx as int),
            decreases i,
        {
            let (aux, main) = self.inflections[i - 1];
            proof {
                assert(self@.take(i as int).last() == self@[i - 1]);
                assert(self@.take(i as int).drop_last() =~= self@.take(i - 1));
            }
            if aux <= aux_idx {
                if aux_idx - aux <= usize::MAX - main {
                    return Some(main + (aux_idx - aux));
                }
                return None;
            }
            i = i - 1;
        }
        proof {
            assert(self@.take(0) =~= Seq::<(usize, usize)>::empty());
        }
        Some(0)
    }

    /// Translates a synthesized-document offset to a user-document offset;
    /// same operation as [`Self::main_to_aux`] under the name used by
    /// offset-oriented callers.
    pub fn map_offset(&self, offset: usize) -> (r: usize)
        requires
            translate_main_to_aux(self@, offset as int) <= usize::MAX,
        ensures
            r == translate_main_to_aux(self@, offset as int),
    {
        self.main_to_aux(offset)
    }

    /// Translates a user-document offset to a synthesized-document offset;
    /// same operation as [`Self::aux_to_main`] under the name used by
    /// offset-oriented callers.
    pub fn map_index(&self, index: usize) -> (r: usize)
        requires
            translate_aux_to_main(self@, index as int) <= usize::MAX,
        ensures
            r == translate_aux_to_main(self@, index as int),
    {
        self.aux_to_main(index)
    }
}

impl Default for IndexMapper {
    fn default() -> (r: IndexMapper)
        ensures
            r@ == Seq::<(usize, usize)>::empty(),
    {
        IndexMapper::new()
    }
}

/// Translations of nonnegative offsets are nonnegative.
pub proof fn lemma_translate_nonneg(s: Seq<(usize, usize)>, x: int)
    requires
        x >= 0,
    ensures
        translate_aux_to_main(s, x) >= 0,
        translate_main_to_aux(s, x) >= 0,
        translate_aux_to_main_strict(s, x) >= 0,
    decreases s.len(),
{
    if s.len() > 0 {
        lemma_translate_nonneg(s.drop_last(), x);
    }
}

/// The inflection at or before `x` in aux coordinates governs the
/// translation: when `x` falls in the interval of inflection `i`, the result
/// is `s[i].1 + (x - s[i].0)`.
pub proof fn lemma_translate_aux_in_interval(s: Seq<(usize, usize)>, i: int, x: int)
    requires
        inflections_wf(s),
        0 <= i < s.len(),
        s[i].0 <= x,
        i == s.len() - 1 || x < s[i + 1].0,
    ensures
        translate_aux_to_main(s, x) == s[i].1 + (x - s[i].0),
    decreases s.len(),
{
    if i == s.len() - 1 {
        assert(s.last() == s[i]);
    } else {
        assert(s[i].0 < s.last().0) by {
            assert(s[i].0 < s[s.len() - 1].0);
        }
        assert(x < s.last().0) by {
            assert(s[i + 1].0 <= s[s.len() - 1].0);
        }
        assert(s.drop_last()[i] == s[i]);
        assert(inflections_wf(s.drop_last())) by {
            assert(forall|a: int, b: int|
                0 <= a < b < s.len() - 1 ==> (#[trigger] s.drop_last()[a]).0
                    < (#[trigger] s.drop_last()[b]).0 && s.drop_last()[a].1 < s.drop_last()[b].1);
        }
        if i < s.len() - 2 {
            assert(s.drop_last()[i + 1] == s[i + 1]);
        }
        lemma_translate_aux_in_interval(s.drop_last(), i, x);
    }
}

/// Mirror of [`lemma_translate_aux_in_interval`] for the main-to-aux
/// direction.
pub proof fn lemma_translate_main_in_interval(s: Seq<(usize, usize)>, i: int, x: int)
    requires
        inflections_wf(s),
        0 <= i < s.len(),
        s[i].1 <= x,
        i == s.len() - 1 || x < s[i + 1].1,
    ensures
        translate_main_to_aux(s, x) == s[i].0 + (x - s[i].1),
    decreases s.len(),
{
    if i == s.len() - 1 {
        assert(s.last() == s[i]);
    } else {
        assert(x < s.last().1) by {
            assert(s[i + 1].1 <= s[s.len() - 1].1);
        }
        assert(s.drop_last()[i] == s[i]);
        assert(inflections_wf(s.drop_last())) by {
            assert(forall|a: int, b: int|
                0 <= a < b < s.len() - 1 ==> (#[trigger] s.drop_last()[a]).0
                    < (#[trigger] s.drop_last()[b]).0 && s.drop_last()[a].1 < s.drop_last()[b].1);
        }
        if i < s.len() - 2 {
            assert(s.drop_last()[i + 1] == s[i + 1]);
        }
        lemma_translate_main_in_interval(s.drop_last(), i, x);
    }
}

/// Round-trip law: every recorded inflection pair `(a, b)` translates to its
/// own partner in both directions.
pub proof fn lemma_round_trip(s: Seq<(usize, usize)>, i: int)
    requires
        inflections_wf(s),
        0 <= i < s.len(),
    ensures
        translate_aux_to_main(s, s[i].0 as int) == s[i].1,
        translate_main_to_aux(s, s[i].1 as int) == s[i].0,
    decreases s.len(),
{
    if i == s.len() - 1 {
        assert(s.last() == s[i]);
    } else {
        assert(s[i].0 < s[i + 1].0 && s[i].1 < s[i + 1].1);
        lemma_translate_aux_in_interval(s, i, s[i].0 as int);
        lemma_translate_main_in_interval(s, i, s[i].1 as int);
    }
}

/// Monotonicity law: within one inflection interval, translation in the
/// aux-to-main direction is strictly increasing.
pub proof fn lemma_translate_monotonic(s: Seq<(usize, usize)>, i: int, x1: int, x2: int)
    requires
        inflections_wf(s),
        0 <= i < s.len(),
        s[i].0 <= x1 < x2,
        i == s.len() - 1 || x2 < s[i + 1].0,
    ensures
        translate_aux_to_main(s, x1) < translate_aux_to_main(s, x2),
{
    lemma_translate_aux_in_interval(s, i, x1);
    lemma_translate_aux_in_interval(s, i, x2);
}

} // verus!
