//! Conversion between UTF-8 byte offsets and UTF-16 code-unit offsets of one
//! source text.
//!
//! Only "inflection points" are stored: positions where the UTF-8/UTF-16
//! length profile of a character differs, so that between two stored points
//! both offset spaces advance 1:1. Offsets within a uniform segment are
//! interpolated. The mapper can be configured with a UTF-8 offset, so that
//! its UTF-8 side speaks in the coordinates of an enclosing document (the
//! text placed after a prelude), while its UTF-16 side starts at 0.

use vstd::prelude::*;

use crate::index_mapper::{inflections_wf, translate_aux_to_main, translate_main_to_aux};

verus! {

/// Number of bytes in the UTF-8 encoding of `c`.
pub open spec fn char_utf8_len(c: char) -> int {
    if (c as u32) < 0x80 {
        1
    } else if (c as u32) < 0x800 {
        2
    } else if (c as u32) < 0x10000 {
        3
    } else {
        4
    }
}

/// Number of code units in the UTF-16 encoding of `c`.
pub open spec fn char_utf16_len(c: char) -> int {
    if (c as u32) < 0x10000 {
        1
    } else {
        2
    }
}

/// Length in bytes of the UTF-8 encoding of `s`.
pub open spec fn utf8_len(s: Seq<char>) -> int
    decreases s.len(),
{
    if s.len() == 0 {
        0
    } else {
        utf8_len(s.drop_last()) + char_utf8_len(s.last())
    }
}

/// Length in code units of the UTF-16 encoding of `s`.
pub open spec fn utf16_len(s: Seq<char>) -> int
    decreases s.len(),
{
    if s.len() == 0 {
        0
    } else {
        utf16_len(s.drop_last()) + char_utf16_len(s.last())
    }
}

pub proof fn lemma_utf8_len_nonneg(s: Seq<char>)
    ensures
        utf8_len(s) >= 0,
        utf16_len(s) >= 0,
        utf16_len(s) <= utf8_len(s),
        s.len() <= utf8_len(s),
    decreases s.len(),
{
    if s.len() > 0 {
        lemma_utf8_len_nonneg(s.drop_last());
    }
}

/// Prefix lengths grow with the prefix, strictly when the prefix grows.
pub proof fn lemma_utf_len_take_monotone(s: Seq<char>, i: int, j: int)
    requires
        0 <= i <= j <= s.len(),
    ensures
        utf8_len(s.take(i)) <= utf8_len(s.take(j)),
        utf16_len(s.take(i)) <= utf16_len(s.take(j)),
        i < j ==> utf8_len(s.take(i)) + (j - i) <= utf8_len(s.take(j)),
        i < j ==> utf16_len(s.take(i)) + (j - i) <= utf16_len(s.take(j)),
    decreases j - i,
{
    if i < j {
        lemma_utf_len_take_monotone(s, i, j - 1);
        assert(s.take(j).drop_last() =~= s.take(j - 1));
        assert(s.take(j).last() == s[j - 1]);
    }
}

/// Unfolds one step of the prefix length.
pub proof fn lemma_utf_len_take_step(s: Seq<char>, i: int)
    requires
        0 <= i < s.len(),
    ensures
        utf8_len(s.take(i + 1)) == utf8_len(s.take(i)) + char_utf8_len(s[i]),
        utf16_len(s.take(i + 1)) == utf16_len(s.take(i)) + char_utf16_len(s[i]),
{
    assert(s.take(i + 1).drop_last() =~= s.take(i));
    assert(s.take(i + 1).last() == s[i]);
}

/// Over a run of 1-byte characters both encodings advance one unit per
/// character.
proof fn lemma_uniform_run(s: Seq<char>, p: int, t: int)
    requires
        0 <= p <= t <= s.len(),
        forall|k: int| p <= k < t ==> char_utf8_len(#[trigger] s[k]) == 1,
    ensures
        utf8_len(s.take(t)) == utf8_len(s.take(p)) + (t - p),
        utf16_len(s.take(t)) == utf16_len(s.take(p)) + (t - p),
    decreases t - p,
{
    if p < t {
        lemma_uniform_run(s, p, t - 1);
        lemma_utf_len_take_step(s, t - 1);
        assert(char_utf8_len(s[t - 1]) == 1);
        assert(char_utf16_len(s[t - 1]) == 1);
    }
}

/// A correspondence point between the UTF-8 byte offset and the UTF-16
/// code-unit offset of one position in the text.
pub struct Inflection {
    pub utf8_index: usize,
    pub utf16_index: usize,
}

/// Maps character offsets between UTF-8 bytes and UTF-16 code units.
pub struct UtfIndexMapper {
    inflections: Vec<Inflection>,
}

impl View for UtfIndexMapper {
    type V = Seq<(usize, usize)>;

    closed spec fn view(&self) -> Seq<(usize, usize)> {
        Seq::new(
            self.inflections@.len(),
            |i: int| (self.inflections@[i].utf8_index, self.inflections@[i].utf16_index),
        )
    }
}

impl UtfIndexMapper {
    /// The mapper faithfully represents the text `s` placed at UTF-8 offset
    /// `off`: every character boundary of `s` translates to its exact
    /// counterpart, in both directions.
    pub open spec fn models(&self, s: Seq<char>, off: usize) -> bool {
        &&& inflections_wf(self@)
        &&& self@.len() > 0
        &&& self@[0] == (off, 0usize)
        &&& self@.last().0 <= off + utf8_len(s)
        &&& forall|k: int| 0 <= k < self@.len() ==> (#[trigger] self@[k]).1 <= self@[k].0
        &&& forall|i: int|
            0 <= i <= s.len() ==> translate_aux_to_main(
                self@,
                off + utf8_len(#[trigger] s.take(i)),
            ) == utf16_len(s.take(i))
        &&& forall|i: int|
            0 <= i <= s.len() ==> translate_main_to_aux(self@, utf16_len(#[trigger] s.take(i)))
                == off + utf8_len(s.take(i))
    }

    /// Scans `text` and records an inflection at every character whose UTF-8
    /// and UTF-16 lengths differ, so that later lookups can interpolate
    /// within the uniform segments in between.
    pub fn new(text: &str, utf8_offset: usize) -> (r: UtfIndexMapper)
        requires
            utf8_offset + utf8_len(text@) <= usize::MAX,
        ensures
            r.models(text@, utf8_offset),
    {
        let cs: Vec<char> = chars_of(text);
        let n: usize = cs.len();
        let mut inflections: Vec<Inflection> = Vec::new();
        inflections.push(Inflection { utf8_index: utf8_offset, utf16_index: 0 });

        let mut u8pos: usize = utf8_offset;
        let mut u16pos: usize = 0;
        let mut j: usize = 0;
        let ghost mut p: int = 0;

        proof {
            assert(cs@.take(0) =~= Seq::<char>::empty());
            lemma_utf8_len_nonneg(cs@);
        }

        while j < n
            invariant
                j <= n,
                n == cs@.len(),
                cs@ == text@,
                utf8_offset + utf8_len(cs@) <= usize::MAX,
                u8pos == utf8_offset + utf8_len(cs@.take(j as int)),
                u16pos == utf16_len(cs@.take(j as int)),
                0 <= p <= j,
                inflections@.len() > 0,
                view_of(inflections@)[0] == (utf8_offset, 0usize),
                inflections_wf(view_of(inflections@)),
                forall|k: int|
                    0 <= k < inflections@.len() ==> (#[trigger] view_of(inflections@)[k]).1
                        <= view_of(inflections@)[k].0,
                view_of(inflections@).last().0 == utf8_offset + utf8_len(cs@.take(p)),
                view_of(inflections@).last().1 == utf16_len(cs@.take(p)),
                forall|k: int| p <= k < j ==> char_utf8_len(#[trigger] cs@[k]) == 1,
                forall|i: int|
                    0 <= i <= j ==> translate_aux_to_main(
                        view_of(inflections@),
                        utf8_offset + utf8_len(#[trigger] cs@.take(i)),
                    ) == utf16_len(cs@.take(i)),
                forall|i: int|
                    0 <= i <= j ==> translate_main_to_aux(
                        view_of(inflections@),
                        utf16_len(#[trigger] cs@.take(i)),
                    ) == utf8_offset + utf8_len(cs@.take(i)),
            decreases n - j,
        {
            let c = cs[j];
            let l8: usize = char_len_utf8(c);
            let l16: usize = char_len_utf16(c);

            proof {
                lemma_utf_len_take_step(cs@, j as int);
                lemma_utf_len_take_monotone(cs@, j + 1, cs@.len() as int);
                assert(cs@.take(cs@.len() as int) =~= cs@);
                lemma_utf8_len_nonneg(cs@.take(j + 1));
                lemma_utf8_len_nonneg(cs@.take(j as int));
            }

            u8pos = u8pos + l8;
            u16pos = u16pos + l16;

            if l8 > l16 {
                let ghost old_view = view_of(inflections@);
                inflections.push(Inflection { utf8_index: u8pos, utf16_index: u16pos });
                proof {
                    let v = view_of(inflections@);
                    assert(v =~= old_view.push((u8pos, u16pos)));
                    assert(v.drop_last() =~= old_view);
                    lemma_utf_len_take_monotone(cs@, p, j + 1);
                    assert(old_view.last().0 < u8pos && old_view.last().1 < u16pos);
                    assert forall|a: int, b: int| 0 <= a < b < v.len() implies (#[trigger] v[a]).0
                        < (#[trigger] v[b]).0 && v[a].1 < v[b].1 by {
                        if b == v.len() - 1 && a < old_view.len() - 1 {
                            assert(old_view[a].0 < old_view[old_view.len() - 1].0);
                        }
                    }
                    assert forall|i: int| 0 <= i <= j + 1 implies translate_aux_to_main(
                        v,
                        utf8_offset + utf8_len(#[trigger] cs@.take(i)),
                    ) == utf16_len(cs@.take(i)) && translate_main_to_aux(
                        v,
                        utf16_len(cs@.take(i)),
                    ) == utf8_offset + utf8_len(cs@.take(i)) by {
                        if i <= j {
                            lemma_utf_len_take_monotone(cs@, i, j + 1);
                        }
                    }
                    p = j + 1;
                }
            } else {
                proof {
                    let v = view_of(inflections@);
                    assert(char_utf8_len(cs@[j as int]) == 1);
                    assert forall|i: int| 0 <= i <= j + 1 implies translate_aux_to_main(
                        v,
                        utf8_offset + utf8_len(#[trigger] cs@.take(i)),
                    ) == utf16_len(cs@.take(i)) && translate_main_to_aux(
                        v,
                        utf16_len(cs@.take(i)),
                    ) == utf8_offset + utf8_len(cs@.take(i)) by {
                        if i == j + 1 {
                            lemma_uniform_run(cs@, p, j + 1);
                            lemma_utf_len_take_monotone(cs@, p, j + 1);
                        }
                    }
                }
            }
            j = j + 1;
        }
        proof {
            assert(cs@.take(n as int) =~= cs@);
            lemma_utf_len_take_monotone(cs@, p, n as int);
        }
        let r = UtfIndexMapper { inflections };
        proof {
            assert(r@ =~= view_of(r.inflections@));
        }
        r
    }

    /// Translates a UTF-8 byte offset to a UTF-16 code-unit offset.
    pub fn utf8_to_utf16(&self, utf8_index: usize) -> (r: usize)
        requires
            translate_aux_to_main(self@, utf8_index as int) <= usize::MAX,
        ensures
            r == translate_aux_to_main(self@, utf8_index as int),
    {
        let n: usize = self.inflections.len();
        let mut i: usize = n;
        proof {
            assert(self@.take(n as int) =~= self@);
        }
        while i > 0
            invariant
                i <= n,
                n == self@.len(),
                translate_aux_to_main(self@, utf8_index as int) <= usize::MAX,
                translate_aux_to_main(self@.take(i as int), utf8_index as int)
                    == translate_aux_to_main(self@, utf8_index as int),
            decreases i,
        {
            let inflection = &self.inflections[i - 1];
            proof {
                assert(self@.take(i as int).last() == self@[i - 1]);
                assert(self@.take(i as int).drop_last() =~= self@.take(i - 1));
            }
            if inflection.utf8_index <= utf8_index {
                return inflection.utf16_index + (utf8_index - inflection.utf8_index);
            }
            i = i - 1;
        }
        proof {
            assert(self@.take(0) =~= Seq::<(usize, usize)>::empty());
        }
        0
    }

    /// Translates a UTF-16 code-unit offset to a UTF-8 byte offset.
    pub fn utf16_to_utf8(&self, utf16_index: usize) -> (r: usize)
        requires
            translate_main_to_aux(self@, utf16_index as int) <= usize::MAX,
        ensures
            r == translate_main_to_aux(self@, utf16_index as int),
    {
        let n: usize = self.inflections.len();
        let mut i: usize = n;
        proof {
            assert(self@.take(n as int) =~= self@);
        }
        while i > 0
            invariant
                i <= n,
                n == self@.len(),
                translate_main_to_aux(self@, utf16_index as int) <= usize::MAX,
                translate_main_to_aux(self@.take(i as int), utf16_index as int)
                    == translate_main_to_aux(self@, utf16_index as int),
            decreases i,
        {
            let inflection = &self.inflections[i - 1];
            proof {
                assert(self@.take(i as int).last() == self@[i - 1]);
                assert(self@.take(i as int).drop_last() =~= self@.take(i - 1));
            }
            if inflection.utf16_index <= utf16_index {
                return inflection.utf8_index + (utf16_index - inflection.utf16_index);
            }
            i = i - 1;
        }
        proof {
            assert(self@.take(0) =~= Seq::<(usize, usize)>::empty());
        }
        0
    }
}

impl UtfIndexMapper {
    /// Translates a UTF-8 byte offset to a UTF-16 code-unit offset, reporting
    /// a translation that does not fit the machine word instead of
    /// overflowing.
    pub fn try_utf8_to_utf16(&self, utf8_index: usize) -> (r: Option<usize>)
        ensures
            r == if translate_aux_to_main(self@, utf8_index as int) <= usize::MAX {
                Some(translate_aux_to_main(self@, utf8_index as int) as usize)
            } else {
                None::<usize>
            },
    {
        let n: usize = self.inflections.len();
        let mut i: usize = n;
        proof {
            assert(self@.take(n as int) =~= self@);
        }
        while i > 0
            invariant
                i <= n,
                n == self@.len(),
                translate_aux_to_main(self@.take(i as int), utf8_index as int)
                    == translate_aux_to_main(self@, utf8_index as int),
            decreases i,
        {
            let inflection = &self.inflections[i - 1];
            proof {
                assert(self@.take(i as int).last() == self@[i - 1]);
                assert(self@.take(i as int).drop_last() =~= self@.take(i - 1));
            }
            if inflection.utf8_index <= utf8_index {
                if utf8_index - inflection.utf8_index <= usize::MAX - inflection.utf16_index {
                    return Some(inflection.utf16_index + (utf8_index - inflection.utf8_index));
                }
                return None;
            }
            i = i - 1;
        }
        proof {
            assert(self@.take(0) =~= Seq::<(usize, usize)>::empty());
        }
        Some(0)
    }

    /// Translates a UTF-16 code-unit offset to a UTF-8 byte offset, reporting
    /// a translation that does not fit the machine word instead of
    /// overflowing.
    pub fn try_utf16_to_utf8(&self, utf16_index: usize) -> (r: Option<usize>)
        ensures
            r == if translate_main_to_aux(self@, utf16_index as int) <= usize::MAX {
                Some(translate_main_to_aux(self@, utf16_index as int) as usize)
            } else {
                None::<usize>
            },
    {
        let n: usize = self.inflections.len();
        let mut i: usize = n;
        proof {
            assert(self@.take(n as int) =~= self@);
        }
        while i > 0
            invariant
                i <= n,
                n == self@.len(),
                translate_main_to_aux(self@.take(i as int), utf16_index as int)
                    == translate_main_to_aux(self@, utf16_index as int),
            decreases i,
        {
            let inflection = &self.inflections[i - 1];
            proof {
                assert(self@.take(i as int).last() == self@[i - 1]);
                assert(self@.take(i as int).drop_last() =~= self@.take(i - 1));
            }
            if inflection.utf16_index <= utf16_index {
                if utf16_index - inflection.utf16_index <= usize::MAX - inflection.utf8_index {
                    return Some(inflection.utf8_index + (utf16_index - inflection.utf16_index));
                }
                return None;
            }
            i = i - 1;
        }
        proof {
            assert(self@.take(0) =~= Seq::<(usize, usize)>::empty());
        }
        Some(0)
    }
}

/// View of a vector of inflections as a sequence of offset pairs.
pub open spec fn view_of(s: Seq<Inflection>) -> Seq<(usize, usize)> {
    Seq::new(s.len(), |i: int| (s[i].utf8_index, s[i].utf16_index))
}

/// Number of bytes `c` occupies in UTF-8.
pub fn char_len_utf8(c: char) -> (r: usize)
    ensures
        r == char_utf8_len(c),
{
    let v = c as u32;
    if v < 0x80 {
        1
    } else if v < 0x800 {
        2
    } else if v < 0x10000 {
        3
    } else {
        4
    }
}

/// Number of code units `c` occupies in UTF-16.
pub fn char_len_utf16(c: char) -> (r: usize)
    ensures
        r == char_utf16_len(c),
{
    let v = c as u32;
    if v < 0x10000 {
        1
    } else {
        2
    }
}

/// Relies on `str::chars`: yields the characters of the string in order.
#[verifier::external_body]
pub(crate) fn chars_of(s: &str) -> (r: Vec<char>)
    ensures
        r@ == s@,
{
    s.chars().collect()
}

} // verus!
