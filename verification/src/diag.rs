//! Translation of compiler diagnostics and positions back to the user
//! document.
//!
//! A diagnostic arrives with spans resolved against the synthesized ("main")
//! document: its primary span, when it belongs to that document, and the
//! spans of its call-trace frames. The primary span is used when present;
//! otherwise, for errors only, the first trace frame that belongs to the
//! document stands in. The resolved byte range passes through the inflection
//! mapper to user-document bytes and then through the user document's
//! UTF-8/UTF-16 table to code units. An error that cannot be localized spans
//! the whole document; a warning that cannot be localized is dropped. Every
//! path returns a value: a mapping failure is "no result", never a panic.

use vstd::prelude::*;

use crate::index_mapper::{
    IndexMapper, lemma_translate_nonneg, translate_aux_to_main, translate_main_to_aux,
};
use crate::utf_map::UtfIndexMapper;

verus! {

/// Severity of a diagnostic surfaced to the host.
#[derive(Clone, Copy, Debug, PartialEq, Eq, Structural)]
pub enum TypstDiagnosticSeverity {
    Error,
    Warning,
    Info,
    Hint,
}

/// A diagnostic localized to the user document, its range in UTF-16 code
/// units.
pub struct TypstDiagnostic {
    pub range: (usize, usize),
    pub severity: TypstDiagnosticSeverity,
    pub message: String,
    pub hints: Vec<String>,
}

/// A compiler diagnostic, its spans already resolved against the synthesized
/// document: `main_range` when the primary span belongs to it, and one entry
/// per call-trace frame, resolved likewise.
pub struct DiagRecord {
    pub severity: TypstDiagnosticSeverity,
    pub message: String,
    pub hints: Vec<String>,
    pub main_range: Option<(usize, usize)>,
    pub trace_ranges: Vec<Option<(usize, usize)>>,
}

/// First resolved range in a trace, scanning from frame `i` on.
pub open spec fn first_resolved_from(trace: Seq<Option<(usize, usize)>>, i: int) -> Option<
    (usize, usize),
>
    decreases trace.len() - i,
    when 0 <= i <= trace.len()
{
    if i >= trace.len() {
        None
    } else if trace[i] is Some {
        trace[i]
    } else {
        first_resolved_from(trace, i + 1)
    }
}

/// The synthesized-document range a diagnostic is attributed to: its primary
/// range when it has one; otherwise, for errors only, the first resolved
/// trace frame.
pub open spec fn spec_map_main_span(
    primary: Option<(usize, usize)>,
    is_error: bool,
    trace: Seq<Option<(usize, usize)>>,
) -> Option<(usize, usize)> {
    if primary is Some {
        primary
    } else if !is_error {
        None
    } else {
        first_resolved_from(trace, 0)
    }
}

/// Resolves the synthesized-document range of a diagnostic from its primary
/// range and its call trace.
pub fn map_main_span(
    primary: &Option<(usize, usize)>,
    is_error: bool,
    trace: &Vec<Option<(usize, usize)>>,
) -> (r: Option<(usize, usize)>)
    ensures
        r == spec_map_main_span(*primary, is_error, trace@),
{
    if let Some(range) = primary {
        return Some(*range);
    }
    if !is_error {
        return None;
    }
    let n: usize = trace.len();
    let mut i: usize = 0;
    while i < n
        invariant
            0 <= i <= n,
            n == trace@.len(),
            *primary is None,
            is_error,
            first_resolved_from(trace@, 0) == first_resolved_from(trace@, i as int),
        decreases n - i,
    {
        if let Some(range) = &trace[i] {
            return Some(*range);
        }
        i = i + 1;
    }
    None
}

/// The user-document UTF-16 range a diagnostic is surfaced at, mirroring
/// [`map_aux_span`]: the attributed main range passed through the inflection
/// mapper and then the UTF-16 table; the whole document (an error) or nothing
/// (a warning) when no range can be attributed or a translation does not fit
/// the machine word.
pub open spec fn spec_map_aux_span(
    primary: Option<(usize, usize)>,
    is_error: bool,
    trace: Seq<Option<(usize, usize)>>,
    mapper: Seq<(usize, usize)>,
    utf: Seq<(usize, usize)>,
    doc_utf16_len: usize,
) -> Option<(usize, usize)> {
    let whole = Some((0usize, doc_utf16_len));
    match spec_map_main_span(primary, is_error, trace) {
        Some((ms, me)) => {
            let a1 = translate_main_to_aux(mapper, ms as int);
            let a2 = translate_main_to_aux(mapper, me as int);
            if a1 <= usize::MAX && a2 <= usize::MAX {
                let u1 = translate_aux_to_main(utf, a1);
                let u2 = translate_aux_to_main(utf, a2);
                if u1 <= usize::MAX && u2 <= usize::MAX {
                    Some((u1 as usize, u2 as usize))
                } else if is_error {
                    whole
                } else {
                    None
                }
            } else if is_error {
                whole
            } else {
                None
            }
        },
        None => if is_error {
            whole
        } else {
            None
        },
    }
}

/// Translates a diagnostic's attributed range to user-document UTF-16 code
/// units; an error that cannot be localized spans the whole document, a
/// warning that cannot is dropped.
pub fn map_aux_span(
    primary: &Option<(usize, usize)>,
    is_error: bool,
    trace: &Vec<Option<(usize, usize)>>,
    mapper: &IndexMapper,
    utf: &UtfIndexMapper,
    doc_utf16_len: usize,
) -> (r: Option<(usize, usize)>)
    ensures
        r == spec_map_aux_span(*primary, is_error, trace@, mapper@, utf@, doc_utf16_len),
{
    let whole = if is_error {
        Some((0usize, doc_utf16_len))
    } else {
        None
    };
    match map_main_span(primary, is_error, trace) {
        Some((ms, me)) => {
            proof {
                lemma_translate_nonneg(mapper@, ms as int);
                lemma_translate_nonneg(mapper@, me as int);
            }
            match (mapper.try_main_to_aux(ms), mapper.try_main_to_aux(me)) {
                (Some(a1), Some(a2)) => {
                    proof {
                        lemma_translate_nonneg(utf@, a1 as int);
                        lemma_translate_nonneg(utf@, a2 as int);
                    }
                    match (utf.try_utf8_to_utf16(a1), utf.try_utf8_to_utf16(a2)) {
                        (Some(u1), Some(u2)) => Some((u1, u2)),
                        _ => whole,
                    }
                },
                _ => whole,
            }
        },
        None => whole,
    }
}

/// The diagnostics surfaced for a record list, in order: each record's
/// translated range paired with its severity, message and hints; records
/// without a surfaceable range are dropped.
pub open spec fn spec_diagnostics_out(
    records: Seq<DiagRecord>,
    mapper: Seq<(usize, usize)>,
    utf: Seq<(usize, usize)>,
    doc_utf16_len: usize,
) -> Seq<TypstDiagnostic>
    decreases records.len(),
{
    if records.len() == 0 {
        Seq::empty()
    } else {
        let d = records.last();
        let rest = spec_diagnostics_out(records.drop_last(), mapper, utf, doc_utf16_len);
        match spec_map_aux_span(
            d.main_range,
            d.severity is Error,
            d.trace_ranges@,
            mapper,
            utf,
            doc_utf16_len,
        ) {
            Some(range) => rest.push(
                TypstDiagnostic {
                    range,
                    severity: d.severity,
                    message: d.message,
                    hints: d.hints,
                },
            ),
            None => rest,
        }
    }
}

/// Translates a list of compiler diagnostics to user-document diagnostics,
/// keeping their order and dropping warnings that cannot be localized.
pub fn from_diagnostics(
    records: Vec<DiagRecord>,
    mapper: &IndexMapper,
    utf: &UtfIndexMapper,
    doc_utf16_len: usize,
) -> (r: Vec<TypstDiagnostic>)
    ensures
        r@ == spec_diagnostics_out(records@, mapper@, utf@, doc_utf16_len),
{
    let ghost all = records@;
    let mut records = records;
    let mut out: Vec<TypstDiagnostic> = Vec::new();
    let mut i: usize = 0;
    let n: usize = records.len();
    proof {
        assert(all.take(0) =~= Seq::<DiagRecord>::empty());
    }
    while i < n
        invariant
            0 <= i <= n,
            n == all.len(),
            records@ == all.subrange(i as int, n as int),
            out@ == spec_diagnostics_out(all.take(i as int), mapper@, utf@, doc_utf16_len),
        decreases n - i,
    {
        let d = records.remove(0);
        proof {
            assert(d == all[i as int]);
            assert(records@ =~= all.subrange(i + 1, n as int));
            assert(all.take(i + 1).drop_last() =~= all.take(i as int));
            assert(all.take(i + 1).last() == all[i as int]);
        }
        let is_error = d.severity == TypstDiagnosticSeverity::Error;
        let range = map_aux_span(
            &d.main_range,
            is_error,
            &d.trace_ranges,
            mapper,
            utf,
            doc_utf16_len,
        );
        match range {
            Some(range) => {
                out.push(
                    TypstDiagnostic {
                        range,
                        severity: d.severity,
                        message: d.message,
                        hints: d.hints,
                    },
                );
            },
            None => {},
        }
        i = i + 1;
    }
    proof {
        assert(all.take(n as int) =~= all);
    }
    out
}

/// Kind of a completion entry surfaced to the host.
#[derive(Clone, Copy, Debug, PartialEq, Eq, Structural)]
pub enum TypstCompletionKind {
    Syntax,
    Func,
    Type,
    Param,
    Constant,
    Path,
    Package,
    Label,
    Font,
    Symbol,
}

/// One completion entry: its kind, its label, the text to apply and an
/// optional detail line.
pub struct TypstCompletion {
    pub kind: TypstCompletionKind,
    pub label: String,
    pub apply: Option<String>,
    pub detail: Option<String>,
}

/// A completion response: the user-document UTF-16 offset the completions
/// replace from, and the entries.
pub struct Autocomplete {
    pub offset: usize,
    pub completions: Vec<TypstCompletion>,
}

/// A hover tooltip: plain text or a piece of code.
pub enum TypstTooltip {
    Text(String),
    Code(String),
}

/// A jump target in the user document, in UTF-16 code units.
#[derive(Clone, Copy, Debug, PartialEq, Eq, Structural)]
pub enum TypstJump {
    File { position: usize },
}

impl TypstJump {
    /// The user-document position of a click-to-source jump: the jump's
    /// byte position in the synthesized document, passed through the
    /// inflection mapper and the UTF-16 table. A jump into any other file, or
    /// one whose translation does not fit the machine word, yields nothing.
    pub fn from_mapped(
        is_main_file: bool,
        main_position: usize,
        mapper: &IndexMapper,
        utf: &UtfIndexMapper,
    ) -> (r: Option<TypstJump>)
        ensures
            r == if is_main_file && translate_main_to_aux(mapper@, main_position as int)
                <= usize::MAX && translate_aux_to_main(
                utf@,
                translate_main_to_aux(mapper@, main_position as int),
            ) <= usize::MAX {
                Some(
                    TypstJump::File {
                        position: translate_aux_to_main(
                            utf@,
                            translate_main_to_aux(mapper@, main_position as int),
                        ) as usize,
                    },
                )
            } else {
                None::<TypstJump>
            },
    {
        if !is_main_file {
            return None;
        }
        proof {
            lemma_translate_nonneg(mapper@, main_position as int);
        }
        let aux = mapper.try_main_to_aux(main_position)?;
        let position = utf.try_utf8_to_utf16(aux)?;
        Some(TypstJump::File { position })
    }
}

/// A user UTF-16 cursor translated to a synthesized-document byte offset:
/// the inverse path, used for autocomplete and hover requests before
/// compilation.
pub fn cursor_to_main(
    aux_cursor_utf16: usize,
    utf: &UtfIndexMapper,
    mapper: &IndexMapper,
) -> (r: Option<usize>)
    ensures
        r == if translate_main_to_aux(utf@, aux_cursor_utf16 as int) <= usize::MAX
            && translate_aux_to_main(
            mapper@,
            translate_main_to_aux(utf@, aux_cursor_utf16 as int),
        ) <= usize::MAX {
            Some(
                translate_aux_to_main(
                    mapper@,
                    translate_main_to_aux(utf@, aux_cursor_utf16 as int),
                ) as usize,
            )
        } else {
            None::<usize>
        },
{
    proof {
        lemma_translate_nonneg(utf@, aux_cursor_utf16 as int);
    }
    let aux = utf.try_utf16_to_utf8(aux_cursor_utf16)?;
    mapper.try_aux_to_main(aux)
}

/// A synthesized-document byte offset translated to a user UTF-16 offset:
/// the outward path, used to place a completion list.
pub fn offset_to_aux_utf16(
    main_offset: usize,
    mapper: &IndexMapper,
    utf: &UtfIndexMapper,
) -> (r: Option<usize>)
    ensures
        r == if translate_main_to_aux(mapper@, main_offset as int) <= usize::MAX
            && translate_aux_to_main(
            utf@,
            translate_main_to_aux(mapper@, main_offset as int),
        ) <= usize::MAX {
            Some(
                translate_aux_to_main(
                    utf@,
                    translate_main_to_aux(mapper@, main_offset as int),
                ) as usize,
            )
        } else {
            None::<usize>
        },
{
    proof {
        lemma_translate_nonneg(mapper@, main_offset as int);
    }
    let aux = mapper.try_main_to_aux(main_offset)?;
    utf.try_utf8_to_utf16(aux)
}

} // verus!
