//! The diagnostic tree translator: walks a structured diagnostic record,
//! translating every eligible text field, records each substitution made, and
//! reconciles the flattened rendered text with those substitutions.

use vstd::prelude::*;

use crate::phrase::TranslateEntry;
use crate::rendered::{
    apply_log, contains_sub, lemma_rendered_consistency, log_view, reconcile_rendered,
};
use crate::translate::{lemma_pass_through, translate_message, translate_spec, unmatched};

verus! {

/// One source span of a diagnostic, as far as translation reads it: its
/// optional label text.
pub struct DiagnosticSpan {
    pub label: Option<String>,
}

/// One child diagnostic: an optional message and its own spans. Children do
/// not nest further.
pub struct DiagnosticChild {
    pub message: Option<String>,
    pub spans: Vec<DiagnosticSpan>,
}

/// A diagnostic record, reduced to the fields translation may touch: the
/// top-level message, the span labels, the children with their messages and
/// span labels, and the flattened rendered text. Every other field of a
/// diagnostic is opaque to translation; the caller carries it through
/// unchanged alongside these.
pub struct DiagnosticRecord {
    pub message: Option<String>,
    pub spans: Vec<DiagnosticSpan>,
    pub children: Vec<DiagnosticChild>,
    pub rendered: Option<String>,
}

/// Specification-level form of a span.
#[verifier::ext_equal]
pub ghost struct SpanV {
    pub label: Option<Seq<char>>,
}

/// Specification-level form of a child diagnostic.
#[verifier::ext_equal]
pub ghost struct ChildV {
    pub message: Option<Seq<char>>,
    pub spans: Seq<SpanV>,
}

/// Specification-level form of a diagnostic record.
#[verifier::ext_equal]
pub ghost struct RecordV {
    pub message: Option<Seq<char>>,
    pub spans: Seq<SpanV>,
    pub children: Seq<ChildV>,
    pub rendered: Option<Seq<char>>,
}

/// The text of an optional field.
pub open spec fn opt_view(o: Option<String>) -> Option<Seq<char>> {
    match o {
        Some(s) => Some(s@),
        None => None,
    }
}

/// The specification-level contents of a span list.
pub open spec fn spans_view(s: Seq<DiagnosticSpan>) -> Seq<SpanV> {
    s.map_values(|x: DiagnosticSpan| x@)
}

/// The specification-level contents of a child list.
pub open spec fn children_view(s: Seq<DiagnosticChild>) -> Seq<ChildV> {
    s.map_values(|x: DiagnosticChild| x@)
}

impl View for DiagnosticSpan {
    type V = SpanV;

    open spec fn view(&self) -> SpanV {
        SpanV { label: opt_view(self.label) }
    }
}

impl View for DiagnosticChild {
    type V = ChildV;

    open spec fn view(&self) -> ChildV {
        ChildV { message: opt_view(self.message), spans: spans_view(self.spans@) }
    }
}

impl View for DiagnosticRecord {
    type V = RecordV;

    open spec fn view(&self) -> RecordV {
        RecordV {
            message: opt_view(self.message),
            spans: spans_view(self.spans@),
            children: children_view(self.children@),
            rendered: opt_view(self.rendered),
        }
    }
}

/// An optional text field after translation.
pub open spec fn tr_opt(o: Option<Seq<char>>, tbl: Seq<TranslateEntry>) -> Option<Seq<char>> {
    match o {
        Some(m) => Some(translate_spec(m, tbl)),
        None => None,
    }
}

/// A span after translation.
pub open spec fn span_tr(s: SpanV, tbl: Seq<TranslateEntry>) -> SpanV {
    SpanV { label: tr_opt(s.label, tbl) }
}

/// A span list after translation, span by span.
pub open spec fn spans_tr(s: Seq<SpanV>, tbl: Seq<TranslateEntry>) -> Seq<SpanV>
    decreases s.len(),
{
    if s.len() == 0 {
        Seq::empty()
    } else {
        spans_tr(s.drop_last(), tbl).push(span_tr(s.last(), tbl))
    }
}

/// A child after translation.
pub open spec fn child_tr(c: ChildV, tbl: Seq<TranslateEntry>) -> ChildV {
    ChildV { message: tr_opt(c.message, tbl), spans: spans_tr(c.spans, tbl) }
}

/// A child list after translation, child by child.
pub open spec fn children_tr(cs: Seq<ChildV>, tbl: Seq<TranslateEntry>) -> Seq<ChildV>
    decreases cs.len(),
{
    if cs.len() == 0 {
        Seq::empty()
    } else {
        children_tr(cs.drop_last(), tbl).push(child_tr(cs.last(), tbl))
    }
}

/// What one optional field contributes to the substitution log: its
/// (original, translated) pair when translation changed it, nothing
/// otherwise.
pub open spec fn log_opt(o: Option<Seq<char>>, tbl: Seq<TranslateEntry>) -> Seq<
    (Seq<char>, Seq<char>),
> {
    match o {
        None => Seq::empty(),
        Some(m) => {
            if translate_spec(m, tbl) != m {
                seq![(m, translate_spec(m, tbl))]
            } else {
                Seq::empty()
            }
        },
    }
}

/// What a span list contributes to the substitution log, in span order.
pub open spec fn spans_log(s: Seq<SpanV>, tbl: Seq<TranslateEntry>) -> Seq<(Seq<char>, Seq<char>)>
    decreases s.len(),
{
    if s.len() == 0 {
        Seq::empty()
    } else {
        spans_log(s.drop_last(), tbl) + log_opt(s.last().label, tbl)
    }
}

/// What one child contributes to the substitution log: its message first,
/// then its span labels.
pub open spec fn child_log(c: ChildV, tbl: Seq<TranslateEntry>) -> Seq<(Seq<char>, Seq<char>)> {
    log_opt(c.message, tbl) + spans_log(c.spans, tbl)
}

/// What a child list contributes to the substitution log, in child order.
pub open spec fn children_log(cs: Seq<ChildV>, tbl: Seq<TranslateEntry>) -> Seq<
    (Seq<char>, Seq<char>),
>
    decreases cs.len(),
{
    if cs.len() == 0 {
        Seq::empty()
    } else {
        children_log(cs.drop_last(), tbl) + child_log(cs.last(), tbl)
    }
}

/// The whole substitution log of one record: the top-level message, then the
/// span labels, then each child in order.
pub open spec fn record_log(r: RecordV, tbl: Seq<TranslateEntry>) -> Seq<(Seq<char>, Seq<char>)> {
    log_opt(r.message, tbl) + spans_log(r.spans, tbl) + children_log(r.children, tbl)
}

/// A record with its structured text fields translated; the rendered text is
/// not yet reconciled.
pub open spec fn record_tr(r: RecordV, tbl: Seq<TranslateEntry>) -> RecordV {
    RecordV {
        message: tr_opt(r.message, tbl),
        spans: spans_tr(r.spans, tbl),
        children: children_tr(r.children, tbl),
        rendered: r.rendered,
    }
}

/// A record fully translated: the structured text fields translated, and the
/// rendered text rewritten by the record's substitution log.
pub open spec fn record_translate(r: RecordV, tbl: Seq<TranslateEntry>) -> RecordV {
    RecordV {
        message: tr_opt(r.message, tbl),
        spans: spans_tr(r.spans, tbl),
        children: children_tr(r.children, tbl),
        rendered: match r.rendered {
            Some(re) => Some(apply_log(re, record_log(r, tbl))),
            None => None,
        },
    }
}

proof fn lemma_spans_view_push(s: Seq<DiagnosticSpan>, x: DiagnosticSpan)
    ensures
        spans_view(s.push(x)) == spans_view(s).push(x@),
{
    assert(spans_view(s.push(x)) =~= spans_view(s).push(x@));
}

proof fn lemma_children_view_push(s: Seq<DiagnosticChild>, x: DiagnosticChild)
    ensures
        children_view(s.push(x)) == children_view(s).push(x@),
{
    assert(children_view(s.push(x)) =~= children_view(s).push(x@));
}

proof fn lemma_log_view_push(s: Seq<(String, String)>, x: (String, String))
    ensures
        log_view(s.push(x)) == log_view(s).push((x.0@, x.1@)),
{
    assert(log_view(s.push(x)) =~= log_view(s).push((x.0@, x.1@)));
}

/// Translates one optional text field, appending the substitution pair to
/// the log when the text changed.
fn translate_opt(
    o: &Option<String>,
    translations: &Vec<TranslateEntry>,
    log: &mut Vec<(String, String)>,
) -> (r: Option<String>)
    ensures
        opt_view(r) == tr_opt(opt_view(*o), translations@),
        log_view(final(log)@) == log_view(old(log)@) + log_opt(opt_view(*o), translations@),
{
    let ghost log0 = log@;
    match o {
        None => {
            proof {
                assert(log_view(log0) + log_opt(opt_view(*o), translations@) =~= log_view(log0));
            }
            None
        },
        Some(m) => {
            let t = translate_message(m.as_str(), translations);
            if t == *m {
                proof {
                    assert(log_view(log0) + log_opt(opt_view(*o), translations@) =~= log_view(
                        log0,
                    ));
                }
                Some(t)
            } else {
                let pair = (m.clone(), t.clone());
                proof {
                    lemma_log_view_push(log0, pair);
                }
                log.push(pair);
                proof {
                    assert(log_view(log0).push((m@, t@)) =~= log_view(log0) + log_opt(
                        opt_view(*o),
                        translations@,
                    ));
                }
                Some(t)
            }
        },
    }
}

/// Translates every span label in order, logging each change.
#[verifier::loop_isolation(false)]
fn translate_spans(
    spans: &Vec<DiagnosticSpan>,
    translations: &Vec<TranslateEntry>,
    log: &mut Vec<(String, String)>,
) -> (r: Vec<DiagnosticSpan>)
    ensures
        spans_view(r@) == spans_tr(spans_view(spans@), translations@),
        log_view(final(log)@) == log_view(old(log)@) + spans_log(spans_view(spans@), translations@),
{
    let ghost tbl = translations@;
    let ghost sv = spans_view(spans@);
    let mut out: Vec<DiagnosticSpan> = Vec::new();
    let mut i: usize = 0;
    proof {
        assert(spans_view(out@) =~= spans_tr(sv.take(0), tbl));
        assert(log_view(log@) + spans_log(sv.take(0), tbl) =~= log_view(log@));
    }
    while i < spans.len()
        invariant
            i <= spans@.len(),
            spans_view(out@) == spans_tr(sv.take(i as int), tbl),
            log_view(log@) == log_view(old(log)@) + spans_log(sv.take(i as int), tbl),
        decreases spans@.len() - i,
    {
        proof {
            assert(sv.take(i as int + 1).drop_last() =~= sv.take(i as int));
            assert(sv.take(i as int + 1).last() == sv[i as int]);
            assert(sv[i as int] == spans@[i as int]@);
        }
        let ghost logp = log@;
        let nl = translate_opt(&spans[i].label, translations, log);
        let newspan = DiagnosticSpan { label: nl };
        proof {
            assert(newspan@ == span_tr(sv[i as int], tbl));
            lemma_spans_view_push(out@, newspan);
        }
        out.push(newspan);
        proof {
            assert(spans_view(out@) == spans_tr(sv.take(i as int + 1), tbl));
            assert((log_view(old(log)@) + spans_log(sv.take(i as int), tbl)) + log_opt(
                sv[i as int].label,
                tbl,
            ) =~= log_view(old(log)@) + spans_log(sv.take(i as int + 1), tbl));
        }
        i = i + 1;
    }
    proof {
        assert(sv.take(spans@.len() as int) =~= sv);
    }
    out
}

/// Translates one child: its message, then its span labels.
fn translate_child(
    child: &DiagnosticChild,
    translations: &Vec<TranslateEntry>,
    log: &mut Vec<(String, String)>,
) -> (r: DiagnosticChild)
    ensures
        r@ == child_tr(child@, translations@),
        log_view(final(log)@) == log_view(old(log)@) + child_log(child@, translations@),
{
    let m = translate_opt(&child.message, translations, log);
    let s = translate_spans(&child.spans, translations, log);
    proof {
        assert((log_view(old(log)@) + log_opt(opt_view(child.message), translations@))
            + spans_log(spans_view(child.spans@), translations@) =~= log_view(old(log)@)
            + child_log(child@, translations@));
    }
    DiagnosticChild { message: m, spans: s }
}

/// Translates every child in order.
#[verifier::loop_isolation(false)]
fn translate_children(
    children: &Vec<DiagnosticChild>,
    translations: &Vec<TranslateEntry>,
    log: &mut Vec<(String, String)>,
) -> (r: Vec<DiagnosticChild>)
    ensures
        children_view(r@) == children_tr(children_view(children@), translations@),
        log_view(final(log)@) == log_view(old(log)@) + children_log(
            children_view(children@),
            translations@,
        ),
{
    let ghost tbl = translations@;
    let ghost cv = children_view(children@);
    let mut out: Vec<DiagnosticChild> = Vec::new();
    let mut i: usize = 0;
    proof {
        assert(children_view(out@) =~= children_tr(cv.take(0), tbl));
        assert(log_view(log@) + children_log(cv.take(0), tbl) =~= log_view(log@));
    }
    while i < children.len()
        invariant
            i <= children@.len(),
            children_view(out@) == children_tr(cv.take(i as int), tbl),
            log_view(log@) == log_view(old(log)@) + children_log(cv.take(i as int), tbl),
        decreases children@.len() - i,
    {
        proof {
            assert(cv.take(i as int + 1).drop_last() =~= cv.take(i as int));
            assert(cv.take(i as int + 1).last() == cv[i as int]);
            assert(cv[i as int] == children@[i as int]@);
        }
        let newchild = translate_child(&children[i], translations, log);
        proof {
            lemma_children_view_push(out@, newchild);
        }
        out.push(newchild);
        proof {
            assert(children_view(out@) == children_tr(cv.take(i as int + 1), tbl));
            assert((log_view(old(log)@) + children_log(cv.take(i as int), tbl)) + child_log(
                cv[i as int],
                tbl,
            ) =~= log_view(old(log)@) + children_log(cv.take(i as int + 1), tbl));
        }
        i = i + 1;
    }
    proof {
        assert(cv.take(children@.len() as int) =~= cv);
    }
    out
}

/// Translates the structured text fields of a record — the message, the span
/// labels, and each child's message and span labels — and returns the new
/// record together with the log of every (original, translated) pair, in
/// traversal order. The rendered text is carried over unchanged.
pub fn translate_tree(rec: &DiagnosticRecord, translations: &Vec<TranslateEntry>) -> (r: (
    DiagnosticRecord,
    Vec<(String, String)>,
))
    ensures
        r.0@ == record_tr(rec@, translations@),
        log_view(r.1@) == record_log(rec@, translations@),
{
    let mut log: Vec<(String, String)> = Vec::new();
    proof {
        assert(log_view(log@) =~= Seq::<(Seq<char>, Seq<char>)>::empty());
        assert(Seq::<(Seq<char>, Seq<char>)>::empty() + log_opt(
            opt_view(rec.message),
            translations@,
        ) =~= log_opt(opt_view(rec.message), translations@));
    }
    let m = translate_opt(&rec.message, translations, &mut log);
    let s = translate_spans(&rec.spans, translations, &mut log);
    let c = translate_children(&rec.children, translations, &mut log);
    let rendered = match &rec.rendered {
        Some(x) => Some(x.clone()),
        None => None,
    };
    proof {
        assert((log_opt(opt_view(rec.message), translations@) + spans_log(
            spans_view(rec.spans@),
            translations@,
        )) + children_log(children_view(rec.children@), translations@) =~= record_log(
            rec@,
            translations@,
        ));
        assert(opt_view(rendered) == rec@.rendered);
    }
    (DiagnosticRecord { message: m, spans: s, children: c, rendered }, log)
}

/// Translates a diagnostic record completely: every structured text field
/// through the phrase table, and the rendered text rewritten by replacing
/// each logged original with its translation, in log order.
pub fn translate_json_message(rec: &DiagnosticRecord, translations: &Vec<TranslateEntry>) -> (r:
    DiagnosticRecord)
    ensures
        r@ == record_translate(rec@, translations@),
{
    let (tree, log) = translate_tree(rec, translations);
    let mut out = tree;
    let new_rendered = match &out.rendered {
        Some(re) => Some(reconcile_rendered(re.as_str(), &log)),
        None => None,
    };
    out.rendered = new_rendered;
    proof {
        assert(out@ =~= record_translate(rec@, translations@));
    }
    out
}

/// The shape of a record: which optional fields are present, the length of
/// each list, and the same for every nested element.
#[verifier::ext_equal]
pub ghost struct ShapeV {
    pub has_message: bool,
    pub labels: Seq<bool>,
    pub children: Seq<(bool, Seq<bool>)>,
    pub has_rendered: bool,
}

/// The presence of each label in a span list.
pub open spec fn spans_shape(s: Seq<SpanV>) -> Seq<bool> {
    s.map_values(|x: SpanV| x.label is Some)
}

/// The shape of one child: message presence and its spans' label presence.
pub open spec fn child_shape(c: ChildV) -> (bool, Seq<bool>) {
    (c.message is Some, spans_shape(c.spans))
}

/// The shape of a whole record.
pub open spec fn shape(r: RecordV) -> ShapeV {
    ShapeV {
        has_message: r.message is Some,
        labels: spans_shape(r.spans),
        children: r.children.map_values(|c: ChildV| child_shape(c)),
        has_rendered: r.rendered is Some,
    }
}

proof fn lemma_spans_tr_elems(s: Seq<SpanV>, tbl: Seq<TranslateEntry>)
    ensures
        spans_tr(s, tbl).len() == s.len(),
        forall|i: int| 0 <= i < s.len() ==> spans_tr(s, tbl)[i] == span_tr(s[i], tbl),
    decreases s.len(),
{
    if s.len() > 0 {
        lemma_spans_tr_elems(s.drop_last(), tbl);
    }
}

proof fn lemma_children_tr_elems(cs: Seq<ChildV>, tbl: Seq<TranslateEntry>)
    ensures
        children_tr(cs, tbl).len() == cs.len(),
        forall|i: int| 0 <= i < cs.len() ==> children_tr(cs, tbl)[i] == child_tr(cs[i], tbl),
    decreases cs.len(),
{
    if cs.len() > 0 {
        lemma_children_tr_elems(cs.drop_last(), tbl);
    }
}

/// Structural isomorphism: translation preserves the shape of a record — the
/// same optional fields present, the same list lengths, the same nesting —
/// whether or not any text changed.
pub proof fn lemma_structural_isomorphism(r: RecordV, tbl: Seq<TranslateEntry>)
    ensures
        shape(record_translate(r, tbl)) == shape(r),
{
    let out = record_translate(r, tbl);
    lemma_spans_tr_elems(r.spans, tbl);
    lemma_children_tr_elems(r.children, tbl);
    assert(spans_shape(out.spans) =~= spans_shape(r.spans));
    assert forall|i: int| 0 <= i < r.children.len() implies #[trigger] child_shape(
        children_tr(r.children, tbl)[i],
    ) == child_shape(r.children[i]) by {
        let c = r.children[i];
        lemma_spans_tr_elems(c.spans, tbl);
        assert(spans_shape(spans_tr(c.spans, tbl)) =~= spans_shape(c.spans));
        assert(child_shape(child_tr(c, tbl)) =~= child_shape(c));
    }
    assert(out.children.map_values(|c: ChildV| child_shape(c)) =~= r.children.map_values(
        |c: ChildV| child_shape(c),
    ));
    assert(shape(out) =~= shape(r));
}

/// A span whose label, if present, no phrase entry matches.
pub open spec fn span_unmatched(s: SpanV, tbl: Seq<TranslateEntry>) -> bool {
    s.label matches Some(l) ==> unmatched(l, tbl)
}

/// A child none of whose text fields any phrase entry matches.
pub open spec fn child_unmatched(c: ChildV, tbl: Seq<TranslateEntry>) -> bool {
    &&& (c.message matches Some(m) ==> unmatched(m, tbl))
    &&& forall|i: int| 0 <= i < c.spans.len() ==> span_unmatched(#[trigger] c.spans[i], tbl)
}

/// A record none of whose text fields any phrase entry matches.
pub open spec fn record_unmatched(r: RecordV, tbl: Seq<TranslateEntry>) -> bool {
    &&& (r.message matches Some(m) ==> unmatched(m, tbl))
    &&& forall|i: int| 0 <= i < r.spans.len() ==> span_unmatched(#[trigger] r.spans[i], tbl)
    &&& forall|i: int| 0 <= i < r.children.len() ==> child_unmatched(#[trigger] r.children[i], tbl)
}

proof fn lemma_opt_untranslated(o: Option<Seq<char>>, tbl: Seq<TranslateEntry>)
    requires
        o matches Some(m) ==> unmatched(m, tbl),
    ensures
        tr_opt(o, tbl) == o,
        log_opt(o, tbl) == Seq::<(Seq<char>, Seq<char>)>::empty(),
{
    match o {
        Some(m) => {
            lemma_pass_through(m, tbl);
        },
        None => {},
    }
}

proof fn lemma_spans_untranslated(s: Seq<SpanV>, tbl: Seq<TranslateEntry>)
    requires
        forall|i: int| 0 <= i < s.len() ==> span_unmatched(#[trigger] s[i], tbl),
    ensures
        spans_tr(s, tbl) == s,
        spans_log(s, tbl) == Seq::<(Seq<char>, Seq<char>)>::empty(),
    decreases s.len(),
{
    if s.len() == 0 {
        assert(spans_tr(s, tbl) =~= s);
    } else {
        lemma_spans_untranslated(s.drop_last(), tbl);
        lemma_opt_untranslated(s.last().label, tbl);
        assert(span_tr(s.last(), tbl) =~= s.last());
        assert(spans_tr(s, tbl) =~= s);
        assert(spans_log(s, tbl) =~= Seq::<(Seq<char>, Seq<char>)>::empty());
    }
}

proof fn lemma_child_untranslated(c: ChildV, tbl: Seq<TranslateEntry>)
    requires
        child_unmatched(c, tbl),
    ensures
        child_tr(c, tbl) == c,
        child_log(c, tbl) == Seq::<(Seq<char>, Seq<char>)>::empty(),
{
    lemma_opt_untranslated(c.message, tbl);
    lemma_spans_untranslated(c.spans, tbl);
    assert(child_tr(c, tbl) =~= c);
    assert(child_log(c, tbl) =~= Seq::<(Seq<char>, Seq<char>)>::empty());
}

proof fn lemma_children_untranslated(cs: Seq<ChildV>, tbl: Seq<TranslateEntry>)
    requires
        forall|i: int| 0 <= i < cs.len() ==> child_unmatched(#[trigger] cs[i], tbl),
    ensures
        children_tr(cs, tbl) == cs,
        children_log(cs, tbl) == Seq::<(Seq<char>, Seq<char>)>::empty(),
    decreases cs.len(),
{
    if cs.len() == 0 {
        assert(children_tr(cs, tbl) =~= cs);
    } else {
        lemma_children_untranslated(cs.drop_last(), tbl);
        lemma_child_untranslated(cs.last(), tbl);
        assert(children_tr(cs, tbl) =~= cs);
        assert(children_log(cs, tbl) =~= Seq::<(Seq<char>, Seq<char>)>::empty());
    }
}

/// Rendered consistency: when tree translation changes the message from `a`
/// to its translation and no other field changes, a rendered text containing
/// `a` reconciles to a text containing the translation.
pub proof fn lemma_rendered_reflects_message(
    r: RecordV,
    tbl: Seq<TranslateEntry>,
    a: Seq<char>,
    re: Seq<char>,
)
    requires
        r.message == Some(a),
        a.len() > 0,
        translate_spec(a, tbl) != a,
        forall|i: int| 0 <= i < r.spans.len() ==> span_unmatched(#[trigger] r.spans[i], tbl),
        forall|i: int| 0 <= i < r.children.len() ==> child_unmatched(#[trigger] r.children[i], tbl),
        r.rendered == Some(re),
        contains_sub(re, a),
    ensures
        record_translate(r, tbl).rendered matches Some(nre) && contains_sub(
            nre,
            translate_spec(a, tbl),
        ),
{
    let b = translate_spec(a, tbl);
    lemma_spans_untranslated(r.spans, tbl);
    lemma_children_untranslated(r.children, tbl);
    assert(record_log(r, tbl) =~= seq![(a, b)]);
    lemma_rendered_consistency(re, a, b);
}

/// Idempotence on untranslated input: translating a record none of whose
/// text fields matches any phrase entry returns the record unchanged, the
/// rendered text included.
pub proof fn lemma_untranslated_identity(r: RecordV, tbl: Seq<TranslateEntry>)
    requires
        record_unmatched(r, tbl),
    ensures
        record_translate(r, tbl) == r,
{
    lemma_opt_untranslated(r.message, tbl);
    lemma_spans_untranslated(r.spans, tbl);
    lemma_children_untranslated(r.children, tbl);
    assert(record_log(r, tbl) =~= Seq::<(Seq<char>, Seq<char>)>::empty());
    match r.rendered {
        Some(re) => {
            assert(apply_log(re, record_log(r, tbl)) == re);
        },
        None => {},
    }
    assert(record_translate(r, tbl) =~= r);
}

} // verus!
