//! The message translator: tries each phrase entry in table order against a
//! message, and substitutes the captured values into the target template of
//! the first entry that matches.

use vstd::prelude::*;
use vstd::string::StrSliceExecFns;

use crate::matcher::{caps_view, match_at, match_segs, MatchResult};
use crate::phrase::{sorted_desc, TranslateEntry};
use crate::template::{
    lemma_parse_round_trip, no_placeholders, parse_from, parse_template, ph_at, seg_lit, seg_text,
    segs_text, segs_view, subvec, Seg, SegV,
};

verus! {

/// The value captured for a placeholder name: the value of the last capture
/// bearing that name, so that a repeated name keeps its latest capture.
pub open spec fn cap_lookup(caps: Seq<(Seq<char>, Seq<char>)>, name: Seq<char>) -> Option<
    Seq<char>,
>
    decreases caps.len(),
{
    if caps.len() == 0 {
        None
    } else if caps.last().0 == name {
        Some(caps.last().1)
    } else {
        cap_lookup(caps.drop_last(), name)
    }
}

/// The text one target-template segment contributes: its literal character, a
/// captured placeholder value, or — for a placeholder that captured nothing —
/// the placeholder token itself, left as literal text.
pub open spec fn seg_piece(g: SegV, caps: Seq<(Seq<char>, Seq<char>)>) -> Seq<char> {
    if g.is_hole {
        match cap_lookup(caps, g.name) {
            Some(v) => v,
            None => seg_text(g),
        }
    } else {
        seq![g.lit]
    }
}

/// The target template written out with every placeholder replaced by its
/// captured value.
pub open spec fn subst(segs: Seq<SegV>, caps: Seq<(Seq<char>, Seq<char>)>) -> Seq<char>
    decreases segs.len(),
{
    if segs.len() == 0 {
        Seq::empty()
    } else {
        seg_piece(segs[0], caps) + subst(segs.drop_first(), caps)
    }
}

/// Whether an entry's source template matches a prefix of the message.
pub open spec fn entry_matches(e: TranslateEntry, msg: Seq<char>) -> bool {
    match_at(parse_from(e.en@, 0), msg, 0) is Some
}

/// The translation a matching entry produces: the substituted target
/// template, with the unmatched trailing remainder of the message appended
/// verbatim.
pub open spec fn apply_entry(e: TranslateEntry, msg: Seq<char>) -> Seq<char> {
    match match_at(parse_from(e.en@, 0), msg, 0) {
        Some(m) => subst(parse_from(e.ja@, 0), m.caps) + msg.subrange(m.rem, msg.len() as int),
        None => msg,
    }
}

/// The translation of a message under a phrase table: the first entry in
/// table order whose source template matches decides the result; a message
/// no entry matches is returned unchanged.
pub open spec fn translate_spec(msg: Seq<char>, entries: Seq<TranslateEntry>) -> Seq<char>
    decreases entries.len(),
{
    if entries.len() == 0 {
        msg
    } else if entry_matches(entries[0], msg) {
        apply_entry(entries[0], msg)
    } else {
        translate_spec(msg, entries.drop_first())
    }
}

/// No entry of the table matches the message.
pub open spec fn unmatched(msg: Seq<char>, entries: Seq<TranslateEntry>) -> bool {
    forall|i: int| 0 <= i < entries.len() ==> !entry_matches(entries[i], msg)
}

/// Pass-through: a message that no phrase entry matches is returned
/// unchanged by translation.
pub proof fn lemma_pass_through(msg: Seq<char>, entries: Seq<TranslateEntry>)
    requires
        unmatched(msg, entries),
    ensures
        translate_spec(msg, entries) == msg,
    decreases entries.len(),
{
    if entries.len() > 0 {
        assert(!entry_matches(entries[0], msg));
        assert(forall|i: int|
            0 <= i < entries.drop_first().len() ==> entries.drop_first()[i] == entries[i + 1]);
        lemma_pass_through(msg, entries.drop_first());
    }
}

/// First match wins: if entry `k` matches the message and no earlier entry
/// does, the translation is exactly entry `k`'s application.
pub proof fn lemma_translate_selects(msg: Seq<char>, entries: Seq<TranslateEntry>, k: int)
    requires
        0 <= k < entries.len(),
        forall|j: int| 0 <= j < k ==> !entry_matches(entries[j], msg),
        entry_matches(entries[k], msg),
    ensures
        translate_spec(msg, entries) == apply_entry(entries[k], msg),
    decreases k,
{
    if k > 0 {
        assert(!entry_matches(entries[0], msg));
        assert(forall|i: int|
            0 <= i < entries.drop_first().len() ==> entries.drop_first()[i] == entries[i + 1]);
        lemma_translate_selects(msg, entries.drop_first(), k - 1);
    }
}

/// Longest match precedence: under the phrase-table order — descending
/// source-template length — the first matching entry decides the result, and
/// every other matching entry has a source template no longer than its own.
pub proof fn lemma_first_match_wins(msg: Seq<char>, entries: Seq<TranslateEntry>, k: int)
    requires
        sorted_desc(entries),
        0 <= k < entries.len(),
        forall|j: int| 0 <= j < k ==> !entry_matches(entries[j], msg),
        entry_matches(entries[k], msg),
    ensures
        translate_spec(msg, entries) == apply_entry(entries[k], msg),
        forall|j: int|
            0 <= j < entries.len() && entry_matches(entries[j], msg) ==> entries[j].en@.len()
                <= entries[k].en@.len(),
{
    lemma_translate_selects(msg, entries, k);
}

/// A template without placeholders matches exactly its own text, capturing
/// nothing and leaving no remainder.
pub proof fn lemma_literal_self_match(t: Seq<char>, i: int)
    requires
        0 <= i <= t.len(),
        no_placeholders(t),
    ensures
        match_at(parse_from(t, i), t, i) == Some(
            MatchResult { caps: Seq::<(Seq<char>, Seq<char>)>::empty(), rem: t.len() as int },
        ),
    decreases t.len() - i,
{
    if i >= t.len() {
    } else {
        assert(!ph_at(t, i));
        lemma_literal_self_match(t, i + 1);
        assert((seq![seg_lit(t[i])] + parse_from(t, i + 1)).drop_first() =~= parse_from(t, i + 1));
    }
}

/// Substituting with no captures leaves every placeholder token literal: the
/// result is the template text itself.
pub proof fn lemma_subst_empty(segs: Seq<SegV>)
    ensures
        subst(segs, Seq::<(Seq<char>, Seq<char>)>::empty()) == segs_text(segs),
    decreases segs.len(),
{
    if segs.len() > 0 {
        lemma_subst_empty(segs.drop_first());
    }
}

/// Exact phrase: an entry whose source template holds no placeholder
/// translates its own source text to exactly its target text, provided no
/// earlier entry of the table matches that text.
pub proof fn lemma_exact_phrase(entries: Seq<TranslateEntry>, k: int)
    requires
        0 <= k < entries.len(),
        no_placeholders(entries[k].en@),
        forall|j: int| 0 <= j < k ==> !entry_matches(entries[j], entries[k].en@),
    ensures
        translate_spec(entries[k].en@, entries) == entries[k].ja@,
{
    let en = entries[k].en@;
    let ja = entries[k].ja@;
    lemma_literal_self_match(en, 0);
    lemma_translate_selects(en, entries, k);
    lemma_subst_empty(parse_from(ja, 0));
    lemma_parse_round_trip(ja, 0);
    assert(ja.subrange(0, ja.len() as int) =~= ja);
    assert(en.subrange(en.len() as int, en.len() as int) =~= Seq::<char>::empty());
    assert(ja + Seq::<char>::empty() =~= ja);
}

/// Collects the characters of a string slice.
pub fn str_chars(s: &str) -> (r: Vec<char>)
    ensures
        r@ == s@,
{
    let n = s.unicode_len();
    let mut r: Vec<char> = Vec::new();
    let mut i: usize = 0;
    while i < n
        invariant
            i <= n,
            n == s@.len(),
            r@ == s@.take(i as int),
        decreases n - i,
    {
        let c = s.get_char(i);
        r.push(c);
        proof {
            assert(s@.take(i as int).push(s@[i as int]) =~= s@.take(i as int + 1));
        }
        i = i + 1;
    }
    proof {
        assert(s@.take(n as int) =~= s@);
    }
    r
}

/// Relies on `String`'s `FromIterator<&char>` implementation: collecting the
/// characters of the vector yields the string of exactly those characters.
#[verifier::external_body]
pub(crate) fn chars_to_string(v: &Vec<char>) -> (r: String)
    ensures
        r@ == v@,
{
    v.iter().collect()
}

/// Compares two character vectors.
fn chars_eq(a: &Vec<char>, b: &Vec<char>) -> (r: bool)
    ensures
        r == (a@ == b@),
{
    if a.len() != b.len() {
        return false;
    }
    let mut i: usize = 0;
    while i < a.len()
        invariant
            i <= a@.len(),
            a@.len() == b@.len(),
            forall|j: int| 0 <= j < i ==> a@[j] == b@[j],
        decreases a@.len() - i,
    {
        if a[i] != b[i] {
            proof {
                assert(a@[i as int] != b@[i as int]);
            }
            return false;
        }
        i = i + 1;
    }
    proof {
        assert(a@ =~= b@);
    }
    true
}

/// Looks up the captured value of `name`, preferring the latest capture.
fn lookup_cap(caps: &Vec<(Vec<char>, Vec<char>)>, name: &Vec<char>) -> (r: Option<Vec<char>>)
    ensures
        match r {
            Some(v) => cap_lookup(caps_view(caps@), name@) == Some(v@),
            None => cap_lookup(caps_view(caps@), name@) is None,
        },
{
    let ghost cv = caps_view(caps@);
    let mut k: usize = caps.len();
    proof {
        assert(cv.take(k as int) =~= cv);
    }
    while k > 0
        invariant
            k <= caps@.len(),
            cv == caps_view(caps@),
            cap_lookup(cv, name@) == cap_lookup(cv.take(k as int), name@),
        decreases k,
    {
        proof {
            assert(cv.take(k as int).last() == cv[k as int - 1]);
            assert(cv[k as int - 1] == (caps@[k as int - 1].0@, caps@[k as int - 1].1@));
            assert(cv.take(k as int).drop_last() =~= cv.take(k as int - 1));
        }
        if chars_eq(&caps[k - 1].0, name) {
            let v = subvec(&caps[k - 1].1, 0, caps[k - 1].1.len());
            proof {
                assert(v@ =~= caps@[k as int - 1].1@);
            }
            return Some(v);
        }
        k = k - 1;
    }
    proof {
        assert(cv.take(0) =~= Seq::<(Seq<char>, Seq<char>)>::empty());
    }
    None
}

/// Appends the characters of `src` to `out`.
pub(crate) fn push_all(out: &mut Vec<char>, src: &Vec<char>)
    ensures
        final(out)@ == old(out)@ + src@,
{
    let mut i: usize = 0;
    while i < src.len()
        invariant
            i <= src@.len(),
            out@ == old(out)@ + src@.take(i as int),
        decreases src@.len() - i,
    {
        out.push(src[i]);
        proof {
            assert((old(out)@ + src@.take(i as int)).push(src@[i as int]) =~= old(out)@
                + src@.take(i as int + 1));
        }
        i = i + 1;
    }
    proof {
        assert(src@.take(src@.len() as int) =~= src@);
        assert(out@ =~= old(out)@ + src@);
    }
}

/// Writes out the target template with every placeholder replaced by its
/// captured value; a placeholder that captured nothing stays as its token.
#[verifier::loop_isolation(false)]
fn subst_template(segs: &Vec<Seg>, caps: &Vec<(Vec<char>, Vec<char>)>) -> (r: Vec<char>)
    ensures
        r@ == subst(segs_view(segs@), caps_view(caps@)),
{
    let ghost sv = segs_view(segs@);
    let ghost cv = caps_view(caps@);
    let mut out: Vec<char> = Vec::new();
    let mut i: usize = 0;
    proof {
        assert(sv.skip(0) =~= sv);
        assert(out@ + subst(sv.skip(0), cv) =~= subst(sv, cv));
    }
    while i < segs.len()
        invariant
            i <= segs@.len(),
            out@ + subst(sv.skip(i as int), cv) == subst(sv, cv),
        decreases segs@.len() - i,
    {
        proof {
            assert(sv.skip(i as int)[0] == segs@[i as int]@);
            assert(sv.skip(i as int).drop_first() =~= sv.skip(i as int + 1));
        }
        let ghost piece = seg_piece(sv.skip(i as int)[0], cv);
        let ghost out0 = out@;
        match &segs[i] {
            Seg::Lit(c) => {
                out.push(*c);
                proof {
                    assert(out@ =~= out0 + piece);
                }
            },
            Seg::Hole(n) => {
                match lookup_cap(caps, n) {
                    Some(v) => {
                        push_all(&mut out, &v);
                        proof {
                            assert(out@ =~= out0 + piece);
                        }
                    },
                    None => {
                        out.push('{');
                        out.push('$');
                        push_all(&mut out, n);
                        out.push('}');
                        proof {
                            assert(out@ =~= out0 + piece);
                        }
                    },
                }
            },
        }
        proof {
            assert((out0 + piece) + subst(sv.skip(i as int + 1), cv) =~= out0 + (piece + subst(
                sv.skip(i as int + 1),
                cv,
            )));
        }
        i = i + 1;
    }
    proof {
        assert(sv.skip(segs@.len() as int) =~= Seq::<SegV>::empty());
        assert(out@ + Seq::<char>::empty() =~= out@);
    }
    out
}

/// Translates one free-text message: the first phrase entry, in table order,
/// whose source template matches a prefix of the message decides the result;
/// a message no entry matches is returned unchanged.
#[verifier::loop_isolation(false)]
pub fn translate_message(message: &str, translations: &Vec<TranslateEntry>) -> (r: String)
    ensures
        r@ == translate_spec(message@, translations@),
{
    let text = str_chars(message);
    let mut i: usize = 0;
    proof {
        assert(translations@.skip(0) =~= translations@);
    }
    while i < translations.len()
        invariant
            i <= translations@.len(),
            translate_spec(message@, translations@) == translate_spec(
                message@,
                translations@.skip(i as int),
            ),
        decreases translations@.len() - i,
    {
        proof {
            assert(translations@.skip(i as int)[0] == translations@[i as int]);
            assert(translations@.skip(i as int).drop_first() =~= translations@.skip(i as int + 1));
        }
        let en_chars = str_chars(translations[i].en.as_str());
        let segs = parse_template(&en_chars);
        proof {
            assert(segs_view(segs@).skip(0) =~= segs_view(segs@));
        }
        let m = match_segs(&segs, 0, &text, 0);
        match m {
            Some(p) => {
                let (caps, rem) = p;
                let ja_chars = str_chars(translations[i].ja.as_str());
                let ja_segs = parse_template(&ja_chars);
                let mut out = subst_template(&ja_segs, &caps);
                let mut tail = subvec(&text, rem, text.len());
                out.append(&mut tail);
                let result = chars_to_string(&out);
                proof {
                    assert(entry_matches(translations@[i as int], message@));
                    assert(result@ == apply_entry(translations@[i as int], message@));
                }
                return result;
            },
            None => {
                proof {
                    assert(!entry_matches(translations@[i as int], message@));
                }
                i = i + 1;
            },
        }
    }
    proof {
        assert(translations@.skip(translations@.len() as int) =~= Seq::<TranslateEntry>::empty());
    }
    message.to_owned()
}

} // verus!
