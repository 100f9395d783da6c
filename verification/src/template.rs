//! The template compiler: turns a template string containing placeholder
//! tokens of the form `{$name}` into a sequence of matcher segments.

use vstd::prelude::*;

verus! {

/// One element of a compiled template: a single literal character that the
/// input must contain exactly, or a named placeholder that captures one or
/// more input characters.
pub enum Seg {
    Lit(char),
    Hole(Vec<char>),
}

/// Specification-level form of `Seg`. When `is_hole` is false the segment
/// stands for the literal character `lit`; when it is true, for a placeholder
/// named `name`. The unused field is held at a fixed default so that two
/// segments are equal exactly when they stand for the same thing.
pub ghost struct SegV {
    pub is_hole: bool,
    pub lit: char,
    pub name: Seq<char>,
}

/// The specification segment for a literal character.
pub open spec fn seg_lit(c: char) -> SegV {
    SegV { is_hole: false, lit: c, name: Seq::empty() }
}

/// The specification segment for a placeholder.
pub open spec fn seg_hole(n: Seq<char>) -> SegV {
    SegV { is_hole: true, lit: ' ', name: n }
}

impl View for Seg {
    type V = SegV;

    open spec fn view(&self) -> SegV {
        match self {
            Seg::Lit(c) => seg_lit(*c),
            Seg::Hole(n) => seg_hole(n@),
        }
    }
}

/// The specification-level contents of a compiled template.
pub open spec fn segs_view(s: Seq<Seg>) -> Seq<SegV> {
    s.map_values(|g: Seg| g@)
}

proof fn lemma_segs_view_push(s: Seq<Seg>, x: Seg)
    ensures
        segs_view(s.push(x)) == segs_view(s).push(x@),
{
    assert(segs_view(s.push(x)) =~= segs_view(s).push(x@));
}

/// A placeholder name consists of ASCII letters, digits and underscores.
pub open spec fn is_word_char(c: char) -> bool {
    ||| 'a' <= c && c <= 'z'
    ||| 'A' <= c && c <= 'Z'
    ||| '0' <= c && c <= '9'
    ||| c == '_'
}

fn word_char(c: char) -> (b: bool)
    ensures
        b == is_word_char(c),
{
    ('a' <= c && c <= 'z') || ('A' <= c && c <= 'Z') || ('0' <= c && c <= '9') || c == '_'
}

/// The first position at or after `i` holding a character that cannot belong
/// to a placeholder name.
pub open spec fn word_end(t: Seq<char>, i: int) -> int
    decreases t.len() - i,
{
    if i < 0 || i >= t.len() {
        i
    } else if is_word_char(t[i]) {
        word_end(t, i + 1)
    } else {
        i
    }
}

pub proof fn lemma_word_end(t: Seq<char>, i: int)
    requires
        0 <= i <= t.len(),
    ensures
        i <= word_end(t, i) <= t.len(),
        forall|k: int| i <= k < word_end(t, i) ==> is_word_char(t[k]),
        word_end(t, i) < t.len() ==> !is_word_char(t[word_end(t, i)]),
    decreases t.len() - i,
{
    if i < t.len() && is_word_char(t[i]) {
        lemma_word_end(t, i + 1);
    }
}

/// A placeholder token `{$name}` starts at position `i` of the template:
/// `{` and `$`, then at least one name character, then `}`.
pub open spec fn ph_at(t: Seq<char>, i: int) -> bool {
    &&& 0 <= i
    &&& i + 1 < t.len()
    &&& t[i] == '{'
    &&& t[i + 1] == '$'
    &&& word_end(t, i + 2) > i + 2
    &&& word_end(t, i + 2) < t.len()
    &&& t[word_end(t, i + 2)] == '}'
}

/// A template with no placeholder token anywhere in its text.
pub open spec fn no_placeholders(t: Seq<char>) -> bool {
    forall|i: int| !ph_at(t, i)
}

/// The name captured by the placeholder token starting at `i`.
pub open spec fn ph_name(t: Seq<char>, i: int) -> Seq<char> {
    t.subrange(i + 2, word_end(t, i + 2))
}

/// The position just past the placeholder token starting at `i`.
pub open spec fn ph_end(t: Seq<char>, i: int) -> int {
    word_end(t, i + 2) + 1
}

/// The compiled form of the template suffix starting at position `i`: a scan
/// from left to right that emits a hole for each placeholder token and a
/// literal for every other character.
pub open spec fn parse_from(t: Seq<char>, i: int) -> Seq<SegV>
    decreases t.len() - i,
    via parse_from_dec
{
    if i < 0 || i >= t.len() {
        Seq::empty()
    } else if ph_at(t, i) {
        seq![seg_hole(ph_name(t, i))] + parse_from(t, ph_end(t, i))
    } else {
        seq![seg_lit(t[i])] + parse_from(t, i + 1)
    }
}

#[via_fn]
proof fn parse_from_dec(t: Seq<char>, i: int) {
    if 0 <= i && i < t.len() && ph_at(t, i) {
        lemma_word_end(t, i + 2);
    }
}

/// The text a segment stands for: the literal character itself, or the
/// placeholder token written out.
pub open spec fn seg_text(g: SegV) -> Seq<char> {
    if g.is_hole {
        seq!['{', '$'] + g.name + seq!['}']
    } else {
        seq![g.lit]
    }
}

/// The text a whole segment sequence stands for.
pub open spec fn segs_text(s: Seq<SegV>) -> Seq<char>
    decreases s.len(),
{
    if s.len() == 0 {
        Seq::empty()
    } else {
        seg_text(s[0]) + segs_text(s.drop_first())
    }
}

/// Compiling a template loses no text: writing the segments back out yields
/// the template suffix they were parsed from.
pub proof fn lemma_parse_round_trip(t: Seq<char>, i: int)
    requires
        0 <= i <= t.len(),
    ensures
        segs_text(parse_from(t, i)) == t.subrange(i, t.len() as int),
    decreases t.len() - i,
{
    if i >= t.len() {
        assert(segs_text(parse_from(t, i)) =~= t.subrange(i, t.len() as int));
    } else if ph_at(t, i) {
        let j = word_end(t, i + 2);
        lemma_word_end(t, i + 2);
        lemma_parse_round_trip(t, j + 1);
        let segs = parse_from(t, i);
        assert(segs.drop_first() =~= parse_from(t, j + 1));
        assert(seg_text(segs[0]) =~= t.subrange(i, j + 1));
        assert(t.subrange(i, j + 1) + t.subrange(j + 1, t.len() as int) =~= t.subrange(
            i,
            t.len() as int,
        ));
    } else {
        lemma_parse_round_trip(t, i + 1);
        let segs = parse_from(t, i);
        assert(segs.drop_first() =~= parse_from(t, i + 1));
        assert(seg_text(segs[0]) =~= t.subrange(i, i + 1));
        assert(t.subrange(i, i + 1) + t.subrange(i + 1, t.len() as int) =~= t.subrange(
            i,
            t.len() as int,
        ));
    }
}

/// Copies the character range `[from, to)` out of a character vector.
pub fn subvec(t: &Vec<char>, from: usize, to: usize) -> (r: Vec<char>)
    requires
        from <= to <= t@.len(),
    ensures
        r@ == t@.subrange(from as int, to as int),
{
    let mut r: Vec<char> = Vec::new();
    let mut k: usize = from;
    while k < to
        invariant
            from <= k <= to <= t@.len(),
            r@ == t@.subrange(from as int, k as int),
        decreases to - k,
    {
        r.push(t[k]);
        proof {
            assert(t@.subrange(from as int, k as int).push(t@[k as int]) =~= t@.subrange(
                from as int,
                k as int + 1,
            ));
        }
        k = k + 1;
    }
    r
}

fn word_end_exec(t: &Vec<char>, i: usize) -> (j: usize)
    requires
        i <= t@.len(),
    ensures
        j as int == word_end(t@, i as int),
        i <= j <= t@.len(),
{
    let mut j: usize = i;
    while j < t.len() && word_char(t[j])
        invariant
            i <= j <= t@.len(),
            word_end(t@, i as int) == word_end(t@, j as int),
        decreases t@.len() - j,
    {
        j = j + 1;
    }
    j
}

/// Compiles a template, given as its sequence of characters, into matcher
/// segments.
pub fn parse_template(t: &Vec<char>) -> (r: Vec<Seg>)
    ensures
        segs_view(r@) == parse_from(t@, 0),
{
    let mut r: Vec<Seg> = Vec::new();
    let mut i: usize = 0;
    proof {
        assert(segs_view(r@) + parse_from(t@, 0) =~= parse_from(t@, 0));
    }
    while i < t.len()
        invariant
            i <= t@.len(),
            segs_view(r@) + parse_from(t@, i as int) == parse_from(t@, 0),
        decreases t@.len() - i,
    {
        let ghost prev = r@;
        let mut next_i: usize = i + 1;
        let mut seg_opt: Option<Seg> = None;
        if i + 1 < t.len() {
            if t[i] == '{' && t[i + 1] == '$' {
                let j = word_end_exec(t, i + 2);
                if j > i + 2 && j < t.len() {
                    if t[j] == '}' {
                        let name = subvec(t, i + 2, j);
                        seg_opt = Some(Seg::Hole(name));
                        next_i = j + 1;
                        proof {
                            assert(ph_at(t@, i as int));
                            assert(name@ == ph_name(t@, i as int));
                        }
                    }
                }
            }
        }
        match seg_opt {
            Some(seg) => {
                proof {
                    assert(ph_at(t@, i as int));
                    assert(seg@ == seg_hole(ph_name(t@, i as int)));
                    assert(next_i as int == ph_end(t@, i as int));
                    lemma_segs_view_push(prev, seg);
                }
                r.push(seg);
                proof {
                    let head = seg_hole(ph_name(t@, i as int));
                    assert(parse_from(t@, i as int) == seq![head] + parse_from(
                        t@,
                        next_i as int,
                    ));
                    assert(segs_view(prev).push(head) + parse_from(t@, next_i as int)
                        =~= segs_view(prev) + (seq![head] + parse_from(t@, next_i as int)));
                }
            },
            None => {
                let c = t[i];
                let seg = Seg::Lit(c);
                proof {
                    assert(!ph_at(t@, i as int)) by {
                        if ph_at(t@, i as int) {
                            lemma_word_end(t@, i as int + 2);
                        }
                    }
                    assert(seg@ == seg_lit(t@[i as int]));
                    lemma_segs_view_push(prev, seg);
                }
                r.push(seg);
                proof {
                    let head = seg_lit(t@[i as int]);
                    assert(next_i == i + 1);
                    assert(parse_from(t@, i as int) == seq![head] + parse_from(
                        t@,
                        next_i as int,
                    ));
                    assert(segs_view(prev).push(head) + parse_from(t@, next_i as int)
                        =~= segs_view(prev) + (seq![head] + parse_from(t@, next_i as int)));
                }
            },
        }
        i = next_i;
    }
    proof {
        assert(parse_from(t@, i as int) =~= Seq::<SegV>::empty());
        assert(segs_view(r@) + Seq::<SegV>::empty() =~= segs_view(r@));
    }
    r
}

} // verus!
