//! The anchored matcher: tests a compiled template against a prefix of an
//! input string, capturing placeholder values and the trailing remainder.

use vstd::prelude::*;

use crate::template::{seg_hole, seg_lit, segs_view, Seg, SegV};
use crate::template::subvec;

verus! {

/// The outcome of a successful match: the captured (name, value) pairs in
/// template order, and the position in the input where the trailing
/// remainder starts.
pub ghost struct MatchResult {
    pub caps: Seq<(Seq<char>, Seq<char>)>,
    pub rem: int,
}

/// Matches the segments against `text` starting at `pos`. A literal segment
/// consumes exactly its character; a placeholder captures the shortest
/// non-empty span that lets the remaining segments match; the segments as a
/// whole match a prefix of the input, and `rem` marks where the unmatched
/// trailing remainder begins.
pub open spec fn match_at(segs: Seq<SegV>, text: Seq<char>, pos: int) -> Option<MatchResult>
    decreases segs.len(), 0int,
{
    if segs.len() == 0 {
        Some(MatchResult { caps: Seq::empty(), rem: pos })
    } else if !segs[0].is_hole {
        if 0 <= pos && pos < text.len() && text[pos] == segs[0].lit {
            match_at(segs.drop_first(), text, pos + 1)
        } else {
            None
        }
    } else {
        hole_from(segs[0].name, segs.drop_first(), text, pos, pos + 1)
    }
}

/// The search for a placeholder's capture: the capture runs from `start` up
/// to the first position `end` at or after the given one from which the
/// remaining segments match.
pub open spec fn hole_from(
    name: Seq<char>,
    rest: Seq<SegV>,
    text: Seq<char>,
    start: int,
    end: int,
) -> Option<MatchResult>
    decreases rest.len(), text.len() - end + 2,
{
    if start < 0 || end > text.len() {
        None
    } else {
        match match_at(rest, text, end) {
            Some(m) => Some(
                MatchResult {
                    caps: seq![(name, text.subrange(start, end))] + m.caps,
                    rem: m.rem,
                },
            ),
            None => hole_from(name, rest, text, start, end + 1),
        }
    }
}

/// The specification-level contents of an executable capture list.
pub open spec fn caps_view(s: Seq<(Vec<char>, Vec<char>)>) -> Seq<(Seq<char>, Seq<char>)> {
    s.map_values(|p: (Vec<char>, Vec<char>)| (p.0@, p.1@))
}

proof fn lemma_caps_view_prepend(pair: (Vec<char>, Vec<char>), rest: Seq<(Vec<char>, Vec<char>)>)
    ensures
        caps_view(seq![pair] + rest) == seq![(pair.0@, pair.1@)] + caps_view(rest),
{
    assert(caps_view(seq![pair] + rest) =~= seq![(pair.0@, pair.1@)] + caps_view(rest));
}

/// How an executable matcher outcome corresponds to the specification: the
/// same success or failure, the same captures, the same remainder position.
pub open spec fn res_matches(
    r: Option<(Vec<(Vec<char>, Vec<char>)>, usize)>,
    segs: Seq<SegV>,
    text: Seq<char>,
    pos: int,
) -> bool {
    match (r, match_at(segs, text, pos)) {
        (Some(p), Some(m)) => {
            &&& caps_view(p.0@) == m.caps
            &&& p.1 as int == m.rem
            &&& pos <= p.1 <= text.len()
        },
        (None, None) => true,
        _ => false,
    }
}

/// Runs the compiled segments `segs[si..]` against `text` from `pos`,
/// returning the captures and the remainder start of the first match in the
/// placeholder search order, exactly as the specification matcher does.
#[verifier::loop_isolation(false)]
pub fn match_segs(segs: &Vec<Seg>, si: usize, text: &Vec<char>, pos: usize) -> (r: Option<
    (Vec<(Vec<char>, Vec<char>)>, usize),
>)
    requires
        si <= segs@.len(),
        pos <= text@.len(),
    ensures
        res_matches(r, segs_view(segs@).skip(si as int), text@, pos as int),
    decreases segs@.len() - si,
{
    let ghost sv = segs_view(segs@).skip(si as int);
    if si == segs.len() {
        let caps: Vec<(Vec<char>, Vec<char>)> = Vec::new();
        proof {
            assert(sv =~= Seq::<SegV>::empty());
            assert(caps_view(caps@) =~= Seq::<(Seq<char>, Seq<char>)>::empty());
        }
        return Some((caps, pos));
    }
    proof {
        assert(sv[0] == segs@[si as int]@);
        assert(sv.drop_first() =~= segs_view(segs@).skip(si as int + 1));
    }
    match &segs[si] {
        Seg::Lit(c) => {
            proof {
                assert(segs@[si as int]@ == seg_lit(*c));
            }
            if pos < text.len() && text[pos] == *c {
                match_segs(segs, si + 1, text, pos + 1)
            } else {
                None
            }
        },
        Seg::Hole(n) => {
            proof {
                assert(segs@[si as int]@ == seg_hole(n@));
            }
            if pos == text.len() {
                return None;
            }
            let mut end: usize = pos;
            while end < text.len()
                invariant
                    pos <= end <= text@.len(),
                    hole_from(n@, sv.drop_first(), text@, pos as int, pos as int + 1)
                        == hole_from(n@, sv.drop_first(), text@, pos as int, end as int + 1),
                decreases text@.len() - end,
            {
                end = end + 1;
                let rr = match_segs(segs, si + 1, text, end);
                match rr {
                    Some(p) => {
                        let (mut caps, rem) = p;
                        let ghost caps0 = caps@;
                        let value = subvec(text, pos, end);
                        let name_c = subvec(n, 0, n.len());
                        let pair = (name_c, value);
                        proof {
                            assert(pair.0@ =~= n@);
                            lemma_caps_view_prepend(pair, caps0);
                        }
                        let mut out: Vec<(Vec<char>, Vec<char>)> = Vec::new();
                        out.push(pair);
                        out.append(&mut caps);
                        proof {
                            assert(out@ =~= seq![pair] + caps0);
                        }
                        return Some((out, rem));
                    },
                    None => {},
                }
            }
            None
        },
    }
}

} // verus!
