//! The rendered-text reconciler: re-applies the substitutions recorded while
//! translating a record's structured fields to its flattened rendered text,
//! by literal substring replacement.

use vstd::prelude::*;

use crate::translate::{chars_to_string, push_all, str_chars};

verus! {

/// Global literal replacement, scanning left to right without overlap: each
/// occurrence of `p` becomes `r`, and text inserted by a replacement is not
/// scanned again.
pub open spec fn replace_all(t: Seq<char>, p: Seq<char>, r: Seq<char>) -> Seq<char>
    decreases t.len(),
{
    if p.len() == 0 || t.len() == 0 {
        t
    } else if p.len() <= t.len() && t.subrange(0, p.len() as int) == p {
        r + replace_all(t.skip(p.len() as int), p, r)
    } else {
        seq![t[0]] + replace_all(t.drop_first(), p, r)
    }
}

/// One logged substitution applied to the rendered text. A pair whose
/// original is empty, or identical to its translation, is skipped.
pub open spec fn apply_pair(text: Seq<char>, pr: (Seq<char>, Seq<char>)) -> Seq<char> {
    if pr.0.len() > 0 && pr.0 != pr.1 {
        replace_all(text, pr.0, pr.1)
    } else {
        text
    }
}

/// The whole substitution log applied to the rendered text, in log order.
pub open spec fn apply_log(text: Seq<char>, log: Seq<(Seq<char>, Seq<char>)>) -> Seq<char>
    decreases log.len(),
{
    if log.len() == 0 {
        text
    } else {
        apply_log(apply_pair(text, log[0]), log.drop_first())
    }
}

/// The specification-level contents of an executable substitution log.
pub open spec fn log_view(s: Seq<(String, String)>) -> Seq<(Seq<char>, Seq<char>)> {
    s.map_values(|p: (String, String)| (p.0@, p.1@))
}

/// `p` occurs as a contiguous substring of `t`.
pub open spec fn contains_sub(t: Seq<char>, p: Seq<char>) -> bool {
    exists|i: int| 0 <= i && i + p.len() <= t.len() && #[trigger] t.subrange(i, i + p.len()) == p
}

/// Replacement reaches every occurrence: if the pattern occurs in the text,
/// the replacement text occurs in the result.
pub proof fn lemma_replace_contains(t: Seq<char>, p: Seq<char>, r: Seq<char>)
    requires
        p.len() > 0,
        contains_sub(t, p),
    ensures
        contains_sub(replace_all(t, p, r), r),
    decreases t.len(),
{
    let i = choose|i: int| 0 <= i && i + p.len() <= t.len() && #[trigger] t.subrange(i, i + p.len()) == p;
    assert(t.len() > 0);
    if p.len() <= t.len() && t.subrange(0, p.len() as int) == p {
        let out = r + replace_all(t.skip(p.len() as int), p, r);
        let zero: int = 0;
        assert(out.subrange(zero, zero + r.len()) =~= r);
        assert(contains_sub(out, r)) by {
            assert(zero + r.len() <= out.len() && out.subrange(zero, zero + r.len()) == r);
        }
    } else {
        assert(i != 0);
        let t1 = t.drop_first();
        assert(t1.subrange(i - 1, i - 1 + p.len()) =~= t.subrange(i, i + p.len()));
        assert(contains_sub(t1, p)) by {
            assert(0 <= i - 1 && i - 1 + p.len() <= t1.len() && t1.subrange(i - 1, i - 1 + p.len())
                == p);
        }
        lemma_replace_contains(t1, p, r);
        let j = choose|j: int|
            0 <= j && j + r.len() <= replace_all(t1, p, r).len() && #[trigger] replace_all(t1, p, r).subrange(
                j,
                j + r.len(),
            ) == r;
        let out = seq![t[0]] + replace_all(t1, p, r);
        assert(out.subrange(j + 1, j + 1 + r.len()) =~= replace_all(t1, p, r).subrange(
            j,
            j + r.len(),
        ));
        assert(contains_sub(out, r)) by {
            assert(0 <= j + 1 && j + 1 + r.len() <= out.len() && out.subrange(j + 1, j + 1 + r.len())
                == r);
        }
    }
}

/// Rendered consistency for one substitution: when the log holds a single
/// pair whose original text occurs in the rendered text, the reconciled text
/// contains the pair's translation.
pub proof fn lemma_rendered_consistency(text: Seq<char>, a: Seq<char>, b: Seq<char>)
    requires
        a.len() > 0,
        contains_sub(text, a),
    ensures
        contains_sub(apply_log(text, seq![(a, b)]), b),
{
    let log = seq![(a, b)];
    assert(log.drop_first() =~= Seq::<(Seq<char>, Seq<char>)>::empty());
    assert(log[0] == (a, b));
    assert(apply_log(apply_pair(text, (a, b)), log.drop_first()) == apply_pair(text, (a, b)));
    assert(apply_log(text, log) == apply_pair(text, (a, b)));
    if a.len() > 0 && a != b {
        lemma_replace_contains(text, a, b);
    }
}

/// Whether `p` starts at position `i` of `t`.
fn has_at(t: &Vec<char>, p: &Vec<char>, i: usize) -> (b: bool)
    requires
        i <= t@.len(),
    ensures
        b == (i + p@.len() <= t@.len() && t@.subrange(i as int, i as int + p@.len() as int) == p@),
{
    if p.len() > t.len() - i {
        return false;
    }
    let mut k: usize = 0;
    while k < p.len()
        invariant
            k <= p@.len(),
            i + p@.len() <= t@.len(),
            t@.len() <= usize::MAX,
            forall|j: int| 0 <= j < k ==> t@[i + j] == p@[j],
        decreases p@.len() - k,
    {
        if t[i + k] != p[k] {
            proof {
                assert(t@.subrange(i as int, i as int + p@.len() as int)[k as int] == t@[i + k]);
            }
            return false;
        }
        k = k + 1;
    }
    proof {
        assert(t@.subrange(i as int, i as int + p@.len() as int) =~= p@);
    }
    true
}

/// Replaces every occurrence of `p` in `t` by `r`, scanning left to right.
#[verifier::loop_isolation(false)]
fn replace_chars(t: &Vec<char>, p: &Vec<char>, r: &Vec<char>) -> (out: Vec<char>)
    requires
        p@.len() > 0,
    ensures
        out@ == replace_all(t@, p@, r@),
{
    let mut out: Vec<char> = Vec::new();
    let mut i: usize = 0;
    proof {
        assert(t@.skip(0) =~= t@);
        assert(out@ + replace_all(t@.skip(0), p@, r@) =~= replace_all(t@, p@, r@));
    }
    while i < t.len()
        invariant
            i <= t@.len(),
            replace_all(t@, p@, r@) == out@ + replace_all(t@.skip(i as int), p@, r@),
        decreases t@.len() - i,
    {
        let ghost out0 = out@;
        let ghost rest = t@.skip(i as int);
        if has_at(t, p, i) {
            push_all(&mut out, r);
            proof {
                assert(rest.subrange(0, p@.len() as int) =~= t@.subrange(
                    i as int,
                    i as int + p@.len() as int,
                ));
                assert(rest.skip(p@.len() as int) =~= t@.skip(i as int + p@.len() as int));
                assert(replace_all(rest, p@, r@) == r@ + replace_all(
                    t@.skip(i as int + p@.len() as int),
                    p@,
                    r@,
                ));
                assert((out0 + r@) + replace_all(t@.skip(i as int + p@.len() as int), p@, r@)
                    =~= out0 + (r@ + replace_all(t@.skip(i as int + p@.len() as int), p@, r@)));
            }
            i = i + p.len();
        } else {
            out.push(t[i]);
            proof {
                if i + p@.len() <= t@.len() {
                    assert(rest.subrange(0, p@.len() as int) =~= t@.subrange(
                        i as int,
                        i as int + p@.len() as int,
                    ));
                }
                assert(rest.drop_first() =~= t@.skip(i as int + 1));
                assert(rest[0] == t@[i as int]);
                assert(replace_all(rest, p@, r@) == seq![t@[i as int]] + replace_all(
                    t@.skip(i as int + 1),
                    p@,
                    r@,
                ));
                assert((out0 + seq![t@[i as int]]) + replace_all(t@.skip(i as int + 1), p@, r@)
                    =~= out0 + (seq![t@[i as int]] + replace_all(t@.skip(i as int + 1), p@, r@)));
                assert(out@ =~= out0 + seq![t@[i as int]]);
            }
            i = i + 1;
        }
    }
    proof {
        assert(t@.skip(t@.len() as int) =~= Seq::<char>::empty());
        assert(out@ + Seq::<char>::empty() =~= out@);
    }
    out
}

/// Rewrites the rendered text by applying each logged substitution in order:
/// every occurrence of a logged original becomes its translation; pairs whose
/// original is empty or unchanged are skipped.
#[verifier::loop_isolation(false)]
pub fn reconcile_rendered(rendered: &str, log: &Vec<(String, String)>) -> (r: String)
    ensures
        r@ == apply_log(rendered@, log_view(log@)),
{
    let ghost lv = log_view(log@);
    let mut cur = str_chars(rendered);
    let mut i: usize = 0;
    proof {
        assert(lv.skip(0) =~= lv);
    }
    while i < log.len()
        invariant
            i <= log@.len(),
            apply_log(rendered@, lv) == apply_log(cur@, lv.skip(i as int)),
        decreases log@.len() - i,
    {
        proof {
            assert(lv.skip(i as int)[0] == lv[i as int]);
            assert(lv[i as int] == (log@[i as int].0@, log@[i as int].1@));
            assert(lv.skip(i as int).drop_first() =~= lv.skip(i as int + 1));
        }
        let ghost cur0 = cur@;
        let orig = &log[i].0;
        let trans = &log[i].1;
        if !orig.as_str().is_empty() && *orig != *trans {
            let pc = str_chars(orig.as_str());
            let tc = str_chars(trans.as_str());
            let replaced = replace_chars(&cur, &pc, &tc);
            cur = replaced;
            proof {
                assert(cur@ == apply_pair(cur0, lv.skip(i as int)[0]));
            }
        } else {
            proof {
                assert(cur@ == apply_pair(cur0, lv.skip(i as int)[0]));
            }
        }
        i = i + 1;
    }
    proof {
        assert(lv.skip(log@.len() as int) =~= Seq::<(Seq<char>, Seq<char>)>::empty());
    }
    chars_to_string(&cur)
}

} // verus!
