//! Documented choices of a parameter: (choice, description) pairs, one per choice, in the
//! lexicographic order of the choice.
use vstd::prelude::*;
use crate::text::chars_equal;
use crate::text::chars_less;
use crate::text::chars_of;
use crate::text::seq_lt;

verus! {

/// The abstract value of a list of documented choices.
pub open spec fn choices_view(v: Seq<(String, String)>) -> Seq<(Seq<char>, Seq<char>)> {
    v.map_values(|p: (String, String)| (p.0@, p.1@))
}

/// The first position, from `i` on, whose choice does not come before `key`.
pub open spec fn choice_position(cs: Seq<(Seq<char>, Seq<char>)>, key: Seq<char>, i: int) -> int
    decreases cs.len() - i,
{
    if i < 0 || i >= cs.len() {
        cs.len() as int
    } else if !seq_lt(cs[i].0, key) {
        i
    } else {
        choice_position(cs, key, i + 1)
    }
}

/// Documenting `key` with `description`: a choice already documented gets the new description,
/// a new one takes its place in order.
pub open spec fn choices_insert(cs: Seq<(Seq<char>, Seq<char>)>, key: Seq<char>, description: Seq<char>) -> Seq<(Seq<char>, Seq<char>)> {
    let j = choice_position(cs, key, 0);
    if j < cs.len() && cs[j].0 == key {
        cs.update(j, (key, description))
    } else {
        cs.insert(j, (key, description))
    }
}

/// Documenting each of `pairs`, in order, starting from no choices.
pub open spec fn choices_of(pairs: Seq<(Seq<char>, Seq<char>)>) -> Seq<(Seq<char>, Seq<char>)>
    decreases pairs.len(),
{
    if pairs.len() == 0 {
        Seq::empty()
    } else {
        let last = pairs.last();
        choices_insert(choices_of(pairs.drop_last()), last.0, last.1)
    }
}

proof fn lemma_choice_position_range(cs: Seq<(Seq<char>, Seq<char>)>, key: Seq<char>, i: int)
    requires
        0 <= i <= cs.len(),
    ensures
        i <= choice_position(cs, key, i) <= cs.len(),
    decreases cs.len() - i,
{
    if i < cs.len() && seq_lt(cs[i].0, key) {
        lemma_choice_position_range(cs, key, i + 1);
    }
}

/// Document `key` with `description` (replacing an earlier description of `key`).
pub fn insert_choice(choices: &mut Vec<(String, String)>, key: String, description: String)
    ensures
        choices_view(final(choices)@) == choices_insert(choices_view(old(choices)@), key@, description@),
{
    let ghost cs = choices_view(choices@);
    let key_chars = chars_of(key.as_str());
    let mut i: usize = 0;
    proof {
        lemma_choice_position_range(cs, key@, 0);
    }
    while i < choices.len()
        invariant
            i <= choices@.len(),
            cs == choices_view(choices@),
            key_chars@ == key@,
            choice_position(cs, key@, 0) == choice_position(cs, key@, i as int),
        ensures
            i <= choices@.len(),
            cs == choices_view(choices@),
            choice_position(cs, key@, 0) == i as int,
        decreases choices.len() - i,
    {
        let here = chars_of(choices[i].0.as_str());
        assert(here@ == cs[i as int].0);
        if !chars_less(&here, &key_chars) {
            break;
        }
        i = i + 1;
    }
    assert(choice_position(cs, key@, 0) == i as int);
    if i < choices.len() {
        let here = chars_of(choices[i].0.as_str());
        if chars_equal(&here, &key_chars) {
            choices.set(i, (key, description));
            assert(choices_view(choices@) =~= choices_insert(cs, here@, description@));
            return;
        }
    }
    let ghost kv = (key@, description@);
    choices.insert(i, (key, description));
    assert(choices_view(choices@) =~= cs.insert(i as int, kv));
}

/// The choices documented by `pairs`, in order (a later description of a choice replaces an earlier one).
pub fn choices_from(pairs: Vec<(String, String)>) -> (r: Vec<(String, String)>)
    ensures
        choices_view(r@) == choices_of(choices_view(pairs@)),
{
    let ghost ps = choices_view(pairs@);
    let mut r: Vec<(String, String)> = Vec::new();
    let rest = pairs;
    let mut i: usize = 0;
    let n = rest.len();
    while i < n
        invariant
            i <= n,
            n == ps.len(),
            ps == choices_view(pairs@),
            rest@.len() == n,
            choices_view(rest@) == ps,
            choices_view(r@) == choices_of(ps.take(i as int)),
        decreases n - i,
    {
        let k = rest[i].0.clone();
        let d = rest[i].1.clone();
        assert(k@ == ps[i as int].0 && d@ == ps[i as int].1);
        assert(ps.take(i + 1).drop_last() =~= ps.take(i as int));
        insert_choice(&mut r, k, d);
        i = i + 1;
    }
    assert(ps.take(n as int) =~= ps);
    r
}

} // verus!
